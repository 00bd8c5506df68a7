use memista::config::{IndexConfig, Metric, Scalar};
use memista::error::{Fault, Mismatch, StoreError};

#[test]
fn new_config_stores_single_precision_and_leaves_graph_to_index() {
    let config = IndexConfig::new(384, Metric::Cosine, false);
    assert_eq!(
        config,
        IndexConfig {
            dimensions: 384,
            metric: Metric::Cosine,
            quantization: Scalar::Single,
            connectivity: 0,
            expansion_add: 0,
            expansion_search: 0,
            multi: false,
        }
    );
}

#[test]
fn default_config_is_two_dimensions_inner_product_multi() {
    assert_eq!(IndexConfig::default(), IndexConfig::new(2, Metric::InnerProduct, true));
}

#[test]
fn from_fault_keeps_the_name_of_the_fault() {
    assert_eq!(
        StoreError::from_fault(Fault::ConfigMismatch(Mismatch::Dimension)),
        StoreError::ConfigMismatch(Mismatch::Dimension)
    );
    assert_eq!(
        StoreError::from_fault(Fault::ConfigMismatch(Mismatch::Metric)),
        StoreError::ConfigMismatch(Mismatch::Metric)
    );
    assert_eq!(StoreError::from_fault(Fault::NotFound), StoreError::NotFound);
    assert_eq!(StoreError::from_fault(Fault::DuplicateKey), StoreError::DuplicateKey);
    assert_eq!(StoreError::from_fault(Fault::StorageIO), StoreError::StorageIO);
}

#[test]
fn partial_failure_carries_position_ids_and_cause() {
    assert_eq!(
        StoreError::partial(2, vec![10, 11], Fault::DuplicateKey),
        StoreError::PartialBatchFailure {
            failed_index: 2,
            committed: vec![10, 11],
            cause: Fault::DuplicateKey
        }
    );
}
