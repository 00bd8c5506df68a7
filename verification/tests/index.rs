use memista::config::{IndexConfig, Metric, Scalar};
use memista::error::{Fault, Mismatch};
use memista::index::{capacity_for, pick_unheld, Established, IndexHandle};
use memista::keys::index_key;

fn two_dimensions(multi: bool) -> IndexHandle {
    IndexHandle::create(&IndexConfig::new(2, Metric::InnerProduct, multi)).expect("index")
}

#[test]
fn created_index_is_empty() {
    let handle = two_dimensions(true);
    assert_eq!(handle.len(), 0);
    assert!(!handle.holds(1));
}

#[test]
fn created_index_reports_what_it_was_made_with() {
    let handle = IndexHandle::create(&IndexConfig::new(3, Metric::Cosine, false)).expect("index");
    assert_eq!(handle.index.dimensions(), 3);
    assert!(!handle.index.multi());
    assert_eq!(handle.verify(&IndexConfig::new(3, Metric::Cosine, false)), Ok(()));
    assert_eq!(handle.verify(&IndexConfig::new(3, Metric::Cosine, true)), Ok(()));
}

#[test]
fn verify_refuses_other_dimensions() {
    let handle = two_dimensions(true);
    assert_eq!(
        handle.verify(&IndexConfig::new(3, Metric::InnerProduct, true)),
        Err(Fault::ConfigMismatch(Mismatch::Dimension))
    );
}

#[test]
fn verify_refuses_another_metric() {
    let handle = two_dimensions(true);
    assert_eq!(
        handle.verify(&IndexConfig::new(2, Metric::Cosine, true)),
        Err(Fault::ConfigMismatch(Mismatch::Metric))
    );
    let cosine = IndexHandle::create(&IndexConfig::new(2, Metric::Cosine, true)).expect("index");
    assert_eq!(
        cosine.verify(&IndexConfig::new(2, Metric::InnerProduct, true)),
        Err(Fault::ConfigMismatch(Mismatch::Metric))
    );
    assert_eq!(cosine.verify(&IndexConfig::new(2, Metric::Cosine, true)), Ok(()));
}

#[test]
fn verify_names_dimensions_before_metric() {
    let handle = two_dimensions(true);
    assert_eq!(
        handle.verify(&IndexConfig::new(5, Metric::L2Squared, true)),
        Err(Fault::ConfigMismatch(Mismatch::Dimension))
    );
}

#[test]
fn reserve_additional_asks_for_held_plus_additional() {
    let handle = two_dimensions(true);
    assert_eq!(handle.reserve_additional(2), Ok(2));
    handle.index.add(1, &[1.0f32, 0.0]).expect("add");
    handle.index.add(2, &[0.0f32, 1.0]).expect("add");
    assert_eq!(handle.len(), 2);
    assert_eq!(handle.reserve_additional(3), Ok(5));
    assert!(handle.index.capacity() >= 5);
}

#[test]
fn reserve_additional_beyond_machine_range_is_a_storage_fault() {
    let handle = two_dimensions(true);
    assert_eq!(handle.reserve_additional(1), Ok(1));
    handle.index.add(1, &[1.0f32, 0.0]).expect("add");
    assert_eq!(handle.reserve_additional(usize::MAX), Err(Fault::StorageIO));
    assert_eq!(handle.len(), 1);
}

#[test]
fn len_and_holds_follow_additions() {
    let handle = two_dimensions(true);
    handle.reserve_additional(3).expect("reserve");
    handle.index.add(7, &[1.0f32, 0.0]).expect("add");
    handle.index.add(7, &[0.5f32, 0.5]).expect("add");
    handle.index.add(9, &[0.0f32, 1.0]).expect("add");
    assert_eq!(handle.len(), 3);
    assert!(handle.holds(7));
    assert!(handle.holds(9));
    assert!(!handle.holds(8));
}

#[test]
fn check_add_refuses_a_vector_of_another_length() {
    let handle = two_dimensions(true);
    handle.reserve_additional(1).expect("reserve");
    assert_eq!(handle.check_add(1, 3), Err(Fault::ConfigMismatch(Mismatch::Dimension)));
    assert_eq!(handle.check_add(1, 0), Err(Fault::ConfigMismatch(Mismatch::Dimension)));
    assert_eq!(handle.check_add(1, 2), Ok(()));
    assert_eq!(handle.len(), 0);
}

#[test]
fn check_add_refuses_a_repeated_key_in_a_single_vector_index() {
    let handle = two_dimensions(false);
    handle.reserve_additional(2).expect("reserve");
    assert_eq!(handle.check_add(4, 2), Ok(()));
    handle.index.add(4, &[1.0f32, 0.0]).expect("add");
    assert_eq!(handle.check_add(4, 2), Err(Fault::DuplicateKey));
    assert_eq!(handle.check_add(5, 2), Ok(()));
    assert_eq!(handle.check_add(4, 3), Err(Fault::ConfigMismatch(Mismatch::Dimension)));
}

#[test]
fn check_add_takes_a_repeated_key_in_a_multi_vector_index() {
    let handle = two_dimensions(true);
    handle.reserve_additional(2).expect("reserve");
    handle.index.add(4, &[1.0f32, 0.0]).expect("add");
    assert_eq!(handle.check_add(4, 2), Ok(()));
}

#[test]
fn check_query_compares_length_with_dimensions() {
    let handle = two_dimensions(true);
    assert_eq!(handle.check_query(2), Ok(()));
    assert_eq!(handle.check_query(1), Err(Fault::ConfigMismatch(Mismatch::Dimension)));
}

#[test]
fn missing_lists_rows_without_vector_in_order() {
    let handle = two_dimensions(true);
    handle.reserve_additional(3).expect("reserve");
    handle.index.add(index_key(2), &[1.0f32, 0.0]).expect("add");
    handle.index.add(index_key(-5), &[0.0f32, 1.0]).expect("add");
    assert_eq!(handle.missing(&vec![1, 2, 3, -5, 4]), vec![1, 3, 4]);
    assert_eq!(handle.missing(&vec![4, 1, 4]), vec![4, 1, 4]);
    assert_eq!(handle.missing(&vec![2, -5]), Vec::<i64>::new());
    assert_eq!(handle.missing(&vec![]), Vec::<i64>::new());
}

#[test]
fn missing_is_empty_once_the_missing_are_added() {
    let handle = two_dimensions(true);
    handle.reserve_additional(4).expect("reserve");
    handle.index.add(index_key(1), &[1.0f32, 0.0]).expect("add");
    let rows = vec![1, 2, 3];
    let left = handle.missing(&rows);
    assert_eq!(left, vec![2, 3]);
    for id in left {
        handle.index.add(index_key(id), &[0.0f32, 1.0]).expect("add");
    }
    assert_eq!(handle.missing(&rows), Vec::<i64>::new());
    assert_eq!(handle.missing(&rows), Vec::<i64>::new());
}

#[test]
fn established_reports_dimensions_metric_and_key_policy() {
    let handle = IndexHandle::create(&IndexConfig::new(3, Metric::Cosine, false)).expect("index");
    assert_eq!(
        handle.established(),
        Established { dimensions: 3, metric: Metric::Cosine, multi: false }
    );
    let handle = two_dimensions(true);
    assert_eq!(
        handle.established(),
        Established { dimensions: 2, metric: Metric::InnerProduct, multi: true }
    );
}

#[test]
fn established_verify_takes_the_same_dimensions_and_metric_only() {
    let established = Established { dimensions: 2, metric: Metric::InnerProduct, multi: true };
    assert_eq!(established.verify(&IndexConfig::new(2, Metric::InnerProduct, true)), Ok(()));
    assert_eq!(established.verify(&IndexConfig::new(2, Metric::InnerProduct, false)), Ok(()));
    assert_eq!(
        established.verify(&IndexConfig::new(3, Metric::InnerProduct, true)),
        Err(Fault::ConfigMismatch(Mismatch::Dimension))
    );
    assert_eq!(
        established.verify(&IndexConfig::new(2, Metric::L2Squared, true)),
        Err(Fault::ConfigMismatch(Mismatch::Metric))
    );
    assert_eq!(
        established.verify(&IndexConfig::new(0, Metric::Unknown, true)),
        Err(Fault::ConfigMismatch(Mismatch::Dimension))
    );
}

#[test]
fn established_check_add_decides_by_length_then_by_key() {
    let single = Established { dimensions: 2, metric: Metric::InnerProduct, multi: false };
    let multi = Established { dimensions: 2, metric: Metric::InnerProduct, multi: true };
    assert_eq!(single.check_add(7, false, 2), Ok(()));
    assert_eq!(single.check_add(7, true, 2), Err(Fault::DuplicateKey));
    assert_eq!(multi.check_add(7, true, 2), Ok(()));
    assert_eq!(multi.check_add(7, false, 2), Ok(()));
    assert_eq!(multi.check_add(u64::MAX - 1, false, 2), Ok(()));
    for established in [single, multi] {
        for held in [false, true] {
            for len in [0usize, 1, 3, usize::MAX] {
                assert_eq!(
                    established.check_add(7, held, len),
                    Err(Fault::ConfigMismatch(Mismatch::Dimension))
                );
            }
        }
    }
}

#[test]
fn established_check_query_decides_by_length() {
    let established = Established { dimensions: 4, metric: Metric::Cosine, multi: true };
    assert_eq!(established.check_query(4), Ok(()));
    assert_eq!(established.check_query(3), Err(Fault::ConfigMismatch(Mismatch::Dimension)));
    assert_eq!(established.check_query(0), Err(Fault::ConfigMismatch(Mismatch::Dimension)));
}

#[test]
fn capacity_for_adds_unless_beyond_machine_range() {
    assert_eq!(capacity_for(0, 0), Some(0));
    assert_eq!(capacity_for(2, 3), Some(5));
    assert_eq!(capacity_for(usize::MAX, 0), Some(usize::MAX));
    assert_eq!(capacity_for(usize::MAX - 1, 1), Some(usize::MAX));
    assert_eq!(capacity_for(usize::MAX, 1), None);
    assert_eq!(capacity_for(1, usize::MAX), None);
}

#[test]
fn pick_unheld_keeps_order_and_repetitions() {
    assert_eq!(pick_unheld(&vec![1, 2, 3], &vec![false, true, false]), vec![1, 3]);
    assert_eq!(pick_unheld(&vec![5, 5, 5], &vec![true, false, false]), vec![5, 5]);
    assert_eq!(pick_unheld(&vec![1, 2], &vec![true, true]), Vec::<i64>::new());
    assert_eq!(pick_unheld(&vec![], &vec![]), Vec::<i64>::new());
}

#[test]
fn pick_unheld_counts_an_id_without_mark_as_not_held() {
    assert_eq!(pick_unheld(&vec![1, 2, 3], &vec![true]), vec![2, 3]);
    assert_eq!(pick_unheld(&vec![1, 2], &vec![]), vec![1, 2]);
    assert_eq!(pick_unheld(&vec![1], &vec![true, false, false]), Vec::<i64>::new());
}

#[test]
fn held_marks_each_id_by_its_key() {
    let handle = two_dimensions(true);
    handle.reserve_additional(2).expect("reserve");
    handle.index.add(index_key(2), &[1.0f32, 0.0]).expect("add");
    handle.index.add(index_key(-5), &[0.0f32, 1.0]).expect("add");
    assert_eq!(handle.held(&vec![1, 2, -5, 2, 5]), vec![false, true, true, true, false]);
    assert_eq!(handle.held(&vec![]), Vec::<bool>::new());
}

#[test]
fn created_index_has_the_scalar_type_and_graph_parameters_of_its_configuration() {
    for (scalar, kind) in [
        (Scalar::Single, usearch::ScalarKind::F32),
        (Scalar::Double, usearch::ScalarKind::F64),
        (Scalar::Half, usearch::ScalarKind::F16),
        (Scalar::Signed8, usearch::ScalarKind::I8),
    ] {
        let config = IndexConfig {
            dimensions: 4,
            metric: Metric::Cosine,
            quantization: scalar,
            connectivity: 8,
            expansion_add: 40,
            expansion_search: 20,
            multi: false,
        };
        let handle = IndexHandle::create(&config).expect("index");
        assert!(handle.index.scalar_kind() == kind);
        assert_eq!(handle.index.connectivity(), 8);
        assert_eq!(handle.index.expansion_add(), 40);
        assert_eq!(handle.index.expansion_search(), 20);
        assert_eq!(handle.established(), Established { dimensions: 4, metric: Metric::Cosine, multi: false });
    }
}

#[test]
fn created_index_ranks_by_the_metric_of_its_configuration() {
    for metric in [
        Metric::InnerProduct,
        Metric::L2Squared,
        Metric::Cosine,
        Metric::Pearson,
        Metric::Haversine,
        Metric::Divergence,
    ] {
        let handle = IndexHandle::create(&IndexConfig::new(2, metric, true)).expect("index");
        assert_eq!(handle.established().metric, metric);
        assert_eq!(handle.verify(&IndexConfig::new(2, metric, true)), Ok(()));
    }
}

#[test]
fn check_add_refuses_the_key_that_the_index_keeps_for_itself() {
    let single = Established { dimensions: 2, metric: Metric::InnerProduct, multi: false };
    let multi = Established { dimensions: 2, metric: Metric::InnerProduct, multi: true };
    for established in [single, multi] {
        for held in [false, true] {
            assert_eq!(established.check_add(u64::MAX, held, 2), Err(Fault::StorageIO));
            assert_eq!(
                established.check_add(u64::MAX, held, 3),
                Err(Fault::ConfigMismatch(Mismatch::Dimension))
            );
        }
    }
    let handle = two_dimensions(true);
    handle.reserve_additional(1).expect("reserve");
    assert_eq!(handle.check_add(index_key(-1), 2), Err(Fault::StorageIO));
    assert_eq!(handle.check_add(index_key(-2), 2), Ok(()));
    assert_eq!(handle.len(), 0);
}
