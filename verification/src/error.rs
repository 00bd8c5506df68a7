//! The failures a store operation can report.
use vstd::prelude::*;

verus! {

/// The part of a collection's fixed configuration that a caller contradicted.
#[derive(Debug, Clone, Copy, PartialEq, Eq, Hash, Structural)]
pub enum Mismatch {
    /// The number of dimensions differs from the established one.
    Dimension,
    /// The distance metric differs from the established one.
    Metric,
}

/// The failure of one operation on one of the two stores.
#[derive(Debug, Clone, Copy, PartialEq, Eq, Hash, Structural)]
pub enum Fault {
    /// The supplied configuration or vector contradicts the collection's
    /// established configuration.
    ConfigMismatch(Mismatch),
    /// A row or a collection that was read does not exist.
    NotFound,
    /// The key is already in an index that holds one vector per key.
    DuplicateKey,
    /// The table or the snapshot file could not be read or written.
    StorageIO,
}

/// What a coordinated operation reports to its caller when it fails.
#[derive(Debug, PartialEq, Eq)]
pub enum StoreError {
    /// See [`Fault::ConfigMismatch`].
    ConfigMismatch(Mismatch),
    /// See [`Fault::NotFound`].
    NotFound,
    /// See [`Fault::DuplicateKey`].
    DuplicateKey,
    /// See [`Fault::StorageIO`].
    StorageIO,
    /// An insert stopped partway. The chunks before `failed_index` are
    /// committed to both stores under the ids in `committed`, in input order;
    /// nothing is rolled back.
    PartialBatchFailure { failed_index: usize, committed: Vec<i64>, cause: Fault },
}

/// Mathematical value of a [`StoreError`].
pub enum StoreErrorView {
    ConfigMismatch(Mismatch),
    NotFound,
    DuplicateKey,
    StorageIO,
    PartialBatchFailure { failed_index: nat, committed: Seq<i64>, cause: Fault },
}

impl View for StoreError {
    type V = StoreErrorView;

    open spec fn view(&self) -> StoreErrorView {
        match *self {
            StoreError::ConfigMismatch(m) => StoreErrorView::ConfigMismatch(m),
            StoreError::NotFound => StoreErrorView::NotFound,
            StoreError::DuplicateKey => StoreErrorView::DuplicateKey,
            StoreError::StorageIO => StoreErrorView::StorageIO,
            StoreError::PartialBatchFailure { failed_index, committed, cause } => {
                StoreErrorView::PartialBatchFailure {
                    failed_index: failed_index as nat,
                    committed: committed@,
                    cause,
                }
            },
        }
    }
}

/// The error that surfaces a single fault unchanged.
pub open spec fn surfaced(fault: Fault) -> StoreErrorView {
    match fault {
        Fault::ConfigMismatch(m) => StoreErrorView::ConfigMismatch(m),
        Fault::NotFound => StoreErrorView::NotFound,
        Fault::DuplicateKey => StoreErrorView::DuplicateKey,
        Fault::StorageIO => StoreErrorView::StorageIO,
    }
}

impl StoreError {
    /// Surfaces a single fault to the caller under the same name.
    pub fn from_fault(fault: Fault) -> (error: StoreError)
        ensures
            error@ == surfaced(fault),
    {
        match fault {
            Fault::ConfigMismatch(m) => StoreError::ConfigMismatch(m),
            Fault::NotFound => StoreError::NotFound,
            Fault::DuplicateKey => StoreError::DuplicateKey,
            Fault::StorageIO => StoreError::StorageIO,
        }
    }

    /// Reports an insert that stopped at chunk `failed_index`.
    pub fn partial(failed_index: usize, committed: Vec<i64>, cause: Fault) -> (error: StoreError)
        ensures
            error@ == (StoreErrorView::PartialBatchFailure {
                failed_index: failed_index as nat,
                committed: committed@,
                cause,
            }),
    {
        StoreError::PartialBatchFailure { failed_index, committed, cause }
    }
}

} // verus!
