//! The vector index of a collection.
//!
//! The index itself is a `usearch::Index`. What this module proves is the
//! part of the index manager that decides: whether an index may be opened
//! under a supplied configuration, how much capacity a batch needs, and
//! whether a vector or a query may be handed to the index at all. What it
//! takes on trust is listed first, one item per function of `usearch`.
//!
//! A `usearch::Index` is changed through shared references. What is proved
//! of a handle therefore holds for as long as nothing else changes the
//! index, which is what [`crate::locks`] is there to ensure.
use crate::config::{IndexConfig, Metric, Scalar};
use crate::error::{Fault, Mismatch};
use crate::keys::{index_key, is_reserved, key_of, reserved};
use vstd::multiset::Multiset;
use vstd::prelude::*;

verus! {

/// `usearch::Index`, of which nothing is known but what the items below
/// say.
#[verifier::external_type_specification]
#[verifier::external_body]
pub struct ExIndex(usearch::Index);

/// `usearch::MetricKind`.
#[verifier::external_type_specification]
#[verifier::external_body]
pub struct ExMetricKind(usearch::MetricKind);

/// `usearch::ScalarKind`.
#[verifier::external_type_specification]
#[verifier::external_body]
pub struct ExScalarKind(usearch::ScalarKind);

/// `cxx::Exception`, the error of every fallible function of `usearch`.
#[verifier::external_type_specification]
#[verifier::external_body]
pub struct ExException(cxx::Exception);

/// The keys of the vectors that `index` holds, each as often as there are
/// vectors under it.
pub uninterp spec fn index_keys(index: usearch::Index) -> Multiset<u64>;

/// The length of every vector of `index`.
pub uninterp spec fn index_dimensions(index: usearch::Index) -> usize;

/// The metric by which `index` ranks.
pub uninterp spec fn index_metric(index: usearch::Index) -> Metric;

/// Whether `index` holds several vectors under one key.
pub uninterp spec fn index_multi(index: usearch::Index) -> bool;

/// The `usearch::ScalarKind` of a scalar type, variant for variant. Nothing
/// is claimed of the result.
#[verifier::external_body]
fn scalar_kind(scalar: Scalar) -> usearch::ScalarKind {
    match scalar {
        Scalar::Unknown => usearch::ScalarKind::Unknown,
        Scalar::Double => usearch::ScalarKind::F64,
        Scalar::Single => usearch::ScalarKind::F32,
        Scalar::Brain => usearch::ScalarKind::BF16,
        Scalar::Half => usearch::ScalarKind::F16,
        Scalar::E5M2 => usearch::ScalarKind::E5M2,
        Scalar::E4M3 => usearch::ScalarKind::E4M3,
        Scalar::E3M2 => usearch::ScalarKind::E3M2,
        Scalar::E2M3 => usearch::ScalarKind::E2M3,
        Scalar::Signed8 => usearch::ScalarKind::I8,
        Scalar::Unsigned8 => usearch::ScalarKind::U8,
        Scalar::Bit => usearch::ScalarKind::B1,
    }
}

/// `usearch::new_index`, with the metric of `config` turned into usearch's,
/// variant for variant. Trusted: an index that was made holds no vector and
/// has the dimensions, the metric and the key policy of `config`. Whether
/// one is made is left open.
#[verifier::external_body]
fn new_index(config: &IndexConfig, quantization: usearch::ScalarKind) -> (made: Result<
    usearch::Index,
    cxx::Exception,
>)
    ensures
        made matches Ok(index) ==> {
            &&& index_keys(index) == Multiset::<u64>::empty()
            &&& index_dimensions(index) == config.dimensions
            &&& index_metric(index) == config.metric
            &&& index_multi(index) == config.multi
        },
{
    let metric = match config.metric {
        Metric::Unknown => usearch::MetricKind::Unknown,
        Metric::InnerProduct => usearch::MetricKind::IP,
        Metric::L2Squared => usearch::MetricKind::L2sq,
        Metric::Cosine => usearch::MetricKind::Cos,
        Metric::Pearson => usearch::MetricKind::Pearson,
        Metric::Haversine => usearch::MetricKind::Haversine,
        Metric::Divergence => usearch::MetricKind::Divergence,
        Metric::Hamming => usearch::MetricKind::Hamming,
        Metric::Tanimoto => usearch::MetricKind::Tanimoto,
        Metric::Sorensen => usearch::MetricKind::Sorensen,
    };
    let IndexConfig { dimensions, connectivity, expansion_add, expansion_search, multi, .. } = *config;
    usearch::new_index(&usearch::IndexOptions { dimensions, metric, quantization, connectivity, expansion_add, expansion_search, multi })
}

/// `usearch::Index::dimensions`. Trusted: it returns the length of the
/// vectors of the index.
#[verifier::external_body]
fn dimensions(index: &usearch::Index) -> (n: usize)
    ensures
        n == index_dimensions(*index),
{
    index.dimensions()
}

/// `usearch::Index::metric_kind`, told apart variant for variant. Trusted: it
/// returns the metric by which the index ranks.
#[verifier::external_body]
fn metric(index: &usearch::Index) -> (metric: Metric)
    ensures
        metric == index_metric(*index),
{
    match index.metric_kind() {
        usearch::MetricKind::IP => Metric::InnerProduct,
        usearch::MetricKind::L2sq => Metric::L2Squared,
        usearch::MetricKind::Cos => Metric::Cosine,
        usearch::MetricKind::Pearson => Metric::Pearson,
        usearch::MetricKind::Haversine => Metric::Haversine,
        usearch::MetricKind::Divergence => Metric::Divergence,
        usearch::MetricKind::Hamming => Metric::Hamming,
        usearch::MetricKind::Tanimoto => Metric::Tanimoto,
        usearch::MetricKind::Sorensen => Metric::Sorensen,
        _ => Metric::Unknown,
    }
}

/// `usearch::Index::multi`. Trusted: it tells whether the index holds
/// several vectors under one key.
#[verifier::external_body]
fn multi(index: &usearch::Index) -> (multi: bool)
    ensures
        multi == index_multi(*index),
{
    index.multi()
}

/// `usearch::Index::size`. Trusted: it returns the number of vectors held.
#[verifier::external_body]
fn size(index: &usearch::Index) -> (n: usize)
    ensures
        n == index_keys(*index).len(),
{
    index.size()
}

/// `usearch::Index::contains`. Trusted: it tells whether at least one vector
/// is held under `key`.
#[verifier::external_body]
fn contains(index: &usearch::Index, key: u64) -> (held: bool)
    ensures
        held == (index_keys(*index).count(key) > 0),
{
    index.contains(key)
}

/// `usearch::Index::reserve`. Nothing is claimed of the outcome: the capacity
/// an index ends up with is its own affair.
#[verifier::external_body]
fn reserve(index: &usearch::Index, capacity: usize) -> Result<(), cxx::Exception> {
    index.reserve(capacity)
}

/// What an index was established with: what it reports of itself once it
/// is made or loaded.
#[derive(Debug, Clone, Copy, PartialEq, Eq, Structural)]
pub struct Established {
    /// Length of every vector in the index.
    pub dimensions: usize,
    /// How vectors are ranked.
    pub metric: Metric,
    /// Whether several vectors may share one key.
    pub multi: bool,
}

impl Established {
    /// What `supplied` contradicts of the established configuration: the
    /// dimensions first, then the metric.
    pub open spec fn contradiction(self, supplied: IndexConfig) -> Option<Mismatch> {
        if supplied.dimensions != self.dimensions {
            Some(Mismatch::Dimension)
        } else if supplied.metric != self.metric {
            Some(Mismatch::Metric)
        } else {
            None
        }
    }

    /// Whether a vector of `len` coordinates may be added under `key`, under
    /// which a vector is held already, or none is, as `held` says.
    pub open spec fn add_verdict(self, key: u64, held: bool, len: usize) -> Result<(), Fault> {
        if len != self.dimensions {
            Err(Fault::ConfigMismatch(Mismatch::Dimension))
        } else if reserved(key as int) {
            Err(Fault::StorageIO)
        } else if !self.multi && held {
            Err(Fault::DuplicateKey)
        } else {
            Ok(())
        }
    }

    /// Holds a supplied configuration against the established one. A
    /// collection's dimensions and metric hold for its lifetime: a supplied
    /// configuration that differs in either is refused, never adopted.
    pub fn verify(&self, supplied: &IndexConfig) -> (verdict: Result<(), Fault>)
        ensures
            verdict == match self.contradiction(*supplied) {
                Some(m) => Err::<(), Fault>(Fault::ConfigMismatch(m)),
                None => Ok::<(), Fault>(()),
            },
            verdict is Ok <==> supplied.dimensions == self.dimensions && supplied.metric
                == self.metric,
            verdict == Err::<(), Fault>(Fault::ConfigMismatch(Mismatch::Dimension))
                <==> supplied.dimensions != self.dimensions,
            verdict == Err::<(), Fault>(Fault::ConfigMismatch(Mismatch::Metric))
                <==> supplied.dimensions == self.dimensions && supplied.metric != self.metric,
    {
        if supplied.dimensions != self.dimensions {
            Err(Fault::ConfigMismatch(Mismatch::Dimension))
        } else if supplied.metric != self.metric {
            Err(Fault::ConfigMismatch(Mismatch::Metric))
        } else {
            Ok(())
        }
    }

    /// Decides whether a vector of `len` coordinates may be added under
    /// `key`. A length other than the established dimensions is a
    /// configuration mismatch. The key that the index keeps for itself
    /// cannot be stored under, which is a storage fault. A key under which a
    /// vector is held already is a duplicate where the index holds one
    /// vector per key.
    pub fn check_add(&self, key: u64, held: bool, len: usize) -> (verdict: Result<(), Fault>)
        ensures
            verdict == self.add_verdict(key, held, len),
            verdict is Ok <==> len == self.dimensions && !reserved(key as int) && (self.multi
                || !held),
            verdict == Err::<(), Fault>(Fault::ConfigMismatch(Mismatch::Dimension)) <==> len
                != self.dimensions,
            verdict == Err::<(), Fault>(Fault::StorageIO) <==> len == self.dimensions && reserved(
                key as int,
            ),
            verdict == Err::<(), Fault>(Fault::DuplicateKey) <==> len == self.dimensions
                && !reserved(key as int) && !self.multi && held,
    {
        if len != self.dimensions {
            Err(Fault::ConfigMismatch(Mismatch::Dimension))
        } else if is_reserved(key) {
            Err(Fault::StorageIO)
        } else if !self.multi && held {
            Err(Fault::DuplicateKey)
        } else {
            Ok(())
        }
    }

    /// Decides whether a query of `len` coordinates may be run: its length
    /// must be the established number of dimensions.
    pub fn check_query(&self, len: usize) -> (verdict: Result<(), Fault>)
        ensures
            verdict == if len == self.dimensions {
                Ok::<(), Fault>(())
            } else {
                Err::<(), Fault>(Fault::ConfigMismatch(Mismatch::Dimension))
            },
    {
        if len == self.dimensions {
            Ok(())
        } else {
            Err(Fault::ConfigMismatch(Mismatch::Dimension))
        }
    }
}

/// The capacity that an index which holds `held` vectors needs for
/// `additional` more, where the machine can count that far.
pub fn capacity_for(held: usize, additional: usize) -> (capacity: Option<usize>)
    ensures
        capacity == if held + additional <= usize::MAX {
            Some((held + additional) as usize)
        } else {
            None::<usize>
        },
{
    held.checked_add(additional)
}

/// Of the chunk ids `ids`, in order, those that `held` does not mark as
/// held at their position.
pub open spec fn unheld(ids: Seq<i64>, held: Seq<bool>) -> Seq<i64>
    decreases ids.len(),
{
    if ids.len() == 0 {
        Seq::empty()
    } else {
        let before = unheld(ids.drop_last(), held);
        if ids.len() <= held.len() && held[ids.len() - 1] {
            before
        } else {
            before.push(ids.last())
        }
    }
}

/// Of the chunk ids `ids`, in order, those under whose key `keys` holds no
/// vector.
pub open spec fn unindexed(keys: Multiset<u64>, ids: Seq<i64>) -> Seq<i64> {
    unheld(ids, Seq::new(ids.len(), |i: int| keys.count(key_of(ids[i] as int) as u64) > 0))
}

/// Picks, of the chunk ids `ids`, in order, those that `held` does not mark
/// as held at their position. An id without a mark is not held.
pub fn pick_unheld(ids: &Vec<i64>, held: &Vec<bool>) -> (left: Vec<i64>)
    ensures
        left@ == unheld(ids@, held@),
{
    let mut left: Vec<i64> = Vec::new();
    let mut i: usize = 0;
    while i < ids.len()
        invariant
            i <= ids@.len(),
            left@ == unheld(ids@.take(i as int), held@),
        decreases ids@.len() - i,
    {
        proof {
            assert(ids@.take(i + 1).drop_last() =~= ids@.take(i as int));
        }
        if !(i < held.len() && held[i]) {
            left.push(ids[i]);
        }
        i = i + 1;
    }
    proof {
        assert(ids@.take(i as int) =~= ids@);
    }
    left
}

/// An open index.
pub struct IndexHandle {
    /// The index itself. Vectors are added to it, searched in it, and it is
    /// loaded and saved, through this field.
    pub index: usearch::Index,
}

impl IndexHandle {
    /// The keys of the vectors held, each as often as there are vectors
    /// under it.
    pub open spec fn keys(&self) -> Multiset<u64> {
        index_keys(self.index)
    }

    /// What the index was established with.
    pub open spec fn established_as(&self) -> Established {
        Established {
            dimensions: index_dimensions(self.index),
            metric: index_metric(self.index),
            multi: index_multi(self.index),
        }
    }

    /// Whether the index is empty and established with the dimensions, the
    /// metric and the key policy of `config`.
    pub open spec fn fresh_for(&self, config: IndexConfig) -> bool {
        &&& self.keys() == Multiset::<u64>::empty()
        &&& self.established_as() == (Established {
            dimensions: config.dimensions,
            metric: config.metric,
            multi: config.multi,
        })
    }

    /// The handle of an index that was made, and a storage fault in place of
    /// one that was not.
    fn adopt(made: Result<usearch::Index, cxx::Exception>) -> (adopted: Result<IndexHandle, Fault>)
        ensures
            match made {
                Ok(index) => adopted matches Ok(handle) && handle.index == index,
                Err(_) => adopted matches Err(fault) && fault == Fault::StorageIO,
            },
    {
        match made {
            Ok(index) => Ok(IndexHandle { index }),
            Err(_) => Err(Fault::StorageIO),
        }
    }

    /// Makes an empty index with the given configuration. Whether one can be
    /// made is decided by the index library; where it cannot, the fault is a
    /// storage fault. One that was made fits the configuration it was made
    /// with.
    pub fn create(config: &IndexConfig) -> (made: Result<IndexHandle, Fault>)
        ensures
            match made {
                Ok(handle) => handle.fresh_for(*config) && handle.established_as().contradiction(
                    *config,
                ) is None,
                Err(fault) => fault == Fault::StorageIO,
            },
    {
        let quantization = scalar_kind(config.quantization);
        Self::adopt(new_index(config, quantization))
    }

    /// What the index was established with: on a new index what it was made
    /// with, on a loaded one what the snapshot holds.
    pub fn established(&self) -> (established: Established)
        ensures
            established == self.established_as(),
    {
        Established {
            dimensions: dimensions(&self.index),
            metric: metric(&self.index),
            multi: multi(&self.index),
        }
    }

    /// The number of vectors held.
    pub fn len(&self) -> (n: usize)
        ensures
            n == self.keys().len(),
    {
        size(&self.index)
    }

    /// Whether at least one vector is held under `key`.
    pub fn holds(&self, key: u64) -> (held: bool)
        ensures
            held == (self.keys().count(key) > 0),
    {
        contains(&self.index, key)
    }

    /// Holds a supplied configuration against the one the index was
    /// established with. See [`Established::verify`].
    pub fn verify(&self, supplied: &IndexConfig) -> (verdict: Result<(), Fault>)
        ensures
            verdict == match self.established_as().contradiction(*supplied) {
                Some(m) => Err::<(), Fault>(Fault::ConfigMismatch(m)),
                None => Ok::<(), Fault>(()),
            },
    {
        self.established().verify(supplied)
    }

    /// The outcome of a reservation of `capacity`: the capacity where the
    /// index library granted it, a storage fault where it did not.
    fn reserved(capacity: usize, granted: Result<(), cxx::Exception>) -> (outcome: Result<
        usize,
        Fault,
    >)
        ensures
            outcome == match granted {
                Ok(_) => Ok::<usize, Fault>(capacity),
                Err(_) => Err::<usize, Fault>(Fault::StorageIO),
            },
    {
        match granted {
            Ok(()) => Ok(capacity),
            Err(_) => Err(Fault::StorageIO),
        }
    }

    /// Grows the capacity to what is held plus `additional`, ahead of a batch
    /// of that many additions, and returns the capacity asked for. A sum
    /// beyond the machine's range is a storage fault, and so is a refusal by
    /// the index library, which alone decides whether the memory can be had.
    pub fn reserve_additional(&self, additional: usize) -> (outcome: Result<usize, Fault>)
        ensures
            match outcome {
                Ok(capacity) => capacity == self.keys().len() + additional,
                Err(fault) => fault == Fault::StorageIO,
            },
            self.keys().len() + additional > usize::MAX ==> outcome is Err,
    {
        match capacity_for(size(&self.index), additional) {
            None => Err(Fault::StorageIO),
            Some(capacity) => Self::reserved(capacity, reserve(&self.index, capacity)),
        }
    }

    /// Decides whether a vector of `len` coordinates may be added under
    /// `key`, as [`Established::check_add`] does for what the index is
    /// established with and for whether it holds `key`. The index is only
    /// read.
    pub fn check_add(&self, key: u64, len: usize) -> (verdict: Result<(), Fault>)
        ensures
            verdict == self.established_as().add_verdict(key, self.keys().count(key) > 0, len),
    {
        self.established().check_add(key, contains(&self.index, key), len)
    }

    /// Decides whether a query of `len` coordinates may be run, as
    /// [`Established::check_query`] does for what the index is established
    /// with.
    pub fn check_query(&self, len: usize) -> (verdict: Result<(), Fault>)
        ensures
            verdict == if len == self.established_as().dimensions {
                Ok::<(), Fault>(())
            } else {
                Err::<(), Fault>(Fault::ConfigMismatch(Mismatch::Dimension))
            },
    {
        self.established().check_query(len)
    }

    /// For each of the chunk ids `row_ids`, in order, whether a vector is
    /// held under its key.
    pub fn held(&self, row_ids: &Vec<i64>) -> (held: Vec<bool>)
        ensures
            held@ == Seq::new(
                row_ids@.len(),
                |i: int| self.keys().count(key_of(row_ids@[i] as int) as u64) > 0,
            ),
    {
        let mut held: Vec<bool> = Vec::new();
        let mut i: usize = 0;
        while i < row_ids.len()
            invariant
                i <= row_ids@.len(),
                held@.len() == i,
                forall|j: int|
                    0 <= j < i ==> held@[j] == (self.keys().count(
                        key_of(row_ids@[j] as int) as u64,
                    ) > 0),
            decreases row_ids@.len() - i,
        {
            held.push(contains(&self.index, index_key(row_ids[i])));
            i = i + 1;
        }
        held
    }

    /// The rows that are not indexed: of the chunk ids `row_ids`, in order,
    /// those that have no vector in the index. These are the chunks to add
    /// again after a crash has lost additions that were not saved; once they
    /// are added, none is left. The index is only read.
    pub fn missing(&self, row_ids: &Vec<i64>) -> (left: Vec<i64>)
        ensures
            left@ == unindexed(self.keys(), row_ids@),
    {
        let held = self.held(row_ids);
        pick_unheld(row_ids, &held)
    }
}

/// What is picked is exactly what is not held: a chunk id is among the
/// picked just when it stands at a position that is not marked as held.
pub proof fn lemma_unheld_is_exact(ids: Seq<i64>, held: Seq<bool>, id: i64)
    ensures
        unheld(ids, held).contains(id) <==> exists|i: int|
            0 <= i < ids.len() && #[trigger] ids[i] == id && !(i < held.len() && held[i]),
    decreases ids.len(),
{
    if ids.len() > 0 {
        let last = ids.len() - 1;
        let front = ids.drop_last();
        let before = unheld(front, held);
        let picked = unheld(ids, held);
        lemma_unheld_is_exact(front, held, id);
        if before.contains(id) {
            let i = choose|i: int|
                0 <= i < front.len() && #[trigger] front[i] == id && !(i < held.len() && held[i]);
            assert(ids[i] == id);
            let at = choose|at: int| 0 <= at < before.len() && before[at] == id;
            if !(last < held.len() && held[last]) {
                assert(before.push(ids.last())[at] == id);
            }
        }
        if exists|i: int|
            0 <= i < ids.len() && #[trigger] ids[i] == id && !(i < held.len() && held[i]) {
            let i = choose|i: int|
                0 <= i < ids.len() && #[trigger] ids[i] == id && !(i < held.len() && held[i]);
            if i < last {
                assert(front[i] == id);
            } else {
                assert(before.push(ids.last())[before.len() as int] == id);
            }
        }
        if picked.contains(id) && !before.contains(id) {
            let at = choose|at: int| 0 <= at < picked.len() && picked[at] == id;
            if at < before.len() {
                assert(before[at] == id);
            }
            assert(ids[last] == id);
        }
    }
}

/// What is reported as not indexed is exactly what is not indexed: a chunk
/// id is among the unindexed of `ids` just when it is one of `ids` and no
/// vector is held under its key.
pub proof fn lemma_unindexed_is_exact(keys: Multiset<u64>, ids: Seq<i64>, id: i64)
    ensures
        unindexed(keys, ids).contains(id) <==> ids.contains(id) && keys.count(
            key_of(id as int) as u64,
        ) == 0,
{
    let held = Seq::new(ids.len(), |i: int| keys.count(key_of(ids[i] as int) as u64) > 0);
    lemma_unheld_is_exact(ids, held, id);
    if ids.contains(id) && keys.count(key_of(id as int) as u64) == 0 {
        let i = choose|i: int| 0 <= i < ids.len() && ids[i] == id;
        assert(ids[i] == id && !held[i]);
    }
}

/// Once the vectors of the unindexed chunks are added, none is left: in an
/// index that holds a vector under the key of every id of `ids`, no id of
/// `ids` is unindexed.
pub proof fn lemma_unindexed_none_left(keys: Multiset<u64>, ids: Seq<i64>)
    requires
        forall|i: int| 0 <= i < ids.len() ==> keys.count(key_of(#[trigger] ids[i] as int) as u64) > 0,
    ensures
        unindexed(keys, ids) == Seq::<i64>::empty(),
{
    let held = Seq::new(ids.len(), |i: int| keys.count(key_of(ids[i] as int) as u64) > 0);
    lemma_all_held(ids, held);
}

/// Where every id is held, none is picked.
proof fn lemma_all_held(ids: Seq<i64>, held: Seq<bool>)
    requires
        ids.len() <= held.len(),
        forall|i: int| 0 <= i < ids.len() ==> #[trigger] held[i],
    ensures
        unheld(ids, held) == Seq::<i64>::empty(),
    decreases ids.len(),
{
    if ids.len() > 0 {
        lemma_all_held(ids.drop_last(), held);
    }
}

/// A vector of another length than the established number of dimensions is
/// always refused as a configuration mismatch, whatever its key and whatever
/// the index holds.
pub proof fn lemma_wrong_length_is_refused(
    established: Established,
    key: u64,
    held: bool,
    len: usize,
)
    requires
        len != established.dimensions,
    ensures
        established.add_verdict(key, held, len) == Err::<(), Fault>(
            Fault::ConfigMismatch(Mismatch::Dimension),
        ),
{
}

} // verus!
