//! The fixed configuration of a collection's index.
use vstd::prelude::*;

verus! {

/// The function by which the index ranks vectors.
#[derive(Debug, Clone, Copy, PartialEq, Eq, Hash, Structural)]
pub enum Metric {
    /// Not one of the metrics below.
    Unknown,
    /// Inner product.
    InnerProduct,
    /// Squared Euclidean distance.
    L2Squared,
    /// Cosine distance.
    Cosine,
    /// Pearson correlation.
    Pearson,
    /// Great-circle distance.
    Haversine,
    /// Jensen-Shannon divergence.
    Divergence,
    /// Number of differing bits.
    Hamming,
    /// Tanimoto coefficient on bits.
    Tanimoto,
    /// Sorensen coefficient on bits.
    Sorensen,
}

/// The scalar type in which the index stores each coordinate.
#[derive(Debug, Clone, Copy, PartialEq, Eq, Hash, Structural)]
pub enum Scalar {
    /// Not one of the scalar types below.
    Unknown,
    /// 64-bit IEEE 754.
    Double,
    /// 32-bit IEEE 754.
    Single,
    /// 16-bit brain floating point.
    Brain,
    /// 16-bit IEEE 754.
    Half,
    /// 8-bit, 5 exponent and 2 mantissa bits.
    E5M2,
    /// 8-bit, 4 exponent and 3 mantissa bits.
    E4M3,
    /// 8-bit, 3 exponent and 2 mantissa bits.
    E3M2,
    /// 8-bit, 2 exponent and 3 mantissa bits.
    E2M3,
    /// 8-bit signed integer.
    Signed8,
    /// 8-bit unsigned integer.
    Unsigned8,
    /// One bit, eight to a byte.
    Bit,
}

/// The configuration an index is created with. The number of dimensions and
/// the metric are chosen once per collection and hold for its lifetime.
#[derive(Debug, Clone, Copy, PartialEq, Eq, Hash, Structural)]
pub struct IndexConfig {
    /// Length of every vector in the index.
    pub dimensions: usize,
    /// How vectors are ranked.
    pub metric: Metric,
    /// How coordinates are stored.
    pub quantization: Scalar,
    /// Links per node of the graph; 0 leaves the choice to the index.
    pub connectivity: usize,
    /// Candidates considered when adding; 0 leaves the choice to the index.
    pub expansion_add: usize,
    /// Candidates considered when searching; 0 leaves the choice to the index.
    pub expansion_search: usize,
    /// Whether several vectors may share one key.
    pub multi: bool,
}

impl IndexConfig {
    /// A configuration with the given dimensions, metric and key policy that
    /// stores single-precision coordinates and leaves the graph's parameters
    /// to the index.
    pub open spec fn with(dimensions: usize, metric: Metric, multi: bool) -> IndexConfig {
        IndexConfig {
            dimensions,
            metric,
            quantization: Scalar::Single,
            connectivity: 0,
            expansion_add: 0,
            expansion_search: 0,
            multi,
        }
    }

    /// A configuration with the given dimensions, metric and key policy that
    /// stores single-precision coordinates and leaves the graph's parameters
    /// to the index.
    pub fn new(dimensions: usize, metric: Metric, multi: bool) -> (config: IndexConfig)
        ensures
            config == Self::with(dimensions, metric, multi),
    {
        IndexConfig {
            dimensions,
            metric,
            quantization: Scalar::Single,
            connectivity: 0,
            expansion_add: 0,
            expansion_search: 0,
            multi,
        }
    }
}

impl Default for IndexConfig {
    /// Two dimensions ranked by inner product, several vectors per key.
    fn default() -> (config: IndexConfig)
        ensures
            config == IndexConfig::with(2, Metric::InnerProduct, true),
    {
        IndexConfig::new(2, Metric::InnerProduct, true)
    }
}

} // verus!
