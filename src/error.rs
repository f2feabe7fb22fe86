//! Errors of a classification run.
use vstd::prelude::*;

verus! {

/// Why a classification run stopped. Every stage reports its failure here;
/// there is no partial result.
#[derive(PartialEq, Eq, Structural, Clone, Copy, Debug)]
pub enum ClassifyError {
    /// The matrix has no rows, or its rows have no coordinates.
    EmptyMatrix,
    /// Two rows of the matrix differ in length.
    RaggedRows,
    /// The number of neighbours asked for is not below the number of points.
    TooManyNeighbours,
    /// More components, clusters or samples were asked for than the data holds.
    TooManyComponents,
    /// The input holds more points or coordinates than the fixed-point
    /// stages accept.
    TooLarge,
    /// No clusters were asked for.
    NoClusters,
    /// A numerical routine (such as a singular value decomposition) failed.
    Numerical,
    /// The density clustering could not run.
    Clustering,
    /// The embedding backend failed.
    Embedder,
}

} // verus!
