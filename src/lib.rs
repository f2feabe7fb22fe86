//! Semantic grouping of browsing history, and the helpers around the model
//! that summarises a day of work.
//!
//! The clustering core works on fixed-point embeddings (`i64` coordinates)
//! so that every stage is exact: squared Euclidean distances, brute-force
//! nearest-neighbour distances, the elbow choice of a clustering radius,
//! Lloyd's k-means with uniform or k-means++ seeding driven by an explicit
//! stream of random draws, and the grouping of cluster labels into groups of
//! items with noise dropped. Normalisation, PCA and the density clustering
//! itself are floating-point stages and run outside this crate.
//!
//! The remaining modules hold the sanitiser that recovers JSON from a model's
//! reply, prompt templates, the shapes of the model's answers and how they
//! fill a work summary, and small helpers for directories and timestamps.
use vstd::prelude::*;

pub mod agent;
pub mod cleaner;
pub mod dirs;
pub mod durations;
pub mod error;
pub mod grouping;
pub mod history;
pub mod kmeans;
pub mod knn;
pub mod linalg;
pub mod model;
pub mod patch;
pub mod prompt;
pub mod seeding;
pub mod shell;
pub mod summary;
pub mod text;
pub mod timestamps;
pub mod tools;

verus! {

} // verus!
