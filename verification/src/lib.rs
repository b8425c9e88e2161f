//! Silhouette engine for the moving sofa problem, in exact saturating
//! fixed-point arithmetic.
pub mod curves;
pub mod error;
pub mod line;
pub mod optimizer;
pub mod rootfinder;
pub mod scalar;
pub mod sofa;
