//! Shared building blocks of the repository operations.
pub mod utils;
