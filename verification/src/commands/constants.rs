//! Fixed names.
use vstd::prelude::*;

verus! {

/// The branch a new repository starts on.
pub const DEFAULT_BRANCH: &'static str = "master";

} // verus!
