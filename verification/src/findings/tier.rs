//! The tiers of a dependency conflict.

use vstd::prelude::*;

verus! {

/// The versions differ in their major, which breaks under semantic versioning.
pub const MAJOR: &'static str = "major";

/// The versions differ as texts and at least one is no semantic version.
pub const UNPARSEABLE: &'static str = "unparseable";

} // verus!
