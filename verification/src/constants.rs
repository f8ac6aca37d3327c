//! Defaults used where a screenplay leaves something out.
use vstd::prelude::*;

verus! {

/// The title shown when the title page has no `Title` field.
pub const DEFAULT_TITLE: &'static str = "Untitled";

/// The credit line shown above the author when there is no `Credit` field.
pub const DEFAULT_CREDIT: &'static str = "written by";

/// How many speakers the statistics report lists.
pub const DEFAULT_NUM_SPEAKER_STATS: usize = 10;

} // verus!
