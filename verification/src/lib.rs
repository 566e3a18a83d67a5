//! An interactive, incremental filtering and selection engine for a fixed
//! list of labeled choices: after every query edit it recomputes which
//! entries are visible and which single entry is active, and supports
//! cycling the active entry through the currently visible subset.

pub mod case_insensitive;
pub mod case_sensitive;
pub mod entry_filter;
pub mod filter;
pub mod laws;
pub mod menu_item;
pub mod text;
pub mod tmenu;
pub mod tmenu_settings;

use vstd::prelude::*;

verus! {

/// A visible set wraps around: positions advance modulo its size.
pub open spec fn wrap_index(p: int, n: int) -> int
    recommends
        n > 0,
{
    ((p % n) + n) % n
}

pub proof fn lemma_wrap_index_range(p: int, n: int)
    requires
        n > 0,
    ensures
        0 <= wrap_index(p, n) < n,
{
}

} // verus!
