//! The comparison table a filter factory works on: one `Entry` per menu
//! item, holding the mnemonic and the comparison value (already lower-cased
//! for case-insensitive sessions), and the capability every concrete filter
//! offers.

use vstd::prelude::*;

verus! {

/// One row of a factory's comparison table, aligned by `index` with the
/// menu items it was built from.
#[derive(Debug)]
pub struct Entry {
    pub mnemonic: Option<String>,
    pub value: String,
    pub index: usize,
}

/// What a concrete value filter offers: the query it was built for and a
/// per-entry comparison of the entry's value against that query.
pub trait EntryFilter {
    /// The query this filter was built for.
    spec fn input_view(&self) -> Seq<char>;

    /// Whether the entry's comparison value matches the query.
    spec fn value_match_spec(&self, entry: &Entry) -> bool;

    fn get_input(&self) -> (r: &str)
        ensures
            r@ == self.input_view(),
    ;

    fn value_match(&self, entry: &Entry) -> (r: bool)
        ensures
            r == self.value_match_spec(entry),
    ;
}

} // verus!
