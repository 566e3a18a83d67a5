//! The two case-insensitive strategies: entry values are lower-cased once
//! at construction, the query once per keystroke, and the lower-cased query
//! is compared as a prefix or as a substring. Mnemonics stay case-sensitive
//! and are not affected.

use vstd::prelude::*;
use vstd::string::StringExecFns;

use crate::entry_filter::{Entry, EntryFilter};
use crate::filter::Filter;
use crate::menu_item::{item_output, opt_str_view, MenuItem};
use crate::text::{lower_of, seq_contains, seq_starts_with, str_contains, str_starts_with, to_lowercase};

verus! {

/// Builds case-insensitive strategies; owns the comparison table with each
/// entry's value lower-cased once.
#[derive(Debug)]
pub struct CIFactory {
    pub entries: Vec<Entry>,
    pub starts_with: bool,
}

impl CIFactory {
    /// Copy each item's output value, lower-cased, into the comparison
    /// table, aligned by index with `items`.
    pub fn create(items: &Vec<MenuItem>, starts_with: bool) -> (r: Self)
        ensures
            r.starts_with == starts_with,
            r.entries@.len() == items@.len(),
            forall|i: int|
                0 <= i < items@.len() ==> {
                    let e = #[trigger] r.entries@[i];
                    let m = items@[i];
                    &&& e.index == i
                    &&& opt_str_view(e.mnemonic) == opt_str_view(m.mnemonic)
                    &&& e.value@ == lower_of(item_output(m))
                },
    {
        let mut entries: Vec<Entry> = Vec::new();
        let mut i: usize = 0;
        while i < items.len()
            invariant
                0 <= i <= items@.len(),
                entries@.len() == i,
                forall|j: int|
                    0 <= j < i ==> {
                        let e = #[trigger] entries@[j];
                        let m = items@[j];
                        &&& e.index == j
                        &&& opt_str_view(e.mnemonic) == opt_str_view(m.mnemonic)
                        &&& e.value@ == lower_of(item_output(m))
                    },
            decreases items@.len() - i,
        {
            let m = &items[i];
            let mnemonic = match &m.mnemonic {
                Some(s) => Some(s.clone()),
                None => None,
            };
            let value = to_lowercase(m.value());
            entries.push(Entry { mnemonic, value, index: i });
            i += 1;
        }
        CIFactory { entries, starts_with }
    }

    /// A fresh case-insensitive strategy bound to the given query, holding
    /// the query both as typed and lower-cased.
    pub fn create_filter(&self, input: &str) -> (r: Filter)
        ensures
            match r {
                Filter::CaseInsensitiveStartsWith(f) => self.starts_with && f.input@ == input@
                    && f.lower_case@ == lower_of(input@),
                Filter::CaseInsensitiveContains(f) => !self.starts_with && f.input@ == input@
                    && f.lower_case@ == lower_of(input@),
                _ => false,
            },
    {
        let lower_case = to_lowercase(input);
        if self.starts_with {
            Filter::CaseInsensitiveStartsWith(
                CaseInsensitiveStartsWithFilter { lower_case, input: String::from_str(input) },
            )
        } else {
            Filter::CaseInsensitiveContains(
                CaseInsensitiveContainsFilter { lower_case, input: String::from_str(input) },
            )
        }
    }
}

/// Case-insensitive prefix comparison: the lower-cased query against the
/// entry's already lower-cased value.
#[derive(Debug)]
pub struct CaseInsensitiveStartsWithFilter {
    pub lower_case: String,
    pub input: String,
}

impl EntryFilter for CaseInsensitiveStartsWithFilter {
    open spec fn input_view(&self) -> Seq<char> {
        self.input@
    }

    open spec fn value_match_spec(&self, entry: &Entry) -> bool {
        seq_starts_with(entry.value@, self.lower_case@)
    }

    fn get_input(&self) -> (r: &str) {
        self.input.as_str()
    }

    fn value_match(&self, entry: &Entry) -> (r: bool) {
        str_starts_with(entry.value.as_str(), self.lower_case.as_str())
    }
}

/// Case-insensitive substring comparison: the lower-cased query against the
/// entry's already lower-cased value.
#[derive(Debug)]
pub struct CaseInsensitiveContainsFilter {
    pub lower_case: String,
    pub input: String,
}

impl EntryFilter for CaseInsensitiveContainsFilter {
    open spec fn input_view(&self) -> Seq<char> {
        self.input@
    }

    open spec fn value_match_spec(&self, entry: &Entry) -> bool {
        seq_contains(entry.value@, self.lower_case@)
    }

    fn get_input(&self) -> (r: &str) {
        self.input.as_str()
    }

    fn value_match(&self, entry: &Entry) -> (r: bool) {
        str_contains(entry.value.as_str(), self.lower_case.as_str())
    }
}

} // verus!
