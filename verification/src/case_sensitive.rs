//! The two case-sensitive strategies: the query as typed, compared as a
//! prefix or as a substring of each entry's value.

use vstd::prelude::*;
use vstd::string::StringExecFns;

use crate::entry_filter::{Entry, EntryFilter};
use crate::filter::Filter;
use crate::menu_item::{item_output, opt_str_view};
use crate::text::{seq_contains, seq_starts_with, str_contains, str_starts_with};
use crate::tmenu_settings::TMenuSettings;

verus! {

/// Builds case-sensitive strategies; owns the comparison table with each
/// entry's value taken verbatim.
#[derive(Debug)]
pub struct CSFactory {
    pub acc: Vec<Entry>,
    pub starts_with: bool,
}

impl CSFactory {
    /// Copy each entry's output value into the comparison table, aligned by
    /// index with the settings' options.
    pub fn create(settings: &TMenuSettings) -> (r: Self)
        ensures
            r.starts_with == settings.filter_by_prefix,
            r.acc@.len() == settings.available_options@.len(),
            forall|i: int|
                0 <= i < settings.available_options@.len() ==> {
                    let e = #[trigger] r.acc@[i];
                    let m = settings.available_options@[i];
                    &&& e.index == i
                    &&& opt_str_view(e.mnemonic) == opt_str_view(m.mnemonic)
                    &&& e.value@ == item_output(m)
                },
    {
        let options = &settings.available_options;
        let mut acc: Vec<Entry> = Vec::new();
        let mut i: usize = 0;
        while i < options.len()
            invariant
                0 <= i <= options@.len(),
                acc@.len() == i,
                forall|j: int|
                    0 <= j < i ==> {
                        let e = #[trigger] acc@[j];
                        let m = options@[j];
                        &&& e.index == j
                        &&& opt_str_view(e.mnemonic) == opt_str_view(m.mnemonic)
                        &&& e.value@ == item_output(m)
                    },
            decreases options@.len() - i,
        {
            let m = &options[i];
            let mnemonic = match &m.mnemonic {
                Some(s) => Some(s.clone()),
                None => None,
            };
            let value = String::from_str(m.value());
            acc.push(Entry { mnemonic, value, index: i });
            i += 1;
        }
        CSFactory { acc, starts_with: settings.filter_by_prefix }
    }

    /// A fresh case-sensitive strategy bound to the given query.
    pub fn create_filter(&self, input: &str) -> (r: Filter)
        ensures
            match r {
                Filter::CaseSensitiveStartsWith(f) => self.starts_with && f.input@ == input@,
                Filter::CaseSensitiveContains(f) => !self.starts_with && f.input@ == input@,
                _ => false,
            },
    {
        if self.starts_with {
            Filter::CaseSensitiveStartsWith(
                CaseSensitiveStartsWithFilter { input: String::from_str(input) },
            )
        } else {
            Filter::CaseSensitiveContains(
                CaseSensitiveContainsFilter { input: String::from_str(input) },
            )
        }
    }
}

/// Case-sensitive prefix comparison against one query.
#[derive(Debug)]
pub struct CaseSensitiveStartsWithFilter {
    pub input: String,
}

impl EntryFilter for CaseSensitiveStartsWithFilter {
    open spec fn input_view(&self) -> Seq<char> {
        self.input@
    }

    open spec fn value_match_spec(&self, entry: &Entry) -> bool {
        seq_starts_with(entry.value@, self.input@)
    }

    fn get_input(&self) -> (r: &str) {
        self.input.as_str()
    }

    fn value_match(&self, entry: &Entry) -> (r: bool) {
        str_starts_with(entry.value.as_str(), self.input.as_str())
    }
}

/// Case-sensitive substring comparison against one query.
#[derive(Debug)]
pub struct CaseSensitiveContainsFilter {
    pub input: String,
}

impl EntryFilter for CaseSensitiveContainsFilter {
    open spec fn input_view(&self) -> Seq<char> {
        self.input@
    }

    open spec fn value_match_spec(&self, entry: &Entry) -> bool {
        seq_contains(entry.value@, self.input@)
    }

    fn get_input(&self) -> (r: &str) {
        self.input.as_str()
    }

    fn value_match(&self, entry: &Entry) -> (r: bool) {
        str_contains(entry.value.as_str(), self.input.as_str())
    }
}

} // verus!
