//! Match outcomes and the matching rules shared by every strategy: the
//! mnemonic rule, which always precedes the value comparison, and the
//! dispatch over the four configured strategies plus the always-match
//! filter used for an empty query.

use vstd::prelude::*;
use vstd::string::StrSliceExecFns;
use vstd::string::StringExecFns;

use crate::entry_filter::{Entry, EntryFilter};
use crate::case_insensitive::{CIFactory, CaseInsensitiveContainsFilter, CaseInsensitiveStartsWithFilter};
use crate::case_sensitive::{CSFactory, CaseSensitiveContainsFilter, CaseSensitiveStartsWithFilter};
use crate::menu_item::{item_output, opt_str_view, MenuItem};
use crate::text::{lower_of, seq_contains, seq_starts_with, str_starts_with};
use crate::tmenu_settings::TMenuSettings;

verus! {

/// The outcome of matching one entry against the query. `Index` carries the
/// query's character count, recorded when a single-character mnemonic is
/// consumed as the query's first character; the selection step later uses
/// it modulo the visible-set size.
#[derive(Copy, Clone, Debug, PartialEq, Eq, Structural)]
pub enum Match {
    NoMatch,
    Match,
    Index(u32),
}

/// `m`, unless it is `NoMatch`, in which case the alternative.
pub open spec fn or_else_spec(m: Match, alternative: Match) -> Match {
    if m is NoMatch {
        alternative
    } else {
        m
    }
}

/// `Match` exactly when `v` holds.
pub open spec fn bool_match(v: bool) -> Match {
    if v {
        Match::Match
    } else {
        Match::NoMatch
    }
}

impl Match {
    /// Keep this outcome unless it is `NoMatch`; then take the alternative.
    pub fn or_else(self, alternative: Match) -> (r: Match)
        ensures
            r == or_else_spec(self, alternative),
    {
        if let Match::NoMatch = self {
            alternative
        } else {
            self
        }
    }
}

impl From<bool> for Match {
    fn from(v: bool) -> (r: Match) {
        if v {
            Match::Match
        } else {
            Match::NoMatch
        }
    }
}

impl vstd::std_specs::convert::FromSpecImpl<bool> for Match {
    open spec fn obeys_from_spec() -> bool {
        true
    }

    open spec fn from_spec(v: bool) -> Match {
        bool_match(v)
    }
}

/// The `Index` payload: the query's character count, reduced to 32 bits.
pub open spec fn index_payload(n: nat) -> u32 {
    (n % 0x1_0000_0000) as u32
}

/// The mnemonic rule. Typing the mnemonic out matches it; a query that
/// begins with a single-character mnemonic yields `Index`; mnemonics are
/// always compared case-sensitively.
pub open spec fn mnemonic_match(mn: Seq<char>, q: Seq<char>) -> Match {
    if mn.len() >= q.len() && seq_starts_with(mn, q) {
        Match::Match
    } else if mn.len() == 1 && seq_starts_with(q, mn) {
        Match::Index(index_payload(q.len()))
    } else {
        Match::NoMatch
    }
}

/// The mnemonic rule for an entry that may have no mnemonic.
pub open spec fn mnemonic_opt_match(mn: Option<Seq<char>>, q: Seq<char>) -> Match {
    match mn {
        Some(m) => mnemonic_match(m, q),
        None => Match::NoMatch,
    }
}

/// Apply the mnemonic rule to one mnemonic and the current query.
pub fn match_mnemonic(mnemonic: &str, input: &str) -> (r: Match)
    ensures
        r == mnemonic_match(mnemonic@, input@),
{
    let mn_len = mnemonic.unicode_len();
    let q_len = input.unicode_len();
    if mn_len >= q_len && str_starts_with(mnemonic, input) {
        Match::Match
    } else if mn_len == 1 {
        if str_starts_with(input, mnemonic) {
            let payload = ((q_len as u64) % 0x1_0000_0000u64) as u32;
            assert(payload == index_payload(input@.len()));
            Match::Index(payload)
        } else {
            Match::NoMatch
        }
    } else {
        Match::NoMatch
    }
}

/// Apply the mnemonic rule when the entry may have no mnemonic.
pub fn match_mnemonic_opt(mnemonic: Option<&str>, input: &str) -> (r: Match)
    ensures
        r == mnemonic_opt_match(
            match mnemonic {
                Some(m) => Some(m@),
                None => None,
            },
            input@,
        ),
{
    if let Some(mnemonic) = mnemonic {
        match_mnemonic(mnemonic, input)
    } else {
        Match::NoMatch
    }
}

/// The strategy used for an empty query: every entry matches.
#[derive(Debug)]
pub struct MatchAllFilter;

impl MatchAllFilter {
    pub fn match_item(&self, _item: &MenuItem) -> (r: Match)
        ensures
            r == Match::Match,
    {
        Match::Match
    }
}

/// The outcome of one concrete filter on one entry: the mnemonic rule
/// first; only if it yields `NoMatch` is the value comparison consulted.
pub open spec fn entry_match<E: EntryFilter>(f: E, e: Entry) -> Match {
    or_else_spec(
        mnemonic_opt_match(opt_str_view(e.mnemonic), f.input_view()),
        bool_match(f.value_match_spec(&e)),
    )
}

/// The outcome of one concrete filter on the menu item with index
/// `item.index`, looked up in the comparison table `acc`.
pub open spec fn lookup_match<E: EntryFilter>(f: E, acc: Seq<Entry>, item: MenuItem) -> Match {
    if item.index < acc.len() {
        entry_match(f, acc[item.index as int])
    } else {
        Match::NoMatch
    }
}

fn match_item_with<E: EntryFilter>(f: &E, acc: &Vec<Entry>, item: &MenuItem) -> (r: Match)
    ensures
        r == lookup_match(*f, acc@, *item),
{
    if item.index < acc.len() {
        let e = &acc[item.index];
        let mn: Option<&str> = match &e.mnemonic {
            Some(s) => Some(s.as_str()),
            None => None,
        };
        match_mnemonic_opt(mn, f.get_input()).or_else(Match::from(f.value_match(e)))
    } else {
        Match::NoMatch
    }
}

/// A strategy bound to one query, chosen by the factory per keystroke.
#[derive(Debug)]
pub enum Filter {
    MatchAll(MatchAllFilter),
    CaseInsensitiveStartsWith(CaseInsensitiveStartsWithFilter),
    CaseInsensitiveContains(CaseInsensitiveContainsFilter),
    CaseSensitiveStartsWith(CaseSensitiveStartsWithFilter),
    CaseSensitiveContains(CaseSensitiveContainsFilter),
}

impl Filter {
    /// The outcome of this strategy on the item with index `item.index`.
    pub open spec fn match_item_spec(self, acc: Seq<Entry>, item: MenuItem) -> Match {
        match self {
            Filter::MatchAll(_) => Match::Match,
            Filter::CaseInsensitiveStartsWith(f) => lookup_match(f, acc, item),
            Filter::CaseInsensitiveContains(f) => lookup_match(f, acc, item),
            Filter::CaseSensitiveStartsWith(f) => lookup_match(f, acc, item),
            Filter::CaseSensitiveContains(f) => lookup_match(f, acc, item),
        }
    }

    /// Evaluate this strategy on one menu item, looking its entry up in the
    /// comparison table `acc`.
    pub fn match_item(&self, acc: &Vec<Entry>, item: &MenuItem) -> (r: Match)
        ensures
            r == self.match_item_spec(acc@, *item),
    {
        match self {
            Filter::MatchAll(f) => f.match_item(item),
            Filter::CaseInsensitiveStartsWith(f) => match_item_with(f, acc, item),
            Filter::CaseInsensitiveContains(f) => match_item_with(f, acc, item),
            Filter::CaseSensitiveStartsWith(f) => match_item_with(f, acc, item),
            Filter::CaseSensitiveContains(f) => match_item_with(f, acc, item),
        }
    }
}

/// The value comparison of a session configured by the two flags: the query
/// (lower-cased first when case-insensitive) as prefix or substring of the
/// entry's comparison value.
pub open spec fn value_matches(
    case_insensitive: bool,
    prefix: bool,
    value: Seq<char>,
    q: Seq<char>,
) -> bool {
    let needle = if case_insensitive {
        lower_of(q)
    } else {
        q
    };
    if prefix {
        seq_starts_with(value, needle)
    } else {
        seq_contains(value, needle)
    }
}

/// The outcome of a whole configured session on one item for one query: an
/// empty query matches everything; otherwise the mnemonic rule first, then
/// the configured value comparison on the entry's prepared value.
pub open spec fn strategy_match(
    case_insensitive: bool,
    prefix: bool,
    q: Seq<char>,
    acc: Seq<Entry>,
    item: MenuItem,
) -> Match {
    if q.len() == 0 {
        Match::Match
    } else if item.index < acc.len() {
        let e = acc[item.index as int];
        or_else_spec(
            mnemonic_opt_match(opt_str_view(e.mnemonic), q),
            bool_match(value_matches(case_insensitive, prefix, e.value@, q)),
        )
    } else {
        Match::NoMatch
    }
}

/// The factory a session builds once: it owns the comparison table and
/// produces one fresh strategy per keystroke.
#[derive(Debug)]
pub enum FilterFactory {
    CaseInsensitive(CIFactory),
    CaseSensitive(CSFactory),
}

/// The comparison table a factory owns.
pub open spec fn factory_entries(f: FilterFactory) -> Seq<Entry> {
    match f {
        FilterFactory::CaseInsensitive(ci) => ci.entries@,
        FilterFactory::CaseSensitive(cs) => cs.acc@,
    }
}

/// Whether the factory compares case-insensitively.
pub open spec fn factory_case_insensitive(f: FilterFactory) -> bool {
    f is CaseInsensitive
}

/// Whether the factory compares by prefix rather than by substring.
pub open spec fn factory_prefix(f: FilterFactory) -> bool {
    match f {
        FilterFactory::CaseInsensitive(ci) => ci.starts_with,
        FilterFactory::CaseSensitive(cs) => cs.starts_with,
    }
}

/// The factory's comparison table is the one a session with the two given
/// flags builds from `opts`: aligned by index, mnemonics kept verbatim,
/// values taken from each entry's output value and lower-cased when the
/// session is case-insensitive.
pub open spec fn factory_matches_options(
    f: FilterFactory,
    case_insensitive: bool,
    prefix: bool,
    opts: Seq<MenuItem>,
) -> bool {
    &&& factory_case_insensitive(f) == case_insensitive
    &&& factory_prefix(f) == prefix
    &&& factory_entries(f).len() == opts.len()
    &&& forall|i: int|
        0 <= i < opts.len() ==> {
            let e = #[trigger] factory_entries(f)[i];
            let m = opts[i];
            &&& e.index == i
            &&& opt_str_view(e.mnemonic) == opt_str_view(m.mnemonic)
            &&& e.value@ == if case_insensitive {
                lower_of(item_output(m))
            } else {
                item_output(m)
            }
        }
}

/// The per-item outcomes of one whole query over the entry store, as the
/// factory's configuration determines them.
pub open spec fn strategy_outcomes(f: FilterFactory, q: Seq<char>, items: Seq<MenuItem>) -> Seq<
    Match,
> {
    Seq::new(
        items.len(),
        |i: int|
            strategy_match(
                factory_case_insensitive(f),
                factory_prefix(f),
                q,
                factory_entries(f),
                items[i],
            ),
    )
}

impl FilterFactory {
    /// Build the strategy for the current query: the always-match strategy
    /// for an empty query, otherwise the configured one.
    pub fn create(&self, input: &str) -> (r: Filter)
        ensures
            forall|acc: Seq<Entry>, item: MenuItem|
                #[trigger] r.match_item_spec(acc, item) == strategy_match(
                    factory_case_insensitive(*self),
                    factory_prefix(*self),
                    input@,
                    acc,
                    item,
                ),
    {
        if input.is_empty() {
            Filter::MatchAll(MatchAllFilter)
        } else {
            match self {
                FilterFactory::CaseInsensitive(ci) => ci.create_filter(input),
                FilterFactory::CaseSensitive(cs) => cs.create_filter(input),
            }
        }
    }
}

/// Choose the factory once per session from the configured flags.
pub fn create_filter_factory(settings: &TMenuSettings) -> (r: FilterFactory)
    ensures
        factory_matches_options(
            r,
            settings.case_insensitive,
            settings.filter_by_prefix,
            settings.available_options@,
        ),
{
    if settings.case_insensitive {
        FilterFactory::CaseInsensitive(
            CIFactory::create(&settings.available_options, settings.filter_by_prefix),
        )
    } else {
        FilterFactory::CaseSensitive(CSFactory::create(settings))
    }
}

} // verus!
