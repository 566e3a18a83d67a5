//! One candidate choice of the menu: a stable index, an optional mnemonic,
//! an optional output value, the displayed text, and the mutable
//! visibility state.
//!
//! A raw line is parsed as `[(MNEMONIC)] [KEY=]VALUE`: an optional
//! parenthesised mnemonic, then an optional `KEY=` output value before the
//! displayed text.

use vstd::prelude::*;
use vstd::string::StrSliceExecFns;
use vstd::string::StringExecFns;

use crate::text::{str_trim, trim_spec};

verus! {

/// Visibility of one entry. At most one entry is `Active` at any time; the
/// selection state machine is the only writer.
#[derive(Copy, Clone, Debug, Eq, PartialEq, Structural)]
pub enum ItemState {
    Hidden,
    Visible,
    Active,
}

/// One candidate choice. All fields but `state` are fixed at construction.
#[derive(Debug)]
pub struct MenuItem {
    pub index: usize,
    pub text: String,
    pub mnemonic: Option<String>,
    pub value: Option<String>,
    pub state: ItemState,
}

/// The views of an optional string.
pub open spec fn opt_str_view(o: Option<String>) -> Option<Seq<char>> {
    match o {
        Some(s) => Some(s@),
        None => None,
    }
}

/// Position of the first occurrence of `c` in `s`, if any.
pub open spec fn find_char(s: Seq<char>, c: char) -> Option<int>
    decreases s.len(),
{
    if s.len() == 0 {
        None
    } else if s[0] == c {
        Some(0)
    } else {
        match find_char(s.drop_first(), c) {
            Some(i) => Some(i + 1),
            None => None,
        }
    }
}

proof fn lemma_find_char_first(s: Seq<char>, c: char, i: int)
    requires
        0 <= i < s.len(),
        s[i] == c,
        forall|j: int| 0 <= j < i ==> s[j] != c,
    ensures
        find_char(s, c) == Some(i),
    decreases i,
{
    if i > 0 {
        lemma_find_char_first(s.drop_first(), c, i - 1);
    }
}

proof fn lemma_find_char_none(s: Seq<char>, c: char)
    requires
        forall|j: int| 0 <= j < s.len() ==> s[j] != c,
    ensures
        find_char(s, c) == None::<int>,
    decreases s.len(),
{
    if s.len() > 0 {
        lemma_find_char_none(s.drop_first(), c);
    }
}

/// Position of the first occurrence of `c` in `s`, by a linear scan.
pub fn str_find_char(s: &str, c: char) -> (r: Option<usize>)
    ensures
        find_char(s@, c) == match r {
            Some(i) => Some(i as int),
            None => None,
        },
        r matches Some(i) ==> i < s@.len(),
{
    let len = s.unicode_len();
    let mut i: usize = 0;
    while i < len
        invariant
            0 <= i <= len,
            len == s@.len(),
            forall|j: int| 0 <= j < i ==> s@[j] != c,
        decreases len - i,
    {
        if s.get_char(i) == c {
            proof {
                lemma_find_char_first(s@, c, i as int);
            }
            return Some(i);
        }
        i += 1;
    }
    proof {
        lemma_find_char_none(s@, c);
    }
    None
}

/// The `[KEY=]TEXT` split of `to_parse`: a key before the first `=` becomes
/// the output value when both key and remaining text are non-empty;
/// otherwise the whole of `all_text` is kept as the text.
pub open spec fn key_value_of(all_text: Seq<char>, to_parse: Seq<char>) -> (Option<Seq<char>>, Seq<
    char,
>) {
    match find_char(to_parse, '=') {
        Some(p) => {
            let value = to_parse.subrange(0, p);
            let rest = to_parse.subrange(p + 1, to_parse.len() as int);
            if value.len() > 0 && trim_spec(rest).len() > 0 {
                (Some(value), rest)
            } else {
                (None, all_text)
            }
        },
        None => {
            if to_parse.len() > 0 {
                (None, to_parse)
            } else {
                (None, all_text)
            }
        },
    }
}

/// Does `t` carry a parenthesised mnemonic: `(` first, with the first `)`
/// at least two characters later?
pub open spec fn has_mnemonic(t: Seq<char>) -> bool {
    t.len() > 0 && t[0] == '(' && match find_char(t, ')') {
        Some(e) => e > 1,
        None => false,
    }
}

/// Position of the closing `)` of the mnemonic.
pub open spec fn mnemonic_end(t: Seq<char>) -> int
    recommends
        has_mnemonic(t),
{
    match find_char(t, ')') {
        Some(e) => e,
        None => 0,
    }
}

/// The `(mnemonic, value, text)` triple parsed from one raw line.
pub open spec fn parse_item_spec(t: Seq<char>) -> (Option<Seq<char>>, Option<Seq<char>>, Seq<
    char,
>) {
    if has_mnemonic(t) {
        let e = mnemonic_end(t);
        let mn = t.subrange(1, e);
        let key_value = trim_spec(t.subrange(e + 1, t.len() as int));
        let (value, rest) = key_value_of(t, key_value);
        (Some(mn), value, seq!['('] + mn + seq![')', ' '] + rest)
    } else {
        let (value, rest) = key_value_of(t, t);
        (None, value, rest)
    }
}

/// The mnemonic parsed from one raw line.
pub open spec fn parsed_mnemonic(t: Seq<char>) -> Option<Seq<char>> {
    parse_item_spec(t).0
}

/// The output value parsed from one raw line.
pub open spec fn parsed_value(t: Seq<char>) -> Option<Seq<char>> {
    parse_item_spec(t).1
}

/// The displayed text parsed from one raw line.
pub open spec fn parsed_text(t: Seq<char>) -> Seq<char> {
    parse_item_spec(t).2
}

/// `m` is the entry that parsing `t` at position `index` constructs.
pub open spec fn is_created_from(m: MenuItem, t: Seq<char>, index: int) -> bool {
    &&& m.index == index
    &&& m.state == ItemState::Visible
    &&& opt_str_view(m.mnemonic) == parsed_mnemonic(t)
    &&& opt_str_view(m.value) == parsed_value(t)
    &&& m.text@ == parsed_text(t)
}

/// The value an entry emits when accepted: its `KEY` if one was given,
/// otherwise its displayed text.
pub open spec fn item_output(m: MenuItem) -> Seq<char> {
    match m.value {
        Some(v) => v@,
        None => m.text@,
    }
}

impl MenuItem {
    /// Parse one raw line `[(MNEMONIC)] [KEY=]VALUE` into an entry with the
    /// given stable index. New entries start `Visible`.
    pub fn create(text: &str, index: usize) -> (r: MenuItem)
        ensures
            is_created_from(r, text@, index as int),
    {
        let len = text.unicode_len();
        if len > 0 && text.get_char(0) == '(' {
            let close = str_find_char(text, ')');
            match close {
                Some(e) if e > 1 => {
                    let mn = text.substring_char(1, e);
                    let after = text.substring_char(e + 1, len);
                    let key_value = str_trim(after);
                    let (value, rest) = MenuItem::parse_key_value(text, key_value);
                    let mut shown = String::from_str("(");
                    shown.append(mn);
                    shown.append(") ");
                    shown.append(rest);
                    proof {
                        reveal_strlit("(");
                        reveal_strlit(") ");
                        assert("("@ =~= seq!['(']);
                        assert(") "@ =~= seq![')', ' ']);
                        assert(shown@ =~= seq!['('] + mn@ + seq![')', ' '] + rest@);
                    }
                    MenuItem {
                        index,
                        text: shown,
                        mnemonic: Some(String::from_str(mn)),
                        value,
                        state: ItemState::Visible,
                    }
                },
                _ => {
                    let (value, rest) = MenuItem::parse_key_value(text, text);
                    MenuItem {
                        index,
                        text: String::from_str(rest),
                        mnemonic: None,
                        value,
                        state: ItemState::Visible,
                    }
                },
            }
        } else {
            let (value, rest) = MenuItem::parse_key_value(text, text);
            MenuItem {
                index,
                text: String::from_str(rest),
                mnemonic: None,
                value,
                state: ItemState::Visible,
            }
        }
    }

    /// Split `to_parse` at its first `=` into an output value and the shown
    /// text; fall back to `all_text` when either side is empty.
    fn parse_key_value<'a>(all_text: &'a str, to_parse: &'a str) -> (r: (Option<String>, &'a str))
        ensures
            opt_str_view(r.0) == key_value_of(all_text@, to_parse@).0,
            r.1@ == key_value_of(all_text@, to_parse@).1,
    {
        let len = to_parse.unicode_len();
        match str_find_char(to_parse, '=') {
            Some(p) => {
                let value = to_parse.substring_char(0, p);
                let rest = to_parse.substring_char(p + 1, len);
                if value.unicode_len() > 0 && str_trim(rest).unicode_len() > 0 {
                    (Some(String::from_str(value)), rest)
                } else {
                    (None, all_text)
                }
            },
            None => {
                if len > 0 {
                    (None, to_parse)
                } else {
                    (None, all_text)
                }
            },
        }
    }

    /// The value emitted when this entry is accepted.
    pub fn value(&self) -> (r: &str)
        ensures
            r@ == item_output(*self),
    {
        match &self.value {
            Some(v) => v.as_str(),
            None => self.text.as_str(),
        }
    }

    /// An entry takes part in cycling whenever it is not hidden.
    pub fn visible(&self) -> (r: bool)
        ensures
            r == (self.state != ItemState::Hidden),
    {
        self.state != ItemState::Hidden
    }
}

} // verus!
