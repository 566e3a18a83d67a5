//! The selection state machine. It owns the entries' mutable visibility
//! states and is their only writer: `apply_filter` re-evaluates every entry
//! against a fresh strategy and re-selects the active entry; `select_next`
//! cycles the active entry through the currently visible subset.

use vstd::prelude::*;
use vstd::string::StringExecFns;

use crate::filter::{
    create_filter_factory, factory_matches_options, strategy_outcomes, Filter, FilterFactory, Match,
};
use crate::menu_item::{item_output, ItemState, MenuItem};
use crate::entry_filter::Entry;
use crate::tmenu_settings::TMenuSettings;

verus! {

/// The visibility column of the entries.
pub open spec fn item_states(items: Seq<MenuItem>) -> Seq<ItemState> {
    Seq::new(items.len(), |i: int| items[i].state)
}

/// All fields of the two entries but the visibility state agree.
pub open spec fn same_item_fields(a: MenuItem, b: MenuItem) -> bool {
    &&& a.index == b.index
    &&& a.text == b.text
    &&& a.mnemonic == b.mnemonic
    &&& a.value == b.value
}

/// The state an outcome assigns before re-selection: `NoMatch` hides the
/// entry, anything else shows it.
pub open spec fn state_of(m: Match) -> ItemState {
    if m is NoMatch {
        ItemState::Hidden
    } else {
        ItemState::Visible
    }
}

/// The payload of the last `Index` outcome in scan order, if any.
pub open spec fn last_index_offset(ms: Seq<Match>) -> Option<u32>
    decreases ms.len(),
{
    if ms.len() == 0 {
        None
    } else {
        match ms.last() {
            Match::Index(n) => Some(n),
            _ => last_index_offset(ms.drop_last()),
        }
    }
}

/// The positions of the non-hidden entries, in ascending order.
pub open spec fn visible_positions(states: Seq<ItemState>) -> Seq<int>
    decreases states.len(),
{
    if states.len() == 0 {
        Seq::empty()
    } else {
        let pre = visible_positions(states.drop_last());
        if states.last() is Hidden {
            pre
        } else {
            pre.push(states.len() - 1)
        }
    }
}

/// The position of the first `Active` entry, if any.
pub open spec fn first_active(states: Seq<ItemState>) -> Option<int>
    decreases states.len(),
{
    if states.len() == 0 {
        None
    } else if states[0] is Active {
        Some(0)
    } else {
        match first_active(states.drop_first()) {
            Some(i) => Some(i + 1),
            None => None,
        }
    }
}

/// The position within `vis` of the first element whose state is `Active`.
pub open spec fn find_active_in(states: Seq<ItemState>, vis: Seq<int>) -> Option<int>
    decreases vis.len(),
{
    if vis.len() == 0 {
        None
    } else if states[vis[0]] is Active {
        Some(0)
    } else {
        match find_active_in(states, vis.drop_first()) {
            Some(k) => Some(k + 1),
            None => None,
        }
    }
}

/// How many entries are `Active`.
pub open spec fn count_active(states: Seq<ItemState>) -> int
    decreases states.len(),
{
    if states.len() == 0 {
        0int
    } else {
        count_active(states.drop_last()) + if states.last() is Active {
            1int
        } else {
            0int
        }
    }
}

/// The entry re-selection rule: a remembered mnemonic offset wins, taken
/// modulo the visible-set size; else the previously active entry if it is
/// still visible; else the first visible entry.
pub open spec fn chosen_position(prev: Option<int>, offset: Option<u32>, vis: Seq<int>) -> int
    recommends
        vis.len() > 0,
{
    match offset {
        Some(off) => vis[(off as int) % (vis.len() as int)],
        None => match prev {
            Some(p) => if vis.contains(p) {
                p
            } else {
                vis[0]
            },
            None => vis[0],
        },
    }
}

/// The states after one full `apply_filter` pass with the given per-entry
/// outcomes: `NoMatch` hides, anything else shows, and — when re-selection
/// is wanted and anything stayed visible — exactly one visible entry is
/// promoted to `Active` by the re-selection rule.
pub open spec fn apply_outcomes(
    items: Seq<MenuItem>,
    ms: Seq<Match>,
    update_selection: bool,
) -> Seq<ItemState>
    recommends
        ms.len() == items.len(),
{
    let base = Seq::new(items.len(), |i: int| state_of(ms[i]));
    let vis = visible_positions(base);
    if vis.len() == 0 || !update_selection {
        base
    } else {
        base.update(
            chosen_position(first_active(item_states(items)), last_index_offset(ms), vis),
            ItemState::Active,
        )
    }
}

/// The per-entry outcomes of one strategy over the whole entry store.
pub open spec fn outcomes_of(f: Filter, acc: Seq<Entry>, items: Seq<MenuItem>) -> Seq<Match> {
    Seq::new(items.len(), |i: int| f.match_item_spec(acc, items[i]))
}

/// The states after one cycle step: within the visible set the active
/// position advances by `offset` with wrap-around; with no active entry the
/// first (forward) or last (backward) visible entry is activated.
pub open spec fn cycle_states(states: Seq<ItemState>, offset: int) -> Seq<ItemState>
    recommends
        offset == 1 || offset == -1,
{
    let vis = visible_positions(states);
    if vis.len() == 0 {
        states
    } else {
        match find_active_in(states, vis) {
            Some(k) => {
                let k2 = crate::wrap_index(k + offset, vis.len() as int);
                states.update(vis[k], ItemState::Visible).update(vis[k2], ItemState::Active)
            },
            None => {
                if offset == 1 {
                    states.update(vis[0], ItemState::Active)
                } else {
                    states.update(vis[vis.len() - 1], ItemState::Active)
                }
            },
        }
    }
}

pub proof fn lemma_find_active_in_at(states: Seq<ItemState>, vis: Seq<int>, k: int)
    requires
        0 <= k < vis.len(),
        states[vis[k]] is Active,
        forall|j: int| 0 <= j < k ==> !(states[#[trigger] vis[j]] is Active),
    ensures
        find_active_in(states, vis) == Some(k),
    decreases k,
{
    if k > 0 {
        lemma_find_active_in_at(states, vis.drop_first(), k - 1);
    }
}

pub proof fn lemma_find_active_in_none(states: Seq<ItemState>, vis: Seq<int>)
    requires
        forall|j: int| 0 <= j < vis.len() ==> !(states[#[trigger] vis[j]] is Active),
    ensures
        find_active_in(states, vis) == None::<int>,
    decreases vis.len(),
{
    if vis.len() > 0 {
        lemma_find_active_in_none(states, vis.drop_first());
    }
}

proof fn lemma_wrap_step(k: int, offset: int, n: int)
    requires
        0 <= k < n,
        offset == 1 || offset == -1,
    ensures
        crate::wrap_index(k + offset, n) == if offset == 1 {
            if k + 1 < n {
                k + 1
            } else {
                0int
            }
        } else {
            if k > 0 {
                k - 1
            } else {
                n - 1
            }
        },
{
    lemma_wrap_index_is_mod(k + offset, n);
    if offset == 1 {
        if k + 1 < n {
            vstd::arithmetic::div_mod::lemma_small_mod((k + 1) as nat, n as nat);
        } else {
            assert(k + 1 == n);
            vstd::arithmetic::div_mod::lemma_mod_self_0(n);
        }
    } else {
        if k > 0 {
            vstd::arithmetic::div_mod::lemma_small_mod((k - 1) as nat, n as nat);
        } else {
            assert((-1int) % n == n - 1) by {
                vstd::arithmetic::div_mod::lemma_mod_bound(-1int, n);
                vstd::arithmetic::div_mod::lemma_small_mod(((-1int) % n) as nat, n as nat);
                vstd::arithmetic::div_mod::lemma_add_mod_noop(-1int, n, n);
                vstd::arithmetic::div_mod::lemma_mod_self_0(n);
                vstd::arithmetic::div_mod::lemma_small_mod((n - 1) as nat, n as nat);
            }
        }
    }
}

/// Adding the size before the final reduction never changes the result:
/// `wrap_index(p, n)` is just the non-negative remainder of `p` by `n`.
pub proof fn lemma_wrap_index_is_mod(p: int, n: int)
    requires
        n > 0,
    ensures
        crate::wrap_index(p, n) == p % n,
{
    vstd::arithmetic::div_mod::lemma_mod_bound(p, n);
    vstd::arithmetic::div_mod::lemma_add_mod_noop(p % n, n, n);
    vstd::arithmetic::div_mod::lemma_mod_self_0(n);
    vstd::arithmetic::div_mod::lemma_small_mod((p % n) as nat, n as nat);
}

/// Cycle the active entry by `offset` through the visible set: the current
/// active entry is demoted to `Visible` and its successor (wrapping around)
/// promoted; with no active entry the first (forward) or last (backward)
/// visible entry is activated; with nothing visible, nothing changes.
pub fn select_next_item(items: &mut Vec<MenuItem>, offset: isize)
    requires
        offset == 1 || offset == -1,
    ensures
        final(items)@.len() == old(items)@.len(),
        forall|i: int|
            0 <= i < old(items)@.len() ==> same_item_fields(
                #[trigger] final(items)@[i],
                old(items)@[i],
            ),
        item_states(final(items)@) == cycle_states(item_states(old(items)@), offset as int),
{
    let ghost states0 = item_states(items@);
    let visible = all_visible(items);
    let ghost vis = visible_positions(states0);
    proof {
        assert(Seq::new(visible@.len(), |k: int| visible@[k] as int) =~= vis);
    }
    let count = visible.len();
    if count == 0 {
        proof {
            assert(item_states(items@) =~= states0);
        }
        return ;
    }
    let mut k: usize = 0;
    let mut found = false;
    while k < count && !found
        invariant
            0 <= k <= count,
            count == visible@.len(),
            items@.len() >= 0,
            states0 == item_states(items@),
            vis == visible_positions(states0),
            count == vis.len(),
            forall|j: int| 0 <= j < count ==> #[trigger] visible@[j] as int == vis[j] && visible@[j]
                < items@.len(),
            !found ==> forall|j: int| 0 <= j < k ==> !(states0[#[trigger] vis[j]] is Active),
            found ==> k < count && states0[vis[k as int]] is Active && forall|j: int|
                0 <= j < k ==> !(states0[#[trigger] vis[j]] is Active),
        decreases count - k + if found {
            0int
        } else {
            1int
        },
    {
        if items[visible[k]].visible_state_is_active() {
            found = true;
        } else {
            k += 1;
        }
    }
    if found {
        proof {
            lemma_find_active_in_at(states0, vis, k as int);
        }
        let last_active = visible[k];
        set_state(items, last_active, ItemState::Visible);
        let next: usize = if offset == 1 {
            if k + 1 == count {
                0
            } else {
                k + 1
            }
        } else {
            if k == 0 {
                count - 1
            } else {
                k - 1
            }
        };
        proof {
            lemma_wrap_step(k as int, offset as int, count as int);
            assert(next as int == crate::wrap_index(k + offset, count as int));
        }
        set_state(items, visible[next], ItemState::Active);
        proof {
            let k2 = crate::wrap_index(k + offset, count as int);
            assert(item_states(items@) =~= states0.update(vis[k as int], ItemState::Visible).update(
                vis[k2],
                ItemState::Active,
            ));
        }
    } else {
        proof {
            lemma_find_active_in_none(states0, vis);
        }
        if offset == 1 {
            set_state(items, visible[0], ItemState::Active);
            proof {
                assert(item_states(items@) =~= states0.update(vis[0], ItemState::Active));
            }
        } else {
            set_state(items, visible[count - 1], ItemState::Active);
            proof {
                assert(item_states(items@) =~= states0.update(
                    vis[vis.len() - 1],
                    ItemState::Active,
                ));
            }
        }
    }
}

/// The visible positions are exactly the non-hidden positions, listed in
/// strictly increasing order.
pub proof fn lemma_visible_positions_props(states: Seq<ItemState>)
    ensures
        forall|k: int|
            0 <= k < visible_positions(states).len() ==> 0 <= #[trigger] visible_positions(
                states,
            )[k] < states.len() && !(states[visible_positions(states)[k]] is Hidden),
        forall|k1: int, k2: int|
            0 <= k1 < k2 < visible_positions(states).len() ==> #[trigger] visible_positions(
                states,
            )[k1] < #[trigger] visible_positions(states)[k2],
        forall|p: int|
            0 <= p < states.len() && !(#[trigger] states[p] is Hidden) ==> visible_positions(
                states,
            ).contains(p),
    decreases states.len(),
{
    if states.len() > 0 {
        let pre = states.drop_last();
        lemma_visible_positions_props(pre);
        let vis = visible_positions(states);
        let visp = visible_positions(pre);
        assert forall|p: int|
            0 <= p < states.len() && !(#[trigger] states[p] is Hidden) implies vis.contains(
            p,
        ) by {
            if p < states.len() - 1 {
                assert(pre[p] == states[p]);
                assert(visp.contains(p));
                let k = choose|k: int| 0 <= k < visp.len() && visp[k] == p;
                if states.last() is Hidden {
                    assert(vis[k] == p);
                } else {
                    assert(vis[k] == p);
                }
            } else {
                assert(!(states.last() is Hidden));
                assert(vis[vis.len() - 1] == p);
            }
        }
    }
}

/// How many of the first `n` entries are active.
pub proof fn lemma_count_active_zero(states: Seq<ItemState>)
    requires
        forall|i: int| 0 <= i < states.len() ==> !(#[trigger] states[i] is Active),
    ensures
        count_active(states) == 0,
    decreases states.len(),
{
    if states.len() > 0 {
        lemma_count_active_zero(states.drop_last());
    }
}

/// Replacing one state changes the count by the difference at that
/// position.
pub proof fn lemma_count_active_update(states: Seq<ItemState>, i: int, st: ItemState)
    requires
        0 <= i < states.len(),
    ensures
        count_active(states.update(i, st)) == count_active(states) - (if states[i] is Active {
            1int
        } else {
            0int
        }) + (if st is Active {
            1int
        } else {
            0int
        }),
    decreases states.len(),
{
    let upd = states.update(i, st);
    if i == states.len() - 1 {
        assert(upd.drop_last() =~= states.drop_last());
    } else {
        assert(upd.drop_last() =~= states.drop_last().update(i, st));
        lemma_count_active_update(states.drop_last(), i, st);
    }
}

/// The count is never negative.
pub proof fn lemma_count_active_nonneg(states: Seq<ItemState>)
    ensures
        count_active(states) >= 0,
    decreases states.len(),
{
    if states.len() > 0 {
        lemma_count_active_nonneg(states.drop_last());
    }
}

/// An active position contributes to the count.
pub proof fn lemma_count_active_ge_position(states: Seq<ItemState>, i: int)
    requires
        0 <= i < states.len(),
        states[i] is Active,
    ensures
        count_active(states) >= 1,
    decreases states.len(),
{
    if i < states.len() - 1 {
        lemma_count_active_ge_position(states.drop_last(), i);
    } else {
        lemma_count_active_nonneg(states.drop_last());
    }
}

/// With at most one active entry, two active positions coincide.
pub proof fn lemma_count_active_unique(states: Seq<ItemState>, i: int, j: int)
    requires
        count_active(states) <= 1,
        0 <= i < states.len(),
        0 <= j < states.len(),
        states[i] is Active,
        states[j] is Active,
    ensures
        i == j,
    decreases states.len(),
{
    if i != j {
        let hi = if i > j {
            i
        } else {
            j
        };
        let lo = if i > j {
            j
        } else {
            i
        };
        if hi == states.len() - 1 {
            lemma_count_active_ge_position(states.drop_last(), lo);
        } else {
            lemma_count_active_unique(states.drop_last(), i, j);
        }
    }
}

/// The re-selection rule always picks a listed position; with the visible
/// positions of some states, that position is in range.
pub proof fn lemma_chosen_position_listed(prev: Option<int>, offset: Option<u32>, vis: Seq<int>)
    requires
        vis.len() > 0,
    ensures
        vis.contains(chosen_position(prev, offset, vis)),
{
    let chosen = chosen_position(prev, offset, vis);
    match offset {
        Some(off) => {
            vstd::arithmetic::div_mod::lemma_mod_bound(off as int, vis.len() as int);
            assert(vis[(off as int) % (vis.len() as int)] == chosen);
        },
        None => {
            match prev {
                Some(p) => {
                    if !vis.contains(p) {
                        assert(vis[0] == chosen);
                    }
                },
                None => {
                    assert(vis[0] == chosen);
                },
            }
        },
    }
}

/// Replacing one state by one with the same hiddenness leaves the visible
/// positions unchanged.
pub proof fn lemma_visible_update_same(states: Seq<ItemState>, p: int, st: ItemState)
    requires
        0 <= p < states.len(),
        (states[p] is Hidden) == (st is Hidden),
    ensures
        visible_positions(states.update(p, st)) == visible_positions(states),
    decreases states.len(),
{
    let upd = states.update(p, st);
    if p == states.len() - 1 {
        assert(upd.drop_last() =~= states.drop_last());
    } else {
        assert(upd.drop_last() =~= states.drop_last().update(p, st));
        lemma_visible_update_same(states.drop_last(), p, st);
    }
}

/// After a full `apply_filter` pass at most one entry is active, and
/// exactly one whenever re-selection ran on a non-empty visible set.
pub proof fn lemma_apply_outcomes_active_count(
    items: Seq<MenuItem>,
    ms: Seq<Match>,
    update_selection: bool,
)
    requires
        ms.len() == items.len(),
    ensures
        count_active(apply_outcomes(items, ms, update_selection)) <= 1,
        visible_positions(Seq::new(items.len(), |i: int| state_of(ms[i]))).len() > 0
            && update_selection ==> count_active(apply_outcomes(items, ms, update_selection)) == 1,
{
    let base = Seq::new(items.len(), |i: int| state_of(ms[i]));
    let vis = visible_positions(base);
    lemma_count_active_zero(base);
    lemma_visible_positions_props(base);
    if vis.len() > 0 && update_selection {
        let chosen = chosen_position(first_active(item_states(items)), last_index_offset(ms), vis);
        lemma_chosen_position_listed(first_active(item_states(items)), last_index_offset(ms), vis);
        assert(0 <= chosen < base.len()) by {
            let k = choose|k: int| 0 <= k < vis.len() && vis[k] == chosen;
        }
        lemma_count_active_update(base, chosen, ItemState::Active);
    }
}

/// A cycle step keeps at most one entry active; it leaves exactly one
/// whenever anything is visible.
pub proof fn lemma_cycle_states_active_count(states: Seq<ItemState>, offset: int)
    requires
        count_active(states) <= 1,
        offset == 1 || offset == -1,
    ensures
        count_active(cycle_states(states, offset)) <= 1,
        visible_positions(states).len() > 0 ==> count_active(cycle_states(states, offset)) == 1,
{
    let vis = visible_positions(states);
    lemma_visible_positions_props(states);
    if vis.len() > 0 {
        match find_active_in(states, vis) {
            Some(k) => {
                lemma_find_active_in_props(states, vis, k);
                let k2 = crate::wrap_index(k + offset, vis.len() as int);
                crate::lemma_wrap_index_range(k + offset, vis.len() as int);
                let demoted = states.update(vis[k], ItemState::Visible);
                assert forall|j: int| 0 <= j < demoted.len() implies !(#[trigger] demoted[j]
                    is Active) by {
                    if j != vis[k] && demoted[j] is Active {
                        lemma_count_active_unique(states, j, vis[k]);
                    }
                }
                lemma_count_active_zero(demoted);
                lemma_count_active_update(demoted, vis[k2], ItemState::Active);
            },
            None => {
                assert forall|j: int| 0 <= j < states.len() implies !(#[trigger] states[j]
                    is Active) by {
                    if states[j] is Active {
                        assert(vis.contains(j));
                        let k = choose|k: int| 0 <= k < vis.len() && vis[k] == j;
                        lemma_find_active_in_found(states, vis, k);
                    }
                }
                lemma_count_active_zero(states);
                if offset == 1 {
                    lemma_count_active_update(states, vis[0], ItemState::Active);
                } else {
                    lemma_count_active_update(states, vis[vis.len() - 1], ItemState::Active);
                }
            },
        }
    }
}

/// Whatever position `find_active_in` reports holds an active entry.
pub proof fn lemma_find_active_in_props(states: Seq<ItemState>, vis: Seq<int>, k: int)
    requires
        find_active_in(states, vis) == Some(k),
    ensures
        0 <= k < vis.len(),
        states[vis[k]] is Active,
    decreases vis.len(),
{
    if vis.len() > 0 && !(states[vis[0]] is Active) {
        lemma_find_active_in_props(states, vis.drop_first(), k - 1);
    }
}

/// If some listed position holds an active entry, `find_active_in` finds
/// one.
pub proof fn lemma_find_active_in_found(states: Seq<ItemState>, vis: Seq<int>, k: int)
    requires
        0 <= k < vis.len(),
        states[vis[k]] is Active,
    ensures
        find_active_in(states, vis) is Some,
    decreases vis.len(),
{
    if !(states[vis[0]] is Active) {
        lemma_find_active_in_found(states, vis.drop_first(), k - 1);
    }
}

/// Set one entry's visibility state, leaving everything else unchanged.
fn set_state(items: &mut Vec<MenuItem>, i: usize, st: ItemState)
    requires
        i < old(items).len(),
    ensures
        final(items)@.len() == old(items)@.len(),
        final(items)@[i as int].state == st,
        same_item_fields(final(items)@[i as int], old(items)@[i as int]),
        forall|j: int| 0 <= j < old(items)@.len() && j != i ==> final(items)@[j] == old(items)@[j],
{
    let m = &mut items[i];
    m.state = st;
}

/// The position of the first `Active` entry, by a linear scan.
pub fn find_active(items: &Vec<MenuItem>) -> (r: Option<usize>)
    ensures
        first_active(item_states(items@)) == match r {
            Some(i) => Some(i as int),
            None => None,
        },
        r matches Some(i) ==> i < items@.len() && items@[i as int].state is Active,
{
    let mut i: usize = 0;
    while i < items.len()
        invariant
            0 <= i <= items@.len(),
            forall|j: int| 0 <= j < i ==> !(#[trigger] items@[j].state is Active),
        decreases items@.len() - i,
    {
        if items[i].visible_state_is_active() {
            proof {
                lemma_first_active_at(item_states(items@), i as int);
            }
            return Some(i);
        }
        i += 1;
    }
    proof {
        lemma_first_active_none(item_states(items@));
    }
    None
}

pub proof fn lemma_first_active_at(states: Seq<ItemState>, i: int)
    requires
        0 <= i < states.len(),
        states[i] is Active,
        forall|j: int| 0 <= j < i ==> !(#[trigger] states[j] is Active),
    ensures
        first_active(states) == Some(i),
    decreases i,
{
    if i > 0 {
        lemma_first_active_at(states.drop_first(), i - 1);
    }
}

/// Whatever position `first_active` reports is in range and active.
pub proof fn lemma_first_active_props(states: Seq<ItemState>, p: int)
    requires
        first_active(states) == Some(p),
    ensures
        0 <= p < states.len(),
        states[p] is Active,
    decreases states.len(),
{
    if states.len() > 0 && !(states[0] is Active) {
        lemma_first_active_props(states.drop_first(), p - 1);
    }
}

pub proof fn lemma_first_active_none(states: Seq<ItemState>)
    requires
        forall|j: int| 0 <= j < states.len() ==> !(#[trigger] states[j] is Active),
    ensures
        first_active(states) == None::<int>,
    decreases states.len(),
{
    if states.len() > 0 {
        lemma_first_active_none(states.drop_first());
    }
}

impl MenuItem {
    /// Whether this entry is the active one.
    fn visible_state_is_active(&self) -> (r: bool)
        ensures
            r == (self.state is Active),
    {
        self.state == ItemState::Active
    }
}

/// The positions of the non-hidden entries, ascending.
pub fn all_visible(items: &Vec<MenuItem>) -> (r: Vec<usize>)
    ensures
        r@.len() == visible_positions(item_states(items@)).len(),
        forall|k: int|
            0 <= k < r@.len() ==> r@[k] as int == visible_positions(item_states(items@))[k]
                && r@[k] < items@.len(),
{
    let ghost states = item_states(items@);
    let mut r: Vec<usize> = Vec::new();
    let mut i: usize = 0;
    while i < items.len()
        invariant
            0 <= i <= items@.len(),
            states == item_states(items@),
            states.len() == items@.len(),
            r@.len() == visible_positions(states.take(i as int)).len(),
            forall|k: int|
                0 <= k < r@.len() ==> r@[k] as int == visible_positions(states.take(i as int))[k]
                    && r@[k] < i,
        decreases items@.len() - i,
    {
        proof {
            assert(states.take(i + 1).drop_last() =~= states.take(i as int));
            assert(states.take(i + 1).last() == states[i as int]);
        }
        if items[i].visible() {
            r.push(i);
        }
        i += 1;
    }
    proof {
        assert(states.take(items@.len() as int) =~= states);
    }
    r
}

/// Re-evaluate every entry against a fresh strategy: `NoMatch` hides an
/// entry, anything else shows it, and the payload of the last `Index`
/// outcome in scan order is remembered. When `update_selection` holds and
/// the visible set is non-empty, exactly one visible entry is then promoted
/// to `Active` by the re-selection rule; otherwise no entry is active.
pub fn apply_filter(
    items: &mut Vec<MenuItem>,
    acc: &Vec<Entry>,
    filter: &Filter,
    update_selection: bool,
)
    ensures
        final(items)@.len() == old(items)@.len(),
        forall|i: int|
            0 <= i < old(items)@.len() ==> same_item_fields(
                #[trigger] final(items)@[i],
                old(items)@[i],
            ),
        item_states(final(items)@) == apply_outcomes(
            old(items)@,
            outcomes_of(*filter, acc@, old(items)@),
            update_selection,
        ),
{
    let ghost orig = items@;
    let ghost ms = outcomes_of(*filter, acc@, orig);
    let previous_active = find_active(items);
    let mut match_offset: Option<u32> = None;

    let mut i: usize = 0;
    while i < items.len()
        invariant
            0 <= i <= orig.len(),
            items@.len() == orig.len(),
            ms == outcomes_of(*filter, acc@, orig),
            ms.len() == orig.len(),
            forall|j: int| i <= j < orig.len() ==> items@[j] == orig[j],
            forall|j: int| 0 <= j < i ==> same_item_fields(#[trigger] items@[j], orig[j]),
            forall|j: int| 0 <= j < i ==> #[trigger] items@[j].state == state_of(ms[j]),
            match_offset == last_index_offset(ms.take(i as int)),
        decreases orig.len() - i,
    {
        let result = filter.match_item(acc, &items[i]);
        proof {
            assert(ms.take(i + 1).drop_last() =~= ms.take(i as int));
            assert(ms.take(i + 1).last() == ms[i as int]);
        }
        let st = match result {
            Match::NoMatch => ItemState::Hidden,
            Match::Index(index) => {
                match_offset = Some(index);
                ItemState::Visible
            },
            Match::Match => ItemState::Visible,
        };
        set_state(items, i, st);
        i += 1;
    }
    proof {
        assert(ms.take(orig.len() as int) =~= ms);
    }

    let visible = all_visible(items);
    let ghost base = Seq::new(orig.len(), |j: int| state_of(ms[j]));
    proof {
        assert(item_states(items@) =~= base);
    }

    let match_count = visible.len();
    if match_count == 0 {
        return ;
    }
    if !update_selection {
        return ;
    }
    proof {
        assert(Seq::new(visible@.len(), |k: int| visible@[k] as int) =~= visible_positions(base));
    }
    select_item(previous_active, match_offset, &visible, items);
    proof {
        let chosen = chosen_position(
            first_active(item_states(orig)),
            last_index_offset(ms),
            visible_positions(base),
        );
        assert(item_states(items@) =~= base.update(chosen, ItemState::Active));
    }
}

/// Promote the entry chosen by the re-selection rule to `Active`: the
/// remembered mnemonic offset modulo the visible-set size wins; else the
/// previously active entry if still visible; else the first visible entry.
pub fn select_item(
    previous_active: Option<usize>,
    match_offset: Option<u32>,
    all_visible: &Vec<usize>,
    items: &mut Vec<MenuItem>,
)
    requires
        all_visible@.len() > 0,
        forall|k: int| 0 <= k < all_visible@.len() ==> #[trigger] all_visible@[k] < old(
            items,
        )@.len(),
    ensures
        ({
            let vis = Seq::new(all_visible@.len(), |k: int| all_visible@[k] as int);
            let chosen = chosen_position(
                match previous_active {
                    Some(p) => Some(p as int),
                    None => None,
                },
                match_offset,
                vis,
            );
            &&& final(items)@.len() == old(items)@.len()
            &&& final(items)@[chosen].state is Active
            &&& same_item_fields(final(items)@[chosen], old(items)@[chosen])
            &&& forall|j: int|
                0 <= j < old(items)@.len() && j != chosen ==> final(items)@[j] == old(items)@[j]
        }),
{
    let ghost vis = Seq::new(all_visible@.len(), |k: int| all_visible@[k] as int);
    let match_count = all_visible.len();
    let to_activate: usize = if let Some(off) = match_offset {
        let idx = (off as usize) % match_count;
        all_visible[idx]
    } else if let Some(previous_active) = previous_active {
        let mut k: usize = 0;
        let mut found = false;
        while k < match_count && !found
            invariant
                0 <= k <= match_count,
                match_count == all_visible@.len(),
                vis == Seq::new(all_visible@.len(), |k: int| all_visible@[k] as int),
                !found ==> forall|j: int| 0 <= j < k ==> vis[j] != previous_active as int,
                found ==> k < match_count && vis[k as int] == previous_active as int,
            decreases match_count - k + if found {
                0int
            } else {
                1int
            },
        {
            if all_visible[k] == previous_active {
                found = true;
            } else {
                k += 1;
            }
        }
        if found {
            assert(vis.contains(previous_active as int));
            previous_active
        } else {
            assert(forall|j: int| 0 <= j < vis.len() ==> vis[j] != previous_active as int);
            assert(!vis.contains(previous_active as int));
            all_visible[0]
        }
    } else {
        all_visible[0]
    };
    set_state(items, to_activate, ItemState::Active);
}

/// The events the state machine consumes, one per call.
#[derive(Debug, Clone)]
pub enum MainAction {
    Focus,
    Abort,
    Exit,
    Next,
    NextTab,
    Previous,
    PreviousTab,
    TextChanged(String),
}

impl Default for MainAction {
    /// The event that changes nothing.
    fn default() -> (r: Self)
        ensures
            r is Focus,
    {
        Self::Focus
    }
}

/// How the session ends: still running, an entry or the free text accepted,
/// or aborted without a selection.
#[derive(Debug, Copy, Clone)]
pub enum ExitState {
    Continue,
    Exit,
    Abort,
}

/// The keys the session reacts to; anything else only refocuses the input.
#[derive(Debug, Copy, Clone)]
pub enum Key {
    Escape,
    Tab,
    Right,
    Left,
    Other,
}

/// The modifier set held with a key press, as far as the session cares.
#[derive(Debug, Copy, Clone)]
pub enum KeyModifiers {
    Empty,
    Shift,
    Other,
}

/// One event from the event source: a key press with its modifiers, or
/// anything else.
#[derive(Debug, Copy, Clone)]
pub enum InputEvent {
    KeyPressed(Key, KeyModifiers),
    Other,
}

/// The event each input event maps to: plain Escape aborts, Tab and
/// Shift-Tab cycle and copy the entry's text, plain Right and Left cycle,
/// and everything else refocuses the input.
pub open spec fn keyboard_action(event: InputEvent) -> MainAction {
    match event {
        InputEvent::KeyPressed(key, modifiers) => match key {
            Key::Escape => if modifiers is Empty {
                MainAction::Abort
            } else {
                MainAction::Focus
            },
            Key::Tab => if modifiers is Empty {
                MainAction::NextTab
            } else if modifiers is Shift {
                MainAction::PreviousTab
            } else {
                MainAction::Focus
            },
            Key::Right => if modifiers is Empty {
                MainAction::Next
            } else {
                MainAction::Focus
            },
            Key::Left => if modifiers is Empty {
                MainAction::Previous
            } else {
                MainAction::Focus
            },
            Key::Other => MainAction::Focus,
        },
        InputEvent::Other => MainAction::Focus,
    }
}

/// Map one event from the event source to the action the state machine
/// consumes.
pub fn global_keyboard_handler(event: InputEvent) -> (r: Option<MainAction>)
    ensures
        r matches Some(a) && a == keyboard_action(event),
{
    let action = match event {
        InputEvent::KeyPressed(key, modifiers) => match key {
            Key::Escape => match modifiers {
                KeyModifiers::Empty => MainAction::Abort,
                _ => MainAction::Focus,
            },
            Key::Tab => match modifiers {
                KeyModifiers::Empty => MainAction::NextTab,
                KeyModifiers::Shift => MainAction::PreviousTab,
                _ => MainAction::Focus,
            },
            Key::Right => match modifiers {
                KeyModifiers::Empty => MainAction::Next,
                _ => MainAction::Focus,
            },
            Key::Left => match modifiers {
                KeyModifiers::Empty => MainAction::Previous,
                _ => MainAction::Focus,
            },
            Key::Other => MainAction::Focus,
        },
        InputEvent::Other => MainAction::Focus,
    };
    Some(action)
}

/// The lengths and per-position fields of the two entry stores agree;
/// only visibility states may differ.
pub open spec fn same_options_fields(a: Seq<MenuItem>, b: Seq<MenuItem>) -> bool {
    &&& a.len() == b.len()
    &&& forall|i: int| 0 <= i < a.len() ==> same_item_fields(#[trigger] a[i], b[i])
}

/// Everything of the session but its entry store, query and exit state
/// agrees.
pub open spec fn same_session_flags(a: TMenu, b: TMenu) -> bool {
    &&& a.auto_accept == b.auto_accept
    &&& a.case_insensitive == b.case_insensitive
    &&& a.allow_undefined == b.allow_undefined
    &&& a.fuzzy == b.fuzzy
    &&& a.text_changed == b.text_changed
    &&& a.verbose == b.verbose
    &&& a.filter_factory == b.filter_factory
}

/// One interactive session: the entry store, the session flags, the
/// current query, and the factory that builds one strategy per keystroke.
#[derive(Debug)]
pub struct TMenu {
    pub available_options: Vec<MenuItem>,
    pub auto_accept: bool,
    pub case_insensitive: bool,
    pub allow_undefined: bool,
    pub fuzzy: bool,
    pub text_changed: bool,
    pub verbose: bool,
    pub input: String,
    pub exit_state: ExitState,
    pub filter_factory: FilterFactory,
}

impl TMenu {
    /// The session invariant: the factory's comparison table mirrors the
    /// entry store, and at most one entry is active.
    pub open spec fn wf(self) -> bool {
        &&& factory_matches_options(
            self.filter_factory,
            self.case_insensitive,
            crate::filter::factory_prefix(self.filter_factory),
            self.available_options@,
        )
        &&& count_active(item_states(self.available_options@)) <= 1
    }

    /// Start a session from its settings: entries as given, an empty query,
    /// and — unless free text is permitted — the first entry active.
    pub fn new(flags: TMenuSettings) -> (r: TMenu)
        requires
            forall|i: int|
                0 <= i < flags.available_options@.len() ==> (#[trigger] flags.available_options@[i].state)
                    is Visible,
        ensures
            r.wf(),
            r.auto_accept == flags.auto_accept,
            r.case_insensitive == flags.case_insensitive,
            r.allow_undefined == flags.allow_undefined,
            r.fuzzy == flags.fuzzy,
            !r.text_changed,
            r.verbose == flags.verbose,
            r.input@.len() == 0,
            r.exit_state is Continue,
            same_options_fields(r.available_options@, flags.available_options@),
            item_states(r.available_options@) == if !flags.allow_undefined
                && flags.available_options@.len() > 0 {
                item_states(flags.available_options@).update(0, ItemState::Active)
            } else {
                item_states(flags.available_options@)
            },
            factory_matches_options(
                r.filter_factory,
                flags.case_insensitive,
                flags.filter_by_prefix,
                r.available_options@,
            ),
    {
        let ghost opts0 = flags.available_options@;
        let filter_factory = create_filter_factory(&flags);
        let mut app = TMenu {
            available_options: flags.available_options,
            auto_accept: flags.auto_accept,
            case_insensitive: flags.case_insensitive,
            allow_undefined: flags.allow_undefined,
            fuzzy: flags.fuzzy,
            text_changed: false,
            verbose: flags.verbose,
            input: String::new(),
            exit_state: ExitState::Continue,
            filter_factory,
        };
        proof {
            lemma_count_active_zero(item_states(app.available_options@));
        }
        if !app.allow_undefined && app.available_options.len() > 0 {
            set_state(&mut app.available_options, 0, ItemState::Active);
            proof {
                assert(item_states(app.available_options@) =~= item_states(opts0).update(
                    0,
                    ItemState::Active,
                ));
                lemma_count_active_zero(item_states(opts0));
                lemma_count_active_update(item_states(opts0), 0, ItemState::Active);
            }
        } else {
            proof {
                assert(item_states(app.available_options@) =~= item_states(opts0));
            }
        }
        app
    }

    /// The window title.
    pub fn title(&self) -> (r: String)
        ensures
            r@ == "tmenu"@,
    {
        String::from_str("tmenu")
    }

    /// The session is over once the exit state has left `Continue`.
    pub fn should_exit(&self) -> (r: bool)
        ensures
            r == !(self.exit_state is Continue),
    {
        if let ExitState::Continue = self.exit_state {
            false
        } else {
            true
        }
    }

    /// Abort the session: nothing will be emitted.
    pub fn action_abort(&mut self)
        ensures
            *final(self) == (TMenu { exit_state: ExitState::Abort, ..*old(self) }),
    {
        self.exit_state = ExitState::Abort;
    }

    /// Cycle the active entry by `offset` through the visible set.
    pub fn select_next(&mut self, offset: isize)
        requires
            offset == 1 || offset == -1,
            old(self).wf(),
        ensures
            final(self).wf(),
            *final(self) == (TMenu { available_options: final(self).available_options, ..*old(self) }),
            same_options_fields(final(self).available_options@, old(self).available_options@),
            item_states(final(self).available_options@) == cycle_states(
                item_states(old(self).available_options@),
                offset as int,
            ),
    {
        select_next_item(&mut self.available_options, offset);
        proof {
            lemma_cycle_states_active_count(
                item_states(old(self).available_options@),
                offset as int,
            );
        }
    }

    /// Copy the active entry's displayed text into the query, if any entry
    /// is active.
    pub fn take_text(&mut self)
        ensures
            *final(self) == (TMenu { input: final(self).input, ..*old(self) }),
            match first_active(item_states(old(self).available_options@)) {
                Some(p) => final(self).input@ == old(self).available_options@[p].text@,
                None => final(self).input == old(self).input,
            },
    {
        if let Some(i) = find_active(&self.available_options) {
            self.input = self.available_options[i].text.clone();
        }
    }

    /// Where a renderer starts drawing entries: two positions before the
    /// active entry, clamped at the start of the list.
    pub fn view_start(&self) -> (r: usize)
        ensures
            r as int == match first_active(item_states(self.available_options@)) {
                Some(p) => if p > 2 {
                    p - 2
                } else {
                    0int
                },
                None => 0int,
            },
    {
        match find_active(&self.available_options) {
            Some(i) => {
                if i > 2 {
                    i - 2
                } else {
                    0
                }
            },
            None => 0,
        }
    }

    /// Consume one event. A returned string is what the session emits on
    /// stdout: the accepted entry's output value, or the free-typed query.
    pub fn update(&mut self, message: MainAction) -> (r: Option<String>)
        requires
            old(self).wf(),
        ensures
            final(self).wf(),
            message is Focus ==> *final(self) == *old(self) && r is None,
            message is Abort ==> *final(self) == (TMenu {
                exit_state: ExitState::Abort,
                ..*old(self)
            }) && r is None,
            message is Exit ==> {
                &&& *final(self) == (TMenu { exit_state: final(self).exit_state, ..*old(self) })
                &&& match first_active(item_states(old(self).available_options@)) {
                    Some(p) => r matches Some(v) && v@ == item_output(
                        old(self).available_options@[p],
                    ) && final(self).exit_state is Exit,
                    None => if old(self).allow_undefined && old(self).input@.len() > 0 {
                        r matches Some(v) && v@ == old(self).input@ && final(self).exit_state
                            is Exit
                    } else {
                        r is None && final(self).exit_state is Abort
                    },
                }
            },
            message is Next || message is Previous ==> {
                &&& *final(self) == (TMenu {
                    available_options: final(self).available_options,
                    ..*old(self)
                })
                &&& same_options_fields(
                    final(self).available_options@,
                    old(self).available_options@,
                )
                &&& item_states(final(self).available_options@) == cycle_states(
                    item_states(old(self).available_options@),
                    if message is Next {
                        1int
                    } else {
                        -1int
                    },
                )
                &&& r is None
            },
            message is NextTab || message is PreviousTab ==> {
                let cycled = cycle_states(
                    item_states(old(self).available_options@),
                    if message is NextTab {
                        1int
                    } else {
                        -1int
                    },
                );
                &&& *final(self) == (TMenu {
                    available_options: final(self).available_options,
                    input: final(self).input,
                    ..*old(self)
                })
                &&& same_options_fields(
                    final(self).available_options@,
                    old(self).available_options@,
                )
                &&& item_states(final(self).available_options@) == cycled
                &&& match first_active(cycled) {
                    Some(p) => final(self).input@ == old(self).available_options@[p].text@,
                    None => final(self).input == old(self).input,
                }
                &&& r is None
            },
            message matches MainAction::TextChanged(q) ==> {
                let new_states = apply_outcomes(
                    old(self).available_options@,
                    strategy_outcomes(old(self).filter_factory, q@, old(self).available_options@),
                    !old(self).allow_undefined,
                );
                &&& *final(self) == (TMenu {
                    available_options: final(self).available_options,
                    input: final(self).input,
                    exit_state: final(self).exit_state,
                    ..*old(self)
                })
                &&& same_options_fields(
                    final(self).available_options@,
                    old(self).available_options@,
                )
                &&& item_states(final(self).available_options@) == new_states
                &&& final(self).input == q
                &&& if old(self).auto_accept && visible_positions(new_states).len() == 1
                    && first_active(new_states) is Some {
                    &&& r matches Some(v) && v@ == item_output(
                        old(self).available_options@[first_active(new_states)->Some_0],
                    )
                    &&& final(self).exit_state is Exit
                } else {
                    &&& r is None
                    &&& final(self).exit_state == old(self).exit_state
                }
            },
    {
        match message {
            MainAction::Focus => None,
            MainAction::Abort => {
                self.action_abort();
                None
            },
            MainAction::Exit => {
                match find_active(&self.available_options) {
                    Some(i) => {
                        let result = String::from_str(self.available_options[i].value());
                        self.exit_state = ExitState::Exit;
                        Some(result)
                    },
                    None => {
                        if self.allow_undefined && !self.input.as_str().is_empty() {
                            let out = self.input.clone();
                            self.exit_state = ExitState::Exit;
                            Some(out)
                        } else {
                            self.action_abort();
                            None
                        }
                    },
                }
            },
            MainAction::Next => {
                self.select_next(1);
                None
            },
            MainAction::NextTab => {
                self.select_next(1);
                self.take_text();
                proof {
                    let cycled = item_states(self.available_options@);
                    if first_active(cycled) is Some {
                        lemma_first_active_props(cycled, first_active(cycled)->Some_0);
                    }
                }
                None
            },
            MainAction::Previous => {
                self.select_next(-1);
                None
            },
            MainAction::PreviousTab => {
                self.select_next(-1);
                self.take_text();
                proof {
                    let cycled = item_states(self.available_options@);
                    if first_active(cycled) is Some {
                        lemma_first_active_props(cycled, first_active(cycled)->Some_0);
                    }
                }
                None
            },
            MainAction::TextChanged(new_input) => {
                let ghost old_av = self.available_options@;
                let ghost f0 = self.filter_factory;
                let filter = self.filter_factory.create(new_input.as_str());
                let upd = !self.allow_undefined;
                let ghost ms = strategy_outcomes(f0, new_input@, old_av);
                match &self.filter_factory {
                    FilterFactory::CaseInsensitive(ci) => {
                        apply_filter(&mut self.available_options, &ci.entries, &filter, upd);
                        proof {
                            assert(outcomes_of(filter, ci.entries@, old_av) =~= ms);
                        }
                    },
                    FilterFactory::CaseSensitive(cs) => {
                        apply_filter(&mut self.available_options, &cs.acc, &filter, upd);
                        proof {
                            assert(outcomes_of(filter, cs.acc@, old_av) =~= ms);
                        }
                    },
                }
                proof {
                    lemma_apply_outcomes_active_count(old_av, ms, upd);
                }
                self.input = new_input;
                if self.auto_accept {
                    let visible = all_visible(&self.available_options);
                    if visible.len() == 1 {
                        if let Some(i) = find_active(&self.available_options) {
                            let result = String::from_str(self.available_options[i].value());
                            self.exit_state = ExitState::Exit;
                            return Some(result);
                        }
                    }
                }
                None
            },
        }
    }
}

} // verus!
