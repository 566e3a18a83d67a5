//! Laws of the selection state machine, proved once for all states: cycling
//! wraps around the visible set, a surviving active entry keeps its place
//! across filtering, a vanished one falls back to the first visible entry,
//! and an empty query hides nothing.
//!
//! That at most one entry is ever active is proved beside the state
//! machine itself: see `lemma_apply_outcomes_active_count` and
//! `lemma_cycle_states_active_count`.

use vstd::prelude::*;

use crate::filter::{strategy_outcomes, FilterFactory, Match};
use crate::menu_item::{ItemState, MenuItem};
use crate::tmenu::{
    apply_outcomes, chosen_position, count_active, cycle_states, find_active_in, first_active,
    item_states, last_index_offset, lemma_chosen_position_listed, lemma_count_active_unique,
    lemma_cycle_states_active_count, lemma_first_active_props, lemma_visible_positions_props,
    lemma_visible_update_same, state_of, visible_positions,
};
use crate::wrap_index;

verus! {

/// `k` applications of one cycle step.
pub open spec fn cycle_k(states: Seq<ItemState>, offset: int, k: nat) -> Seq<ItemState>
    decreases k,
{
    if k == 0 {
        states
    } else {
        cycle_states(cycle_k(states, offset, (k - 1) as nat), offset)
    }
}

proof fn lemma_wrap_shift(a: int, off: int, n: int)
    requires
        n > 0,
    ensures
        wrap_index(wrap_index(a, n) + off, n) == wrap_index(a + off, n),
{
    crate::tmenu::lemma_wrap_index_is_mod(a, n);
    crate::tmenu::lemma_wrap_index_is_mod(a % n + off, n);
    crate::tmenu::lemma_wrap_index_is_mod(a + off, n);
    vstd::arithmetic::div_mod::lemma_fundamental_div_mod(a, n);
    vstd::arithmetic::div_mod::lemma_mod_multiples_vanish(a / n, a % n + off, n);
}

/// One cycle step keeps the visible set, keeps exactly one entry active,
/// and moves the active entry's position within the visible set by `offset`
/// with wrap-around.
pub proof fn lemma_cycle_step(states: Seq<ItemState>, offset: int, p0: int)
    requires
        count_active(states) <= 1,
        offset == 1 || offset == -1,
        visible_positions(states).len() > 0,
        find_active_in(states, visible_positions(states)) == Some(p0),
    ensures
        visible_positions(cycle_states(states, offset)) == visible_positions(states),
        count_active(cycle_states(states, offset)) == 1,
        find_active_in(cycle_states(states, offset), visible_positions(states)) == Some(
            wrap_index(p0 + offset, visible_positions(states).len() as int),
        ),
{
    let vis = visible_positions(states);
    let n = vis.len() as int;
    lemma_visible_positions_props(states);
    crate::tmenu::lemma_find_active_in_props(states, vis, p0);
    let k2 = wrap_index(p0 + offset, n);
    crate::lemma_wrap_index_range(p0 + offset, n);
    let demoted = states.update(vis[p0], ItemState::Visible);
    let promoted = demoted.update(vis[k2], ItemState::Active);
    assert(cycle_states(states, offset) == promoted);
    lemma_cycle_states_active_count(states, offset);

    lemma_visible_update_same(states, vis[p0], ItemState::Visible);
    assert((demoted[vis[k2]] is Hidden) == (ItemState::Active is Hidden)) by {
        if vis[k2] != vis[p0] {
            assert(!(states[vis[k2]] is Hidden));
        }
    }
    lemma_visible_update_same(demoted, vis[k2], ItemState::Active);
    assert(visible_positions(promoted) == vis);

    assert(promoted[vis[k2]] is Active);
    assert forall|j: int| 0 <= j < k2 implies !(promoted[#[trigger] vis[j]] is Active) by {
        assert(vis[j] < vis[k2]);
        if vis[j] != vis[p0] && promoted[vis[j]] is Active {
            assert(promoted[vis[j]] == states[vis[j]]);
            lemma_count_active_unique(states, vis[j], vis[p0]);
        }
    }
    crate::tmenu::lemma_find_active_in_at(promoted, vis, k2);
}

/// Wrap-around correctness: from an active entry at position `p0` of a
/// non-empty visible set of size `n`, `k` consecutive forward cycles leave
/// the active entry at position `(p0 + k) mod n`, and `k` backward cycles
/// at `(p0 - k) mod n`. The visible set itself never changes.
pub proof fn lemma_cycle_wrap_around(states: Seq<ItemState>, offset: int, k: nat, p0: int)
    requires
        count_active(states) <= 1,
        offset == 1 || offset == -1,
        visible_positions(states).len() > 0,
        find_active_in(states, visible_positions(states)) == Some(p0),
    ensures
        visible_positions(cycle_k(states, offset, k)) == visible_positions(states),
        count_active(cycle_k(states, offset, k)) <= 1,
        find_active_in(cycle_k(states, offset, k), visible_positions(states)) == Some(
            wrap_index(
                if offset == 1 {
                    p0 + k
                } else {
                    p0 - k
                },
                visible_positions(states).len() as int,
            ),
        ),
    decreases k,
{
    let vis = visible_positions(states);
    let n = vis.len() as int;
    if k == 0 {
        crate::tmenu::lemma_find_active_in_props(states, vis, p0);
        vstd::arithmetic::div_mod::lemma_small_mod(p0 as nat, n as nat);
        crate::tmenu::lemma_wrap_index_is_mod(p0, n);
    } else {
        lemma_cycle_wrap_around(states, offset, (k - 1) as nat, p0);
        let mid = cycle_k(states, offset, (k - 1) as nat);
        let a = if offset == 1 {
            p0 + (k - 1)
        } else {
            p0 - (k - 1)
        };
        lemma_cycle_step(mid, offset, wrap_index(a, n));
        lemma_wrap_shift(a, offset, n);
    }
}

proof fn lemma_no_index_no_offset(ms: Seq<Match>)
    requires
        forall|i: int| 0 <= i < ms.len() ==> !(#[trigger] ms[i] is Index),
    ensures
        last_index_offset(ms) == None::<u32>,
    decreases ms.len(),
{
    if ms.len() > 0 {
        lemma_no_index_no_offset(ms.drop_last());
    }
}

/// Stability across filtering: when no entry reports a mnemonic override
/// and the previously active entry still matches, re-selection keeps that
/// same entry active.
pub proof fn lemma_filter_stability(items: Seq<MenuItem>, ms: Seq<Match>, p: int)
    requires
        ms.len() == items.len(),
        first_active(item_states(items)) == Some(p),
        forall|i: int| 0 <= i < ms.len() ==> !(#[trigger] ms[i] is Index),
        !(ms[p] is NoMatch),
    ensures
        first_active(apply_outcomes(items, ms, true)) == Some(p),
{
    let base = Seq::new(items.len(), |i: int| state_of(ms[i]));
    let vis = visible_positions(base);
    lemma_first_active_props(item_states(items), p);
    lemma_no_index_no_offset(ms);
    lemma_visible_positions_props(base);
    assert(!(base[p] is Hidden));
    assert(vis.contains(p));
    assert(vis.len() > 0) by {
        let w = choose|w: int| 0 <= w < vis.len() && vis[w] == p;
    }
    assert(chosen_position(Some(p), None::<u32>, vis) == p);
    let new = base.update(p, ItemState::Active);
    assert(apply_outcomes(items, ms, true) == new);
    assert forall|j: int| 0 <= j < p implies !(#[trigger] new[j] is Active) by {
        assert(new[j] == state_of(ms[j]));
    }
    crate::tmenu::lemma_first_active_at(new, p);
}

/// Disappearance fallback: when no entry reports a mnemonic override and
/// the previously active entry (if any) no longer matches, the first
/// remaining visible entry becomes active.
pub proof fn lemma_disappearance_fallback(items: Seq<MenuItem>, ms: Seq<Match>)
    requires
        ms.len() == items.len(),
        forall|i: int| 0 <= i < ms.len() ==> !(#[trigger] ms[i] is Index),
        match first_active(item_states(items)) {
            Some(p) => ms[p] is NoMatch,
            None => true,
        },
        visible_positions(Seq::new(items.len(), |i: int| state_of(ms[i]))).len() > 0,
    ensures
        first_active(apply_outcomes(items, ms, true)) == Some(
            visible_positions(Seq::new(items.len(), |i: int| state_of(ms[i])))[0],
        ),
{
    let base = Seq::new(items.len(), |i: int| state_of(ms[i]));
    let vis = visible_positions(base);
    lemma_no_index_no_offset(ms);
    lemma_visible_positions_props(base);
    let prev = first_active(item_states(items));
    if prev is Some {
        let p = prev->Some_0;
        lemma_first_active_props(item_states(items), p);
        assert(base[p] is Hidden);
        assert(!vis.contains(p)) by {
            if vis.contains(p) {
                let w = choose|w: int| 0 <= w < vis.len() && vis[w] == p;
            }
        }
    }
    assert(chosen_position(prev, None::<u32>, vis) == vis[0]);
    let new = base.update(vis[0], ItemState::Active);
    assert(apply_outcomes(items, ms, true) == new);
    assert forall|j: int| 0 <= j < vis[0] implies !(#[trigger] new[j] is Active) by {
        assert(new[j] == state_of(ms[j]));
    }
    crate::tmenu::lemma_first_active_at(new, vis[0]);
}

/// An empty query hides nothing: whatever the configuration, applying the
/// filter for the empty query leaves every entry of a non-empty store
/// visible or active, never hidden.
pub proof fn lemma_empty_query_all_visible(
    f: FilterFactory,
    items: Seq<MenuItem>,
    update_selection: bool,
)
    requires
        items.len() > 0,
    ensures
        ({
            let new = apply_outcomes(
                items,
                strategy_outcomes(f, Seq::empty(), items),
                update_selection,
            );
            &&& new.len() == items.len()
            &&& forall|i: int| 0 <= i < new.len() ==> !(#[trigger] new[i] is Hidden)
        }),
{
    let ms = strategy_outcomes(f, Seq::empty(), items);
    let base = Seq::new(items.len(), |i: int| state_of(ms[i]));
    assert(forall|i: int| 0 <= i < base.len() ==> #[trigger] base[i] == ItemState::Visible);
    lemma_visible_positions_props(base);
    let vis = visible_positions(base);
    assert(vis.len() > 0) by {
        assert(!(base[0] is Hidden));
        assert(vis.contains(0));
        let w = choose|w: int| 0 <= w < vis.len() && vis[w] == 0;
    }
    if update_selection {
        let prev = first_active(item_states(items));
        let chosen = chosen_position(prev, last_index_offset(ms), vis);
        lemma_chosen_position_listed(prev, last_index_offset(ms), vis);
        let new = apply_outcomes(items, ms, update_selection);
        assert(new == base.update(chosen, ItemState::Active));
        assert forall|i: int| 0 <= i < new.len() implies !(#[trigger] new[i] is Hidden) by {
            if i != chosen {
                assert(new[i] == base[i]);
            }
        }
    }
}

} // verus!
