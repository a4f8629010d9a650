use vstd::prelude::*;

use std::collections::HashMap;

use crate::game_value::{minimax_val, nega_val};
use crate::traits::{ChildStates, ScoreOfState, SearchMove, StateHash, TerminalState};

verus! {

broadcast use vstd::std_specs::hash::group_hash_axioms;

/// How a stored value relates to the searched value of its state. `Unknown`
/// is only ever returned for a miss; it is never stored.
#[derive(Clone, Copy, PartialEq, Eq, Structural, Debug)]
pub enum TranspositionStateType {
    Exact,
    LowerBound,
    UpperBound,
    Unknown,
}

/// One memoized search result: the state it belongs to and the side that was
/// to move, the value found, the depth it was searched to, how the value
/// bounds the searched value, and the child move that drove the value.
#[derive(Clone, Copy)]
pub struct TableEntry<T, M> {
    pub state: T,
    pub color: bool,
    pub value: i64,
    pub depth: i64,
    pub state_type: TranspositionStateType,
    pub best_move: M,
}

/// A map from state fingerprints to memoized search results. Entries keep the
/// state they were computed for, so a fingerprint collision reads as a miss
/// rather than as another state's value.
pub struct TranspositionTable<T, M> {
    map: HashMap<i64, TableEntry<T, M>>,
}

impl<T, M> View for TranspositionTable<T, M> {
    type V = Map<i64, TableEntry<T, M>>;

    closed spec fn view(&self) -> Map<i64, TableEntry<T, M>> {
        self.map@
    }
}

impl<T, M> Default for TranspositionTable<T, M> {
    fn default() -> (r: Self)
        ensures
            r@ == Map::<i64, TableEntry<T, M>>::empty(),
    {
        TranspositionTable { map: HashMap::new() }
    }
}

impl<T: StateHash + Copy, M: SearchMove> TranspositionTable<T, M> {
    /// Number of entries the table can hold without reallocating.
    ///
    /// Relies on std's `HashMap::capacity`: the capacity is never below the
    /// number of elements held.
    #[verifier::external_body]
    pub fn cap(&self) -> (n: usize)
        ensures
            n >= self@.len(),
    {
        self.map.capacity()
    }

    /// Number of entries stored.
    pub fn size(&self) -> (n: usize)
        ensures
            n == self@.len(),
    {
        self.map.len()
    }

    /// Stores `entry` under `key`, replacing any entry stored there before.
    pub fn add(&mut self, key: i64, entry: TableEntry<T, M>)
        ensures
            final(self)@ == old(self)@.insert(key, entry),
    {
        self.map.insert(key, entry);
    }

    /// Looks `key` up: when an entry is stored there for exactly this state
    /// and side to move, that entry comes back as stored; a miss, a
    /// fingerprint collision or a mismatched side returns the `Unknown`
    /// sentinel with a zero value and depth and the sentinel move.
    pub fn get(&self, key: i64, state: &T, color: bool) -> (r: (
        i64,
        i64,
        TranspositionStateType,
        M,
    ))
        ensures
            self@.contains_key(key) && self@[key].state == *state && self@[key].color == color
                ==> r == (
                self@[key].value,
                self@[key].depth,
                self@[key].state_type,
                self@[key].best_move,
            ),
            !(self@.contains_key(key) && self@[key].state == *state && self@[key].color == color)
                ==> r == (0i64, 0i64, TranspositionStateType::Unknown, M::spec_sentinel()),
            r.2 != TranspositionStateType::Unknown ==> self@.contains_key(key) && self@[
                key
            ].state == *state && self@[key].color == color && r == (
                self@[key].value,
                self@[key].depth,
                self@[key].state_type,
                self@[key].best_move,
            ),
    {
        match self.map.get(&key) {
            Some(entry) => {
                if state.eq_state(&entry.state) && color == entry.color {
                    (entry.value, entry.depth, entry.state_type, entry.best_move)
                } else {
                    (0, 0, TranspositionStateType::Unknown, M::sentinel())
                }
            },
            None => (0, 0, TranspositionStateType::Unknown, M::sentinel()),
        }
    }
}

/// An entry is stored under `key` for exactly this state and side, with a
/// flag a store would leave behind.
pub open spec fn tt_probe_hit<T, M>(
    m: Map<i64, TableEntry<T, M>>,
    key: i64,
    state: T,
    color: bool,
) -> bool {
    &&& m.contains_key(key)
    &&& m[key].state == state
    &&& m[key].color == color
    &&& m[key].state_type != TranspositionStateType::Unknown
}

/// Whether a probe of the table settles the search by itself: the stored
/// entry belongs to this state and side at exactly the queried depth, and it
/// is exact, or it is a bound that already closes the caller's window. On
/// such a probe the searchers return the stored value and leave the table
/// untouched.
pub open spec fn tt_probe_decides<T, M>(
    m: Map<i64, TableEntry<T, M>>,
    key: i64,
    state: T,
    color: bool,
    depth: i64,
    alpha: i64,
    beta: i64,
) -> bool {
    &&& tt_probe_hit(m, key, state, color)
    &&& m[key].depth == depth
    &&& {
        ||| m[key].state_type == TranspositionStateType::Exact
        ||| (m[key].state_type == TranspositionStateType::LowerBound && m[key].value >= beta)
        ||| (m[key].state_type == TranspositionStateType::UpperBound && m[key].value <= alpha)
    }
}

/// The stored value of one entry respects its bound flag against the negamax
/// value of the stored state at the stored depth.
pub open spec fn entry_sound_nega<
    M: SearchMove,
    T: ScoreOfState + TerminalState + ChildStates<M>,
>(e: TableEntry<T, M>) -> bool {
    &&& e.state.wf()
    &&& e.depth >= 0
    &&& e.state_type != TranspositionStateType::Unknown
    &&& (e.state_type == TranspositionStateType::Exact ==> e.value == nega_val(
        e.state,
        e.depth as nat,
        e.color,
    ))
    &&& (e.state_type == TranspositionStateType::LowerBound ==> nega_val(
        e.state,
        e.depth as nat,
        e.color,
    ) >= e.value)
    &&& (e.state_type == TranspositionStateType::UpperBound ==> nega_val(
        e.state,
        e.depth as nat,
        e.color,
    ) <= e.value)
}

/// Every entry of a table fed to `nega_with_table` respects its bound flag.
pub open spec fn tt_inv_nega<M: SearchMove, T: ScoreOfState + TerminalState + ChildStates<M>>(
    m: Map<i64, TableEntry<T, M>>,
) -> bool {
    forall|k: i64| m.dom().contains(k) ==> entry_sound_nega(#[trigger] m[k])
}

/// The stored value of one entry respects its bound flag against the minimax
/// value of the stored state at the stored depth.
pub open spec fn entry_sound_minimax<
    M: SearchMove,
    T: ScoreOfState + TerminalState + ChildStates<M>,
>(e: TableEntry<T, M>) -> bool {
    &&& e.state.wf()
    &&& e.depth >= 0
    &&& e.state_type != TranspositionStateType::Unknown
    &&& (e.state_type == TranspositionStateType::Exact ==> e.value == minimax_val(
        e.state,
        e.depth as nat,
        e.color,
    ))
    &&& (e.state_type == TranspositionStateType::LowerBound ==> minimax_val(
        e.state,
        e.depth as nat,
        e.color,
    ) >= e.value)
    &&& (e.state_type == TranspositionStateType::UpperBound ==> minimax_val(
        e.state,
        e.depth as nat,
        e.color,
    ) <= e.value)
}

/// Every entry of a table fed to `alpha_beta_with_table` respects its bound
/// flag.
pub open spec fn tt_inv_minimax<M: SearchMove, T: ScoreOfState + TerminalState + ChildStates<M>>(
    m: Map<i64, TableEntry<T, M>>,
) -> bool {
    forall|k: i64| m.dom().contains(k) ==> entry_sound_minimax(#[trigger] m[k])
}

} // verus!
