use vstd::prelude::*;

verus! {

/// A move value the engine can copy, compare and store in a table slot.
pub trait SearchMove: Sized + Copy {
    /// The distinguished placeholder move, as a specification value.
    spec fn spec_sentinel() -> Self;

    /// Decides equality of two moves; `true` exactly when the values are equal.
    fn eq_move(&self, other: &Self) -> (r: bool)
        ensures
            r == (*self == *other),
    ;

    /// The distinguished placeholder move, stored in a table entry before any
    /// child has improved on the initial bound and returned on a table miss.
    fn sentinel() -> (r: Self)
        ensures
            r == Self::spec_sentinel(),
    ;
}

/// A game state with a well-formedness predicate. Search functions only ever
/// receive and produce well-formed states.
pub trait WellFormedState: Sized {
    spec fn wf(&self) -> bool;
}

/// Static evaluation of a state, always from MAX's perspective.
pub trait ScoreOfState: WellFormedState {
    spec fn spec_score(&self) -> int;

    /// The score of a well-formed state is strictly above `i64::MIN`, so its
    /// negation fits in an `i64`.
    proof fn lemma_score_bounded(&self)
        requires
            self.wf(),
        ensures
            crate::min_score() <= self.spec_score() <= i64::MAX,
    ;

    fn score_of(&self) -> (r: i64)
        requires
            self.wf(),
        ensures
            r == self.spec_score(),
    ;
}

/// Detection of states where no further play is possible.
pub trait TerminalState: WellFormedState {
    spec fn spec_terminal(&self) -> bool;

    fn is_terminal(&self) -> (r: bool)
        requires
            self.wf(),
        ensures
            r == self.spec_terminal(),
    ;
}

/// Legal-move enumeration and state transition. `apply` must only be called
/// on moves that are valid for the state; every enumerated move is valid.
pub trait ChildStates<M: SearchMove>: WellFormedState {
    /// The legal moves of the side `color`, in the order the generator emits
    /// them.
    spec fn spec_children(&self, color: bool) -> Seq<M>;

    /// Whether `m` is coherent with this state, so that applying it is
    /// meaningful and undoing it restores the state.
    spec fn valid_move(&self, m: M) -> bool;

    spec fn spec_apply(&self, m: M) -> Self;

    spec fn spec_undo(&self, m: M) -> Self;

    /// Every enumerated move is valid for the state that produced it.
    proof fn lemma_children_valid(&self, color: bool)
        requires
            self.wf(),
        ensures
            forall|i: int|
                0 <= i < self.spec_children(color).len() ==> self.valid_move(
                    #[trigger] self.spec_children(color)[i],
                ),
    ;

    /// Applying a valid move to a well-formed state yields a well-formed
    /// state.
    proof fn lemma_apply_wf(&self, m: M)
        requires
            self.wf(),
            self.valid_move(m),
        ensures
            self.spec_apply(m).wf(),
    ;

    /// Undoing a valid move right after applying it restores the original
    /// state exactly.
    proof fn lemma_apply_undo(&self, m: M)
        requires
            self.wf(),
            self.valid_move(m),
        ensures
            self.spec_apply(m).spec_undo(m) == *self,
    ;

    fn child_states(&self, color: bool) -> (r: Vec<M>)
        requires
            self.wf(),
        ensures
            r@ == self.spec_children(color),
    ;

    fn apply(&self, m: M) -> (r: Self)
        requires
            self.wf(),
            self.valid_move(m),
        ensures
            r == self.spec_apply(m),
    ;

    fn undo(&self, m: M) -> (r: Self)
        requires
            exists|s: Self| s.wf() && s.valid_move(m) && *self == s.spec_apply(m),
        ensures
            r == self.spec_undo(m),
    ;
}

/// A stable fingerprint of a state together with the side to move.
pub trait StateHash: WellFormedState {
    /// The fingerprint is a function of the state and `color` alone.
    spec fn spec_hash(&self, color: bool) -> i64;

    fn hash(&self, color: bool) -> (r: i64)
        requires
            self.wf(),
        ensures
            r == self.spec_hash(color),
    ;

    /// Decides equality of two states; `true` exactly when the values are
    /// equal. The table uses this to rule out fingerprint collisions.
    fn eq_state(&self, other: &Self) -> (r: bool)
        ensures
            r == (*self == *other),
    ;
}

} // verus!
