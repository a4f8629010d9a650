use vstd::prelude::*;

use crate::games::impasse::move_type::MoveType;
use crate::games::impasse::position::Position;
use crate::traits::SearchMove;

verus! {

broadcast use vstd::array::group_array_axioms;

/// A move: up to three cell deltas and a kind tag. Unused slots hold the
/// default sentinel position.
#[derive(Clone, Copy)]
pub struct Move {
    pub positions: [Position; 3],
    pub move_type: MoveType,
}

impl PartialEq for Move {
    fn eq(&self, other: &Move) -> (r: bool) {
        let r = self.move_type == other.move_type && self.positions[0] == other.positions[0]
            && self.positions[1] == other.positions[1] && self.positions[2] == other.positions[2];
        proof {
            if r {
                assert(self.positions =~= other.positions);
            }
        }
        r
    }
}

impl Eq for Move {

}

impl vstd::std_specs::cmp::PartialEqSpecImpl for Move {
    open spec fn obeys_eq_spec() -> bool {
        true
    }

    open spec fn eq_spec(&self, other: &Move) -> bool {
        *self == *other
    }
}

impl Default for Move {
    fn default() -> (r: Self)
        ensures
            r.move_type == MoveType::Invalid,
            forall|k: int|
                0 <= k < 3 ==> #[trigger] r.positions[k] == (Position {
                    x: 0,
                    y: 0,
                    old_sign: 3,
                    new_sign: 3,
                }),
    {
        let p = Position { x: 0, y: 0, old_sign: 3, new_sign: 3 };
        Move { move_type: MoveType::Invalid, positions: [p, p, p] }
    }
}

impl SearchMove for Move {
    open spec fn spec_sentinel() -> Self {
        let p = Position { x: 0, y: 0, old_sign: 3, new_sign: 3 };
        Move { move_type: MoveType::Invalid, positions: [p, p, p] }
    }

    fn eq_move(&self, other: &Self) -> (r: bool) {
        *self == *other
    }

    fn sentinel() -> (r: Self) {
        let p = Position { x: 0, y: 0, old_sign: 3, new_sign: 3 };
        let r = Move { move_type: MoveType::Invalid, positions: [p, p, p] };
        proof {
            assert(r.positions =~= Self::spec_sentinel().positions);
        }
        r
    }
}

impl Move {
    pub open spec fn spec_is_valid(&self) -> bool {
        self.move_type != MoveType::Invalid
    }

    /// Whether the move carries any effect at all.
    pub fn is_valid(&self) -> (r: bool)
        ensures
            r == self.spec_is_valid(),
    {
        self.move_type != MoveType::Invalid
    }

    /// The position slots after marking the move as a bear-off: the first
    /// slot whose new sign is a double is halved.
    pub open spec fn spec_bear_off_positions(self) -> [Position; 3] {
        if self.positions[0].new_sign == 2 || self.positions[0].new_sign == -2 {
            vstd::array::spec_array_update(
                self.positions,
                0,
                Position { new_sign: (self.positions[0].new_sign / 2) as i64, ..self.positions[0] },
            )
        } else {
            vstd::array::spec_array_update(
                self.positions,
                1,
                Position { new_sign: (self.positions[1].new_sign / 2) as i64, ..self.positions[1] },
            )
        }
    }

    /// Marks the move as a bear-off: the kind gains `BearOff` and the double
    /// that reached the far edge becomes a single.
    pub fn to_bear_off(&mut self)
        requires
            old(self).move_type.can_combine(MoveType::BearOff),
            old(self).positions[0].new_sign == 2 || old(self).positions[0].new_sign == -2 || old(
                self,
            ).positions[1].new_sign == 2 || old(self).positions[1].new_sign == -2,
        ensures
            final(self).move_type == old(self).move_type.spec_combine(MoveType::BearOff),
            final(self).positions == old(self).spec_bear_off_positions(),
    {
        self.move_type = self.move_type.combine(MoveType::BearOff);
        if self.positions[0].new_sign == 2 {
            self.positions[0].new_sign = 1;
        } else if self.positions[0].new_sign == -2 {
            self.positions[0].new_sign = -1;
        } else if self.positions[1].new_sign == 2 {
            self.positions[1].new_sign = 1;
        } else {
            self.positions[1].new_sign = -1;
        }
        proof {
            assert(final(self).positions =~= old(self).spec_bear_off_positions());
        }
    }
}

} // verus!
