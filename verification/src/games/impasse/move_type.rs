use vstd::prelude::*;

verus! {

/// The kind of a move; `Invalid` is the sentinel of an absent move.
#[derive(Clone, Copy, Eq, PartialEq, Structural, Debug)]
pub enum MoveType {
    Invalid,
    Normal,
    Transpose,
    Crown,
    TransposeCrown,
    TransposeBearOff,
    BearOff,
    Impasse,
    BearOffCrown,
    ImpasseCrown,
}

impl Default for MoveType {
    fn default() -> (r: Self)
        ensures
            r == MoveType::Invalid,
    {
        MoveType::Invalid
    }
}

impl MoveType {
    /// The kind pairs that compose to a combined kind.
    pub open spec fn can_combine(self, rhs: MoveType) -> bool {
        ||| self == MoveType::Normal
        ||| (self == MoveType::BearOff && rhs == MoveType::Crown)
        ||| (self == MoveType::Transpose && (rhs == MoveType::Crown || rhs == MoveType::BearOff))
        ||| (self == MoveType::Impasse && rhs == MoveType::Crown)
    }

    pub open spec fn spec_combine(self, rhs: MoveType) -> MoveType {
        if self == MoveType::Normal {
            rhs
        } else if self == MoveType::BearOff && rhs == MoveType::Crown {
            MoveType::BearOffCrown
        } else if self == MoveType::Transpose && rhs == MoveType::Crown {
            MoveType::TransposeCrown
        } else if self == MoveType::Transpose && rhs == MoveType::BearOff {
            MoveType::TransposeBearOff
        } else if self == MoveType::Impasse && rhs == MoveType::Crown {
            MoveType::ImpasseCrown
        } else {
            MoveType::Invalid
        }
    }

    /// Whether this kind composes with `rhs`.
    pub fn can_combine_with(self, rhs: MoveType) -> (r: bool)
        ensures
            r == self.can_combine(rhs),
    {
        self == MoveType::Normal || (self == MoveType::BearOff && rhs == MoveType::Crown) || (self
            == MoveType::Transpose && (rhs == MoveType::Crown || rhs == MoveType::BearOff)) || (
        self == MoveType::Impasse && rhs == MoveType::Crown)
    }

    /// Composes two kinds; pairs outside the composition table are rejected
    /// by the precondition.
    pub fn combine(self, rhs: MoveType) -> (r: MoveType)
        requires
            self.can_combine(rhs),
        ensures
            r == self.spec_combine(rhs),
    {
        if self == MoveType::Normal {
            rhs
        } else if self == MoveType::BearOff {
            MoveType::BearOffCrown
        } else if self == MoveType::Transpose {
            if rhs == MoveType::Crown {
                MoveType::TransposeCrown
            } else {
                MoveType::TransposeBearOff
            }
        } else {
            MoveType::ImpasseCrown
        }
    }

    /// The kind's display name.
    pub fn string_map(self) -> (r: String)
        ensures
            self == MoveType::Invalid ==> r@ == "Invalid"@,
            self == MoveType::BearOff ==> r@ == "BearOff"@,
            self == MoveType::BearOffCrown ==> r@ == "BearOffCrown"@,
            self == MoveType::Crown ==> r@ == "Crown"@,
            self == MoveType::Impasse ==> r@ == "Impasse"@,
            self == MoveType::ImpasseCrown ==> r@ == "ImpasseCrown"@,
            self == MoveType::Normal ==> r@ == "Normal"@,
            self == MoveType::Transpose ==> r@ == "Transpose"@,
            self == MoveType::TransposeCrown ==> r@ == "TransposeCrown"@,
            self == MoveType::TransposeBearOff ==> r@ == "TransposeBearOff"@,
    {
        match self {
            MoveType::Invalid => "Invalid".to_string(),
            MoveType::BearOff => "BearOff".to_string(),
            MoveType::BearOffCrown => "BearOffCrown".to_string(),
            MoveType::Crown => "Crown".to_string(),
            MoveType::Impasse => "Impasse".to_string(),
            MoveType::ImpasseCrown => "ImpasseCrown".to_string(),
            MoveType::Normal => "Normal".to_string(),
            MoveType::Transpose => "Transpose".to_string(),
            MoveType::TransposeCrown => "TransposeCrown".to_string(),
            MoveType::TransposeBearOff => "TransposeBearOff".to_string(),
        }
    }
}

} // verus!
