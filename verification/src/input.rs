//! Combat-art tokens and the two-token combos they form.
use vstd::prelude::*;

verus! {

/// One key of a combat-art combo: a direction, block (`r`), attack (`l`) or interact (`e`).
#[derive(Clone, Copy, PartialEq, Eq, Structural, Debug)]
pub enum ArtToken {
    Up,
    Right,
    Down,
    Left,
    Block,
    Attack,
    Interact,
}

/// A combat-art bind: `∅` (bare block) or an ordered pair of tokens.
#[derive(Clone, Copy, PartialEq, Eq, Structural, Debug)]
pub enum ArtCombo {
    Empty,
    Pair(ArtToken, ArtToken),
}

pub open spec fn token_index(t: ArtToken) -> u8 {
    match t {
        ArtToken::Up => 0,
        ArtToken::Right => 1,
        ArtToken::Down => 2,
        ArtToken::Left => 3,
        ArtToken::Block => 4,
        ArtToken::Attack => 5,
        ArtToken::Interact => 6,
    }
}

/// A number that names the combo: 0 for `∅`, `1 + 7 * first + second` for a pair.
pub open spec fn art_code(c: ArtCombo) -> u8 {
    match c {
        ArtCombo::Empty => 0,
        ArtCombo::Pair(a, b) => (1 + 7 * token_index(a) + token_index(b)) as u8,
    }
}

/// Distinct combat-art combos never share a bind: the key a combo is bound
/// under names that combo alone.
pub proof fn law_art_code_injective(x: ArtCombo, y: ArtCombo)
    ensures
        art_code(x) == art_code(y) ==> x == y,
{
}

impl ArtToken {
    pub fn index(self) -> (r: u8)
        ensures
            r == token_index(self),
    {
        match self {
            ArtToken::Up => 0,
            ArtToken::Right => 1,
            ArtToken::Down => 2,
            ArtToken::Left => 3,
            ArtToken::Block => 4,
            ArtToken::Attack => 5,
            ArtToken::Interact => 6,
        }
    }
}

impl ArtCombo {
    /// The `∅` bind.
    pub fn empty() -> (r: ArtCombo)
        ensures
            r == ArtCombo::Empty,
    {
        ArtCombo::Empty
    }

    /// The combo `first` then `second`.
    pub fn pair(first: ArtToken, second: ArtToken) -> (r: ArtCombo)
        ensures
            r == ArtCombo::Pair(first, second),
    {
        ArtCombo::Pair(first, second)
    }

    /// The token whose key is held to sustain the art: the second of a pair.
    pub fn second(&self) -> (r: Option<ArtToken>)
        ensures
            r == match *self {
                ArtCombo::Empty => None,
                ArtCombo::Pair(_, b) => Some(b),
            },
    {
        match *self {
            ArtCombo::Empty => None,
            ArtCombo::Pair(_, b) => Some(b),
        }
    }

    pub fn code(&self) -> (r: u8)
        ensures
            r == art_code(*self),
    {
        match *self {
            ArtCombo::Empty => 0,
            ArtCombo::Pair(a, b) => 1 + 7 * a.index() + b.index(),
        }
    }
}

} // verus!
