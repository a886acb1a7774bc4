//! The gem: a token's kind, drawn from a fixed set of seven colors.

use vstd::prelude::*;

verus! {

/// One token on the board. Gems are plain values, compared only by equality.
#[derive(Clone, Copy, PartialEq, Eq, Structural, Debug)]
pub enum Gem {
    Green,
    Red,
    Yellow,
    Blue,
    White,
    Pink,
    Cyan,
}

impl Default for Gem {
    fn default() -> (g: Gem)
        ensures
            g == Gem::Green,
    {
        Gem::Green
    }
}

/// The kind that a byte selects: the byte modulo seven picks one of the
/// seven colors, so that a uniform random byte gives a near-uniform gem.
pub open spec fn spec_gem_of_u8(x: u8) -> Gem {
    if x % 7 == 0 {
        Gem::Green
    } else if x % 7 == 1 {
        Gem::Red
    } else if x % 7 == 2 {
        Gem::Yellow
    } else if x % 7 == 3 {
        Gem::Blue
    } else if x % 7 == 4 {
        Gem::White
    } else if x % 7 == 5 {
        Gem::Pink
    } else {
        Gem::Cyan
    }
}

impl Gem {
    /// Maps a byte to a gem kind, cycling through the seven colors.
    pub fn from_u8(x: u8) -> (g: Gem)
        ensures
            g == spec_gem_of_u8(x),
    {
        match x % 7 {
            0 => Gem::Green,
            1 => Gem::Red,
            2 => Gem::Yellow,
            3 => Gem::Blue,
            4 => Gem::White,
            5 => Gem::Pink,
            _ => Gem::Cyan,
        }
    }
}

} // verus!
