//! The generic card model shared by every card game variant.

use vstd::prelude::*;

verus! {

/// How rare a card is.
#[derive(Clone, Copy, Debug, PartialEq, Eq, Structural)]
pub enum Rarity {
    Common,
    Uncommon,
    Rare,
    Unique,
    Side,
    Deathcard,
    Jokecard,
}

/// The temples a card belongs to, as a set of bit flags.
#[derive(Clone, Copy, Debug, PartialEq, Eq, Structural)]
pub struct Temple {
    pub bits: u8,
}

impl Temple {
    pub const BEAST: u8 = 1;
    pub const UNDEAD: u8 = 2;
    pub const TECH: u8 = 4;
    pub const MAGICK: u8 = 8;
    pub const FOOL: u8 = 16;
    pub const EXTRAS: u8 = 32;

    pub fn from_bits(bits: u8) -> (r: Temple)
        ensures
            r.bits == bits,
    {
        Temple { bits }
    }

    /// Every flag of `other` is set in `self`.
    pub open spec fn has(self, other: Temple) -> bool {
        self.bits & other.bits == other.bits
    }

    pub fn contains(&self, other: Temple) -> (r: bool)
        ensures
            r == self.has(other),
    {
        self.bits & other.bits == other.bits
    }

    pub fn union(&self, other: Temple) -> (r: Temple)
        ensures
            r.bits == self.bits | other.bits,
    {
        Temple { bits: self.bits | other.bits }
    }

    /// Adds `flag` when `cond` holds.
    pub fn set_if(self, flag: u8, cond: bool) -> (r: Temple)
        ensures
            r.bits == if cond { self.bits | flag } else { self.bits },
    {
        if cond { Temple { bits: self.bits | flag } } else { self }
    }
}

/// The mox colours of a cost, as a set of bit flags.
#[derive(Clone, Copy, Debug, PartialEq, Eq, Structural)]
pub struct Mox {
    pub bits: u8,
}

impl Mox {
    pub const O: u8 = 1;
    pub const G: u8 = 2;
    pub const B: u8 = 4;
    pub const Y: u8 = 8;
    pub const K: u8 = 16;
    pub const R: u8 = 32;
    pub const P: u8 = 64;
    pub const T: u8 = 128;

    /// Adds `flag` when `cond` holds.
    pub fn set_if(self, flag: u8, cond: bool) -> (r: Mox)
        ensures
            r.bits == if cond { self.bits | flag } else { self.bits },
    {
        if cond { Mox { bits: self.bits | flag } } else { self }
    }
}

/// The trait flags of a card.
#[derive(Clone, Copy, Debug, PartialEq, Eq, Structural)]
pub struct TraitsFlag {
    pub bits: u8,
}

impl TraitsFlag {
    pub const CONDUCTIVE: u8 = 1;
    pub const BAN: u8 = 2;
    pub const TERRAIN: u8 = 4;
    pub const HARD: u8 = 8;

    /// Adds `flag` when `cond` holds.
    pub fn set_if(self, flag: u8, cond: bool) -> (r: TraitsFlag)
        ensures
            r.bits == if cond { self.bits | flag } else { self.bits },
    {
        if cond { TraitsFlag { bits: self.bits | flag } } else { self }
    }
}

/// The special attacks a card can have in place of a number.
#[derive(Clone, Copy, Debug, PartialEq, Eq, Structural)]
pub enum SpAtk {
    Mox,
    GreenMox,
    Mirror,
    Ant,
    Bell,
    Card,
}

/// A card's attack: a number or a special attack.
#[derive(Clone, Copy, Debug, PartialEq, Eq, Structural)]
pub enum Attack {
    Num(isize),
    SpAtk(SpAtk),
}

/// How many moxes of each colour a cost asks for.
#[derive(Clone, Copy, Debug, Default, PartialEq, Eq, Structural)]
pub struct MoxCount {
    pub r: usize,
    pub g: usize,
    pub b: usize,
    pub y: usize,
    pub k: usize,
    pub p: usize,
    pub o: usize,
    pub t: usize,
}

impl MoxCount {
    pub open spec fn is_zero(self) -> bool {
        self.r == 0 && self.g == 0 && self.b == 0 && self.y == 0 && self.k == 0 && self.p == 0
            && self.o == 0 && self.t == 0
    }
}

/// A card's cost; `C` holds what only one game variant has.
#[derive(Clone, Debug)]
pub struct Costs<C> {
    pub blood: isize,
    pub bone: isize,
    pub energy: isize,
    pub mox: Mox,
    pub mox_count: Option<MoxCount>,
    pub extra: C,
}

/// A card's traits: free text and flags.
#[derive(Clone, Debug)]
pub struct Traits {
    pub strings: Option<Vec<String>>,
    pub flags: TraitsFlag,
}

/// The three-character code of a set.
#[derive(Clone, Copy, Debug, PartialEq, Eq, Structural)]
pub struct SetCode {
    pub c0: char,
    pub c1: char,
    pub c2: char,
}

/// One card. `C` extends its cost and `E` the card itself, per game variant.
#[derive(Clone, Debug)]
pub struct Card<C, E> {
    pub portrait: String,
    pub set: SetCode,
    pub name: String,
    pub description: String,
    pub rarity: Rarity,
    pub temple: Temple,
    pub tribes: Option<Vec<String>>,
    pub attack: Attack,
    pub health: isize,
    pub sigils: Vec<String>,
    pub costs: Option<Costs<C>>,
    pub traits: Option<Traits>,
    pub related: Vec<String>,
    pub extra: E,
}

/// A set of cards, with the description of every sigil its cards name.
#[derive(Clone, Debug)]
pub struct CardSet<C, E> {
    pub code: SetCode,
    pub name: String,
    pub cards: Vec<Card<C, E>>,
    pub sigils_description: Vec<(String, String)>,
}

impl<C, E> CardSet<C, E> {
    /// Sigil names are unique keys, every sigil of every card has a
    /// description, and no card records a mox count of zero in every colour.
    pub open spec fn wf(self) -> bool {
        &&& forall|c: int|
            0 <= c < self.cards@.len() ==> match (#[trigger] self.cards@[c]).costs {
                Some(k) => match k.mox_count {
                    Some(m) => !m.is_zero(),
                    None => true,
                },
                None => true,
            }
        &&& forall|i: int, j: int|
            0 <= i < j < self.sigils_description@.len() ==> (#[trigger] self.sigils_description@[i]).0@
                != (#[trigger] self.sigils_description@[j]).0@
        &&& forall|c: int, s: int|
            0 <= c < self.cards@.len() && 0 <= s < self.cards@[c].sigils@.len() ==> exists|k: int|
                0 <= k < self.sigils_description@.len() && (#[trigger] self.sigils_description@[k]).0@
                    == (#[trigger] self.cards@[c].sigils@[s])@
    }
}

} // verus!
