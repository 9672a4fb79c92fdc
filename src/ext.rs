//! Extensions of the card model for particular game variants.

use vstd::prelude::*;
use crate::card::MoxCount;

verus! {

/// Augmented's card extension.
#[derive(Clone, Debug)]
pub struct AugExt {
    /// Artist credit.
    pub artist: String,
}

/// Augmented's cost extension.
#[derive(Clone, Copy, Debug, PartialEq, Eq, Structural)]
pub struct AugCosts {
    /// Shattered mox cost count.
    pub shattered_count: Option<MoxCount>,
    /// Max energy cell cost.
    pub max: isize,
}

/// Descryption's cost extension.
#[derive(Clone, Copy, Debug, PartialEq, Eq, Structural)]
pub struct DescCosts {
    /// Links cost.
    pub link: isize,
    /// Gold cost.
    pub gold: isize,
}

} // verus!
