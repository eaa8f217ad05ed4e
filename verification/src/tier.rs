//! The three fixed difficulty presets.

use vstd::prelude::*;

verus! {

/// A difficulty preset. Each one fixes the upper bound of the range that the
/// secret number is drawn from; the lower bound is always 1.
#[derive(Clone, Copy, Debug, PartialEq, Eq, Structural)]
pub enum DifficultyTier {
    Easy,
    Medium,
    Hard,
}

impl DifficultyTier {
    /// The largest number that can be the secret in this tier.
    pub open spec fn spec_bound(self) -> u32 {
        match self {
            DifficultyTier::Easy => 50,
            DifficultyTier::Medium => 100,
            DifficultyTier::Hard => 200,
        }
    }

    /// The largest number that can be the secret in this tier.
    #[verifier::when_used_as_spec(spec_bound)]
    pub fn bound(self) -> (b: u32)
        ensures
            b == self.spec_bound(),
    {
        match self {
            DifficultyTier::Easy => 50,
            DifficultyTier::Medium => 100,
            DifficultyTier::Hard => 200,
        }
    }

    /// The tier with the given upper bound, if there is one.
    pub open spec fn spec_from_bound(bound: u32) -> Option<DifficultyTier> {
        if bound == 50 {
            Some(DifficultyTier::Easy)
        } else if bound == 100 {
            Some(DifficultyTier::Medium)
        } else if bound == 200 {
            Some(DifficultyTier::Hard)
        } else {
            None
        }
    }

    /// Recovers a tier from its upper bound, the form in which a tier is
    /// stored. Any number other than 50, 100 or 200 names no tier.
    pub fn from_bound(bound: u32) -> (tier: Option<DifficultyTier>)
        ensures
            tier == Self::spec_from_bound(bound),
            tier matches Some(t) ==> t.spec_bound() == bound,
    {
        if bound == 50 {
            Some(DifficultyTier::Easy)
        } else if bound == 100 {
            Some(DifficultyTier::Medium)
        } else if bound == 200 {
            Some(DifficultyTier::Hard)
        } else {
            None
        }
    }

    /// The tier that a menu entry stands for: 1 is easy, 2 is medium, 3 is hard.
    pub open spec fn spec_from_menu_choice(choice: u32) -> Option<DifficultyTier> {
        if choice == 1 {
            Some(DifficultyTier::Easy)
        } else if choice == 2 {
            Some(DifficultyTier::Medium)
        } else if choice == 3 {
            Some(DifficultyTier::Hard)
        } else {
            None
        }
    }

    /// Maps a menu entry to its tier. Entries other than 1, 2 and 3 are not on
    /// the menu.
    pub fn from_menu_choice(choice: u32) -> (tier: Option<DifficultyTier>)
        ensures
            tier == Self::spec_from_menu_choice(choice),
    {
        if choice == 1 {
            Some(DifficultyTier::Easy)
        } else if choice == 2 {
            Some(DifficultyTier::Medium)
        } else if choice == 3 {
            Some(DifficultyTier::Hard)
        } else {
            None
        }
    }
}

/// Every tier leaves at least one number to guess, and recovering a tier from
/// its own bound gives the tier back.
pub proof fn lemma_tier_bound_round_trip(tier: DifficultyTier)
    ensures
        1 <= tier.spec_bound() <= 200,
        DifficultyTier::spec_from_bound(tier.spec_bound()) == Some(tier),
{
}

} // verus!
