//! The part of the player record that the plot tables mirror.

use vstd::prelude::*;

verus! {

/// Where the character grew up.
#[derive(Clone, Copy, Debug, PartialEq, Eq, Structural)]
pub enum Origin {
    /// No origin was chosen.
    Unset,
    Spacer,
    Colonist,
    Earthborn,
}

impl Origin {
    /// The position of the variant, which is the number that the first
    /// game's table keeps for it.
    pub open spec fn ordinal(self) -> int {
        match self {
            Origin::Unset => 0,
            Origin::Spacer => 1,
            Origin::Colonist => 2,
            Origin::Earthborn => 3,
        }
    }

    /// The position of the variant.
    pub fn index(self) -> (i: usize)
        ensures
            i == self.ordinal(),
    {
        match self {
            Origin::Unset => 0,
            Origin::Spacer => 1,
            Origin::Colonist => 2,
            Origin::Earthborn => 3,
        }
    }

    /// The variant at a position.
    pub open spec fn at(index: int) -> Origin {
        if index == 1 {
            Origin::Spacer
        } else if index == 2 {
            Origin::Colonist
        } else if index == 3 {
            Origin::Earthborn
        } else {
            Origin::Unset
        }
    }

    /// The variant at a position, or nothing where there is none.
    pub fn from_index(index: usize) -> (origin: Option<Origin>)
        ensures
            origin == (if index < 4 {
                Some(Self::at(index as int))
            } else {
                None
            }),
            index < 4 ==> Self::at(index as int).ordinal() == index,
    {
        match index {
            0 => Some(Origin::Unset),
            1 => Some(Origin::Spacer),
            2 => Some(Origin::Colonist),
            3 => Some(Origin::Earthborn),
            _ => None,
        }
    }
}

/// What the character is known for.
#[derive(Clone, Copy, Debug, PartialEq, Eq, Structural)]
pub enum Notoriety {
    /// No notoriety was chosen.
    Unset,
    Survivor,
    Warhero,
    Ruthless,
}

impl Notoriety {
    /// The position of the variant, which is the number that the first
    /// game's table keeps for it.
    pub open spec fn ordinal(self) -> int {
        match self {
            Notoriety::Unset => 0,
            Notoriety::Survivor => 1,
            Notoriety::Warhero => 2,
            Notoriety::Ruthless => 3,
        }
    }

    /// The position of the variant.
    pub fn index(self) -> (i: usize)
        ensures
            i == self.ordinal(),
    {
        match self {
            Notoriety::Unset => 0,
            Notoriety::Survivor => 1,
            Notoriety::Warhero => 2,
            Notoriety::Ruthless => 3,
        }
    }

    /// The variant at a position.
    pub open spec fn at(index: int) -> Notoriety {
        if index == 1 {
            Notoriety::Survivor
        } else if index == 2 {
            Notoriety::Warhero
        } else if index == 3 {
            Notoriety::Ruthless
        } else {
            Notoriety::Unset
        }
    }

    /// The variant at a position, or nothing where there is none.
    pub fn from_index(index: usize) -> (notoriety: Option<Notoriety>)
        ensures
            notoriety == (if index < 4 {
                Some(Self::at(index as int))
            } else {
                None
            }),
            index < 4 ==> Self::at(index as int).ordinal() == index,
    {
        match index {
            0 => Some(Notoriety::Unset),
            1 => Some(Notoriety::Survivor),
            2 => Some(Notoriety::Warhero),
            3 => Some(Notoriety::Ruthless),
            _ => None,
        }
    }
}

/// A power of the character, named by its class.
#[derive(Debug)]
pub struct Power {
    pub power_class_name: String,
}

/// The character's gender, background, class and powers.
#[derive(Debug)]
pub struct Player {
    pub is_female: bool,
    pub origin: Origin,
    pub notoriety: Notoriety,
    pub class_name: String,
    pub powers: Vec<Power>,
}

} // verus!
