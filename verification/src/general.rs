//! The general page of a save game of the second game: what a choice made
//! there does to the character and to the plot tables.

use crate::mapper::{
    apply_gender, apply_notoriety, apply_origin, gender_applied, notoriety_applied,
    origin_applied, PlotTables,
};
use crate::player::{Notoriety, Origin, Player, Power};
use vstd::prelude::*;

verus! {

/// Whether two strings are equal when case is left out of account, as
/// Unicode folds it.
pub uninterp spec fn caseless_eq(left: Seq<char>, right: Seq<char>) -> bool;

/// `unicase::eq`: whether the two strings are equal after Unicode case
/// folding.
#[verifier::external_body]
fn eq_caseless(left: &str, right: &str) -> (equal: bool)
    ensures
        equal == caseless_eq(left@, right@),
{
    unicase::eq(left, right)
}

/// The classes of the second game.
#[derive(Clone, Copy, Debug, PartialEq, Eq, Structural)]
pub enum Me2Class {
    Adept,
    Engineer,
    Infiltrator,
    Sentinel,
    Soldier,
    Vanguard,
}

impl Me2Class {
    /// The name that the game has for the class.
    pub open spec fn spec_name(self) -> Seq<char> {
        match self {
            Me2Class::Adept => "SFXGame.SFXPawn_PlayerAdept"@,
            Me2Class::Engineer => "SFXGame.SFXPawn_PlayerEngineer"@,
            Me2Class::Infiltrator => "SFXGame.SFXPawn_PlayerInfiltrator"@,
            Me2Class::Sentinel => "SFXGame.SFXPawn_PlayerSentinel"@,
            Me2Class::Soldier => "SFXGame.SFXPawn_PlayerSoldier"@,
            Me2Class::Vanguard => "SFXGame.SFXPawn_PlayerVanguard"@,
        }
    }

    /// The class at a position of the list.
    pub open spec fn at(index: int) -> Me2Class {
        if index == 0 {
            Me2Class::Adept
        } else if index == 1 {
            Me2Class::Engineer
        } else if index == 2 {
            Me2Class::Infiltrator
        } else if index == 3 {
            Me2Class::Sentinel
        } else if index == 4 {
            Me2Class::Soldier
        } else {
            Me2Class::Vanguard
        }
    }

    /// The class at a position of the list, or nothing where the list is
    /// shorter.
    pub fn from_index(index: usize) -> (class: Option<Me2Class>)
        ensures
            class == (if index < 6 {
                Some(Self::at(index as int))
            } else {
                None
            }),
    {
        match index {
            0 => Some(Me2Class::Adept),
            1 => Some(Me2Class::Engineer),
            2 => Some(Me2Class::Infiltrator),
            3 => Some(Me2Class::Sentinel),
            4 => Some(Me2Class::Soldier),
            5 => Some(Me2Class::Vanguard),
            _ => None,
        }
    }

    /// The names that the game has for the classes, in the order of the
    /// list.
    pub fn names() -> (names: [&'static str; 6])
        ensures
            forall|i: int| 0 <= i < 6 ==> (#[trigger] names[i])@ == Self::at(i).spec_name(),
    {
        [
            "SFXGame.SFXPawn_PlayerAdept",
            "SFXGame.SFXPawn_PlayerEngineer",
            "SFXGame.SFXPawn_PlayerInfiltrator",
            "SFXGame.SFXPawn_PlayerSentinel",
            "SFXGame.SFXPawn_PlayerSoldier",
            "SFXGame.SFXPawn_PlayerVanguard",
        ]
    }

    /// The name that the game has for the class.
    pub fn name(self) -> (name: &'static str)
        ensures
            name@ == self.spec_name(),
    {
        match self {
            Me2Class::Adept => "SFXGame.SFXPawn_PlayerAdept",
            Me2Class::Engineer => "SFXGame.SFXPawn_PlayerEngineer",
            Me2Class::Infiltrator => "SFXGame.SFXPawn_PlayerInfiltrator",
            Me2Class::Sentinel => "SFXGame.SFXPawn_PlayerSentinel",
            Me2Class::Soldier => "SFXGame.SFXPawn_PlayerSoldier",
            Me2Class::Vanguard => "SFXGame.SFXPawn_PlayerVanguard",
        }
    }
}

/// Whether `at` is the first position at which `matches` holds.
pub open spec fn is_first_true(matches: Seq<bool>, at: int) -> bool {
    &&& 0 <= at < matches.len()
    &&& matches[at]
    &&& forall|j: int| 0 <= j < at ==> !matches[j]
}

/// The first position at which `matches` holds, where it holds at all.
pub open spec fn first_true(matches: Seq<bool>) -> Option<usize> {
    if exists|at: usize| is_first_true(matches, at as int) {
        Some(choose|at: usize| is_first_true(matches, at as int))
    } else {
        None
    }
}

/// The first position at which the array holds `true`, or nothing where it
/// holds none.
pub fn position_of_true(matches: &Vec<bool>) -> (found: Option<usize>)
    ensures
        found == first_true(matches@),
        found matches Some(at) ==> is_first_true(matches@, at as int),
        found is None ==> forall|j: int| 0 <= j < matches@.len() ==> !matches@[j],
{
    let mut i: usize = 0;
    while i < matches.len()
        invariant
            i <= matches@.len(),
            forall|j: int| 0 <= j < i ==> !matches@[j],
        decreases matches@.len() - i,
    {
        if matches[i] {
            proof {
                assert(is_first_true(matches@, i as int));
                let chosen = choose|at: usize| is_first_true(matches@, at as int);
                assert(is_first_true(matches@, chosen as int));
                if chosen < i {
                    assert(!matches@[chosen as int]);
                }
                if i < chosen {
                    assert(!matches@[i as int]);
                }
            }
            return Some(i);
        }
        i += 1;
    }
    proof {
        if exists|at: usize| is_first_true(matches@, at as int) {
            let at = choose|at: usize| is_first_true(matches@, at as int);
            assert(!matches@[at as int]);
        }
    }
    None
}

/// For each class, whether its name equals `class_name` when case is left
/// out of account.
pub open spec fn class_matches(class_name: Seq<char>) -> Seq<bool> {
    Seq::new(6, |i: int| caseless_eq(Me2Class::at(i).spec_name(), class_name))
}

/// The position of the first class whose name a class name equals, case left
/// out of account; 0 where it equals none.
pub fn class_index(class_name: &str) -> (index: usize)
    ensures
        index == (match first_true(class_matches(class_name@)) {
            Some(at) => at,
            None => 0,
        }),
{
    let names = Me2Class::names();
    let mut matches: Vec<bool> = Vec::new();
    let mut i: usize = 0;
    while i < 6
        invariant
            i <= 6,
            forall|j: int| 0 <= j < 6 ==> (#[trigger] names[j])@ == Me2Class::at(j).spec_name(),
            matches@ == class_matches(class_name@).take(i as int),
        decreases 6 - i,
    {
        matches.push(eq_caseless(names[i], class_name));
        i += 1;
        assert(matches@ =~= class_matches(class_name@).take(i as int));
    }
    assert(matches@ =~= class_matches(class_name@));
    match position_of_true(&matches) {
        Some(at) => at,
        None => 0,
    }
}

/// The class names of the powers.
pub open spec fn power_names(powers: Seq<Power>) -> Seq<Seq<char>> {
    Seq::new(powers.len(), |i: int| powers[i].power_class_name@)
}

/// For each of the class names, whether it equals `name` when case is left
/// out of account.
pub open spec fn power_matches(name: Seq<char>, names: Seq<Seq<char>>) -> Seq<bool> {
    Seq::new(names.len(), |i: int| caseless_eq(name, names[i]))
}

/// The position of the first power of the given class name, case left out of
/// account, or nothing where there is none.
pub fn power_position(powers: &Vec<Power>, name: &str) -> (found: Option<usize>)
    ensures
        found == first_true(power_matches(name@, power_names(powers@))),
        found matches Some(at) ==> is_first_true(
            power_matches(name@, power_names(powers@)),
            at as int,
        ),
        found is None ==> forall|j: int|
            0 <= j < powers@.len() ==> !caseless_eq(name@, #[trigger] power_names(powers@)[j]),
{
    let mut matches: Vec<bool> = Vec::new();
    let mut i: usize = 0;
    while i < powers.len()
        invariant
            i <= powers@.len(),
            matches@ == power_matches(name@, power_names(powers@)).take(i as int),
        decreases powers@.len() - i,
    {
        matches.push(eq_caseless(name, powers[i].power_class_name.as_str()));
        i += 1;
        assert(matches@ =~= power_matches(name@, power_names(powers@)).take(i as int));
    }
    assert(matches@ =~= power_matches(name@, power_names(powers@)));
    let found = position_of_true(&matches);
    proof {
        if found is None {
            assert forall|j: int| 0 <= j < powers@.len() implies !caseless_eq(
                name@,
                #[trigger] power_names(powers@)[j],
            ) by {
                assert(!matches@[j]);
            }
        }
    }
    found
}

/// Whether the character has a power of the given class name, case left out
/// of account.
pub fn has_power(powers: &Vec<Power>, name: &str) -> (has: bool)
    ensures
        has == first_true(power_matches(name@, power_names(powers@))) is Some,
        has == exists|i: int|
            0 <= i < powers@.len() && caseless_eq(name@, #[trigger] power_names(powers@)[i]),
{
    let found = power_position(powers, name);
    proof {
        if let Some(at) = found {
            assert(caseless_eq(name@, power_names(powers@)[at as int]));
        }
    }
    found.is_some()
}

/// The class names of the powers after a power was switched: without the
/// one that was found, or with a new one of the given name at the end.
pub open spec fn switched(names: Seq<Seq<char>>, found: Option<usize>, name: Seq<char>) -> Seq<
    Seq<char>,
> {
    match found {
        Some(index) => names.remove(index as int),
        None => names.push(name),
    }
}

/// Takes the power at the found position away, or, where none was found,
/// gives the character a power of the given class name.
pub fn switch_power(powers: &mut Vec<Power>, found: Option<usize>, name: String)
    requires
        found matches Some(index) ==> index < old(powers)@.len(),
    ensures
        power_names(final(powers)@) == switched(power_names(old(powers)@), found, name@),
{
    match found {
        Some(index) => {
            powers.remove(index);
        },
        None => {
            powers.push(Power { power_class_name: name });
        },
    }
    assert(power_names(powers@) =~= switched(power_names(old(powers)@), found, name@));
}

/// What [`toggle_bonus_power`] does to the player: the character loses the
/// first power of the given class name, case left out of account, or gains
/// one where there is none.
pub open spec fn power_toggled(player: Player, new_player: Player, name: Seq<char>) -> bool {
    &&& new_player.is_female == player.is_female
    &&& new_player.origin == player.origin
    &&& new_player.notoriety == player.notoriety
    &&& new_player.class_name == player.class_name
    &&& power_names(new_player.powers@) == switched(
        power_names(player.powers@),
        first_true(power_matches(name, power_names(player.powers@))),
        name,
    )
}

/// Switches the bonus power of the given class name.
pub fn toggle_bonus_power(player: &mut Player, name: String)
    ensures
        power_toggled(*old(player), *final(player), name@),
{
    let found = power_position(&player.powers, name.as_str());
    switch_power(&mut player.powers, found, name);
}

/// What choosing a class does to the player: the character gets the name
/// that the game has for the class.
pub open spec fn class_chosen(player: Player, new_player: Player, class: Me2Class) -> bool {
    &&& new_player.is_female == player.is_female
    &&& new_player.origin == player.origin
    &&& new_player.notoriety == player.notoriety
    &&& new_player.class_name@ == class.spec_name()
    &&& new_player.powers == player.powers
}

/// A choice made on the general page: the position chosen in a list, or the
/// class name of a bonus power.
pub enum Msg {
    Gender(usize),
    Origin(usize),
    Notoriety(usize),
    PlayerClass(usize),
    ToggleBonusPower(String),
}

impl Msg {
    /// The position is one of its list.
    pub open spec fn valid(self) -> bool {
        match self {
            Msg::Gender(_) => true,
            Msg::Origin(index) => index < 4,
            Msg::Notoriety(index) => index < 4,
            Msg::PlayerClass(index) => index < 6,
            Msg::ToggleBonusPower(_) => true,
        }
    }
}

/// Carries out a choice made on the general page and says whether the page
/// is to be drawn again, which it always is.
pub fn update(player: &mut Player, tables: &mut PlotTables, msg: Msg) -> (render: bool)
    requires
        msg.valid(),
    ensures
        render,
        match msg {
            Msg::Gender(index) => gender_applied(
                *old(player),
                *old(tables),
                *final(player),
                *final(tables),
                index != 0,
            ),
            Msg::Origin(index) => origin_applied(
                *old(player),
                *old(tables),
                *final(player),
                *final(tables),
                Origin::at(index as int),
            ),
            Msg::Notoriety(index) => notoriety_applied(
                *old(player),
                *old(tables),
                *final(player),
                *final(tables),
                Notoriety::at(index as int),
            ),
            Msg::PlayerClass(index) => *final(tables) == *old(tables) && class_chosen(
                *old(player),
                *final(player),
                Me2Class::at(index as int),
            ),
            Msg::ToggleBonusPower(name) => *final(tables) == *old(tables) && power_toggled(
                *old(player),
                *final(player),
                name@,
            ),
        },
{
    match msg {
        Msg::Gender(index) => {
            apply_gender(player, tables, index != 0);
        },
        Msg::Origin(index) => {
            let origin = Origin::from_index(index).unwrap();
            apply_origin(player, tables, origin);
        },
        Msg::Notoriety(index) => {
            let notoriety = Notoriety::from_index(index).unwrap();
            apply_notoriety(player, tables, notoriety);
        },
        Msg::PlayerClass(index) => {
            player.class_name = Me2Class::names()[index].to_owned();
        },
        Msg::ToggleBonusPower(name) => {
            toggle_bonus_power(player, name);
        },
    }
    true
}

} // verus!
