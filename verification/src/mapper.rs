//! The rules that carry a change of the character into the plot tables.
//!
//! Gender, origin and notoriety are stored twice: in the player record, and
//! as flags and integers at fixed ids of the plot tables, where the later
//! games look them up. A change goes through the functions of this module,
//! which write both. A table that does not hold an id is left as it is.

use crate::bool_vec::{is_packed, pack, BoolVec};
use crate::player::{Notoriety, Origin, Player};
use crate::plot::{store, Me1PlotTable, PlotTable};
use crate::word::unpack;
use vstd::prelude::*;

verus! {

/// The flag of the current table that says whether the character is female.
pub const GENDER_FLAG: usize = 66;

/// The flag of the imported table that says whether the character is female.
pub const IMPORTED_GENDER_FLAG: usize = 4639;

/// The flag of the current table for the origin Spacer.
pub const SPACER_FLAG: usize = 1533;

/// The flag of the current table for the origin Colonist.
pub const COLONIST_FLAG: usize = 1535;

/// The flag of the current table for the origin Earthborn.
pub const EARTHBORN_FLAG: usize = 1534;

/// The flag of the current table for the notoriety Survivor.
pub const SURVIVOR_FLAG: usize = 1537;

/// The flag of the current table for the notoriety War Hero.
pub const WARHERO_FLAG: usize = 1538;

/// The flag of the current table for the notoriety Ruthless.
pub const RUTHLESS_FLAG: usize = 1539;

/// The integer of the imported table that holds the origin's ordinal.
pub const IMPORTED_ORIGIN_INTEGER: usize = 1;

/// The integer of the imported table that holds the notoriety's ordinal.
pub const IMPORTED_NOTORIETY_INTEGER: usize = 2;

/// `values` with `value` at `id`, or `values` itself where it has no such
/// position.
pub open spec fn put<T>(values: Seq<T>, id: int, value: T) -> Seq<T> {
    if 0 <= id < values.len() {
        values.update(id, value)
    } else {
        values
    }
}

/// `flags` after the flags at `first` and `second` were cleared and the one
/// at `chosen` was set, each where `flags` has such a position.
pub open spec fn exclusive(flags: Seq<bool>, chosen: int, first: int, second: int) -> Seq<bool> {
    put(put(put(flags, first, false), second, false), chosen, true)
}

/// The flags of the current table after an origin was applied: one of the
/// three origin flags set and the other two cleared, or no change for
/// [`Origin::Unset`].
pub open spec fn origin_flags(flags: Seq<bool>, origin: Origin) -> Seq<bool> {
    match origin {
        Origin::Unset => flags,
        Origin::Spacer => exclusive(
            flags,
            SPACER_FLAG as int,
            COLONIST_FLAG as int,
            EARTHBORN_FLAG as int,
        ),
        Origin::Colonist => exclusive(
            flags,
            COLONIST_FLAG as int,
            SPACER_FLAG as int,
            EARTHBORN_FLAG as int,
        ),
        Origin::Earthborn => exclusive(
            flags,
            EARTHBORN_FLAG as int,
            SPACER_FLAG as int,
            COLONIST_FLAG as int,
        ),
    }
}

/// The flags of the current table after a notoriety was applied: one of the
/// three notoriety flags set and the other two cleared, or no change for
/// [`Notoriety::Unset`].
pub open spec fn notoriety_flags(flags: Seq<bool>, notoriety: Notoriety) -> Seq<bool> {
    match notoriety {
        Notoriety::Unset => flags,
        Notoriety::Survivor => exclusive(
            flags,
            SURVIVOR_FLAG as int,
            WARHERO_FLAG as int,
            RUTHLESS_FLAG as int,
        ),
        Notoriety::Warhero => exclusive(
            flags,
            WARHERO_FLAG as int,
            SURVIVOR_FLAG as int,
            RUTHLESS_FLAG as int,
        ),
        Notoriety::Ruthless => exclusive(
            flags,
            RUTHLESS_FLAG as int,
            SURVIVOR_FLAG as int,
            WARHERO_FLAG as int,
        ),
    }
}

/// The plot tables of a save game of the second game: its own, and the one
/// imported from the first game where there is one.
pub struct PlotTables {
    pub current: PlotTable,
    pub imported: Option<Me1PlotTable>,
}

/// `after` is `before` with its flags replaced, and nothing else changed.
pub open spec fn current_flags_become(
    before: PlotTable,
    after: PlotTable,
    flags: Seq<bool>,
) -> bool {
    &&& after.booleans@ == flags
    &&& after.integers == before.integers
    &&& after.floats == before.floats
    &&& after.journal == before.journal
}

/// `after` is `before` with its flags replaced, and nothing else changed;
/// where there is no table before, there is none after.
pub open spec fn imported_flags_become(
    before: Option<Me1PlotTable>,
    after: Option<Me1PlotTable>,
    id: int,
    value: bool,
) -> bool {
    match before {
        Some(b) => {
            &&& after matches Some(a)
            &&& a.booleans@ == put(b.booleans@, id, value)
            &&& a.integers == b.integers
            &&& a.floats == b.floats
        },
        None => after is None,
    }
}

/// `after` is `before` with one integer written where the table holds it,
/// and nothing else changed; where there is no table before, there is none
/// after.
pub open spec fn imported_integer_becomes(
    before: Option<Me1PlotTable>,
    after: Option<Me1PlotTable>,
    id: int,
    value: i32,
) -> bool {
    match before {
        Some(b) => {
            &&& after matches Some(a)
            &&& a.booleans == b.booleans
            &&& a.integers@ == put(b.integers@, id, value)
            &&& a.floats == b.floats
        },
        None => after is None,
    }
}

/// What [`apply_gender`] does to the player and the tables.
pub open spec fn gender_applied(
    player: Player,
    tables: PlotTables,
    new_player: Player,
    new_tables: PlotTables,
    is_female: bool,
) -> bool {
    &&& new_player == (Player { is_female, ..player })
    &&& current_flags_become(
        tables.current,
        new_tables.current,
        put(tables.current.booleans@, GENDER_FLAG as int, is_female),
    )
    &&& imported_flags_become(
        tables.imported,
        new_tables.imported,
        IMPORTED_GENDER_FLAG as int,
        is_female,
    )
}

/// What [`apply_origin`] does to the player and the tables.
pub open spec fn origin_applied(
    player: Player,
    tables: PlotTables,
    new_player: Player,
    new_tables: PlotTables,
    origin: Origin,
) -> bool {
    &&& new_player == (Player { origin, ..player })
    &&& current_flags_become(
        tables.current,
        new_tables.current,
        origin_flags(tables.current.booleans@, origin),
    )
    &&& imported_integer_becomes(
        tables.imported,
        new_tables.imported,
        IMPORTED_ORIGIN_INTEGER as int,
        origin.ordinal() as i32,
    )
}

/// What [`apply_notoriety`] does to the player and the tables.
pub open spec fn notoriety_applied(
    player: Player,
    tables: PlotTables,
    new_player: Player,
    new_tables: PlotTables,
    notoriety: Notoriety,
) -> bool {
    &&& new_player == (Player { notoriety, ..player })
    &&& current_flags_become(
        tables.current,
        new_tables.current,
        notoriety_flags(tables.current.booleans@, notoriety),
    )
    &&& imported_integer_becomes(
        tables.imported,
        new_tables.imported,
        IMPORTED_NOTORIETY_INTEGER as int,
        notoriety.ordinal() as i32,
    )
}

/// Writes a flag where the store holds it.
pub fn write_flag(flags: &mut BoolVec, id: usize, value: bool)
    ensures
        final(flags)@ == put(old(flags)@, id as int, value),
{
    let _ = flags.set(id, value);
}

/// Sets the flag at `chosen` and clears the flags at `first` and `second`,
/// each where the store holds it.
pub fn set_exclusive(flags: &mut BoolVec, chosen: usize, first: usize, second: usize)
    ensures
        final(flags)@ == exclusive(old(flags)@, chosen as int, first as int, second as int),
{
    write_flag(flags, first, false);
    write_flag(flags, second, false);
    write_flag(flags, chosen, true);
}

/// Writes an integer of the imported table, where there is such a table and
/// it holds the id.
fn write_imported_integer(tables: &mut PlotTables, id: usize, value: i32)
    ensures
        final(tables).current == old(tables).current,
        imported_integer_becomes(old(tables).imported, final(tables).imported, id as int, value),
{
    match tables.imported.take() {
        Some(mut table) => {
            let _ = store(&mut table.integers, id, value);
            tables.imported = Some(table);
        },
        None => {},
    }
}

/// Makes the character male or female: in the player record, in the current
/// table, and in the imported table where there is one.
pub fn apply_gender(player: &mut Player, tables: &mut PlotTables, is_female: bool)
    ensures
        gender_applied(*old(player), *old(tables), *final(player), *final(tables), is_female),
{
    player.is_female = is_female;
    write_flag(&mut tables.current.booleans, GENDER_FLAG, is_female);
    match tables.imported.take() {
        Some(mut table) => {
            write_flag(&mut table.booleans, IMPORTED_GENDER_FLAG, is_female);
            tables.imported = Some(table);
        },
        None => {},
    }
}

/// Gives the character an origin: in the player record, as one of three
/// flags of the current table, and as its ordinal in the imported table where
/// there is one. [`Origin::Unset`] leaves the flags as they are.
pub fn apply_origin(player: &mut Player, tables: &mut PlotTables, origin: Origin)
    ensures
        origin_applied(*old(player), *old(tables), *final(player), *final(tables), origin),
{
    player.origin = origin;
    match origin {
        Origin::Unset => {},
        Origin::Spacer => set_exclusive(
            &mut tables.current.booleans,
            SPACER_FLAG,
            COLONIST_FLAG,
            EARTHBORN_FLAG,
        ),
        Origin::Colonist => set_exclusive(
            &mut tables.current.booleans,
            COLONIST_FLAG,
            SPACER_FLAG,
            EARTHBORN_FLAG,
        ),
        Origin::Earthborn => set_exclusive(
            &mut tables.current.booleans,
            EARTHBORN_FLAG,
            SPACER_FLAG,
            COLONIST_FLAG,
        ),
    }
    write_imported_integer(tables, IMPORTED_ORIGIN_INTEGER, origin.index() as i32);
}

/// Gives the character a notoriety: in the player record, as one of three
/// flags of the current table, and as its ordinal in the imported table where
/// there is one. [`Notoriety::Unset`] leaves the flags as they are.
pub fn apply_notoriety(player: &mut Player, tables: &mut PlotTables, notoriety: Notoriety)
    ensures
        notoriety_applied(*old(player), *old(tables), *final(player), *final(tables), notoriety),
{
    player.notoriety = notoriety;
    match notoriety {
        Notoriety::Unset => {},
        Notoriety::Survivor => set_exclusive(
            &mut tables.current.booleans,
            SURVIVOR_FLAG,
            WARHERO_FLAG,
            RUTHLESS_FLAG,
        ),
        Notoriety::Warhero => set_exclusive(
            &mut tables.current.booleans,
            WARHERO_FLAG,
            SURVIVOR_FLAG,
            RUTHLESS_FLAG,
        ),
        Notoriety::Ruthless => set_exclusive(
            &mut tables.current.booleans,
            RUTHLESS_FLAG,
            SURVIVOR_FLAG,
            WARHERO_FLAG,
        ),
    }
    write_imported_integer(tables, IMPORTED_NOTORIETY_INTEGER, notoriety.index() as i32);
}

/// Of three flags that a store holds, [`exclusive`] leaves the chosen one set
/// and the other two cleared, and changes no other flag.
pub proof fn lemma_exclusive(flags: Seq<bool>, chosen: int, first: int, second: int)
    requires
        0 <= chosen < flags.len(),
        0 <= first < flags.len(),
        0 <= second < flags.len(),
        chosen != first,
        chosen != second,
    ensures
        exclusive(flags, chosen, first, second).len() == flags.len(),
        exclusive(flags, chosen, first, second)[chosen],
        !exclusive(flags, chosen, first, second)[first],
        !exclusive(flags, chosen, first, second)[second],
        forall|k: int|
            0 <= k < flags.len() && k != chosen && k != first && k != second ==> exclusive(
                flags,
                chosen,
                first,
                second,
            )[k] == flags[k],
{
}

/// After an origin other than [`Origin::Unset`] was applied to a store that
/// holds the three origin flags, exactly one of them is set: the one of that
/// origin. A store holds whole words, and so all three flags or none: one
/// that does not hold them is left as it was, and so is every store by
/// [`Origin::Unset`]. No other flag is changed.
pub proof fn lemma_origin_exclusive(flags: Seq<bool>, origin: Origin)
    requires
        is_packed(flags),
    ensures
        ({
            let after = origin_flags(flags, origin);
            &&& after.len() == flags.len()
            &&& origin != Origin::Unset && flags.len() > SPACER_FLAG ==> {
                &&& after[SPACER_FLAG as int] == (origin == Origin::Spacer)
                &&& after[COLONIST_FLAG as int] == (origin == Origin::Colonist)
                &&& after[EARTHBORN_FLAG as int] == (origin == Origin::Earthborn)
            }
            &&& origin == Origin::Unset || flags.len() <= SPACER_FLAG ==> after == flags
            &&& forall|k: int|
                0 <= k < flags.len() && k != SPACER_FLAG && k != COLONIST_FLAG && k
                    != EARTHBORN_FLAG ==> after[k] == flags[k]
        }),
{
    let words = pack(flags);
    assert(unpack(words).len() == 32 * words.len());
}

/// After a notoriety other than [`Notoriety::Unset`] was applied to a store
/// that holds the three notoriety flags, exactly one of them is set: the one
/// of that notoriety. A store holds whole words, and so all three flags or
/// none: one that does not hold them is left as it was, and so is every store
/// by [`Notoriety::Unset`]. No other flag is changed.
pub proof fn lemma_notoriety_exclusive(flags: Seq<bool>, notoriety: Notoriety)
    requires
        is_packed(flags),
    ensures
        ({
            let after = notoriety_flags(flags, notoriety);
            &&& after.len() == flags.len()
            &&& notoriety != Notoriety::Unset && flags.len() > SURVIVOR_FLAG ==> {
                &&& after[SURVIVOR_FLAG as int] == (notoriety == Notoriety::Survivor)
                &&& after[WARHERO_FLAG as int] == (notoriety == Notoriety::Warhero)
                &&& after[RUTHLESS_FLAG as int] == (notoriety == Notoriety::Ruthless)
            }
            &&& notoriety == Notoriety::Unset || flags.len() <= SURVIVOR_FLAG ==> after == flags
            &&& forall|k: int|
                0 <= k < flags.len() && k != SURVIVOR_FLAG && k != WARHERO_FLAG && k
                    != RUTHLESS_FLAG ==> after[k] == flags[k]
        }),
{
    let words = pack(flags);
    assert(unpack(words).len() == 32 * words.len());
}

} // verus!
