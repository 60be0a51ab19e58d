use trilogy_save_editor::bool_vec::BoolVec;
use trilogy_save_editor::mapper::{
    apply_gender, apply_notoriety, apply_origin, set_exclusive, write_flag, PlotTables,
    COLONIST_FLAG, EARTHBORN_FLAG, GENDER_FLAG, IMPORTED_GENDER_FLAG, IMPORTED_NOTORIETY_INTEGER,
    IMPORTED_ORIGIN_INTEGER, RUTHLESS_FLAG, SPACER_FLAG, SURVIVOR_FLAG, WARHERO_FLAG,
};
use trilogy_save_editor::player::{Notoriety, Origin, Player};
use trilogy_save_editor::plot::{Me1PlotTable, PlotJournal, PlotTable};

fn mapper_player() -> Player {
    Player {
        is_female: false,
        origin: Origin::Unset,
        notoriety: Notoriety::Unset,
        class_name: String::from("SFXGame.SFXPawn_PlayerSoldier"),
        powers: Vec::new(),
    }
}

fn mapper_current(words: Vec<u32>, integers: Vec<i32>) -> PlotTable {
    PlotTable {
        booleans: BoolVec::decode(words),
        integers,
        floats: Vec::new(),
        journal: PlotJournal::new(),
    }
}

fn mapper_imported(words: usize, integers: Vec<i32>) -> Me1PlotTable {
    Me1PlotTable { booleans: BoolVec::decode(vec![0; words]), integers, floats: vec![7] }
}

fn origin_triplet(table: &PlotTable) -> [Option<bool>; 3] {
    [
        table.booleans.get(SPACER_FLAG),
        table.booleans.get(COLONIST_FLAG),
        table.booleans.get(EARTHBORN_FLAG),
    ]
}

fn notoriety_triplet(table: &PlotTable) -> [Option<bool>; 3] {
    [
        table.booleans.get(SURVIVOR_FLAG),
        table.booleans.get(WARHERO_FLAG),
        table.booleans.get(RUTHLESS_FLAG),
    ]
}

#[test]
fn the_fixed_ids_are_those_of_the_games() {
    assert_eq!(GENDER_FLAG, 66);
    assert_eq!(IMPORTED_GENDER_FLAG, 4639);
    assert_eq!((SPACER_FLAG, COLONIST_FLAG, EARTHBORN_FLAG), (1533, 1535, 1534));
    assert_eq!((SURVIVOR_FLAG, WARHERO_FLAG, RUTHLESS_FLAG), (1537, 1538, 1539));
    assert_eq!(IMPORTED_ORIGIN_INTEGER, 1);
    assert_eq!(IMPORTED_NOTORIETY_INTEGER, 2);
}

#[test]
fn gender_goes_into_the_player_and_both_tables() {
    let mut player = mapper_player();
    let mut tables = PlotTables {
        current: mapper_current(vec![0; 50], vec![5, 10]),
        imported: Some(mapper_imported(150, vec![0, 0, 0])),
    };
    apply_gender(&mut player, &mut tables, true);
    assert!(player.is_female);
    assert_eq!(tables.current.booleans.get(66), Some(true));
    let mut expected = vec![0u32; 50];
    expected[2] = 1 << 2;
    assert_eq!(tables.current.booleans.encode(), expected);
    let imported = tables.imported.as_ref().unwrap();
    assert_eq!(imported.booleans.get(4639), Some(true));
    let mut expected = vec![0u32; 150];
    expected[144] = 1 << 31;
    assert_eq!(imported.booleans.encode(), expected);
    assert_eq!(imported.integers, vec![0, 0, 0]);
    assert_eq!(tables.current.integers, vec![5, 10]);

    apply_gender(&mut player, &mut tables, false);
    assert!(!player.is_female);
    assert_eq!(tables.current.booleans.encode(), vec![0u32; 50]);
    assert_eq!(tables.imported.as_ref().unwrap().booleans.encode(), vec![0u32; 150]);
}

#[test]
fn gender_without_an_imported_table_writes_the_current_one() {
    let mut player = mapper_player();
    let mut tables = PlotTables { current: mapper_current(vec![0; 3], vec![]), imported: None };
    apply_gender(&mut player, &mut tables, true);
    assert!(player.is_female);
    assert!(tables.imported.is_none());
    assert_eq!(tables.current.booleans.encode(), vec![0, 0, 4]);
    assert_eq!(player.origin, Origin::Unset);
    assert_eq!(player.notoriety, Notoriety::Unset);
}

#[test]
fn gender_passes_over_a_table_that_is_too_short() {
    let mut player = mapper_player();
    let mut tables = PlotTables {
        current: mapper_current(vec![0xffff_ffff; 2], vec![]),
        imported: Some(mapper_imported(144, vec![])),
    };
    apply_gender(&mut player, &mut tables, true);
    assert!(player.is_female);
    assert_eq!(tables.current.booleans.encode(), vec![0xffff_ffff; 2]);
    assert_eq!(tables.imported.as_ref().unwrap().booleans.encode(), vec![0; 144]);
}

#[test]
fn an_origin_sets_one_flag_of_three() {
    let mut player = mapper_player();
    let mut tables = PlotTables {
        current: mapper_current(vec![0xffff_ffff; 48], vec![5, 10]),
        imported: Some(mapper_imported(1, vec![9, 9, 9])),
    };
    for (origin, expected) in [
        (Origin::Spacer, [true, false, false]),
        (Origin::Colonist, [false, true, false]),
        (Origin::Earthborn, [false, false, true]),
        (Origin::Spacer, [true, false, false]),
    ] {
        apply_origin(&mut player, &mut tables, origin);
        assert_eq!(player.origin, origin);
        assert_eq!(origin_triplet(&tables.current), expected.map(Some));
        let set = origin_triplet(&tables.current).iter().filter(|flag| **flag == Some(true)).count();
        assert_eq!(set, 1);
        let imported = tables.imported.as_ref().unwrap();
        assert_eq!(imported.integers, vec![9, origin.index() as i32, 9]);
        assert_eq!(imported.booleans.encode(), vec![0]);
        assert_eq!(imported.floats, vec![7]);
    }
    // no other flag of the current table was touched
    let words = tables.current.booleans.encode();
    assert_eq!(&words[..47], &vec![0xffff_ffff; 47][..]);
    assert_eq!(words[47], 0xffff_ffff & !(1 << 30) & !(1 << 31));
    assert_eq!(tables.current.integers, vec![5, 10]);
}

#[test]
fn the_ordinal_of_an_origin_is_its_place_in_the_list() {
    assert_eq!(Origin::Unset.index(), 0);
    assert_eq!(Origin::Spacer.index(), 1);
    assert_eq!(Origin::Colonist.index(), 2);
    assert_eq!(Origin::Earthborn.index(), 3);
    assert_eq!(Origin::from_index(2), Some(Origin::Colonist));
    assert_eq!(Origin::from_index(0), Some(Origin::Unset));
    assert_eq!(Origin::from_index(4), None);
    assert_eq!(Notoriety::Unset.index(), 0);
    assert_eq!(Notoriety::Survivor.index(), 1);
    assert_eq!(Notoriety::Warhero.index(), 2);
    assert_eq!(Notoriety::Ruthless.index(), 3);
    assert_eq!(Notoriety::from_index(3), Some(Notoriety::Ruthless));
    assert_eq!(Notoriety::from_index(usize::MAX), None);
}

#[test]
fn no_origin_leaves_the_flags_and_writes_the_ordinal() {
    let mut player = mapper_player();
    player.origin = Origin::Colonist;
    let mut words = vec![0u32; 48];
    words[47] = 0b111 << 29;
    let mut tables = PlotTables {
        current: mapper_current(words.clone(), vec![]),
        imported: Some(mapper_imported(0, vec![4, 4])),
    };
    apply_origin(&mut player, &mut tables, Origin::Unset);
    assert_eq!(player.origin, Origin::Unset);
    assert_eq!(tables.current.booleans.encode(), words);
    assert_eq!(origin_triplet(&tables.current), [Some(true), Some(true), Some(true)]);
    assert_eq!(tables.imported.as_ref().unwrap().integers, vec![4, 0]);
}

#[test]
fn an_origin_passes_over_a_current_table_that_is_too_short() {
    let mut player = mapper_player();
    let mut tables = PlotTables { current: mapper_current(vec![0b100_0010; 47], vec![5, 10]), imported: None };
    apply_origin(&mut player, &mut tables, Origin::Colonist);
    assert_eq!(player.origin, Origin::Colonist);
    assert_eq!(tables.current.booleans.encode(), vec![0b100_0010; 47]);
    assert_eq!(tables.current.integers, vec![5, 10]);
    assert!(tables.imported.is_none());
}

#[test]
fn an_imported_table_without_the_integer_is_passed_over() {
    let mut player = mapper_player();
    let mut tables = PlotTables {
        current: mapper_current(vec![0; 49], vec![]),
        imported: Some(mapper_imported(0, vec![8])),
    };
    apply_origin(&mut player, &mut tables, Origin::Earthborn);
    apply_notoriety(&mut player, &mut tables, Notoriety::Ruthless);
    assert_eq!(tables.imported.as_ref().unwrap().integers, vec![8]);
    assert_eq!(origin_triplet(&tables.current), [Some(false), Some(false), Some(true)]);
    assert_eq!(notoriety_triplet(&tables.current), [Some(false), Some(false), Some(true)]);
}

#[test]
fn a_notoriety_sets_one_flag_of_three() {
    let mut player = mapper_player();
    let mut tables = PlotTables {
        current: mapper_current(vec![0; 49], vec![]),
        imported: Some(mapper_imported(0, vec![1, 1, 1, 1])),
    };
    for (notoriety, expected) in [
        (Notoriety::Ruthless, [false, false, true]),
        (Notoriety::Survivor, [true, false, false]),
        (Notoriety::Warhero, [false, true, false]),
    ] {
        apply_notoriety(&mut player, &mut tables, notoriety);
        assert_eq!(player.notoriety, notoriety);
        assert_eq!(notoriety_triplet(&tables.current), expected.map(Some));
        assert_eq!(tables.imported.as_ref().unwrap().integers, vec![1, 1, notoriety.index() as i32, 1]);
    }
    let mut expected = vec![0u32; 49];
    expected[48] = 1 << 2;
    assert_eq!(tables.current.booleans.encode(), expected);
    apply_notoriety(&mut player, &mut tables, Notoriety::Unset);
    assert_eq!(player.notoriety, Notoriety::Unset);
    assert_eq!(tables.current.booleans.encode(), expected);
    assert_eq!(tables.imported.as_ref().unwrap().integers, vec![1, 1, 0, 1]);
}

#[test]
fn the_scenario_of_a_one_word_table() {
    let table = mapper_current(vec![0b0000_0000_0000_0000_0000_0000_0100_0010], vec![5, 10]);
    assert_eq!(table.booleans.get(1), Some(true));
    assert_eq!(table.booleans.get(6), Some(true));
    assert_eq!(table.booleans.get(0), Some(false));
    assert_eq!(table.booleans.get(32), None);
    assert_eq!(table.lookup_boolean(6), Some(true));
    assert_eq!(table.lookup_boolean(32), None);
    assert_eq!(table.lookup_integer(1), Some(10));
    assert_eq!(table.lookup_integer(2), None);
}

#[test]
fn the_scenario_of_a_colonist() {
    let mut words = vec![0u32; 48];
    words[0] = 0b0000_0000_0000_0000_0000_0000_0100_0010;
    words[47] = 1 << 29;
    let mut player = mapper_player();
    let mut tables = PlotTables { current: mapper_current(words, vec![5, 10]), imported: None };
    apply_origin(&mut player, &mut tables, Origin::Colonist);
    assert_eq!(tables.current.booleans.get(1535), Some(true));
    assert_eq!(tables.current.booleans.get(1533), Some(false));
    assert_eq!(tables.current.booleans.get(1534), Some(false));
    assert_eq!(tables.current.integers, vec![5, 10]);
    assert_eq!(tables.current.booleans.get(1), Some(true));
    assert_eq!(tables.current.booleans.get(6), Some(true));

    tables.imported = Some(mapper_imported(0, vec![5, 10]));
    apply_origin(&mut player, &mut tables, Origin::Colonist);
    assert_eq!(tables.imported.as_ref().unwrap().integers, vec![5, 2]);
    assert_eq!(tables.current.integers, vec![5, 10]);
}

#[test]
fn a_flag_is_written_only_where_the_store_holds_it() {
    let mut flags = BoolVec::decode(vec![0]);
    write_flag(&mut flags, 31, true);
    write_flag(&mut flags, 32, true);
    assert_eq!(flags.encode(), vec![0x8000_0000]);
}

#[test]
fn the_chosen_flag_wins_over_the_others() {
    let mut flags = BoolVec::decode(vec![0b0110]);
    set_exclusive(&mut flags, 0, 1, 2);
    assert_eq!(flags.encode(), vec![0b0001]);
    set_exclusive(&mut flags, 5, 0, 99);
    assert_eq!(flags.encode(), vec![0b10_0000]);
    set_exclusive(&mut flags, 3, 3, 5);
    assert_eq!(flags.encode(), vec![0b1000]);
    set_exclusive(&mut flags, 40, 3, 41);
    assert_eq!(flags.encode(), vec![0]);
}
