use trilogy_save_editor::bool_vec::{BoolVec, OutOfRange};
use trilogy_save_editor::plot::{
    lookup, position, store, Me1PlotTable, PlotCodex, PlotJournal, PlotQuest, PlotTable,
};

fn plot_journal() -> PlotJournal {
    let mut first = PlotCodex::new();
    assert!(first.insert_page(3, false));
    assert!(first.insert_page(1, true));
    PlotJournal::from_parts(
        42,
        vec![PlotQuest::new(1, false, vec![1, 2]), PlotQuest::new(-5, true, vec![])],
        vec![70, 80],
        vec![first, PlotCodex::new(), PlotCodex::new()],
        vec![5, 6, 5],
    )
    .unwrap()
}

#[test]
fn a_position_is_the_id() {
    let values = vec![5, 10];
    assert_eq!(lookup(&values, 0), Some(5));
    assert_eq!(lookup(&values, 1), Some(10));
    assert_eq!(lookup(&values, 2), None);
    assert_eq!(lookup(&Vec::<u32>::new(), 0), None);
}

#[test]
fn a_value_is_written_only_where_there_is_one() {
    let mut values = vec![5, 10];
    assert_eq!(store(&mut values, 1, -1), Ok(()));
    assert_eq!(values, vec![5, -1]);
    assert_eq!(store(&mut values, 2, 7), Err(OutOfRange { index: 2, capacity: 2 }));
    assert_eq!(values, vec![5, -1]);
}

#[test]
fn the_tables_look_up_and_write_by_id() {
    let mut table = PlotTable {
        booleans: BoolVec::decode(vec![2]),
        integers: vec![5, 10],
        floats: vec![0x4000_0000],
        journal: PlotJournal::new(),
    };
    assert_eq!(table.lookup_boolean(1), Some(true));
    assert_eq!(table.lookup_boolean(31), Some(false));
    assert_eq!(table.lookup_boolean(32), None);
    assert_eq!(table.lookup_integer(0), Some(5));
    assert_eq!(table.lookup_integer(2), None);
    assert_eq!(table.lookup_float(0), Some(0x4000_0000));
    assert_eq!(table.lookup_float(1), None);
    assert_eq!(table.set_boolean(0, true), Ok(()));
    assert_eq!(table.set_boolean(32, true), Err(OutOfRange { index: 32, capacity: 32 }));
    assert_eq!(table.set_integer(1, 11), Ok(()));
    assert_eq!(table.set_integer(2, 11), Err(OutOfRange { index: 2, capacity: 2 }));
    assert_eq!(table.set_float(0, 1), Ok(()));
    assert_eq!(table.set_float(1, 1), Err(OutOfRange { index: 1, capacity: 1 }));
    assert_eq!(table.booleans.encode(), vec![3]);
    assert_eq!(table.integers, vec![5, 11]);
    assert_eq!(table.floats, vec![1]);

    let mut first = Me1PlotTable { booleans: BoolVec::decode(vec![2]), integers: vec![5], floats: vec![] };
    assert_eq!(first.lookup_boolean(1), Some(true));
    assert_eq!(first.lookup_integer(0), Some(5));
    assert_eq!(first.lookup_float(0), None);
    assert_eq!(first.set_boolean(1, false), Ok(()));
    assert_eq!(first.set_integer(0, 6), Ok(()));
    assert_eq!(first.set_float(0, 6), Err(OutOfRange { index: 0, capacity: 0 }));
    assert_eq!(first.booleans.encode(), vec![0]);
    assert_eq!(first.integers, vec![6]);
}

#[test]
fn a_journal_needs_an_id_for_each_record() {
    assert!(PlotJournal::from_parts(0, vec![PlotQuest::default()], vec![], vec![], vec![]).is_none());
    assert!(PlotJournal::from_parts(0, vec![], vec![1], vec![], vec![]).is_none());
    assert!(PlotJournal::from_parts(0, vec![], vec![], vec![PlotCodex::default()], vec![]).is_none());
    assert!(PlotJournal::from_parts(0, vec![], vec![], vec![], vec![1, 2]).is_none());
    let journal = plot_journal();
    assert_eq!(journal.quest_count(), 2);
    assert_eq!(journal.codex_count(), 3);
    assert_eq!(journal.quest_ids().len(), journal.quest_progress().len());
    assert_eq!(journal.codex_ids().len(), journal.codex_entries().len());
    assert_eq!(journal.quest_progress_counter(), 42);
}

#[test]
fn the_empty_journal_has_no_records() {
    let journal = PlotJournal::new();
    assert_eq!(journal.quest_progress_counter(), 0);
    assert_eq!(journal.quest_count(), 0);
    assert_eq!(journal.codex_count(), 0);
    assert!(journal.quest(0).is_none());
}

#[test]
fn a_record_is_found_by_the_id_beside_it() {
    let journal = plot_journal();
    assert_eq!(journal.quest(80).unwrap().quest_counter(), -5);
    assert_eq!(journal.quest(70).unwrap().history(), &vec![1, 2]);
    assert!(journal.quest(90).is_none());
    assert_eq!(journal.codex(5).unwrap().len(), 2);
    assert_eq!(journal.codex(6).unwrap().len(), 0);
    assert!(journal.codex(7).is_none());
    assert_eq!(position(&vec![5, 6, 5], 5), Some(0));
    assert_eq!(position(&vec![5, 6, 5], 6), Some(1));
    assert_eq!(position(&vec![5, 6, 5], 7), None);
}

#[test]
fn the_scalars_of_a_record_can_be_written() {
    let mut journal = plot_journal();
    journal.set_quest_progress_counter(43);
    assert_eq!(journal.set_quest_counter(0, 9), Ok(()));
    assert_eq!(journal.set_quest_updated(0, true), Ok(()));
    assert_eq!(journal.set_quest_counter(2, 9), Err(OutOfRange { index: 2, capacity: 2 }));
    assert_eq!(journal.set_quest_updated(2, true), Err(OutOfRange { index: 2, capacity: 2 }));
    assert_eq!(journal.set_codex_page(0, 3, true), Ok(true));
    assert_eq!(journal.set_codex_page(0, 4, true), Ok(false));
    assert_eq!(journal.set_codex_page(3, 3, true), Err(OutOfRange { index: 3, capacity: 3 }));
    assert_eq!(journal.quest_progress_counter(), 43);
    let quest = &journal.quest_progress()[0];
    assert_eq!((quest.quest_counter(), quest.quest_updated()), (9, true));
    assert_eq!(quest.history(), &vec![1, 2]);
    let other = &journal.quest_progress()[1];
    assert_eq!((other.quest_counter(), other.quest_updated()), (-5, true));
    let codex = &journal.codex_entries()[0];
    assert_eq!(codex.page_at(0), Some((3, true)));
    assert_eq!(codex.page_at(1), Some((1, true)));
    assert_eq!(codex.len(), 2);
    assert_eq!(journal.quest_count(), 2);
    assert_eq!(journal.codex_count(), 3);
}

#[test]
fn the_pages_of_a_codex_entry_keep_their_order() {
    let mut codex = PlotCodex::new();
    assert_eq!(codex.len(), 0);
    assert!(codex.insert_page(9, false));
    assert!(codex.insert_page(-2, true));
    assert!(codex.insert_page(4, false));
    assert!(!codex.insert_page(9, true));
    assert_eq!(codex.len(), 3);
    assert_eq!(codex.page_at(0), Some((9, false)));
    assert_eq!(codex.page_at(1), Some((-2, true)));
    assert_eq!(codex.page_at(2), Some((4, false)));
    assert_eq!(codex.page_at(3), None);
    assert_eq!(codex.page(-2), Some(true));
    assert_eq!(codex.page(4), Some(false));
    assert_eq!(codex.page(5), None);
    assert!(codex.set_page(9, true));
    assert!(!codex.set_page(5, true));
    assert_eq!(codex.page_at(0), Some((9, true)));
    assert_eq!(codex.len(), 3);
    let copy = codex.clone();
    assert!(codex.set_page(4, true));
    assert_eq!(copy.page(4), Some(false));
    assert_eq!(copy.len(), 3);
    assert_eq!(PlotCodex::default().len(), 0);
}

#[test]
fn a_quest_holds_what_it_was_made_of() {
    let mut quest = PlotQuest::new(3, true, vec![1, -1]);
    assert_eq!(quest.quest_counter(), 3);
    assert!(quest.quest_updated());
    assert_eq!(quest.history(), &vec![1, -1]);
    let copy = quest.clone();
    quest.set_quest_counter(4);
    quest.set_quest_updated(false);
    assert_eq!((quest.quest_counter(), quest.quest_updated()), (4, false));
    assert_eq!((copy.quest_counter(), copy.quest_updated()), (3, true));
    assert_eq!(copy.history(), &vec![1, -1]);
    let empty = PlotQuest::default();
    assert_eq!((empty.quest_counter(), empty.quest_updated()), (0, false));
    assert!(empty.history().is_empty());
}

#[test]
fn a_table_of_ordinary_size_can_be_written() {
    let table = PlotTable {
        booleans: BoolVec::decode(vec![2]),
        integers: vec![5, 10],
        floats: vec![0x4000_0000],
        journal: plot_journal(),
    };
    assert!(table.fits());
    let first = Me1PlotTable { booleans: BoolVec::decode(vec![]), integers: vec![], floats: vec![] };
    assert!(first.fits());
    assert_eq!(first.encode(), vec![0; 12]);
}

#[test]
fn a_copy_of_a_journal_is_its_own_journal() {
    let journal = plot_journal();
    let mut copy = journal.clone();
    assert_eq!(copy.set_quest_counter(1, 77), Ok(()));
    assert_eq!(copy.set_codex_page(0, 1, false), Ok(true));
    assert_eq!(journal.quest_progress()[1].quest_counter(), -5);
    assert_eq!(copy.quest_progress()[1].quest_counter(), 77);
    assert_eq!(journal.codex_entries()[0].page(1), Some(true));
    assert_eq!(copy.codex_entries()[0].page(1), Some(false));
    assert_eq!(copy.quest_ids(), journal.quest_ids());
    assert_eq!(copy.codex_ids(), journal.codex_ids());
    assert_eq!(copy.quest_progress_counter(), 42);
}
