use indexmap::IndexMap;
use trilogy_save_editor::bool_vec::BoolVec;
use trilogy_save_editor::known_plot::{
    boolean_rows, value_rows, KnownPlotDb, NamedCategory, PlotCategory, PlotRow, RawPlotDb,
};
use trilogy_save_editor::plot::{PlotJournal, PlotTable};

fn names(entries: &[(usize, &str)]) -> IndexMap<usize, String> {
    let mut map = IndexMap::new();
    for (id, name) in entries {
        map.insert(*id, String::from(*name));
    }
    map
}

fn row_list<T: Copy>(rows: &[PlotRow<T>]) -> Vec<(usize, &str, T)> {
    rows.iter().map(|row| (row.id, row.name.as_str(), row.value)).collect()
}

fn known_table() -> PlotTable {
    PlotTable {
        booleans: BoolVec::decode(vec![0b100_0010]),
        integers: vec![5, 10],
        floats: vec![0x3f80_0000],
        journal: PlotJournal::new(),
    }
}

#[test]
fn rows_follow_the_order_of_the_names() {
    let flags = BoolVec::decode(vec![0b100_0010]);
    let rows = boolean_rows(&flags, &names(&[(6, "Saved the council"), (0, "Met Liara"), (1, "Lost Kaidan")]));
    assert_eq!(
        row_list(&rows),
        vec![(6, "Saved the council", true), (0, "Met Liara", false), (1, "Lost Kaidan", true)]
    );
}

#[test]
fn an_id_that_the_table_does_not_hold_has_no_row() {
    let flags = BoolVec::decode(vec![0b100_0010]);
    let rows = boolean_rows(&flags, &names(&[(32, "a"), (1, "b"), (4639, "c"), (31, "d")]));
    assert_eq!(row_list(&rows), vec![(1, "b", true), (31, "d", false)]);
    let rows = value_rows(&vec![5, 10], &names(&[(2, "a"), (1, "Paragon"), (0, "Renegade"), (9, "b")]));
    assert_eq!(row_list(&rows), vec![(1, "Paragon", 10), (0, "Renegade", 5)]);
    assert!(value_rows(&Vec::<u32>::new(), &names(&[(0, "a")])).is_empty());
    assert!(boolean_rows(&flags, &names(&[])).is_empty());
}

#[test]
fn a_category_has_its_flags_then_its_integers() {
    let category = PlotCategory { booleans: names(&[(1, "one"), (40, "forty")]), integers: names(&[(1, "second"), (0, "first")]) };
    assert!(!category.is_empty());
    let rows = category.rows(&known_table());
    assert_eq!(row_list(&rows.booleans), vec![(1, "one", true)]);
    assert_eq!(row_list(&rows.integers), vec![(1, "second", 10), (0, "first", 5)]);
}

#[test]
fn a_category_without_names_is_empty() {
    let category = PlotCategory { booleans: names(&[]), integers: names(&[]) };
    assert!(category.is_empty());
    let rows = category.rows(&known_table());
    assert!(rows.booleans.is_empty());
    assert!(rows.integers.is_empty());
    assert!(!PlotCategory { booleans: names(&[]), integers: names(&[(0, "a")]) }.is_empty());
    assert!(!PlotCategory { booleans: names(&[(0, "a")]), integers: names(&[]) }.is_empty());
}

#[test]
fn one_id_may_stand_in_several_categories() {
    let table = known_table();
    let romance = PlotCategory { booleans: names(&[(6, "Liara")]), integers: names(&[]) };
    let crew = PlotCategory { booleans: names(&[(6, "Liara joined")]), integers: names(&[]) };
    assert_eq!(row_list(&romance.rows(&table).booleans), vec![(6, "Liara", true)]);
    assert_eq!(row_list(&crew.rows(&table).booleans), vec![(6, "Liara joined", true)]);
}

#[test]
fn the_catalogue_keeps_its_categories_in_order() {
    let db = KnownPlotDb::new(
        vec![
            NamedCategory { name: String::from("Romance"), category: PlotCategory { booleans: names(&[(1, "a")]), integers: names(&[]) } },
            NamedCategory { name: String::from("Crew"), category: PlotCategory { booleans: names(&[]), integers: names(&[]) } },
            NamedCategory { name: String::from("Rewards"), category: PlotCategory { booleans: names(&[]), integers: names(&[(3, "b")]) } },
        ],
        RawPlotDb { booleans: names(&[(1, "a")]), integers: names(&[(3, "b")]), floats: names(&[(0, "c")]) },
    );
    let shown: Vec<&str> = db.categories().iter().map(|entry| entry.name.as_str()).collect();
    assert_eq!(shown, vec!["Romance", "Crew", "Rewards"]);
    assert_eq!(db.categories()[0].category.booleans.get(&1).map(String::as_str), Some("a"));
    assert_eq!(db.raw().floats.get(&0).map(String::as_str), Some("c"));
    let table = known_table();
    assert_eq!(row_list(&value_rows(&table.floats, &db.raw().floats)), vec![(0, "c", 0x3f80_0000)]);
    assert_eq!(f32::from_bits(table.floats[0]), 1.0);
}
