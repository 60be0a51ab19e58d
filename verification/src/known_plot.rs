//! The catalogue of known plot ids: which flag or variable of a table means
//! what in the story.
//!
//! The catalogue is made once and only read afterwards. A category names
//! some flags and integers of one part of the game; the raw catalogue names
//! every known flag, integer and float. An id may stand in several
//! categories. A table need not hold every id that the catalogue knows: what
//! it does not hold is passed over.

use crate::bool_vec::BoolVec;
use crate::ordered_map::{name_entries, names_get_index, names_len};
use crate::plot::{lookup, PlotTable};
use indexmap::IndexMap;
use std::hash::RandomState;
use vstd::prelude::*;

verus! {

/// The names of the flags and integers of one part of the game, by id, in
/// the order in which they are shown.
pub struct PlotCategory {
    pub booleans: IndexMap<usize, String, RandomState>,
    pub integers: IndexMap<usize, String, RandomState>,
}

/// The names of every known flag, integer and float, by id.
pub struct RawPlotDb {
    pub booleans: IndexMap<usize, String, RandomState>,
    pub integers: IndexMap<usize, String, RandomState>,
    pub floats: IndexMap<usize, String, RandomState>,
}

/// A category and the name it is shown under.
pub struct NamedCategory {
    pub name: String,
    pub category: PlotCategory,
}

/// The catalogue of one game: its categories in the order in which they are
/// shown, and the raw catalogue.
pub struct KnownPlotDb {
    categories: Vec<NamedCategory>,
    raw: RawPlotDb,
}

impl KnownPlotDb {
    /// The categories, in the order in which they are shown.
    pub closed spec fn spec_categories(&self) -> Seq<NamedCategory> {
        self.categories@
    }

    /// The raw catalogue.
    pub closed spec fn spec_raw(&self) -> RawPlotDb {
        self.raw
    }

    /// A catalogue of the given categories, in their order, and the given raw
    /// catalogue.
    pub fn new(categories: Vec<NamedCategory>, raw: RawPlotDb) -> (db: KnownPlotDb)
        ensures
            db.spec_categories() == categories@,
            db.spec_raw() == raw,
    {
        KnownPlotDb { categories, raw }
    }

    /// The categories, in the order in which they are shown.
    pub fn categories(&self) -> (categories: &Vec<NamedCategory>)
        ensures
            categories@ == self.spec_categories(),
    {
        &self.categories
    }

    /// The raw catalogue.
    pub fn raw(&self) -> (raw: &RawPlotDb)
        ensures
            *raw == self.spec_raw(),
    {
        &self.raw
    }
}

/// One line of a plot view: a known id that the table holds, its name, and
/// the value that the table has for it.
#[derive(Debug)]
pub struct PlotRow<T> {
    pub id: usize,
    pub name: String,
    pub value: T,
}

/// What a [`PlotRow`] holds.
pub struct PlotRowView<T> {
    pub id: usize,
    pub name: Seq<char>,
    pub value: T,
}

impl<T> View for PlotRow<T> {
    type V = PlotRowView<T>;

    open spec fn view(&self) -> PlotRowView<T> {
        PlotRowView { id: self.id, name: self.name@, value: self.value }
    }
}

/// The views of a sequence of rows.
pub open spec fn row_views<T>(rows: Seq<PlotRow<T>>) -> Seq<PlotRowView<T>> {
    Seq::new(rows.len(), |i: int| rows[i]@)
}

/// The rows of the named ids that `values` holds, in the order of the names:
/// a name whose id is not below the length of `values` has no row.
pub open spec fn known_rows<T>(names: Seq<(usize, Seq<char>)>, values: Seq<T>) -> Seq<
    PlotRowView<T>,
>
    decreases names.len(),
{
    if names.len() == 0 {
        Seq::empty()
    } else {
        let before = known_rows(names.drop_last(), values);
        let (id, name) = names.last();
        if id < values.len() {
            before.push(PlotRowView { id, name, value: values[id as int] })
        } else {
            before
        }
    }
}

/// The rows of the named flags that the store holds, in the order of the
/// names.
pub fn boolean_rows(flags: &BoolVec, names: &IndexMap<usize, String, RandomState>) -> (rows: Vec<
    PlotRow<bool>,
>)
    ensures
        row_views(rows@) == known_rows(name_entries(*names), flags@),
{
    let count = names_len(names);
    let mut rows: Vec<PlotRow<bool>> = Vec::new();
    let mut i: usize = 0;
    while i < count
        invariant
            i <= count,
            count == name_entries(*names).len(),
            row_views(rows@) == known_rows(name_entries(*names).take(i as int), flags@),
        decreases count - i,
    {
        let ghost before = row_views(rows@);
        let (id, name) = names_get_index(names, i).unwrap();
        proof {
            let next = name_entries(*names).take(i + 1);
            assert(next.drop_last() =~= name_entries(*names).take(i as int));
        }
        match flags.get(id) {
            Some(value) => {
                rows.push(PlotRow { id, name: name.clone(), value });
                assert(row_views(rows@) =~= before.push(
                    PlotRowView { id, name: name@, value },
                ));
            },
            None => {},
        }
        i += 1;
    }
    assert(name_entries(*names).take(i as int) =~= name_entries(*names));
    rows
}

/// The rows of the named variables that the array holds, in the order of the
/// names.
pub fn value_rows<T: Copy>(values: &Vec<T>, names: &IndexMap<usize, String, RandomState>) -> (rows:
    Vec<PlotRow<T>>)
    ensures
        row_views(rows@) == known_rows(name_entries(*names), values@),
{
    let count = names_len(names);
    let mut rows: Vec<PlotRow<T>> = Vec::new();
    let mut i: usize = 0;
    while i < count
        invariant
            i <= count,
            count == name_entries(*names).len(),
            row_views(rows@) == known_rows(name_entries(*names).take(i as int), values@),
        decreases count - i,
    {
        let ghost before = row_views(rows@);
        let (id, name) = names_get_index(names, i).unwrap();
        proof {
            let next = name_entries(*names).take(i + 1);
            assert(next.drop_last() =~= name_entries(*names).take(i as int));
        }
        match lookup(values, id) {
            Some(value) => {
                rows.push(PlotRow { id, name: name.clone(), value });
                assert(row_views(rows@) =~= before.push(
                    PlotRowView { id, name: name@, value },
                ));
            },
            None => {},
        }
        i += 1;
    }
    assert(name_entries(*names).take(i as int) =~= name_entries(*names));
    rows
}

/// The lines of a category for one table.
pub struct CategoryRows {
    pub booleans: Vec<PlotRow<bool>>,
    pub integers: Vec<PlotRow<i32>>,
}

impl PlotCategory {
    /// Whether the category names nothing.
    pub fn is_empty(&self) -> (empty: bool)
        ensures
            empty == (name_entries(self.booleans).len() == 0 && name_entries(self.integers).len()
                == 0),
    {
        names_len(&self.booleans) == 0 && names_len(&self.integers) == 0
    }

    /// The lines of the category for a table: the named flags that the table
    /// holds, then the named integers that it holds, each in the order of
    /// the category.
    pub fn rows(&self, table: &PlotTable) -> (rows: CategoryRows)
        ensures
            row_views(rows.booleans@) == known_rows(name_entries(self.booleans), table.booleans@),
            row_views(rows.integers@) == known_rows(name_entries(self.integers), table.integers@),
    {
        CategoryRows {
            booleans: boolean_rows(&table.booleans, &self.booleans),
            integers: value_rows(&table.integers, &self.integers),
        }
    }
}

} // verus!
