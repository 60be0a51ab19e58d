//! The plot tables of a save game and the records they hold.
//!
//! A table holds the boolean flags of the story in a [`BoolVec`], its integer
//! and floating-point variables by position (the position is the id), the
//! progress of the quests and the pages of the codex. Quests and codex
//! entries are kept as the game keeps them, in two arrays side by side: the
//! id at position `i` of one names the record at position `i` of the other.
//!
//! Floating-point variables are held as their IEEE-754 bit patterns, so that
//! a table writes back the bits it read.

use crate::bool_vec::{written, BoolVec, OutOfRange};
use crate::ordered_map::{
    distinct_keys, has_key, page_entries, pages_clone, pages_get, pages_get_index, pages_insert,
    pages_len, pages_new,
};
use indexmap::IndexMap;
use std::hash::RandomState;
use vstd::prelude::*;

verus! {

/// The element of `values` at `id`, where there is one.
pub open spec fn value_at<T>(values: Seq<T>, id: int) -> Option<T> {
    if 0 <= id < values.len() {
        Some(values[id])
    } else {
        None
    }
}

/// The value at `id`, or nothing where the array holds no such position.
pub fn lookup<T: Copy>(values: &Vec<T>, id: usize) -> (found: Option<T>)
    ensures
        found == value_at(values@, id as int),
{
    if id < values.len() {
        Some(values[id])
    } else {
        None
    }
}

/// Writes the value at `id`. Where the array holds no such position, it stays
/// as it was and the write fails.
pub fn store<T: Copy>(values: &mut Vec<T>, id: usize, value: T) -> (done: Result<(), OutOfRange>)
    ensures
        written(old(values)@, final(values)@, done, id, value),
{
    let capacity = values.len();
    if id >= capacity {
        return Err(OutOfRange { index: id, capacity });
    }
    values.set(id, value);
    Ok(())
}

/// What a [`PlotQuest`] holds.
pub struct PlotQuestView {
    pub quest_counter: i32,
    pub quest_updated: bool,
    pub history: Seq<i32>,
}

impl PlotQuestView {
    /// The history is short enough for its length to be written as a 32-bit
    /// count.
    pub open spec fn valid(self) -> bool {
        self.history.len() <= u32::MAX
    }
}

/// The progress of one quest: its counter, whether it was updated, and the
/// log of the states it went through.
#[derive(Debug)]
pub struct PlotQuest {
    quest_counter: i32,
    quest_updated: bool,
    history: Vec<i32>,
}

impl View for PlotQuest {
    type V = PlotQuestView;

    closed spec fn view(&self) -> PlotQuestView {
        PlotQuestView {
            quest_counter: self.quest_counter,
            quest_updated: self.quest_updated,
            history: self.history@,
        }
    }
}

impl PlotQuest {
    /// A quest record of the given parts.
    pub fn new(quest_counter: i32, quest_updated: bool, history: Vec<i32>) -> (quest: PlotQuest)
        ensures
            quest@ == (PlotQuestView { quest_counter, quest_updated, history: history@ }),
    {
        PlotQuest { quest_counter, quest_updated, history }
    }

    /// The counter of the quest.
    pub fn quest_counter(&self) -> (n: i32)
        ensures
            n == self@.quest_counter,
    {
        self.quest_counter
    }

    /// Whether the quest was updated.
    pub fn quest_updated(&self) -> (updated: bool)
        ensures
            updated == self@.quest_updated,
    {
        self.quest_updated
    }

    /// The log of the states that the quest went through.
    pub fn history(&self) -> (history: &Vec<i32>)
        ensures
            history@ == self@.history,
    {
        &self.history
    }

    /// Writes the counter of the quest.
    pub fn set_quest_counter(&mut self, quest_counter: i32)
        ensures
            final(self)@ == (PlotQuestView { quest_counter, ..old(self)@ }),
    {
        self.quest_counter = quest_counter;
    }

    /// Writes the updated mark of the quest.
    pub fn set_quest_updated(&mut self, quest_updated: bool)
        ensures
            final(self)@ == (PlotQuestView { quest_updated, ..old(self)@ }),
    {
        self.quest_updated = quest_updated;
    }
}

impl Clone for PlotQuest {
    fn clone(&self) -> (copy: PlotQuest)
        ensures
            copy@ == self@,
    {
        PlotQuest {
            quest_counter: self.quest_counter,
            quest_updated: self.quest_updated,
            history: self.history.clone(),
        }
    }
}

impl Default for PlotQuest {
    fn default() -> (quest: PlotQuest)
        ensures
            quest@ == (PlotQuestView {
                quest_counter: 0,
                quest_updated: false,
                history: Seq::<i32>::empty(),
            }),
    {
        PlotQuest { quest_counter: 0, quest_updated: false, history: Vec::new() }
    }
}

/// What a [`PlotCodex`] holds.
pub struct PlotCodexView {
    /// Page id and read state, in the order of the save game.
    pub pages: Seq<(i32, bool)>,
}

impl PlotCodexView {
    /// No page id occurs twice, and the number of pages can be written as a
    /// 32-bit count.
    pub open spec fn valid(self) -> bool {
        &&& distinct_keys(self.pages)
        &&& self.pages.len() <= u32::MAX
    }

    /// The read state of the page with the given id, where there is one.
    pub open spec fn page(self, id: i32) -> Option<bool> {
        if has_key(self.pages, id) {
            let at = choose|i: int| 0 <= i < self.pages.len() && (#[trigger] self.pages[i]).0 == id;
            Some(self.pages[at].1)
        } else {
            None
        }
    }
}

/// The pages with the read mark of every page of the given id replaced.
pub open spec fn marked(pages: Seq<(i32, bool)>, page: i32, read: bool) -> Seq<(i32, bool)> {
    Seq::new(
        pages.len(),
        |i: int|
            if pages[i].0 == page {
                (page, read)
            } else {
                pages[i]
            },
    )
}

/// Marking a page keeps the page ids as they are, and so keeps them distinct;
/// among distinct ids it changes the one page that has the id.
pub proof fn lemma_marked(pages: Seq<(i32, bool)>, page: i32, read: bool)
    requires
        distinct_keys(pages),
    ensures
        distinct_keys(marked(pages, page, read)),
        marked(pages, page, read).len() == pages.len(),
        forall|i: int|
            0 <= i < pages.len() && (#[trigger] pages[i]).0 == page ==> marked(pages, page, read)
                == pages.update(i, (page, read)),
{
    let after = marked(pages, page, read);
    assert forall|i: int| 0 <= i < pages.len() && (#[trigger] pages[i]).0 == page implies after
        == pages.update(i, (page, read)) by {
        assert(after =~= pages.update(i, (page, read)));
    }
}

/// A page of a new id keeps the ids distinct.
pub proof fn lemma_distinct_push(pages: Seq<(i32, bool)>, page: (i32, bool))
    requires
        distinct_keys(pages),
        !has_key(pages, page.0),
    ensures
        distinct_keys(pages.push(page)),
{
}

/// One codex entry: which of its pages were read.
#[derive(Debug)]
pub struct PlotCodex {
    pages: IndexMap<i32, bool, RandomState>,
}

impl View for PlotCodex {
    type V = PlotCodexView;

    closed spec fn view(&self) -> PlotCodexView {
        PlotCodexView { pages: page_entries(self.pages) }
    }
}

impl PlotCodex {
    /// No page id occurs twice.
    #[verifier::type_invariant]
    spec fn well_formed(&self) -> bool {
        distinct_keys(page_entries(self.pages))
    }

    /// A codex entry without pages.
    pub fn new() -> (codex: PlotCodex)
        ensures
            codex@.pages == Seq::<(i32, bool)>::empty(),
    {
        PlotCodex { pages: pages_new() }
    }

    /// The page ids of a codex entry are distinct.
    pub fn distinct_pages(&self)
        ensures
            distinct_keys(self@.pages),
    {
        proof {
            use_type_invariant(self);
        }
    }

    /// The number of pages.
    pub fn len(&self) -> (n: usize)
        ensures
            n == self@.pages.len(),
    {
        pages_len(&self.pages)
    }

    /// The page at a position, in the order of the save game.
    pub fn page_at(&self, index: usize) -> (page: Option<(i32, bool)>)
        ensures
            page == value_at(self@.pages, index as int),
    {
        pages_get_index(&self.pages, index)
    }

    /// The read state of the page with the given id, or nothing where the
    /// entry has no such page.
    pub fn page(&self, id: i32) -> (read: Option<bool>)
        ensures
            read == self@.page(id),
    {
        proof {
            use_type_invariant(self);
        }
        pages_get(&self.pages, id)
    }

    /// Adds a page after the others. Where the entry has a page of that id
    /// already, it stays as it was and `false` is returned.
    pub fn insert_page(&mut self, id: i32, read: bool) -> (added: bool)
        ensures
            added == !has_key(old(self)@.pages, id),
            added ==> final(self)@.pages == old(self)@.pages.push((id, read)),
            !added ==> final(self)@ == old(self)@,
    {
        if pages_get(&self.pages, id).is_some() {
            return false;
        }
        proof {
            use_type_invariant(&*self);
            lemma_distinct_push(page_entries(self.pages), (id, read));
        }
        let mut taken = PlotCodex::new();
        std::mem::swap(self, &mut taken);
        let PlotCodex { mut pages } = taken;
        pages_insert(&mut pages, id, read);
        *self = PlotCodex { pages };
        true
    }

    /// Writes the read state of the page with the given id, which keeps its
    /// place. Where the entry has no such page, it stays as it was and
    /// `false` is returned.
    pub fn set_page(&mut self, id: i32, read: bool) -> (found: bool)
        ensures
            found == has_key(old(self)@.pages, id),
            final(self)@.pages == marked(old(self)@.pages, id, read),
    {
        proof {
            use_type_invariant(&*self);
            lemma_marked(page_entries(self.pages), id, read);
        }
        if pages_get(&self.pages, id).is_none() {
            return false;
        }
        let mut taken = PlotCodex::new();
        std::mem::swap(self, &mut taken);
        let PlotCodex { mut pages } = taken;
        pages_insert(&mut pages, id, read);
        *self = PlotCodex { pages };
        true
    }
}

impl Clone for PlotCodex {
    fn clone(&self) -> (copy: PlotCodex)
        ensures
            copy@ == self@,
    {
        proof {
            use_type_invariant(self);
        }
        PlotCodex { pages: pages_clone(&self.pages) }
    }
}

impl Default for PlotCodex {
    fn default() -> (codex: PlotCodex)
        ensures
            codex@.pages == Seq::<(i32, bool)>::empty(),
    {
        PlotCodex::new()
    }
}

/// The views of a sequence of quest records.
pub open spec fn quest_views(quests: Seq<PlotQuest>) -> Seq<PlotQuestView> {
    Seq::new(quests.len(), |i: int| quests[i]@)
}

/// The views of a sequence of codex entries.
pub open spec fn codex_views(entries: Seq<PlotCodex>) -> Seq<PlotCodexView> {
    Seq::new(entries.len(), |i: int| entries[i]@)
}

/// Whether `at` is the first position at which `ids` has `id`.
pub open spec fn is_first_position(ids: Seq<i32>, id: i32, at: int) -> bool {
    &&& 0 <= at < ids.len()
    &&& ids[at] == id
    &&& forall|j: int| 0 <= j < at ==> ids[j] != id
}

/// The first position at which `ids` has `id`, where it has it.
pub open spec fn first_position(ids: Seq<i32>, id: i32) -> Option<int> {
    if exists|at: int| is_first_position(ids, id, at) {
        Some(choose|at: int| is_first_position(ids, id, at))
    } else {
        None
    }
}

/// The first position at which the array has `id`, or nothing where it does
/// not have it.
pub fn position(ids: &Vec<i32>, id: i32) -> (found: Option<usize>)
    ensures
        match found {
            Some(at) => first_position(ids@, id) == Some(at as int) && is_first_position(
                ids@,
                id,
                at as int,
            ),
            None => first_position(ids@, id) is None && !ids@.contains(id),
        },
{
    let mut i: usize = 0;
    while i < ids.len()
        invariant
            i <= ids@.len(),
            forall|j: int| 0 <= j < i ==> ids@[j] != id,
        decreases ids@.len() - i,
    {
        if ids[i] == id {
            assert(is_first_position(ids@, id, i as int));
            return Some(i);
        }
        i += 1;
    }
    None
}

/// What a [`PlotJournal`] holds.
pub struct PlotJournalView {
    pub quest_progress_counter: i32,
    pub quest_progress: Seq<PlotQuestView>,
    pub quest_ids: Seq<i32>,
    pub codex_entries: Seq<PlotCodexView>,
    pub codex_ids: Seq<i32>,
}

impl PlotJournalView {
    /// Each quest has its id and each codex entry has its id.
    pub open spec fn paired(self) -> bool {
        &&& self.quest_ids.len() == self.quest_progress.len()
        &&& self.codex_ids.len() == self.codex_entries.len()
    }

    /// The arrays of ids and of records pair up, every record is valid, and
    /// the length of each array can be written as a 32-bit count.
    pub open spec fn valid(self) -> bool {
        &&& self.paired()
        &&& self.quest_progress.len() <= u32::MAX
        &&& self.codex_entries.len() <= u32::MAX
        &&& forall|i: int|
            0 <= i < self.quest_progress.len() ==> (#[trigger] self.quest_progress[i]).valid()
        &&& forall|i: int|
            0 <= i < self.codex_entries.len() ==> (#[trigger] self.codex_entries[i]).valid()
    }
}

/// The quests and the codex of a table: each array of records beside the
/// array of its ids. A journal is always valid: each record has its id, and
/// the journal can be written.
pub struct PlotJournal {
    quest_progress_counter: i32,
    quest_progress: Vec<PlotQuest>,
    quest_ids: Vec<i32>,
    codex_entries: Vec<PlotCodex>,
    codex_ids: Vec<i32>,
}

impl View for PlotJournal {
    type V = PlotJournalView;

    closed spec fn view(&self) -> PlotJournalView {
        PlotJournalView {
            quest_progress_counter: self.quest_progress_counter,
            quest_progress: quest_views(self.quest_progress@),
            quest_ids: self.quest_ids@,
            codex_entries: codex_views(self.codex_entries@),
            codex_ids: self.codex_ids@,
        }
    }
}

/// Copies of the quest records.
fn copy_quests(quests: &Vec<PlotQuest>) -> (copies: Vec<PlotQuest>)
    ensures
        quest_views(copies@) == quest_views(quests@),
{
    let mut copies: Vec<PlotQuest> = Vec::new();
    let mut i: usize = 0;
    while i < quests.len()
        invariant
            i <= quests@.len(),
            copies@.len() == i,
            forall|j: int| 0 <= j < i ==> (#[trigger] copies@[j])@ == quests@[j]@,
        decreases quests@.len() - i,
    {
        copies.push(quests[i].clone());
        i += 1;
    }
    copies
}

/// Copies of the codex entries.
fn copy_codex(entries: &Vec<PlotCodex>) -> (copies: Vec<PlotCodex>)
    ensures
        codex_views(copies@) == codex_views(entries@),
{
    let mut copies: Vec<PlotCodex> = Vec::new();
    let mut i: usize = 0;
    while i < entries.len()
        invariant
            i <= entries@.len(),
            copies@.len() == i,
            forall|j: int| 0 <= j < i ==> (#[trigger] copies@[j])@ == entries@[j]@,
        decreases entries@.len() - i,
    {
        copies.push(entries[i].clone());
        i += 1;
    }
    copies
}

/// Whether the history of every quest is short enough to be written.
fn quests_fit(quests: &Vec<PlotQuest>) -> (fit: bool)
    ensures
        fit == forall|i: int|
            0 <= i < quests@.len() ==> (#[trigger] quest_views(quests@)[i]).valid(),
{
    let mut i: usize = 0;
    while i < quests.len()
        invariant
            i <= quests@.len(),
            forall|j: int| 0 <= j < i ==> (#[trigger] quest_views(quests@)[j]).valid(),
        decreases quests@.len() - i,
    {
        if quests[i].history.len() > u32::MAX as usize {
            assert(!quest_views(quests@)[i as int].valid());
            return false;
        }
        i += 1;
    }
    true
}

/// Whether the pages of every codex entry are few enough to be written.
fn codex_fit(entries: &Vec<PlotCodex>) -> (fit: bool)
    ensures
        fit == forall|i: int|
            0 <= i < entries@.len() ==> (#[trigger] codex_views(entries@)[i]).valid(),
{
    let mut i: usize = 0;
    while i < entries.len()
        invariant
            i <= entries@.len(),
            forall|j: int| 0 <= j < i ==> (#[trigger] codex_views(entries@)[j]).valid(),
        decreases entries@.len() - i,
    {
        if entries[i].len() > u32::MAX as usize {
            assert(!codex_views(entries@)[i as int].valid());
            return false;
        }
        entries[i].distinct_pages();
        i += 1;
    }
    true
}

impl PlotJournal {
    /// Each record has its id, and the journal can be written.
    #[verifier::type_invariant]
    spec fn well_formed(&self) -> bool {
        self@.valid()
    }

    /// A journal of the given parts, or nothing where they do not make a
    /// valid one.
    pub fn from_parts(
        quest_progress_counter: i32,
        quest_progress: Vec<PlotQuest>,
        quest_ids: Vec<i32>,
        codex_entries: Vec<PlotCodex>,
        codex_ids: Vec<i32>,
    ) -> (journal: Option<PlotJournal>)
        ensures
            journal is Some <==> (PlotJournalView {
                quest_progress_counter,
                quest_progress: quest_views(quest_progress@),
                quest_ids: quest_ids@,
                codex_entries: codex_views(codex_entries@),
                codex_ids: codex_ids@,
            }).valid(),
            journal matches Some(j) ==> j@ == (PlotJournalView {
                quest_progress_counter,
                quest_progress: quest_views(quest_progress@),
                quest_ids: quest_ids@,
                codex_entries: codex_views(codex_entries@),
                codex_ids: codex_ids@,
            }),
    {
        if quest_ids.len() != quest_progress.len() || codex_ids.len() != codex_entries.len() {
            return None;
        }
        if quest_progress.len() > u32::MAX as usize || codex_entries.len() > u32::MAX as usize {
            return None;
        }
        if !quests_fit(&quest_progress) || !codex_fit(&codex_entries) {
            return None;
        }
        Some(
            PlotJournal {
                quest_progress_counter,
                quest_progress,
                quest_ids,
                codex_entries,
                codex_ids,
            },
        )
    }

    /// A journal without quests and without codex entries.
    pub fn new() -> (journal: PlotJournal)
        ensures
            journal@ == (PlotJournalView {
                quest_progress_counter: 0,
                quest_progress: Seq::<PlotQuestView>::empty(),
                quest_ids: Seq::<i32>::empty(),
                codex_entries: Seq::<PlotCodexView>::empty(),
                codex_ids: Seq::<i32>::empty(),
            }),
    {
        let quest_progress: Vec<PlotQuest> = Vec::new();
        let codex_entries: Vec<PlotCodex> = Vec::new();
        assert(quest_views(quest_progress@) =~= Seq::<PlotQuestView>::empty());
        assert(codex_views(codex_entries@) =~= Seq::<PlotCodexView>::empty());
        PlotJournal {
            quest_progress_counter: 0,
            quest_progress,
            quest_ids: Vec::new(),
            codex_entries,
            codex_ids: Vec::new(),
        }
    }

    /// Every journal is valid: each record has its id, and the journal can
    /// be written.
    pub fn valid(&self)
        ensures
            self@.valid(),
    {
        proof {
            use_type_invariant(self);
        }
    }

    /// The counter of the progress of all quests.
    pub fn quest_progress_counter(&self) -> (n: i32)
        ensures
            n == self@.quest_progress_counter,
    {
        self.quest_progress_counter
    }

    /// The quest records, in the order of the save game.
    pub fn quest_progress(&self) -> (quests: &Vec<PlotQuest>)
        ensures
            quest_views(quests@) == self@.quest_progress,
    {
        &self.quest_progress
    }

    /// The ids of the quest records, each at the position of its record.
    pub fn quest_ids(&self) -> (ids: &Vec<i32>)
        ensures
            ids@ == self@.quest_ids,
    {
        &self.quest_ids
    }

    /// The codex entries, in the order of the save game.
    pub fn codex_entries(&self) -> (entries: &Vec<PlotCodex>)
        ensures
            codex_views(entries@) == self@.codex_entries,
    {
        &self.codex_entries
    }

    /// The ids of the codex entries, each at the position of its entry.
    pub fn codex_ids(&self) -> (ids: &Vec<i32>)
        ensures
            ids@ == self@.codex_ids,
    {
        &self.codex_ids
    }

    /// The number of quests, which is the number of their ids.
    pub fn quest_count(&self) -> (n: usize)
        ensures
            n == self@.quest_ids.len(),
            n == self@.quest_progress.len(),
    {
        proof {
            use_type_invariant(self);
        }
        self.quest_ids.len()
    }

    /// The number of codex entries, which is the number of their ids.
    pub fn codex_count(&self) -> (n: usize)
        ensures
            n == self@.codex_ids.len(),
            n == self@.codex_entries.len(),
    {
        proof {
            use_type_invariant(self);
        }
        self.codex_ids.len()
    }

    /// The record of the first quest that has the given id, or nothing where
    /// no quest has it.
    pub fn quest(&self, id: i32) -> (quest: Option<&PlotQuest>)
        ensures
            match first_position(self@.quest_ids, id) {
                Some(at) => quest matches Some(found) && found@ == self@.quest_progress[at],
                None => quest is None,
            },
    {
        proof {
            use_type_invariant(self);
        }
        match position(&self.quest_ids, id) {
            Some(at) => Some(&self.quest_progress[at]),
            None => None,
        }
    }

    /// The first codex entry that has the given id, or nothing where no entry
    /// has it.
    pub fn codex(&self, id: i32) -> (codex: Option<&PlotCodex>)
        ensures
            match first_position(self@.codex_ids, id) {
                Some(at) => codex matches Some(found) && found@ == self@.codex_entries[at],
                None => codex is None,
            },
    {
        proof {
            use_type_invariant(self);
        }
        match position(&self.codex_ids, id) {
            Some(at) => Some(&self.codex_entries[at]),
            None => None,
        }
    }

    /// Takes the parts out of the journal and leaves an empty journal.
    fn take_parts(&mut self) -> (parts: JournalParts)
        ensures
            old(self)@.valid(),
            old(self)@ == (PlotJournalView {
                quest_progress_counter: parts.quest_progress_counter,
                quest_progress: quest_views(parts.quest_progress@),
                quest_ids: parts.quest_ids@,
                codex_entries: codex_views(parts.codex_entries@),
                codex_ids: parts.codex_ids@,
            }),
    {
        proof {
            use_type_invariant(&*self);
        }
        let mut taken = PlotJournal::new();
        std::mem::swap(self, &mut taken);
        let PlotJournal {
            quest_progress_counter,
            quest_progress,
            quest_ids,
            codex_entries,
            codex_ids,
        } = taken;
        JournalParts { quest_progress_counter, quest_progress, quest_ids, codex_entries, codex_ids }
    }

    /// Writes the counter of the progress of all quests.
    pub fn set_quest_progress_counter(&mut self, quest_progress_counter: i32)
        ensures
            final(self)@ == (PlotJournalView { quest_progress_counter, ..old(self)@ }),
    {
        let parts = self.take_parts();
        *self = PlotJournal {
            quest_progress_counter,
            quest_progress: parts.quest_progress,
            quest_ids: parts.quest_ids,
            codex_entries: parts.codex_entries,
            codex_ids: parts.codex_ids,
        };
    }

    /// Writes the counter of the quest at a position. Where there is no such
    /// quest, the journal stays as it was and the write fails.
    pub fn set_quest_counter(&mut self, index: usize, quest_counter: i32) -> (done: Result<
        (),
        OutOfRange,
    >)
        ensures
            index < old(self)@.quest_progress.len() ==> done is Ok && final(self)@ == (
            PlotJournalView {
                quest_progress: old(self)@.quest_progress.update(
                    index as int,
                    PlotQuestView { quest_counter, ..old(self)@.quest_progress[index as int] },
                ),
                ..old(self)@
            }),
            index >= old(self)@.quest_progress.len() ==> done == Err::<(), OutOfRange>(
                OutOfRange { index, capacity: old(self)@.quest_progress.len() as usize },
            ) && final(self)@ == old(self)@,
    {
        let capacity = self.quest_progress.len();
        if index >= capacity {
            return Err(OutOfRange { index, capacity });
        }
        let mut parts = self.take_parts();
        let ghost before = quest_views(parts.quest_progress@);
        parts.quest_progress[index].set_quest_counter(quest_counter);
        proof {
            assert(quest_views(parts.quest_progress@) =~= before.update(
                index as int,
                PlotQuestView { quest_counter, ..before[index as int] },
            ));
        }
        *self = PlotJournal {
            quest_progress_counter: parts.quest_progress_counter,
            quest_progress: parts.quest_progress,
            quest_ids: parts.quest_ids,
            codex_entries: parts.codex_entries,
            codex_ids: parts.codex_ids,
        };
        Ok(())
    }

    /// Writes the updated mark of the quest at a position. Where there is no
    /// such quest, the journal stays as it was and the write fails.
    pub fn set_quest_updated(&mut self, index: usize, quest_updated: bool) -> (done: Result<
        (),
        OutOfRange,
    >)
        ensures
            index < old(self)@.quest_progress.len() ==> done is Ok && final(self)@ == (
            PlotJournalView {
                quest_progress: old(self)@.quest_progress.update(
                    index as int,
                    PlotQuestView { quest_updated, ..old(self)@.quest_progress[index as int] },
                ),
                ..old(self)@
            }),
            index >= old(self)@.quest_progress.len() ==> done == Err::<(), OutOfRange>(
                OutOfRange { index, capacity: old(self)@.quest_progress.len() as usize },
            ) && final(self)@ == old(self)@,
    {
        let capacity = self.quest_progress.len();
        if index >= capacity {
            return Err(OutOfRange { index, capacity });
        }
        let mut parts = self.take_parts();
        let ghost before = quest_views(parts.quest_progress@);
        parts.quest_progress[index].set_quest_updated(quest_updated);
        proof {
            assert(quest_views(parts.quest_progress@) =~= before.update(
                index as int,
                PlotQuestView { quest_updated, ..before[index as int] },
            ));
        }
        *self = PlotJournal {
            quest_progress_counter: parts.quest_progress_counter,
            quest_progress: parts.quest_progress,
            quest_ids: parts.quest_ids,
            codex_entries: parts.codex_entries,
            codex_ids: parts.codex_ids,
        };
        Ok(())
    }

    /// Writes the read mark of a page of the codex entry at a position, and
    /// says whether the entry has the page. Where there is no such entry,
    /// the journal stays as it was and the write fails.
    pub fn set_codex_page(&mut self, index: usize, page: i32, read: bool) -> (done: Result<
        bool,
        OutOfRange,
    >)
        ensures
            index >= old(self)@.codex_entries.len() ==> done == Err::<bool, OutOfRange>(
                OutOfRange { index, capacity: old(self)@.codex_entries.len() as usize },
            ) && final(self)@ == old(self)@,
            index < old(self)@.codex_entries.len() ==> {
                let entry = old(self)@.codex_entries[index as int];
                &&& done == Ok::<bool, OutOfRange>(has_key(entry.pages, page))
                &&& final(self)@ == (PlotJournalView {
                    codex_entries: old(self)@.codex_entries.update(
                        index as int,
                        PlotCodexView { pages: marked(entry.pages, page, read) },
                    ),
                    ..old(self)@
                })
            },
    {
        let capacity = self.codex_entries.len();
        if index >= capacity {
            return Err(OutOfRange { index, capacity });
        }
        let mut parts = self.take_parts();
        let ghost before = codex_views(parts.codex_entries@);
        let found = parts.codex_entries[index].set_page(page, read);
        proof {
            lemma_marked(before[index as int].pages, page, read);
            let entry = parts.codex_entries@[index as int];
            assert(entry@ == (PlotCodexView {
                pages: marked(before[index as int].pages, page, read),
            }));
            assert(codex_views(parts.codex_entries@) =~= before.update(index as int, entry@));
        }
        *self = PlotJournal {
            quest_progress_counter: parts.quest_progress_counter,
            quest_progress: parts.quest_progress,
            quest_ids: parts.quest_ids,
            codex_entries: parts.codex_entries,
            codex_ids: parts.codex_ids,
        };
        Ok(found)
    }
}

impl Clone for PlotJournal {
    fn clone(&self) -> (copy: PlotJournal)
        ensures
            copy@ == self@,
    {
        proof {
            use_type_invariant(self);
        }
        PlotJournal {
            quest_progress_counter: self.quest_progress_counter,
            quest_progress: copy_quests(&self.quest_progress),
            quest_ids: self.quest_ids.clone(),
            codex_entries: copy_codex(&self.codex_entries),
            codex_ids: self.codex_ids.clone(),
        }
    }
}

/// The parts of a journal.
struct JournalParts {
    quest_progress_counter: i32,
    quest_progress: Vec<PlotQuest>,
    quest_ids: Vec<i32>,
    codex_entries: Vec<PlotCodex>,
    codex_ids: Vec<i32>,
}

/// What a [`Me1PlotTable`] holds.
pub struct Me1PlotTableView {
    /// The words of the boolean flags.
    pub booleans: Seq<u32>,
    pub integers: Seq<i32>,
    /// The bit patterns of the floating-point variables.
    pub floats: Seq<u32>,
}

impl Me1PlotTableView {
    /// The length of each array can be written as a 32-bit count.
    pub open spec fn counts_fit(self) -> bool {
        &&& self.booleans.len() <= u32::MAX
        &&& self.integers.len() <= u32::MAX
        &&& self.floats.len() <= u32::MAX
    }

    /// The flags fit a store, and the length of each array can be written as
    /// a 32-bit count.
    pub open spec fn valid(self) -> bool {
        &&& self.booleans.len() <= BoolVec::max_words()
        &&& self.counts_fit()
    }
}

/// Whether the length of each of the three arrays can be written as a 32-bit
/// count.
fn arrays_fit(booleans: &BoolVec, integers: &Vec<i32>, floats: &Vec<u32>) -> (fit: bool)
    ensures
        fit == (Me1PlotTableView {
            booleans: booleans.words(),
            integers: integers@,
            floats: floats@,
        }).counts_fit(),
        booleans.words().len() <= BoolVec::max_words(),
{
    booleans.capacity() / 32 <= u32::MAX as usize && integers.len() <= u32::MAX as usize
        && floats.len() <= u32::MAX as usize
}

/// The plot table of the first game: flags, integers and floats.
#[derive(Clone)]
pub struct Me1PlotTable {
    pub booleans: BoolVec,
    pub integers: Vec<i32>,
    /// The floating-point variables, as their bit patterns.
    pub floats: Vec<u32>,
}

impl View for Me1PlotTable {
    type V = Me1PlotTableView;

    open spec fn view(&self) -> Me1PlotTableView {
        Me1PlotTableView {
            booleans: self.booleans.words(),
            integers: self.integers@,
            floats: self.floats@,
        }
    }
}

impl Me1PlotTable {
    /// Whether the table can be written: whether the number of its flag
    /// words, of its integers and of its floats can each be written as a
    /// 32-bit count. A table that can be written is valid.
    pub fn fits(&self) -> (fit: bool)
        ensures
            fit == self@.counts_fit(),
            fit == self@.valid(),
    {
        arrays_fit(&self.booleans, &self.integers, &self.floats)
    }

    /// The flag at `id`, or nothing where the table holds no such flag.
    pub fn lookup_boolean(&self, id: usize) -> (flag: Option<bool>)
        ensures
            flag == value_at(self.booleans@, id as int),
    {
        self.booleans.get(id)
    }

    /// The integer variable at `id`, or nothing where the table holds none.
    pub fn lookup_integer(&self, id: usize) -> (value: Option<i32>)
        ensures
            value == value_at(self.integers@, id as int),
    {
        lookup(&self.integers, id)
    }

    /// The bit pattern of the floating-point variable at `id`, or nothing
    /// where the table holds none.
    pub fn lookup_float(&self, id: usize) -> (bits: Option<u32>)
        ensures
            bits == value_at(self.floats@, id as int),
    {
        lookup(&self.floats, id)
    }

    /// Writes the flag at `id`. Where the table holds no such flag, it stays
    /// as it was and the write fails.
    pub fn set_boolean(&mut self, id: usize, value: bool) -> (done: Result<(), OutOfRange>)
        ensures
            final(self).integers == old(self).integers,
            final(self).floats == old(self).floats,
            written(old(self).booleans@, final(self).booleans@, done, id, value),
    {
        self.booleans.set(id, value)
    }

    /// Writes the integer variable at `id`. Where the table holds none, it
    /// stays as it was and the write fails.
    pub fn set_integer(&mut self, id: usize, value: i32) -> (done: Result<(), OutOfRange>)
        ensures
            final(self).booleans == old(self).booleans,
            final(self).floats == old(self).floats,
            written(old(self).integers@, final(self).integers@, done, id, value),
    {
        store(&mut self.integers, id, value)
    }

    /// Writes the bit pattern of the floating-point variable at `id`. Where
    /// the table holds none, it stays as it was and the write fails.
    pub fn set_float(&mut self, id: usize, bits: u32) -> (done: Result<(), OutOfRange>)
        ensures
            final(self).booleans == old(self).booleans,
            final(self).integers == old(self).integers,
            written(old(self).floats@, final(self).floats@, done, id, bits),
    {
        store(&mut self.floats, id, bits)
    }
}

/// What a [`PlotTable`] holds.
pub struct PlotTableView {
    /// The words of the boolean flags.
    pub booleans: Seq<u32>,
    pub integers: Seq<i32>,
    /// The bit patterns of the floating-point variables.
    pub floats: Seq<u32>,
    pub journal: PlotJournalView,
}

impl PlotTableView {
    /// The flags, the integers and the floats of the table.
    pub open spec fn variables(self) -> Me1PlotTableView {
        Me1PlotTableView { booleans: self.booleans, integers: self.integers, floats: self.floats }
    }

    /// The length of each array of variables can be written as a 32-bit
    /// count.
    pub open spec fn counts_fit(self) -> bool {
        self.variables().counts_fit()
    }

    /// The variables and the journal are valid.
    pub open spec fn valid(self) -> bool {
        &&& self.variables().valid()
        &&& self.journal.valid()
    }
}

/// The plot table of the later games.
#[derive(Clone)]
pub struct PlotTable {
    pub booleans: BoolVec,
    pub integers: Vec<i32>,
    /// The floating-point variables, as their bit patterns.
    pub floats: Vec<u32>,
    /// The quests and the codex.
    pub journal: PlotJournal,
}

impl View for PlotTable {
    type V = PlotTableView;

    open spec fn view(&self) -> PlotTableView {
        PlotTableView {
            booleans: self.booleans.words(),
            integers: self.integers@,
            floats: self.floats@,
            journal: self.journal@,
        }
    }
}

impl PlotTable {
    /// Whether the table can be written: whether the number of its flag
    /// words, of its integers and of its floats can each be written as a
    /// 32-bit count. A table that can be written is valid.
    pub fn fits(&self) -> (fit: bool)
        ensures
            fit == self@.counts_fit(),
            fit == self@.valid(),
    {
        self.journal.valid();
        arrays_fit(&self.booleans, &self.integers, &self.floats)
    }

    /// The flag at `id`, or nothing where the table holds no such flag.
    pub fn lookup_boolean(&self, id: usize) -> (flag: Option<bool>)
        ensures
            flag == value_at(self.booleans@, id as int),
    {
        self.booleans.get(id)
    }

    /// The integer variable at `id`, or nothing where the table holds none.
    pub fn lookup_integer(&self, id: usize) -> (value: Option<i32>)
        ensures
            value == value_at(self.integers@, id as int),
    {
        lookup(&self.integers, id)
    }

    /// The bit pattern of the floating-point variable at `id`, or nothing
    /// where the table holds none.
    pub fn lookup_float(&self, id: usize) -> (bits: Option<u32>)
        ensures
            bits == value_at(self.floats@, id as int),
    {
        lookup(&self.floats, id)
    }

    /// Writes the flag at `id`. Where the table holds no such flag, it stays
    /// as it was and the write fails.
    pub fn set_boolean(&mut self, id: usize, value: bool) -> (done: Result<(), OutOfRange>)
        ensures
            final(self).integers == old(self).integers,
            final(self).floats == old(self).floats,
            final(self).journal == old(self).journal,
            written(old(self).booleans@, final(self).booleans@, done, id, value),
    {
        self.booleans.set(id, value)
    }

    /// Writes the integer variable at `id`. Where the table holds none, it
    /// stays as it was and the write fails.
    pub fn set_integer(&mut self, id: usize, value: i32) -> (done: Result<(), OutOfRange>)
        ensures
            final(self).booleans == old(self).booleans,
            final(self).floats == old(self).floats,
            final(self).journal == old(self).journal,
            written(old(self).integers@, final(self).integers@, done, id, value),
    {
        store(&mut self.integers, id, value)
    }

    /// Writes the bit pattern of the floating-point variable at `id`. Where
    /// the table holds none, it stays as it was and the write fails.
    pub fn set_float(&mut self, id: usize, bits: u32) -> (done: Result<(), OutOfRange>)
        ensures
            final(self).booleans == old(self).booleans,
            final(self).integers == old(self).integers,
            final(self).journal == old(self).journal,
            written(old(self).floats@, final(self).floats@, done, id, bits),
    {
        store(&mut self.floats, id, bits)
    }
}

} // verus!
