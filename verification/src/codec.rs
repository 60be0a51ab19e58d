//! Reading plot tables from their binary form and writing them back.

use crate::bool_vec::BoolVec;
use crate::plot::{
    codex_views, quest_views, Me1PlotTable, Me1PlotTableView, PlotCodex, PlotCodexView, PlotJournal,
    PlotJournalView, PlotQuest, PlotQuestView, PlotTable, PlotTableView,
};
use crate::wire::{
    codex_form, codexes_form, fails, gives, ints_form, journal_form, lemma_parse_then_write,
    lemma_parse_then_write_me1, lemma_take_codexes_err, lemma_take_journal_sound,
    lemma_take_pages_err, lemma_take_quests_err, lemma_take_variables_sound, me1_table_bytes,
    page_form, pages_form, parse_me1_table, parse_table, quest_form, quests_form, table_bytes,
    table_form, take_bool, take_codex, take_codexes, take_int, take_ints, take_journal, take_pages,
    take_quest, take_quests, take_variables, take_word, take_words, variables_form, words_form,
    DecodeError,
};
use crate::word::{
    bool_to_word, bytes_of_words, int_of_word, ints_to_words, word_of_int, words_of_bytes,
    words_to_ints,
};
use vstd::prelude::*;

verus! {

/// Reads the word at `pos`.
fn read_word(words: &Vec<u32>, pos: usize) -> (r: Result<(u32, usize), DecodeError>)
    requires
        pos <= words@.len(),
    ensures
        match r {
            Ok((w, next)) => next <= words@.len() && gives(
                take_word(words@, pos as int),
                (w, next as int),
            ),
            Err(e) => fails(take_word(words@, pos as int), e),
        },
{
    if pos < words.len() {
        Ok((words[pos], pos + 1))
    } else {
        Err(DecodeError::Truncated)
    }
}

/// Reads the integer at `pos`.
fn read_int(words: &Vec<u32>, pos: usize) -> (r: Result<(i32, usize), DecodeError>)
    requires
        pos <= words@.len(),
    ensures
        match r {
            Ok((x, next)) => next <= words@.len() && gives(
                take_int(words@, pos as int),
                (x, next as int),
            ),
            Err(e) => fails(take_int(words@, pos as int), e),
        },
{
    match read_word(words, pos) {
        Ok((w, next)) => Ok((int_of_word(w), next)),
        Err(e) => Err(e),
    }
}

/// Reads the truth value at `pos`.
fn read_bool(words: &Vec<u32>, pos: usize) -> (r: Result<(bool, usize), DecodeError>)
    requires
        pos <= words@.len(),
    ensures
        match r {
            Ok((b, next)) => next <= words@.len() && gives(
                take_bool(words@, pos as int),
                (b, next as int),
            ),
            Err(e) => fails(take_bool(words@, pos as int), e),
        },
{
    match read_word(words, pos) {
        Ok((w, next)) => if w == 0 {
            Ok((false, next))
        } else if w == 1 {
            Ok((true, next))
        } else {
            Err(DecodeError::InvalidBool)
        },
        Err(e) => Err(e),
    }
}

/// Reads the array of words at `pos`.
fn read_words(words: &Vec<u32>, pos: usize) -> (r: Result<(Vec<u32>, usize), DecodeError>)
    requires
        pos <= words@.len(),
    ensures
        match r {
            Ok((array, next)) => next <= words@.len() && gives(
                take_words(words@, pos as int),
                (array@, next as int),
            ),
            Err(e) => fails(take_words(words@, pos as int), e),
        },
{
    let (count, start) = match read_word(words, pos) {
        Ok((count, start)) => (count as usize, start),
        Err(e) => { return Err(e); },
    };
    if count > words.len() - start {
        return Err(DecodeError::Truncated);
    }
    let mut array: Vec<u32> = Vec::new();
    let mut i: usize = 0;
    while i < count
        invariant
            i <= count,
            start + count <= words@.len() <= usize::MAX,
            array@ == words@.subrange(start as int, start + i),
        decreases count - i,
    {
        array.push(words[start + i]);
        i += 1;
    }
    Ok((array, start + count))
}

/// Reads the array of integers at `pos`.
fn read_ints(words: &Vec<u32>, pos: usize) -> (r: Result<(Vec<i32>, usize), DecodeError>)
    requires
        pos <= words@.len(),
    ensures
        match r {
            Ok((array, next)) => next <= words@.len() && gives(
                take_ints(words@, pos as int),
                (array@, next as int),
            ),
            Err(e) => fails(take_ints(words@, pos as int), e),
        },
{
    let (count, start) = match read_word(words, pos) {
        Ok((count, start)) => (count as usize, start),
        Err(e) => { return Err(e); },
    };
    if count > words.len() - start {
        return Err(DecodeError::Truncated);
    }
    let mut array: Vec<i32> = Vec::new();
    let mut i: usize = 0;
    while i < count
        invariant
            i <= count,
            start + count <= words@.len() <= usize::MAX,
            array@ == words_to_ints(words@.subrange(start as int, start + i)),
        decreases count - i,
    {
        array.push(int_of_word(words[start + i]));
        i += 1;
    }
    Ok((array, start + count))
}

/// Reads the quest at `pos`.
fn read_quest(words: &Vec<u32>, pos: usize) -> (r: Result<(PlotQuest, usize), DecodeError>)
    requires
        pos <= words@.len(),
    ensures
        match r {
            Ok((quest, next)) => next <= words@.len() && gives(
                take_quest(words@, pos as int),
                (quest@, next as int),
            ),
            Err(e) => fails(take_quest(words@, pos as int), e),
        },
{
    let (quest_counter, at_updated) = match read_int(words, pos) {
        Ok(read) => read,
        Err(e) => { return Err(e); },
    };
    let (quest_updated, at_history) = match read_bool(words, at_updated) {
        Ok(read) => read,
        Err(e) => { return Err(e); },
    };
    let (history, next) = match read_ints(words, at_history) {
        Ok(read) => read,
        Err(e) => { return Err(e); },
    };
    Ok((PlotQuest::new(quest_counter, quest_updated, history), next))
}

/// Reads `count` quests that stand one behind the other from `pos` on.
fn read_quests(words: &Vec<u32>, pos: usize, count: usize) -> (r: Result<
    (Vec<PlotQuest>, usize),
    DecodeError,
>)
    requires
        pos <= words@.len(),
    ensures
        match r {
            Ok((quests, next)) => next <= words@.len() && gives(
                take_quests(words@, pos as int, count as nat),
                (quest_views(quests@), next as int),
            ),
            Err(e) => fails(take_quests(words@, pos as int, count as nat), e),
        },
{
    let mut quests: Vec<PlotQuest> = Vec::new();
    let mut at: usize = pos;
    let mut i: usize = 0;
    assert(quest_views(quests@) =~= Seq::<PlotQuestView>::empty());
    while i < count
        invariant
            i <= count,
            at <= words@.len(),
            gives(take_quests(words@, pos as int, i as nat), (quest_views(quests@), at as int)),
        decreases count - i,
    {
        let ghost before = quest_views(quests@);
        match read_quest(words, at) {
            Ok((quest, next)) => {
                quests.push(quest);
                at = next;
                assert(quest_views(quests@) =~= before.push(quest@));
            },
            Err(e) => {
                proof {
                    lemma_take_quests_err(words@, pos as int, (i + 1) as nat, count as nat);
                }
                return Err(e);
            },
        }
        i += 1;
    }
    Ok((quests, at))
}

/// Reads the codex entry at `pos`.
fn read_codex(words: &Vec<u32>, pos: usize) -> (r: Result<(PlotCodex, usize), DecodeError>)
    requires
        pos <= words@.len(),
    ensures
        match r {
            Ok((codex, next)) => next <= words@.len() && gives(
                take_codex(words@, pos as int),
                (codex@, next as int),
            ),
            Err(e) => fails(take_codex(words@, pos as int), e),
        },
{
    let (declared, start) = match read_word(words, pos) {
        Ok(read) => read,
        Err(e) => { return Err(e); },
    };
    let count = declared as usize;
    let mut codex = PlotCodex::new();
    let mut at: usize = start;
    let mut i: usize = 0;
    while i < count
        invariant
            i <= count,
            start <= at <= words@.len(),
            count == declared,
            gives(take_word(words@, pos as int), (declared, start as int)),
            gives(take_pages(words@, start as int, i as nat), (codex@.pages, at as int)),
        decreases count - i,
    {
        let ghost so_far = codex@.pages;
        let step: Result<usize, DecodeError> = match read_int(words, at) {
            Err(e) => Err(e),
            Ok((id, at_read)) => match read_bool(words, at_read) {
                Err(e) => Err(e),
                Ok((read, next)) => if codex.insert_page(id, read) {
                    Ok(next)
                } else {
                    Err(DecodeError::DuplicatePage)
                },
            },
        };
        match step {
            Ok(next) => {
                at = next;
            },
            Err(e) => {
                proof {
                    assert(gives(take_pages(words@, start as int, i as nat), (so_far, at as int)));
                    assert(fails(take_pages(words@, start as int, (i + 1) as nat), e));
                    lemma_take_pages_err(words@, start as int, (i + 1) as nat, count as nat);
                }
                return Err(e);
            },
        }
        i += 1;
    }
    Ok((codex, at))
}

/// Reads `count` codex entries that stand one behind the other from `pos` on.
fn read_codexes(words: &Vec<u32>, pos: usize, count: usize) -> (r: Result<
    (Vec<PlotCodex>, usize),
    DecodeError,
>)
    requires
        pos <= words@.len(),
    ensures
        match r {
            Ok((entries, next)) => next <= words@.len() && gives(
                take_codexes(words@, pos as int, count as nat),
                (codex_views(entries@), next as int),
            ),
            Err(e) => fails(take_codexes(words@, pos as int, count as nat), e),
        },
{
    let mut entries: Vec<PlotCodex> = Vec::new();
    let mut at: usize = pos;
    let mut i: usize = 0;
    assert(codex_views(entries@) =~= Seq::<PlotCodexView>::empty());
    while i < count
        invariant
            i <= count,
            at <= words@.len(),
            gives(take_codexes(words@, pos as int, i as nat), (codex_views(entries@), at as int)),
        decreases count - i,
    {
        let ghost before = codex_views(entries@);
        match read_codex(words, at) {
            Ok((codex, next)) => {
                entries.push(codex);
                at = next;
                assert(codex_views(entries@) =~= before.push(codex@));
            },
            Err(e) => {
                proof {
                    lemma_take_codexes_err(words@, pos as int, (i + 1) as nat, count as nat);
                }
                return Err(e);
            },
        }
        i += 1;
    }
    Ok((entries, at))
}

/// Reads the journal at `pos`.
fn read_journal(words: &Vec<u32>, pos: usize) -> (r: Result<(PlotJournal, usize), DecodeError>)
    requires
        pos <= words@.len(),
    ensures
        match r {
            Ok((journal, next)) => next <= words@.len() && gives(
                take_journal(words@, pos as int),
                (journal@, next as int),
            ),
            Err(e) => fails(take_journal(words@, pos as int), e),
        },
{
    let (quest_progress_counter, at_quests) = match read_int(words, pos) {
        Ok(read) => read,
        Err(e) => { return Err(e); },
    };
    let (quest_count, at_first_quest) = match read_word(words, at_quests) {
        Ok(read) => read,
        Err(e) => { return Err(e); },
    };
    let (quest_progress, at_quest_ids) = match read_quests(
        words,
        at_first_quest,
        quest_count as usize,
    ) {
        Ok(read) => read,
        Err(e) => { return Err(e); },
    };
    let (quest_ids, at_codex) = match read_ints(words, at_quest_ids) {
        Ok(read) => read,
        Err(e) => { return Err(e); },
    };
    if quest_ids.len() != quest_progress.len() {
        return Err(DecodeError::UnpairedIds);
    }
    let (codex_count, at_first_codex) = match read_word(words, at_codex) {
        Ok(read) => read,
        Err(e) => { return Err(e); },
    };
    let (codex_entries, at_codex_ids) = match read_codexes(
        words,
        at_first_codex,
        codex_count as usize,
    ) {
        Ok(read) => read,
        Err(e) => { return Err(e); },
    };
    let (codex_ids, next) = match read_ints(words, at_codex_ids) {
        Ok(read) => read,
        Err(e) => { return Err(e); },
    };
    if codex_ids.len() != codex_entries.len() {
        return Err(DecodeError::UnpairedIds);
    }
    proof {
        lemma_take_journal_sound(words@, pos as int);
    }
    let journal = PlotJournal::from_parts(
        quest_progress_counter,
        quest_progress,
        quest_ids,
        codex_entries,
        codex_ids,
    );
    Ok((journal.unwrap(), next))
}

/// Reads the flags, integers and floats at `pos`.
fn read_variables(words: &Vec<u32>, pos: usize) -> (r: Result<(Me1PlotTable, usize), DecodeError>)
    requires
        pos <= words@.len(),
    ensures
        match r {
            Ok((table, next)) => next <= words@.len() && gives(
                take_variables(words@, pos as int),
                (table@, next as int),
            ),
            Err(e) => fails(take_variables(words@, pos as int), e),
        },
{
    let (flag_words, at_integers) = match read_words(words, pos) {
        Ok(read) => read,
        Err(e) => { return Err(e); },
    };
    if flag_words.len() > BoolVec::word_limit() {
        return Err(DecodeError::TooLarge);
    }
    let (integers, at_floats) = match read_ints(words, at_integers) {
        Ok(read) => read,
        Err(e) => { return Err(e); },
    };
    let (floats, next) = match read_words(words, at_floats) {
        Ok(read) => read,
        Err(e) => { return Err(e); },
    };
    proof {
        lemma_take_variables_sound(words@, pos as int);
    }
    Ok((Me1PlotTable { booleans: BoolVec::decode(flag_words), integers, floats }, next))
}

impl Me1PlotTable {
    /// Reads a table of the first game from its binary form: the flags, the
    /// integers and the floats, each as an array of little-endian 32-bit
    /// words behind its count. Fails with the first thing that is wrong with
    /// the bytes.
    pub fn decode(bytes: &[u8]) -> (r: Result<Me1PlotTable, DecodeError>)
        ensures
            match r {
                Ok(table) => table@.valid() && gives(parse_me1_table(bytes@), table@),
                Err(e) => fails(parse_me1_table(bytes@), e),
            },
    {
        let words = words_of_bytes(bytes);
        let (table, next) = match read_variables(&words, 0) {
            Ok(read) => read,
            Err(e) => { return Err(e); },
        };
        let total = bytes.len();
        if 4 * next != total {
            return Err(DecodeError::TrailingData);
        }
        proof {
            lemma_parse_then_write_me1(bytes@);
        }
        Ok(table)
    }
}

impl PlotTable {
    /// Reads a table from its binary form: the flags, the integers and the
    /// floats, each as an array of little-endian 32-bit words behind its
    /// count, then the quest counter, the quests, their ids, the codex
    /// entries and their ids. Fails with the first thing that is wrong with
    /// the bytes.
    pub fn decode(bytes: &[u8]) -> (r: Result<PlotTable, DecodeError>)
        ensures
            match r {
                Ok(table) => table@.valid() && gives(parse_table(bytes@), table@),
                Err(e) => fails(parse_table(bytes@), e),
            },
    {
        let words = words_of_bytes(bytes);
        let (variables, at_journal) = match read_variables(&words, 0) {
            Ok(read) => read,
            Err(e) => { return Err(e); },
        };
        let (journal, next) = match read_journal(&words, at_journal) {
            Ok(read) => read,
            Err(e) => { return Err(e); },
        };
        let total = bytes.len();
        if 4 * next != total {
            return Err(DecodeError::TrailingData);
        }
        proof {
            lemma_parse_then_write(bytes@);
        }
        let Me1PlotTable { booleans, integers, floats } = variables;
        Ok(PlotTable { booleans, integers, floats, journal })
    }
}

/// Writes an array of words: their count, then the words.
fn write_words(out: &mut Vec<u32>, array: &Vec<u32>)
    requires
        array@.len() <= u32::MAX,
    ensures
        final(out)@ == old(out)@ + words_form(array@),
{
    let ghost start = out@;
    out.push(array.len() as u32);
    let mut i: usize = 0;
    while i < array.len()
        invariant
            i <= array@.len(),
            out@ == start + seq![array@.len() as u32] + array@.subrange(0, i as int),
        decreases array@.len() - i,
    {
        out.push(array[i]);
        i += 1;
    }
}

/// Writes an array of integers: their count, then the integers.
fn write_ints(out: &mut Vec<u32>, array: &Vec<i32>)
    requires
        array@.len() <= u32::MAX,
    ensures
        final(out)@ == old(out)@ + ints_form(array@),
{
    let ghost start = out@;
    out.push(array.len() as u32);
    let mut i: usize = 0;
    while i < array.len()
        invariant
            i <= array@.len(),
            out@ == start + seq![array@.len() as u32] + ints_to_words(array@).subrange(
                0,
                i as int,
            ),
        decreases array@.len() - i,
    {
        out.push(word_of_int(array[i]));
        i += 1;
        assert(out@ =~= start + seq![array@.len() as u32] + ints_to_words(array@).subrange(
            0,
            i as int,
        ));
    }
}

/// Writes a truth value.
fn write_bool(out: &mut Vec<u32>, value: bool)
    ensures
        final(out)@ == old(out)@.push(bool_to_word(value)),
{
    out.push(if value { 1 } else { 0 });
}

/// Writes a quest.
fn write_quest(out: &mut Vec<u32>, quest: &PlotQuest)
    requires
        quest@.valid(),
    ensures
        final(out)@ == old(out)@ + quest_form(quest@),
{
    out.push(word_of_int(quest.quest_counter()));
    write_bool(out, quest.quest_updated());
    write_ints(out, quest.history());
}

/// Writes the quests, one behind the other.
fn write_quests(out: &mut Vec<u32>, quests: &Vec<PlotQuest>)
    requires
        forall|i: int| 0 <= i < quests@.len() ==> (#[trigger] quest_views(quests@)[i]).valid(),
    ensures
        final(out)@ == old(out)@ + quests_form(quest_views(quests@)),
{
    let ghost start = out@;
    let ghost views = quest_views(quests@);
    let mut i: usize = 0;
    while i < quests.len()
        invariant
            i <= quests@.len(),
            views == quest_views(quests@),
            forall|k: int| 0 <= k < quests@.len() ==> (#[trigger] views[k]).valid(),
            out@ == start + quests_form(views.take(i as int)),
        decreases quests@.len() - i,
    {
        assert(views[i as int].valid());
        write_quest(out, &quests[i]);
        proof {
            let next = views.take(i + 1);
            assert(next.drop_last() =~= views.take(i as int));
        }
        i += 1;
    }
    assert(views.take(i as int) =~= views);
}

/// Writes a codex entry.
fn write_codex(out: &mut Vec<u32>, codex: &PlotCodex)
    requires
        codex@.valid(),
    ensures
        final(out)@ == old(out)@ + codex_form(codex@),
{
    let ghost start = out@;
    let ghost pages = codex@.pages;
    let count = codex.len();
    out.push(count as u32);
    let mut i: usize = 0;
    while i < count
        invariant
            i <= count,
            count == pages.len(),
            pages == codex@.pages,
            out@ == start + seq![pages.len() as u32] + pages_form(pages.take(i as int)),
        decreases count - i,
    {
        let (id, read) = codex.page_at(i).unwrap();
        out.push(word_of_int(id));
        write_bool(out, read);
        proof {
            let next = pages.take(i + 1);
            assert(next.drop_last() =~= pages.take(i as int));
        }
        i += 1;
    }
    assert(pages.take(i as int) =~= pages);
}

/// Writes the codex entries, one behind the other.
fn write_codexes(out: &mut Vec<u32>, entries: &Vec<PlotCodex>)
    requires
        forall|i: int| 0 <= i < entries@.len() ==> (#[trigger] codex_views(entries@)[i]).valid(),
    ensures
        final(out)@ == old(out)@ + codexes_form(codex_views(entries@)),
{
    let ghost start = out@;
    let ghost views = codex_views(entries@);
    let mut i: usize = 0;
    while i < entries.len()
        invariant
            i <= entries@.len(),
            views == codex_views(entries@),
            forall|k: int| 0 <= k < entries@.len() ==> (#[trigger] views[k]).valid(),
            out@ == start + codexes_form(views.take(i as int)),
        decreases entries@.len() - i,
    {
        assert(views[i as int].valid());
        write_codex(out, &entries[i]);
        proof {
            let next = views.take(i + 1);
            assert(next.drop_last() =~= views.take(i as int));
        }
        i += 1;
    }
    assert(views.take(i as int) =~= views);
}

/// Writes a journal.
fn write_journal(out: &mut Vec<u32>, journal: &PlotJournal)
    ensures
        final(out)@ == old(out)@ + journal_form(journal@),
{
    journal.valid();
    out.push(word_of_int(journal.quest_progress_counter()));
    let quests = journal.quest_progress();
    out.push(quests.len() as u32);
    write_quests(out, quests);
    write_ints(out, journal.quest_ids());
    let entries = journal.codex_entries();
    out.push(entries.len() as u32);
    write_codexes(out, entries);
    write_ints(out, journal.codex_ids());
}

impl Me1PlotTable {
    /// The binary form of the table. The number of its flag words, of its
    /// integers and of its floats must each fit a 32-bit count.
    pub fn encode(&self) -> (bytes: Vec<u8>)
        requires
            self@.counts_fit(),
        ensures
            bytes@ == me1_table_bytes(self@),
    {
        let mut out: Vec<u32> = Vec::new();
        let flag_words = self.booleans.encode();
        write_words(&mut out, &flag_words);
        write_ints(&mut out, &self.integers);
        write_words(&mut out, &self.floats);
        bytes_of_words(&out)
    }
}

impl PlotTable {
    /// The binary form of the table. The number of its flag words, of its
    /// integers and of its floats must each fit a 32-bit count.
    pub fn encode(&self) -> (bytes: Vec<u8>)
        requires
            self@.counts_fit(),
        ensures
            bytes@ == table_bytes(self@),
    {
        let mut out: Vec<u32> = Vec::new();
        let flag_words = self.booleans.encode();
        write_words(&mut out, &flag_words);
        write_ints(&mut out, &self.integers);
        write_words(&mut out, &self.floats);
        write_journal(&mut out, &self.journal);
        bytes_of_words(&out)
    }
}

} // verus!
