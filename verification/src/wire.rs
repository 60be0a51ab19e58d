//! The binary form of the plot tables, as a stream of 32-bit words.
//!
//! Every scalar of a table is one little-endian 32-bit word: an integer in
//! two's complement, a truth value as 0 or 1, a floating-point number as its
//! bit pattern. An array is the count of its elements followed by the
//! elements. A quest is its counter, its updated mark and the array of its
//! history; a codex entry is the array of its pages, each a page id and a
//! read mark. A stream is read front to back, and the first thing that is
//! wrong with it is the error that the reading fails with.

use crate::bool_vec::BoolVec;
use crate::ordered_map::{distinct_keys, has_key};
use crate::plot::{
    lemma_distinct_push, Me1PlotTableView, PlotCodexView, PlotJournalView, PlotQuestView,
    PlotTableView,
};
use crate::word::{
    bool_to_word, bytes_to_words, int_to_word, ints_to_words, lemma_bytes_of_words,
    lemma_int_word, lemma_ints_words, lemma_words_of_bytes, word_to_bool, word_to_int,
    words_to_bytes, words_to_ints,
};
use vstd::prelude::*;

verus! {

/// What is wrong with a stream that is not the binary form of a table.
#[derive(Clone, Copy, Debug, PartialEq, Eq, Structural)]
pub enum DecodeError {
    /// The stream ends before what it declares.
    Truncated,
    /// The stream goes on after the table.
    TrailingData,
    /// A truth value is neither 0 nor 1.
    InvalidBool,
    /// A codex entry has two pages of one id.
    DuplicatePage,
    /// An array of ids is not as long as the array of its records.
    UnpairedIds,
    /// The boolean flags are more than a store can hold on this machine.
    TooLarge,
}

impl DecodeError {
    /// What is wrong, in words.
    pub open spec fn spec_message(self) -> Seq<char> {
        match self {
            DecodeError::Truncated => "the plot table ends before what it declares"@,
            DecodeError::TrailingData => "the plot table is followed by more bytes"@,
            DecodeError::InvalidBool => "a truth value of the plot table is neither 0 nor 1"@,
            DecodeError::DuplicatePage => "a codex entry of the plot table has a page twice"@,
            DecodeError::UnpairedIds => "the plot table has not one id for each record"@,
            DecodeError::TooLarge => "the plot table has more flags than fit this machine"@,
        }
    }

    /// What is wrong, in words.
    pub fn message(self) -> (text: &'static str)
        ensures
            text@ == self.spec_message(),
    {
        match self {
            DecodeError::Truncated => "the plot table ends before what it declares",
            DecodeError::TrailingData => "the plot table is followed by more bytes",
            DecodeError::InvalidBool => "a truth value of the plot table is neither 0 nor 1",
            DecodeError::DuplicatePage => "a codex entry of the plot table has a page twice",
            DecodeError::UnpairedIds => "the plot table has not one id for each record",
            DecodeError::TooLarge => "the plot table has more flags than fit this machine",
        }
    }
}

/// The reading gave `value`.
pub open spec fn gives<T>(taken: Result<T, DecodeError>, value: T) -> bool {
    taken == Ok::<T, DecodeError>(value)
}

/// The reading failed with `error`.
pub open spec fn fails<T>(taken: Result<T, DecodeError>, error: DecodeError) -> bool {
    taken == Err::<T, DecodeError>(error)
}

/// `part` stands in `s` from position `pos` on.
pub open spec fn occurs_at(s: Seq<u32>, pos: int, part: Seq<u32>) -> bool {
    &&& 0 <= pos
    &&& pos + part.len() <= s.len()
    &&& forall|i: int| 0 <= i < part.len() ==> s[pos + i] == #[trigger] part[i]
}

/// A concatenation stands at a position where its first part stands there
/// and its second part right behind.
proof fn lemma_occurs_concat(s: Seq<u32>, pos: int, a: Seq<u32>, b: Seq<u32>)
    ensures
        occurs_at(s, pos, a + b) <==> occurs_at(s, pos, a) && occurs_at(s, pos + a.len(), b),
{
    let ab = a + b;
    if occurs_at(s, pos, ab) {
        assert forall|i: int| 0 <= i < a.len() implies s[pos + i] == #[trigger] a[i] by {
            assert(ab[i] == a[i]);
        }
        assert forall|i: int| 0 <= i < b.len() implies s[pos + a.len() + i] == #[trigger] b[i] by {
            assert(ab[a.len() + i] == b[i]);
        }
    }
    if occurs_at(s, pos, a) && occurs_at(s, pos + a.len(), b) {
    }
}

/// What stands in `s` from `pos` to `next` is that part of `s`.
proof fn lemma_occurs_subrange(s: Seq<u32>, pos: int, next: int)
    requires
        0 <= pos <= next <= s.len(),
    ensures
        occurs_at(s, pos, s.subrange(pos, next)),
{
}

/// Only the whole of `s` stands in `s` from its start to its end.
proof fn lemma_occurs_whole(s: Seq<u32>, part: Seq<u32>)
    requires
        occurs_at(s, 0, part),
        part.len() == s.len(),
    ensures
        s == part,
{
}

/// The word at `pos` and the position behind it.
pub open spec fn take_word(s: Seq<u32>, pos: int) -> Result<(u32, int), DecodeError> {
    if 0 <= pos < s.len() {
        Ok((s[pos], pos + 1))
    } else {
        Err(DecodeError::Truncated)
    }
}

/// The integer at `pos` and the position behind it.
pub open spec fn take_int(s: Seq<u32>, pos: int) -> Result<(i32, int), DecodeError> {
    match take_word(s, pos) {
        Ok((w, next)) => Ok((word_to_int(w), next)),
        Err(e) => Err(e),
    }
}

/// The truth value at `pos` and the position behind it.
pub open spec fn take_bool(s: Seq<u32>, pos: int) -> Result<(bool, int), DecodeError> {
    match take_word(s, pos) {
        Ok((w, next)) => match word_to_bool(w) {
            Some(b) => Ok((b, next)),
            None => Err(DecodeError::InvalidBool),
        },
        Err(e) => Err(e),
    }
}

/// The array of words at `pos` and the position behind it.
pub open spec fn take_words(s: Seq<u32>, pos: int) -> Result<(Seq<u32>, int), DecodeError> {
    match take_word(s, pos) {
        Ok((count, start)) => if start + count <= s.len() {
            Ok((s.subrange(start, start + count), start + count))
        } else {
            Err(DecodeError::Truncated)
        },
        Err(e) => Err(e),
    }
}

/// The array of integers at `pos` and the position behind it.
pub open spec fn take_ints(s: Seq<u32>, pos: int) -> Result<(Seq<i32>, int), DecodeError> {
    match take_words(s, pos) {
        Ok((words, next)) => Ok((words_to_ints(words), next)),
        Err(e) => Err(e),
    }
}

/// The binary form of an array of words: their count, then the words.
pub open spec fn words_form(words: Seq<u32>) -> Seq<u32> {
    seq![words.len() as u32] + words
}

/// The binary form of an array of integers: their count, then the integers.
pub open spec fn ints_form(ints: Seq<i32>) -> Seq<u32> {
    words_form(ints_to_words(ints))
}

/// An array that was read stands where it was read.
proof fn lemma_take_words_sound(s: Seq<u32>, pos: int)
    requires
        take_words(s, pos) is Ok,
    ensures
        ({
            let (words, next) = take_words(s, pos)->Ok_0;
            &&& words.len() <= u32::MAX
            &&& next == pos + words_form(words).len()
            &&& occurs_at(s, pos, words_form(words))
        }),
{
    let (words, next) = take_words(s, pos)->Ok_0;
    lemma_occurs_subrange(s, pos + 1, next);
    lemma_occurs_concat(s, pos, seq![words.len() as u32], words);
}

/// An array that stands at a position is read there.
proof fn lemma_take_words_complete(s: Seq<u32>, pos: int, words: Seq<u32>)
    requires
        words.len() <= u32::MAX,
        occurs_at(s, pos, words_form(words)),
    ensures
        take_words(s, pos) == Ok::<(Seq<u32>, int), DecodeError>(
            (words, pos + words_form(words).len()),
        ),
{
    lemma_occurs_concat(s, pos, seq![words.len() as u32], words);
    assert(seq![words.len() as u32][0] == words.len() as u32);
    let start = pos + 1;
    assert(s.subrange(start, start + words.len()) =~= words);
}

/// An array of integers that was read stands where it was read.
proof fn lemma_take_ints_sound(s: Seq<u32>, pos: int)
    requires
        take_ints(s, pos) is Ok,
    ensures
        ({
            let (ints, next) = take_ints(s, pos)->Ok_0;
            &&& ints.len() <= u32::MAX
            &&& next == pos + ints_form(ints).len()
            &&& occurs_at(s, pos, ints_form(ints))
        }),
{
    let words = take_words(s, pos)->Ok_0.0;
    lemma_take_words_sound(s, pos);
    lemma_ints_words(words, Seq::empty());
}

/// An array of integers that stands at a position is read there.
proof fn lemma_take_ints_complete(s: Seq<u32>, pos: int, ints: Seq<i32>)
    requires
        ints.len() <= u32::MAX,
        occurs_at(s, pos, ints_form(ints)),
    ensures
        take_ints(s, pos) == Ok::<(Seq<i32>, int), DecodeError>(
            (ints, pos + ints_form(ints).len()),
        ),
{
    lemma_take_words_complete(s, pos, ints_to_words(ints));
    lemma_ints_words(Seq::empty(), ints);
}

/// The binary form of a quest: its counter, its updated mark, and the array
/// of its history.
pub open spec fn quest_form(quest: PlotQuestView) -> Seq<u32> {
    seq![int_to_word(quest.quest_counter), bool_to_word(quest.quest_updated)] + ints_form(
        quest.history,
    )
}

/// The quest at `pos` and the position behind it.
pub open spec fn take_quest(s: Seq<u32>, pos: int) -> Result<(PlotQuestView, int), DecodeError> {
    match take_int(s, pos) {
        Err(e) => Err(e),
        Ok((quest_counter, at_updated)) => match take_bool(s, at_updated) {
            Err(e) => Err(e),
            Ok((quest_updated, at_history)) => match take_ints(s, at_history) {
                Err(e) => Err(e),
                Ok((history, next)) => Ok(
                    (PlotQuestView { quest_counter, quest_updated, history }, next),
                ),
            },
        },
    }
}

/// A quest that was read is valid and stands where it was read.
proof fn lemma_take_quest_sound(s: Seq<u32>, pos: int)
    requires
        take_quest(s, pos) is Ok,
    ensures
        ({
            let (quest, next) = take_quest(s, pos)->Ok_0;
            &&& quest.valid()
            &&& next == pos + quest_form(quest).len()
            &&& occurs_at(s, pos, quest_form(quest))
        }),
{
    let quest = take_quest(s, pos)->Ok_0.0;
    let head = seq![int_to_word(quest.quest_counter), bool_to_word(quest.quest_updated)];
    lemma_take_ints_sound(s, pos + 2);
    lemma_int_word(s[pos], 0);
    lemma_occurs_concat(s, pos, head, ints_form(quest.history));
}

/// A valid quest that stands at a position is read there.
proof fn lemma_take_quest_complete(s: Seq<u32>, pos: int, quest: PlotQuestView)
    requires
        quest.valid(),
        occurs_at(s, pos, quest_form(quest)),
    ensures
        take_quest(s, pos) == Ok::<(PlotQuestView, int), DecodeError>(
            (quest, pos + quest_form(quest).len()),
        ),
{
    let head = seq![int_to_word(quest.quest_counter), bool_to_word(quest.quest_updated)];
    lemma_occurs_concat(s, pos, head, ints_form(quest.history));
    lemma_int_word(0, quest.quest_counter);
    lemma_take_ints_complete(s, pos + 2, quest.history);
}

/// The binary forms of the quests, one behind the other.
pub open spec fn quests_form(quests: Seq<PlotQuestView>) -> Seq<u32>
    decreases quests.len(),
{
    if quests.len() == 0 {
        Seq::empty()
    } else {
        quests_form(quests.drop_last()) + quest_form(quests.last())
    }
}

/// The `count` quests that stand one behind the other from `pos` on, and the
/// position behind the last.
pub open spec fn take_quests(s: Seq<u32>, pos: int, count: nat) -> Result<
    (Seq<PlotQuestView>, int),
    DecodeError,
>
    decreases count,
{
    if count == 0 {
        Ok((Seq::empty(), pos))
    } else {
        match take_quests(s, pos, (count - 1) as nat) {
            Err(e) => Err(e),
            Ok((quests, at_last)) => match take_quest(s, at_last) {
                Err(e) => Err(e),
                Ok((quest, next)) => Ok((quests.push(quest), next)),
            },
        }
    }
}

/// Reading more quests does not mend an error among the first.
pub(crate) proof fn lemma_take_quests_err(s: Seq<u32>, pos: int, done: nat, count: nat)
    requires
        done <= count,
        take_quests(s, pos, done) is Err,
    ensures
        take_quests(s, pos, count) == take_quests(s, pos, done),
    decreases count,
{
    if done < count {
        lemma_take_quests_err(s, pos, done, (count - 1) as nat);
    }
}

/// Quests that were read are valid and stand where they were read.
proof fn lemma_take_quests_sound(s: Seq<u32>, pos: int, count: nat)
    requires
        0 <= pos <= s.len(),
        take_quests(s, pos, count) is Ok,
    ensures
        ({
            let (quests, next) = take_quests(s, pos, count)->Ok_0;
            &&& quests.len() == count
            &&& forall|i: int| 0 <= i < quests.len() ==> (#[trigger] quests[i]).valid()
            &&& next == pos + quests_form(quests).len()
            &&& occurs_at(s, pos, quests_form(quests))
        }),
    decreases count,
{
    if count > 0 {
        let (before, at_last) = take_quests(s, pos, (count - 1) as nat)->Ok_0;
        let quest = take_quest(s, at_last)->Ok_0.0;
        lemma_take_quests_sound(s, pos, (count - 1) as nat);
        lemma_take_quest_sound(s, at_last);
        let quests = before.push(quest);
        assert(quests.drop_last() =~= before);
        lemma_occurs_concat(s, pos, quests_form(before), quest_form(quest));
    }
}

/// Valid quests that stand one behind the other at a position are read
/// there.
proof fn lemma_take_quests_complete(s: Seq<u32>, pos: int, quests: Seq<PlotQuestView>)
    requires
        forall|i: int| 0 <= i < quests.len() ==> (#[trigger] quests[i]).valid(),
        occurs_at(s, pos, quests_form(quests)),
    ensures
        take_quests(s, pos, quests.len()) == Ok::<(Seq<PlotQuestView>, int), DecodeError>(
            (quests, pos + quests_form(quests).len()),
        ),
    decreases quests.len(),
{
    if quests.len() == 0 {
        assert(quests =~= Seq::empty());
    } else {
        let before = quests.drop_last();
        lemma_occurs_concat(s, pos, quests_form(before), quest_form(quests.last()));
        lemma_take_quests_complete(s, pos, before);
        lemma_take_quest_complete(s, pos + quests_form(before).len(), quests.last());
        assert(before.push(quests.last()) =~= quests);
    }
}

/// The binary form of a page: its id and its read mark.
pub open spec fn page_form(page: (i32, bool)) -> Seq<u32> {
    seq![int_to_word(page.0), bool_to_word(page.1)]
}

/// The binary forms of the pages, one behind the other.
pub open spec fn pages_form(pages: Seq<(i32, bool)>) -> Seq<u32>
    decreases pages.len(),
{
    if pages.len() == 0 {
        Seq::empty()
    } else {
        pages_form(pages.drop_last()) + page_form(pages.last())
    }
}

/// The `count` pages that stand one behind the other from `pos` on, and the
/// position behind the last. A page whose id an earlier page has is an error.
pub open spec fn take_pages(s: Seq<u32>, pos: int, count: nat) -> Result<
    (Seq<(i32, bool)>, int),
    DecodeError,
>
    decreases count,
{
    if count == 0 {
        Ok((Seq::empty(), pos))
    } else {
        match take_pages(s, pos, (count - 1) as nat) {
            Err(e) => Err(e),
            Ok((pages, at_last)) => match take_int(s, at_last) {
                Err(e) => Err(e),
                Ok((id, at_read)) => match take_bool(s, at_read) {
                    Err(e) => Err(e),
                    Ok((read, next)) => if has_key(pages, id) {
                        Err(DecodeError::DuplicatePage)
                    } else {
                        Ok((pages.push((id, read)), next))
                    },
                },
            },
        }
    }
}

/// Reading more pages does not mend an error among the first.
pub(crate) proof fn lemma_take_pages_err(s: Seq<u32>, pos: int, done: nat, count: nat)
    requires
        done <= count,
        take_pages(s, pos, done) is Err,
    ensures
        take_pages(s, pos, count) == take_pages(s, pos, done),
    decreases count,
{
    if done < count {
        lemma_take_pages_err(s, pos, done, (count - 1) as nat);
    }
}

/// Among distinct ids the last is none of those before it.
proof fn lemma_distinct_last(pages: Seq<(i32, bool)>)
    requires
        distinct_keys(pages),
        pages.len() > 0,
    ensures
        distinct_keys(pages.drop_last()),
        !has_key(pages.drop_last(), pages.last().0),
{
}

/// Pages that were read have distinct ids and stand where they were read.
proof fn lemma_take_pages_sound(s: Seq<u32>, pos: int, count: nat)
    requires
        0 <= pos <= s.len(),
        take_pages(s, pos, count) is Ok,
    ensures
        ({
            let (pages, next) = take_pages(s, pos, count)->Ok_0;
            &&& pages.len() == count
            &&& distinct_keys(pages)
            &&& next == pos + pages_form(pages).len()
            &&& occurs_at(s, pos, pages_form(pages))
        }),
    decreases count,
{
    if count > 0 {
        let (before, at_last) = take_pages(s, pos, (count - 1) as nat)->Ok_0;
        let (id, at_read) = take_int(s, at_last)->Ok_0;
        let read = take_bool(s, at_read)->Ok_0.0;
        lemma_take_pages_sound(s, pos, (count - 1) as nat);
        let pages = before.push((id, read));
        assert(pages.drop_last() =~= before);
        lemma_distinct_push(before, (id, read));
        lemma_int_word(s[at_last], 0);
        lemma_occurs_concat(s, pos, pages_form(before), page_form((id, read)));
    }
}

/// Pages of distinct ids that stand one behind the other at a position are
/// read there.
proof fn lemma_take_pages_complete(s: Seq<u32>, pos: int, pages: Seq<(i32, bool)>)
    requires
        distinct_keys(pages),
        occurs_at(s, pos, pages_form(pages)),
    ensures
        take_pages(s, pos, pages.len()) == Ok::<(Seq<(i32, bool)>, int), DecodeError>(
            (pages, pos + pages_form(pages).len()),
        ),
    decreases pages.len(),
{
    if pages.len() == 0 {
        assert(pages =~= Seq::empty());
    } else {
        let before = pages.drop_last();
        let page = pages.last();
        lemma_occurs_concat(s, pos, pages_form(before), page_form(page));
        lemma_distinct_last(pages);
        lemma_take_pages_complete(s, pos, before);
        let at_last = pos + pages_form(before).len();
        assert(s[at_last + 0] == page_form(page)[0]);
        lemma_int_word(0, page.0);
        assert(before.push(page) =~= pages);
    }
}

/// The binary form of a codex entry: the array of its pages.
pub open spec fn codex_form(codex: PlotCodexView) -> Seq<u32> {
    seq![codex.pages.len() as u32] + pages_form(codex.pages)
}

/// The codex entry at `pos` and the position behind it.
pub open spec fn take_codex(s: Seq<u32>, pos: int) -> Result<(PlotCodexView, int), DecodeError> {
    match take_word(s, pos) {
        Err(e) => Err(e),
        Ok((count, start)) => match take_pages(s, start, count as nat) {
            Err(e) => Err(e),
            Ok((pages, next)) => Ok((PlotCodexView { pages }, next)),
        },
    }
}

/// A codex entry that was read is valid and stands where it was read.
proof fn lemma_take_codex_sound(s: Seq<u32>, pos: int)
    requires
        take_codex(s, pos) is Ok,
    ensures
        ({
            let (codex, next) = take_codex(s, pos)->Ok_0;
            &&& codex.valid()
            &&& next == pos + codex_form(codex).len()
            &&& occurs_at(s, pos, codex_form(codex))
        }),
{
    let codex = take_codex(s, pos)->Ok_0.0;
    let count = s[pos];
    lemma_take_pages_sound(s, pos + 1, count as nat);
    let head = seq![codex.pages.len() as u32];
    lemma_occurs_concat(s, pos, head, pages_form(codex.pages));
}

/// A valid codex entry that stands at a position is read there.
proof fn lemma_take_codex_complete(s: Seq<u32>, pos: int, codex: PlotCodexView)
    requires
        codex.valid(),
        occurs_at(s, pos, codex_form(codex)),
    ensures
        take_codex(s, pos) == Ok::<(PlotCodexView, int), DecodeError>(
            (codex, pos + codex_form(codex).len()),
        ),
{
    let head = seq![codex.pages.len() as u32];
    lemma_occurs_concat(s, pos, head, pages_form(codex.pages));
    assert(s[pos + 0] == head[0]);
    lemma_take_pages_complete(s, pos + 1, codex.pages);
}

/// The binary forms of the codex entries, one behind the other.
pub open spec fn codexes_form(entries: Seq<PlotCodexView>) -> Seq<u32>
    decreases entries.len(),
{
    if entries.len() == 0 {
        Seq::empty()
    } else {
        codexes_form(entries.drop_last()) + codex_form(entries.last())
    }
}

/// The `count` codex entries that stand one behind the other from `pos` on,
/// and the position behind the last.
pub open spec fn take_codexes(s: Seq<u32>, pos: int, count: nat) -> Result<
    (Seq<PlotCodexView>, int),
    DecodeError,
>
    decreases count,
{
    if count == 0 {
        Ok((Seq::empty(), pos))
    } else {
        match take_codexes(s, pos, (count - 1) as nat) {
            Err(e) => Err(e),
            Ok((entries, at_last)) => match take_codex(s, at_last) {
                Err(e) => Err(e),
                Ok((codex, next)) => Ok((entries.push(codex), next)),
            },
        }
    }
}

/// Reading more codex entries does not mend an error among the first.
pub(crate) proof fn lemma_take_codexes_err(s: Seq<u32>, pos: int, done: nat, count: nat)
    requires
        done <= count,
        take_codexes(s, pos, done) is Err,
    ensures
        take_codexes(s, pos, count) == take_codexes(s, pos, done),
    decreases count,
{
    if done < count {
        lemma_take_codexes_err(s, pos, done, (count - 1) as nat);
    }
}

/// Codex entries that were read are valid and stand where they were read.
proof fn lemma_take_codexes_sound(s: Seq<u32>, pos: int, count: nat)
    requires
        0 <= pos <= s.len(),
        take_codexes(s, pos, count) is Ok,
    ensures
        ({
            let (entries, next) = take_codexes(s, pos, count)->Ok_0;
            &&& entries.len() == count
            &&& forall|i: int| 0 <= i < entries.len() ==> (#[trigger] entries[i]).valid()
            &&& next == pos + codexes_form(entries).len()
            &&& occurs_at(s, pos, codexes_form(entries))
        }),
    decreases count,
{
    if count > 0 {
        let (before, at_last) = take_codexes(s, pos, (count - 1) as nat)->Ok_0;
        let codex = take_codex(s, at_last)->Ok_0.0;
        lemma_take_codexes_sound(s, pos, (count - 1) as nat);
        lemma_take_codex_sound(s, at_last);
        let entries = before.push(codex);
        assert(entries.drop_last() =~= before);
        lemma_occurs_concat(s, pos, codexes_form(before), codex_form(codex));
    }
}

/// Valid codex entries that stand one behind the other at a position are
/// read there.
proof fn lemma_take_codexes_complete(s: Seq<u32>, pos: int, entries: Seq<PlotCodexView>)
    requires
        forall|i: int| 0 <= i < entries.len() ==> (#[trigger] entries[i]).valid(),
        occurs_at(s, pos, codexes_form(entries)),
    ensures
        take_codexes(s, pos, entries.len()) == Ok::<(Seq<PlotCodexView>, int), DecodeError>(
            (entries, pos + codexes_form(entries).len()),
        ),
    decreases entries.len(),
{
    if entries.len() == 0 {
        assert(entries =~= Seq::empty());
    } else {
        let before = entries.drop_last();
        lemma_occurs_concat(s, pos, codexes_form(before), codex_form(entries.last()));
        lemma_take_codexes_complete(s, pos, before);
        lemma_take_codex_complete(s, pos + codexes_form(before).len(), entries.last());
        assert(before.push(entries.last()) =~= entries);
    }
}

/// The binary form of the quests with their count in front.
pub open spec fn quest_array_form(quests: Seq<PlotQuestView>) -> Seq<u32> {
    seq![quests.len() as u32] + quests_form(quests)
}

/// The binary form of the codex entries with their count in front.
pub open spec fn codex_array_form(entries: Seq<PlotCodexView>) -> Seq<u32> {
    seq![entries.len() as u32] + codexes_form(entries)
}

/// The binary form of a journal: the quest counter, the quests, their ids,
/// the codex entries, their ids.
pub open spec fn journal_form(journal: PlotJournalView) -> Seq<u32> {
    seq![int_to_word(journal.quest_progress_counter)] + quest_array_form(journal.quest_progress)
        + ints_form(journal.quest_ids) + codex_array_form(journal.codex_entries) + ints_form(
        journal.codex_ids,
    )
}

/// The array of quests at `pos` and the position behind it.
pub open spec fn take_quest_array(s: Seq<u32>, pos: int) -> Result<
    (Seq<PlotQuestView>, int),
    DecodeError,
> {
    match take_word(s, pos) {
        Err(e) => Err(e),
        Ok((count, start)) => take_quests(s, start, count as nat),
    }
}

/// The array of codex entries at `pos` and the position behind it.
pub open spec fn take_codex_array(s: Seq<u32>, pos: int) -> Result<
    (Seq<PlotCodexView>, int),
    DecodeError,
> {
    match take_word(s, pos) {
        Err(e) => Err(e),
        Ok((count, start)) => take_codexes(s, start, count as nat),
    }
}

/// The journal at `pos` and the position behind it. An array of ids that is
/// not as long as the array of its records is an error.
pub open spec fn take_journal(s: Seq<u32>, pos: int) -> Result<
    (PlotJournalView, int),
    DecodeError,
> {
    match take_int(s, pos) {
        Err(e) => Err(e),
        Ok((quest_progress_counter, at_quests)) => match take_quest_array(s, at_quests) {
            Err(e) => Err(e),
            Ok((quest_progress, at_quest_ids)) => match take_ints(s, at_quest_ids) {
                Err(e) => Err(e),
                Ok((quest_ids, at_codex)) => if quest_ids.len() != quest_progress.len() {
                    Err(DecodeError::UnpairedIds)
                } else {
                    match take_codex_array(s, at_codex) {
                        Err(e) => Err(e),
                        Ok((codex_entries, at_codex_ids)) => match take_ints(s, at_codex_ids) {
                            Err(e) => Err(e),
                            Ok((codex_ids, next)) => if codex_ids.len() != codex_entries.len() {
                                Err(DecodeError::UnpairedIds)
                            } else {
                                Ok(
                                    (
                                        PlotJournalView {
                                            quest_progress_counter,
                                            quest_progress,
                                            quest_ids,
                                            codex_entries,
                                            codex_ids,
                                        },
                                        next,
                                    ),
                                )
                            },
                        },
                    }
                },
            },
        },
    }
}

/// A journal that was read is valid and stands where it was read.
pub(crate) proof fn lemma_take_journal_sound(s: Seq<u32>, pos: int)
    requires
        take_journal(s, pos) is Ok,
    ensures
        ({
            let (journal, next) = take_journal(s, pos)->Ok_0;
            &&& journal.valid()
            &&& next == pos + journal_form(journal).len()
            &&& occurs_at(s, pos, journal_form(journal))
        }),
{
    let journal = take_journal(s, pos)->Ok_0.0;
    let counter = seq![int_to_word(journal.quest_progress_counter)];
    let quests = quest_array_form(journal.quest_progress);
    let quest_ids = ints_form(journal.quest_ids);
    let codex = codex_array_form(journal.codex_entries);
    let codex_ids = ints_form(journal.codex_ids);
    lemma_int_word(s[pos], 0);
    let at_quests = pos + 1;
    let quest_count = seq![journal.quest_progress.len() as u32];
    lemma_take_quests_sound(s, at_quests + 1, s[at_quests] as nat);
    lemma_occurs_concat(s, at_quests, quest_count, quests_form(journal.quest_progress));
    let at_quest_ids = at_quests + quests.len();
    lemma_take_ints_sound(s, at_quest_ids);
    let at_codex = at_quest_ids + quest_ids.len();
    let codex_count = seq![journal.codex_entries.len() as u32];
    lemma_take_codexes_sound(s, at_codex + 1, s[at_codex] as nat);
    lemma_occurs_concat(s, at_codex, codex_count, codexes_form(journal.codex_entries));
    let at_codex_ids = at_codex + codex.len();
    lemma_take_ints_sound(s, at_codex_ids);
    lemma_occurs_concat(s, pos, counter, quests);
    lemma_occurs_concat(s, pos, counter + quests, quest_ids);
    lemma_occurs_concat(s, pos, counter + quests + quest_ids, codex);
    lemma_occurs_concat(s, pos, counter + quests + quest_ids + codex, codex_ids);
}

/// A valid journal that stands at a position is read there.
proof fn lemma_take_journal_complete(s: Seq<u32>, pos: int, journal: PlotJournalView)
    requires
        journal.valid(),
        occurs_at(s, pos, journal_form(journal)),
    ensures
        take_journal(s, pos) == Ok::<(PlotJournalView, int), DecodeError>(
            (journal, pos + journal_form(journal).len()),
        ),
{
    let counter = seq![int_to_word(journal.quest_progress_counter)];
    let quests = quest_array_form(journal.quest_progress);
    let quest_ids = ints_form(journal.quest_ids);
    let codex = codex_array_form(journal.codex_entries);
    let codex_ids = ints_form(journal.codex_ids);
    lemma_occurs_concat(s, pos, counter + quests + quest_ids + codex, codex_ids);
    lemma_occurs_concat(s, pos, counter + quests + quest_ids, codex);
    lemma_occurs_concat(s, pos, counter + quests, quest_ids);
    lemma_occurs_concat(s, pos, counter, quests);
    assert(s[pos + 0] == counter[0]);
    lemma_int_word(0, journal.quest_progress_counter);
    let at_quests = pos + 1;
    let quest_count = seq![journal.quest_progress.len() as u32];
    lemma_occurs_concat(s, at_quests, quest_count, quests_form(journal.quest_progress));
    assert(s[at_quests + 0] == quest_count[0]);
    lemma_take_quests_complete(s, at_quests + 1, journal.quest_progress);
    let at_quest_ids = at_quests + quests.len();
    lemma_take_ints_complete(s, at_quest_ids, journal.quest_ids);
    let at_codex = at_quest_ids + quest_ids.len();
    let codex_count = seq![journal.codex_entries.len() as u32];
    lemma_occurs_concat(s, at_codex, codex_count, codexes_form(journal.codex_entries));
    assert(s[at_codex + 0] == codex_count[0]);
    lemma_take_codexes_complete(s, at_codex + 1, journal.codex_entries);
    let at_codex_ids = at_codex + codex.len();
    lemma_take_ints_complete(s, at_codex_ids, journal.codex_ids);
}

/// The flags, integers and floats at `pos`, and the position behind them.
/// More flags than a store can hold are an error.
pub open spec fn take_variables(s: Seq<u32>, pos: int) -> Result<
    (Me1PlotTableView, int),
    DecodeError,
> {
    match take_words(s, pos) {
        Err(e) => Err(e),
        Ok((booleans, at_integers)) => if booleans.len() > BoolVec::max_words() {
            Err(DecodeError::TooLarge)
        } else {
            match take_ints(s, at_integers) {
                Err(e) => Err(e),
                Ok((integers, at_floats)) => match take_words(s, at_floats) {
                    Err(e) => Err(e),
                    Ok((floats, next)) => Ok(
                        (Me1PlotTableView { booleans, integers, floats }, next),
                    ),
                },
            }
        },
    }
}

/// The binary form of the first game's table: the words of the flags, the
/// integers, the bit patterns of the floats, each as an array.
pub open spec fn variables_form(table: Me1PlotTableView) -> Seq<u32> {
    words_form(table.booleans) + ints_form(table.integers) + words_form(table.floats)
}

/// The binary form of a table: the words of the flags, the integers, the bit
/// patterns of the floats, each as an array, and the journal.
pub open spec fn table_form(table: PlotTableView) -> Seq<u32> {
    variables_form(table.variables()) + journal_form(table.journal)
}

/// The table at `pos` and the position behind it.
pub open spec fn take_table(s: Seq<u32>, pos: int) -> Result<(PlotTableView, int), DecodeError> {
    match take_variables(s, pos) {
        Err(e) => Err(e),
        Ok((variables, at_journal)) => match take_journal(s, at_journal) {
            Err(e) => Err(e),
            Ok((journal, next)) => Ok(
                (
                    PlotTableView {
                        booleans: variables.booleans,
                        integers: variables.integers,
                        floats: variables.floats,
                        journal,
                    },
                    next,
                ),
            ),
        },
    }
}

/// Variables that were read are valid and stand where they were read.
pub(crate) proof fn lemma_take_variables_sound(s: Seq<u32>, pos: int)
    requires
        take_variables(s, pos) is Ok,
    ensures
        ({
            let (table, next) = take_variables(s, pos)->Ok_0;
            &&& table.valid()
            &&& next == pos + variables_form(table).len()
            &&& occurs_at(s, pos, variables_form(table))
        }),
{
    let table = take_variables(s, pos)->Ok_0.0;
    let booleans = words_form(table.booleans);
    let integers = ints_form(table.integers);
    let floats = words_form(table.floats);
    lemma_take_words_sound(s, pos);
    lemma_take_ints_sound(s, pos + booleans.len());
    lemma_take_words_sound(s, pos + booleans.len() + integers.len());
    lemma_occurs_concat(s, pos, booleans, integers);
    lemma_occurs_concat(s, pos, booleans + integers, floats);
}

/// Valid variables that stand at a position are read there.
proof fn lemma_take_variables_complete(s: Seq<u32>, pos: int, table: Me1PlotTableView)
    requires
        table.valid(),
        occurs_at(s, pos, variables_form(table)),
    ensures
        take_variables(s, pos) == Ok::<(Me1PlotTableView, int), DecodeError>(
            (table, pos + variables_form(table).len()),
        ),
{
    let booleans = words_form(table.booleans);
    let integers = ints_form(table.integers);
    let floats = words_form(table.floats);
    lemma_occurs_concat(s, pos, booleans + integers, floats);
    lemma_occurs_concat(s, pos, booleans, integers);
    lemma_take_words_complete(s, pos, table.booleans);
    lemma_take_ints_complete(s, pos + booleans.len(), table.integers);
    lemma_take_words_complete(s, pos + booleans.len() + integers.len(), table.floats);
}

/// A table that was read is valid and stands where it was read.
proof fn lemma_take_table_sound(s: Seq<u32>, pos: int)
    requires
        take_table(s, pos) is Ok,
    ensures
        ({
            let (table, next) = take_table(s, pos)->Ok_0;
            &&& table.valid()
            &&& next == pos + table_form(table).len()
            &&& occurs_at(s, pos, table_form(table))
        }),
{
    let table = take_table(s, pos)->Ok_0.0;
    let (variables, at_journal) = take_variables(s, pos)->Ok_0;
    lemma_take_variables_sound(s, pos);
    lemma_take_journal_sound(s, at_journal);
    lemma_occurs_concat(s, pos, variables_form(variables), journal_form(table.journal));
}

/// A valid table that stands at a position is read there.
proof fn lemma_take_table_complete(s: Seq<u32>, pos: int, table: PlotTableView)
    requires
        table.valid(),
        occurs_at(s, pos, table_form(table)),
    ensures
        take_table(s, pos) == Ok::<(PlotTableView, int), DecodeError>(
            (table, pos + table_form(table).len()),
        ),
{
    let variables = table.variables();
    lemma_occurs_concat(s, pos, variables_form(variables), journal_form(table.journal));
    lemma_take_variables_complete(s, pos, variables);
    lemma_take_journal_complete(s, pos + variables_form(variables).len(), table.journal);
}

/// The table that a byte stream is the binary form of, or what is wrong with
/// the stream. Bytes behind the table are an error.
pub open spec fn parse_table(bytes: Seq<u8>) -> Result<PlotTableView, DecodeError> {
    match take_table(bytes_to_words(bytes), 0) {
        Err(e) => Err(e),
        Ok((table, next)) => if 4 * next == bytes.len() {
            Ok(table)
        } else {
            Err(DecodeError::TrailingData)
        },
    }
}

/// The first game's table that a byte stream is the binary form of, or what
/// is wrong with the stream. Bytes behind the table are an error.
pub open spec fn parse_me1_table(bytes: Seq<u8>) -> Result<Me1PlotTableView, DecodeError> {
    match take_variables(bytes_to_words(bytes), 0) {
        Err(e) => Err(e),
        Ok((table, next)) => if 4 * next == bytes.len() {
            Ok(table)
        } else {
            Err(DecodeError::TrailingData)
        },
    }
}

/// The bytes of a table's binary form.
pub open spec fn table_bytes(table: PlotTableView) -> Seq<u8> {
    words_to_bytes(table_form(table))
}

/// The bytes of the binary form of the first game's table.
pub open spec fn me1_table_bytes(table: Me1PlotTableView) -> Seq<u8> {
    words_to_bytes(variables_form(table))
}

/// A byte stream that is read as a table is the binary form of that table,
/// and the table is valid: writing what was read gives the stream back.
pub proof fn lemma_parse_then_write(bytes: Seq<u8>)
    requires
        parse_table(bytes) is Ok,
    ensures
        parse_table(bytes)->Ok_0.valid(),
        table_bytes(parse_table(bytes)->Ok_0) == bytes,
{
    let words = bytes_to_words(bytes);
    let table = parse_table(bytes)->Ok_0;
    lemma_take_table_sound(words, 0);
    lemma_occurs_whole(words, table_form(table));
    lemma_bytes_of_words(bytes);
}

/// The binary form of a valid table is read as that table: reading what was
/// written gives the table back.
pub proof fn lemma_write_then_parse(table: PlotTableView)
    requires
        table.valid(),
    ensures
        parse_table(table_bytes(table)) == Ok::<PlotTableView, DecodeError>(table),
{
    let words = table_form(table);
    lemma_words_of_bytes(words);
    lemma_occurs_subrange(words, 0, words.len() as int);
    lemma_take_table_complete(words, 0, table);
}

/// A byte stream that is read as a table of the first game is the binary
/// form of that table, and the table is valid.
pub proof fn lemma_parse_then_write_me1(bytes: Seq<u8>)
    requires
        parse_me1_table(bytes) is Ok,
    ensures
        parse_me1_table(bytes)->Ok_0.valid(),
        me1_table_bytes(parse_me1_table(bytes)->Ok_0) == bytes,
{
    let words = bytes_to_words(bytes);
    let table = parse_me1_table(bytes)->Ok_0;
    lemma_take_variables_sound(words, 0);
    lemma_occurs_whole(words, variables_form(table));
    lemma_bytes_of_words(bytes);
}

/// The binary form of a valid table of the first game is read as that table.
pub proof fn lemma_write_then_parse_me1(table: Me1PlotTableView)
    requires
        table.valid(),
    ensures
        parse_me1_table(me1_table_bytes(table)) == Ok::<Me1PlotTableView, DecodeError>(table),
{
    let words = variables_form(table);
    lemma_words_of_bytes(words);
    lemma_occurs_subrange(words, 0, words.len() as int);
    lemma_take_variables_complete(words, 0, table);
}

} // verus!
