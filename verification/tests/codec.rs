use trilogy_save_editor::plot::{Me1PlotTable, PlotTable};
use trilogy_save_editor::wire::DecodeError;
use trilogy_save_editor::word::bytes_of_words;

fn sample_words() -> Vec<u32> {
    vec![
        // flags
        2, 0b100_0010, 0x8000_0000,
        // integers
        2, 5, 10,
        // floats
        1, 0x3fc0_0000,
        // quest counter
        7,
        // quests
        2,
        3, 1, 2, 0xffff_ffff, 4,
        0, 0, 0,
        // quest ids
        2, 100, 200,
        // codex entries
        2,
        2, 11, 1, 12, 0,
        0,
        // codex ids
        2, 0xffff_fff6, 20,
    ]
}

#[test]
fn a_table_is_read_field_by_field() {
    let table = PlotTable::decode(&bytes_of_words(&sample_words())).unwrap();
    assert_eq!(table.booleans.encode(), vec![0b100_0010, 0x8000_0000]);
    assert_eq!(table.integers, vec![5, 10]);
    assert_eq!(table.floats, vec![0x3fc0_0000]);
    assert_eq!(f32::from_bits(table.floats[0]), 1.5);
    let journal = &table.journal;
    assert_eq!(journal.quest_progress_counter(), 7);
    assert_eq!(journal.quest_ids(), &vec![100, 200]);
    assert_eq!(journal.codex_ids(), &vec![-10, 20]);
    let quests = journal.quest_progress();
    assert_eq!(quests.len(), 2);
    assert_eq!(quests[0].quest_counter(), 3);
    assert!(quests[0].quest_updated());
    assert_eq!(quests[0].history(), &vec![-1, 4]);
    assert_eq!(quests[1].quest_counter(), 0);
    assert!(!quests[1].quest_updated());
    assert!(quests[1].history().is_empty());
    let codex = journal.codex_entries();
    assert_eq!(codex.len(), 2);
    assert_eq!(codex[0].len(), 2);
    assert_eq!(codex[0].page_at(0), Some((11, true)));
    assert_eq!(codex[0].page_at(1), Some((12, false)));
    assert_eq!(codex[0].page_at(2), None);
    assert_eq!(codex[1].len(), 0);
}

#[test]
fn what_was_read_is_written_back_byte_for_byte() {
    let bytes = bytes_of_words(&sample_words());
    let table = PlotTable::decode(&bytes).unwrap();
    assert_eq!(table.encode(), bytes);
}

#[test]
fn unused_high_bits_are_kept() {
    let words = vec![1, 0xffff_0000, 0, 0, 0, 0, 0, 0, 0];
    let bytes = bytes_of_words(&words);
    assert_eq!(PlotTable::decode(&bytes).unwrap().encode(), bytes);
}

#[test]
fn the_smallest_table_is_eight_zero_words() {
    let bytes = vec![0u8; 32];
    let table = PlotTable::decode(&bytes).unwrap();
    assert!(table.booleans.is_empty());
    assert!(table.integers.is_empty());
    assert!(table.floats.is_empty());
    assert_eq!(table.journal.quest_progress().len(), 0);
    assert_eq!(table.journal.codex_entries().len(), 0);
    assert_eq!(table.encode(), bytes);
}

#[test]
fn a_stream_that_ends_early_is_truncated() {
    let bytes = bytes_of_words(&sample_words());
    for cut in 0..bytes.len() {
        assert_eq!(PlotTable::decode(&bytes[..cut]).err(), Some(DecodeError::Truncated), "cut at {}", cut);
    }
    assert_eq!(PlotTable::decode(&[]).err(), Some(DecodeError::Truncated));
}

#[test]
fn a_count_beyond_the_stream_is_truncated() {
    let words = vec![3, 1, 2];
    assert_eq!(PlotTable::decode(&bytes_of_words(&words)).err(), Some(DecodeError::Truncated));
    let words = vec![0, 0xffff_ffff, 1];
    assert_eq!(PlotTable::decode(&bytes_of_words(&words)).err(), Some(DecodeError::Truncated));
}

#[test]
fn bytes_behind_the_table_are_trailing_data() {
    let mut bytes = bytes_of_words(&sample_words());
    bytes.push(0);
    assert_eq!(PlotTable::decode(&bytes).err(), Some(DecodeError::TrailingData));
    bytes.extend_from_slice(&[0, 0, 0]);
    assert_eq!(PlotTable::decode(&bytes).err(), Some(DecodeError::TrailingData));
}

#[test]
fn a_truth_value_is_zero_or_one() {
    let mut words = sample_words();
    assert_eq!(words[11], 1);
    words[11] = 2;
    assert_eq!(PlotTable::decode(&bytes_of_words(&words)).err(), Some(DecodeError::InvalidBool));
    let mut words = sample_words();
    assert_eq!(words[26], 0);
    words[26] = 0xffff_ffff;
    assert_eq!(PlotTable::decode(&bytes_of_words(&words)).err(), Some(DecodeError::InvalidBool));
}

#[test]
fn a_codex_entry_has_each_page_once() {
    let mut words = sample_words();
    assert_eq!(words[25], 12);
    words[25] = 11;
    assert_eq!(PlotTable::decode(&bytes_of_words(&words)).err(), Some(DecodeError::DuplicatePage));
}

#[test]
fn ids_and_records_pair_up() {
    // one quest, two quest ids
    let words = vec![0, 0, 0, 0, 1, 0, 0, 0, 2, 1, 2, 0, 0];
    assert_eq!(PlotTable::decode(&bytes_of_words(&words)).err(), Some(DecodeError::UnpairedIds));
    // one codex entry, no codex id
    let words = vec![0, 0, 0, 0, 0, 0, 1, 0, 0];
    assert_eq!(PlotTable::decode(&bytes_of_words(&words)).err(), Some(DecodeError::UnpairedIds));
    // paired
    let words = vec![0, 0, 0, 0, 1, 0, 0, 0, 1, 9, 1, 0, 1, 8];
    let table = PlotTable::decode(&bytes_of_words(&words)).unwrap();
    assert_eq!(table.journal.quest_ids().len(), table.journal.quest_progress().len());
    assert_eq!(table.journal.codex_ids().len(), table.journal.codex_entries().len());
}

#[test]
fn the_first_error_in_the_stream_is_reported() {
    // a bad truth value in the first quest, and the stream ends early too
    let words = vec![0, 0, 0, 0, 2, 0, 5, 0];
    assert_eq!(PlotTable::decode(&bytes_of_words(&words)).err(), Some(DecodeError::InvalidBool));
}

#[test]
fn the_first_games_table_is_flags_integers_floats() {
    let words = vec![1, 0b100_0010, 2, 5, 10, 2, 0x3f80_0000, 0xbf80_0000];
    let bytes = bytes_of_words(&words);
    let table = Me1PlotTable::decode(&bytes).unwrap();
    assert_eq!(table.booleans.encode(), vec![0b100_0010]);
    assert_eq!(table.integers, vec![5, 10]);
    assert_eq!(table.floats, vec![0x3f80_0000, 0xbf80_0000]);
    assert_eq!(f32::from_bits(table.floats[1]), -1.0);
    assert_eq!(table.encode(), bytes);
}

#[test]
fn the_first_games_table_fails_as_the_others_do() {
    assert_eq!(Me1PlotTable::decode(&[]).err(), Some(DecodeError::Truncated));
    assert_eq!(Me1PlotTable::decode(&bytes_of_words(&vec![0, 0])).err(), Some(DecodeError::Truncated));
    assert_eq!(Me1PlotTable::decode(&bytes_of_words(&vec![0, 0, 0, 0])).err(), Some(DecodeError::TrailingData));
    assert_eq!(Me1PlotTable::decode(&[0; 13]).err(), Some(DecodeError::TrailingData));
    assert!(Me1PlotTable::decode(&[0; 12]).is_ok());
}

#[test]
fn a_table_that_was_edited_is_written_with_its_edits() {
    let mut table = PlotTable::decode(&bytes_of_words(&sample_words())).unwrap();
    table.booleans.set(0, true).unwrap();
    table.integers[1] = -3;
    let mut words = sample_words();
    words[1] = 0b100_0011;
    words[5] = 0xffff_fffd;
    assert_eq!(table.encode(), bytes_of_words(&words));
}

#[test]
fn every_error_says_what_is_wrong() {
    assert_eq!(DecodeError::Truncated.message(), "the plot table ends before what it declares");
    assert_eq!(DecodeError::TrailingData.message(), "the plot table is followed by more bytes");
    assert_eq!(
        DecodeError::InvalidBool.message(),
        "a truth value of the plot table is neither 0 nor 1"
    );
    assert_eq!(
        DecodeError::DuplicatePage.message(),
        "a codex entry of the plot table has a page twice"
    );
    assert_eq!(DecodeError::UnpairedIds.message(), "the plot table has not one id for each record");
    assert_eq!(
        DecodeError::TooLarge.message(),
        "the plot table has more flags than fit this machine"
    );
}
