use daysum::word::{get_word, put_word, timestamp_to_word, word_to_timestamp};
use daysum::{insert_label, new_file, read_log, LogError};

#[test]
fn new_file_is_the_creation_time_least_significant_byte_first() {
    assert_eq!(new_file(0), vec![0u8; 8]);
    assert_eq!(new_file(1), vec![1, 0, 0, 0, 0, 0, 0, 0]);
    assert_eq!(new_file(0x0102_0304_0506_0708), vec![8, 7, 6, 5, 4, 3, 2, 1]);
    assert_eq!(new_file(3600), vec![0x10, 0x0e, 0, 0, 0, 0, 0, 0]);
}

#[test]
fn new_file_matches_the_bytes_of_the_machine_on_little_endian() {
    for time in [0i64, 1, -1, 1_600_000_000, i64::MAX, i64::MIN] {
        assert_eq!(new_file(time), time.to_le_bytes().to_vec());
    }
}

#[test]
fn negative_timestamps_are_twos_complement() {
    assert_eq!(new_file(-1), vec![0xff; 8]);
    assert_eq!(new_file(-2), vec![0xfe, 0xff, 0xff, 0xff, 0xff, 0xff, 0xff, 0xff]);
    assert_eq!(new_file(i64::MIN), vec![0, 0, 0, 0, 0, 0, 0, 0x80]);
    assert_eq!(new_file(i64::MAX), vec![0xff, 0xff, 0xff, 0xff, 0xff, 0xff, 0xff, 0x7f]);
}

#[test]
fn words_round_trip() {
    for value in [0u64, 1, 255, 256, 0xdead_beef, u64::MAX, 1 << 63] {
        let mut bytes = vec![9u8, 9];
        put_word(&mut bytes, value);
        assert_eq!(bytes.len(), 10);
        assert_eq!(&bytes[2..], &value.to_le_bytes());
        assert_eq!(get_word(&bytes, 2), value);
    }
}

#[test]
fn timestamps_round_trip_through_words() {
    for time in [0i64, 1, -1, 42, -42, i64::MAX, i64::MIN] {
        assert_eq!(timestamp_to_word(time), time as u64);
        assert_eq!(word_to_timestamp(time as u64), time);
    }
}

#[test]
fn a_record_is_timestamp_length_label() {
    let mut file = new_file(10);
    assert_eq!(insert_label(&mut file, "work", 20), Ok(()));
    let mut expected = vec![10u8, 0, 0, 0, 0, 0, 0, 0];
    expected.extend_from_slice(&[20, 0, 0, 0, 0, 0, 0, 0]);
    expected.extend_from_slice(&[4, 0, 0, 0, 0, 0, 0, 0]);
    expected.extend_from_slice(b"work");
    assert_eq!(file, expected);
}

#[test]
fn a_label_is_stored_as_utf8() {
    let mut file = new_file(0);
    assert_eq!(insert_label(&mut file, "caf\u{e9} \u{1f600}", 5), Ok(()));
    assert_eq!(file.len(), 8 + 16 + 10);
    assert_eq!(&file[16..24], &[10, 0, 0, 0, 0, 0, 0, 0]);
    assert_eq!(&file[24..], "caf\u{e9} \u{1f600}".as_bytes());
    let log = read_log(&file).ok().unwrap();
    assert_eq!(log.entries()[0].label, "caf\u{e9} \u{1f600}");
}

#[test]
fn an_empty_label_is_a_record_of_sixteen_bytes() {
    let mut file = new_file(0);
    assert_eq!(insert_label(&mut file, "", 1), Ok(()));
    assert_eq!(file.len(), 24);
    let log = read_log(&file).ok().unwrap();
    assert_eq!(log.entries().len(), 1);
    assert_eq!(log.entries()[0].label, "");
    assert_eq!(log.entries()[0].timestamp, 1);
}

#[test]
fn reading_gives_the_creation_time_and_the_entries() {
    let mut file = new_file(-5);
    insert_label(&mut file, "a", 7).unwrap();
    insert_label(&mut file, "b", 9).unwrap();
    let log = read_log(&file).ok().unwrap();
    assert_eq!(log.epoch(), -5);
    let entries: Vec<(i64, &str)> =
        log.entries().iter().map(|e| (e.timestamp, e.label.as_str())).collect();
    assert_eq!(entries, vec![(7, "a"), (9, "b")]);
}

#[test]
fn reading_stops_at_fewer_than_eight_bytes() {
    let mut file = new_file(0);
    insert_label(&mut file, "a", 7).unwrap();
    file.extend_from_slice(&[1, 2, 3]);
    let log = read_log(&file).ok().unwrap();
    assert_eq!(log.entries().len(), 1);
}

#[test]
fn reading_refuses_a_length_that_is_cut_short() {
    let mut file = new_file(0);
    file.extend_from_slice(&[5, 0, 0, 0, 0, 0, 0, 0]);
    file.extend_from_slice(&[1, 0, 0]);
    assert_eq!(read_log(&file).err(), Some(LogError::Io));
}

#[test]
fn reading_refuses_a_label_that_is_cut_short() {
    let mut file = new_file(0);
    file.extend_from_slice(&[5, 0, 0, 0, 0, 0, 0, 0]);
    file.extend_from_slice(&[4, 0, 0, 0, 0, 0, 0, 0]);
    file.extend_from_slice(b"abc");
    assert_eq!(read_log(&file).err(), Some(LogError::Io));
    file.push(b'd');
    assert!(read_log(&file).is_ok());
}

#[test]
fn reading_refuses_a_length_beyond_the_file() {
    let mut file = new_file(0);
    file.extend_from_slice(&[5, 0, 0, 0, 0, 0, 0, 0]);
    file.extend_from_slice(&[0xff; 8]);
    file.extend_from_slice(b"abc");
    assert_eq!(read_log(&file).err(), Some(LogError::Io));
}

#[test]
fn reading_refuses_a_label_that_is_not_utf8() {
    let mut file = new_file(0);
    file.extend_from_slice(&[5, 0, 0, 0, 0, 0, 0, 0]);
    file.extend_from_slice(&[2, 0, 0, 0, 0, 0, 0, 0]);
    file.extend_from_slice(&[0xc3, 0x28]);
    assert_eq!(read_log(&file).err(), Some(LogError::Format));
}

#[test]
fn of_two_faults_the_first_in_the_file_counts() {
    let mut file = new_file(0);
    file.extend_from_slice(&[5, 0, 0, 0, 0, 0, 0, 0]);
    file.extend_from_slice(&[1, 0, 0, 0, 0, 0, 0, 0]);
    file.push(0xff);
    file.extend_from_slice(&[6, 0, 0, 0, 0, 0, 0, 0]);
    file.extend_from_slice(&[1, 0]);
    assert_eq!(read_log(&file).err(), Some(LogError::Format));

    let mut file = new_file(0);
    file.extend_from_slice(&[5, 0, 0, 0, 0, 0, 0, 0]);
    file.extend_from_slice(&[1, 0, 0, 0, 0, 0, 0, 0]);
    file.push(b'a');
    file.extend_from_slice(&[6, 0, 0, 0, 0, 0, 0, 0]);
    file.extend_from_slice(&[1, 0]);
    assert_eq!(read_log(&file).err(), Some(LogError::Io));
}

#[test]
fn a_file_of_fewer_than_eight_bytes_is_no_log() {
    for len in 0..8usize {
        let file = vec![0u8; len];
        assert_eq!(read_log(&file).err(), Some(LogError::Io));
    }
    assert!(read_log(&[0u8; 8]).is_ok());
}

#[test]
fn errors_tell_what_went_wrong() {
    assert_eq!(LogError::Validation.message(), "timestamp not after epoch");
    assert_eq!(LogError::Io.message(), "log ends inside a record");
    assert_eq!(LogError::Format.message(), "label is not valid UTF-8");
    assert_eq!(LogError::Date.message(), "timestamp cannot be shown as a date");
}
