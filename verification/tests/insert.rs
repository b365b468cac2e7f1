use daysum::{insert_label, new_file, read_log, LogError};

fn entries_of(file: &[u8]) -> Vec<(i64, String)> {
    let log = read_log(file).ok().unwrap();
    log.entries().iter().map(|e| (e.timestamp, e.label.clone())).collect()
}

fn timestamps_of(file: &[u8]) -> Vec<i64> {
    entries_of(file).into_iter().map(|(t, _)| t).collect()
}

#[test]
fn entries_stay_in_order_whatever_the_order_of_inserts() {
    let orders: [[i64; 5]; 4] =
        [[1, 2, 3, 4, 5], [5, 4, 3, 2, 1], [3, 1, 5, 2, 4], [2, 2, 1, 3, 1]];
    for order in orders {
        let mut file = new_file(0);
        for (i, t) in order.iter().enumerate() {
            assert_eq!(insert_label(&mut file, &format!("l{}", i), *t), Ok(()));
        }
        let times = timestamps_of(&file);
        let mut sorted = order.to_vec();
        sorted.sort();
        assert_eq!(times, sorted);
    }
}

#[test]
fn many_inserts_keep_every_entry() {
    let mut file = new_file(100);
    let mut next: u64 = 12345;
    let mut expected: Vec<i64> = Vec::new();
    for i in 0..200 {
        next = next.wrapping_mul(6364136223846793005).wrapping_add(1442695040888963407);
        let t = 101 + ((next >> 33) % 50) as i64;
        expected.push(t);
        assert_eq!(insert_label(&mut file, &format!("label {}", i), t), Ok(()));
    }
    expected.sort();
    assert_eq!(timestamps_of(&file), expected);
}

#[test]
fn equal_timestamp_goes_in_front_of_the_existing_entry() {
    let mut file = new_file(0);
    assert_eq!(insert_label(&mut file, "A", 100), Ok(()));
    assert_eq!(insert_label(&mut file, "B", 100), Ok(()));
    assert_eq!(
        entries_of(&file),
        vec![(100, "B".to_string()), (100, "A".to_string())]
    );
}

#[test]
fn equal_timestamp_goes_in_front_of_the_whole_run() {
    let mut file = new_file(0);
    insert_label(&mut file, "early", 50).unwrap();
    insert_label(&mut file, "A", 100).unwrap();
    insert_label(&mut file, "B", 100).unwrap();
    insert_label(&mut file, "late", 150).unwrap();
    insert_label(&mut file, "C", 100).unwrap();
    let labels: Vec<String> = entries_of(&file).into_iter().map(|(_, l)| l).collect();
    assert_eq!(labels, vec!["early", "C", "B", "A", "late"]);
}

#[test]
fn insert_in_the_middle_keeps_what_lies_behind() {
    let mut file = new_file(0);
    insert_label(&mut file, "first", 10).unwrap();
    insert_label(&mut file, "third", 30).unwrap();
    let before = file.clone();
    insert_label(&mut file, "second", 20).unwrap();
    let at = 8 + 16 + 5;
    assert_eq!(&file[..at], &before[..at]);
    assert_eq!(&file[at + 16 + 6..], &before[at..]);
    assert_eq!(&file[at..at + 8], &20i64.to_le_bytes());
    assert_eq!(&file[at + 8..at + 16], &6u64.to_le_bytes());
    assert_eq!(&file[at + 16..at + 22], b"second");
}

#[test]
fn timestamp_at_the_creation_time_is_refused() {
    let mut file = new_file(1000);
    insert_label(&mut file, "kept", 2000).unwrap();
    let before = file.clone();
    assert_eq!(insert_label(&mut file, "x", 1000), Err(LogError::Validation));
    assert_eq!(file, before);
}

#[test]
fn timestamp_before_the_creation_time_is_refused() {
    let mut file = new_file(1000);
    let before = file.clone();
    assert_eq!(insert_label(&mut file, "x", 999), Err(LogError::Validation));
    assert_eq!(insert_label(&mut file, "x", -1), Err(LogError::Validation));
    assert_eq!(insert_label(&mut file, "x", i64::MIN), Err(LogError::Validation));
    assert_eq!(file, before);
    assert_eq!(insert_label(&mut file, "x", 1001), Ok(()));
}

#[test]
fn negative_creation_time_admits_later_negative_timestamps() {
    let mut file = new_file(-100);
    assert_eq!(insert_label(&mut file, "a", -50), Ok(()));
    assert_eq!(insert_label(&mut file, "b", -99), Ok(()));
    assert_eq!(insert_label(&mut file, "c", -100), Err(LogError::Validation));
    assert_eq!(timestamps_of(&file), vec![-99, -50]);
}

#[test]
fn insert_into_fewer_than_eight_bytes_is_refused() {
    for len in 0..8usize {
        let mut file = vec![0u8; len];
        let before = file.clone();
        assert_eq!(insert_label(&mut file, "x", 5), Err(LogError::Io));
        assert_eq!(file, before);
    }
}

#[test]
fn insert_behind_a_trailing_fragment() {
    let mut file = new_file(0);
    insert_label(&mut file, "a", 10).unwrap();
    file.extend_from_slice(&[7, 7, 7]);
    let before = file.clone();
    assert_eq!(insert_label(&mut file, "b", 20), Ok(()));
    assert_eq!(&file[..before.len()], &before[..]);
    assert_eq!(file.len(), before.len() + 17);
}

#[test]
fn insert_does_not_look_behind_its_place() {
    let mut file = new_file(0);
    insert_label(&mut file, "a", 10).unwrap();
    file.extend_from_slice(&[50, 0, 0, 0, 0, 0, 0, 0]);
    file.extend_from_slice(&[0xff; 8]);
    assert_eq!(insert_label(&mut file, "early", 5), Ok(()));
    assert_eq!(insert_label(&mut file, "tie", 50), Ok(()));
}

#[test]
fn insert_refuses_to_pass_over_a_record_that_is_cut_short() {
    let mut file = new_file(0);
    file.extend_from_slice(&[10, 0, 0, 0, 0, 0, 0, 0]);
    file.extend_from_slice(&[4, 0, 0, 0, 0, 0, 0, 0]);
    file.extend_from_slice(b"ab");
    let before = file.clone();
    assert_eq!(insert_label(&mut file, "x", 20), Err(LogError::Io));
    assert_eq!(file, before);

    let mut file = new_file(0);
    file.extend_from_slice(&[10, 0, 0, 0, 0, 0, 0, 0]);
    file.extend_from_slice(&[4, 0, 0]);
    let before = file.clone();
    assert_eq!(insert_label(&mut file, "x", 20), Err(LogError::Io));
    assert_eq!(file, before);
}
