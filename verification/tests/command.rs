use daysum::{parse_command, Command};

fn words(list: &[&str]) -> Vec<String> {
    list.iter().map(|w| w.to_string()).collect()
}

#[test]
fn help_alone_asks_for_the_usage() {
    assert!(matches!(parse_command(&words(&["--help"])), Command::Help));
}

#[test]
fn too_few_or_too_many_words_are_invalid() {
    assert!(matches!(parse_command(&words(&[])), Command::Invalid));
    assert!(matches!(parse_command(&words(&["file"])), Command::Invalid));
    assert!(matches!(parse_command(&words(&["--sum"])), Command::Invalid));
    assert!(matches!(parse_command(&words(&["a", "b", "c", "d"])), Command::Invalid));
}

#[test]
fn new_takes_a_path_and_perhaps_a_date() {
    match parse_command(&words(&["--new", "log"])) {
        Command::New { path, date } => {
            assert_eq!(path, "log");
            assert_eq!(date, None);
        }
        _ => panic!("not a new log"),
    }
    match parse_command(&words(&["--new", "log", "01.02.2020 10:30"])) {
        Command::New { path, date } => {
            assert_eq!(path, "log");
            assert_eq!(date, Some("01.02.2020 10:30".to_string()));
        }
        _ => panic!("not a new log"),
    }
}

#[test]
fn sum_and_sumv_take_a_path() {
    match parse_command(&words(&["--sum", "log"])) {
        Command::Summarize { path, verbose } => {
            assert_eq!(path, "log");
            assert!(!verbose);
        }
        _ => panic!("not a summary"),
    }
    match parse_command(&words(&["--sumv", "log"])) {
        Command::Summarize { path, verbose } => {
            assert_eq!(path, "log");
            assert!(verbose);
        }
        _ => panic!("not a summary"),
    }
}

#[test]
fn anything_else_inserts() {
    match parse_command(&words(&["log", "work"])) {
        Command::Insert { path, label, date } => {
            assert_eq!((path.as_str(), label.as_str()), ("log", "work"));
            assert_eq!(date, None);
        }
        _ => panic!("not an insert"),
    }
    match parse_command(&words(&["log", "work", "01.02.2020 10:30"])) {
        Command::Insert { path, label, date } => {
            assert_eq!((path.as_str(), label.as_str()), ("log", "work"));
            assert_eq!(date, Some("01.02.2020 10:30".to_string()));
        }
        _ => panic!("not an insert"),
    }
    match parse_command(&words(&["--sum", "log", "extra"])) {
        Command::Insert { path, label, date } => {
            assert_eq!((path.as_str(), label.as_str()), ("--sum", "log"));
            assert_eq!(date, Some("extra".to_string()));
        }
        _ => panic!("not an insert"),
    }
    match parse_command(&words(&["--help", "log"])) {
        Command::Insert { path, label, .. } => {
            assert_eq!((path.as_str(), label.as_str()), ("--help", "log"));
        }
        _ => panic!("not an insert"),
    }
}
