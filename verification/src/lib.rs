//! A time log kept as a flat byte string.
//!
//! A log starts with one eight-byte word, the time at which it was created,
//! and goes on with records: a timestamp, the length of a label, and the
//! label's UTF-8 bytes. Every integer is stored as eight bytes, least
//! significant byte first, so a log reads the same on every machine.
//!
//! The functions here work on the bytes of a log held in memory. Reading and
//! writing files is left to the caller.

pub mod command;
pub mod date;
pub mod error;
pub mod insert;
pub mod ordering;
pub mod reader;
pub mod record;
pub mod report;
pub mod round_trip;
pub mod tally;
pub mod text;
pub mod word;

pub use command::{parse_command, Command};
pub use date::date_line;
pub use error::LogError;
pub use insert::{insert_label, new_file};
pub use reader::{read_log, Entry, Log};
pub use report::{shown_timestamps, summarize_file, summary_lines};
pub use tally::LabelTotal;
