//! Reading a log: from its bytes to its creation time and its entries.

use crate::error::LogError;
use crate::tally::{elapsed, tally, total_views, totals, LabelTotal, MAX_ENTRIES};
use crate::word::{get_word, length_value, timestamp_value, word_to_timestamp};
use vstd::prelude::*;
use vstd::slice::{slice_subrange, slice_to_vec};
use vstd::utf8::{decode_utf8, valid_utf8};

verus! {

/// One entry of a log: a point in time and the label that was booked at it.
pub struct Entry {
    pub timestamp: i64,
    pub label: String,
}

/// An entry as the contracts see it.
pub struct EntryView {
    pub timestamp: i64,
    pub label: Seq<char>,
}

impl View for Entry {
    type V = EntryView;

    open spec fn view(&self) -> EntryView {
        EntryView { timestamp: self.timestamp, label: self.label@ }
    }
}

/// A log that was read: its creation time and its entries, in the order in
/// which they lie in the file.
pub struct Log {
    epoch: i64,
    entries: Vec<Entry>,
}

/// A log as the contracts see it.
pub struct LogView {
    pub epoch: i64,
    pub entries: Seq<EntryView>,
}

impl View for Log {
    type V = LogView;

    closed spec fn view(&self) -> LogView {
        LogView { epoch: self.epoch, entries: entry_views(self.entries@) }
    }
}

impl Log {
    /// A log holds no more entries than a file has room for.
    #[verifier::type_invariant]
    spec fn fits(self) -> bool {
        self.entries@.len() <= MAX_ENTRIES
    }

    /// The time at which the log was created.
    pub fn epoch(&self) -> (epoch: i64)
        ensures
            epoch == self@.epoch,
    {
        self.epoch
    }

    /// The entries of the log, in the order in which they lie in the file.
    pub fn entries(&self) -> (entries: &Vec<Entry>)
        ensures
            entry_views(entries@) == self@.entries,
    {
        &self.entries
    }

    /// The seconds between the creation of the log and its last entry.
    pub fn elapsed(&self) -> (seconds: i128)
        ensures
            seconds == elapsed(self@.epoch, self@.entries),
    {
        let count: usize = self.entries.len();
        if count == 0 {
            0
        } else {
            assert(self@.entries.last() == self.entries@[count - 1]@);
            self.entries[count - 1].timestamp as i128 - self.epoch as i128
        }
    }

    /// The seconds booked on each label, one row for each label, in the
    /// order in which the labels first occur. Entries with one label are
    /// added up in one row.
    pub fn totals(&self) -> (rows: Vec<LabelTotal>)
        ensures
            total_views(rows@) == totals(self@.epoch, self@.entries),
    {
        proof {
            use_type_invariant(self);
        }
        tally(self.epoch, &self.entries)
    }
}

/// The views of a list of entries.
pub open spec fn entry_views(entries: Seq<Entry>) -> Seq<EntryView> {
    Seq::new(entries.len(), |i: int| entries[i]@)
}

/// The entries that the bytes behind the creation time hold. Fewer than eight
/// bytes where a record would start are the end of the log. A record whose
/// length or label is cut short is refused with `LogError::Io`, a label that
/// is not UTF-8 with `LogError::Format`; of several faults the first in the
/// file counts.
pub open spec fn parsed_entries(records: Seq<u8>) -> Result<Seq<EntryView>, LogError>
    decreases records.len(),
{
    if records.len() < 8 {
        Ok(Seq::empty())
    } else if records.len() < 16 {
        Err(LogError::Io)
    } else {
        let length = length_value(records.skip(8)) as int;
        if records.len() < 16 + length {
            Err(LogError::Io)
        } else {
            let label = records.subrange(16, 16 + length);
            if !valid_utf8(label) {
                Err(LogError::Format)
            } else {
                match parsed_entries(records.skip(16 + length)) {
                    Ok(rest) => Ok(
                        seq![
                            EntryView {
                                timestamp: timestamp_value(records),
                                label: decode_utf8(label),
                            },
                        ] + rest,
                    ),
                    Err(error) => Err(error),
                }
            }
        }
    }
}

/// The log that the bytes of a file hold. Bytes that are too few for a
/// creation time are refused with `LogError::Io`.
pub open spec fn parsed(file: Seq<u8>) -> Result<LogView, LogError> {
    if file.len() < 8 {
        Err(LogError::Io)
    } else {
        match parsed_entries(file.skip(8)) {
            Ok(entries) => Ok(LogView { epoch: timestamp_value(file), entries }),
            Err(error) => Err(error),
        }
    }
}

/// The entries read so far, followed by what the bytes still to be read
/// hold.
spec fn read_on(done: Seq<EntryView>, rest: Result<Seq<EntryView>, LogError>) -> Result<
    Seq<EntryView>,
    LogError,
> {
    match rest {
        Ok(entries) => Ok(done + entries),
        Err(error) => Err(error),
    }
}

/// Reading one more record: what the bytes hold is the record at their start
/// and then what the bytes behind it hold.
proof fn lemma_read_one(done: Seq<EntryView>, records: Seq<u8>, length: int)
    requires
        records.len() >= 16,
        length == length_value(records.skip(8)),
        records.len() >= 16 + length,
        valid_utf8(records.subrange(16, 16 + length)),
    ensures
        read_on(done, parsed_entries(records)) == read_on(
            done.push(
                EntryView {
                    timestamp: timestamp_value(records),
                    label: decode_utf8(records.subrange(16, 16 + length)),
                },
            ),
            parsed_entries(records.skip(16 + length)),
        ),
{
    let entry = EntryView {
        timestamp: timestamp_value(records),
        label: decode_utf8(records.subrange(16, 16 + length)),
    };
    if let Ok(more) = parsed_entries(records.skip(16 + length)) {
        assert(done + (seq![entry] + more) =~= done.push(entry) + more);
    }
}

/// `String::from_utf8` of the standard library: it gives the text that the
/// bytes encode, and gives none exactly where the bytes are not valid UTF-8.
#[verifier::external_body]
fn text_of(bytes: Vec<u8>) -> (text: Option<String>)
    ensures
        text is Some <==> valid_utf8(bytes@),
        text is Some ==> text->0@ == decode_utf8(bytes@),
{
    String::from_utf8(bytes).ok()
}

/// Reads a log from the bytes of a file.
pub fn read_log(file: &[u8]) -> (log: Result<Log, LogError>)
    ensures
        match parsed(file@) {
            Ok(view) => log is Ok && log->Ok_0@ == view,
            Err(error) => log is Err && log->Err_0 == error,
        },
        file@.len() < 8 ==> log is Err && log->Err_0 == LogError::Io,
{
    let len: usize = file.len();
    if len < 8 {
        return Err(LogError::Io);
    }
    let epoch: i64 = word_to_timestamp(get_word(file, 0));
    let mut entries: Vec<Entry> = Vec::new();
    let mut at: usize = 8;
    while len - at >= 8
        invariant
            len == file.len(),
            8 <= at <= len,
            entries.len() * 16 <= at - 8,
            parsed_entries(file@.skip(8)) == read_on(
                entry_views(entries@),
                parsed_entries(file@.skip(at as int)),
            ),
        decreases len - at,
    {
        let ghost rest = file@.skip(at as int);
        let ghost done = entry_views(entries@);
        assert(rest.subrange(0, 8) == file@.subrange(at as int, at + 8));
        let timestamp: i64 = word_to_timestamp(get_word(file, at));
        if len - at < 16 {
            return Err(LogError::Io);
        }
        assert(rest.skip(8).subrange(0, 8) == file@.subrange(at + 8, at + 16));
        let length: u64 = get_word(file, at + 8);
        if length > (len - at - 16) as u64 {
            return Err(LogError::Io);
        }
        let start: usize = at + 16;
        let end: usize = start + length as usize;
        assert(rest.subrange(16, 16 + length) == file@.subrange(start as int, end as int));
        assert(rest.skip(16 + length) == file@.skip(end as int));
        match text_of(slice_to_vec(slice_subrange(file, start, end))) {
            None => {
                return Err(LogError::Format);
            },
            Some(label) => {
                let entry = Entry { timestamp, label };
                entries.push(entry);
                at = end;
                proof {
                    lemma_read_one(done, rest, length as int);
                    assert(entry_views(entries@) =~= done.push(entry@));
                }
            },
        }
    }
    assert(entry_views(entries@) + Seq::<EntryView>::empty() =~= entry_views(entries@));
    Ok(Log { epoch, entries })
}

} // verus!
