//! The summary of a log, line by line.

use crate::date::{date_line, has_date, rfc2822_text};
use crate::error::LogError;
use crate::reader::{entry_views, parsed, read_log, EntryView, Log, LogView};
use crate::tally::{elapsed, total_views, totals};
use crate::text::{
    entries_heading, entry_line, format_entry_line, format_label_line, format_total_line,
    label_line, line_views, total_line,
};
use vstd::prelude::*;
use vstd::string::*;

verus! {

/// The timestamps that a summary shows as dates: that of the log's creation
/// and, in a verbose summary, that of each entry, in the order of the
/// entries.
pub open spec fn timestamps_shown(log: LogView, verbose: bool) -> Seq<i64> {
    if verbose {
        seq![log.epoch] + Seq::new(log.entries.len(), |i: int| log.entries[i].timestamp)
    } else {
        seq![log.epoch]
    }
}

/// Whether there is an offset for each timestamp, and each timestamp has a
/// date at its offset.
pub open spec fn all_dated(timestamps: Seq<i64>, offsets: Seq<i32>) -> bool {
    &&& offsets.len() == timestamps.len()
    &&& forall|i: int| 0 <= i < timestamps.len() ==> has_date(#[trigger] timestamps[i], offsets[i])
}

/// The dates of a list of timestamps, each at its own offset.
pub open spec fn dates_of(timestamps: Seq<i64>, offsets: Seq<i32>) -> Seq<Seq<char>> {
    Seq::new(timestamps.len(), |i: int| rfc2822_text(timestamps[i], offsets[i]))
}

/// The lines that show the entries: each with its date, `dates[0]` being that
/// of the log's creation and `dates[i + 1]` that of entry `i`.
pub open spec fn entry_lines(entries: Seq<EntryView>, dates: Seq<Seq<char>>) -> Seq<Seq<char>> {
    Seq::new(entries.len(), |i: int| entry_line(dates[i + 1], entries[i].label))
}

/// The lines that show the totals: one for each label, in the order in which
/// the labels first occur.
pub open spec fn label_lines(log: LogView) -> Seq<Seq<char>> {
    Seq::new(
        totals(log.epoch, log.entries).len(),
        |i: int|
            label_line(
                totals(log.epoch, log.entries)[i].label,
                totals(log.epoch, log.entries)[i].seconds,
                elapsed(log.epoch, log.entries),
            ),
    )
}

/// The summary of a log, given the dates to show: the date of creation; in a
/// verbose summary a heading and the entries, each with its date; the time
/// that the log spans; the time booked on each label.
pub open spec fn summary(log: LogView, dates: Seq<Seq<char>>, verbose: bool) -> Seq<Seq<char>> {
    seq![dates[0]] + if verbose {
        seq![entries_heading()] + entry_lines(log.entries, dates)
    } else {
        Seq::empty()
    } + seq![total_line(elapsed(log.epoch, log.entries))] + label_lines(log)
}

/// What summarizing makes of a log that was read, given the offset from UTC
/// at which each timestamp is to be shown: the summary with each timestamp's
/// own date, or `LogError::Date` where an offset is missing or a timestamp
/// has no date at its offset.
pub open spec fn summarized(log: LogView, offsets: Seq<i32>, verbose: bool) -> Result<
    Seq<Seq<char>>,
    LogError,
> {
    if all_dated(timestamps_shown(log, verbose), offsets) {
        Ok(summary(log, dates_of(timestamps_shown(log, verbose), offsets), verbose))
    } else {
        Err(LogError::Date)
    }
}

/// Lists the timestamps that a summary shows as dates: that of the log's
/// creation and, in a verbose summary, that of each entry.
pub fn shown_timestamps(log: &Log, verbose: bool) -> (timestamps: Vec<i64>)
    ensures
        timestamps@ == timestamps_shown(log@, verbose),
{
    let mut timestamps: Vec<i64> = Vec::new();
    timestamps.push(log.epoch());
    if verbose {
        let entries = log.entries();
        let mut at: usize = 0;
        while at < entries.len()
            invariant
                at <= entries.len(),
                entry_views(entries@) == log@.entries,
                timestamps@ == seq![log@.epoch] + Seq::new(
                    at as nat,
                    |i: int| log@.entries[i].timestamp,
                ),
            decreases entries.len() - at,
        {
            let ghost before = timestamps@;
            assert(entry_views(entries@)[at as int] == entries[at as int]@);
            timestamps.push(entries[at].timestamp);
            at = at + 1;
            assert(timestamps@ =~= seq![log@.epoch] + Seq::new(
                at as nat,
                |i: int| log@.entries[i].timestamp,
            ));
        }
    }
    assert(timestamps@ =~= timestamps_shown(log@, verbose));
    timestamps
}

/// Writes the dates of a list of timestamps, each at its own offset, or
/// nothing where an offset is missing or a timestamp has no date.
fn date_lines(timestamps: &Vec<i64>, offsets: &Vec<i32>) -> (dates: Option<Vec<String>>)
    ensures
        dates is Some <==> all_dated(timestamps@, offsets@),
        dates is Some ==> line_views(dates->0@) == dates_of(timestamps@, offsets@),
{
    if offsets.len() != timestamps.len() {
        return None;
    }
    let mut dates: Vec<String> = Vec::new();
    let mut at: usize = 0;
    while at < timestamps.len()
        invariant
            at <= timestamps.len(),
            offsets.len() == timestamps.len(),
            forall|i: int| 0 <= i < at ==> has_date(#[trigger] timestamps[i], offsets[i]),
            line_views(dates@) == dates_of(timestamps@, offsets@).take(at as int),
        decreases timestamps.len() - at,
    {
        let ghost before = line_views(dates@);
        match date_line(timestamps[at], offsets[at]) {
            None => {
                assert(!has_date(timestamps[at as int], offsets[at as int]));
                return None;
            },
            Some(date) => {
                dates.push(date);
            },
        }
        at = at + 1;
        assert(line_views(dates@) =~= dates_of(timestamps@, offsets@).take(at as int)) by {
            assert(line_views(dates@) =~= before.push(dates@[at - 1]@));
        }
    }
    assert(dates_of(timestamps@, offsets@).take(at as int) =~= dates_of(timestamps@, offsets@));
    Some(dates)
}

/// Writes the summary of a log. `offsets` gives, for each of
/// `shown_timestamps`, the seconds east of UTC at which it is to be shown.
/// Each date line shows its own timestamp: the first that of the log's
/// creation, the line of an entry that of the entry. Where an offset is
/// missing or a timestamp has no date at its offset, the log is refused with
/// `LogError::Date`.
pub fn summary_lines(log: &Log, offsets: &Vec<i32>, verbose: bool) -> (lines: Result<
    Vec<String>,
    LogError,
>)
    ensures
        match summarized(log@, offsets@, verbose) {
            Ok(text) => lines is Ok && line_views(lines->Ok_0@) == text,
            Err(error) => lines is Err && lines->Err_0 == error,
        },
{
    let timestamps = shown_timestamps(log, verbose);
    let dates = match date_lines(&timestamps, offsets) {
        None => {
            return Err(LogError::Date);
        },
        Some(dates) => dates,
    };
    let ghost shown = line_views(dates@);
    let entries = log.entries();
    let ghost views = entry_views(entries@);
    assert(shown.len() == timestamps.len());
    let mut lines: Vec<String> = Vec::new();
    lines.push(dates[0].clone());
    assert(shown[0] == dates[0]@);
    if verbose {
        lines.push(String::from_str("Entries:"));
        let mut at: usize = 0;
        while at < entries.len()
            invariant
                views == entry_views(entries@),
                views == log@.entries,
                at <= entries.len(),
                shown == line_views(dates@),
                dates.len() == 1 + entries.len(),
                line_views(lines@) == seq![shown[0]] + seq![entries_heading()] + entry_lines(
                    views,
                    shown,
                ).take(at as int),
            decreases entries.len() - at,
        {
            let ghost before = line_views(lines@);
            let entry = &entries[at];
            assert(views[at as int] == entry@);
            assert(shown[at + 1] == dates[at + 1]@);
            lines.push(format_entry_line(dates[at + 1].as_str(), entry.label.as_str()));
            at = at + 1;
            assert(line_views(lines@) =~= seq![shown[0]] + seq![entries_heading()] + entry_lines(
                views,
                shown,
            ).take(at as int)) by {
                assert(line_views(lines@) =~= before.push(lines@[lines@.len() - 1]@));
            }
        }
        assert(entry_lines(views, shown).take(at as int) =~= entry_lines(views, shown));
    }
    let ghost head = line_views(lines@);
    let span: i128 = log.elapsed();
    lines.push(format_total_line(span));
    let rows = log.totals();
    let ghost middle = line_views(lines@);
    assert(middle =~= head.push(total_line(span as int)));
    let mut at: usize = 0;
    while at < rows.len()
        invariant
            at <= rows.len(),
            total_views(rows@) == totals(log@.epoch, log@.entries),
            span == elapsed(log@.epoch, log@.entries),
            line_views(lines@) == middle + label_lines(log@).take(at as int),
        decreases rows.len() - at,
    {
        let ghost before = line_views(lines@);
        let row = &rows[at];
        assert(total_views(rows@)[at as int] == row@);
        lines.push(format_label_line(row.label.as_str(), row.seconds, span));
        at = at + 1;
        assert(line_views(lines@) =~= middle + label_lines(log@).take(at as int)) by {
            assert(line_views(lines@) =~= before.push(lines@[lines@.len() - 1]@));
            assert(label_lines(log@).take(at as int) =~= label_lines(log@).take(at - 1).push(
                label_lines(log@)[at - 1],
            ));
        }
    }
    proof {
        assert(total_views(rows@).len() == rows.len());
        assert(label_lines(log@).take(at as int) =~= label_lines(log@));
        assert(line_views(lines@) =~= summary(log@, shown, verbose));
    }
    Ok(lines)
}

/// Reads a log from the bytes of a file and writes its summary, each
/// timestamp shown at its offset from UTC. What `read_log` refuses is refused
/// here with the same error; after that, what `summary_lines` refuses.
pub fn summarize_file(file: &[u8], offsets: &Vec<i32>, verbose: bool) -> (lines: Result<
    Vec<String>,
    LogError,
>)
    ensures
        match parsed(file@) {
            Err(error) => lines is Err && lines->Err_0 == error,
            Ok(log) => match summarized(log, offsets@, verbose) {
                Ok(text) => lines is Ok && line_views(lines->Ok_0@) == text,
                Err(error) => lines is Err && lines->Err_0 == error,
            },
        },
        file@.len() < 8 ==> lines is Err && lines->Err_0 == LogError::Io,
{
    match read_log(file) {
        Err(error) => Err(error),
        Ok(log) => summary_lines(&log, offsets, verbose),
    }
}

} // verus!
