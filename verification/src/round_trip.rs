//! What is written is what is read: a log that was made by creating and
//! inserting reads back as the entries that went in, in order of time.

use crate::date::{has_date, rfc2822_text};
use crate::error::LogError;
use crate::ordering::{inserted_all, lemma_inserts_keep_order, lemma_log_parts, with_records};
use crate::reader::{parsed, parsed_entries, EntryView, LogView};
use crate::record::{
    all_after, labels_fit, lemma_record_fields, log_bytes, records_bytes, Record,
};
use crate::report::{
    all_dated, dates_of, label_lines, summarized, summary, timestamps_shown,
};
use crate::tally::{
    elapsed, entries_in_order, gap, label_seconds, labels, lemma_label_seconds_bounds,
    totals,
};
use crate::text::{hours_minutes, percent_tenths, total_line, two_digits};
use crate::word::{lemma_timestamp_round_trip, timestamp_bytes};
use vstd::prelude::*;
use vstd::utf8::{decode_utf8, encode_utf8, valid_utf8};

verus! {

/// The record that holds an entry: the label as UTF-8.
pub open spec fn encoded(entry: EntryView) -> Record {
    Record { timestamp: entry.timestamp, label: encode_utf8(entry.label) }
}

/// The entry that a record holds.
pub open spec fn decoded(record: Record) -> EntryView {
    EntryView { timestamp: record.timestamp, label: decode_utf8(record.label) }
}

/// Every label is valid UTF-8.
pub open spec fn labels_are_text(records: Seq<Record>) -> bool {
    forall|i: int| 0 <= i < records.len() ==> valid_utf8((#[trigger] records[i]).label)
}

/// The bytes of a list of records read back as those records.
pub proof fn lemma_read_records(records: Seq<Record>)
    requires
        labels_fit(records),
        labels_are_text(records),
    ensures
        parsed_entries(records_bytes(records)) == Ok::<Seq<EntryView>, LogError>(
            records.map_values(|record: Record| decoded(record)),
        ),
    decreases records.len(),
{
    let entries = records.map_values(|record: Record| decoded(record));
    if records.len() == 0 {
        assert(entries =~= Seq::<EntryView>::empty());
    } else {
        let first = records[0];
        let rest = records.drop_first();
        lemma_record_fields(first.timestamp, first.label, records_bytes(rest));
        assert(labels_fit(rest) && labels_are_text(rest)) by {
            assert forall|i: int| 0 <= i < rest.len() implies (#[trigger] rest[i]).label.len()
                <= u64::MAX && valid_utf8(rest[i].label) by {
                assert(rest[i] == records[i + 1]);
            }
        }
        lemma_read_records(rest);
        assert(seq![decoded(first)] + rest.map_values(|record: Record| decoded(record))
            =~= entries);
    }
}

/// The bytes of a log read back as that log.
pub proof fn lemma_read_log(epoch: i64, records: Seq<Record>)
    requires
        labels_fit(records),
        labels_are_text(records),
    ensures
        parsed(log_bytes(epoch, records)) == Ok::<LogView, LogError>(
            LogView { epoch, entries: records.map_values(|record: Record| decoded(record)) },
        ),
{
    lemma_log_parts(epoch, records);
    lemma_read_records(records);
}

/// A log that was just created reads back as a log without entries, and its
/// summary is the date of its creation and a total of no time: no label is
/// shown.
pub proof fn lemma_new_log_summary(time: i64, offset: i32)
    requires
        has_date(time, offset),
    ensures
        parsed(timestamp_bytes(time)) == Ok::<LogView, LogError>(
            LogView { epoch: time, entries: Seq::empty() },
        ),
        summarized(LogView { epoch: time, entries: Seq::empty() }, seq![offset], false) == Ok::<
            Seq<Seq<char>>,
            LogError,
        >(seq![rfc2822_text(time, offset), "Total: 00:00h"@]),
        summarized(LogView { epoch: time, entries: Seq::empty() }, seq![offset], true) == Ok::<
            Seq<Seq<char>>,
            LogError,
        >(seq![rfc2822_text(time, offset), "Entries:"@, "Total: 00:00h"@]),
{
    let log = LogView { epoch: time, entries: Seq::empty() };
    let offsets = seq![offset];
    lemma_timestamp_round_trip(time);
    assert(timestamp_bytes(time).subrange(0, 8) =~= timestamp_bytes(time));
    reveal_strlit("Total: 00:00h");
    reveal_strlit("Total: ");
    assert(two_digits(0) =~= seq!['0', '0']);
    assert(hours_minutes(0) =~= seq!['0', '0', ':', '0', '0']);
    assert(total_line(0) =~= "Total: 00:00h"@);
    assert(labels(log.entries) =~= Seq::<Seq<char>>::empty());
    assert(label_lines(log) =~= Seq::<Seq<char>>::empty());
    assert(timestamps_shown(log, false) =~= seq![time]);
    assert(timestamps_shown(log, true) =~= seq![time]);
    let dates = dates_of(seq![time], offsets);
    assert(dates[0] == rfc2822_text(time, offset));
    assert(all_dated(seq![time], offsets));
    assert(summary(log, dates, false) =~= seq![rfc2822_text(time, offset), "Total: 00:00h"@]);
    assert(summary(log, dates, true) =~= seq![
        rfc2822_text(time, offset),
        "Entries:"@,
        "Total: 00:00h"@,
    ]);
}

/// In a log whose entries are in order of time and later than its creation,
/// every label has a share in the whole: no line of its summary shows `NaN`.
pub proof fn lemma_shares_exist(epoch: i64, entries: Seq<EntryView>)
    requires
        entries.len() > 0,
        epoch < entries[0].timestamp,
        entries_in_order(epoch, entries),
    ensures
        forall|i: int|
            0 <= i < totals(epoch, entries).len() ==> percent_tenths(
                (#[trigger] totals(epoch, entries)[i]).seconds,
                elapsed(epoch, entries),
            ) is Some,
{
    assert forall|i: int| 0 <= i < totals(epoch, entries).len() implies percent_tenths(
        (#[trigger] totals(epoch, entries)[i]).seconds,
        elapsed(epoch, entries),
    ) is Some by {
        lemma_label_seconds_bounds(epoch, entries, labels(entries)[i]);
        assert(totals(epoch, entries)[i].seconds == label_seconds(
            epoch,
            entries,
            labels(entries)[i],
        ));
    }
}

/// Whatever entries are inserted into a new log, and in whatever order, as
/// long as each is later than the creation time: the log reads back without
/// fault, it holds exactly the inserted entries, and their timestamps never
/// go down from one entry to the next.
pub proof fn lemma_inserted_entries_read_in_order(epoch: i64, entries: Seq<EntryView>)
    requires
        forall|i: int| 0 <= i < entries.len() ==> epoch < (#[trigger] entries[i]).timestamp,
        forall|i: int|
            0 <= i < entries.len() ==> encode_utf8((#[trigger] entries[i]).label).len()
                <= u64::MAX,
    ensures
        inserted_all(
            timestamp_bytes(epoch),
            entries.map_values(|entry: EntryView| encoded(entry)),
        ) is Ok,
        ({
            let file = inserted_all(
                timestamp_bytes(epoch),
                entries.map_values(|entry: EntryView| encoded(entry)),
            )->Ok_0;
            &&& parsed(file) is Ok
            &&& parsed(file)->Ok_0.epoch == epoch
            &&& parsed(file)->Ok_0.entries.to_multiset() == entries.to_multiset()
            &&& entries_in_order(epoch, parsed(file)->Ok_0.entries)
            &&& forall|i: int, j: int|
                0 <= i <= j < parsed(file)->Ok_0.entries.len() ==> (
                #[trigger] parsed(file)->Ok_0.entries[i]).timestamp <= (
                #[trigger] parsed(file)->Ok_0.entries[j]).timestamp
        }),
{
    broadcast use vstd::utf8::encode_utf8_valid_utf8, vstd::utf8::encode_utf8_decode_utf8;

    let written = entries.map_values(|entry: EntryView| encoded(entry));
    assert(all_after(epoch, written) && labels_fit(written) && labels_are_text(written));
    lemma_inserts_keep_order(epoch, written);
    let records = with_records(written);
    assert(labels_are_text(records)) by {
        assert forall|i: int| 0 <= i < records.len() implies valid_utf8(
            (#[trigger] records[i]).label,
        ) by {
            vstd::seq_lib::to_multiset_contains(records, records[i]);
            vstd::seq_lib::to_multiset_contains(written, records[i]);
            assert(records.contains(records[i]));
            let j = choose|j: int| 0 <= j < written.len() && written[j] == records[i];
            assert(written[j] == encoded(entries[j]));
        }
    }
    lemma_read_log(epoch, records);
    let read = records.map_values(|record: Record| decoded(record));
    lemma_decoded_multiset(entries, written, records);
    assert forall|i: int, j: int| 0 <= i <= j < read.len() implies (#[trigger] read[i]).timestamp
        <= (#[trigger] read[j]).timestamp by {
        assert(records[i].timestamp <= records[j].timestamp);
    }
    assert forall|i: int| 0 <= i < read.len() implies #[trigger] gap(epoch, read, i) >= 0 by {
        if i == 0 {
            assert(epoch < records[0].timestamp);
        } else {
            assert(records[i - 1].timestamp <= records[i].timestamp);
        }
    }
}

/// Records that hold the same as a list of written entries, in some order,
/// read back as those entries, in some order.
proof fn lemma_decoded_multiset(entries: Seq<EntryView>, written: Seq<Record>, records: Seq<Record>)
    requires
        written == entries.map_values(|entry: EntryView| encoded(entry)),
        records.to_multiset() == written.to_multiset(),
    ensures
        records.map_values(|record: Record| decoded(record)).to_multiset()
            == entries.to_multiset(),
{
    broadcast use vstd::utf8::encode_utf8_decode_utf8;

    let back = |record: Record| decoded(record);
    lemma_map_multiset(records, written, back);
    assert(written.map_values(back) =~= entries) by {
        assert forall|i: int| 0 <= i < entries.len() implies written.map_values(back)[i]
            == entries[i] by {
            assert(written[i] == encoded(entries[i]));
            assert(decode_utf8(encode_utf8(entries[i].label)) == entries[i].label);
        }
    }
}

/// Two lists that hold the same, in some order, still do after each item was
/// mapped.
proof fn lemma_map_multiset<A, B>(first: Seq<A>, second: Seq<A>, f: spec_fn(A) -> B)
    requires
        first.to_multiset() == second.to_multiset(),
    ensures
        first.map_values(f).to_multiset() == second.map_values(f).to_multiset(),
    decreases first.len(),
{
    broadcast use vstd::seq_lib::group_to_multiset_ensures;

    vstd::seq_lib::to_multiset_len(first);
    vstd::seq_lib::to_multiset_len(second);
    if first.len() == 0 {
        assert(first.map_values(f) =~= second.map_values(f));
    } else {
        let last = first.last();
        vstd::seq_lib::to_multiset_contains(first, last);
        vstd::seq_lib::to_multiset_contains(second, last);
        assert(first[first.len() - 1] == last);
        assert(second.contains(last));
        let at = choose|at: int| 0 <= at < second.len() && second[at] == last;
        let front = first.drop_last();
        let other = second.remove(at);
        assert(first =~= front.push(last));
        vstd::seq_lib::to_multiset_build(front, last);
        vstd::seq_lib::to_multiset_remove(second, at);
        assert(front.to_multiset() =~= other.to_multiset());
        lemma_map_multiset(front, other, f);
        assert(first.map_values(f) =~= front.map_values(f).push(f(last)));
        vstd::seq_lib::to_multiset_build(front.map_values(f), f(last));
        assert(second.map_values(f).remove(at) =~= other.map_values(f));
        vstd::seq_lib::to_multiset_remove(second.map_values(f), at);
        assert(second.map_values(f).to_multiset() =~= other.map_values(f).to_multiset().insert(
            f(last),
        ));
    }
}

} // verus!
