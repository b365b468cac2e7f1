//! What inserting does to the records of a log: each new entry lands in front
//! of the first record that is not earlier, so a log that is built by
//! inserting alone is always in order of time.

use crate::error::LogError;
use crate::insert::{inserted, insertion_offset};
use crate::record::{
    all_after, in_order, labels_fit, lemma_record_fields, lemma_records_bytes_join,
    lemma_records_bytes_one, log_bytes, record_bytes, records_bytes, Record,
};
use crate::word::{lemma_timestamp_round_trip, timestamp_bytes, timestamp_value};
use vstd::prelude::*;

verus! {

/// The index in front of which an entry with `timestamp` goes: that of the
/// first record whose timestamp is not smaller, or the number of records where
/// there is none.
pub open spec fn position(records: Seq<Record>, timestamp: i64) -> int
    decreases records.len(),
{
    if records.len() == 0 || records[0].timestamp >= timestamp {
        0
    } else {
        1 + position(records.drop_first(), timestamp)
    }
}

/// The records after `record` has been put in its place.
pub open spec fn with_record(records: Seq<Record>, record: Record) -> Seq<Record> {
    records.insert(position(records, record.timestamp), record)
}

/// The records of a log into which `entries` were inserted one by one,
/// starting from none.
pub open spec fn with_records(entries: Seq<Record>) -> Seq<Record>
    decreases entries.len(),
{
    if entries.len() == 0 {
        Seq::empty()
    } else {
        with_record(with_records(entries.drop_last()), entries.last())
    }
}

/// What inserting `entries` one by one makes of the bytes of a log. The first
/// entry that is refused ends it.
pub open spec fn inserted_all(file: Seq<u8>, entries: Seq<Record>) -> Result<Seq<u8>, LogError>
    decreases entries.len(),
{
    if entries.len() == 0 {
        Ok(file)
    } else {
        match inserted_all(file, entries.drop_last()) {
            Ok(bytes) => inserted(bytes, entries.last().label, entries.last().timestamp),
            Err(error) => Err(error),
        }
    }
}

/// Every record in front of the position is earlier than `timestamp`, and the
/// record at the position, if there is one, is not.
pub proof fn lemma_position(records: Seq<Record>, timestamp: i64)
    ensures
        0 <= position(records, timestamp) <= records.len(),
        forall|i: int|
            0 <= i < position(records, timestamp) ==> (#[trigger] records[i]).timestamp
                < timestamp,
        position(records, timestamp) < records.len() ==> records[position(
            records,
            timestamp,
        )].timestamp >= timestamp,
    decreases records.len(),
{
    if records.len() == 0 || records[0].timestamp >= timestamp {
    } else {
        let rest = records.drop_first();
        lemma_position(rest, timestamp);
        assert forall|i: int| 0 <= i < position(records, timestamp) implies (
        #[trigger] records[i]).timestamp < timestamp by {
            if i > 0 {
                assert(records[i] == rest[i - 1]);
            }
        }
    }
}

/// An entry whose timestamp equals that of a record, and is greater than
/// those of all records before it, goes immediately in front of that record:
/// of two entries with one timestamp, the one inserted later comes first.
pub proof fn lemma_equal_goes_in_front(records: Seq<Record>, at: int, record: Record)
    requires
        0 <= at < records.len(),
        records[at].timestamp == record.timestamp,
        forall|i: int| 0 <= i < at ==> (#[trigger] records[i]).timestamp < record.timestamp,
    ensures
        position(records, record.timestamp) == at,
        with_record(records, record).len() == records.len() + 1,
        with_record(records, record)[at] == record,
        with_record(records, record)[at + 1] == records[at],
        with_record(records, record) == records.insert(at, record),
{
    lemma_position(records, record.timestamp);
    let found = position(records, record.timestamp);
    if found < at {
        assert(records[found].timestamp < record.timestamp);
    }
    if found > at {
        assert(records[at].timestamp < record.timestamp);
    }
}

/// Putting a record in its place keeps the records in order of time, keeps
/// them later than the creation time, and loses none.
pub proof fn lemma_with_record_in_order(epoch: i64, records: Seq<Record>, record: Record)
    requires
        in_order(records),
        all_after(epoch, records),
        epoch < record.timestamp,
    ensures
        in_order(with_record(records, record)),
        all_after(epoch, with_record(records, record)),
        with_record(records, record).to_multiset() == records.to_multiset().insert(record),
        labels_fit(records) && record.label.len() <= u64::MAX ==> labels_fit(
            with_record(records, record),
        ),
{
    lemma_position(records, record.timestamp);
    let at = position(records, record.timestamp);
    let after = with_record(records, record);
    assert forall|i: int, j: int| 0 <= i <= j < after.len() implies (#[trigger] after[i]).timestamp
        <= (#[trigger] after[j]).timestamp by {
        let a = if i < at {
            records[i]
        } else if i == at {
            record
        } else {
            records[i - 1]
        };
        let b = if j < at {
            records[j]
        } else if j == at {
            record
        } else {
            records[j - 1]
        };
        assert(after[i] == a);
        assert(after[j] == b);
        if i < at && j > at {
            assert(records[i].timestamp <= records[j - 1].timestamp);
        }
        if i == at && j > at {
            assert(records[at].timestamp <= records[j - 1].timestamp);
        }
    }
    assert forall|i: int| 0 <= i < after.len() implies epoch < (#[trigger] after[i]).timestamp by {
        if i < at {
            assert(after[i] == records[i]);
        } else if i > at {
            assert(after[i] == records[i - 1]);
        }
    }
    vstd::seq_lib::to_multiset_insert(records, at, record);
    if labels_fit(records) && record.label.len() <= u64::MAX {
        assert forall|i: int| 0 <= i < after.len() implies (#[trigger] after[i]).label.len()
            <= u64::MAX by {
            if i < at {
                assert(after[i] == records[i]);
            } else if i > at {
                assert(after[i] == records[i - 1]);
            }
        }
    }
}

/// In the bytes of a list of records, the place for an entry is where the
/// record at its position starts.
pub proof fn lemma_offset_of_position(records: Seq<Record>, timestamp: i64)
    requires
        labels_fit(records),
    ensures
        insertion_offset(records_bytes(records), timestamp) == Some(
            records_bytes(records.take(position(records, timestamp))).len() as int,
        ),
    decreases records.len(),
{
    let at = position(records, timestamp);
    if records.len() == 0 {
        assert(records.take(at) =~= records);
    } else {
        let first = records[0];
        let rest = records.drop_first();
        lemma_record_fields(first.timestamp, first.label, records_bytes(rest));
        if first.timestamp >= timestamp {
            assert(records.take(0).len() == 0);
        } else {
            assert(labels_fit(rest)) by {
                assert forall|i: int| 0 <= i < rest.len() implies (#[trigger] rest[i]).label.len()
                    <= u64::MAX by {
                    assert(rest[i] == records[i + 1]);
                }
            }
            lemma_offset_of_position(rest, timestamp);
            lemma_position(rest, timestamp);
            let head = records.take(at);
            assert(head[0] == first);
            assert(head.drop_first() =~= rest.take(at - 1));
        }
    }
}

/// The bytes of a log start with its creation time, and what follows are
/// the bytes of its records.
pub proof fn lemma_log_parts(epoch: i64, records: Seq<Record>)
    ensures
        log_bytes(epoch, records).len() == 8 + records_bytes(records).len(),
        timestamp_value(log_bytes(epoch, records)) == epoch,
        log_bytes(epoch, records).take(8) == timestamp_bytes(epoch),
        log_bytes(epoch, records).skip(8) == records_bytes(records),
{
    let file = log_bytes(epoch, records);
    lemma_timestamp_round_trip(epoch);
    assert(file.subrange(0, 8) =~= timestamp_bytes(epoch));
    assert(timestamp_bytes(epoch).subrange(0, 8) =~= timestamp_bytes(epoch));
    assert(file.take(8) =~= timestamp_bytes(epoch));
    assert(file.skip(8) =~= records_bytes(records));
}

/// The bytes of a list of records with one more record put in at `at`: the
/// bytes of the records in front, of the new record, and of the records
/// behind.
pub proof fn lemma_records_bytes_insert(records: Seq<Record>, at: int, record: Record)
    requires
        0 <= at <= records.len(),
    ensures
        records_bytes(records) == records_bytes(records.take(at)) + records_bytes(
            records.skip(at),
        ),
        records_bytes(records.insert(at, record)) == records_bytes(records.take(at))
            + record_bytes(record.timestamp, record.label) + records_bytes(records.skip(at)),
{
    let head = records.take(at);
    let tail = records.skip(at);
    assert(records =~= head + tail);
    lemma_records_bytes_join(head, tail);
    assert(records.insert(at, record) =~= (head + seq![record]) + tail);
    lemma_records_bytes_join(head + seq![record], tail);
    lemma_records_bytes_join(head, seq![record]);
    lemma_records_bytes_one(record);
}

/// Inserting into the bytes of a log gives the bytes of the log whose records
/// have the new record in its place.
pub proof fn lemma_inserted_record(epoch: i64, records: Seq<Record>, record: Record)
    requires
        labels_fit(records),
        epoch < record.timestamp,
    ensures
        inserted(log_bytes(epoch, records), record.label, record.timestamp) == Ok::<
            Seq<u8>,
            LogError,
        >(log_bytes(epoch, with_record(records, record))),
{
    let file = log_bytes(epoch, records);
    let at = position(records, record.timestamp);
    let head = records_bytes(records.take(at));
    let tail = records_bytes(records.skip(at));
    let new = record_bytes(record.timestamp, record.label);
    lemma_position(records, record.timestamp);
    lemma_log_parts(epoch, records);
    lemma_offset_of_position(records, record.timestamp);
    lemma_records_bytes_insert(records, at, record);
    let offset = head.len() as int;
    assert(insertion_offset(file.skip(8), record.timestamp) == Some(offset));
    assert(file == timestamp_bytes(epoch) + (head + tail));
    assert(file.take(8 + offset) =~= timestamp_bytes(epoch) + head);
    assert(file.skip(8 + offset) =~= tail);
    assert((timestamp_bytes(epoch) + head) + new + tail =~= timestamp_bytes(epoch) + (head + new
        + tail));
}

/// Inserting an entry whose timestamp equals that of a record, and is greater
/// than those of all records before it, gives the bytes of the log with the
/// new record immediately in front of that record.
pub proof fn lemma_inserted_at_equal(epoch: i64, records: Seq<Record>, at: int, record: Record)
    requires
        labels_fit(records),
        epoch < record.timestamp,
        0 <= at < records.len(),
        records[at].timestamp == record.timestamp,
        forall|i: int| 0 <= i < at ==> (#[trigger] records[i]).timestamp < record.timestamp,
    ensures
        inserted(log_bytes(epoch, records), record.label, record.timestamp) == Ok::<
            Seq<u8>,
            LogError,
        >(log_bytes(epoch, records.insert(at, record))),
{
    lemma_equal_goes_in_front(records, at, record);
    lemma_inserted_record(epoch, records, record);
}

/// Whatever entries are inserted into a new log, and in whatever order, as
/// long as each is later than the creation time: none is refused, the log
/// holds exactly the inserted entries, and their timestamps never go down from
/// one record to the next.
pub proof fn lemma_inserts_keep_order(epoch: i64, entries: Seq<Record>)
    requires
        all_after(epoch, entries),
        labels_fit(entries),
    ensures
        inserted_all(timestamp_bytes(epoch), entries) == Ok::<Seq<u8>, LogError>(
            log_bytes(epoch, with_records(entries)),
        ),
        in_order(with_records(entries)),
        all_after(epoch, with_records(entries)),
        labels_fit(with_records(entries)),
        with_records(entries).to_multiset() == entries.to_multiset(),
    decreases entries.len(),
{
    if entries.len() == 0 {
        assert(records_bytes(Seq::<Record>::empty()) =~= Seq::<u8>::empty());
        assert(log_bytes(epoch, with_records(entries)) =~= timestamp_bytes(epoch));
        assert(entries =~= Seq::<Record>::empty());
    } else {
        let before = entries.drop_last();
        let last = entries.last();
        assert(all_after(epoch, before) && labels_fit(before)) by {
            assert forall|i: int| 0 <= i < before.len() implies epoch < (
            #[trigger] before[i]).timestamp && before[i].label.len() <= u64::MAX by {
                assert(before[i] == entries[i]);
            }
        }
        lemma_inserts_keep_order(epoch, before);
        assert(epoch < last.timestamp && last.label.len() <= u64::MAX) by {
            assert(last == entries[entries.len() - 1]);
        }
        lemma_inserted_record(epoch, with_records(before), last);
        lemma_with_record_in_order(epoch, with_records(before), last);
        assert(entries =~= before.push(last));
        vstd::seq_lib::to_multiset_build(before, last);
    }
}

} // verus!
