//! The layout of a log: what bytes a creation time and a list of records
//! make.

use crate::word::{
    lemma_timestamp_round_trip, lemma_word_round_trip, length_value, timestamp_bytes,
    timestamp_value, word_bytes,
};
use vstd::prelude::*;

verus! {

/// One record of a log as it lies in the file: a timestamp and the bytes of
/// a label.
pub struct Record {
    pub timestamp: i64,
    pub label: Seq<u8>,
}

/// The bytes of one record: the timestamp, the label's length, the label.
pub open spec fn record_bytes(timestamp: i64, label: Seq<u8>) -> Seq<u8> {
    timestamp_bytes(timestamp) + word_bytes(label.len()) + label
}

/// The bytes of a list of records, one after the other.
pub open spec fn records_bytes(records: Seq<Record>) -> Seq<u8>
    decreases records.len(),
{
    if records.len() == 0 {
        Seq::empty()
    } else {
        record_bytes(records[0].timestamp, records[0].label) + records_bytes(records.drop_first())
    }
}

/// The bytes of a whole log: the creation time, then the records.
pub open spec fn log_bytes(epoch: i64, records: Seq<Record>) -> Seq<u8> {
    timestamp_bytes(epoch) + records_bytes(records)
}

/// Every label is short enough for its length to fit in a word.
pub open spec fn labels_fit(records: Seq<Record>) -> bool {
    forall|i: int| 0 <= i < records.len() ==> (#[trigger] records[i]).label.len() <= u64::MAX
}

/// The timestamps never go down from one record to the next.
pub open spec fn in_order(records: Seq<Record>) -> bool {
    forall|i: int, j: int|
        0 <= i <= j < records.len() ==> (#[trigger] records[i]).timestamp <= (
        #[trigger] records[j]).timestamp
}

/// Every record is later than `epoch`.
pub open spec fn all_after(epoch: i64, records: Seq<Record>) -> bool {
    forall|i: int| 0 <= i < records.len() ==> epoch < (#[trigger] records[i]).timestamp
}

/// A record's bytes start with its timestamp and its label's length, and
/// what follows them is the label.
pub proof fn lemma_record_fields(timestamp: i64, label: Seq<u8>, rest: Seq<u8>)
    requires
        label.len() <= u64::MAX,
    ensures
        record_bytes(timestamp, label).len() == 16 + label.len(),
        timestamp_value(record_bytes(timestamp, label) + rest) == timestamp,
        length_value((record_bytes(timestamp, label) + rest).skip(8)) == label.len(),
        (record_bytes(timestamp, label) + rest).subrange(16, 16 + label.len() as int) == label,
        (record_bytes(timestamp, label) + rest).skip(16 + label.len() as int) == rest,
{
    let bytes = record_bytes(timestamp, label) + rest;
    lemma_timestamp_round_trip(timestamp);
    lemma_word_round_trip(label.len());
    assert(bytes.subrange(0, 8) =~= timestamp_bytes(timestamp));
    assert(timestamp_bytes(timestamp).subrange(0, 8) =~= timestamp_bytes(timestamp));
    assert(bytes.skip(8).subrange(0, 8) =~= word_bytes(label.len()));
    assert(bytes.subrange(16, 16 + label.len() as int) =~= label);
    assert(bytes.skip(16 + label.len() as int) =~= rest);
}

/// The bytes of two lists of records, one after the other, are the bytes of
/// the two lists joined.
pub proof fn lemma_records_bytes_join(first: Seq<Record>, second: Seq<Record>)
    ensures
        records_bytes(first + second) == records_bytes(first) + records_bytes(second),
    decreases first.len(),
{
    if first.len() == 0 {
        assert(first + second =~= second);
        assert(records_bytes(first) + records_bytes(second) =~= records_bytes(second));
    } else {
        lemma_records_bytes_join(first.drop_first(), second);
        assert((first + second).drop_first() =~= first.drop_first() + second);
        assert(records_bytes(first + second) =~= records_bytes(first) + records_bytes(second));
    }
}

/// The bytes of a list of one record are the bytes of that record.
pub proof fn lemma_records_bytes_one(record: Record)
    ensures
        records_bytes(seq![record]) == record_bytes(record.timestamp, record.label),
{
    assert(seq![record].drop_first() =~= Seq::<Record>::empty());
    assert(records_bytes(seq![record].drop_first()) =~= Seq::<u8>::empty());
    assert(records_bytes(seq![record]) =~= record_bytes(record.timestamp, record.label));
}

} // verus!
