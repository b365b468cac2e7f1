//! Creating a log and putting a new entry in its place.

use crate::error::LogError;
use crate::record::record_bytes;
use crate::word::{
    get_word, length_value, put_word, timestamp_bytes, timestamp_to_word, timestamp_value,
    word_to_timestamp,
};
use vstd::prelude::*;
use vstd::string::StringSliceAdditionalSpecFns;

verus! {

/// Where, counted from the start of `records`, an entry with `timestamp` goes:
/// in front of the first record whose timestamp is not smaller. Fewer than
/// eight bytes where a record would start are the end of the log, and the
/// entry goes behind them. `None` where a record that has to be passed over is
/// cut short.
pub open spec fn insertion_offset(records: Seq<u8>, timestamp: i64) -> Option<int>
    decreases records.len(),
{
    if records.len() < 8 {
        Some(records.len() as int)
    } else if timestamp_value(records) >= timestamp {
        Some(0)
    } else if records.len() < 16 {
        None
    } else {
        let length = length_value(records.skip(8)) as int;
        if records.len() < 16 + length {
            None
        } else {
            match insertion_offset(records.skip(16 + length), timestamp) {
                Some(offset) => Some(16 + length + offset),
                None => None,
            }
        }
    }
}

/// What inserting an entry makes of the bytes of a log.
pub open spec fn inserted(file: Seq<u8>, label: Seq<u8>, timestamp: i64) -> Result<
    Seq<u8>,
    LogError,
> {
    if file.len() < 8 {
        Err(LogError::Io)
    } else if timestamp <= timestamp_value(file) {
        Err(LogError::Validation)
    } else {
        match insertion_offset(file.skip(8), timestamp) {
            None => Err(LogError::Io),
            Some(offset) => Ok(
                file.take(8 + offset) + record_bytes(timestamp, label) + file.skip(8 + offset),
            ),
        }
    }
}

/// The bytes of a log that was created at `time` and has no entry yet.
pub fn new_file(time: i64) -> (file: Vec<u8>)
    ensures
        file@ == timestamp_bytes(time),
{
    let mut file: Vec<u8> = Vec::new();
    put_word(&mut file, timestamp_to_word(time));
    file
}

/// Finds the place in `file` at which an entry with `timestamp` goes.
fn find_offset(file: &[u8], timestamp: i64) -> (found: Option<usize>)
    requires
        file.len() >= 8,
    ensures
        match insertion_offset(file@.skip(8), timestamp) {
            Some(offset) => found is Some && found->0 == 8 + offset && found->0 <= file.len(),
            None => found is None,
        },
{
    let len: usize = file.len();
    let mut at: usize = 8;
    loop
        invariant
            len == file.len(),
            8 <= at <= len,
            match insertion_offset(file@.skip(at as int), timestamp) {
                Some(offset) => insertion_offset(file@.skip(8), timestamp) == Some(
                    at - 8 + offset,
                ),
                None => insertion_offset(file@.skip(8), timestamp) is None,
            },
        decreases len - at,
    {
        let ghost rest = file@.skip(at as int);
        if len - at < 8 {
            return Some(len);
        }
        assert(rest.subrange(0, 8) == file@.subrange(at as int, at + 8));
        if word_to_timestamp(get_word(file, at)) >= timestamp {
            return Some(at);
        }
        if len - at < 16 {
            return None;
        }
        assert(rest.skip(8).subrange(0, 8) == file@.subrange(at + 8, at + 16));
        let length: u64 = get_word(file, at + 8);
        if length > (len - at - 16) as u64 {
            return None;
        }
        assert(rest.skip(16 + length) == file@.skip(at + 16 + length));
        at = at + 16 + length as usize;
    }
}

/// Puts an entry with `label` and `timestamp` into the log `file`, in front of
/// the first entry whose timestamp is not smaller, so that entries stay in
/// order of time. A log that is shorter than its creation time, or that ends
/// inside a record that has to be passed over, is refused with
/// `LogError::Io`; a timestamp that is not after the creation time, with
/// `LogError::Validation`. A refused call leaves `file` as it was.
pub fn insert_label(file: &mut Vec<u8>, label: &str, timestamp: i64) -> (done: Result<
    (),
    LogError,
>)
    ensures
        match inserted(old(file)@, label.spec_bytes(), timestamp) {
            Ok(bytes) => done is Ok && final(file)@ == bytes,
            Err(error) => done == Err::<(), LogError>(error) && final(file)@ == old(file)@,
        },
        old(file)@.len() < 8 ==> done == Err::<(), LogError>(LogError::Io),
        old(file)@.len() >= 8 && timestamp <= timestamp_value(old(file)@) ==> done == Err::<
            (),
            LogError,
        >(LogError::Validation),
        done is Err ==> final(file)@ == old(file)@,
        done is Ok ==> final(file)@.len() == old(file)@.len() + 16 + label.spec_bytes().len(),
{
    if file.len() < 8 {
        return Err(LogError::Io);
    }
    let epoch: i64 = word_to_timestamp(get_word(file.as_slice(), 0));
    if timestamp <= epoch {
        return Err(LogError::Validation);
    }
    let found = find_offset(file.as_slice(), timestamp);
    match found {
        None => Err(LogError::Io),
        Some(at) => {
            let text: &[u8] = label.as_bytes();
            let mut tail: Vec<u8> = file.split_off(at);
            put_word(file, timestamp_to_word(timestamp));
            put_word(file, text.len() as u64);
            file.extend_from_slice(text);
            file.append(&mut tail);
            assert(file@ =~= old(file)@.take(at as int) + record_bytes(
                timestamp,
                label.spec_bytes(),
            ) + old(file)@.skip(at as int));
            Ok(())
        },
    }
}

} // verus!
