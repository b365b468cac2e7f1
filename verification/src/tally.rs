//! Adding up the time of a log: each entry books the time since the entry
//! before it, or since the creation of the log, on its own label.

use crate::reader::{entry_views, Entry, EntryView};
use vstd::prelude::*;

verus! {

/// The most entries that a log can hold: a record takes sixteen bytes at
/// least, and a file has fewer than 2^64.
pub const MAX_ENTRIES: u64 = 0x0fff_ffff_ffff_ffff;

/// The time that is booked on one label.
pub struct LabelTotal {
    pub label: String,
    pub seconds: i128,
}

/// A label's total as the contracts see it.
pub struct LabelTotalView {
    pub label: Seq<char>,
    pub seconds: int,
}

impl View for LabelTotal {
    type V = LabelTotalView;

    open spec fn view(&self) -> LabelTotalView {
        LabelTotalView { label: self.label@, seconds: self.seconds as int }
    }
}

/// The views of a list of totals.
pub open spec fn total_views(totals: Seq<LabelTotal>) -> Seq<LabelTotalView> {
    Seq::new(totals.len(), |i: int| totals[i]@)
}

/// The seconds between an entry and the one before it; for the first entry,
/// between it and the creation of the log.
pub open spec fn gap(epoch: i64, entries: Seq<EntryView>, at: int) -> int
    recommends
        0 <= at < entries.len(),
{
    entries[at].timestamp - if at == 0 {
        epoch as int
    } else {
        entries[at - 1].timestamp as int
    }
}

/// The seconds between the creation of a log and its last entry; none for a
/// log without entries.
pub open spec fn elapsed(epoch: i64, entries: Seq<EntryView>) -> int {
    if entries.len() == 0 {
        0
    } else {
        entries.last().timestamp - epoch
    }
}

/// The seconds booked on `label`: the sum of the gaps in front of all entries
/// that carry it.
pub open spec fn label_seconds(epoch: i64, entries: Seq<EntryView>, label: Seq<char>) -> int
    decreases entries.len(),
{
    if entries.len() == 0 {
        0
    } else {
        label_seconds(epoch, entries.drop_last(), label) + if entries.last().label == label {
            gap(epoch, entries, entries.len() - 1)
        } else {
            0
        }
    }
}

/// The labels of a log, each once, in the order in which they first occur.
pub open spec fn labels(entries: Seq<EntryView>) -> Seq<Seq<char>>
    decreases entries.len(),
{
    if entries.len() == 0 {
        Seq::empty()
    } else {
        let before = labels(entries.drop_last());
        if before.contains(entries.last().label) {
            before
        } else {
            before.push(entries.last().label)
        }
    }
}

/// The totals of a log: one row for each label, in the order of `labels`.
pub open spec fn totals(epoch: i64, entries: Seq<EntryView>) -> Seq<LabelTotalView> {
    Seq::new(
        labels(entries).len(),
        |i: int|
            LabelTotalView {
                label: labels(entries)[i],
                seconds: label_seconds(epoch, entries, labels(entries)[i]),
            },
    )
}

/// The seconds booked on all of `names` together.
pub open spec fn seconds_of(epoch: i64, entries: Seq<EntryView>, names: Seq<Seq<char>>) -> int
    decreases names.len(),
{
    if names.len() == 0 {
        0
    } else {
        seconds_of(epoch, entries, names.drop_last()) + label_seconds(
            epoch,
            entries,
            names.last(),
        )
    }
}

/// The timestamps never go down from one entry to the next, and the first is
/// not before `epoch`.
pub open spec fn entries_in_order(epoch: i64, entries: Seq<EntryView>) -> bool {
    forall|i: int| 0 <= i < entries.len() ==> #[trigger] gap(epoch, entries, i) >= 0
}

/// No label is listed twice, every entry's label is listed, and every listed
/// label is that of an entry.
pub proof fn lemma_labels(entries: Seq<EntryView>)
    ensures
        labels(entries).no_duplicates(),
        forall|i: int| 0 <= i < entries.len() ==> labels(entries).contains(#[trigger] entries[i].label),
        forall|j: int|
            #![trigger labels(entries)[j]]
            0 <= j < labels(entries).len() ==> exists|i: int|
                #![trigger entries[i]]
                0 <= i < entries.len() && entries[i].label == labels(entries)[j],
    decreases entries.len(),
{
    if entries.len() > 0 {
        let before = entries.drop_last();
        let last = entries.last();
        lemma_labels(before);
        let names = labels(entries);
        assert forall|i: int| 0 <= i < entries.len() implies names.contains(
            #[trigger] entries[i].label,
        ) by {
            if i < before.len() {
                assert(before[i] == entries[i]);
                let j = choose|j: int|
                    0 <= j < labels(before).len() && labels(before)[j] == before[i].label;
                assert(names[j] == entries[i].label);
            } else {
                if labels(before).contains(last.label) {
                } else {
                    assert(names[names.len() - 1] == last.label);
                }
            }
        }
        assert forall|j: int| 0 <= j < names.len() implies exists|i: int|
            #![trigger entries[i]]
            0 <= i < entries.len() && entries[i].label == #[trigger] names[j] by {
            if j < labels(before).len() {
                let i = choose|i: int|
                    #![trigger before[i]]
                    0 <= i < before.len() && before[i].label == labels(before)[j];
                assert(entries[i].label == names[j]);
            } else {
                assert(entries[entries.len() - 1].label == names[j]);
            }
        }
    }
}

/// Nothing is booked on a label that no entry carries.
pub proof fn lemma_unused_label(epoch: i64, entries: Seq<EntryView>, label: Seq<char>)
    requires
        !labels(entries).contains(label),
    ensures
        label_seconds(epoch, entries, label) == 0,
    decreases entries.len(),
{
    if entries.len() > 0 {
        let before = entries.drop_last();
        lemma_labels(entries);
        assert(entries[entries.len() - 1].label != label);
        if labels(before).contains(label) {
            let j = choose|j: int| 0 <= j < labels(before).len() && labels(before)[j] == label;
            assert(labels(entries)[j] == label);
        }
        lemma_unused_label(epoch, before, label);
    }
}

/// In a log whose entries are in order of time, the seconds booked on a label
/// are not negative and not more than the time that the log spans.
pub proof fn lemma_label_seconds_bounds(epoch: i64, entries: Seq<EntryView>, label: Seq<char>)
    requires
        entries_in_order(epoch, entries),
    ensures
        0 <= label_seconds(epoch, entries, label) <= elapsed(epoch, entries),
        entries.len() > 0 && epoch < entries[0].timestamp ==> elapsed(epoch, entries) > 0,
    decreases entries.len(),
{
    if entries.len() > 0 {
        let before = entries.drop_last();
        let last = entries.len() - 1;
        assert forall|i: int| 0 <= i < before.len() implies #[trigger] gap(epoch, before, i)
            >= 0 by {
            assert(gap(epoch, before, i) == gap(epoch, entries, i));
        }
        lemma_label_seconds_bounds(epoch, before, label);
        assert(gap(epoch, entries, last) >= 0);
        if last > 0 {
            assert(before.last() == entries[last - 1]);
            assert(before[0] == entries[0]);
        }
    }
}

/// Adding an entry adds its gap to the seconds of a list of labels once, if
/// its label is among them, and nothing if not.
proof fn lemma_seconds_of_step(epoch: i64, entries: Seq<EntryView>, names: Seq<Seq<char>>)
    requires
        entries.len() > 0,
        names.no_duplicates(),
    ensures
        seconds_of(epoch, entries, names) == seconds_of(epoch, entries.drop_last(), names)
            + if names.contains(entries.last().label) {
            gap(epoch, entries, entries.len() - 1)
        } else {
            0
        },
    decreases names.len(),
{
    if names.len() > 0 {
        let front = names.drop_last();
        lemma_seconds_of_step(epoch, entries, front);
        let label = entries.last().label;
        if names.last() == label {
            if front.contains(label) {
                let j = choose|j: int| 0 <= j < front.len() && front[j] == label;
                assert(names[j] == names[names.len() - 1]);
            }
            assert(names[names.len() - 1] == label);
        } else {
            if names.contains(label) {
                let j = choose|j: int| 0 <= j < names.len() && names[j] == label;
                assert(front[j] == label);
            } else if front.contains(label) {
                let j = choose|j: int| 0 <= j < front.len() && front[j] == label;
                assert(names[j] == label);
            }
        }
    }
}

/// The seconds booked on all labels of a log add up to the time that the log
/// spans.
pub proof fn lemma_totals_add_up(epoch: i64, entries: Seq<EntryView>)
    ensures
        seconds_of(epoch, entries, labels(entries)) == elapsed(epoch, entries),
    decreases entries.len(),
{
    if entries.len() > 0 {
        let before = entries.drop_last();
        let last = entries.last();
        let names = labels(entries);
        lemma_totals_add_up(epoch, before);
        lemma_labels(entries);
        lemma_labels(before);
        lemma_seconds_of_step(epoch, entries, names);
        assert(names.contains(last.label)) by {
            assert(entries[entries.len() - 1].label == last.label);
        }
        if labels(before).contains(last.label) {
        } else {
            assert(names.drop_last() =~= labels(before));
            lemma_unused_label(epoch, before, last.label);
        }
        if before.len() > 0 {
            assert(before.last() == entries[entries.len() - 2]);
        }
    }
}

/// Every label has one row and no more, and the row of a label holds the
/// seconds of all entries that carry it: entries with one label are added up
/// in one row, wherever in the log they lie.
pub proof fn lemma_one_row_for_each_label(epoch: i64, entries: Seq<EntryView>)
    ensures
        forall|i: int, j: int|
            0 <= i < j < totals(epoch, entries).len() ==> (#[trigger] totals(
                epoch,
                entries,
            )[i]).label != (#[trigger] totals(epoch, entries)[j]).label,
        forall|i: int|
            0 <= i < totals(epoch, entries).len() ==> (#[trigger] totals(epoch, entries)[i]).seconds
                == label_seconds(epoch, entries, totals(epoch, entries)[i].label),
        forall|k: int|
            #![trigger entries[k]]
            0 <= k < entries.len() ==> exists|i: int|
                #![trigger totals(epoch, entries)[i]]
                0 <= i < totals(epoch, entries).len() && totals(epoch, entries)[i].label
                    == entries[k].label,
{
    lemma_labels(entries);
    let rows = totals(epoch, entries);
    assert forall|i: int, j: int| 0 <= i < j < rows.len() implies (#[trigger] rows[i]).label != (
    #[trigger] rows[j]).label by {
        assert(labels(entries)[i] != labels(entries)[j]);
    }
    assert forall|k: int| #![trigger entries[k]] 0 <= k < entries.len() implies exists|i: int|
        #![trigger rows[i]]
        0 <= i < rows.len() && rows[i].label == entries[k].label by {
        assert(labels(entries).contains(entries[k].label));
        let i = choose|i: int| 0 <= i < labels(entries).len() && labels(entries)[i] == entries[k].label;
        assert(rows[i].label == entries[k].label);
    }
}

/// Finds the row of `label` among `rows`.
fn find_row(rows: &Vec<LabelTotal>, label: &String) -> (found: Option<usize>)
    ensures
        match found {
            Some(at) => at < rows.len() && rows[at as int].label@ == label@,
            None => forall|i: int| 0 <= i < rows.len() ==> (#[trigger] rows[i]).label@ != label@,
        },
{
    let mut at: usize = 0;
    while at < rows.len()
        invariant
            at <= rows.len(),
            forall|i: int| 0 <= i < at ==> (#[trigger] rows[i]).label@ != label@,
        decreases rows.len() - at,
    {
        if rows[at].label == *label {
            return Some(at);
        }
        at = at + 1;
    }
    None
}

/// Adds up the seconds of each label.
pub(crate) fn tally(epoch: i64, entries: &Vec<Entry>) -> (rows: Vec<LabelTotal>)
    requires
        entries.len() <= MAX_ENTRIES,
    ensures
        total_views(rows@) == totals(epoch, entry_views(entries@)),
{
    let ghost all = entry_views(entries@);
    let mut rows: Vec<LabelTotal> = Vec::new();
    let mut previous: i64 = epoch;
    let mut at: usize = 0;
    assert(all.take(0) =~= Seq::<EntryView>::empty());
    assert(total_views(rows@) =~= totals(epoch, all.take(0)));
    while at < entries.len()
        invariant
            all == entry_views(entries@),
            at <= entries.len() <= MAX_ENTRIES,
            previous == if at == 0 {
                epoch
            } else {
                entries[at - 1].timestamp
            },
            total_views(rows@) == totals(epoch, all.take(at as int)),
            forall|i: int|
                0 <= i < rows.len() ==> -at * 0x1_0000_0000_0000_0000 <= (
                #[trigger] rows[i]).seconds <= at * 0x1_0000_0000_0000_0000,
        decreases entries.len() - at,
    {
        let ghost done = all.take(at as int);
        let ghost next = all.take(at + 1);
        let ghost before = total_views(rows@);
        let entry = &entries[at];
        let step: i128 = entry.timestamp as i128 - previous as i128;
        proof {
            assert(next.drop_last() =~= done);
            assert(next.last() == entry@);
            assert(gap(epoch, next, at as int) == step);
            lemma_labels(done);
            assert(before.len() == rows.len());
            assert(totals(epoch, done).len() == labels(done).len());
            assert forall|i: int| 0 <= i < rows.len() implies (#[trigger] rows[i]).label@
                == labels(done)[i] by {
                assert(before[i].label == labels(done)[i]);
            }
        }
        match find_row(&rows, &entry.label) {
            Some(row) => {
                let seconds: i128 = rows[row].seconds + step;
                let label = rows[row].label.clone();
                rows.set(row, LabelTotal { label, seconds });
                proof {
                    assert(labels(done)[row as int] == entry@.label);
                    assert(labels(next) == labels(done));
                    assert forall|i: int| 0 <= i < rows.len() implies total_views(rows@)[i]
                        == totals(epoch, next)[i] by {
                        assert(before[i] == totals(epoch, done)[i]);
                        if i != row {
                            assert(labels(done)[i] != labels(done)[row as int]);
                        }
                    }
                    assert(total_views(rows@) =~= totals(epoch, next));
                }
            },
            None => {
                rows.push(LabelTotal { label: entry.label.clone(), seconds: step });
                proof {
                    if labels(done).contains(entry@.label) {
                        let i = choose|i: int|
                            0 <= i < labels(done).len() && labels(done)[i] == entry@.label;
                        assert(rows[i].label@ == entry@.label);
                    }
                    assert(labels(next) == labels(done).push(entry@.label));
                    lemma_unused_label(epoch, done, entry@.label);
                    assert forall|i: int| 0 <= i < rows.len() implies total_views(rows@)[i]
                        == totals(epoch, next)[i] by {
                        if i < rows.len() - 1 {
                            assert(before[i] == totals(epoch, done)[i]);
                        }
                    }
                    assert(total_views(rows@) =~= totals(epoch, next));
                }
            },
        }
        previous = entry.timestamp;
        at = at + 1;
    }
    assert(all.take(at as int) =~= all);
    rows
}

} // verus!
