//! How numbers and lines of a summary are written out.

use vstd::prelude::*;
use vstd::string::*;

verus! {

/// The character for a digit from 0 to 9.
pub open spec fn digit(value: int) -> char
    recommends
        0 <= value < 10,
{
    if value == 0 {
        '0'
    } else if value == 1 {
        '1'
    } else if value == 2 {
        '2'
    } else if value == 3 {
        '3'
    } else if value == 4 {
        '4'
    } else if value == 5 {
        '5'
    } else if value == 6 {
        '6'
    } else if value == 7 {
        '7'
    } else if value == 8 {
        '8'
    } else {
        '9'
    }
}

/// A number in decimal digits, without leading zeros.
pub open spec fn decimal(value: nat) -> Seq<char>
    decreases value,
{
    if value < 10 {
        seq![digit(value as int)]
    } else {
        decimal(value / 10).push(digit((value % 10) as int))
    }
}

/// A number in at least two characters: a single digit gets a zero in front,
/// a negative number a minus sign.
pub open spec fn two_digits(value: int) -> Seq<char> {
    if value < 0 {
        seq!['-'] + decimal((-value) as nat)
    } else if value < 10 {
        seq!['0'] + decimal(value as nat)
    } else {
        decimal(value as nat)
    }
}

/// Division that drops the remainder, whatever the sign of `value`.
pub open spec fn toward_zero(value: int, by: int) -> int
    recommends
        by > 0,
{
    if value >= 0 {
        value / by
    } else {
        -((-value) / by)
    }
}

/// A span of seconds as hours and minutes, `HH:MM`. Seconds that do not fill
/// a minute are dropped.
pub open spec fn hours_minutes(seconds: int) -> Seq<char> {
    let hours = toward_zero(seconds, 3600);
    let minutes = toward_zero(seconds - hours * 3600, 60);
    two_digits(hours) + seq![':'] + two_digits(minutes)
}

/// The share that `part` has in `whole`, in tenths of a percent and rounded to
/// the nearest tenth, a half going up. There is a share where the whole is
/// positive and the part lies between nothing and the whole; a whole above
/// 2^64 - 1, which no two timestamps are apart, has none either.
pub open spec fn percent_tenths(part: int, whole: int) -> Option<int> {
    if 0 < whole <= u64::MAX && 0 <= part <= whole {
        Some((2000 * part + whole) / (2 * whole))
    } else {
        None
    }
}

/// A share as a percentage with one decimal place, or `NaN` where there is no
/// share.
pub open spec fn percent(part: int, whole: int) -> Seq<char> {
    match percent_tenths(part, whole) {
        Some(tenths) => decimal((tenths / 10) as nat) + seq!['.', digit(tenths % 10)],
        None => seq!['N', 'a', 'N'],
    }
}

/// A text filled up with spaces at its end to `width` characters. A longer
/// text stays as it is.
pub open spec fn padded(text: Seq<char>, width: nat) -> Seq<char> {
    if text.len() >= width {
        text
    } else {
        text + Seq::new((width - text.len()) as nat, |i: int| ' ')
    }
}

/// The line that gives the time between the creation of a log and its last
/// entry.
pub open spec fn total_line(elapsed: int) -> Seq<char> {
    "Total: "@ + hours_minutes(elapsed) + seq!['h']
}

/// The line that gives the time booked on one label and its share in the
/// whole.
pub open spec fn label_line(label: Seq<char>, seconds: int, elapsed: int) -> Seq<char> {
    padded(label, 16) + seq![':', ' '] + hours_minutes(seconds) + seq!['h', ',', ' '] + percent(
        seconds,
        elapsed,
    ) + seq!['%']
}

/// The line that shows one entry: its date, then its label.
pub open spec fn entry_line(date: Seq<char>, label: Seq<char>) -> Seq<char> {
    date + seq![':', ' '] + label
}

/// The line in front of the entries.
pub open spec fn entries_heading() -> Seq<char> {
    "Entries:"@
}

/// The texts of a list of lines.
pub open spec fn line_views(lines: Seq<String>) -> Seq<Seq<char>> {
    Seq::new(lines.len(), |i: int| lines[i]@)
}

/// The text of one digit.
fn digit_text(value: u8) -> (text: &'static str)
    requires
        value < 10,
    ensures
        text@ == seq![digit(value as int)],
{
    proof {
        reveal_strlit("0");
        reveal_strlit("1");
        reveal_strlit("2");
        reveal_strlit("3");
        reveal_strlit("4");
        reveal_strlit("5");
        reveal_strlit("6");
        reveal_strlit("7");
        reveal_strlit("8");
        reveal_strlit("9");
    }
    let text = match value {
        0 => "0",
        1 => "1",
        2 => "2",
        3 => "3",
        4 => "4",
        5 => "5",
        6 => "6",
        7 => "7",
        8 => "8",
        _ => "9",
    };
    assert(text@ =~= seq![digit(value as int)]);
    text
}

/// Appends `value` in decimal digits.
fn push_decimal(out: &mut String, value: u128)
    ensures
        final(out)@ == old(out)@ + decimal(value as nat),
    decreases value,
{
    if value >= 10 {
        push_decimal(out, value / 10);
    }
    out.append(digit_text((value % 10) as u8));
    assert(out@ =~= old(out)@ + decimal(value as nat));
}

/// Appends a number in at least two characters. The number is `size`, or its
/// negative where `negative` is set.
fn push_two_digits(out: &mut String, negative: bool, size: u128)
    ensures
        final(out)@ == old(out)@ + two_digits(
            if negative {
                -(size as int)
            } else {
                size as int
            },
        ),
{
    proof {
        reveal_strlit("-");
        reveal_strlit("0");
    }
    if negative && size > 0 {
        out.append("-");
    } else if size < 10 {
        out.append("0");
    }
    push_decimal(out, size);
    assert(out@ =~= old(out)@ + two_digits(
        if negative {
            -(size as int)
        } else {
            size as int
        },
    ));
}

/// Appends a span of seconds as hours and minutes.
fn push_hours_minutes(out: &mut String, seconds: i128)
    ensures
        final(out)@ == old(out)@ + hours_minutes(seconds as int),
{
    proof {
        reveal_strlit(":");
    }
    let negative: bool = seconds < 0;
    let size: u128 = if negative {
        (-(seconds + 1)) as u128 + 1
    } else {
        seconds as u128
    };
    let hours: u128 = size / 3600;
    let minutes: u128 = (size % 3600) / 60;
    proof {
        let h = toward_zero(seconds as int, 3600);
        assert(h == if negative {
            -(hours as int)
        } else {
            hours as int
        });
        assert(toward_zero(seconds - h * 3600, 60) == if negative {
            -(minutes as int)
        } else {
            minutes as int
        });
    }
    push_two_digits(out, negative, hours);
    out.append(":");
    push_two_digits(out, negative, minutes);
    assert(out@ =~= old(out)@ + hours_minutes(seconds as int));
}

/// Writes a span of seconds as hours and minutes, `HH:MM`.
pub fn format_hours_minutes(seconds: i128) -> (text: String)
    ensures
        text@ == hours_minutes(seconds as int),
{
    let mut text = String::new();
    push_hours_minutes(&mut text, seconds);
    assert(text@ =~= hours_minutes(seconds as int));
    text
}

/// Computes the share of `part` in `whole` in tenths of a percent.
pub fn share_tenths(part: i128, whole: i128) -> (tenths: Option<u16>)
    ensures
        match percent_tenths(part as int, whole as int) {
            Some(value) => tenths == Some(value as u16) && 0 <= value <= 1000,
            None => tenths is None,
        },
{
    if 0 < whole && whole <= 0xffff_ffff_ffff_ffff && 0 <= part && part <= whole {
        let top: u128 = 2000 * (part as u128) + (whole as u128);
        let bottom: u128 = 2 * (whole as u128);
        let value: u128 = top / bottom;
        assert(value <= 1000) by (nonlinear_arith)
            requires
                value == top / bottom,
                bottom > 0,
                top < 1001 * bottom,
        ;
        Some(value as u16)
    } else {
        None
    }
}

/// Appends a share as a percentage with one decimal place.
fn push_percent(out: &mut String, part: i128, whole: i128)
    ensures
        final(out)@ == old(out)@ + percent(part as int, whole as int),
{
    proof {
        reveal_strlit(".");
        reveal_strlit("NaN");
    }
    match share_tenths(part, whole) {
        Some(tenths) => {
            push_decimal(out, (tenths / 10) as u128);
            out.append(".");
            out.append(digit_text((tenths % 10) as u8));
        },
        None => {
            out.append("NaN");
        },
    }
    assert(out@ =~= old(out)@ + percent(part as int, whole as int));
}

/// Writes the share of `part` in `whole` as a percentage with one decimal
/// place, or `NaN` where there is no share.
pub fn format_percent(part: i128, whole: i128) -> (text: String)
    ensures
        text@ == percent(part as int, whole as int),
{
    let mut text = String::new();
    push_percent(&mut text, part, whole);
    assert(text@ =~= percent(part as int, whole as int));
    text
}

/// Appends `text` and the spaces that fill it up to `width` characters.
fn push_padded(out: &mut String, text: &str, width: usize)
    ensures
        final(out)@ == old(out)@ + padded(text@, width as nat),
{
    out.append(text);
    let mut count: usize = text.unicode_len();
    while count < width
        invariant
            text@.len() <= count,
            count > text@.len() ==> count <= width,
            out@ == old(out)@ + text@ + Seq::new((count - text@.len()) as nat, |i: int| ' '),
        decreases width - count,
    {
        proof {
            reveal_strlit(" ");
        }
        out.append(" ");
        count = count + 1;
        assert(out@ =~= old(out)@ + text@ + Seq::new((count - text@.len()) as nat, |i: int| ' '));
    }
    assert(out@ =~= old(out)@ + padded(text@, width as nat));
}

/// Writes the line that gives the time between the creation of a log and its
/// last entry.
pub fn format_total_line(elapsed: i128) -> (line: String)
    ensures
        line@ == total_line(elapsed as int),
{
    proof {
        reveal_strlit("h");
    }
    let mut line = String::from_str("Total: ");
    push_hours_minutes(&mut line, elapsed);
    line.append("h");
    assert(line@ =~= total_line(elapsed as int));
    line
}

/// Writes the line that gives the time booked on one label and its share in
/// the whole.
pub fn format_label_line(label: &str, seconds: i128, elapsed: i128) -> (line: String)
    ensures
        line@ == label_line(label@, seconds as int, elapsed as int),
{
    proof {
        reveal_strlit(": ");
        reveal_strlit("h, ");
        reveal_strlit("%");
    }
    let mut line = String::new();
    push_padded(&mut line, label, 16);
    line.append(": ");
    push_hours_minutes(&mut line, seconds);
    line.append("h, ");
    push_percent(&mut line, seconds, elapsed);
    line.append("%");
    assert(line@ =~= label_line(label@, seconds as int, elapsed as int));
    line
}

/// Writes the line that shows one entry: its date, then its label.
pub fn format_entry_line(date: &str, label: &str) -> (line: String)
    ensures
        line@ == entry_line(date@, label@),
{
    proof {
        reveal_strlit(": ");
    }
    let mut line = String::from_str(date);
    line.append(": ");
    line.append(label);
    assert(line@ =~= entry_line(date@, label@));
    line
}

} // verus!
