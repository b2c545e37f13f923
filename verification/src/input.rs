//! Reading a time of day from what the user typed.

use vstd::prelude::*;
use chrono::Timelike;
use crate::time::TimeOfDay;

verus! {

/// Hour, minute and second of the time of day that
/// `chrono::NaiveTime::parse_from_str` reads from `text` in `format`; none
/// where the text does not fit the format or names no time of day.
pub uninterp spec fn time_in_format(text: Seq<char>, format: Seq<char>) -> Option<(u32, u32, u32)>;

/// Calls `chrono::NaiveTime::parse_from_str` and reads `hour`, `minute` and
/// `second` of the time. Trusted: the result is the one that the name above
/// stands for, and a time that was read is one that a clock can show.
#[verifier::external_body]
fn parse_time_in(text: &str, format: &str) -> (r: Option<(u32, u32, u32)>)
    ensures
        r == time_in_format(text@, format@),
        r matches Some(t) ==> t.0 < 24 && t.1 < 60 && t.2 < 60,
{
    chrono::NaiveTime::parse_from_str(text, format).ok().map(
        |t| (t.hour(), t.minute(), t.second()),
    )
}

/// The formats in which a time of day can be typed, in the order in which
/// they are tried: hours, minutes and seconds, or hours and minutes,
/// parted by colons, full stops or blanks.
pub open spec fn time_formats() -> Seq<Seq<char>> {
    seq!["%H:%M:%S"@, "%H.%M.%S"@, "%H, %M, %S"@, "%H:%M"@, "%H.%M"@, "%H %M"@]
}

/// What the first of `formats` that fits `text` reads from it.
pub open spec fn first_time(text: Seq<char>, formats: Seq<Seq<char>>) -> Option<(u32, u32, u32)>
    decreases formats.len(),
{
    if formats.len() == 0 {
        None
    } else {
        match time_in_format(text, formats[0]) {
            Some(time) => Some(time),
            None => first_time(text, formats.drop_first()),
        }
    }
}

/// The time of day that `text` names.
pub open spec fn parsed_time(text: Seq<char>) -> Option<TimeOfDay> {
    match first_time(text, time_formats()) {
        Some((hour, minute, second)) => Some(TimeOfDay { hour, minute, second }),
        None => None,
    }
}

fn format_at(index: usize) -> (r: &'static str)
    requires
        index < 6,
    ensures
        r@ == time_formats()[index as int],
{
    if index == 0 {
        "%H:%M:%S"
    } else if index == 1 {
        "%H.%M.%S"
    } else if index == 2 {
        "%H, %M, %S"
    } else if index == 3 {
        "%H:%M"
    } else if index == 4 {
        "%H.%M"
    } else {
        "%H %M"
    }
}

/// Reads a time of day from `input`, in the first of the formats that fits.
/// A time that is read is one that a clock can show.
pub fn parse_time(input: &str) -> (r: Option<TimeOfDay>)
    ensures
        r == parsed_time(input@),
        r matches Some(time) ==> time.on_clock(),
{
    let ghost formats = time_formats();
    let mut i: usize = 0;
    proof {
        assert(formats.skip(0) =~= formats);
    }
    while i < 6
        invariant
            i <= 6,
            formats == time_formats(),
            first_time(input@, formats) == first_time(input@, formats.skip(i as int)),
        decreases 6 - i,
    {
        proof {
            assert(formats.skip(i as int)[0] == formats[i as int]);
            assert(formats.skip(i as int).drop_first() =~= formats.skip(i + 1));
        }
        match parse_time_in(input, format_at(i)) {
            Some((hour, minute, second)) => {
                return Some(TimeOfDay { hour, minute, second });
            },
            None => {},
        }
        i += 1;
    }
    None
}

} // verus!
