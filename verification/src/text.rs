//! Decimal notation for integers.

use vstd::prelude::*;
use vstd::string::StringExecFns;

verus! {

/// The character of a decimal digit.
pub open spec fn digit_char(digit: int) -> char {
    if digit == 0 {
        '0'
    } else if digit == 1 {
        '1'
    } else if digit == 2 {
        '2'
    } else if digit == 3 {
        '3'
    } else if digit == 4 {
        '4'
    } else if digit == 5 {
        '5'
    } else if digit == 6 {
        '6'
    } else if digit == 7 {
        '7'
    } else if digit == 8 {
        '8'
    } else {
        '9'
    }
}

/// The decimal digits of a natural number, without leading zeros.
pub open spec fn digits(n: nat) -> Seq<char>
    decreases n,
{
    if n < 10 {
        seq![digit_char(n as int)]
    } else {
        digits(n / 10).push(digit_char((n % 10) as int))
    }
}

/// The decimal notation of an integer: a minus sign for a negative number,
/// then the digits of its magnitude.
pub open spec fn decimal(n: int) -> Seq<char> {
    if n < 0 {
        seq!['-'] + digits((-n) as nat)
    } else {
        digits(n as nat)
    }
}

fn digit_str(digit: u64) -> (s: &'static str)
    requires
        digit < 10,
    ensures
        s@ == seq![digit_char(digit as int)],
{
    proof {
        reveal_strlit("0");
        reveal_strlit("1");
        reveal_strlit("2");
        reveal_strlit("3");
        reveal_strlit("4");
        reveal_strlit("5");
        reveal_strlit("6");
        reveal_strlit("7");
        reveal_strlit("8");
        reveal_strlit("9");
    }
    let s = if digit == 0 {
        "0"
    } else if digit == 1 {
        "1"
    } else if digit == 2 {
        "2"
    } else if digit == 3 {
        "3"
    } else if digit == 4 {
        "4"
    } else if digit == 5 {
        "5"
    } else if digit == 6 {
        "6"
    } else if digit == 7 {
        "7"
    } else if digit == 8 {
        "8"
    } else {
        "9"
    };
    assert(s@ =~= seq![digit_char(digit as int)]);
    s
}

/// Appends the decimal digits of `n` to `out`.
pub fn push_digits(out: &mut String, n: u64)
    ensures
        final(out)@ == old(out)@ + digits(n as nat),
    decreases n,
{
    if n >= 10 {
        push_digits(out, n / 10);
    }
    out.append(digit_str(n % 10));
    assert(out@ =~= old(out)@ + digits(n as nat));
}

/// Appends the decimal notation of `n` to `out`.
pub fn push_decimal(out: &mut String, n: i64)
    ensures
        final(out)@ == old(out)@ + decimal(n as int),
{
    if n < 0 {
        proof {
            reveal_strlit("-");
        }
        out.append("-");
        let magnitude: u64 = if n == i64::MIN {
            9223372036854775808u64
        } else {
            (-n) as u64
        };
        push_digits(out, magnitude);
        assert(out@ =~= old(out)@ + decimal(n as int));
    } else {
        push_digits(out, n as u64);
    }
}

/// The decimal notation of `n`.
pub fn decimal_string(n: i64) -> (s: String)
    ensures
        s@ == decimal(n as int),
{
    let mut out = String::new();
    push_decimal(&mut out, n);
    assert(out@ =~= decimal(n as int));
    out
}

/// A number below 100 in two digits, with a zero in front where it is below
/// 10; a greater number in as many digits as it takes.
pub open spec fn two_digits(n: nat) -> Seq<char> {
    if n < 10 {
        seq!['0'] + digits(n)
    } else {
        digits(n)
    }
}

/// Appends `n` in two digits to `out`.
pub fn push_two_digits(out: &mut String, n: u32)
    ensures
        final(out)@ == old(out)@ + two_digits(n as nat),
{
    if n < 10 {
        proof {
            reveal_strlit("0");
        }
        out.append("0");
    }
    push_digits(out, n as u64);
    assert(out@ =~= old(out)@ + two_digits(n as nat));
}

/// The character is a decimal digit.
pub open spec fn is_digit(c: char) -> bool {
    '0' <= c <= '9'
}

/// The number that a decimal digit stands for.
pub open spec fn digit_value(c: char) -> int {
    c as int - 48
}

/// The number that a sequence of decimal digits stands for.
pub open spec fn number(digits: Seq<char>) -> int
    decreases digits.len(),
{
    if digits.len() == 0 {
        0
    } else {
        number(digits.drop_last()) * 10 + digit_value(digits.last())
    }
}

/// Every character is a decimal digit.
pub open spec fn all_digits(digits: Seq<char>) -> bool {
    forall|i: int| 0 <= i < digits.len() ==> is_digit(#[trigger] digits[i])
}

/// The text begins with a sign: a plus sign, or a minus sign where `minus`
/// says that one may stand there.
pub open spec fn has_sign(text: Seq<char>, minus: bool) -> bool {
    text.len() > 0 && (text[0] == '+' || (minus && text[0] == '-'))
}

/// The text without its sign.
pub open spec fn unsigned_part(text: Seq<char>, minus: bool) -> Seq<char> {
    if has_sign(text, minus) {
        text.drop_first()
    } else {
        text
    }
}

/// The integer that a text stands for: an optional sign, then one or more
/// decimal digits, and nothing else. A minus sign may stand in front only
/// where `minus` says so. `None` for any other text.
pub open spec fn parsed_int(text: Seq<char>, minus: bool) -> Option<int> {
    let digits = unsigned_part(text, minus);
    if digits.len() > 0 && all_digits(digits) {
        if minus && text[0] == '-' {
            Some(-number(digits))
        } else {
            Some(number(digits))
        }
    } else {
        None
    }
}

/// The number that a text stands for as a `usize`: an optional plus sign,
/// then one or more decimal digits, and nothing else. `None` for any other
/// text and for a number that is too great.
pub open spec fn parsed_usize(text: Seq<char>) -> Option<usize> {
    match parsed_int(text, false) {
        Some(n) => if n <= usize::MAX {
            Some(n as usize)
        } else {
            None
        },
        None => None,
    }
}

/// The number that a text stands for as a `u32`, read as a `usize` is.
pub open spec fn parsed_u32(text: Seq<char>) -> Option<u32> {
    match parsed_int(text, false) {
        Some(n) => if n <= u32::MAX {
            Some(n as u32)
        } else {
            None
        },
        None => None,
    }
}

/// The number that a text stands for as an `i64`: an optional plus or minus
/// sign, then one or more decimal digits, and nothing else. `None` for any
/// other text and for a number that an `i64` cannot hold.
pub open spec fn parsed_i64(text: Seq<char>) -> Option<i64> {
    match parsed_int(text, true) {
        Some(n) => if i64::MIN <= n <= i64::MAX {
            Some(n as i64)
        } else {
            None
        },
        None => None,
    }
}

/// The number of a sequence of digits is at least the number of each of
/// its beginnings.
proof fn lemma_number_grows(digits: Seq<char>, k: int)
    requires
        all_digits(digits),
        0 <= k <= digits.len(),
    ensures
        0 <= number(digits.take(k)) <= number(digits),
    decreases digits.len(),
{
    if digits.len() == 0 {
        assert(digits.take(k) =~= digits);
    } else if k == digits.len() {
        assert(digits.take(k) =~= digits);
        assert(is_digit(digits.last()));
        lemma_number_grows(digits.drop_last(), k - 1);
    } else {
        assert(digits.drop_last().take(k) =~= digits.take(k));
        assert(is_digit(digits.last()));
        lemma_number_grows(digits.drop_last(), k);
    }
}

/// Reads the sign and the digits of `text`. Returns whether a minus sign
/// stands in front, and the number of the digits; `None` where the text is
/// no integer, or where its digits stand for more than `limit`.
fn parse_digits(text: &str, minus: bool, limit: u64) -> (r: Option<(bool, u64)>)
    ensures
        r matches Some((negative, size)) ==> size <= limit && negative == (minus && text@[0] == '-')
            && parsed_int(text@, minus) == Some(
            if negative {
                -(size as int)
            } else {
                size as int
            },
        ),
        r is None ==> (parsed_int(text@, minus) matches Some(n) ==> n > limit || -n > limit),
        parsed_int(text@, minus) matches Some(n) ==> (if minus && text@[0] == '-' {
            n <= 0
        } else {
            n >= 0
        }),
{
    proof {
        if all_digits(unsigned_part(text@, minus)) {
            lemma_number_grows(unsigned_part(text@, minus), 0);
        }
    }
    let ghost whole = text@;
    let ghost digits = unsigned_part(whole, minus);
    let ghost sign: int = whole.len() - digits.len();
    let ghost mut count: int = 0;
    let mut value: u64 = 0;
    let mut any = false;
    let mut failed = false;
    let mut first = true;
    let mut negative = false;
    for c in it: text.chars()
        invariant
            it.seq() == whole,
            digits == unsigned_part(whole, minus),
            sign == whole.len() - digits.len(),
            first == (it.index() == 0),
            !first ==> negative == (minus && whole[0] == '-'),
            first ==> !negative,
            failed ==> (parsed_int(whole, minus) is None || number(digits) > limit),
            failed ==> all_digits(digits) ==> number(digits) > limit,
            !failed ==> {
                &&& count == if it.index() >= sign { it.index() - sign } else { 0 }
                &&& any == (count > 0)
                &&& all_digits(digits.take(count))
                &&& value == number(digits.take(count))
                &&& value <= limit
            },
    {
        let ghost i = it.index() as int;
        assert(c == whole[i]);
        assert(first ==> c == whole[0]);
        if first && minus && c == '-' {
            negative = true;
        }
        if !failed {
            if first && (c == '+' || (minus && c == '-')) {
                assert(sign == 1);
                assert(digits.take(0) =~= Seq::<char>::empty());
            } else if '0' <= c && c <= '9' {
                proof {
                    assert(digits[count] == c);
                    assert(digits.take(count + 1).drop_last() =~= digits.take(count));
                    assert(digits.take(count + 1).last() == c);
                    if all_digits(digits) {
                        lemma_number_grows(digits, count + 1);
                    }
                }
                let digit: u64 = (c as u32 - '0' as u32) as u64;
                let next = match value.checked_mul(10) {
                    Some(tens) => tens.checked_add(digit),
                    None => None,
                };
                match next {
                    Some(n) => {
                        if n <= limit {
                            value = n;
                            any = true;
                            proof {
                                count = count + 1;
                            }
                        } else {
                            failed = true;
                        }
                    },
                    None => {
                        failed = true;
                    },
                }
            } else {
                assert(!is_digit(digits[count]));
                failed = true;
            }
        }
        first = false;
    }
    if failed || !any {
        None
    } else {
        assert(digits.take(count) =~= digits);
        Some((negative, value))
    }
}

/// Reads `text` as a `usize` in decimal notation.
pub fn parse_usize(text: &str) -> (r: Option<usize>)
    ensures
        r == parsed_usize(text@),
{
    match parse_digits(text, false, usize::MAX as u64) {
        Some((_, n)) => Some(n as usize),
        None => None,
    }
}

/// Reads `text` as a `u32` in decimal notation.
pub fn parse_u32(text: &str) -> (r: Option<u32>)
    ensures
        r == parsed_u32(text@),
{
    match parse_digits(text, false, 0xffff_ffff) {
        Some((_, n)) => Some(n as u32),
        None => None,
    }
}

/// Reads `text` as an `i64` in decimal notation.
pub fn parse_i64(text: &str) -> (r: Option<i64>)
    ensures
        r == parsed_i64(text@),
{
    match parse_digits(text, true, 0x8000_0000_0000_0000) {
        Some((negative, n)) => {
            if negative {
                if n == 0x8000_0000_0000_0000 {
                    Some(i64::MIN)
                } else {
                    let size: i64 = n as i64;
                    Some(-size)
                }
            } else if n <= 0x7fff_ffff_ffff_ffff {
                Some(n as i64)
            } else {
                None
            }
        },
        None => None,
    }
}

} // verus!
