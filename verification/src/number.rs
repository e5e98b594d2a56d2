//! Decimal notation for the machine's integers: reading and writing.

use vstd::prelude::*;
use vstd::string::*;
use crate::text::{chars_of, is_space};

verus! {

/// Whether `c` is one of the ten ASCII digits.
pub open spec fn is_digit(c: char) -> bool {
    '0' <= c <= '9'
}

/// The number that the digit `c` stands for.
pub open spec fn digit_value(c: char) -> int {
    c as int - '0' as int
}

/// The digit that stands for `d`, where `d` is below ten.
pub open spec fn digit_char(d: int) -> char {
    if d == 0 {
        '0'
    } else if d == 1 {
        '1'
    } else if d == 2 {
        '2'
    } else if d == 3 {
        '3'
    } else if d == 4 {
        '4'
    } else if d == 5 {
        '5'
    } else if d == 6 {
        '6'
    } else if d == 7 {
        '7'
    } else if d == 8 {
        '8'
    } else {
        '9'
    }
}

/// Whether `s` holds digits only.
pub open spec fn all_digits(s: Seq<char>) -> bool {
    forall|i: int| 0 <= i < s.len() ==> is_digit(#[trigger] s[i])
}

/// The number that the digits `s` denote in base ten.
pub open spec fn digits_value(s: Seq<char>) -> nat
    decreases s.len(),
{
    if s.len() == 0 {
        0
    } else {
        (digits_value(s.drop_last()) * 10 + digit_value(s.last())) as nat
    }
}

/// Why text is not an integer of a given type.
#[derive(Clone, Copy, Debug, PartialEq, Eq)]
pub enum Fault {
    /// The text is empty.
    Empty,
    /// A character is no digit, or a sign stands alone.
    InvalidDigit,
    /// The digits denote more than the type's largest value.
    TooLarge,
    /// The digits, negated, denote less than the type's smallest value.
    TooSmall,
}

/// The message that tells of `fault`.
pub open spec fn fault_text(fault: Fault) -> Seq<char> {
    match fault {
        Fault::Empty => "cannot parse integer from empty string"@,
        Fault::InvalidDigit => "invalid digit found in string"@,
        Fault::TooLarge => "number too large to fit in target type"@,
        Fault::TooSmall => "number too small to fit in target type"@,
    }
}

/// How many characters of `body` are read before reading stops: the length
/// of the longest prefix that holds digits only and denotes at most `limit`.
pub open spec fn read_len(body: Seq<char>, limit: int) -> nat
    decreases body.len(),
{
    if body.len() == 0 {
        0
    } else {
        let n = read_len(body.drop_last(), limit);
        if n == body.len() - 1 && is_digit(body.last()) && digits_value(body) <= limit {
            body.len()
        } else {
            n
        }
    }
}

/// The integer between `lo` and `hi` that `s` denotes, or why it denotes
/// none. A number is an optional sign, then one digit or more; the minus
/// sign is a sign only where `signed`. The text is read from the left, and
/// the first character that cannot be read decides the fault: one that is no
/// digit, or a digit with which the number leaves the range.
pub open spec fn read_int(s: Seq<char>, signed: bool, lo: int, hi: int) -> Result<int, Fault> {
    if s.len() == 0 {
        Err(Fault::Empty)
    } else {
        let negative = signed && s[0] == '-';
        let body = if s[0] == '+' || negative {
            s.drop_first()
        } else {
            s
        };
        let limit = if negative {
            -lo
        } else {
            hi
        };
        let n = read_len(body, limit) as int;
        if body.len() == 0 {
            Err(Fault::InvalidDigit)
        } else if n == body.len() {
            Ok(
                if negative {
                    -(digits_value(body) as int)
                } else {
                    digits_value(body) as int
                },
            )
        } else if !is_digit(body[n]) {
            Err(Fault::InvalidDigit)
        } else if negative {
            Err(Fault::TooSmall)
        } else {
            Err(Fault::TooLarge)
        }
    }
}

/// The digits of `n` in base ten, without leading zeros.
pub open spec fn digits_of(n: nat) -> Seq<char>
    decreases n,
{
    if n < 10 {
        seq![digit_char(n as int)]
    } else {
        digits_of(n / 10).push(digit_char((n % 10) as int))
    }
}

/// The decimal notation of `v`: a minus sign where `v` is negative, then the
/// digits of its magnitude.
pub open spec fn format_int(v: int) -> Seq<char> {
    if v < 0 {
        seq!['-'] + digits_of((-v) as nat)
    } else {
        digits_of(v as nat)
    }
}

/// A longer run of digits denotes no smaller number than any of its prefixes.
pub proof fn lemma_digits_value_grows(s: Seq<char>, k: int)
    requires
        all_digits(s),
        0 <= k <= s.len(),
    ensures
        digits_value(s.take(k)) <= digits_value(s),
    decreases s.len() - k,
{
    if k == s.len() {
        assert(s.take(k) =~= s);
    } else {
        lemma_digits_value_grows(s, k + 1);
        assert(s.take(k + 1).drop_last() =~= s.take(k));
        assert(is_digit(s[k]));
        assert(s.take(k + 1).last() == s[k]);
    }
}

/// The digits of a number are digits, at least one, and denote that number.
pub proof fn lemma_digits_of(n: nat)
    ensures
        digits_of(n).len() > 0,
        all_digits(digits_of(n)),
        digits_value(digits_of(n)) == n,
    decreases n,
{
    if n < 10 {
        let s = digits_of(n);
        assert(s.drop_last() =~= Seq::<char>::empty());
        assert(digits_value(s.drop_last()) == 0);
        assert(digit_value(s.last()) == n);
    } else {
        lemma_digits_of(n / 10);
        let front = digits_of(n / 10);
        let s = digits_of(n);
        assert(s.drop_last() =~= front);
        assert(digit_value(s.last()) == n % 10);
        assert forall|i: int| 0 <= i < s.len() implies is_digit(#[trigger] s[i]) by {
            if i < front.len() {
                assert(s[i] == front[i]);
            }
        }
    }
}

/// Reading never goes past the end of the text.
pub proof fn lemma_read_len_bound(body: Seq<char>, limit: int)
    ensures
        read_len(body, limit) <= body.len(),
    decreases body.len(),
{
    if body.len() > 0 {
        lemma_read_len_bound(body.drop_last(), limit);
    }
}

/// Digits that denote at most `limit` are read to the end.
pub proof fn lemma_read_all(body: Seq<char>, limit: int)
    requires
        all_digits(body),
        digits_value(body) <= limit,
    ensures
        read_len(body, limit) == body.len(),
    decreases body.len(),
{
    if body.len() > 0 {
        let front = body.drop_last();
        assert forall|i: int| 0 <= i < front.len() implies is_digit(#[trigger] front[i]) by {
            assert(front[i] == body[i]);
        }
        assert(is_digit(body.last()));
        lemma_read_all(front, limit);
    }
}

/// Where reading stops, it stops for every longer prefix too: if the first
/// `k` characters are read and the next one is no digit or takes the number
/// past `limit`, then of the first `j` characters `k` are read.
pub proof fn lemma_read_stops(body: Seq<char>, limit: int, k: int, j: int)
    requires
        0 <= k < j <= body.len(),
        read_len(body.take(k), limit) == k,
        !is_digit(body[k]) || digits_value(body.take(k + 1)) > limit,
    ensures
        read_len(body.take(j), limit) == k,
    decreases j - k,
{
    let prefix = body.take(j);
    assert(prefix.drop_last() =~= body.take(j - 1));
    if j == k + 1 {
        assert(prefix.last() == body[k]);
    } else {
        lemma_read_stops(body, limit, k, j - 1);
    }
}

/// Writing an integer and reading the text back gives the integer, for
/// every range that holds it and, where it is negative, takes a sign.
pub proof fn lemma_format_then_read(v: int, signed: bool, lo: int, hi: int)
    requires
        lo <= v <= hi,
        lo <= 0 <= hi,
        v < 0 ==> signed,
    ensures
        read_int(format_int(v), signed, lo, hi) == Ok::<int, Fault>(v),
{
    let s = format_int(v);
    if v < 0 {
        let body = digits_of((-v) as nat);
        lemma_digits_of((-v) as nat);
        assert(s[0] == '-');
        assert(s.drop_first() =~= body);
        lemma_read_all(body, -lo);
    } else {
        lemma_digits_of(v as nat);
        assert(is_digit(s[0]));
        lemma_read_all(s, hi);
    }
}

/// The notation of an integer ends in a digit, so it neither is empty nor
/// ends in whitespace.
pub proof fn lemma_format_ends_in_digit(v: int)
    ensures
        format_int(v).len() > 0,
        is_digit(format_int(v).last()),
        !is_space(format_int(v).last()),
{
    if v < 0 {
        lemma_digits_of((-v) as nat);
        let d = digits_of((-v) as nat);
        assert(format_int(v).last() == d[d.len() - 1]);
    } else {
        lemma_digits_of(v as nat);
        let d = digits_of(v as nat);
        assert(is_digit(d[d.len() - 1]));
    }
}

/// The message that tells of `fault`.
pub fn describe(fault: Fault) -> (r: String)
    ensures
        r@ == fault_text(fault),
{
    match fault {
        Fault::Empty => "cannot parse integer from empty string".to_owned(),
        Fault::InvalidDigit => "invalid digit found in string".to_owned(),
        Fault::TooLarge => "number too large to fit in target type".to_owned(),
        Fault::TooSmall => "number too small to fit in target type".to_owned(),
    }
}

/// Reads `text` as an integer between `lo` and `hi` in decimal notation,
/// with a minus sign allowed where `signed`. The bounds are those of an
/// integer type of at most 64 bits.
#[verifier::loop_isolation(false)]
pub fn read_decimal(text: &str, signed: bool, lo: i128, hi: i128) -> (r: Result<i128, Fault>)
    requires
        -0x1_0000_0000_0000_0000 <= lo <= 0 <= hi <= 0x1_0000_0000_0000_0000,
    ensures
        match r {
            Ok(v) => lo <= v <= hi && read_int(text@, signed, lo as int, hi as int) == Ok::<
                int,
                Fault,
            >(v as int),
            Err(fault) => read_int(text@, signed, lo as int, hi as int) == Err::<int, Fault>(
                fault,
            ),
        },
{
    let chars = chars_of(text);
    let n: usize = chars.len();
    if n == 0 {
        return Err(Fault::Empty);
    }
    let negative: bool = signed && chars[0] == '-';
    let first: usize = if chars[0] == '+' || negative {
        1
    } else {
        0
    };
    let ghost body = if first == 1 {
        text@.drop_first()
    } else {
        text@
    };
    assert(body =~= text@.skip(first as int));
    if first == n {
        return Err(Fault::InvalidDigit);
    }
    let limit: u128 = if negative {
        (-lo) as u128
    } else {
        hi as u128
    };
    let mut acc: u128 = 0;
    let mut i: usize = first;
    assert(body.take(0) =~= Seq::<char>::empty());
    while i < n
        invariant
            first <= i <= n,
            read_len(body.take(i - first), limit as int) == i - first,
            acc == digits_value(body.take(i - first)),
            acc <= limit,
        decreases n - i,
    {
        let c = chars[i];
        let ghost seen = body.take(i - first + 1);
        assert(seen.drop_last() =~= body.take(i - first));
        assert(seen.last() == c);
        assert(body[i - first] == c);
        if !('0' <= c && c <= '9') {
            proof {
                lemma_read_stops(body, limit as int, i - first, body.len() as int);
                assert(body.take(body.len() as int) =~= body);
            }
            return Err(Fault::InvalidDigit);
        }
        let d: u128 = (c as u32 - '0' as u32) as u128;
        let next: u128 = acc * 10 + d;
        if next > limit {
            proof {
                lemma_read_stops(body, limit as int, i - first, body.len() as int);
                assert(body.take(body.len() as int) =~= body);
            }
            if negative {
                return Err(Fault::TooSmall);
            } else {
                return Err(Fault::TooLarge);
            }
        }
        acc = next;
        i = i + 1;
    }
    assert(body.take(n - first) =~= body);
    if negative {
        Ok(-(acc as i128))
    } else {
        Ok(acc as i128)
    }
}

/// The one-character text of the digit that stands for `d`.
fn digit_text(d: u128) -> (r: &'static str)
    requires
        d < 10,
    ensures
        r@ == seq![digit_char(d as int)],
{
    proof {
        reveal_strlit("0");
        reveal_strlit("1");
        reveal_strlit("2");
        reveal_strlit("3");
        reveal_strlit("4");
        reveal_strlit("5");
        reveal_strlit("6");
        reveal_strlit("7");
        reveal_strlit("8");
        reveal_strlit("9");
    }
    let r = if d == 0 {
        "0"
    } else if d == 1 {
        "1"
    } else if d == 2 {
        "2"
    } else if d == 3 {
        "3"
    } else if d == 4 {
        "4"
    } else if d == 5 {
        "5"
    } else if d == 6 {
        "6"
    } else if d == 7 {
        "7"
    } else if d == 8 {
        "8"
    } else {
        "9"
    };
    assert(r@ =~= seq![digit_char(d as int)]);
    r
}

/// The digits of `n` in base ten, without leading zeros.
fn digits(n: u128) -> (r: String)
    ensures
        r@ == digits_of(n as nat),
    decreases n,
{
    if n < 10 {
        String::from_str(digit_text(n))
    } else {
        let front = digits(n / 10);
        let r = front.concat(digit_text(n % 10));
        assert(r@ =~= digits_of(n as nat));
        r
    }
}

/// Writes `v` in decimal notation.
pub fn to_decimal(v: i128) -> (r: String)
    ensures
        r@ == format_int(v as int),
{
    if v < 0 {
        let magnitude: u128 = if v == i128::MIN {
            0x8000_0000_0000_0000_0000_0000_0000_0000u128
        } else {
            (-v) as u128
        };
        let body = digits(magnitude);
        let r = String::from_str("-").concat(body.as_str());
        proof {
            reveal_strlit("-");
            assert(r@ =~= format_int(v as int));
        }
        r
    } else {
        digits(v as u128)
    }
}

} // verus!
