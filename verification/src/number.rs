//! Decimal integers in text: reading an `i64` the way `str::parse::<i64>` does,
//! and writing one the way `Display` does.
use vstd::prelude::*;

verus! {

/// Why a text is not an `i64` (the kinds of `std::num::IntErrorKind` that
/// parsing can give).
#[derive(Debug, Clone, Copy, PartialEq, Eq, Structural)]
pub enum IntErrorKind {
    /// The text is empty.
    Empty,
    /// The text holds a character that is not a digit where one is needed.
    InvalidDigit,
    /// The number is larger than `i64::MAX`.
    PosOverflow,
    /// The number is smaller than `i64::MIN`.
    NegOverflow,
}

/// Whether `c` is one of the ASCII digits `0`..`9`.
pub open spec fn is_digit(c: char) -> bool {
    48 <= (c as u32) <= 57
}

/// The value of the digit `c`.
pub open spec fn digit_value(c: char) -> int {
    (c as u32) - 48
}

/// The character of the digit `d` (`0 <= d < 10`).
pub open spec fn digit_char(d: int) -> char {
    (d + 48) as char
}

/// How many digits `s` begins with.
pub open spec fn leading_digits(s: Seq<char>) -> nat
    decreases s.len(),
{
    if s.len() > 0 && is_digit(s[0]) {
        1 + leading_digits(s.drop_first())
    } else {
        0
    }
}

/// The number that the digits `s` write in base ten.
pub open spec fn digits_value(s: Seq<char>) -> int
    decreases s.len(),
{
    if s.len() == 0 {
        0
    } else {
        digits_value(s.drop_last()) * 10 + digit_value(s.last())
    }
}

/// What `str::parse::<i64>` gives for the text `s`: an optional sign (`+` or `-`)
/// followed by one or more digits, within the range of `i64`. Digits are read
/// from the left, and the first place where the text stops being a valid number
/// decides the error: a number that has grown out of range is an overflow, a
/// character that is not a digit is an invalid digit.
pub open spec fn integer_parse(s: Seq<char>) -> Result<i64, IntErrorKind> {
    if s.len() == 0 {
        Err(IntErrorKind::Empty)
    } else if (s[0] == '+' || s[0] == '-') && s.len() == 1 {
        Err(IntErrorKind::InvalidDigit)
    } else {
        let negative = s[0] == '-';
        let body = if s[0] == '+' || s[0] == '-' {
            s.drop_first()
        } else {
            s
        };
        let k = leading_digits(body);
        let magnitude = digits_value(body.take(k as int));
        let value = if negative {
            -magnitude
        } else {
            magnitude
        };
        if value > i64::MAX {
            Err(IntErrorKind::PosOverflow)
        } else if value < i64::MIN {
            Err(IntErrorKind::NegOverflow)
        } else if k < body.len() {
            Err(IntErrorKind::InvalidDigit)
        } else {
            Ok(value as i64)
        }
    }
}

/// The decimal digits of `n`, without leading zeros (`"0"` for zero).
pub open spec fn natural_digits(n: nat) -> Seq<char>
    decreases n,
{
    if n < 10 {
        seq![digit_char(n as int)]
    } else {
        natural_digits(n / 10).push(digit_char((n % 10) as int))
    }
}

/// The decimal form of `n`, with a `-` before a negative number.
pub open spec fn decimal(n: int) -> Seq<char> {
    if n < 0 {
        seq!['-'] + natural_digits((-n) as nat)
    } else {
        natural_digits(n as nat)
    }
}

// ---------------------------------------------------------------------------
// Lemmas
// ---------------------------------------------------------------------------

/// `leading_digits` counts exactly the digits before the first non-digit.
pub proof fn lemma_leading_digits(s: Seq<char>, j: int)
    requires
        0 <= j <= s.len(),
        forall|i: int| 0 <= i < j ==> is_digit(#[trigger] s[i]),
    ensures
        j <= leading_digits(s) <= s.len(),
        j < s.len() && !is_digit(s[j]) ==> leading_digits(s) == j,
    decreases j,
{
    lemma_leading_digits_bound(s);
    if j > 0 {
        assert(is_digit(s[0]));
        assert forall|i: int| 0 <= i < j - 1 implies is_digit(#[trigger] s.drop_first()[i]) by {
            assert(s.drop_first()[i] == s[i + 1]);
        }
        lemma_leading_digits(s.drop_first(), j - 1);
    }
}

/// The characters counted by `leading_digits` are digits.
pub proof fn lemma_leading_digits_bound(s: Seq<char>)
    ensures
        leading_digits(s) <= s.len(),
        forall|i: int| 0 <= i < leading_digits(s) ==> is_digit(#[trigger] s[i]),
    decreases s.len(),
{
    if s.len() > 0 && is_digit(s[0]) {
        lemma_leading_digits_bound(s.drop_first());
        assert forall|i: int| 0 <= i < leading_digits(s) implies is_digit(#[trigger] s[i]) by {
            if i > 0 {
                assert(s[i] == s.drop_first()[i - 1]);
            }
        }
    }
}

/// Reading one more digit never makes the number smaller.
pub proof fn lemma_digits_value_grows(s: Seq<char>, a: int, b: int)
    requires
        0 <= a <= b <= s.len(),
        forall|i: int| 0 <= i < b ==> is_digit(#[trigger] s[i]),
    ensures
        0 <= digits_value(s.take(a)) <= digits_value(s.take(b)),
    decreases b,
{
    if b == 0 {
        assert(s.take(a) =~= s.take(0));
    } else {
        assert(s.take(b).drop_last() =~= s.take(b - 1));
        assert(is_digit(s[b - 1]));
        if a < b {
            lemma_digits_value_grows(s, a, b - 1);
        } else {
            lemma_digits_value_grows(s, b - 1, b - 1);
        }
    }
}

/// A digit's character reads back as the digit.
pub proof fn lemma_digit_char(d: int)
    requires
        0 <= d < 10,
    ensures
        is_digit(digit_char(d)),
        digit_value(digit_char(d)) == d,
{
    let u = (d + 48) as u32;
    assert(u as char == digit_char(d));
    assert((u as char) as u32 == u);
}

/// The digits of `n` are digits, and they read back as `n`.
pub proof fn lemma_natural_digits(n: nat)
    ensures
        natural_digits(n).len() >= 1,
        forall|i: int| 0 <= i < natural_digits(n).len() ==> is_digit(#[trigger] natural_digits(n)[i]),
        digits_value(natural_digits(n)) == n,
        leading_digits(natural_digits(n)) == natural_digits(n).len(),
    decreases n,
{
    let s = natural_digits(n);
    if n < 10 {
        lemma_digit_char(n as int);
        assert(s.drop_last() =~= Seq::<char>::empty());
        assert(digits_value(s.drop_last()) == 0);
        assert(s.last() == digit_char(n as int));
        assert(digits_value(s) == n);
    } else {
        lemma_digit_char((n % 10) as int);
        lemma_natural_digits(n / 10);
        assert(s.drop_last() =~= natural_digits(n / 10));
        assert(n == (n / 10) * 10 + n % 10);
        assert(s.last() == digit_char((n % 10) as int));
        assert(digits_value(s) == n);
    }
    lemma_leading_digits(s, s.len() as int);
}

/// Reading the decimal form of an `i64` gives the number back.
pub proof fn lemma_decimal_parses(n: i64)
    ensures
        integer_parse(decimal(n as int)) == Ok::<i64, IntErrorKind>(n),
        decimal(n as int).len() >= 1,
        is_digit(decimal(n as int).last()),
        is_digit(decimal(n as int)[0]) || decimal(n as int)[0] == '-',
        forall|i: int| 0 <= i < decimal(n as int).len() ==> (is_digit(#[trigger] decimal(n as int)[i]) || (i == 0 && decimal(n as int)[i] == '-')),
{
    let d = decimal(n as int);
    if n < 0 {
        let m = (-n) as nat;
        lemma_natural_digits(m);
        let body = natural_digits(m);
        assert(d.drop_first() =~= body);
        assert(body.take(body.len() as int) =~= body);
        assert forall|i: int| 0 <= i < d.len() implies (is_digit(#[trigger] d[i]) || (i == 0 && d[i] == '-')) by {
            if i > 0 {
                assert(d[i] == body[i - 1]);
            }
        }
        assert(d.last() == body.last());
    } else {
        lemma_natural_digits(n as nat);
        let body = natural_digits(n as nat);
        assert(body.take(body.len() as int) =~= body);
        assert(is_digit(body[0]));
    }
}

// ---------------------------------------------------------------------------
// Executable functions
// ---------------------------------------------------------------------------

/// Whether `c` is an ASCII digit.
pub fn is_digit_char(c: char) -> (b: bool)
    ensures
        b == is_digit(c),
{
    let u = c as u32;
    48 <= u && u <= 57
}

/// Reads `v[lo..hi]` as an `i64`, as `str::parse::<i64>` does.
pub fn parse_i64(v: &Vec<char>, lo: usize, hi: usize) -> (r: Result<i64, IntErrorKind>)
    requires
        lo <= hi <= v@.len(),
    ensures
        r == integer_parse(v@.subrange(lo as int, hi as int)),
{
    let ghost s = v@.subrange(lo as int, hi as int);
    if lo == hi {
        return Err(IntErrorKind::Empty);
    }
    let first = v[lo];
    assert(s[0] == first);
    if (first == '+' || first == '-') && hi - lo == 1 {
        return Err(IntErrorKind::InvalidDigit);
    }
    let negative = first == '-';
    let p = if first == '+' || first == '-' {
        lo + 1
    } else {
        lo
    };
    let ghost body = v@.subrange(p as int, hi as int);
    assert(body =~= (if first == '+' || first == '-' {
        s.drop_first()
    } else {
        s
    }));
    let mut acc: i128 = 0;
    let mut j = p;
    assert(body.take(0) =~= Seq::<char>::empty());
    while j < hi
        invariant
            lo <= p <= j <= hi <= v@.len(),
            body == v@.subrange(p as int, hi as int),
            s == v@.subrange(lo as int, hi as int),
            s.len() > 0,
            !((s[0] == '+' || s[0] == '-') && s.len() == 1),
            negative == (s[0] == '-'),
            body == (if s[0] == '+' || s[0] == '-' {
                s.drop_first()
            } else {
                s
            }),
            forall|i: int| 0 <= i < j - p ==> is_digit(#[trigger] body[i]),
            acc == (if negative {
                -digits_value(body.take(j - p))
            } else {
                digits_value(body.take(j - p))
            }),
            i64::MIN <= acc <= i64::MAX,
        decreases hi - j,
    {
        let c = v[j];
        assert(body[j - p] == c);
        if !is_digit_char(c) {
            proof {
                lemma_leading_digits(body, j - p);
                assert(leading_digits(body) == j - p);
            }
            return Err(IntErrorKind::InvalidDigit);
        }
        let d = (c as u32 - 48) as i128;
        assert(body.take(j - p + 1).drop_last() =~= body.take(j - p));
        assert(body.take(j - p + 1).last() == c);
        assert(digits_value(body.take(j - p + 1)) == digits_value(body.take(j - p)) * 10 + d);
        if negative {
            acc = acc * 10 - d;
        } else {
            acc = acc * 10 + d;
        }
        j = j + 1;
        assert(is_digit(body[j - p - 1]));
        if acc > i64::MAX as i128 || acc < i64::MIN as i128 {
            proof {
                lemma_leading_digits(body, j - p);
                lemma_leading_digits_bound(body);
                lemma_digits_value_grows(body, j - p, leading_digits(body) as int);
            }
            if negative {
                return Err(IntErrorKind::NegOverflow);
            } else {
                return Err(IntErrorKind::PosOverflow);
            }
        }
    }
    proof {
        lemma_leading_digits(body, j - p);
    }
    Ok(acc as i64)
}

/// Appends the decimal digits of `m` to `out`.
fn push_natural(out: &mut Vec<char>, m: u64)
    ensures
        final(out)@ == old(out)@ + natural_digits(m as nat),
    decreases m,
{
    if m >= 10 {
        push_natural(out, m / 10);
    }
    let d = (m % 10) as u8;
    let c = (48u8 + d) as char;
    out.push(c);
    assert(old(out)@ + natural_digits(m as nat) =~= final(out)@);
}

/// Appends the decimal form of `n` to `out`, as `Display` writes it.
pub fn push_decimal(out: &mut Vec<char>, n: i64)
    ensures
        final(out)@ == old(out)@ + decimal(n as int),
{
    if n < 0 {
        out.push('-');
        let m: u64 = (-(n as i128)) as u64;
        push_natural(out, m);
        assert(final(out)@ =~= old(out)@ + decimal(n as int));
    } else {
        push_natural(out, n as u64);
    }
}

} // verus!
