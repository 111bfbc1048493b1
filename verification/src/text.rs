//! Bytes read as text: decimal numbers, letter case and comparison.

use vstd::prelude::*;
use vstd::string::StringExecFns;

verus! {

/// Tells whether `b` is one of the ten decimal digits.
pub open spec fn is_digit(b: u8) -> bool {
    '0' as u8 <= b <= '9' as u8
}

/// Tells whether `s` holds decimal digits only.
pub open spec fn all_digits(s: Seq<u8>) -> bool {
    forall|i: int| 0 <= i < s.len() ==> is_digit(#[trigger] s[i])
}

/// The number that the decimal digits `s` spell, the most significant first.
pub open spec fn digits_value(s: Seq<u8>) -> nat
    decreases s.len(),
{
    if s.len() == 0 {
        0
    } else {
        digits_value(s.drop_last()) * 10 + (s.last() - '0' as u8) as nat
    }
}

/// The number that `s` spells as an unsigned decimal: one or more digits,
/// which a single `+` may precede.
pub open spec fn unsigned_value(s: Seq<u8>) -> Option<nat> {
    let digits = if s.len() > 0 && s[0] == '+' as u8 {
        s.drop_first()
    } else {
        s
    };
    if digits.len() > 0 && all_digits(digits) {
        Some(digits_value(digits))
    } else {
        None
    }
}

/// The number that `s` spells as a signed decimal: one or more digits, which
/// a single `+` or `-` may precede.
pub open spec fn signed_value(s: Seq<u8>) -> Option<int> {
    if s.len() > 0 && s[0] == '-' as u8 {
        let digits = s.drop_first();
        if digits.len() > 0 && all_digits(digits) {
            Some(-(digits_value(digits) as int))
        } else {
            None
        }
    } else {
        match unsigned_value(s) {
            Some(n) => Some(n as int),
            None => None,
        }
    }
}

/// The `i32` that `s` spells, where it spells a signed decimal within the
/// range of `i32`.
pub open spec fn i32_value(s: Seq<u8>) -> Option<i32> {
    match signed_value(s) {
        Some(n) => if i32::MIN <= n <= i32::MAX {
            Some(n as i32)
        } else {
            None
        },
        None => None,
    }
}

/// The `u64` that `s` spells, where it spells an unsigned decimal within the
/// range of `u64`.
pub open spec fn u64_value(s: Seq<u8>) -> Option<u64> {
    match unsigned_value(s) {
        Some(n) => if n <= u64::MAX {
            Some(n as u64)
        } else {
            None
        },
        None => None,
    }
}

/// A run of digits is worth no less than any run that it starts with.
proof fn lemma_digits_value_grows(s: Seq<u8>, k: int)
    requires
        0 <= k <= s.len(),
    ensures
        digits_value(s.subrange(0, k)) <= digits_value(s),
    decreases s.len() - k,
{
    if k == s.len() {
        assert(s.subrange(0, k) =~= s);
    } else {
        lemma_digits_value_grows(s, k + 1);
        assert(s.subrange(0, k + 1).drop_last() =~= s.subrange(0, k));
    }
}

/// Reads the digits of `bytes` from position `from` to the end as a number
/// that does not exceed `limit`.
fn read_digits(bytes: &[u8], from: usize, limit: u64) -> (number: Option<u64>)
    requires
        from <= bytes.len(),
    ensures
        ({
            let digits = bytes@.subrange(from as int, bytes.len() as int);
            if digits.len() > 0 && all_digits(digits) && digits_value(digits) <= limit {
                number == Some(digits_value(digits) as u64)
            } else {
                number is None
            }
        }),
{
    let ghost digits = bytes@.subrange(from as int, bytes.len() as int);
    let mut total: u64 = 0;
    let mut i: usize = from;
    while i < bytes.len()
        invariant
            from <= i <= bytes.len(),
            digits == bytes@.subrange(from as int, bytes.len() as int),
            all_digits(digits.subrange(0, i - from)),
            total == digits_value(digits.subrange(0, i - from)),
            total <= limit,
        decreases bytes.len() - i,
    {
        let b = bytes[i];
        if b < '0' as u8 || b > '9' as u8 {
            assert(!is_digit(digits[i - from]));
            return None;
        }
        let next: u128 = total as u128 * 10 + (b - '0' as u8) as u128;
        proof {
            let longer = digits.subrange(0, i - from + 1);
            assert(longer.drop_last() =~= digits.subrange(0, i - from));
            assert(digits_value(longer) == next);
            lemma_digits_value_grows(digits, i - from + 1);
        }
        if next > limit as u128 {
            return None;
        }
        total = next as u64;
        i += 1;
    }
    proof {
        assert(digits.subrange(0, i - from) =~= digits);
    }
    if i == from {
        None
    } else {
        Some(total)
    }
}

/// Reads `bytes` as a signed decimal number within the range of `i32`.
pub fn parse_i32(bytes: &[u8]) -> (number: Option<i32>)
    ensures
        number == i32_value(bytes@),
{
    if bytes.len() > 0 && bytes[0] == '-' as u8 {
        assert(bytes@.drop_first() =~= bytes@.subrange(1, bytes.len() as int));
        match read_digits(bytes, 1, i32::MAX as u64 + 1) {
            Some(n) => Some((-(n as i64)) as i32),
            None => None,
        }
    } else {
        let from: usize = if bytes.len() > 0 && bytes[0] == '+' as u8 {
            1
        } else {
            0
        };
        assert(bytes@.drop_first() =~= bytes@.subrange(1, bytes.len() as int));
        assert(bytes@ =~= bytes@.subrange(0, bytes.len() as int));
        match read_digits(bytes, from, i32::MAX as u64) {
            Some(n) => Some(n as i32),
            None => None,
        }
    }
}

/// Reads `bytes` as an unsigned decimal number within the range of `u64`.
pub fn parse_u64(bytes: &[u8]) -> (number: Option<u64>)
    ensures
        number == u64_value(bytes@),
{
    let from: usize = if bytes.len() > 0 && bytes[0] == '+' as u8 {
        1
    } else {
        0
    };
    assert(bytes@.drop_first() =~= bytes@.subrange(1, bytes.len() as int));
    assert(bytes@ =~= bytes@.subrange(0, bytes.len() as int));
    read_digits(bytes, from, u64::MAX)
}

/// The capital of an ASCII small letter, and any other byte as it is.
pub open spec fn upper(b: u8) -> u8 {
    if 'a' as u8 <= b <= 'z' as u8 {
        (b - 32) as u8
    } else {
        b
    }
}

/// Tells whether `a` and `b` are the same text but for the case of their
/// ASCII letters.
pub open spec fn same_ignoring_case(a: Seq<u8>, b: Seq<u8>) -> bool {
    &&& a.len() == b.len()
    &&& forall|i: int| 0 <= i < a.len() ==> upper(#[trigger] a[i]) == upper(b[i])
}

fn to_upper(b: u8) -> (capital: u8)
    ensures
        capital == upper(b),
{
    if 'a' as u8 <= b && b <= 'z' as u8 {
        b - 32
    } else {
        b
    }
}

/// Compares `a` and `b` without regard to the case of ASCII letters.
pub fn eq_ignore_case(a: &[u8], b: &[u8]) -> (same: bool)
    ensures
        same == same_ignoring_case(a@, b@),
{
    if a.len() != b.len() {
        return false;
    }
    let mut i: usize = 0;
    while i < a.len()
        invariant
            0 <= i <= a.len(),
            a.len() == b.len(),
            forall|j: int| 0 <= j < i ==> upper(#[trigger] a@[j]) == upper(b@[j]),
        decreases a.len() - i,
    {
        if to_upper(a[i]) != to_upper(b[i]) {
            return false;
        }
        i += 1;
    }
    true
}

/// Compares `a` and `b` byte by byte.
pub fn eq_bytes(a: &[u8], b: &[u8]) -> (same: bool)
    ensures
        same == (a@ == b@),
{
    if a.len() != b.len() {
        return false;
    }
    let mut i: usize = 0;
    while i < a.len()
        invariant
            0 <= i <= a.len(),
            a.len() == b.len(),
            forall|j: int| 0 <= j < i ==> a@[j] == b@[j],
        decreases a.len() - i,
    {
        if a[i] != b[i] {
            return false;
        }
        i += 1;
    }
    assert(a@ =~= b@);
    true
}

/// The character that stands for the decimal digit `d`.
pub open spec fn digit_char(d: nat) -> char {
    (('0' as u8) + d) as u8 as char
}

/// How the number `n` is written in decimal, without a sign and without
/// leading zeros.
pub open spec fn decimal(n: nat) -> Seq<char>
    decreases n,
{
    if n < 10 {
        seq![digit_char(n)]
    } else {
        decimal(n / 10).push(digit_char(n % 10))
    }
}

/// How the number `n` is written in decimal, with a `-` before it when it is
/// negative.
pub open spec fn signed_decimal(n: int) -> Seq<char> {
    if n < 0 {
        seq!['-'] + decimal((-n) as nat)
    } else {
        decimal(n as nat)
    }
}

fn digit_text(d: u8) -> (text: &'static str)
    requires
        d < 10,
    ensures
        text@ == seq![digit_char(d as nat)],
{
    proof {
        reveal_strlit("0");
        reveal_strlit("1");
        reveal_strlit("2");
        reveal_strlit("3");
        reveal_strlit("4");
        reveal_strlit("5");
        reveal_strlit("6");
        reveal_strlit("7");
        reveal_strlit("8");
        reveal_strlit("9");
    }
    let text = match d {
        0 => "0",
        1 => "1",
        2 => "2",
        3 => "3",
        4 => "4",
        5 => "5",
        6 => "6",
        7 => "7",
        8 => "8",
        _ => "9",
    };
    assert(text@ =~= seq![digit_char(d as nat)]);
    text
}

/// Writes `n` in decimal at the end of `out`.
pub fn push_decimal(out: &mut String, n: u128)
    ensures
        final(out)@ == old(out)@ + decimal(n as nat),
    decreases n,
{
    if n >= 10 {
        push_decimal(out, n / 10);
    }
    out.append(digit_text((n % 10) as u8));
    assert(out@ =~= old(out)@ + decimal(n as nat));
}

/// Writes `n` in decimal at the end of `out`, after a `-` when it is
/// negative.
pub fn push_signed_decimal(out: &mut String, n: i64)
    ensures
        final(out)@ == old(out)@ + signed_decimal(n as int),
{
    if n < 0 {
        proof {
            reveal_strlit("-");
        }
        out.append("-");
        push_decimal(out, (-(n as i128)) as u128);
        assert(out@ =~= old(out)@ + signed_decimal(n as int));
    } else {
        push_decimal(out, n as u128);
    }
}

} // verus!
