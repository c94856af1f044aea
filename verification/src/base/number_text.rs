//! Decimal rendering and parsing of unsigned integers.

use vstd::prelude::*;

verus! {

/// The ASCII digit for `d` (`0 <= d < 10`).
pub open spec fn digit_char(d: nat) -> char {
    (('0' as u32) + d) as char
}

/// The decimal representation of `n`, without leading zeros.
pub open spec fn decimal(n: nat) -> Seq<char>
    decreases n,
{
    if n < 10 {
        seq![digit_char(n)]
    } else {
        decimal(n / 10).push(digit_char(n % 10))
    }
}

/// `c` is an ASCII decimal digit.
pub open spec fn is_ascii_digit(c: char) -> bool {
    '0' <= c <= '9'
}

/// The value of a sequence of ASCII digits.
pub open spec fn digits_value(s: Seq<char>) -> nat
    decreases s.len(),
{
    if s.len() == 0 {
        0
    } else {
        digits_value(s.drop_last()) * 10 + ((s.last() as u32) - ('0' as u32)) as nat
    }
}

/// The digits of an unsigned integer literal as `str::parse` reads it: an
/// optional leading `+` is skipped.
pub open spec fn unsigned_digits(s: Seq<char>) -> Seq<char> {
    if s.len() > 0 && s[0] == '+' {
        s.drop_first()
    } else {
        s
    }
}

/// The value `str::parse` gives for an unsigned integer no greater than
/// `max`: one or more ASCII digits, after an optional `+`, whose value does
/// not exceed `max`.
pub open spec fn parse_unsigned_spec(s: Seq<char>, max: nat) -> Option<nat> {
    let d = unsigned_digits(s);
    if d.len() > 0 && (forall|i: int| 0 <= i < d.len() ==> is_ascii_digit(#[trigger] d[i]))
        && digits_value(d) <= max {
        Some(digits_value(d))
    } else {
        None
    }
}

/// The decimal representation of `n`.
pub fn decimal_chars(n: u64) -> (r: Vec<char>)
    ensures
        r@ == decimal(n as nat),
    decreases n,
{
    if n < 10 {
        let c = char_from_digit(n as u32);
        let mut v = Vec::new();
        v.push(c);
        assert(v@ =~= seq![digit_char(n as nat)]);
        v
    } else {
        let mut v = decimal_chars(n / 10);
        let c = char_from_digit((n % 10) as u32);
        v.push(c);
        v
    }
}

/// The ASCII digit for `d`.
fn char_from_digit(d: u32) -> (c: char)
    requires
        d < 10,
    ensures
        c == digit_char(d as nat),
{
    if d == 0 { '0' }
    else if d == 1 { '1' }
    else if d == 2 { '2' }
    else if d == 3 { '3' }
    else if d == 4 { '4' }
    else if d == 5 { '5' }
    else if d == 6 { '6' }
    else if d == 7 { '7' }
    else if d == 8 { '8' }
    else { '9' }
}

/// Value of the ASCII digit `c`.
fn digit_value(c: char) -> (d: u64)
    requires
        is_ascii_digit(c),
    ensures
        d == (c as u32) - ('0' as u32),
        d < 10,
{
    ((c as u32) - ('0' as u32)) as u64
}

/// Parses an unsigned decimal integer no greater than `max`, as `str::parse`
/// does for unsigned integer types.
pub fn parse_unsigned(s: &[char], max: u64) -> (r: Option<u64>)
    ensures
        match parse_unsigned_spec(s@, max as nat) {
            Some(v) => r == Some(v as u64),
            None => r is None,
        },
{
    let start: usize = if s.len() > 0 && s[0] == '+' { 1 } else { 0 };
    let ghost d = unsigned_digits(s@);
    assert(d =~= s@.skip(start as int));
    if start == s.len() {
        return None;
    }
    let mut value: u64 = 0;
    let mut i: usize = start;
    while i < s.len()
        invariant
            start <= i <= s@.len(),
            d == s@.skip(start as int),
            d == unsigned_digits(s@),
            forall|k: int| 0 <= k < i - start ==> is_ascii_digit(#[trigger] d[k]),
            value as nat == digits_value(d.take(i - start)),
            value <= max,
        decreases s@.len() - i,
    {
        let c = s[i];
        assert(d[i - start] == c);
        if !('0' <= c && c <= '9') {
            assert(!is_ascii_digit(d[i - start]));
            return None;
        }
        let dv = digit_value(c);
        assert(d.take(i - start + 1).drop_last() =~= d.take(i - start));
        if dv > max || value > (max - dv) / 10 {
            assert(value * 10 + dv > max) by (nonlinear_arith)
                requires
                    dv > max || value > (max - dv) / 10,
                    dv <= max ==> (max - dv) / 10 * 10 <= max - dv,
                    dv <= max ==> max - dv < (max - dv) / 10 * 10 + 10,
            ;
            proof {
                lemma_digits_exceed(d, (i - start) as int, max as nat);
            }
            return None;
        }
        assert(value * 10 + dv <= max) by (nonlinear_arith)
            requires
                dv <= max,
                value <= (max - dv) / 10,
                (max - dv) / 10 * 10 <= max - dv,
        ;
        value = value * 10 + dv;
        i = i + 1;
    }
    assert(d.take(d.len() as int) =~= d);
    Some(value)
}

/// Once a prefix of digits exceeds `max`, the whole digit sequence does.
proof fn lemma_digits_exceed(d: Seq<char>, k: int, max: nat)
    requires
        0 <= k < d.len(),
        digits_value(d.take(k + 1)) > max,
        forall|i: int| 0 <= i < d.len() ==> is_ascii_digit(#[trigger] d[i]) || i > k,
    ensures
        (forall|i: int| 0 <= i < d.len() ==> is_ascii_digit(#[trigger] d[i])) ==> digits_value(d) > max,
    decreases d.len() - k,
{
    if k + 1 < d.len() {
        assert(d.take(k + 2).drop_last() =~= d.take(k + 1));
        if forall|i: int| 0 <= i < d.len() ==> is_ascii_digit(#[trigger] d[i]) {
            assert(is_ascii_digit(d[k + 1]));
            assert(digits_value(d.take(k + 2)) >= digits_value(d.take(k + 1)) * 10);
            lemma_digits_exceed(d, k + 1, max);
        }
    } else {
        assert(d.take(k + 1) =~= d);
    }
}

} // verus!
