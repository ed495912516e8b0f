//! Numbers in text: decimal and hexadecimal digits, both ways.

use crate::text::{chars_of, is_ascii_digit, join2};
use vstd::prelude::*;

verus! {

/// The decimal digit of value `d`.
pub open spec fn digit_char(d: nat) -> char {
    ((48 + d) as u8) as char
}

/// Decimal digits of `n`, without leading zeros.
pub open spec fn decimal(n: nat) -> Seq<char>
    decreases n,
{
    if n < 10 {
        seq![digit_char(n)]
    } else {
        decimal(n / 10).push(digit_char(n % 10))
    }
}

/// Decimal digits of `n` behind its sign.
pub open spec fn signed_decimal(n: int) -> Seq<char> {
    if n < 0 {
        seq!['-'] + decimal((-n) as nat)
    } else {
        decimal(n as nat)
    }
}

/// The number that a run of digits writes down.
pub open spec fn digits_value(s: Seq<char>) -> nat
    decreases s.len(),
{
    if s.len() == 0 {
        0
    } else {
        digits_value(s.drop_last()) * 10 + ((s.last() as nat) - 48) as nat
    }
}

/// Whether `s` holds decimal digits only.
pub open spec fn all_digits(s: Seq<char>) -> bool {
    forall|i: int| 0 <= i < s.len() ==> is_ascii_digit(#[trigger] s[i])
}

/// `s` without one leading plus sign.
pub open spec fn unsigned_part(s: Seq<char>) -> Seq<char> {
    if s.len() > 0 && s[0] == '+' {
        s.skip(1)
    } else {
        s
    }
}

/// The number not above `max` that `s` writes down in decimal digits, an
/// optional plus sign in front of them.
pub open spec fn number_up_to(s: Seq<char>, max: nat) -> Option<nat> {
    let t = unsigned_part(s);
    if t.len() > 0 && all_digits(t) && digits_value(t) <= max {
        Some(digits_value(t))
    } else {
        None
    }
}

/// Decimal digits are digits, at least one, and write down the number.
pub proof fn lemma_decimal(n: nat)
    ensures
        decimal(n).len() > 0,
        all_digits(decimal(n)),
        digits_value(decimal(n)) == n,
    decreases n,
{
    if n < 10 {
        let s = decimal(n);
        assert(s.drop_last() =~= Seq::<char>::empty());
        assert(digits_value(s.drop_last()) == 0);
    } else {
        lemma_decimal(n / 10);
        let s = decimal(n);
        assert(s.drop_last() =~= decimal(n / 10));
    }
}

/// Numbers with the same decimal digits are equal.
pub proof fn lemma_decimal_injective(a: nat, b: nat)
    requires
        decimal(a) == decimal(b),
    ensures
        a == b,
{
    lemma_decimal(a);
    lemma_decimal(b);
}

/// Reading back a number's decimal digits gives the number.
pub proof fn lemma_decimal_reads_back(n: nat, max: nat)
    requires
        n <= max,
    ensures
        number_up_to(decimal(n), max) == Some(n),
{
    lemma_decimal(n);
}

proof fn lemma_digits_value_prefix(s: Seq<char>, k: int)
    requires
        0 <= k <= s.len(),
        all_digits(s),
    ensures
        digits_value(s.take(k)) <= digits_value(s),
    decreases s.len(),
{
    if k == s.len() {
        assert(s.take(k) =~= s);
    } else {
        lemma_digits_value_prefix(s.drop_last(), k);
        assert(s.drop_last().take(k) =~= s.take(k));
        assert(is_ascii_digit(s[s.len() - 1]));
    }
}

/// The number that `s` writes down, where it is one and not above `max`.
pub fn parse_up_to(s: &str, max: u64) -> (r: Option<u64>)
    ensures
        match r {
            Some(n) => number_up_to(s@, max as nat) == Some(n as nat),
            None => number_up_to(s@, max as nat) is None,
        },
{
    let cs = chars_of(s);
    let start: usize = if cs.len() > 0 && cs[0] == '+' {
        1
    } else {
        0
    };
    let ghost t = unsigned_part(s@);
    assert(t =~= cs@.skip(start as int));
    if start == cs.len() {
        return None;
    }
    let mut acc: u64 = 0;
    let mut i: usize = start;
    assert(t.take(0) =~= Seq::<char>::empty());
    while i < cs.len()
        invariant
            start <= i <= cs.len(),
            t == cs@.skip(start as int),
            t == unsigned_part(s@),
            acc <= max,
            acc == digits_value(t.take(i - start)),
            forall|k: int| 0 <= k < i - start ==> is_ascii_digit(#[trigger] t[k]),
        decreases cs.len() - i,
    {
        let c: char = cs[i];
        assert(c == t[i - start]);
        if !('0' <= c && c <= '9') {
            return None;
        }
        let d: u64 = (c as u32 - 48) as u64;
        let ghost upto = t.take(i - start + 1);
        assert(upto.drop_last() =~= t.take(i - start));
        assert(digits_value(upto) == acc * 10 + d);
        if d > max || acc > (max - d) / 10 {
            proof {
                if all_digits(t) {
                    lemma_digits_value_prefix(t, i - start + 1);
                }
            }
            return None;
        }
        acc = acc * 10 + d;
        i += 1;
    }
    assert(t.take(t.len() as int) =~= t);
    Some(acc)
}

/// Decimal digits of `n`.
pub fn dec(n: u64) -> (r: String)
    ensures
        r@ == decimal(n as nat),
    decreases n,
{
    if n < 10 {
        let mut out = String::new();
        out.push((48 + n as u8) as char);
        out
    } else {
        let mut out = dec(n / 10);
        out.push((48 + (n % 10) as u8) as char);
        out
    }
}

/// Decimal digits of `n` behind its sign.
pub fn signed_dec(n: i64) -> (r: String)
    ensures
        r@ == signed_decimal(n as int),
{
    if n >= 0 {
        dec(n as u64)
    } else if n == i64::MIN {
        let r = join2("-", dec(9_223_372_036_854_775_808u64).as_str());
        proof {
            reveal_strlit("-");
        }
        r
    } else {
        let m: i64 = -n;
        let r = join2("-", dec(m as u64).as_str());
        proof {
            reveal_strlit("-");
        }
        r
    }
}

/// The small hexadecimal digit of value `d`.
pub open spec fn hex_char(d: nat) -> char {
    if d < 10 {
        ((48 + d) as u8) as char
    } else {
        ((87 + d) as u8) as char
    }
}

/// The capital hexadecimal digit of value `d`.
pub open spec fn upper_hex_char(d: nat) -> char {
    if d < 10 {
        ((48 + d) as u8) as char
    } else {
        ((55 + d) as u8) as char
    }
}

/// Small hexadecimal digits of `n`, without leading zeros.
pub open spec fn hexadecimal(n: nat) -> Seq<char>
    decreases n,
{
    if n < 16 {
        seq![hex_char(n)]
    } else {
        hexadecimal(n / 16).push(hex_char(n % 16))
    }
}

/// Small hexadecimal digits of `n`.
pub fn hex(n: u64) -> (r: String)
    ensures
        r@ == hexadecimal(n as nat),
    decreases n,
{
    let d: u8 = (n % 16) as u8;
    let c: char = if d < 10 {
        (48 + d) as char
    } else {
        (87 + d) as char
    };
    if n < 16 {
        let mut out = String::new();
        out.push(c);
        out
    } else {
        let mut out = hex(n / 16);
        out.push(c);
        out
    }
}

/// Hexadecimal digits are digits and small letters up to `f`.
pub proof fn lemma_hexadecimal_digits(n: nat)
    ensures
        forall|i: int|
            0 <= i < hexadecimal(n).len() ==> {
                ||| '0' <= (#[trigger] hexadecimal(n)[i]) <= '9'
                ||| 'a' <= hexadecimal(n)[i] <= 'f'
            },
    decreases n,
{
    let d = n % 16;
    let c = hex_char(d);
    assert('0' <= c <= '9' || 'a' <= c <= 'f');
    if n >= 16 {
        lemma_hexadecimal_digits(n / 16);
        assert forall|i: int| 0 <= i < hexadecimal(n).len() implies {
            ||| '0' <= (#[trigger] hexadecimal(n)[i]) <= '9'
            ||| 'a' <= hexadecimal(n)[i] <= 'f'
        } by {
            if i < hexadecimal(n / 16).len() {
                assert(hexadecimal(n)[i] == hexadecimal(n / 16)[i]);
            }
        }
    }
}

/// Hexadecimal digits write down one number only.
pub proof fn lemma_hexadecimal_injective(a: nat, b: nat)
    requires
        hexadecimal(a) == hexadecimal(b),
    ensures
        a == b,
    decreases a,
{
    lemma_hex_last(a);
    lemma_hex_last(b);
    assert(hexadecimal(a).last() == hexadecimal(b).last());
    assert(a % 16 == b % 16);
    if a < 16 || b < 16 {
        lemma_hex_len(a);
        lemma_hex_len(b);
    } else {
        assert(hexadecimal(a / 16) =~= hexadecimal(a).drop_last());
        assert(hexadecimal(b / 16) =~= hexadecimal(b).drop_last());
        lemma_hexadecimal_injective(a / 16, b / 16);
    }
}

proof fn lemma_hex_last(n: nat)
    ensures
        hexadecimal(n).len() > 0,
        hexadecimal(n).last() == hex_char(n % 16),
{
}

proof fn lemma_hex_len(n: nat)
    ensures
        n < 16 <==> hexadecimal(n).len() == 1,
    decreases n,
{
    if n >= 16 {
        lemma_hex_len(n / 16);
        lemma_hex_last(n / 16);
    }
}

/// A byte as two capital hexadecimal digits.
pub open spec fn hex_byte(b: u8) -> Seq<char> {
    seq![upper_hex_char((b / 16) as nat), upper_hex_char((b % 16) as nat)]
}

/// Appends the two capital hexadecimal digits of `b`.
pub fn push_hex_byte(out: &mut String, b: u8)
    ensures
        final(out)@ == old(out)@ + hex_byte(b),
{
    let hi: u8 = b / 16;
    let lo: u8 = b % 16;
    out.push(if hi < 10 { (48 + hi) as char } else { (55 + hi) as char });
    out.push(if lo < 10 { (48 + lo) as char } else { (55 + lo) as char });
}

/// A run of digits is worth ten times what stands before its last digit, and that digit.
pub proof fn lemma_what_digits_write_down(s: Seq<char>, c: char, d: nat)
    ensures
        digits_value(Seq::empty()) == 0,
        '0' <= c <= '9' ==> digits_value(s.push(c)) == 10 * digits_value(s) + (c as nat - 48),
        d < 10 ==> digit_char(d) as nat == 48 + d && decimal(d) == seq![digit_char(d)],
{
    assert(s.push(c).drop_last() =~= s);
}

/// A number is read with or without a plus sign, and refused where it is too large; what
/// holds anything but digits is no number.
pub proof fn lemma_what_counts_as_a_number(n: nat, max: nat, s: Seq<char>, i: int)
    ensures
        n <= max ==> number_up_to(decimal(n), max) == Some(n) && number_up_to(
            seq!['+'] + decimal(n),
            max,
        ) == Some(n),
        n > max ==> number_up_to(decimal(n), max) is None,
        number_up_to(Seq::empty(), max) is None,
        0 < i < s.len() && !('0' <= s[i] <= '9') ==> number_up_to(s, max) is None,
        s.len() > 0 && s[0] != '+' && !('0' <= s[0] <= '9') ==> number_up_to(s, max) is None,
        number_up_to(s, max) matches Some(v) ==> v <= max,
{
    lemma_decimal(n);
    let t = decimal(n);
    assert(is_ascii_digit(t[0]));
    assert((seq!['+'] + t).skip(1) =~= t);
    if 0 < i < s.len() && !('0' <= s[i] <= '9') {
        let u = unsigned_part(s);
        if s[0] == '+' {
            assert(u[i - 1] == s[i]);
            assert(!is_ascii_digit(u[i - 1]));
        } else {
            assert(!is_ascii_digit(u[i]));
        }
    }
    if s.len() > 0 && s[0] != '+' && !('0' <= s[0] <= '9') {
        assert(!is_ascii_digit(unsigned_part(s)[0]));
    }
}

/// A byte is written as two digits, the sixteens first; ten to fifteen are `A` to `F`.
pub proof fn lemma_how_a_byte_is_written(b: u8)
    ensures
        hex_byte(b).len() == 2,
        b / 16 < 10 ==> hex_byte(b)[0] as int == '0' as int + b / 16,
        b / 16 >= 10 ==> hex_byte(b)[0] as int == 'A' as int + b / 16 - 10,
        b % 16 < 10 ==> hex_byte(b)[1] as int == '0' as int + b % 16,
        b % 16 >= 10 ==> hex_byte(b)[1] as int == 'A' as int + b % 16 - 10,
{
}

/// Small hexadecimal digits go by sixteens, the largest first; ten to fifteen are `a` to
/// `f`.
pub proof fn lemma_how_hexadecimal_is_written(n: nat, d: nat)
    ensures
        d < 10 ==> hexadecimal(d).len() == 1 && hexadecimal(d)[0] as int == '0' as int + d,
        10 <= d < 16 ==> hexadecimal(d).len() == 1 && hexadecimal(d)[0] as int == 'a' as int + d
            - 10,
        n > 0 && d < 16 ==> hexadecimal(16 * n + d) == hexadecimal(n) + hexadecimal(d),
{
    if n > 0 && d < 16 {
        assert((16 * n + d) / 16 == n);
        assert((16 * n + d) % 16 == d);
        assert(hexadecimal(16 * n + d) =~= hexadecimal(n) + hexadecimal(d));
    }
}

/// A number below zero is written behind a minus sign, any other without a sign.
pub proof fn lemma_how_signs_are_written(n: nat)
    ensures
        signed_decimal(n as int) == decimal(n),
        n > 0 ==> signed_decimal(-(n as int)) == seq!['-'] + decimal(n),
{
}

} // verus!
