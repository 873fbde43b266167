use vstd::prelude::*;

use vstd::string::*;
use vstd::utf8::*;

verus! {

/// An ASCII decimal digit.
pub open spec fn is_digit(b: u8) -> bool {
    48 <= b <= 57
}

pub open spec fn all_digits(s: Seq<u8>) -> bool {
    forall|i: int| 0 <= i < s.len() ==> is_digit(#[trigger] s[i])
}

/// Value of a string of decimal digits, most significant first.
pub open spec fn digits_value(s: Seq<u8>) -> nat
    decreases s.len(),
{
    if s.len() == 0 {
        0
    } else {
        digits_value(s.drop_last()) * 10 + (s.last() - 48) as nat
    }
}

/// The digits of an unsigned number's text: one leading `+` is allowed.
pub open spec fn unsigned_digits(s: Seq<u8>) -> Seq<u8> {
    if s.len() > 0 && s[0] == 43 {
        s.drop_first()
    } else {
        s
    }
}

/// How the standard library reads an unsigned integer of at most `max` from
/// text: an optional `+`, then one or more ASCII digits and nothing else, with
/// a value that fits; anything else is an error.
pub open spec fn parse_unsigned(s: Seq<u8>, max: nat) -> Option<nat> {
    let d = unsigned_digits(s);
    if d.len() > 0 && all_digits(d) && digits_value(d) <= max {
        Some(digits_value(d))
    } else {
        None
    }
}

proof fn lemma_prefix_value_le(d: Seq<u8>, k: int)
    requires
        all_digits(d),
        0 <= k <= d.len(),
    ensures
        digits_value(d.take(k)) <= digits_value(d),
    decreases d.len(),
{
    if k < d.len() {
        let init = d.drop_last();
        assert(init.take(k) == d.take(k));
        lemma_prefix_value_le(init, k);
    } else {
        assert(d.take(k) == d);
    }
}

/// Reads an unsigned decimal number of at most `max` from `s`.
fn parse_bounded(s: &str, max: u32) -> (r: Option<u32>)
    ensures
        match parse_unsigned(s.spec_bytes(), max as nat) {
            Some(v) => r == Some(v as u32),
            None => r is None,
        },
{
    let bytes = s.as_bytes();
    let n = bytes.len();
    let start: usize = if n > 0 && bytes[0] == 43u8 { 1 } else { 0 };
    let ghost d = unsigned_digits(bytes@);
    assert(d == bytes@.subrange(start as int, n as int));
    if start == n {
        return None;
    }
    let mut acc: u32 = 0;
    let mut i: usize = start;
    while i < n
        invariant
            start <= i <= n,
            n == bytes@.len(),
            bytes@ == s.spec_bytes(),
            d == unsigned_digits(bytes@),
            d == bytes@.subrange(start as int, n as int),
            d.len() > 0,
            all_digits(d.take(i - start)),
            acc as nat == digits_value(d.take(i - start)),
            acc <= max,
        decreases n - i,
    {
        let b = bytes[i];
        if b < 48u8 || b > 57u8 {
            assert(d[i - start] == b);
            return None;
        }
        let next: u64 = acc as u64 * 10 + (b - 48u8) as u64;
        let ghost k = i - start;
        assert(d.take(k + 1).drop_last() == d.take(k));
        assert(d.take(k + 1).last() == b);
        if next > max as u64 {
            proof {
                if all_digits(d) {
                    lemma_prefix_value_le(d, k + 1);
                }
            }
            return None;
        }
        acc = next as u32;
        i = i + 1;
    }
    assert(d.take(n - start) == d);
    Some(acc)
}

/// `u8::from_str`: an optional `+` and decimal digits with a value below 256.
pub fn parse_u8(s: &str) -> (r: Option<u8>)
    ensures
        match parse_unsigned(s.spec_bytes(), u8::MAX as nat) {
            Some(v) => r == Some(v as u8),
            None => r is None,
        },
{
    match parse_bounded(s, 255) {
        Some(v) => Some(v as u8),
        None => None,
    }
}

/// `u16::from_str`: an optional `+` and decimal digits with a value below 65536.
pub fn parse_u16(s: &str) -> (r: Option<u16>)
    ensures
        match parse_unsigned(s.spec_bytes(), u16::MAX as nat) {
            Some(v) => r == Some(v as u16),
            None => r is None,
        },
{
    match parse_bounded(s, 65535) {
        Some(v) => Some(v as u16),
        None => None,
    }
}

/// The character of a decimal digit.
pub open spec fn digit_char(d: nat) -> char {
    ((48 + d) as u8) as char
}

/// The decimal text of `n`, as `{}` formats an unsigned integer.
pub open spec fn decimal_text(n: nat) -> Seq<char>
    decreases n,
{
    if n < 10 {
        seq![digit_char(n)]
    } else {
        decimal_text(n / 10).push(digit_char(n % 10))
    }
}

fn digit_str(d: usize) -> (s: &'static str)
    requires
        d < 10,
    ensures
        s@ == seq![digit_char(d as nat)],
{
    proof {
        reveal_strlit("0");
        reveal_strlit("1");
        reveal_strlit("2");
        reveal_strlit("3");
        reveal_strlit("4");
        reveal_strlit("5");
        reveal_strlit("6");
        reveal_strlit("7");
        reveal_strlit("8");
        reveal_strlit("9");
    }
    match d {
        0 => "0",
        1 => "1",
        2 => "2",
        3 => "3",
        4 => "4",
        5 => "5",
        6 => "6",
        7 => "7",
        8 => "8",
        _ => "9",
    }
}

/// Appends the decimal text of `n` to `out`.
pub fn push_decimal(out: &mut String, n: usize)
    ensures
        final(out)@ == old(out)@ + decimal_text(n as nat),
    decreases n,
{
    if n >= 10 {
        push_decimal(out, n / 10);
    }
    out.append(digit_str(n % 10));
    proof {
        if n >= 10 {
            assert(old(out)@ + decimal_text(n as nat) == old(out)@ + decimal_text((n / 10) as nat)
                + seq![digit_char((n % 10) as nat)]);
        }
    }
}


/// The bytes of the decimal text of `n`.
pub open spec fn decimal_bytes(n: nat) -> Seq<u8>
    decreases n,
{
    if n < 10 {
        seq![(48 + n) as u8]
    } else {
        decimal_bytes(n / 10).push((48 + n % 10) as u8)
    }
}

pub proof fn lemma_decimal_value(n: nat)
    ensures
        digits_value(decimal_bytes(n)) == n,
    decreases n,
{
    let b = decimal_bytes(n);
    if n >= 10 {
        let m = n / 10;
        lemma_decimal_value(m);
        assert(b.drop_last() == decimal_bytes(m));
        assert(b.last() == (48 + n % 10) as u8);
        assert(digits_value(b) == n);
    } else {
        assert(b.len() == 1);
        assert(b.drop_last() =~= Seq::<u8>::empty());
        assert(digits_value(b.drop_last()) == 0);
        assert(b.last() == (48 + n) as u8);
        assert(b.last() - 48 == n);
        assert(digits_value(b) == digits_value(b.drop_last()) * 10 + (b.last() - 48) as nat);
    }
}

pub proof fn lemma_decimal_bytes(n: nat)
    ensures
        decimal_text(n).len() == decimal_bytes(n).len(),
        decimal_bytes(n).len() > 0,
        is_ascii_chars(decimal_text(n)),
        forall|i: int|
            0 <= i < decimal_text(n).len() ==> #[trigger] decimal_text(n)[i] as u8
                == decimal_bytes(n)[i],
        all_digits(decimal_bytes(n)),
        decimal_bytes(n)[0] != 43,
    decreases n,
{
    if n >= 10 {
        let m = n / 10;
        lemma_decimal_bytes(m);
        let b = decimal_bytes(n);
        assert(b[0] == decimal_bytes(m)[0]);
        assert forall|i: int| 0 <= i < decimal_text(n).len() implies #[trigger] decimal_text(n)[i]
            as u8 == decimal_bytes(n)[i] by {
            if i < decimal_text(m).len() {
                assert(decimal_text(n)[i] == decimal_text(m)[i]);
            }
        }
        assert forall|i: int| 0 <= i < b.len() implies is_digit(#[trigger] b[i]) by {
            if i < b.len() - 1 {
                assert(b[i] == decimal_bytes(m)[i]);
            }
        }
    }
}

/// A number written out by `push_decimal` reads back as itself with
/// `parse_u8`/`parse_u16` (whenever it is within their range), and its text
/// is plain ASCII, so its bytes are its characters.
pub proof fn decimal_round_trip(n: nat, max: nat)
    requires
        n <= max,
    ensures
        encode_utf8(decimal_text(n)) == decimal_bytes(n),
        parse_unsigned(encode_utf8(decimal_text(n)), max) == Some(n),
{
    lemma_decimal_bytes(n);
    lemma_decimal_value(n);
    is_ascii_chars_encode_utf8(decimal_text(n));
    assert(encode_utf8(decimal_text(n)) =~= decimal_bytes(n));
}

} // verus!
