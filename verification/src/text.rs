use vstd::prelude::*;

use vstd::string::*;
use vstd::utf8::*;

verus! {

broadcast use vstd::utf8::encode_utf8_valid_utf8;

/// `s` split around the first occurrence of the byte `d`, if there is one.
pub open spec fn split_first(s: Seq<u8>, d: u8) -> Option<(Seq<u8>, Seq<u8>)>
    decreases s.len(),
{
    if s.len() == 0 {
        None
    } else if s[0] == d {
        Some((Seq::empty(), s.drop_first()))
    } else {
        match split_first(s.drop_first(), d) {
            Some((a, b)) => Some((seq![s[0]] + a, b)),
            None => None,
        }
    }
}

/// The pieces of `s` between occurrences of `d`, as `str::split` yields them.
pub open spec fn split_all(s: Seq<u8>, d: u8) -> Seq<Seq<u8>>
    decreases s.len(),
{
    match split_first(s, d) {
        None => seq![s],
        Some((a, b)) => {
            if b.len() < s.len() {
                seq![a] + split_all(b, d)
            } else {
                seq![a]
            }
        },
    }
}

/// Whether `s` begins with `prefix`.
pub open spec fn has_prefix(s: Seq<u8>, prefix: Seq<u8>) -> bool {
    prefix.len() <= s.len() && s.take(prefix.len() as int) == prefix
}

/// `split_first` finds the first occurrence.
pub proof fn lemma_split_first_at(s: Seq<u8>, d: u8, i: int)
    requires
        0 <= i < s.len(),
        s[i] == d,
        forall|j: int| 0 <= j < i ==> s[j] != d,
    ensures
        split_first(s, d) == Some((s.take(i), s.skip(i + 1))),
    decreases s.len(),
{
    if i > 0 {
        let t = s.drop_first();
        assert forall|j: int| 0 <= j < i - 1 implies t[j] != d by {
            assert(t[j] == s[j + 1]);
        }
        lemma_split_first_at(t, d, i - 1);
        assert(seq![s[0]] + t.take(i - 1) == s.take(i));
        assert(t.skip(i) == s.skip(i + 1));
    } else {
        assert(s.take(0) == Seq::<u8>::empty());
        assert(s.skip(1) == s.drop_first());
    }
}

/// Splitting a delimiter-free piece, the delimiter and the rest gives back the piece and the rest.
pub proof fn lemma_split_first_concat(a: Seq<u8>, d: u8, rest: Seq<u8>)
    requires
        forall|j: int| 0 <= j < a.len() ==> a[j] != d,
    ensures
        split_first(a + seq![d] + rest, d) == Some((a, rest)),
{
    let s = a + seq![d] + rest;
    assert forall|j: int| 0 <= j < a.len() implies s[j] != d by {
        assert(s[j] == a[j]);
    }
    lemma_split_first_at(s, d, a.len() as int);
    assert(s.take(a.len() as int) == a);
    assert(s.skip(a.len() + 1 as int) == rest);
}

/// Without an occurrence there is no split.
pub proof fn lemma_split_first_none(s: Seq<u8>, d: u8)
    requires
        forall|j: int| 0 <= j < s.len() ==> s[j] != d,
    ensures
        split_first(s, d) is None,
    decreases s.len(),
{
    if s.len() > 0 {
        let t = s.drop_first();
        assert forall|j: int| 0 <= j < t.len() implies t[j] != d by {
            assert(t[j] == s[j + 1]);
        }
        lemma_split_first_none(t, d);
    }
}

pub proof fn lemma_split_first_shorter(s: Seq<u8>, d: u8)
    ensures
        split_first(s, d) matches Some((a, b)) ==> b.len() < s.len() && a.len() + b.len() + 1
            == s.len(),
    decreases s.len(),
{
    if s.len() > 0 && s[0] != d {
        lemma_split_first_shorter(s.drop_first(), d);
    }
}

/// One step of `split_all`: the piece before the first occurrence, then the
/// pieces of the rest.
pub proof fn lemma_split_all_step(s: Seq<u8>, d: u8)
    ensures
        split_all(s, d).len() >= 1,
        split_first(s, d) is None ==> split_all(s, d) == seq![s],
        split_first(s, d) matches Some((a, b)) ==> split_all(s, d) == seq![a] + split_all(b, d),
    decreases s.len(),
{
    lemma_split_first_shorter(s, d);
    if let Some((a, b)) = split_first(s, d) {
        lemma_split_all_step(b, d);
    }
}

/// In valid UTF-8 the position of an ASCII byte, and the position just after
/// it, are character boundaries.
proof fn lemma_ascii_boundaries(bytes: Seq<u8>, i: int)
    requires
        valid_utf8(bytes),
        0 <= i < bytes.len(),
        bytes[i] < 128,
    ensures
        is_char_boundary(bytes, i),
        is_char_boundary(bytes, i + 1),
        valid_utf8(bytes.subrange(0, i)),
        valid_utf8(bytes.subrange(i, bytes.len() as int)),
{
    is_char_boundary_iff_not_is_continuation_byte(bytes, i);
    valid_utf8_split(bytes, i);
    let rest = bytes.subrange(i, bytes.len() as int);
    assert(rest[0] == bytes[i]);
    reveal_with_fuel(is_char_boundary, 2);
    assert(is_char_boundary(rest, 1));
    lemma_boundary_shift(bytes, i);
}

/// A boundary one byte into the suffix that starts at an ASCII byte is a
/// boundary of the whole sequence.
proof fn lemma_boundary_shift(bytes: Seq<u8>, i: int)
    requires
        valid_utf8(bytes),
        0 <= i < bytes.len(),
        bytes[i] < 128,
        is_char_boundary(bytes, i),
    ensures
        is_char_boundary(bytes, i + 1),
    decreases bytes.len(),
{
    if i + 1 == bytes.len() {
        is_char_boundary_start_end_of_seq(bytes);
    } else {
        is_char_boundary_iff_not_is_continuation_byte(bytes, i + 1);
        if is_continuation_byte(bytes[i + 1]) {
            lemma_continuation_follows_leader(bytes, i + 1);
        }
    }
}

/// In valid UTF-8 a continuation byte never directly follows an ASCII byte.
proof fn lemma_continuation_follows_leader(bytes: Seq<u8>, k: int)
    requires
        valid_utf8(bytes),
        1 <= k < bytes.len(),
        is_continuation_byte(bytes[k]),
    ensures
        bytes[k - 1] >= 128,
    decreases bytes.len(),
{
    let n = length_of_first_scalar(bytes);
    reveal_with_fuel(valid_utf8, 2);
    if k < n {
        if k - 1 == 0 {
            assert(!is_leading_byte_width_1(bytes[0]));
        }
    } else {
        let tail = pop_first_scalar(bytes);
        assert(tail == bytes.subrange(n, bytes.len() as int));
        if k == n {
            is_char_boundary_iff_not_is_continuation_byte(tail, 0);
            assert(is_char_boundary(tail, 0));
            assert(tail[0] == bytes[k]);
        } else {
            assert(tail[k - n] == bytes[k]);
            lemma_continuation_follows_leader(tail, k - n);
            assert(tail[k - n - 1] == bytes[k - 1]);
        }
    }
}

/// Splits `s` around the first occurrence of the ASCII byte `d`.
pub fn split_once(s: &str, d: u8) -> (r: Option<(&str, &str)>)
    requires
        d < 128,
    ensures
        match split_first(s.spec_bytes(), d) {
            None => r is None,
            Some((a, b)) => r matches Some((x, y)) && x.spec_bytes() == a && y.spec_bytes() == b,
        },
{
    let bytes = s.as_bytes();
    let n = bytes.len();
    let mut i: usize = 0;
    while i < n
        invariant
            i <= n,
            d < 128,
            n == bytes@.len(),
            bytes@ == s.spec_bytes(),
            forall|j: int| 0 <= j < i ==> bytes@[j] != d,
        decreases n - i,
    {
        if bytes[i] == d {
            proof {
                lemma_split_first_at(bytes@, d, i as int);
                lemma_ascii_boundaries(bytes@, i as int);
            }
            let (head, _rest) = s.split_at(i);
            let (_through, tail) = s.split_at(i + 1);
            assert(head.spec_bytes() == bytes@.take(i as int));
            assert(tail.spec_bytes() == bytes@.skip(i + 1));
            return Some((head, tail));
        }
        i = i + 1;
    }
    proof {
        lemma_split_first_none(bytes@, d);
    }
    None
}

/// `s` without `prefix`, when its bytes begin with the (ASCII) bytes of `prefix`.
pub fn strip_ascii_prefix<'a>(s: &'a str, prefix: &[u8]) -> (r: Option<&'a str>)
    requires
        forall|i: int| 0 <= i < prefix@.len() ==> prefix@[i] < 128,
    ensures
        has_prefix(s.spec_bytes(), prefix@) ==> (r matches Some(rest) && rest.spec_bytes()
            == s.spec_bytes().skip(prefix@.len() as int)),
        !has_prefix(s.spec_bytes(), prefix@) ==> r is None,
{
    let bytes = s.as_bytes();
    if !starts_with_bytes(bytes, prefix) {
        return None;
    }
    let n = prefix.len();
    proof {
        if n == 0 {
            is_char_boundary_start_end_of_seq(bytes@);
        } else {
            assert(bytes@[n - 1] == prefix@[n - 1]) by {
                assert(bytes@.take(n as int)[n - 1] == bytes@[n - 1]);
            }
            lemma_ascii_boundaries(bytes@, n - 1);
        }
    }
    let (_head, rest) = s.split_at(n);
    Some(rest)
}

/// Whether the bytes of `s` begin with the bytes of `prefix`.
pub fn starts_with_bytes(s: &[u8], prefix: &[u8]) -> (r: bool)
    ensures
        r == has_prefix(s@, prefix@),
{
    if prefix.len() > s.len() {
        return false;
    }
    let mut i: usize = 0;
    while i < prefix.len()
        invariant
            i <= prefix@.len() <= s@.len(),
            forall|j: int| 0 <= j < i ==> s@[j] == prefix@[j],
        decreases prefix.len() - i,
    {
        if s[i] != prefix[i] {
            assert(s@.take(prefix@.len() as int)[i as int] != prefix@[i as int]);
            return false;
        }
        i = i + 1;
    }
    assert(s@.take(prefix@.len() as int) == prefix@);
    true
}

} // verus!
