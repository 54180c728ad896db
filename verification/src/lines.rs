//! Byte-level text helpers of the wire protocol: CRLF-delimited lines and
//! ASCII case-insensitive comparison.
//!
//! Every `&str` is handled through its UTF-8 bytes (`spec_bytes`). CR and LF
//! are ASCII, so a position found by scanning bytes for CRLF is always a
//! character boundary, and the pieces handed out are again `&str`.

use vstd::prelude::*;
use vstd::string::StringSliceAdditionalSpecFns;
use vstd::utf8::{
    encode_utf8, encode_utf8_decode_utf8, encode_utf8_valid_utf8, is_char_boundary,
    is_char_boundary_iff_not_is_continuation_byte, is_char_boundary_start_end_of_seq,
    length_of_first_scalar, pop_first_scalar, valid_utf8, valid_utf8_split,
};

verus! {

/// Carriage return.
pub const CR: u8 = 13;

/// Line feed.
pub const LF: u8 = 10;

/// The line terminator of the protocol.
pub open spec fn crlf() -> Seq<u8> {
    seq![CR, LF]
}

/// A CRLF pair starts at index `i` of `s`.
pub open spec fn crlf_at(s: Seq<u8>, i: int) -> bool {
    0 <= i && i + 1 < s.len() && s[i] == CR && s[i + 1] == LF
}

/// `s` holds a CRLF pair somewhere.
pub open spec fn has_crlf(s: Seq<u8>) -> bool {
    exists|i: int| crlf_at(s, i)
}

/// `i` is where the first CRLF pair of `s` starts.
pub open spec fn is_first_crlf(s: Seq<u8>, i: int) -> bool {
    crlf_at(s, i) && forall|j: int| 0 <= j < i ==> !crlf_at(s, j)
}

/// Where the first CRLF pair of `s` starts (meaningful when `has_crlf(s)`).
pub open spec fn first_crlf(s: Seq<u8>) -> int {
    choose|i: int| is_first_crlf(s, i)
}

/// What `str::split_once("\r\n")` yields: the text before the first CRLF and
/// the text after it, or `None` when there is no CRLF.
pub open spec fn split_once(s: Seq<u8>) -> Option<(Seq<u8>, Seq<u8>)> {
    if has_crlf(s) {
        Some((s.subrange(0, first_crlf(s)), s.skip(first_crlf(s) + 2)))
    } else {
        None
    }
}

/// What `str::splitn(n, "\r\n")` yields: at most `n` pieces, the last of
/// which holds everything that was not split.
pub open spec fn splitn(s: Seq<u8>, n: nat) -> Seq<Seq<u8>>
    decreases n,
{
    if n == 0 {
        Seq::empty()
    } else if n == 1 {
        seq![s]
    } else {
        match split_once(s) {
            None => seq![s],
            Some((head, tail)) => seq![head] + splitn(tail, (n - 1) as nat),
        }
    }
}

/// The ASCII lower-case form of one byte.
pub open spec fn lower(b: u8) -> u8 {
    if 65 <= b && b <= 90 {
        (b + 32) as u8
    } else {
        b
    }
}

/// `a` and `b` are equal up to the case of ASCII letters.
#[verifier::opaque]
pub open spec fn eq_ignore_case(a: Seq<u8>, b: Seq<u8>) -> bool {
    a.len() == b.len() && forall|i: int| 0 <= i < a.len() ==> lower(#[trigger] a[i]) == lower(b[i])
}

/// A position that satisfies `is_first_crlf` is the one `first_crlf` names.
pub proof fn lemma_first_crlf_is(s: Seq<u8>, i: int)
    requires
        is_first_crlf(s, i),
    ensures
        has_crlf(s),
        first_crlf(s) == i,
{
    let k = first_crlf(s);
    assert(is_first_crlf(s, k));
    if k < i {
        assert(!crlf_at(s, k));
    }
    if i < k {
        assert(!crlf_at(s, i));
    }
}

/// Below any CRLF pair there is a first one.
proof fn lemma_least_crlf(s: Seq<u8>, w: int) -> (i: int)
    requires
        crlf_at(s, w),
    ensures
        is_first_crlf(s, i),
        i <= w,
    decreases w,
{
    if exists|j: int| 0 <= j < w && crlf_at(s, j) {
        let j = choose|j: int| 0 <= j < w && crlf_at(s, j);
        lemma_least_crlf(s, j)
    } else {
        w
    }
}

/// If `s` holds a CRLF pair, `first_crlf(s)` is the first of them.
pub proof fn lemma_first_crlf_exists(s: Seq<u8>)
    requires
        has_crlf(s),
    ensures
        is_first_crlf(s, first_crlf(s)),
{
    let w = choose|i: int| crlf_at(s, i);
    let i = lemma_least_crlf(s, w);
    lemma_first_crlf_is(s, i);
}

/// A text without CRLF, followed by CRLF and anything else, splits right
/// after the text.
pub proof fn lemma_split_once_terminated(token: Seq<u8>, tail: Seq<u8>)
    requires
        !has_crlf(token),
    ensures
        split_once(token + crlf() + tail) == Some((token, tail)),
{
    let s = token + crlf() + tail;
    let n = token.len() as int;
    assert(crlf_at(s, n));
    assert forall|j: int| 0 <= j < n implies !crlf_at(s, j) by {
        if crlf_at(s, j) {
            if j + 1 < n {
                assert(crlf_at(token, j));
            } else {
                assert(s[j + 1] == CR);
            }
        }
    }
    lemma_first_crlf_is(s, n);
    assert(s.subrange(0, n) =~= token);
    assert(s.skip(n + 2) =~= tail);
}

/// Cutting into at least one piece gives at least one piece, and no more
/// pieces than asked for; the pieces but the last, each with its CRLF, and
/// the last piece make up the input.
pub proof fn lemma_splitn_len(s: Seq<u8>, n: nat)
    requires
        n >= 1,
    ensures
        1 <= splitn(s, n).len() <= n,
        splitn(s, n).last().len() <= s.len(),
        splitn(s, n).last() == s.skip(s.len() - splitn(s, n).last().len()),
    decreases n,
{
    if n == 1 {
        assert(s.skip(0) =~= s);
    } else {
        match split_once(s) {
            None => {
                assert(s.skip(0) =~= s);
            },
            Some((head, tail)) => {
                lemma_first_crlf_exists(s);
                lemma_splitn_len(tail, (n - 1) as nat);
                let pieces = splitn(tail, (n - 1) as nat);
                let all = seq![head] + pieces;
                assert(all.last() == pieces.last());
                let k = tail.len() - pieces.last().len();
                assert(tail.skip(k) =~= s.skip(s.len() - pieces.last().len()));
            },
        }
    }
}

/// Appends the line terminator to `out`.
pub fn push_crlf(out: &mut Vec<u8>)
    ensures
        final(out)@ == old(out)@ + crlf(),
{
    out.push(CR);
    out.push(LF);
    assert(final(out)@ =~= old(out)@ + crlf());
}

/// The position of the first CRLF pair in `b`, if there is one.
pub fn find_crlf(b: &[u8]) -> (r: Option<usize>)
    ensures
        r is Some <==> has_crlf(b@),
        r matches Some(i) ==> i == first_crlf(b@) && is_first_crlf(b@, i as int),
{
    let n: usize = b.len();
    if n < 2 {
        assert(forall|j: int| !crlf_at(b@, j));
        return None;
    }
    let mut i: usize = 0;
    while i < n - 1
        invariant
            n == b@.len(),
            n >= 2,
            i <= n - 1,
            forall|j: int| 0 <= j < i ==> !crlf_at(b@, j),
        decreases n - i,
    {
        if b[i] == CR && b[i + 1] == LF {
            proof {
                lemma_first_crlf_is(b@, i as int);
            }
            return Some(i);
        }
        i = i + 1;
    }
    assert(forall|j: int| !crlf_at(b@, j));
    None
}

/// In a valid UTF-8 text, the position of an ASCII byte and the position right
/// after it are character boundaries.
proof fn lemma_ascii_boundaries(chars: Seq<char>, i: int)
    requires
        0 <= i < encode_utf8(chars).len(),
        encode_utf8(chars)[i] < 128,
    ensures
        is_char_boundary(encode_utf8(chars), i),
        is_char_boundary(encode_utf8(chars), i + 1),
{
    let bytes = encode_utf8(chars);
    encode_utf8_valid_utf8(chars);
    is_char_boundary_iff_not_is_continuation_byte(bytes, i);
    assert(is_char_boundary(bytes, i));
    valid_utf8_split(bytes, i);
    let tail = bytes.subrange(i, bytes.len() as int);
    assert(tail[0] == bytes[i]);
    assert(valid_utf8(tail));
    reveal_with_fuel(is_char_boundary, 3);
    assert(is_char_boundary(tail, 1));
    lemma_boundary_shift(bytes, i, 1);
}

/// A boundary of the text that starts at boundary `i` is a boundary of the
/// whole text.
proof fn lemma_boundary_shift(bytes: Seq<u8>, i: int, k: int)
    requires
        valid_utf8(bytes),
        is_char_boundary(bytes, i),
        0 <= i <= bytes.len(),
        0 <= k,
        is_char_boundary(bytes.subrange(i, bytes.len() as int), k),
    ensures
        is_char_boundary(bytes, i + k),
    decreases bytes.len(),
{
    let tail = bytes.subrange(i, bytes.len() as int);
    if i == 0 {
        assert(tail =~= bytes);
    } else {
        reveal_with_fuel(is_char_boundary, 2);
        let w = length_of_first_scalar(bytes);
        let popped = pop_first_scalar(bytes);
        assert(is_char_boundary(popped, i - w));
        assert(0 <= i - w <= popped.len());
        assert(popped.subrange(i - w, popped.len() as int) =~= tail);
        lemma_boundary_shift(popped, i - w, k);
    }
}

/// Cuts `s` before byte `i`, which must be an ASCII byte or the end.
pub(crate) fn split_before<'a>(s: &'a str, i: usize) -> (r: (&'a str, &'a str))
    requires
        i <= s.spec_bytes().len(),
        i < s.spec_bytes().len() ==> s.spec_bytes()[i as int] < 128,
    ensures
        r.0.spec_bytes() == s.spec_bytes().subrange(0, i as int),
        r.1.spec_bytes() == s.spec_bytes().skip(i as int),
{
    proof {
        encode_utf8_valid_utf8(s@);
        if i < s.spec_bytes().len() {
            lemma_ascii_boundaries(s@, i as int);
        } else {
            is_char_boundary_start_end_of_seq(s.spec_bytes());
        }
    }
    s.split_at(i)
}

/// Cuts `s` after byte `i`, which must be an ASCII byte.
pub(crate) fn split_after<'a>(s: &'a str, i: usize) -> (r: (&'a str, &'a str))
    requires
        i < s.spec_bytes().len(),
        s.spec_bytes()[i as int] < 128,
    ensures
        r.0.spec_bytes() == s.spec_bytes().subrange(0, i + 1),
        r.1.spec_bytes() == s.spec_bytes().skip(i + 1),
{
    let n: usize = s.as_bytes().len();
    proof {
        lemma_ascii_boundaries(s@, i as int);
    }
    assert(i < n);
    s.split_at(i + 1)
}

/// `str::split_once("\r\n")`: the line before the first CRLF and the text
/// after it.
pub fn split_line<'a>(s: &'a str) -> (r: Option<(&'a str, &'a str)>)
    ensures
        match r {
            Some((line, rest)) => split_once(s.spec_bytes()) == Some(
                (line.spec_bytes(), rest.spec_bytes()),
            ),
            None => split_once(s.spec_bytes()) is None,
        },
{
    match find_crlf(s.as_bytes()) {
        None => None,
        Some(i) => {
            let (line, tail) = split_before(s, i);
            assert(tail.spec_bytes()[1] == LF);
            let (_, rest) = split_after(tail, 1);
            assert(rest.spec_bytes() =~= s.spec_bytes().skip(i + 2));
            Some((line, rest))
        },
    }
}

/// Whether two byte strings are equal.
pub fn bytes_eq(a: &[u8], b: &[u8]) -> (r: bool)
    ensures
        r == (a@ == b@),
{
    if a.len() != b.len() {
        return false;
    }
    let mut i: usize = 0;
    while i < a.len()
        invariant
            a@.len() == b@.len(),
            i <= a@.len(),
            forall|j: int| 0 <= j < i ==> a@[j] == b@[j],
        decreases a@.len() - i,
    {
        if a[i] != b[i] {
            return false;
        }
        i = i + 1;
    }
    assert(a@ =~= b@);
    true
}

/// Whether two texts are equal.
pub fn str_eq(a: &str, b: &str) -> (r: bool)
    ensures
        r == (a@ == b@),
        r == (a.spec_bytes() == b.spec_bytes()),
{
    proof {
        encode_utf8_decode_utf8(a@);
        encode_utf8_decode_utf8(b@);
    }
    bytes_eq(a.as_bytes(), b.as_bytes())
}

/// The ASCII lower-case form of `b`.
pub fn to_lower(b: u8) -> (r: u8)
    ensures
        r == lower(b),
{
    if 65 <= b && b <= 90 {
        b + 32
    } else {
        b
    }
}

/// Whether `a` and `b` are equal up to the case of ASCII letters.
pub fn bytes_eq_ignore_case(a: &[u8], b: &[u8]) -> (r: bool)
    ensures
        r == eq_ignore_case(a@, b@),
{
    reveal(eq_ignore_case);
    if a.len() != b.len() {
        return false;
    }
    let mut i: usize = 0;
    while i < a.len()
        invariant
            a@.len() == b@.len(),
            i <= a@.len(),
            forall|j: int| 0 <= j < i ==> lower(#[trigger] a@[j]) == lower(b@[j]),
        decreases a@.len() - i,
    {
        if to_lower(a[i]) != to_lower(b[i]) {
            proof {
                reveal(eq_ignore_case);
            }
            return false;
        }
        i = i + 1;
    }
    true
}

/// Whether the token `tok` is the keyword `word`, in any case.
pub fn is_keyword(tok: &str, word: &str) -> (r: bool)
    ensures
        r == eq_ignore_case(tok.spec_bytes(), word.spec_bytes()),
{
    bytes_eq_ignore_case(tok.as_bytes(), word.as_bytes())
}

} // verus!
