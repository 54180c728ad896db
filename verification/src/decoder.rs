//! Reassembly of frames from the reads of a connection.
//!
//! A read may end in the middle of a frame. The decoder keeps what belongs to
//! a frame that is not complete yet, and releases to the parser only input
//! that the parser can decide on: whole frames, or input that is malformed
//! whatever may follow it.

use vstd::prelude::*;
use vstd::slice::{slice_subrange, slice_to_vec};
use crate::lines::{
    crlf_at, find_crlf, first_crlf, lemma_first_crlf_exists, lemma_first_crlf_is,
    lemma_splitn_len, split_once, splitn,
};
use crate::decimal::{parse_u64, parse_unsigned};
use crate::commands::{spec_parse_cmd, CommandView, ParseError};

verus! {

/// How far the first frame of some input reaches.
pub enum Extent {
    /// The frame may still become a whole one: more input is awaited.
    Incomplete,
    /// The input does not start a frame, whatever follows it.
    Malformed,
    /// The frame is whole and spans that many bytes.
    Complete(int),
}

/// How far the first frame of `s` reaches.
///
/// A frame starts with `*` or `-`. An inline error is whole when its line is.
/// An array of `count` items is whole when the `2 * count` lines after its
/// opening line are: then cutting the input into lines, as the parser does,
/// leaves a last piece that is no part of the frame.
pub open spec fn first_frame(s: Seq<u8>) -> Extent {
    if s.len() == 0 {
        Extent::Incomplete
    } else if s[0] != '*' as u8 && s[0] != '-' as u8 {
        Extent::Malformed
    } else {
        match split_once(s) {
            None => Extent::Incomplete,
            Some((line, rest)) => {
                if s[0] == '-' as u8 {
                    Extent::Complete(line.len() as int + 2)
                } else {
                    match parse_unsigned(line.skip(1), u64::MAX as nat) {
                        None => Extent::Malformed,
                        Some(count) => {
                            let tbl = splitn(rest, 2 * count + 1);
                            if tbl.len() == 2 * count + 1 {
                                Extent::Complete(s.len() - tbl.last().len())
                            } else {
                                Extent::Incomplete
                            }
                        },
                    }
                }
            },
        }
    }
}

/// How many bytes of `s` are released to the parser: the whole frames at its
/// beginning, and everything if what follows them is malformed. An incomplete
/// frame at the end is held back.
pub open spec fn ready_len(s: Seq<u8>) -> int
    decreases s.len(),
{
    match first_frame(s) {
        Extent::Incomplete => 0,
        Extent::Malformed => s.len() as int,
        Extent::Complete(k) => if 0 < k <= s.len() {
            k + ready_len(s.skip(k))
        } else {
            s.len() as int
        },
    }
}

/// The end of the first frame of some input, as the decoder computes it.
enum FrameEnd {
    Incomplete,
    Malformed,
    At(usize),
}

/// The extent that a computed end stands for.
spec fn extent_of(end: FrameEnd) -> Extent {
    match end {
        FrameEnd::Incomplete => Extent::Incomplete,
        FrameEnd::Malformed => Extent::Malformed,
        FrameEnd::At(k) => Extent::Complete(k as int),
    }
}

/// How far the first frame of `b` reaches.
fn frame_end(b: &[u8]) -> (r: FrameEnd)
    ensures
        extent_of(r) == first_frame(b@),
        r matches FrameEnd::At(k) ==> 0 < k <= b@.len(),
{
    let n: usize = b.len();
    if n == 0 {
        return FrameEnd::Incomplete;
    }
    let first: u8 = b[0];
    if first != '*' as u8 && first != '-' as u8 {
        return FrameEnd::Malformed;
    }
    let i: usize = match find_crlf(b) {
        None => {
            return FrameEnd::Incomplete;
        },
        Some(i) => i,
    };
    assert(crlf_at(b@, i as int));
    if first == '-' as u8 {
        return FrameEnd::At(i + 2);
    }
    assert(i >= 1);
    let digits = slice_subrange(b, 1, i);
    assert(digits@ =~= b@.subrange(0, i as int).skip(1));
    let count: u64 = match parse_u64(digits) {
        None => {
            return FrameEnd::Malformed;
        },
        Some(count) => count,
    };
    let limit: u128 = 2 * (count as u128) + 1;
    let ghost rest = b@.skip(i + 2);
    let ghost tbl = splitn(rest, limit as nat);
    let mut pos: usize = i + 2;
    let mut pieces: u128 = 0;
    while pieces + 1 < limit
        invariant
            n == b@.len(),
            i + 2 <= pos <= n,
            pieces < limit,
            limit == 2 * count + 1,
            tbl == splitn(rest, limit as nat),
            tbl.len() == pieces + splitn(b@.skip(pos as int), (limit - pieces) as nat).len(),
            tbl.last() == splitn(b@.skip(pos as int), (limit - pieces) as nat).last(),
            first_frame(b@) == (if tbl.len() == limit {
                Extent::Complete(n - tbl.last().len())
            } else {
                Extent::Incomplete
            }),
        decreases n - pos,
    {
        let cur = slice_subrange(b, pos, n);
        assert(cur@ =~= b@.skip(pos as int));
        match find_crlf(cur) {
            None => {
                return FrameEnd::Incomplete;
            },
            Some(j) => {
                assert(crlf_at(cur@, j as int));
                proof {
                    let tail = cur@.skip(j + 2);
                    assert(tail =~= b@.skip(pos + j + 2));
                    let head = cur@.subrange(0, j as int);
                    let more = splitn(tail, (limit - pieces - 1) as nat);
                    lemma_splitn_len(tail, (limit - pieces - 1) as nat);
                    assert((seq![head] + more).last() == more.last());
                }
                pos = pos + j + 2;
                pieces = pieces + 1;
            },
        }
    }
    proof {
        assert(splitn(b@.skip(pos as int), 1) =~= seq![b@.skip(pos as int)]);
    }
    FrameEnd::At(pos)
}

/// The input of a connection that is held back, waiting for the rest of its
/// frame.
pub struct Decoder {
    pending: Vec<u8>,
}

impl View for Decoder {
    type V = Seq<u8>;

    /// The bytes held back.
    closed spec fn view(&self) -> Seq<u8> {
        self.pending@
    }
}

impl Decoder {
    /// A decoder that holds nothing back.
    pub fn new() -> (decoder: Decoder)
        ensures
            decoder@ == Seq::<u8>::empty(),
    {
        Decoder { pending: Vec::new() }
    }

    /// Takes what a read brought and gives what is ready for the parser:
    /// of what was held back together with `chunk`, the whole frames at the
    /// beginning, or everything if malformed input follows them. The rest is
    /// held back for the next read.
    pub fn feed(&mut self, chunk: &[u8]) -> (ready: Vec<u8>)
        ensures
            ready@ == (old(self)@ + chunk@).take(ready_len(old(self)@ + chunk@)),
            final(self)@ == (old(self)@ + chunk@).skip(ready_len(old(self)@ + chunk@)),
    {
        let mut input: Vec<u8> = Vec::new();
        core::mem::swap(&mut input, &mut self.pending);
        input.extend_from_slice(chunk);
        let n: usize = input.len();
        let mut pos: usize = 0;
        assert(input@.skip(0) =~= input@);
        loop
            invariant
                input@ == old(self)@ + chunk@,
                n == input@.len(),
                pos <= n,
                ready_len(input@) == pos + ready_len(input@.skip(pos as int)),
            ensures
                input@ == old(self)@ + chunk@,
                n == input@.len(),
                pos <= n,
                ready_len(input@) == pos,
            decreases n - pos,
        {
            let cur = slice_subrange(input.as_slice(), pos, n);
            assert(cur@ =~= input@.skip(pos as int));
            match frame_end(cur) {
                FrameEnd::Incomplete => {
                    break ;
                },
                FrameEnd::Malformed => {
                    proof {
                        assert(ready_len(input@.skip(n as int)) == 0);
                    }
                    pos = n;
                    break ;
                },
                FrameEnd::At(k) => {
                    assert(cur@.skip(k as int) =~= input@.skip(pos + k));
                    pos = pos + k;
                },
            }
        }
        let ready = slice_to_vec(slice_subrange(input.as_slice(), 0, pos));
        self.pending = slice_to_vec(slice_subrange(input.as_slice(), pos, n));
        assert(input@.subrange(0, pos as int) =~= input@.take(pos as int));
        assert(input@.subrange(pos as int, n as int) =~= input@.skip(pos as int));
        ready
    }
}

/// Input that has a CRLF is cut at the same place whatever is appended to it.
pub proof fn lemma_split_once_extended(s: Seq<u8>, more: Seq<u8>)
    requires
        split_once(s) is Some,
    ensures
        split_once(s + more) == Some((split_once(s).unwrap().0, split_once(s).unwrap().1 + more)),
{
    lemma_first_crlf_exists(s);
    let i = first_crlf(s);
    let whole = s + more;
    assert(crlf_at(whole, i));
    assert forall|j: int| 0 <= j < i implies !crlf_at(whole, j) by {
        if crlf_at(whole, j) {
            assert(crlf_at(s, j));
        }
    }
    lemma_first_crlf_is(whole, i);
    assert(whole.subrange(0, i) =~= s.subrange(0, i));
    assert(whole.skip(i + 2) =~= s.skip(i + 2) + more);
}

/// If cutting `s` into `n` pieces finds all `n` of them, then the pieces but
/// the last are the same whatever stands in place of the last.
pub proof fn lemma_splitn_last_replaced(s: Seq<u8>, n: nat, other: Seq<u8>)
    requires
        n >= 1,
        splitn(s, n).len() == n,
    ensures
        splitn(s.take(s.len() - splitn(s, n).last().len()) + other, n) == splitn(
            s,
            n,
        ).drop_last().push(other),
    decreases n,
{
    lemma_splitn_len(s, n);
    let pieces = splitn(s, n);
    let body = s.take(s.len() - pieces.last().len());
    if n == 1 {
        assert(body + other =~= other);
        assert(pieces.drop_last().push(other) =~= seq![other]);
    } else {
        match split_once(s) {
            None => {
                assert(false);
            },
            Some((head, tail)) => {
                lemma_first_crlf_exists(s);
                let i = first_crlf(s);
                let m = (n - 1) as nat;
                let rest = splitn(tail, m);
                lemma_splitn_len(tail, m);
                assert((seq![head] + rest).last() == rest.last());
                lemma_splitn_last_replaced(tail, m, other);
                let tail_body = tail.take(tail.len() - rest.last().len());
                assert(body.len() >= i + 2);
                assert(crlf_at(body, i));
                assert forall|j: int| 0 <= j < i implies !crlf_at(body, j) by {
                    if crlf_at(body, j) {
                        assert(crlf_at(s, j));
                    }
                }
                lemma_first_crlf_is(body, i);
                assert(body.subrange(0, i) =~= head);
                assert(body.skip(i + 2) =~= tail_body);
                lemma_split_once_extended(body, other);
                assert(splitn(body + other, n) == seq![head] + splitn(tail_body + other, m));
                assert(seq![head] + rest.drop_last().push(other) =~= pieces.drop_last().push(
                    other,
                ));
            },
        }
    }
}

/// The parser takes a whole frame and nothing more: where the first frame of
/// `s` is whole, the rest that the parser leaves is `s` without that frame.
pub proof fn thm_parser_takes_the_frame(s: Seq<u8>)
    requires
        first_frame(s) is Complete,
    ensures
        spec_parse_cmd(s) matches Ok((_, rest)) ==> rest == s.skip(
            first_frame(s)->Complete_0,
        ),
{
    lemma_first_crlf_exists(s);
    let line = split_once(s).unwrap().0;
    let rest = split_once(s).unwrap().1;
    if s[0] == '*' as u8 {
        let count = parse_unsigned(line.skip(1), u64::MAX as nat)->0;
        lemma_splitn_len(rest, 2 * count + 1);
        let last = splitn(rest, 2 * count + 1).last();
        assert(rest.skip(rest.len() - last.len()) =~= s.skip(s.len() - last.len()));
    }
}

/// A whole frame is read alike with and without what follows it: the frame
/// alone gives the same command, or the same error, as the frame in its
/// input.
pub proof fn thm_frame_reads_alike(s: Seq<u8>)
    requires
        first_frame(s) is Complete,
    ensures
        ({
            let frame = s.take(first_frame(s)->Complete_0);
            match spec_parse_cmd(s) {
                Ok((command, _)) => spec_parse_cmd(frame) == Ok::<
                    (CommandView, Seq<u8>),
                    ParseError,
                >((command, Seq::empty())),
                Err(e) => spec_parse_cmd(frame) == Err::<
                    (CommandView, Seq<u8>),
                    ParseError,
                >(e),
            }
        }),
{
    lemma_first_crlf_exists(s);
    let i = first_crlf(s);
    let line = split_once(s).unwrap().0;
    let rest = split_once(s).unwrap().1;
    let k = first_frame(s)->Complete_0;
    let frame = s.take(k);
    if s[0] == '*' as u8 {
        let count = parse_unsigned(line.skip(1), u64::MAX as nat)->0;
        let n = (2 * count + 1) as nat;
        lemma_splitn_len(rest, n);
        let tbl = splitn(rest, n);
        assert(k >= i + 2);
        assert(crlf_at(frame, i));
        assert forall|j: int| 0 <= j < i implies !crlf_at(frame, j) by {
            if crlf_at(frame, j) {
                assert(crlf_at(s, j));
            }
        }
        lemma_first_crlf_is(frame, i);
        assert(frame.subrange(0, i) =~= line);
        let body = rest.take(rest.len() - tbl.last().len());
        assert(frame.skip(i + 2) =~= body);
        lemma_splitn_last_replaced(rest, n, Seq::empty());
        assert(body + Seq::<u8>::empty() =~= body);
        let alone = tbl.drop_last().push(Seq::empty());
        assert(splitn(body, n) == alone);
        if tbl.len() >= 3 {
            assert(alone[1] == tbl[1]);
            assert(alone.subrange(2, alone.len() - 1) =~= tbl.subrange(2, tbl.len() - 1));
        }
    } else {
        assert(k == i + 2);
        assert(crlf_at(frame, i));
        assert forall|j: int| 0 <= j < i implies !crlf_at(frame, j) by {
            if crlf_at(frame, j) {
                assert(crlf_at(s, j));
            }
        }
        lemma_first_crlf_is(frame, i);
        assert(frame.subrange(0, i) =~= line);
        assert(frame.skip(i + 2) =~= Seq::<u8>::empty());
    }
}

} // verus!
