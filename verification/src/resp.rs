//! Encoding of protocol frames: simple strings, bulk strings, nil, errors,
//! arrays of bulk strings, and the two frames of a full resynchronisation.

use vstd::prelude::*;
use vstd::string::StringSliceAdditionalSpecFns;
use crate::lines::{crlf, push_crlf};
use crate::decimal::{decimal, push_decimal};

verus! {

/// A bulk string frame: `$<len>\r\n<data>\r\n`.
pub open spec fn bulk(data: Seq<u8>) -> Seq<u8> {
    seq!['$' as u8] + decimal(data.len()) + crlf() + data + crlf()
}

/// The bulk string frames of `items`, one after the other.
pub open spec fn bulks(items: Seq<Seq<u8>>) -> Seq<u8>
    decreases items.len(),
{
    if items.len() == 0 {
        Seq::empty()
    } else {
        bulk(items.first()) + bulks(items.drop_first())
    }
}

/// An array frame: `*<count>\r\n`, then each item as a bulk string.
pub open spec fn array(items: Seq<Seq<u8>>) -> Seq<u8> {
    seq!['*' as u8] + decimal(items.len()) + crlf() + bulks(items)
}

/// The UTF-8 bytes of each text of `texts`.
pub open spec fn texts_bytes(texts: Seq<&str>) -> Seq<Seq<u8>> {
    Seq::new(texts.len(), |i: int| texts[i].spec_bytes())
}

/// The bytes of each slice of `items`.
pub open spec fn slices_bytes(items: Seq<&[u8]>) -> Seq<Seq<u8>> {
    Seq::new(items.len(), |i: int| items[i]@)
}

/// The reply that opens a full resynchronisation:
/// `+FULLRESYNC <id> <offset>\r\n`.
pub open spec fn full_resync_line(id: Seq<u8>, offset: nat) -> Seq<u8> {
    "+FULLRESYNC ".spec_bytes() + id + seq![' ' as u8] + decimal(offset) + crlf()
}

/// The length header of a snapshot transfer: `$<len>\r\n`. The snapshot's
/// bytes follow it with no terminator.
pub open spec fn snapshot_header(len: nat) -> Seq<u8> {
    seq!['$' as u8] + decimal(len) + crlf()
}

/// The error frame sent to a peer: `-Error: <message>\r\n`.
pub open spec fn error_frame(message: Seq<u8>) -> Seq<u8> {
    "-Error: ".spec_bytes() + message + crlf()
}

/// Appending one item to a list appends its bulk string to the encoding.
pub proof fn lemma_bulks_push(items: Seq<Seq<u8>>, item: Seq<u8>)
    ensures
        bulks(items.push(item)) == bulks(items) + bulk(item),
    decreases items.len(),
{
    let all = items.push(item);
    if items.len() == 0 {
        assert(all.drop_first() =~= Seq::<Seq<u8>>::empty());
        assert(bulks(all.drop_first()) =~= Seq::<u8>::empty());
        assert(bulks(all) =~= bulks(items) + bulk(item));
    } else {
        assert(all.drop_first() =~= items.drop_first().push(item));
        lemma_bulks_push(items.drop_first(), item);
        assert(bulks(all) =~= bulks(items) + bulk(item));
    }
}

/// An encoded frame, ready to be written to a connection.
pub enum Resp {
    /// One of the fixed replies.
    Static(&'static [u8]),
    /// A frame built for the occasion.
    Array(Vec<u8>),
}

impl View for Resp {
    type V = Seq<u8>;

    /// The bytes of the frame.
    open spec fn view(&self) -> Seq<u8> {
        match self {
            Resp::Static(a) => a@,
            Resp::Array(v) => v@,
        }
    }
}

/// Appends the bulk string frame of `data` to `out`.
pub fn push_bulk(out: &mut Vec<u8>, data: &[u8])
    ensures
        final(out)@ == old(out)@ + bulk(data@),
{
    out.push('$' as u8);
    push_decimal(out, data.len() as u64);
    push_crlf(out);
    out.extend_from_slice(data);
    push_crlf(out);
    assert(final(out)@ =~= old(out)@ + bulk(data@));
}

/// Appends the opening line of an array frame of `count` items to `out`.
pub fn push_array_header(out: &mut Vec<u8>, count: usize)
    ensures
        final(out)@ == old(out)@ + seq!['*' as u8] + decimal(count as nat) + crlf(),
{
    out.push('*' as u8);
    push_decimal(out, count as u64);
    push_crlf(out);
    assert(final(out)@ =~= old(out)@ + seq!['*' as u8] + decimal(count as nat) + crlf());
}

impl Resp {
    /// The reply `+OK\r\n`.
    pub fn ok() -> (r: Resp)
        ensures
            r@ == "+OK\r\n".spec_bytes(),
    {
        Resp::Static("+OK\r\n".as_bytes())
    }

    /// The reply `+PONG\r\n`.
    pub fn pong() -> (r: Resp)
        ensures
            r@ == "+PONG\r\n".spec_bytes(),
    {
        Resp::Static("+PONG\r\n".as_bytes())
    }

    /// The nil bulk string `$-1\r\n`.
    pub fn nil() -> (r: Resp)
        ensures
            r@ == "$-1\r\n".spec_bytes(),
    {
        Resp::Static("$-1\r\n".as_bytes())
    }

    /// The reply `+FULLRESYNC <id> <offset>\r\n`.
    pub fn full_resync(id: &str, offset: usize) -> (r: Resp)
        ensures
            r@ == full_resync_line(id.spec_bytes(), offset as nat),
    {
        let mut v: Vec<u8> = Vec::new();
        v.extend_from_slice("+FULLRESYNC ".as_bytes());
        v.extend_from_slice(id.as_bytes());
        v.push(' ' as u8);
        push_decimal(&mut v, offset as u64);
        push_crlf(&mut v);
        assert(v@ =~= full_resync_line(id.spec_bytes(), offset as nat));
        Resp::Array(v)
    }

    /// The header `$<len>\r\n` that precedes the raw bytes of a snapshot.
    pub fn snapshot_header(len: usize) -> (r: Resp)
        ensures
            r@ == snapshot_header(len as nat),
    {
        let mut v: Vec<u8> = Vec::new();
        v.push('$' as u8);
        push_decimal(&mut v, len as u64);
        push_crlf(&mut v);
        assert(v@ =~= snapshot_header(len as nat));
        Resp::Array(v)
    }

    /// The error frame `-Error: <message>\r\n`.
    pub fn error(message: &str) -> (r: Resp)
        ensures
            r@ == error_frame(message.spec_bytes()),
    {
        let mut v: Vec<u8> = Vec::new();
        v.extend_from_slice("-Error: ".as_bytes());
        v.extend_from_slice(message.as_bytes());
        push_crlf(&mut v);
        assert(v@ =~= error_frame(message.spec_bytes()));
        Resp::Array(v)
    }

    /// The array frame whose items are the byte strings of `items`.
    pub fn array(items: &[&[u8]]) -> (r: Resp)
        ensures
            r@ == array(slices_bytes(items@)),
    {
        let mut v: Vec<u8> = Vec::new();
        push_array_header(&mut v, items.len());
        let ghost all = slices_bytes(items@);
        let ghost head = v@;
        let mut i: usize = 0;
        while i < items.len()
            invariant
                i <= items@.len(),
                all == slices_bytes(items@),
                head == seq!['*' as u8] + decimal(items@.len()) + crlf(),
                v@ == head + bulks(all.subrange(0, i as int)),
            decreases items@.len() - i,
        {
            push_bulk(&mut v, items[i]);
            proof {
                lemma_bulks_push(all.subrange(0, i as int), all[i as int]);
                assert(all.subrange(0, i + 1) =~= all.subrange(0, i as int).push(all[i as int]));
            }
            i = i + 1;
        }
        assert(all.subrange(0, items@.len() as int) =~= all);
        Resp::Array(v)
    }

    /// The bytes of the frame.
    pub fn as_bytes<'a>(&'a self) -> (b: &'a [u8])
        ensures
            b@ == self@,
    {
        match self {
            Resp::Static(a) => a,
            Resp::Array(v) => v.as_slice(),
        }
    }
}

impl<'a> From<&'a str> for Resp {
    /// The bulk string frame of `s`.
    fn from(s: &'a str) -> (r: Resp)
        ensures
            r@ == bulk(s.spec_bytes()),
    {
        let mut v: Vec<u8> = Vec::new();
        push_bulk(&mut v, s.as_bytes());
        Resp::Array(v)
    }
}

/// What the conversion returns is stated by the contract of the conversion
/// itself, over the view of the result.
impl<'a> vstd::std_specs::convert::FromSpecImpl<&'a str> for Resp {
    open spec fn obeys_from_spec() -> bool {
        false
    }

    open spec fn from_spec(s: &'a str) -> Resp {
        arbitrary()
    }
}

impl<'a, const N: usize> From<[&'a str; N]> for Resp {
    /// The array frame whose items are the texts of `tbl`.
    fn from(tbl: [&'a str; N]) -> (r: Resp)
        ensures
            r@ == array(texts_bytes(tbl@)),
    {
        let mut v: Vec<u8> = Vec::new();
        push_array_header(&mut v, N);
        let ghost items = texts_bytes(tbl@);
        let ghost head = v@;
        let mut i: usize = 0;
        while i < N
            invariant
                i <= N,
                N == tbl@.len(),
                items == texts_bytes(tbl@),
                head == seq!['*' as u8] + decimal(N as nat) + crlf(),
                v@ == head + bulks(items.subrange(0, i as int)),
            decreases N - i,
        {
            push_bulk(&mut v, tbl[i].as_bytes());
            proof {
                lemma_bulks_push(items.subrange(0, i as int), items[i as int]);
                assert(items.subrange(0, i + 1) =~= items.subrange(0, i as int).push(
                    items[i as int],
                ));
            }
            i = i + 1;
        }
        assert(items.subrange(0, N as int) =~= items);
        Resp::Array(v)
    }
}

/// What the conversion returns is stated by the contract of the conversion
/// itself, over the view of the result.
impl<'a, const N: usize> vstd::std_specs::convert::FromSpecImpl<[&'a str; N]> for Resp {
    open spec fn obeys_from_spec() -> bool {
        false
    }

    open spec fn from_spec(tbl: [&'a str; N]) -> Resp {
        arbitrary()
    }
}

} // verus!
