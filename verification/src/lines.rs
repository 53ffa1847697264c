//! Splitting text into lines.
//!
//! A line ends at a line feed; a carriage return that stands directly before
//! that line feed belongs to the line ending too. The last line needs no line
//! ending, and a line ending at the very end of the text opens no further line.

use vstd::prelude::*;
use vstd::string::*;
use vstd::utf8::*;

verus! {

pub const LINE_FEED: u8 = 0x0a;

pub const CARRIAGE_RETURN: u8 = 0x0d;

/// `n` is the offset of the first line feed in `s`, or the length of `s`
/// where `s` holds none.
pub open spec fn is_line_end(s: Seq<u8>, n: int) -> bool {
    &&& 0 <= n <= s.len()
    &&& n < s.len() ==> s[n] == LINE_FEED
    &&& forall|j: int| 0 <= j < n ==> s[j] != LINE_FEED
}

/// The offset at which the first line of `s` ends.
pub open spec fn line_end(s: Seq<u8>) -> int {
    choose|n: int| is_line_end(s, n)
}

/// `s` without one trailing carriage return.
pub open spec fn strip_cr(s: Seq<u8>) -> Seq<u8> {
    if s.len() > 0 && s.last() == CARRIAGE_RETURN {
        s.drop_last()
    } else {
        s
    }
}

/// The first line of a non-empty text, without its line ending.
pub open spec fn first_line(s: Seq<u8>) -> Seq<u8> {
    let n = line_end(s);
    if 0 <= n < s.len() {
        strip_cr(s.subrange(0, n))
    } else {
        s
    }
}

/// What follows the first line and its line ending.
pub open spec fn after_first_line(s: Seq<u8>) -> Seq<u8> {
    let n = line_end(s);
    if 0 <= n < s.len() {
        s.subrange(n + 1, s.len() as int)
    } else {
        Seq::empty()
    }
}

/// The lines of a text, in order, each without its line ending.
pub open spec fn lines_of(s: Seq<u8>) -> Seq<Seq<u8>>
    decreases s.len(),
{
    if s.len() == 0 {
        Seq::empty()
    } else {
        seq![first_line(s)] + lines_of(after_first_line(s))
    }
}

/// Any offset that meets `is_line_end` is the one that `line_end` names.
pub proof fn lemma_line_end_unique(s: Seq<u8>, n: int)
    requires
        is_line_end(s, n),
    ensures
        line_end(s) == n,
{
    let m = line_end(s);
    assert(is_line_end(s, m));
    if m < n {
        assert(s[m] != LINE_FEED);
    } else if n < m {
        assert(s[n] != LINE_FEED);
    }
}

/// The offset of the first line feed in `bytes`, or their length.
pub fn find_line_end(bytes: &[u8]) -> (n: usize)
    ensures
        is_line_end(bytes@, n as int),
        n as int == line_end(bytes@),
{
    let len: usize = bytes.len();
    let mut n: usize = 0;
    while n < len && bytes[n] != LINE_FEED
        invariant
            len == bytes@.len(),
            n <= len,
            forall|j: int| 0 <= j < n ==> bytes@[j] != LINE_FEED,
        decreases len - n,
    {
        n += 1;
    }
    proof {
        lemma_line_end_unique(bytes@, n as int);
    }
    n
}

/// In well-formed UTF-8, an offset at which a byte below 0x80 stands is a
/// character boundary, and so is the offset after it.
pub proof fn lemma_ascii_byte_boundaries(bytes: Seq<u8>, at: int)
    requires
        valid_utf8(bytes),
        0 <= at < bytes.len(),
        bytes[at] <= 0x7f,
    ensures
        is_char_boundary(bytes, at),
        is_char_boundary(bytes, at + 1),
        valid_utf8(bytes.subrange(0, at)),
        valid_utf8(bytes.subrange(at, bytes.len() as int)),
        valid_utf8(bytes.subrange(at + 1, bytes.len() as int)),
{
    is_char_boundary_iff_not_is_continuation_byte(bytes, at);
    valid_utf8_split(bytes, at);
    let tail = bytes.subrange(at, bytes.len() as int);
    assert(tail[0] == bytes[at]);
    assert(length_of_first_scalar(tail) == 1);
    assert(pop_first_scalar(tail) =~= bytes.subrange(at + 1, bytes.len() as int));
    if at + 1 == bytes.len() {
        is_char_boundary_start_end_of_seq(bytes);
    } else {
        let rest = pop_first_scalar(tail);
        is_char_boundary_start_end_of_seq(rest);
        is_char_boundary_iff_not_is_continuation_byte(rest, 0);
        assert(rest[0] == bytes[at + 1]);
        is_char_boundary_iff_not_is_continuation_byte(bytes, at + 1);
    }
}

/// Cuts the first line off a text: the line without its line ending, and
/// what follows the line ending. Of an empty text both are empty.
pub fn split_first_line<'a>(text: &'a str) -> (r: (&'a str, &'a str))
    ensures
        r.0.spec_bytes() == first_line(text.spec_bytes()),
        r.1.spec_bytes() == after_first_line(text.spec_bytes()),
{
    let bytes = text.as_bytes();
    let n: usize = find_line_end(bytes);
    proof {
        encode_utf8_valid_utf8(text@);
        is_char_boundary_start_end_of_seq(bytes@);
    }
    if n == bytes.len() {
        let (whole, rest) = text.split_at(n);
        assert(whole.spec_bytes() =~= bytes@);
        assert(rest.spec_bytes() =~= Seq::<u8>::empty());
        return (whole, rest);
    }
    proof {
        lemma_ascii_byte_boundaries(bytes@, n as int);
    }
    let (head, tail) = text.split_at(n);
    proof {
        lemma_ascii_byte_boundaries(tail.spec_bytes(), 0);
    }
    let (_, rest) = tail.split_at(1);
    assert(rest.spec_bytes() =~= bytes@.subrange(n + 1, bytes@.len() as int));
    let head_bytes = head.as_bytes();
    if n > 0 && head_bytes[n - 1] == CARRIAGE_RETURN {
        proof {
            lemma_ascii_byte_boundaries(head.spec_bytes(), n - 1);
        }
        let (line, _) = head.split_at(n - 1);
        assert(line.spec_bytes() =~= head.spec_bytes().drop_last());
        (line, rest)
    } else {
        (head, rest)
    }
}

} // verus!
