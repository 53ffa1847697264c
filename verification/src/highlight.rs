//! Cutting a line into plain and highlighted segments.

use vstd::prelude::*;
use vstd::string::*;
use crate::fold::{comparison_form, comparison_text};
use crate::bytes::{
    find_from, first_occurrence, is_first_occurrence, lemma_occurrences_bounded,
    lemma_occurrences_found, lemma_occurrences_none, lemma_occurrences_of_empty, occurrences,
    step,
};

verus! {

/// One piece of the output for a line. The offsets are byte offsets into the
/// line.
#[derive(Clone, Copy, Debug, PartialEq, Eq, Structural)]
pub enum Segment {
    /// The file name and a separator, written before an occurrence.
    Prefix,
    /// Text of the line outside any occurrence.
    Plain { start: usize, end: usize },
    /// An occurrence of the query, to be written with emphasis.
    Match { start: usize, end: usize },
}

/// The segment that opens the output for an occurrence where file names are
/// shown.
pub open spec fn prefix_segments(show_filename: bool) -> Seq<Segment> {
    if show_filename {
        seq![Segment::Prefix]
    } else {
        Seq::empty()
    }
}

/// The segments for the part of a line from offset `emitted` on, given the
/// offsets of the occurrences in that part: before each occurrence the prefix
/// (where file names are shown) and the plain text up to it, then the
/// occurrence itself, `width` bytes long; at the end the plain remainder.
pub open spec fn layout(
    occs: Seq<int>,
    width: int,
    emitted: int,
    line_len: int,
    show_filename: bool,
) -> Seq<Segment>
    decreases occs.len(),
{
    if occs.len() == 0 {
        seq![Segment::Plain { start: emitted as usize, end: line_len as usize }]
    } else {
        let at = occs[0];
        prefix_segments(show_filename) + seq![
            Segment::Plain { start: emitted as usize, end: at as usize },
            Segment::Match { start: at as usize, end: (at + width) as usize },
        ] + layout(occs.drop_first(), width, at + width, line_len, show_filename)
    }
}

/// The segments of a line in which `needle` is searched in `hay`, a text of
/// the length of the line.
pub open spec fn segments_of(hay: Seq<u8>, needle: Seq<u8>, show_filename: bool) -> Seq<Segment> {
    layout(occurrences(hay, needle, 0), needle.len() as int, 0, hay.len() as int, show_filename)
}

/// Cuts a line into segments: `needle` is searched in `hay` from left to
/// right, each search starting where the occurrence before it ended (one byte
/// further on where the needle is empty).
pub fn segments_in(hay: &[u8], needle: &[u8], show_filename: bool) -> (out: Vec<Segment>)
    ensures
        out@ == segments_of(hay@, needle@, show_filename),
{
    let len: usize = hay.len();
    let width: usize = needle.len();
    let mut out: Vec<Segment> = Vec::new();
    let mut emitted: usize = 0;
    let mut cursor: usize = 0;
    let mut searching: bool = true;
    let ghost mut next: int = 0;
    while searching
        invariant
            len == hay@.len(),
            width == needle@.len(),
            emitted <= len,
            0 <= next <= len + 1,
            searching ==> cursor == next,
            !searching ==> occurrences(hay@, needle@, next) == Seq::<int>::empty(),
            segments_of(hay@, needle@, show_filename) == out@ + layout(
                occurrences(hay@, needle@, next),
                width as int,
                emitted as int,
                len as int,
                show_filename,
            ),
        decreases len + 1 - next, if searching { 1int } else { 0int },
    {
        let ghost before = out@;
        let ghost was = emitted;
        match find_from(hay, needle, cursor) {
            None => {
                proof {
                    lemma_occurrences_none(hay@, needle@, next);
                }
                searching = false;
            },
            Some(at) => {
                proof {
                    lemma_occurrences_found(hay@, needle@, next, at as int);
                }
                let ghost rest = occurrences(hay@, needle@, at + step(needle@));
                assert((seq![at as int] + rest).drop_first() =~= rest);
                if show_filename {
                    out.push(Segment::Prefix);
                }
                out.push(Segment::Plain { start: emitted, end: at });
                out.push(Segment::Match { start: at, end: at + width });
                emitted = at + width;
                if width > 0 {
                    cursor = emitted;
                } else if at < len {
                    cursor = at + 1;
                } else {
                    proof {
                        lemma_occurrences_none(hay@, needle@, at + 1);
                    }
                    searching = false;
                }
                proof {
                    next = at + step(needle@);
                    assert(out@ =~= before + prefix_segments(show_filename) + seq![
                        Segment::Plain { start: was, end: at },
                        Segment::Match { start: at, end: (at + width) as usize },
                    ]);
                }
            },
        }
    }
    out.push(Segment::Plain { start: emitted, end: len });
    out
}

/// The bytes of the line that a segment stands for. A prefix stands for none.
pub open spec fn segment_text(segment: Segment, line: Seq<u8>) -> Seq<u8> {
    match segment {
        Segment::Prefix => Seq::empty(),
        Segment::Plain { start, end } => line.subrange(start as int, end as int),
        Segment::Match { start, end } => line.subrange(start as int, end as int),
    }
}

/// The bytes of the line that the segments stand for, one after the other.
pub open spec fn text_of(segments: Seq<Segment>, line: Seq<u8>) -> Seq<u8>
    decreases segments.len(),
{
    if segments.len() == 0 {
        Seq::empty()
    } else {
        segment_text(segments[0], line) + text_of(segments.drop_first(), line)
    }
}

/// How many of the segments are occurrences.
pub open spec fn match_count(segments: Seq<Segment>) -> nat
    decreases segments.len(),
{
    if segments.len() == 0 {
        0
    } else {
        let rest = match_count(segments.drop_first());
        if segments[0] is Match {
            rest + 1
        } else {
            rest
        }
    }
}

/// How many of the segments are prefixes.
pub open spec fn prefix_count(segments: Seq<Segment>) -> nat
    decreases segments.len(),
{
    if segments.len() == 0 {
        0
    } else {
        let rest = prefix_count(segments.drop_first());
        if segments[0] is Prefix {
            rest + 1
        } else {
            rest
        }
    }
}

/// The plain and highlighted segments lie end to end from offset `from` to
/// offset `to`: each starts where the one before it ended, and none runs
/// backwards.
pub open spec fn tiles(segments: Seq<Segment>, from: int, to: int) -> bool
    decreases segments.len(),
{
    if segments.len() == 0 {
        from == to
    } else {
        match segments[0] {
            Segment::Prefix => tiles(segments.drop_first(), from, to),
            Segment::Plain { start, end } => start == from && start <= end <= to && tiles(
                segments.drop_first(),
                end as int,
                to,
            ),
            Segment::Match { start, end } => start == from && start <= end <= to && tiles(
                segments.drop_first(),
                end as int,
                to,
            ),
        }
    }
}

/// Segments that tile a range followed by segments that tile the next range
/// tile both.
pub proof fn lemma_tiles_concat(a: Seq<Segment>, b: Seq<Segment>, from: int, mid: int, to: int)
    requires
        tiles(a, from, mid),
        tiles(b, mid, to),
        mid <= to,
    ensures
        tiles(a + b, from, to),
    decreases a.len(),
{
    if a.len() == 0 {
        assert(a + b =~= b);
    } else {
        assert((a + b).drop_first() =~= a.drop_first() + b);
        assert((a + b)[0] == a[0]);
        match a[0] {
            Segment::Prefix => {
                lemma_tiles_concat(a.drop_first(), b, from, mid, to);
            },
            Segment::Plain { start, end } => {
                lemma_tiles_within(a.drop_first(), end as int, mid);
                lemma_tiles_concat(a.drop_first(), b, end as int, mid, to);
            },
            Segment::Match { start, end } => {
                lemma_tiles_within(a.drop_first(), end as int, mid);
                lemma_tiles_concat(a.drop_first(), b, end as int, mid, to);
            },
        }
    }
}

/// Segments tile a range only if it does not run backwards.
pub proof fn lemma_tiles_within(segments: Seq<Segment>, from: int, to: int)
    requires
        tiles(segments, from, to),
    ensures
        from <= to,
    decreases segments.len(),
{
    if segments.len() > 0 {
        match segments[0] {
            Segment::Prefix => {
                lemma_tiles_within(segments.drop_first(), from, to);
            },
            Segment::Plain { start, end } => {
                lemma_tiles_within(segments.drop_first(), end as int, to);
            },
            Segment::Match { start, end } => {
                lemma_tiles_within(segments.drop_first(), end as int, to);
            },
        }
    }
}

/// Segments that tile a range of a line stand for exactly the bytes of that
/// range.
pub proof fn lemma_tiles_text(segments: Seq<Segment>, line: Seq<u8>, from: int, to: int)
    requires
        tiles(segments, from, to),
        0 <= from,
        to <= line.len(),
    ensures
        text_of(segments, line) == line.subrange(from, to),
    decreases segments.len(),
{
    lemma_tiles_within(segments, from, to);
    if segments.len() == 0 {
        assert(line.subrange(from, to) =~= Seq::<u8>::empty());
    } else {
        let rest = segments.drop_first();
        match segments[0] {
            Segment::Prefix => {
                lemma_tiles_text(rest, line, from, to);
                assert(Seq::<u8>::empty() + text_of(rest, line) =~= text_of(rest, line));
            },
            Segment::Plain { start, end } => {
                lemma_tiles_within(rest, end as int, to);
                lemma_tiles_text(rest, line, end as int, to);
                assert(line.subrange(from, end as int) + line.subrange(end as int, to)
                    =~= line.subrange(from, to));
            },
            Segment::Match { start, end } => {
                lemma_tiles_within(rest, end as int, to);
                lemma_tiles_text(rest, line, end as int, to);
                assert(line.subrange(from, end as int) + line.subrange(end as int, to)
                    =~= line.subrange(from, to));
            },
        }
    }
}

/// The segments laid out for the occurrences that a search meets tile the
/// line from the offset up to which it was written already.
pub proof fn lemma_layout_tiles(
    hay: Seq<u8>,
    needle: Seq<u8>,
    cursor: int,
    emitted: int,
    show_filename: bool,
)
    requires
        0 <= emitted <= cursor,
        emitted <= hay.len() <= usize::MAX,
    ensures
        tiles(
            layout(
                occurrences(hay, needle, cursor),
                needle.len() as int,
                emitted,
                hay.len() as int,
                show_filename,
            ),
            emitted,
            hay.len() as int,
        ),
    decreases hay.len() + 1 - cursor,
{
    let len = hay.len() as int;
    let width = needle.len() as int;
    let occs = occurrences(hay, needle, cursor);
    let at = first_occurrence(hay, needle, cursor);
    if is_first_occurrence(hay, needle, cursor, at) {
        let rest = occurrences(hay, needle, at + step(needle));
        assert(occs.drop_first() =~= rest);
        lemma_layout_tiles(hay, needle, at + step(needle), at + width, show_filename);
        let head = seq![
            Segment::Plain { start: emitted as usize, end: at as usize },
            Segment::Match { start: at as usize, end: (at + width) as usize },
        ];
        let tail = layout(rest, width, at + width, len, show_filename);
        assert(tiles(head.drop_first().drop_first(), at + width, at + width));
        assert(tiles(head.drop_first(), at, at + width));
        assert(tiles(head, emitted, at + width));
        lemma_tiles_concat(head, tail, emitted, at + width, len);
        if show_filename {
            assert(prefix_segments(show_filename) + head + tail =~= seq![Segment::Prefix] + (head
                + tail));
            assert((seq![Segment::Prefix] + (head + tail)).drop_first() =~= head + tail);
        } else {
            assert(prefix_segments(show_filename) + head + tail =~= head + tail);
        }
    } else {
        let only = seq![Segment::Plain { start: emitted as usize, end: len as usize }];
        assert(tiles(only.drop_first(), len, len));
    }
}

/// Counting in a concatenation adds the counts of its parts.
pub proof fn lemma_counts_concat(a: Seq<Segment>, b: Seq<Segment>)
    ensures
        match_count(a + b) == match_count(a) + match_count(b),
        prefix_count(a + b) == prefix_count(a) + prefix_count(b),
    decreases a.len(),
{
    if a.len() == 0 {
        assert(a + b =~= b);
    } else {
        assert((a + b).drop_first() =~= a.drop_first() + b);
        assert((a + b)[0] == a[0]);
        lemma_counts_concat(a.drop_first(), b);
    }
}

/// The segments laid out for a sequence of occurrences hold one highlighted
/// segment for each occurrence, and one prefix for each where file names are
/// shown.
pub proof fn lemma_layout_counts(
    occs: Seq<int>,
    width: int,
    emitted: int,
    line_len: int,
    show_filename: bool,
)
    ensures
        match_count(layout(occs, width, emitted, line_len, show_filename)) == occs.len(),
        prefix_count(layout(occs, width, emitted, line_len, show_filename)) == (if show_filename {
            occs.len()
        } else {
            0
        }),
    decreases occs.len(),
{
    let none = Seq::<Segment>::empty();
    assert(match_count(none) == 0 && prefix_count(none) == 0);
    if occs.len() == 0 {
        let only = layout(occs, width, emitted, line_len, show_filename);
        assert(only.drop_first() =~= none);
        assert(only[0] is Plain);
    } else {
        let at = occs[0];
        let tail = layout(occs.drop_first(), width, at + width, line_len, show_filename);
        lemma_layout_counts(occs.drop_first(), width, at + width, line_len, show_filename);
        let lead = prefix_segments(show_filename);
        let head = seq![
            Segment::Plain { start: emitted as usize, end: at as usize },
            Segment::Match { start: at as usize, end: (at + width) as usize },
        ];
        assert(head.drop_first().drop_first() =~= none);
        assert(head.drop_first()[0] is Match);
        assert(head[0] is Plain);
        assert(match_count(head.drop_first()) == 1);
        assert(prefix_count(head.drop_first()) == 0);
        assert(match_count(head) == 1);
        assert(prefix_count(head) == 0);
        if show_filename {
            assert(lead.drop_first() =~= none);
            assert(lead[0] is Prefix);
            assert(match_count(lead) == 0);
            assert(prefix_count(lead) == 1);
        }
        lemma_counts_concat(lead, head);
        lemma_counts_concat(lead + head, tail);
    }
}

/// The segments of a line for a query. The query is searched in the line,
/// both taken in their comparison form, and the offsets found are offsets
/// into the line as it stands. Where case is ignored and the lowercase form
/// of the line or of the query differs from it in length, offsets in the one
/// say nothing of the other, and the line is one plain segment.
pub open spec fn highlight_of(
    line: Seq<u8>,
    query: Seq<u8>,
    case_insensitive: bool,
    show_filename: bool,
) -> Seq<Segment> {
    let hay = comparison_form(line, case_insensitive);
    let needle = comparison_form(query, case_insensitive);
    if hay.len() == line.len() && needle.len() == query.len() {
        segments_of(hay, needle, show_filename)
    } else {
        seq![Segment::Plain { start: 0, end: line.len() as usize }]
    }
}

/// Whatever the query and the mode, the plain and highlighted segments of a
/// line lie end to end from its first byte to its last, so that no two of
/// them overlap, and written one after the other they give back the line.
pub proof fn lemma_highlight_round_trip(
    line: Seq<u8>,
    query: Seq<u8>,
    case_insensitive: bool,
    show_filename: bool,
)
    requires
        line.len() <= usize::MAX,
    ensures
        tiles(
            highlight_of(line, query, case_insensitive, show_filename),
            0,
            line.len() as int,
        ),
        text_of(highlight_of(line, query, case_insensitive, show_filename), line) == line,
{
    let hay = comparison_form(line, case_insensitive);
    let needle = comparison_form(query, case_insensitive);
    let segments = highlight_of(line, query, case_insensitive, show_filename);
    if hay.len() == line.len() && needle.len() == query.len() {
        lemma_layout_tiles(hay, needle, 0, 0, show_filename);
    } else {
        assert(tiles(segments.drop_first(), line.len() as int, line.len() as int));
    }
    lemma_tiles_text(segments, line, 0, line.len() as int);
    assert(line.subrange(0, line.len() as int) =~= line);
}

/// A line has one highlighted segment for each occurrence that a search from
/// its start meets, and one prefix for each where file names are shown. Where
/// the query is taken verbatim, these are the occurrences of the query in the
/// line as it stands.
pub proof fn lemma_highlight_counts(
    line: Seq<u8>,
    query: Seq<u8>,
    case_insensitive: bool,
    show_filename: bool,
)
    requires
        comparison_form(line, case_insensitive).len() == line.len(),
        comparison_form(query, case_insensitive).len() == query.len(),
    ensures
        match_count(highlight_of(line, query, case_insensitive, show_filename)) == occurrences(
            comparison_form(line, case_insensitive),
            comparison_form(query, case_insensitive),
            0,
        ).len(),
        prefix_count(highlight_of(line, query, case_insensitive, show_filename)) == (
        if show_filename {
            occurrences(
                comparison_form(line, case_insensitive),
                comparison_form(query, case_insensitive),
                0,
            ).len()
        } else {
            0
        }),
        !case_insensitive ==> match_count(highlight_of(line, query, false, show_filename))
            == occurrences(line, query, 0).len(),
{
    let hay = comparison_form(line, case_insensitive);
    let needle = comparison_form(query, case_insensitive);
    lemma_layout_counts(
        occurrences(hay, needle, 0),
        needle.len() as int,
        0,
        hay.len() as int,
        show_filename,
    );
}

/// The segments laid out for a sequence of occurrences are two for each
/// occurrence, three where file names are shown, and one more.
pub proof fn lemma_layout_len(
    occs: Seq<int>,
    width: int,
    emitted: int,
    line_len: int,
    show_filename: bool,
)
    ensures
        layout(occs, width, emitted, line_len, show_filename).len() == (if show_filename {
            3 * occs.len() + 1
        } else {
            2 * occs.len() + 1
        }),
    decreases occs.len(),
{
    if occs.len() > 0 {
        lemma_layout_len(occs.drop_first(), width, occs[0] + width, line_len, show_filename);
    }
}

/// A search always ends, the empty query included: a line of `n` bytes has
/// at most `n + 1` highlighted segments and at most `3 * (n + 1) + 1`
/// segments in all; for the empty query, taken verbatim, it has exactly
/// `n + 1` highlighted segments, one at each offset.
pub proof fn lemma_highlight_bounded(
    line: Seq<u8>,
    query: Seq<u8>,
    case_insensitive: bool,
    show_filename: bool,
)
    ensures
        match_count(highlight_of(line, query, case_insensitive, show_filename)) <= line.len() + 1,
        highlight_of(line, query, case_insensitive, show_filename).len() <= 3 * (line.len() + 1)
            + 1,
        query.len() == 0 ==> match_count(highlight_of(line, query, false, show_filename))
            == line.len() + 1,
{
    let hay = comparison_form(line, case_insensitive);
    let needle = comparison_form(query, case_insensitive);
    let segments = highlight_of(line, query, case_insensitive, show_filename);
    if hay.len() == line.len() && needle.len() == query.len() {
        let occs = occurrences(hay, needle, 0);
        lemma_occurrences_bounded(hay, needle, 0);
        lemma_layout_counts(occs, needle.len() as int, 0, hay.len() as int, show_filename);
        lemma_layout_len(occs, needle.len() as int, 0, hay.len() as int, show_filename);
    } else {
        assert(segments.drop_first() =~= Seq::<Segment>::empty());
        assert(match_count(segments.drop_first()) == 0);
    }
    if query.len() == 0 {
        assert(query =~= Seq::<u8>::empty());
        lemma_occurrences_of_empty(line, 0);
        lemma_highlight_counts(line, query, false, show_filename);
    }
}

/// Cuts `line` into segments for a query of `query_len` bytes whose
/// comparison form is `needle`.
pub fn highlight_with(
    line: &str,
    query_len: usize,
    needle: &str,
    case_insensitive: bool,
    show_filename: bool,
) -> (out: Vec<Segment>)
    ensures
        out@ == (if comparison_form(line.spec_bytes(), case_insensitive).len()
            == line.spec_bytes().len() && needle.spec_bytes().len() == query_len {
            segments_of(
                comparison_form(line.spec_bytes(), case_insensitive),
                needle.spec_bytes(),
                show_filename,
            )
        } else {
            seq![Segment::Plain { start: 0, end: line.spec_bytes().len() as usize }]
        }),
{
    let line_bytes = line.as_bytes();
    let needle_bytes = needle.as_bytes();
    if needle_bytes.len() == query_len {
        if !case_insensitive {
            return segments_in(line_bytes, needle_bytes, show_filename);
        }
        let folded = comparison_text(line, true);
        let hay_bytes = folded.as_str().as_bytes();
        if hay_bytes.len() == line_bytes.len() {
            return segments_in(hay_bytes, needle_bytes, show_filename);
        }
    }
    let mut out: Vec<Segment> = Vec::new();
    out.push(Segment::Plain { start: 0, end: line_bytes.len() });
    out
}

/// Cuts `line` into segments for `query`.
pub fn highlight(line: &str, query: &str, case_insensitive: bool, show_filename: bool) -> (out:
    Vec<Segment>)
    ensures
        out@ == highlight_of(
            line.spec_bytes(),
            query.spec_bytes(),
            case_insensitive,
            show_filename,
        ),
{
    let needle = comparison_text(query, case_insensitive);
    highlight_with(line, query.as_bytes().len(), needle.as_str(), case_insensitive, show_filename)
}

} // verus!
