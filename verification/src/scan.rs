//! Selecting the lines of a text that contain a query.

use vstd::prelude::*;
use vstd::string::*;
use vstd::utf8::*;
use crate::bytes::{contains, contains_seq};
use crate::fold::{comparison_form, comparison_text};
use crate::lines::{
    after_first_line, first_line, lemma_line_end_unique, lines_of, split_first_line, LINE_FEED,
};

verus! {

/// Whether a line is selected: the query stands in it, both taken verbatim,
/// or both taken in lowercase where case is ignored.
pub open spec fn selects(line: Seq<u8>, query: Seq<u8>, case_insensitive: bool) -> bool {
    contains_seq(
        comparison_form(line, case_insensitive),
        comparison_form(query, case_insensitive),
    )
}

/// `selects` for a fixed query and mode, as a predicate on lines.
pub open spec fn selector(query: Seq<u8>, case_insensitive: bool) -> spec_fn(Seq<u8>) -> bool {
    |line: Seq<u8>| selects(line, query, case_insensitive)
}

/// The selected lines of a text, in the order of the text.
pub open spec fn matching_lines(contents: Seq<u8>, query: Seq<u8>, case_insensitive: bool) -> Seq<
    Seq<u8>,
> {
    lines_of(contents).filter(selector(query, case_insensitive))
}

/// The bytes of each text of a sequence.
pub open spec fn bytes_of_each(texts: Seq<&str>) -> Seq<Seq<u8>> {
    Seq::new(texts.len(), |i: int| texts[i].spec_bytes())
}

/// A text is among the selected lines exactly if it is a line of the contents
/// and the query stands in it, both in their comparison form.
pub proof fn lemma_selected_iff_contains(
    contents: Seq<u8>,
    query: Seq<u8>,
    case_insensitive: bool,
    line: Seq<u8>,
)
    ensures
        matching_lines(contents, query, case_insensitive).contains(line) <==> lines_of(
            contents,
        ).contains(line) && selects(line, query, case_insensitive),
{
    let all = lines_of(contents);
    let pred = selector(query, case_insensitive);
    if all.contains(line) && selects(line, query, case_insensitive) {
        let i = choose|i: int| 0 <= i < all.len() && all[i] == line;
        assert(pred(all[i]));
        all.lemma_filter_contains(pred, i);
    }
    if all.filter(pred).contains(line) {
        let k = choose|k: int| 0 <= k < all.filter(pred).len() && all.filter(pred)[k] == line;
        all.lemma_filter_pred(pred, k);
        all.lemma_filter_contains_rev(pred, line);
    }
}

/// A non-empty text without a line feed is one line, and it is selected
/// exactly if the query stands in it, both in their comparison form.
pub proof fn lemma_single_line(line: Seq<u8>, query: Seq<u8>, case_insensitive: bool)
    requires
        line.len() > 0,
        forall|j: int| 0 <= j < line.len() ==> line[j] != LINE_FEED,
    ensures
        lines_of(line) == seq![line],
        matching_lines(line, query, case_insensitive) == (if selects(
            line,
            query,
            case_insensitive,
        ) {
            seq![line]
        } else {
            Seq::<Seq<u8>>::empty()
        }),
{
    lemma_line_end_unique(line, line.len() as int);
    assert(first_line(line) == line);
    assert(after_first_line(line) =~= Seq::<u8>::empty());
    assert(lines_of(after_first_line(line)) =~= Seq::<Seq<u8>>::empty());
    assert(lines_of(line) =~= seq![line]);
    reveal(Seq::filter);
    let pred = selector(query, case_insensitive);
    assert(seq![line].drop_last() =~= Seq::<Seq<u8>>::empty());
    assert(seq![line].last() == line);
    assert(Seq::<Seq<u8>>::empty().filter(pred) =~= Seq::<Seq<u8>>::empty());
    assert(seq![line].filter(pred) =~= if pred(line) {
        seq![line]
    } else {
        Seq::<Seq<u8>>::empty()
    });
}

/// Whether `line` is selected by a query whose comparison form is `needle`.
pub fn line_matches(line: &str, needle: &str, case_insensitive: bool) -> (r: bool)
    ensures
        r == contains_seq(
            comparison_form(line.spec_bytes(), case_insensitive),
            needle.spec_bytes(),
        ),
{
    if case_insensitive {
        let folded = comparison_text(line, true);
        contains(folded.as_str().as_bytes(), needle.as_bytes())
    } else {
        contains(line.as_bytes(), needle.as_bytes())
    }
}

/// Whether any text is left.
fn has_text(text: &str) -> (r: bool)
    ensures
        r == (text.spec_bytes().len() > 0),
{
    text.as_bytes().len() > 0
}

/// Appending one line to a sequence of lines appends it to the selected ones
/// exactly if it is selected.
proof fn lemma_filter_push(seen: Seq<Seq<u8>>, line: Seq<u8>, pred: spec_fn(Seq<u8>) -> bool)
    ensures
        seen.push(line).filter(pred) == if pred(line) {
            seen.filter(pred).push(line)
        } else {
            seen.filter(pred)
        },
{
    reveal(Seq::filter);
    assert(seen.push(line).drop_last() =~= seen);
}

/// The lines of `contents` that contain `query`, in order, as slices of
/// `contents`.
pub fn scan<'a>(contents: &'a str, query: &str, case_insensitive: bool) -> (r: Vec<&'a str>)
    ensures
        bytes_of_each(r@) == matching_lines(
            contents.spec_bytes(),
            query.spec_bytes(),
            case_insensitive,
        ),
{
    let needle = comparison_text(query, case_insensitive);
    let mut rest: &'a str = contents;
    let mut out: Vec<&'a str> = Vec::new();
    let ghost pred = selector(query.spec_bytes(), case_insensitive);
    let ghost mut seen: Seq<Seq<u8>> = Seq::empty();
    proof {
        reveal(Seq::filter);
        assert(bytes_of_each(out@) =~= seen.filter(pred));
    }
    while has_text(rest)
        invariant
            pred == selector(query.spec_bytes(), case_insensitive),
            encode_utf8(needle@) == comparison_form(query.spec_bytes(), case_insensitive),
            lines_of(contents.spec_bytes()) == seen + lines_of(rest.spec_bytes()),
            bytes_of_each(out@) == seen.filter(pred),
        decreases rest.spec_bytes().len(),
    {
        let (line, tail) = split_first_line(rest);
        let ghost before = out@;
        let hit = line_matches(line, needle.as_str(), case_insensitive);
        if hit {
            out.push(line);
        }
        proof {
            lemma_filter_push(seen, line.spec_bytes(), pred);
            assert(hit == pred(line.spec_bytes()));
            if hit {
                assert(bytes_of_each(out@) =~= bytes_of_each(before).push(line.spec_bytes()));
            }
            assert(seen.push(line.spec_bytes()) + lines_of(tail.spec_bytes()) =~= seen + lines_of(
                rest.spec_bytes(),
            ));
            seen = seen.push(line.spec_bytes());
        }
        rest = tail;
    }
    proof {
        assert(seen + lines_of(rest.spec_bytes()) =~= seen);
    }
    out
}

/// The lines of `contents` in which `query` stands verbatim.
pub fn search<'a>(query: &str, contents: &'a str) -> (r: Vec<&'a str>)
    ensures
        bytes_of_each(r@) == matching_lines(contents.spec_bytes(), query.spec_bytes(), false),
{
    scan(contents, query, false)
}

/// The lines of `contents` whose lowercase form holds the lowercase form of
/// `query`.
pub fn search_case_insensitive<'a>(query: &str, contents: &'a str) -> (r: Vec<&'a str>)
    ensures
        bytes_of_each(r@) == matching_lines(contents.spec_bytes(), query.spec_bytes(), true),
{
    scan(contents, query, true)
}

} // verus!
