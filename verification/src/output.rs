//! The output of a search in one file.

use vstd::prelude::*;
use vstd::string::*;
use vstd::utf8::*;
use crate::config::Config;
use crate::fold::{comparison_form, comparison_text};
use crate::highlight::{highlight_of, highlight_with, Segment};
use crate::scan::{matching_lines, scan};

verus! {

/// A selected line and the segments in which it is written. A line break
/// follows the last segment.
#[derive(Clone, Debug)]
pub struct LineOutput<'a> {
    /// The line, without its line ending.
    pub line: &'a str,
    /// The segments, in the order in which they are written.
    pub segments: Vec<Segment>,
}

/// What a search in one file writes.
#[derive(Clone, Debug)]
pub struct FileOutput<'a> {
    /// The text that a `Segment::Prefix` stands for.
    pub prefix: String,
    /// The selected lines, in the order of the file.
    pub lines: Vec<LineOutput<'a>>,
}

/// The text written before an occurrence where file names are shown: the
/// file name, a colon and a space.
pub open spec fn prefix_text(filename: Seq<char>) -> Seq<char> {
    filename + seq![':', ' ']
}

/// The output lines are the selected lines of `contents`, each cut into its
/// segments.
pub open spec fn renders(
    lines: Seq<LineOutput>,
    contents: Seq<u8>,
    query: Seq<u8>,
    case_insensitive: bool,
    show_filename: bool,
) -> bool {
    let selected = matching_lines(contents, query, case_insensitive);
    &&& lines.len() == selected.len()
    &&& forall|i: int|
        0 <= i < lines.len() ==> (#[trigger] lines[i]).line.spec_bytes() == selected[i]
            && lines[i].segments@ == highlight_of(
            selected[i],
            query,
            case_insensitive,
            show_filename,
        )
}

/// Searches the contents of one file: selects the lines that contain the
/// query of `config` and cuts each into segments.
pub fn read_results<'a>(contents: &'a str, filename: &str, config: &Config) -> (r: FileOutput<'a>)
    ensures
        r.prefix@ == prefix_text(filename@),
        renders(
            r.lines@,
            contents.spec_bytes(),
            encode_utf8(config.query@),
            config.ignore_case,
            config.filename,
        ),
{
    let query = config.query.as_str();
    let query_len: usize = query.as_bytes().len();
    let needle = comparison_text(query, config.ignore_case);
    let selected = scan(contents, query, config.ignore_case);
    let mut lines: Vec<LineOutput<'a>> = Vec::new();
    let n: usize = selected.len();
    let mut i: usize = 0;
    while i < n
        invariant
            n == selected@.len(),
            i <= n,
            query_len == query.spec_bytes().len(),
            encode_utf8(needle@) == comparison_form(query.spec_bytes(), config.ignore_case),
            lines@.len() == i,
            forall|k: int|
                0 <= k < i ==> (#[trigger] lines@[k]).line.spec_bytes() == selected@[k].spec_bytes()
                    && lines@[k].segments@ == highlight_of(
                    selected@[k].spec_bytes(),
                    query.spec_bytes(),
                    config.ignore_case,
                    config.filename,
                ),
        decreases n - i,
    {
        let line: &'a str = selected[i];
        let segments = highlight_with(
            line,
            query_len,
            needle.as_str(),
            config.ignore_case,
            config.filename,
        );
        lines.push(LineOutput { line, segments });
        i += 1;
    }
    let prefix = String::from_str(filename).concat(": ");
    proof {
        reveal_strlit(": ");
        assert(": "@ =~= seq![':', ' ']);
    }
    FileOutput { prefix, lines }
}

} // verus!
