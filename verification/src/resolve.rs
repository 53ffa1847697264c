//! Deciding which files a search reads.

use vstd::prelude::*;
use vstd::string::*;
use crate::config::Config;
use crate::error::SearchError;

verus! {

/// A file to search.
#[derive(Clone, Debug)]
pub struct FileTarget {
    /// The path of the file.
    pub path: String,
    /// Whether the file was found by expanding a pattern.
    pub from_expansion: bool,
}

/// The paths that an expansion yielded, in order. An entry that could not be
/// resolved is `None` and is passed over.
pub open spec fn kept_paths(entries: Seq<Option<String>>) -> Seq<Seq<char>>
    decreases entries.len(),
{
    if entries.len() == 0 {
        Seq::empty()
    } else {
        let before = kept_paths(entries.drop_last());
        match entries.last() {
            Some(path) => before.push(path@),
            None => before,
        }
    }
}

/// The targets are the one file that the input names, not marked as found by
/// expansion.
pub open spec fn names_literal(targets: Seq<FileTarget>, path: Seq<char>) -> bool {
    &&& targets.len() == 1
    &&& targets[0].path@ == path
    &&& !targets[0].from_expansion
}

/// The targets are the given paths, in order, each marked as found by
/// expansion.
pub open spec fn names_expansion(targets: Seq<FileTarget>, paths: Seq<Seq<char>>) -> bool {
    &&& targets.len() == paths.len()
    &&& forall|i: int|
        0 <= i < targets.len() ==> (#[trigger] targets[i]).path@ == paths[i]
            && targets[i].from_expansion
}

/// Whether file names are shown for a file: where that was asked for, and
/// always for a file that an expansion found.
pub open spec fn shows_filename(requested: bool, from_expansion: bool) -> bool {
    requested || from_expansion
}

/// For every file that an expansion found the file name is shown, whether
/// that was asked for or not.
pub proof fn lemma_expansion_shows_filenames(
    targets: Seq<FileTarget>,
    paths: Seq<Seq<char>>,
    requested: bool,
)
    requires
        names_expansion(targets, paths),
    ensures
        forall|i: int|
            0 <= i < targets.len() ==> shows_filename(
                requested,
                (#[trigger] targets[i]).from_expansion,
            ),
{
}

/// The files to search for the input `path_or_pattern`. `exists` says whether
/// the input names an existing file; `entries` is what expanding the input as
/// a pattern yielded, and is looked at only where the input names no file.
pub fn resolve(path_or_pattern: &str, exists: bool, entries: &Vec<Option<String>>) -> (r: Result<
    Vec<FileTarget>,
    SearchError,
>)
    ensures
        match r {
            Ok(targets) => if exists {
                names_literal(targets@, path_or_pattern@)
            } else {
                kept_paths(entries@).len() > 0 && names_expansion(targets@, kept_paths(entries@))
            },
            Err(SearchError::NotFound(input)) => !exists && kept_paths(entries@).len() == 0
                && input@ == path_or_pattern@,
            Err(_) => false,
        },
{
    let mut targets: Vec<FileTarget> = Vec::new();
    if exists {
        targets.push(FileTarget { path: String::from_str(path_or_pattern), from_expansion: false });
        return Ok(targets);
    }
    let n: usize = entries.len();
    let mut i: usize = 0;
    while i < n
        invariant
            n == entries@.len(),
            i <= n,
            names_expansion(targets@, kept_paths(entries@.take(i as int))),
        decreases n - i,
    {
        proof {
            assert(entries@.take(i + 1).drop_last() =~= entries@.take(i as int));
        }
        match &entries[i] {
            Some(path) => {
                targets.push(FileTarget { path: path.clone(), from_expansion: true });
            },
            None => {},
        }
        i += 1;
    }
    proof {
        assert(entries@.take(n as int) =~= entries@);
    }
    if targets.len() == 0 {
        Err(SearchError::NotFound(String::from_str(path_or_pattern)))
    } else {
        Ok(targets)
    }
}

impl Config {
    /// The settings for searching one file: those of the run, with file names
    /// shown where the file was found by expanding a pattern.
    pub fn for_target(&self, target: &FileTarget) -> (r: Config)
        ensures
            r.query@ == self.query@,
            r.file_path@ == self.file_path@,
            r.ignore_case == self.ignore_case,
            r.filename == shows_filename(self.filename, target.from_expansion),
    {
        Config {
            query: self.query.clone(),
            file_path: self.file_path.clone(),
            ignore_case: self.ignore_case,
            filename: self.filename || target.from_expansion,
        }
    }
}

} // verus!
