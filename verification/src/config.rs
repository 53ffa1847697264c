//! What a search is asked to do.

use vstd::prelude::*;

verus! {

/// The arguments of a search as they were given.
#[derive(Clone, Debug)]
pub struct Args {
    /// The text to search for.
    pub query: String,
    /// The file to search, or a pattern that names several files.
    pub file: String,
    /// Whether case is ignored.
    pub ignore_case: bool,
    /// Whether the file name is written before each occurrence.
    pub filename: bool,
}

/// The settings of a search.
#[derive(Clone, Debug)]
pub struct Config {
    /// The text to search for.
    pub query: String,
    /// The file to search, or a pattern that names several files.
    pub file_path: String,
    /// Whether case is ignored.
    pub ignore_case: bool,
    /// Whether the file name is written before each occurrence.
    pub filename: bool,
}

impl Config {
    /// The settings that the arguments ask for. Every combination of
    /// arguments is accepted.
    pub fn build(args: Args) -> (r: Result<Config, &'static str>)
        ensures
            r matches Ok(config) && config.query@ == args.query@ && config.file_path@
                == args.file@ && config.ignore_case == args.ignore_case && config.filename
                == args.filename,
    {
        Ok(
            Config {
                query: args.query,
                file_path: args.file,
                ignore_case: args.ignore_case,
                filename: args.filename,
            },
        )
    }
}

} // verus!
