//! The settings of a renaming run.
use std::path::PathBuf;
use vstd::prelude::*;

verus! {

/// The files to rename, the key of the show database and the language of
/// its answers.
pub struct Config {
    pub filenames: Vec<PathBuf>,
    pub api_key: String,
    pub lang: String,
}

impl Config {
    /// The settings for the given files and language, with the database key
    /// that the program was given.
    pub fn new(filenames: Vec<PathBuf>, lang: String, api_key: String) -> (res: Result<
        Config,
        &'static str,
    >)
        ensures
            res matches Ok(c) && c.filenames@ == filenames@ && c.lang@ == lang@ && c.api_key@
                == api_key@,
    {
        Ok(Config { filenames, api_key, lang })
    }
}

} // verus!
