use vstd::prelude::*;

use crate::search::{matching_lines, search, search_case_insensitive};
use crate::text::lines_of;

verus! {

/// The settings of one run: what to look for, where to read, and whether
/// case is ignored.
pub struct Config {
    pub query: String,
    /// The file to read; standard input where there is none.
    pub file_path: Option<String>,
    pub ignore_case: bool,
}

/// Why no `Config` could be built.
#[derive(Debug, PartialEq, Eq, Structural)]
pub enum ConfigError {
    /// The arguments hold no query after the program's name.
    MissingQuery,
}

impl ConfigError {
    /// The message shown to the user.
    pub fn message(&self) -> (r: &'static str)
        ensures
            r@ == "Didn't get a query string."@,
    {
        match self {
            ConfigError::MissingQuery => "Didn't get a query string.",
        }
    }
}

impl Config {
    /// Builds the settings from the command line, whose first entry is the
    /// program's name, the second the query and the third, if any, the file
    /// path; later entries are ignored. `ignore_case` tells whether the
    /// environment asks for case-insensitive search.
    pub fn build(args: &Vec<String>, ignore_case: bool) -> (r: Result<Config, ConfigError>)
        ensures
            r is Err <==> args.len() < 2,
            r matches Err(e) ==> e == ConfigError::MissingQuery,
            r matches Ok(c) ==> {
                &&& c.query@ == args[1]@
                &&& c.file_path is None <==> args.len() < 3
                &&& c.file_path matches Some(p) ==> p@ == args[2]@
                &&& c.ignore_case == ignore_case
            },
    {
        if args.len() < 2 {
            return Err(ConfigError::MissingQuery);
        }
        let query = args[1].clone();
        let file_path = if args.len() >= 3 {
            Some(args[2].clone())
        } else {
            None
        };
        Ok(Config { query, file_path, ignore_case })
    }

    /// The lines of `contents` that match the query in the chosen mode.
    pub fn search<'a>(&self, contents: &'a str) -> (r: Vec<&'a str>)
        ensures
            r.deep_view() == matching_lines(lines_of(contents@), self.query@, self.ignore_case),
    {
        if self.ignore_case {
            search_case_insensitive(self.query.as_str(), contents)
        } else {
            search(self.query.as_str(), contents)
        }
    }
}

} // verus!
