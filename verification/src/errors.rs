//! Error kinds of the build pipeline. Parse and schema failures come from
//! reading front matter, broken links from rendering, template failures from
//! the template engine, and unclassified changes from the watch loop.
use vstd::prelude::*;

verus! {

/// Every failure the pipeline can report.
#[derive(Debug)]
pub enum Error {
    /// The front-matter block is missing or its delimiters are malformed.
    Parse(String),
    /// The front-matter block decodes but a field has the wrong type or an
    /// invalid value (for example an unparseable date).
    Schema(String),
    /// A file read, write or copy failed.
    Io(String),
    /// An internal link did not resolve through the permalink table.
    BrokenLink { link: String, file: String },
    /// The template engine failed on the named template for the named file.
    Template { template: String, file: String },
    /// A watched-path event fell outside the content, templates and static
    /// roots; the watched root set is fixed, so this is fatal.
    UnclassifiedChange(String),
}

impl Error {
    pub fn is_parse(&self) -> (r: bool)
        ensures
            r == (self is Parse),
    {
        match self {
            Error::Parse(_) => true,
            _ => false,
        }
    }

    pub fn is_schema(&self) -> (r: bool)
        ensures
            r == (self is Schema),
    {
        match self {
            Error::Schema(_) => true,
            _ => false,
        }
    }

    pub fn is_broken_link(&self) -> (r: bool)
        ensures
            r == (self is BrokenLink),
    {
        match self {
            Error::BrokenLink { .. } => true,
            _ => false,
        }
    }
}

} // verus!
