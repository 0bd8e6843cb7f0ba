use crate::blog::ParsingError;
use vstd::prelude::*;

verus! {

/// A failure that stops a whole run. The variants that come from the file system,
/// the template engine or the copying of files carry that failure's message.
#[derive(Debug, PartialEq, Eq)]
pub enum SiteError {
    IoError(String),
    TeraError(String),
    FsExtraError(String),
    FileNotFound(String),
    ParsingError(ParsingError),
    NotADirectory(String),
}

} // verus!
