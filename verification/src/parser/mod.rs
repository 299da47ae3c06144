use vstd::prelude::*;
use vstd::std_specs::convert::FromSpecImpl;
use crate::errors::{Error, ErrorView};
use crate::parser::attributes::Attributes;
use crate::parser::grammar::{master_playlist, master_playlist_rule, record_texts, ParseFailure};
use crate::text::chars_of;

pub mod attributes;
pub mod grammar;
pub mod render;
pub mod scan;

verus! {

/// The conversion is stated over the text of the cause, in `from`.
impl FromSpecImpl<ParseFailure> for Error {
    open spec fn obeys_from_spec() -> bool {
        false
    }

    open spec fn from_spec(failure: ParseFailure) -> Error {
        arbitrary()
    }
}

/// A grammar failure is a parse error whose cause is the failure as a
/// sentence.
impl From<ParseFailure> for Error {
    fn from(failure: ParseFailure) -> (e: Error)
        ensures
            e@ == ErrorView::Parse(failure@.message()),
    {
        Error::Parse(failure.describe())
    }
}

/// Reads the text of a master playlist into its records.
pub struct HLSParser {}

impl HLSParser {
    /// Takes the text of an HLS master playlist and reads it into a list of
    /// tags, each with its attributes, in the order of the document.
    pub fn parse(&self, hls_str: &str) -> (r: Result<Vec<(String, Attributes)>, Error>)
        ensures
            match (r, master_playlist_rule(hls_str@)) {
                (Ok(records), Ok(found)) => record_texts(records@) == found,
                (Err(e), Err(failure)) => e@ == ErrorView::Parse(failure.message()),
                _ => false,
            },
    {
        let chars = chars_of(hls_str);
        match master_playlist(chars.as_slice()) {
            Ok(records) => Ok(records),
            Err(failure) => Err(Error::from(failure)),
        }
    }
}

} // verus!
