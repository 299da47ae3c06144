//! Reads an HTTP Live Streaming master playlist into a typed, validated and
//! canonically ordered model: the text is read into tags with their
//! attributes, and the tags are converted into typed records.
use vstd::prelude::*;
use crate::errors::{Error, ErrorView};
use crate::models::conversions::master_playlist_of;
use crate::models::{MasterPlaylist, MasterPlaylistView};
use crate::parser::grammar::master_playlist_rule;
use crate::parser::HLSParser;

pub mod errors;
pub mod models;
pub mod number;
pub mod parser;
pub mod text;

verus! {

/// What reading `text` as a master playlist gives: the playlist that its
/// records describe, a parse error where the text is not grammatical, or a
/// format error where a record is rejected.
pub open spec fn playlist_of(text: Seq<char>) -> Result<MasterPlaylistView, ErrorView> {
    match master_playlist_rule(text) {
        Err(failure) => Err(ErrorView::Parse(failure.message())),
        Ok(records) => match master_playlist_of(records) {
            Err(cause) => Err(ErrorView::HLSFormat(cause)),
            Ok(playlist) => Ok(playlist),
        },
    }
}

/// Reads the text of a master playlist into its typed form.
pub fn parse_hls(hls_str: &str) -> (r: Result<MasterPlaylist, Error>)
    ensures
        match (r, playlist_of(hls_str@)) {
            (Ok(playlist), Ok(described)) => playlist@ == described,
            (Err(e), Err(cause)) => e@ == cause,
            _ => false,
        },
{
    let parser = HLSParser {};

    let parsed = parser.parse(hls_str)?;
    MasterPlaylist::try_from(parsed)
}

} // verus!
