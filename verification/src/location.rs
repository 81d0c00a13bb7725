use crate::syntax::Span;
use crate::text::{byte_len, offset_to_lsp_position, position_of, Position, Range};
use vstd::prelude::*;

verus! {

/// A stretch of a document.
#[derive(Debug, PartialEq, Eq)]
pub struct Location {
    pub uri: String,
    pub range: Range,
}

/// What a [`Location`] says.
pub ghost struct LocationView {
    pub uri: Seq<char>,
    pub range: Range,
}

impl View for Location {
    type V = LocationView;

    open spec fn view(&self) -> LocationView {
        LocationView { uri: self.uri@, range: self.range }
    }
}

/// What an optional location says.
pub open spec fn optional_location(location: Option<Location>) -> Option<LocationView> {
    match location {
        Some(location) => Some(location@),
        None => None,
    }
}

/// What each of a row of locations says.
pub open spec fn locations_view(locations: Seq<Location>) -> Seq<LocationView> {
    locations.map_values(|location: Location| location@)
}

impl Clone for Location {
    fn clone(&self) -> (copy: Location)
        ensures
            copy@ == self@,
    {
        Location { uri: self.uri.clone(), range: self.range }
    }
}

/// The lines and columns that a span covers.
pub open spec fn range_of(text: Seq<char>, span: Span) -> Range {
    Range {
        start: position_of(text, span.start as nat),
        end: position_of(text, span.end as nat),
    }
}

/// The empty stretch in front of a document.
pub open spec fn document_start() -> Range {
    Range {
        start: Position { line: 0, character: 0 },
        end: Position { line: 0, character: 0 },
    }
}

/// Converts a span to lines and columns.
pub fn to_lsp_range(text: &str, span: Span) -> (range: Range)
    requires
        byte_len(text@) <= u32::MAX,
    ensures
        range == range_of(text@, span),
{
    Range {
        start: offset_to_lsp_position(text, span.start as usize),
        end: offset_to_lsp_position(text, span.end as usize),
    }
}

} // verus!
