//! Display records: what a lookup hands to the presentation layer.

use vstd::prelude::*;

verus! {

/// A display record: a title, a description, labelled fields in order, and
/// whether it reports an error.
pub struct DisplayResult {
    pub title: String,
    pub description: String,
    pub fields: Vec<(String, String)>,
    pub is_error: bool,
}

/// The texts of a display record.
pub struct DisplayView {
    pub title: Seq<char>,
    pub description: Seq<char>,
    pub fields: Seq<(Seq<char>, Seq<char>)>,
    pub is_error: bool,
}

/// The texts of labelled fields.
pub open spec fn field_texts(f: Seq<(String, String)>) -> Seq<(Seq<char>, Seq<char>)> {
    f.map_values(|p: (String, String)| (p.0@, p.1@))
}

impl View for DisplayResult {
    type V = DisplayView;

    open spec fn view(&self) -> DisplayView {
        DisplayView {
            title: self.title@,
            description: self.description@,
            fields: field_texts(self.fields@),
            is_error: self.is_error,
        }
    }
}

/// A document that lacks a field that its shape requires, or holds a value
/// of the wrong kind where text, an object or a list is required.
pub struct MalformedDocument;

} // verus!
