//! The version request: the document's version and the program's own,
//! read from its package manifest.

use vstd::prelude::*;
use vstd::string::*;
use crate::json::{JsonValue, value_at, text_of};
use crate::display::{DisplayResult, DisplayView, field_texts};

verus! {

/// The version that a package manifest declares: the first group of the
/// first match of `version = "([\w\.-]*)"` in its text.
pub uninterp spec fn manifest_version(text: Seq<char>) -> Option<Seq<char>>;

/// Relies on regex::Regex::new and Regex::captures: the pattern compiles,
/// and the first match and its group depend on the text alone; the group
/// takes part in every match.
#[verifier::external_body]
fn capture_version(text: &str) -> (r: Option<String>)
    ensures
        match r {
            Some(s) => manifest_version(text@) == Some(s@),
            None => manifest_version(text@) is None,
        },
{
    let re = regex::Regex::new(r#"version = "([\w\.-]*)""#).unwrap();
    re.captures(text).map(|c| c.get(1).unwrap().as_str().to_string())
}

/// Why the version request failed.
pub enum VersionError {
    /// The document has no `VERSION` text.
    MalformedDocument,
    /// The manifest declares no version.
    MissingBotVersion,
}

/// The version display, from the document's `VERSION` and the program's
/// version; an error where either is missing.
pub open spec fn version_spec(doc: JsonValue, bot: Option<Seq<char>>) -> Result<DisplayView, VersionError> {
    match text_of(value_at(doc, "VERSION"@)) {
        None => Err(VersionError::MalformedDocument),
        Some(v) => match bot {
            None => Err(VersionError::MissingBotVersion),
            Some(b) => Ok(
                DisplayView {
                    title: "Version"@,
                    description: seq![],
                    fields: seq![("Comprehensive Rules Version"@, v), ("Bot Version"@, b)],
                    is_error: false,
                },
            ),
        },
    }
}

/// Whether `r` is what `v` describes.
pub open spec fn version_answers(r: Result<DisplayResult, VersionError>, v: Result<DisplayView, VersionError>) -> bool {
    match v {
        Ok(d) => r is Ok && r->Ok_0@ == d,
        Err(VersionError::MalformedDocument) => r matches Err(VersionError::MalformedDocument),
        Err(VersionError::MissingBotVersion) => r matches Err(VersionError::MissingBotVersion),
    }
}

/// The version display for a program version that was already read.
pub fn version_display(doc: &JsonValue, bot_version: Option<String>) -> (r: Result<DisplayResult, VersionError>)
    ensures
        version_answers(
            r,
            version_spec(
                *doc,
                match bot_version {
                    Some(b) => Some(b@),
                    None => None,
                },
            ),
        ),
{
    let version = match doc.get("VERSION") {
        Some(v) => match v.as_text() {
            Some(t) => t.clone(),
            None => {
                return Err(VersionError::MalformedDocument);
            },
        },
        None => {
            return Err(VersionError::MalformedDocument);
        },
    };
    let bot = match bot_version {
        Some(b) => b,
        None => {
            return Err(VersionError::MissingBotVersion);
        },
    };
    let fields = vec![
        (String::from_str("Comprehensive Rules Version"), version),
        (String::from_str("Bot Version"), bot),
    ];
    let r = DisplayResult {
        title: String::from_str("Version"),
        description: String::new(),
        fields,
        is_error: false,
    };
    assert(field_texts(r.fields@) =~= seq![
        ("Comprehensive Rules Version"@, version@),
        ("Bot Version"@, bot@),
    ]);
    Ok(r)
}

/// The version display, with the program's version read from the text of
/// its package manifest.
pub fn version_info(doc: &JsonValue, manifest: &String) -> (r: Result<DisplayResult, VersionError>)
    ensures
        version_answers(r, version_spec(*doc, manifest_version(manifest@))),
{
    let bot = capture_version(manifest.as_str());
    version_display(doc, bot)
}

} // verus!
