//! Lookup of numbered rules, sections and glossary terms in a rulebook
//! document, with the display records built from them.
//!
//! A rule number such as `1.2.a` addresses a node through the document's
//! `RULES` map and then the `CONTENT` map of each section on the way, keyed
//! by the growing dotted prefix (`1`, `1.2`, `1.2.a`). A node with a `NAME`
//! is a section; any other node is a rule, whose `RULE` text is its body.

pub mod address;
pub mod chars;
pub mod display;
pub mod icons;
pub mod json;
pub mod listing;
pub mod lookup;
pub mod version;

pub use address::{access_path, ancestor_names, build_pointer, resolve, sections, LookupError};
pub use display::{DisplayResult, MalformedDocument};
pub use icons::iconify;
pub use json::JsonValue;
pub use listing::section_contents;
pub use lookup::{list_top_level_contents, lookup_glossary, lookup_rule, render};
pub use version::{version_display, version_info, VersionError};
