//! The three requests: a rule or section by number, a glossary term, and the
//! table of contents. Each gives a display record, or fails on a malformed
//! document.

use vstd::prelude::*;
use vstd::string::*;
use crate::json::{JsonValue, value_at, get_opt, text_of};
use crate::display::{DisplayResult, DisplayView, MalformedDocument, field_texts};
use crate::address::{resolve_spec, trail_spec, join, sections, resolve};
use crate::listing::{listing_of, section_contents};
use crate::icons::{apply_icons, icons, iconify};

verus! {

/// The description and auxiliary fields of a rule with the given entries:
/// `RULE` gives the description, every other entry a field, all with icons
/// substituted. Nothing where a value is not text.
pub open spec fn rule_parts(entries: Seq<(String, JsonValue)>) -> Option<
    (Option<Seq<char>>, Seq<(Seq<char>, Seq<char>)>),
>
    decreases entries.len(),
{
    if entries.len() == 0 {
        Some((None, seq![]))
    } else {
        match (rule_parts(entries.drop_last()), text_of(Some(entries.last().1))) {
            (Some((d, f)), Some(t)) => if entries.last().0@ == "RULE"@ {
                Some((Some(apply_icons(t, icons())), f))
            } else {
                Some((d, f.push((entries.last().0@, apply_icons(t, icons())))))
            },
            _ => None,
        }
    }
}

/// The contents listing of a section node: empty where it has no `CONTENT`.
pub open spec fn contents_of(node: JsonValue) -> Option<Seq<char>> {
    match value_at(node, "CONTENT"@) {
        None => Some(seq![]),
        Some(c) => listing_of(c),
    }
}

/// The display of the node `node` that `id` resolves to in `doc`; nothing
/// where the document is malformed.
pub open spec fn render_spec(doc: JsonValue, id: Seq<char>, node: JsonValue) -> Option<DisplayView> {
    match trail_spec(doc, id) {
        None => None,
        Some(names) => {
            let trail = join(names, " / "@);
            match value_at(node, "NAME"@) {
                Some(n) => match (text_of(Some(n)), contents_of(node)) {
                    (Some(name), Some(listing)) => Some(
                        DisplayView {
                            title: "Section "@ + id + " - "@ + name,
                            description: trail,
                            fields: seq![("Contents"@, listing)],
                            is_error: false,
                        },
                    ),
                    _ => None,
                },
                None => match node {
                    JsonValue::Object(entries) => match rule_parts(entries@) {
                        Some((Some(d), f)) => Some(
                            DisplayView {
                                title: "Rule "@ + id,
                                description: d,
                                fields: f.push(("In section"@, trail)),
                                is_error: false,
                            },
                        ),
                        _ => None,
                    },
                    _ => None,
                },
            }
        },
    }
}

/// The display of an identifier that addresses nothing.
pub open spec fn rule_not_found(id: Seq<char>) -> DisplayView {
    DisplayView {
        title: "Invalid rule number"@,
        description: "Error - Rule \""@ + id + "\" not found"@,
        fields: seq![],
        is_error: true,
    }
}

/// The answer to a request for the rule or section `id`.
pub open spec fn lookup_rule_spec(doc: JsonValue, id: Seq<char>) -> Option<DisplayView> {
    match resolve_spec(doc, id) {
        None => Some(rule_not_found(id)),
        Some(node) => render_spec(doc, id, node),
    }
}

/// Whether `r` is the display `v`, or a failure where `v` is nothing.
pub open spec fn answers(r: Result<DisplayResult, MalformedDocument>, v: Option<DisplayView>) -> bool {
    match v {
        Some(d) => r is Ok && r->Ok_0@ == d,
        None => r is Err,
    }
}

/// The description and fields of a rule node's entries.
fn rule_fields(entries: &Vec<(String, JsonValue)>) -> (r: Result<
    (Option<String>, Vec<(String, String)>),
    MalformedDocument,
>)
    ensures
        match rule_parts(entries@) {
            Some((d, f)) => r is Ok && field_texts(r->Ok_0.1@) == f && match r->Ok_0.0 {
                Some(s) => d == Some(s@),
                None => d is None,
            },
            None => r is Err,
        },
{
    let mut desc: Option<String> = None;
    let mut fields: Vec<(String, String)> = Vec::new();
    let mut i: usize = 0;
    assert(entries@.take(0) =~= seq![]);
    assert(field_texts(fields@) =~= seq![]);
    while i < entries.len()
        invariant
            i <= entries@.len(),
            rule_parts(entries@.take(i as int)) matches Some((d, f)) && field_texts(fields@) == f
                && match desc {
                Some(s) => d == Some(s@),
                None => d is None,
            },
        decreases entries.len() - i,
    {
        assert(entries@.take(i + 1).drop_last() =~= entries@.take(i as int));
        assert(entries@.take(i + 1).last() == entries@[i as int]);
        match entries[i].1.as_text() {
            Some(t) => {
                let shown = iconify(t.clone());
                if entries[i].0 == String::from_str("RULE") {
                    desc = Some(shown);
                } else {
                    let ghost before = fields@;
                    fields.push((entries[i].0.clone(), shown));
                    assert(field_texts(fields@) =~= field_texts(before).push(
                        (entries@[i as int].0@, shown@),
                    ));
                }
            },
            None => {
                proof {
                    lemma_rule_parts_fail(entries@, i as int + 1);
                }
                return Err(MalformedDocument);
            },
        }
        i = i + 1;
    }
    assert(entries@.take(i as int) =~= entries@);
    Ok((desc, fields))
}

/// Once an entry is not text, the rule has no parts.
proof fn lemma_rule_parts_fail(entries: Seq<(String, JsonValue)>, i: int)
    requires
        0 <= i <= entries.len(),
        rule_parts(entries.take(i)) is None,
    ensures
        rule_parts(entries) is None,
    decreases entries.len() - i,
{
    if i == entries.len() {
        assert(entries.take(i) =~= entries);
    } else {
        assert(entries.take(i + 1).drop_last() =~= entries.take(i));
        lemma_rule_parts_fail(entries, i + 1);
    }
}

/// A string from a literal, with its text.
fn text(s: &str) -> (r: String)
    ensures
        r@ == s@,
{
    String::from_str(s)
}

/// The display of the node `node` that `id` resolves to: a section shows
/// its name, trail and contents; a rule its text, its other entries and the
/// trail of the sections that hold it.
pub fn render(doc: &JsonValue, node: &JsonValue, id: &String) -> (r: Result<
    DisplayResult,
    MalformedDocument,
>)
    requires
        resolve_spec(*doc, id@) == Some(*node),
    ensures
        answers(r, render_spec(*doc, id@, *node)),
{
    let trail = match sections(id, doc) {
        Ok(t) => t,
        Err(_) => {
            return Err(MalformedDocument);
        },
    };
    match node.get("NAME") {
        Some(n) => {
            let name = match n.as_text() {
                Some(s) => s,
                None => {
                    return Err(MalformedDocument);
                },
            };
            let listing = match node.get("CONTENT") {
                None => String::new(),
                Some(c) => match section_contents(c) {
                    Ok(l) => l,
                    Err(e) => {
                        return Err(e);
                    },
                },
            };
            let mut title = text("Section ");
            title.append(id.as_str());
            title.append(" - ");
            title.append(name.as_str());
            let fields = vec![(text("Contents"), listing)];
            let r = DisplayResult { title, description: trail, fields, is_error: false };
            assert(r@.fields =~= seq![("Contents"@, listing@)]);
            Ok(r)
        },
        None => match node {
            JsonValue::Object(entries) => {
                let (desc, mut fields) = match rule_fields(entries) {
                    Ok(p) => p,
                    Err(e) => {
                        return Err(e);
                    },
                };
                let description = match desc {
                    Some(d) => d,
                    None => {
                        return Err(MalformedDocument);
                    },
                };
                let ghost before = fields@;
                fields.push((text("In section"), trail));
                assert(field_texts(fields@) =~= field_texts(before).push(("In section"@, trail@)));
                let mut title = text("Rule ");
                title.append(id.as_str());
                Ok(DisplayResult { title, description, fields, is_error: false })
            },
            _ => Err(MalformedDocument),
        },
    }
}

/// The answer to a request for the rule or section `id`: its display, or an
/// error display naming `id` where it addresses nothing.
pub fn lookup_rule(doc: &JsonValue, id: &String) -> (r: Result<DisplayResult, MalformedDocument>)
    ensures
        answers(r, lookup_rule_spec(*doc, id@)),
{
    match resolve(doc, id) {
        None => {
            let mut description = text("Error - Rule \"");
            description.append(id.as_str());
            description.append("\" not found");
            let r = DisplayResult {
                title: text("Invalid rule number"),
                description,
                fields: Vec::new(),
                is_error: true,
            };
            assert(r@.fields =~= seq![]);
            Ok(r)
        },
        Some(node) => render(doc, node, id),
    }
}

/// The related identifiers of a glossary entry, joined by single spaces;
/// nothing where one is not text.
pub open spec fn related_text(items: Seq<JsonValue>) -> Option<Seq<char>>
    decreases items.len(),
{
    if items.len() == 0 {
        Some(seq![])
    } else {
        match (related_text(items.drop_last()), text_of(Some(items.last()))) {
            (Some(t), Some(r)) => if items.len() == 1 {
                Some(r)
            } else {
                Some(t + " "@ + r)
            },
            _ => None,
        }
    }
}

/// The related identifiers of an entry's `RELATED` value: a list of texts.
pub open spec fn related_of(v: Option<JsonValue>) -> Option<Seq<char>> {
    match v {
        Some(JsonValue::Array(items)) => related_text(items@),
        _ => None,
    }
}

/// The display of a glossary term that is absent.
pub open spec fn term_not_found(term: Seq<char>) -> DisplayView {
    DisplayView {
        title: "Not found"@,
        description: "Error - Entry \""@ + term + "\" not found"@,
        fields: seq![],
        is_error: true,
    }
}

/// The answer to a glossary request for `term`: its description titled by
/// the term, and, where `include_related` holds, the related identifiers.
pub open spec fn glossary_spec(doc: JsonValue, term: Seq<char>, include_related: bool) -> Option<
    DisplayView,
> {
    match get_opt(value_at(doc, "GLOSSARY"@), term) {
        None => Some(term_not_found(term)),
        Some(entry) => match text_of(value_at(entry, "DESCRIPTION"@)) {
            None => None,
            Some(d) => if !include_related {
                Some(DisplayView { title: term, description: d, fields: seq![], is_error: false })
            } else {
                match related_of(value_at(entry, "RELATED"@)) {
                    Some(rel) => Some(
                        DisplayView {
                            title: term,
                            description: d,
                            fields: seq![("Related rules"@, rel)],
                            is_error: false,
                        },
                    ),
                    None => None,
                }
            },
        },
    }
}

/// The table of contents: the listing of the top-level sections, with the
/// document's `ABOUT` text.
pub open spec fn contents_spec(doc: JsonValue) -> Option<DisplayView> {
    match value_at(doc, "RULES"@) {
        Some(rules) => match (listing_of(rules), text_of(value_at(doc, "ABOUT"@))) {
            (Some(toc), Some(about)) => Some(
                DisplayView {
                    title: "Table of contents"@,
                    description: toc,
                    fields: seq![("About"@, about)],
                    is_error: false,
                },
            ),
            _ => None,
        },
        None => None,
    }
}

/// The related identifiers of a list, joined by single spaces.
fn related_list(v: &JsonValue) -> (r: Result<String, MalformedDocument>)
    ensures
        match related_of(Some(*v)) {
            Some(t) => r is Ok && r->Ok_0@ == t,
            None => r is Err,
        },
{
    match v {
        JsonValue::Array(items) => {
            let mut out = String::new();
            let mut i: usize = 0;
            assert(items@.take(0) =~= seq![]);
            while i < items.len()
                invariant
                    *v == JsonValue::Array(*items),
                    i <= items@.len(),
                    related_text(items@.take(i as int)) == Some(out@),
                decreases items.len() - i,
            {
                assert(items@.take(i + 1).drop_last() =~= items@.take(i as int));
                match items[i].as_text() {
                    Some(t) => {
                        if i > 0 {
                            out.append(" ");
                        }
                        out.append(t.as_str());
                    },
                    None => {
                        proof {
                            lemma_related_fail(items@, i as int + 1);
                        }
                        return Err(MalformedDocument);
                    },
                }
                i = i + 1;
            }
            assert(items@.take(i as int) =~= items@);
            Ok(out)
        },
        _ => Err(MalformedDocument),
    }
}

/// Once an item is not text, the list has no related text.
proof fn lemma_related_fail(items: Seq<JsonValue>, i: int)
    requires
        0 <= i <= items.len(),
        related_text(items.take(i)) is None,
    ensures
        related_text(items) is None,
    decreases items.len() - i,
{
    if i == items.len() {
        assert(items.take(i) =~= items);
    } else {
        assert(items.take(i + 1).drop_last() =~= items.take(i));
        lemma_related_fail(items, i + 1);
    }
}

/// The answer to a glossary request for `term`: a flat lookup in the
/// glossary, with the related identifiers where `include_related` holds,
/// and an error display naming the term where it is absent.
pub fn lookup_glossary(doc: &JsonValue, term: &String, include_related: bool) -> (r: Result<
    DisplayResult,
    MalformedDocument,
>)
    ensures
        answers(r, glossary_spec(*doc, term@, include_related)),
{
    let entry = match doc.get("GLOSSARY") {
        Some(g) => g.get(term.as_str()),
        None => None,
    };
    match entry {
        None => {
            let mut description = text("Error - Entry \"");
            description.append(term.as_str());
            description.append("\" not found");
            let r = DisplayResult {
                title: text("Not found"),
                description,
                fields: Vec::new(),
                is_error: true,
            };
            assert(r@.fields =~= seq![]);
            Ok(r)
        },
        Some(e) => {
            let description = match e.get("DESCRIPTION") {
                Some(d) => match d.as_text() {
                    Some(t) => t.clone(),
                    None => {
                        return Err(MalformedDocument);
                    },
                },
                None => {
                    return Err(MalformedDocument);
                },
            };
            if !include_related {
                let r = DisplayResult {
                    title: term.clone(),
                    description,
                    fields: Vec::new(),
                    is_error: false,
                };
                assert(r@.fields =~= seq![]);
                return Ok(r);
            }
            let rel = match e.get("RELATED") {
                Some(v) => match related_list(v) {
                    Ok(t) => t,
                    Err(err) => {
                        return Err(err);
                    },
                },
                None => {
                    return Err(MalformedDocument);
                },
            };
            let r = DisplayResult {
                title: term.clone(),
                description,
                fields: vec![(text("Related rules"), rel)],
                is_error: false,
            };
            assert(r@.fields =~= seq![("Related rules"@, rel@)]);
            Ok(r)
        },
    }
}

/// The table of contents: the listing of the top-level sections, with the
/// document's `ABOUT` text as a field.
pub fn list_top_level_contents(doc: &JsonValue) -> (r: Result<DisplayResult, MalformedDocument>)
    ensures
        answers(r, contents_spec(*doc)),
{
    let toc = match doc.get("RULES") {
        Some(rules) => match section_contents(rules) {
            Ok(t) => t,
            Err(e) => {
                return Err(e);
            },
        },
        None => {
            return Err(MalformedDocument);
        },
    };
    let about = match doc.get("ABOUT") {
        Some(a) => match a.as_text() {
            Some(t) => t.clone(),
            None => {
                return Err(MalformedDocument);
            },
        },
        None => {
            return Err(MalformedDocument);
        },
    };
    let r = DisplayResult {
        title: text("Table of contents"),
        description: toc,
        fields: vec![(text("About"), about)],
        is_error: false,
    };
    assert(r@.fields =~= seq![("About"@, about@)]);
    Ok(r)
}

/// An identifier that resolves is answered with its node's display, never
/// with an error display.
pub proof fn lemma_resolved_not_error(doc: JsonValue, id: Seq<char>)
    requires
        resolve_spec(doc, id) is Some,
    ensures
        lookup_rule_spec(doc, id) == render_spec(doc, id, resolve_spec(doc, id)->0),
        lookup_rule_spec(doc, id) matches Some(v) ==> !v.is_error,
{
}

/// An identifier that resolves to nothing is answered with an error display
/// titled "Invalid rule number" whose description holds the identifier.
pub proof fn lemma_unresolved_reports(doc: JsonValue, id: Seq<char>)
    requires
        resolve_spec(doc, id) is None,
    ensures
        lookup_rule_spec(doc, id) matches Some(v) && v.is_error && v.title == "Invalid rule number"@
            && v.description.subrange(14, 14 + id.len() as int) == id,
{
    reveal_strlit("Error - Rule \"");
    let d = rule_not_found(id).description;
    assert(d.subrange(14, 14 + id.len() as int) =~= id);
}

} // verus!
