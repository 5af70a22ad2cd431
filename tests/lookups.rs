use rulebook::{
    access_path, ancestor_names, build_pointer, iconify, list_top_level_contents, lookup_glossary,
    lookup_rule, resolve, section_contents, sections, version_display, version_info, DisplayResult,
    JsonValue, LookupError, VersionError,
};

fn s(t: &str) -> String {
    t.to_string()
}

fn text(t: &str) -> JsonValue {
    JsonValue::Str(s(t))
}

fn obj(entries: Vec<(&str, JsonValue)>) -> JsonValue {
    JsonValue::Object(entries.into_iter().map(|(k, v)| (s(k), v)).collect())
}

fn rule(t: &str) -> JsonValue {
    obj(vec![("RULE", text(t))])
}

fn section(name: &str, content: Vec<(&str, JsonValue)>) -> JsonValue {
    obj(vec![("NAME", text(name)), ("CONTENT", obj(content))])
}

fn document() -> JsonValue {
    obj(vec![
        (
            "RULES",
            obj(vec![(
                "1",
                section(
                    "Basics",
                    vec![
                        (
                            "1.1",
                            obj(vec![
                                ("RULE", text("Players may not concede.")),
                                ("Example", text("Pay %1% now")),
                            ]),
                        ),
                        ("1.2", section("Turns", vec![("1.2.a", rule("A turn has three phases."))])),
                    ],
                ),
            )]),
        ),
        (
            "GLOSSARY",
            obj(vec![(
                "Mana",
                obj(vec![
                    ("DESCRIPTION", text("The energy used to play cards.")),
                    ("RELATED", JsonValue::Array(vec![text("1.1"), text("1.2")])),
                ]),
            )]),
        ),
        ("VERSION", text("2.1")),
        ("ABOUT", text("Comprehensive rules.")),
    ])
}

fn field<'a>(d: &'a DisplayResult, label: &str) -> Option<&'a String> {
    d.fields.iter().find(|(k, _)| k == label).map(|(_, v)| v)
}

const ICON_1: &str = "<:icon_1:1294668469257633874>";
const ICON_X: &str = "<:icon_x:1294668825354309643>";

#[test]
fn rule_lookup_gives_text_and_section() {
    let d = lookup_rule(&document(), &s("1.1")).ok().unwrap();
    assert!(!d.is_error);
    assert_eq!(d.title, "Rule 1.1");
    assert_eq!(d.description, "Players may not concede.");
    assert_eq!(field(&d, "In section").unwrap(), "Basics");
    assert_eq!(d.fields.len(), 2);
    assert_eq!(d.fields[0].0, "Example");
    assert_eq!(d.fields[0].1, format!("Pay {} now", ICON_1));
    assert_eq!(d.fields[1].0, "In section");
}

#[test]
fn absent_rule_reports_error() {
    let d = lookup_rule(&document(), &s("9.9")).ok().unwrap();
    assert!(d.is_error);
    assert_eq!(d.title, "Invalid rule number");
    assert!(d.description.contains("9.9"));
    assert_eq!(d.description, "Error - Rule \"9.9\" not found");
    assert!(d.fields.is_empty());
}

#[test]
fn iconify_replaces_each_token() {
    let out = iconify(s("Pay %1% %x% mana"));
    assert_eq!(out, format!("Pay {} {} mana", ICON_1, ICON_X));
}

#[test]
fn iconify_keeps_unknown_and_words() {
    assert_eq!(iconify(s("%q% and %common%")), "%q% and <:icon_common:1294678013404774422>");
    assert_eq!(iconify(s("%1%1%")), format!("{}1%", ICON_1));
    assert_eq!(iconify(s("")), "");
    assert_eq!(iconify(s("100% sure")), "100% sure");
}

#[test]
fn iconify_twice_is_once() {
    for t in ["Pay %1% %x% mana", "%%1%%", "%x%1%", "%rare%%unique%", "no icons"] {
        let once = iconify(s(t));
        assert_eq!(iconify(once.clone()), once);
    }
}

#[test]
fn short_rule_listed_whole() {
    let t = "Draw one card each turn.."; // 25 characters
    assert_eq!(t.chars().count(), 25);
    let content = obj(vec![("3.1", rule(t))]);
    let listing = section_contents(&content).ok().unwrap();
    assert_eq!(listing, format!("3.1 *{}...*\n", t));
}

#[test]
fn long_rule_preview_cut_at_forty() {
    let t = "abcdefghijklmnopqrstuvwxyzABCDEFGHIJKLMNOPQRSTUVWXYZ";
    let content = obj(vec![("3.1", rule(t))]);
    let listing = section_contents(&content).ok().unwrap();
    assert_eq!(listing, format!("3.1 *{}...*\n", &t[..40]));
}

#[test]
fn listing_has_one_line_per_child_in_order() {
    let content = obj(vec![
        ("2.3", rule("Third.")),
        ("2.1", section("First", vec![])),
        ("2.2", rule("Second.")),
    ]);
    let listing = section_contents(&content).ok().unwrap();
    let lines: Vec<&str> = listing.lines().collect();
    assert_eq!(lines.len(), 3);
    assert_eq!(lines, vec!["2.3 *Third....*", "2.1 - First", "2.2 *Second....*"]);
}

#[test]
fn listing_of_non_object_fails() {
    assert!(section_contents(&text("x")).is_err());
    assert!(section_contents(&obj(vec![("1.1", obj(vec![]))])).is_err());
    assert!(section_contents(&obj(vec![("1.1", obj(vec![("NAME", JsonValue::Null)]))])).is_err());
}

#[test]
fn glossary_absent_term() {
    let d = lookup_glossary(&document(), &s("Flux"), true).ok().unwrap();
    assert!(d.is_error);
    assert_eq!(d.title, "Not found");
    assert!(d.description.contains("Flux"));
}

#[test]
fn glossary_without_related() {
    let d = lookup_glossary(&document(), &s("Mana"), false).ok().unwrap();
    assert!(!d.is_error);
    assert_eq!(d.title, "Mana");
    assert_eq!(d.description, "The energy used to play cards.");
    assert!(field(&d, "Related rules").is_none());
}

#[test]
fn glossary_with_related() {
    let d = lookup_glossary(&document(), &s("Mana"), true).ok().unwrap();
    assert_eq!(field(&d, "Related rules").unwrap(), "1.1 1.2");
}

#[test]
fn glossary_entry_without_description_fails() {
    let doc = obj(vec![("GLOSSARY", obj(vec![("Mana", obj(vec![]))]))]);
    assert!(lookup_glossary(&doc, &s("Mana"), false).is_err());
}

#[test]
fn resolvable_ids_are_not_errors() {
    let doc = document();
    for id in ["1", "1.1", "1.2", "1.2.a"] {
        assert!(resolve(&doc, &s(id)).is_some());
        let d = lookup_rule(&doc, &s(id)).ok().unwrap();
        assert!(!d.is_error);
    }
}

#[test]
fn absent_ids_echo_identifier() {
    let doc = document();
    for id in ["2", "1.3", "1.1.x", "", "1..1", "Basics"] {
        assert!(resolve(&doc, &s(id)).is_none());
        let d = lookup_rule(&doc, &s(id)).ok().unwrap();
        assert!(d.is_error);
        assert!(d.description.contains(id));
    }
}

#[test]
fn section_display() {
    let d = lookup_rule(&document(), &s("1.2")).ok().unwrap();
    assert_eq!(d.title, "Section 1.2 - Turns");
    assert_eq!(d.description, "Basics / Turns");
    assert_eq!(d.fields.len(), 1);
    assert_eq!(d.fields[0].0, "Contents");
    assert_eq!(d.fields[0].1, "1.2.a *A turn has three phases....*\n");
}

#[test]
fn section_without_content_lists_nothing() {
    let doc = obj(vec![("RULES", obj(vec![("5", obj(vec![("NAME", text("Empty"))]))]))]);
    let d = lookup_rule(&doc, &s("5")).ok().unwrap();
    assert_eq!(d.title, "Section 5 - Empty");
    assert_eq!(field(&d, "Contents").unwrap(), "");
}

#[test]
fn malformed_nodes_fail() {
    let doc = obj(vec![(
        "RULES",
        obj(vec![
            ("1", obj(vec![("Note", text("no rule text"))])),
            ("2", obj(vec![("NAME", JsonValue::Bool(true))])),
            ("3", text("bare")),
            ("4", obj(vec![("RULE", JsonValue::Null)])),
        ]),
    )]);
    for id in ["1", "2", "3", "4"] {
        assert!(lookup_rule(&doc, &s(id)).is_err());
    }
}

#[test]
fn trail_counts_sections() {
    let doc = document();
    let names = |id: &str| ancestor_names(&doc, &s(id)).ok().unwrap();
    assert_eq!(names("1.2.a"), vec![s("Basics"), s("Turns")]);
    assert_eq!(names("1.2"), vec![s("Basics"), s("Turns")]);
    assert_eq!(names("1.1"), vec![s("Basics")]);
    assert_eq!(names("1"), vec![s("Basics")]);
    assert!(matches!(ancestor_names(&doc, &s("7")), Err(LookupError::NotFound)));
    assert_eq!(sections(&s("1.2.a"), &doc).ok().unwrap(), "Basics / Turns");
}

#[test]
fn top_level_rule_has_empty_trail() {
    let doc = obj(vec![("RULES", obj(vec![("0", rule("Golden rule."))]))]);
    assert!(ancestor_names(&doc, &s("0")).ok().unwrap().is_empty());
    let d = lookup_rule(&doc, &s("0")).ok().unwrap();
    assert_eq!(field(&d, "In section").unwrap(), "");
}

#[test]
fn bad_name_on_path_is_malformed() {
    let doc = obj(vec![(
        "RULES",
        obj(vec![("1", obj(vec![("NAME", JsonValue::Null), ("CONTENT", obj(vec![("1.1", rule("x"))]))]))]),
    )]);
    assert!(matches!(ancestor_names(&doc, &s("1.1")), Err(LookupError::Malformed)));
    assert!(lookup_rule(&doc, &s("1.1")).is_err());
}

#[test]
fn access_path_of_dotted_number() {
    let p = access_path(&s("1.2.a"));
    assert_eq!(p, vec![s("RULES"), s("1"), s("CONTENT"), s("1.2"), s("CONTENT"), s("1.2.a")]);
    assert_eq!(access_path(&s("4")), vec![s("RULES"), s("4")]);
    assert_eq!(access_path(&s("")), vec![s("RULES"), s("")]);
}

#[test]
fn pointer_of_dotted_number() {
    assert_eq!(build_pointer(&s("1.2.a")), "/RULES/1/CONTENT/1.2/CONTENT/1.2.a");
}

#[test]
fn table_of_contents() {
    let d = list_top_level_contents(&document()).ok().unwrap();
    assert_eq!(d.title, "Table of contents");
    assert_eq!(d.description, "1 - Basics\n");
    assert_eq!(field(&d, "About").unwrap(), "Comprehensive rules.");
    assert!(list_top_level_contents(&obj(vec![])).is_err());
}

#[test]
fn version_from_manifest() {
    let manifest = s("[package]\nname = \"bot\"\nversion = \"0.3.1-beta\"\nedition = \"2021\"\n");
    let d = version_info(&document(), &manifest).ok().unwrap();
    assert_eq!(d.title, "Version");
    assert_eq!(field(&d, "Comprehensive Rules Version").unwrap(), "2.1");
    assert_eq!(field(&d, "Bot Version").unwrap(), "0.3.1-beta");
}

#[test]
fn version_errors() {
    assert!(matches!(
        version_info(&document(), &s("[package]\nname = \"bot\"\n")),
        Err(VersionError::MissingBotVersion)
    ));
    assert!(matches!(version_display(&obj(vec![]), Some(s("1.0"))), Err(VersionError::MalformedDocument)));
    let d = version_display(&document(), Some(s("1.0"))).ok().unwrap();
    assert_eq!(field(&d, "Bot Version").unwrap(), "1.0");
}

fn glossary_doc(related: Vec<JsonValue>) -> JsonValue {
    obj(vec![(
        "GLOSSARY",
        obj(vec![(
            "mana",
            obj(vec![("DESCRIPTION", text("Resource.")), ("RELATED", JsonValue::Array(related))]),
        )]),
    )])
}

#[test]
fn related_rules_are_space_joined() {
    let d = lookup_glossary(&glossary_doc(vec![text("1.1"), text("9.9")]), &s("mana"), true).ok().unwrap();
    assert_eq!(d.title, "mana");
    assert_eq!(d.description, "Resource.");
    assert_eq!(d.fields, vec![(s("Related rules"), s("1.1 9.9"))]);
    let one = lookup_glossary(&glossary_doc(vec![text("4")]), &s("mana"), true).ok().unwrap();
    assert_eq!(field(&one, "Related rules").unwrap(), "4");
    let none = lookup_glossary(&glossary_doc(vec![]), &s("mana"), true).ok().unwrap();
    assert_eq!(field(&none, "Related rules").unwrap(), "");
    assert!(lookup_glossary(&glossary_doc(vec![JsonValue::Null]), &s("mana"), true).is_err());
}

#[test]
fn no_placeholder_left_after_iconify() {
    let tokens = ["1", "9", "x", "T", "M", "common", "rare", "yzmir"];
    let mut input = String::new();
    for t in tokens {
        input.push_str(&format!("%{}%%{}%", t, t));
    }
    let out = iconify(input);
    for t in tokens {
        assert!(!out.contains(&format!("%{}%", t)));
    }
}

#[test]
fn trail_text_splits_into_section_names() {
    let doc = document();
    assert_eq!(sections(&s("1.2.a"), &doc).ok().unwrap().split(" / ").count(), 2);
    assert_eq!(sections(&s("1.1"), &doc).ok().unwrap().split(" / ").count(), 1);
}

#[test]
fn listing_lines_start_with_keys_and_end_with_break() {
    let content = obj(vec![("7.2", rule("Second.")), ("7.1", section("First", vec![]))]);
    let listing = section_contents(&content).ok().unwrap();
    assert!(listing.ends_with('\n'));
    let lines: Vec<&str> = listing.lines().collect();
    assert!(lines[0].starts_with("7.2"));
    assert!(lines[1].starts_with("7.1"));
    assert_eq!(section_contents(&obj(vec![])).ok().unwrap(), "");
}
