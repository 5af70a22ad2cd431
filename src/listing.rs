//! The contents listing of a section: one line per child, in document order.

use vstd::prelude::*;
use vstd::string::*;
use crate::json::{JsonValue, value_at, text_of};
use crate::display::MalformedDocument;
use crate::chars::{count_of, lemma_count_add, lemma_count_absent};

verus! {

/// The number of characters of rule text shown in a listing.
pub const PREVIEW_LEN: usize = 40;

/// At most the first `PREVIEW_LEN` characters of `t`.
pub open spec fn preview(t: Seq<char>) -> Seq<char> {
    if t.len() <= PREVIEW_LEN {
        t
    } else {
        t.take(PREVIEW_LEN as int)
    }
}

/// The line that lists the child `key`: for a section, the key, ` - ` and
/// its name; for a rule, the key, ` *`, the preview of its rule text and
/// `...*`. Nothing where the name or the rule text is missing or not text.
pub open spec fn child_line(key: Seq<char>, child: JsonValue) -> Option<Seq<char>> {
    match value_at(child, "NAME"@) {
        Some(n) => match text_of(Some(n)) {
            Some(name) => Some(key + " - "@ + name),
            None => None,
        },
        None => match text_of(value_at(child, "RULE"@)) {
            Some(rule) => Some(key + " *"@ + preview(rule) + "...*"@),
            None => None,
        },
    }
}

/// The lines that list `entries`, in order; nothing where one cannot be made.
pub open spec fn lines_of(entries: Seq<(String, JsonValue)>) -> Option<Seq<Seq<char>>>
    decreases entries.len(),
{
    if entries.len() == 0 {
        Some(seq![])
    } else {
        match (lines_of(entries.drop_last()), child_line(entries.last().0@, entries.last().1)) {
            (Some(ls), Some(l)) => Some(ls.push(l)),
            _ => None,
        }
    }
}

/// Each line followed by a line break.
pub open spec fn unlines(ls: Seq<Seq<char>>) -> Seq<char>
    decreases ls.len(),
{
    if ls.len() == 0 {
        seq![]
    } else {
        unlines(ls.drop_last()) + ls.last() + "\n"@
    }
}

/// The listing of a collection of children: an object's entries, one line
/// each; nothing for any other value.
pub open spec fn listing_of(v: JsonValue) -> Option<Seq<char>> {
    match v {
        JsonValue::Object(entries) => match lines_of(entries@) {
            Some(ls) => Some(unlines(ls)),
            None => None,
        },
        _ => None,
    }
}

/// The line that lists one child.
fn child_line_of(key: &String, child: &JsonValue) -> (r: Result<String, MalformedDocument>)
    ensures
        match child_line(key@, *child) {
            Some(l) => r is Ok && r->Ok_0@ == l,
            None => r is Err,
        },
{
    let mut line = key.clone();
    match child.get("NAME") {
        Some(n) => match n.as_text() {
            Some(name) => {
                line.append(" - ");
                line.append(name.as_str());
                Ok(line)
            },
            None => Err(MalformedDocument),
        },
        None => match child.get("RULE") {
            Some(v) => match v.as_text() {
                Some(rule) => {
                    let len = rule.as_str().unicode_len();
                    let cut = if len <= PREVIEW_LEN {
                        len
                    } else {
                        PREVIEW_LEN
                    };
                    let shown = rule.as_str().substring_char(0, cut);
                    assert(shown@ =~= preview(rule@));
                    line.append(" *");
                    line.append(shown);
                    line.append("...*");
                    Ok(line)
                },
                None => Err(MalformedDocument),
            },
            None => Err(MalformedDocument),
        },
    }
}

/// The contents listing of `section`, a collection of children: each
/// child's line followed by a line break, in document order.
pub fn section_contents(section: &JsonValue) -> (r: Result<String, MalformedDocument>)
    ensures
        match listing_of(*section) {
            Some(t) => r is Ok && r->Ok_0@ == t,
            None => r is Err,
        },
{
    match section {
        JsonValue::Object(entries) => {
            let mut text = String::new();
            let mut i: usize = 0;
            let ghost mut ls: Seq<Seq<char>> = seq![];
            assert(entries@.take(0) =~= seq![]);
            while i < entries.len()
                invariant
                    *section == JsonValue::Object(*entries),
                    i <= entries@.len(),
                    lines_of(entries@.take(i as int)) == Some(ls),
                    text@ == unlines(ls),
                decreases entries.len() - i,
            {
                assert(entries@.take(i + 1).drop_last() =~= entries@.take(i as int));
                let line = child_line_of(&entries[i].0, &entries[i].1);
                match line {
                    Ok(l) => {
                        text.append(l.as_str());
                        text.append("\n");
                        proof {
                            assert(ls.push(l@).drop_last() =~= ls);
                            ls = ls.push(l@);
                        }
                    },
                    Err(e) => {
                        proof {
                            lemma_lines_fail(entries@, i as int + 1);
                        }
                        return Err(e);
                    },
                }
                i = i + 1;
            }
            assert(entries@.take(i as int) =~= entries@);
            Ok(text)
        },
        _ => Err(MalformedDocument),
    }
}

/// Once a child's line cannot be made, no listing can.
proof fn lemma_lines_fail(entries: Seq<(String, JsonValue)>, i: int)
    requires
        0 <= i <= entries.len(),
        lines_of(entries.take(i)) is None,
    ensures
        lines_of(entries) is None,
    decreases entries.len() - i,
{
    if i == entries.len() {
        assert(entries.take(i) =~= entries);
    } else {
        assert(entries.take(i + 1).drop_last() =~= entries.take(i));
        lemma_lines_fail(entries, i + 1);
    }
}

/// A listing has one line per child, in document order: line `i` is the
/// line of child `i`, and starts with its key.
pub proof fn lemma_listing_order(entries: Seq<(String, JsonValue)>)
    ensures
        lines_of(entries) matches Some(ls) ==> ls.len() == entries.len() && forall|i: int|
            0 <= i < ls.len() ==> child_line(entries[i].0@, entries[i].1) == Some(#[trigger] ls[i])
                && entries[i].0@.len() <= ls[i].len() && ls[i].take(entries[i].0@.len() as int)
                == entries[i].0@,
    decreases entries.len(),
{
    lemma_listing_order_lines(entries);
    if let Some(ls) = lines_of(entries) {
        assert forall|i: int| 0 <= i < ls.len() implies entries[i].0@.len() <= (#[trigger] ls[i]).len()
            && ls[i].take(entries[i].0@.len() as int) == entries[i].0@ by {
            let key = entries[i].0@;
            assert(child_line(key, entries[i].1) == Some(ls[i]));
            assert(ls[i].take(key.len() as int) =~= key);
        }
    }
}

proof fn lemma_listing_order_lines(entries: Seq<(String, JsonValue)>)
    ensures
        lines_of(entries) matches Some(ls) ==> ls.len() == entries.len() && forall|i: int|
            0 <= i < ls.len() ==> child_line(entries[i].0@, entries[i].1) == Some(#[trigger] ls[i]),
    decreases entries.len(),
{
    if entries.len() > 0 {
        lemma_listing_order_lines(entries.drop_last());
        if let Some(ls) = lines_of(entries) {
            let init = entries.drop_last();
            assert forall|i: int| 0 <= i < ls.len() implies child_line(
                entries[i].0@,
                entries[i].1,
            ) == Some(#[trigger] ls[i]) by {
                if i < ls.len() - 1 {
                    assert(init[i] == entries[i]);
                }
            }
        }
    }
}

/// Where no line holds a line break of its own, the text of a listing holds
/// exactly one line break per line.
pub proof fn lemma_unlines_count(ls: Seq<Seq<char>>)
    requires
        forall|i: int, j: int| 0 <= i < ls.len() && 0 <= j < ls[i].len() ==> #[trigger] ls[i][j] != '\n',
    ensures
        count_of(unlines(ls), '\n') == ls.len(),
    decreases ls.len(),
{
    if ls.len() > 0 {
        let init = ls.drop_last();
        assert forall|i: int, j: int| 0 <= i < init.len() && 0 <= j < init[i].len() implies #[trigger] init[i][j]
            != '\n' by {
            assert(init[i] == ls[i]);
        }
        lemma_unlines_count(init);
        let last = ls[ls.len() - 1];
        assert forall|j: int| 0 <= j < last.len() implies last[j] != '\n' by {
            assert(ls[ls.len() - 1][j] != '\n');
        }
        lemma_count_absent(last, '\n');
        lemma_count_add(unlines(init), last, '\n');
        lemma_count_add(unlines(init) + last, "\n"@, '\n');
        assert(count_of("\n"@, '\n') == 1) by {
            reveal_strlit("\n");
            let nl = "\n"@;
            assert(nl.len() == 1 && nl[0] == '\n');
            assert(nl.drop_last() =~= Seq::<char>::empty());
            assert(count_of(nl.drop_last(), '\n') == 0);
        }
    }
}

/// `s` holds no line break.
pub open spec fn no_break(s: Seq<char>) -> bool {
    forall|i: int| 0 <= i < s.len() ==> s[i] != '\n'
}

/// The key of a child, and its name or the preview of its rule text where
/// it has one, hold no line break.
pub open spec fn child_clean(key: Seq<char>, child: JsonValue) -> bool {
    &&& no_break(key)
    &&& text_of(value_at(child, "NAME"@)) matches Some(n) ==> no_break(n)
    &&& text_of(value_at(child, "RULE"@)) matches Some(r) ==> no_break(preview(r))
}

proof fn lemma_child_line_clean(key: Seq<char>, child: JsonValue)
    requires
        child_clean(key, child),
    ensures
        child_line(key, child) matches Some(l) ==> no_break(l),
{
    reveal_strlit(" - ");
    reveal_strlit(" *");
    reveal_strlit("...*");
    if let Some(l) = child_line(key, child) {
        assert forall|i: int| 0 <= i < l.len() implies l[i] != '\n' by {}
    }
}

/// The listing of a collection of children whose keys, names and rule
/// previews hold no line break has exactly one line per child: as many line breaks
/// as children, and a line break at its end unless it is empty.
pub proof fn lemma_listing_line_count(entries: Seq<(String, JsonValue)>)
    requires
        forall|i: int| 0 <= i < entries.len() ==> child_clean(#[trigger] entries[i].0@, entries[i].1),
    ensures
        lines_of(entries) matches Some(ls) ==> ls.len() == entries.len() && count_of(unlines(ls), '\n')
            == entries.len() && (ls.len() == 0 ==> unlines(ls) == Seq::<char>::empty()) && (ls.len()
            > 0 ==> unlines(ls).len() > 0 && unlines(ls).last() == '\n'),
{
    lemma_listing_order(entries);
    if let Some(ls) = lines_of(entries) {
        assert forall|i: int, j: int| 0 <= i < ls.len() && 0 <= j < ls[i].len() implies #[trigger] ls[i][j]
            != '\n' by {
            assert(child_clean(entries[i].0@, entries[i].1));
            lemma_child_line_clean(entries[i].0@, entries[i].1);
        }
        lemma_unlines_count(ls);
        if ls.len() > 0 {
            reveal_strlit("\n");
        }
    }
}

} // verus!
