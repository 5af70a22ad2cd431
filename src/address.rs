//! Dotted rule identifiers: their access paths through the document, the
//! node they resolve to, and the names of the sections along the way.

use vstd::prelude::*;
use vstd::string::*;
use crate::json::{JsonValue, get_opt, text_of};
use crate::chars::{count_of, lemma_count_add, lemma_count_absent};

verus! {

/// The texts of a sequence of strings.
pub open spec fn texts(v: Seq<String>) -> Seq<Seq<char>> {
    v.map_values(|s: String| s@)
}

/// The path of `id` before its final key: `RULES`, then for each dot the
/// identifier up to that dot followed by `CONTENT`.
pub open spec fn path_head(id: Seq<char>) -> Seq<Seq<char>>
    decreases id.len(),
{
    if id.len() == 0 {
        seq!["RULES"@]
    } else if id.last() == '.' {
        path_head(id.drop_last()) + seq![id.drop_last(), "CONTENT"@]
    } else {
        path_head(id.drop_last())
    }
}

/// The keys that lead from the document root to the node of `id`: for
/// "1.2.a", `RULES`, `1`, `CONTENT`, `1.2`, `CONTENT`, `1.2.a`.
pub open spec fn path_of(id: Seq<char>) -> Seq<Seq<char>> {
    path_head(id).push(id)
}

/// The number of nodes that the path of `id` passes: one per segment.
pub open spec fn node_count(id: Seq<char>) -> int {
    path_of(id).len() as int / 2
}

/// The value reached from `v` by looking up each key of `path` in turn.
pub open spec fn follow(v: JsonValue, path: Seq<Seq<char>>) -> Option<JsonValue>
    decreases path.len(),
{
    if path.len() == 0 {
        Some(v)
    } else {
        get_opt(follow(v, path.drop_last()), path.last())
    }
}

/// The node that `id` addresses in `doc`.
pub open spec fn resolve_spec(doc: JsonValue, id: Seq<char>) -> Option<JsonValue> {
    follow(doc, path_of(id))
}

/// The `j`-th node (from 1) on the path of `id`.
pub open spec fn node_on_path(doc: JsonValue, id: Seq<char>, j: int) -> Option<JsonValue> {
    follow(doc, path_of(id).take(2 * j))
}

/// Whether a node is a section: it has a `NAME`.
pub open spec fn is_section(node: Option<JsonValue>) -> bool {
    get_opt(node, "NAME"@) is Some
}

/// The names of the sections among the first `j` nodes on the path of `id`,
/// in path order; nothing where one of those names is not text.
pub open spec fn trail_upto(doc: JsonValue, id: Seq<char>, j: int) -> Option<Seq<Seq<char>>>
    decreases j,
{
    if j <= 0 {
        Some(seq![])
    } else {
        match trail_upto(doc, id, j - 1) {
            None => None,
            Some(names) => {
                let node = node_on_path(doc, id, j);
                if !is_section(node) {
                    Some(names)
                } else {
                    match text_of(get_opt(node, "NAME"@)) {
                        Some(n) => Some(names.push(n)),
                        None => None,
                    }
                }
            },
        }
    }
}

/// The number of sections among the first `j` nodes on the path of `id`.
pub open spec fn sections_upto(doc: JsonValue, id: Seq<char>, j: int) -> int
    decreases j,
{
    if j <= 0 {
        0
    } else {
        sections_upto(doc, id, j - 1) + if is_section(node_on_path(doc, id, j)) {
            1int
        } else {
            0int
        }
    }
}

/// The ancestor trail of `id`: the names of all sections on its path.
pub open spec fn trail_spec(doc: JsonValue, id: Seq<char>) -> Option<Seq<Seq<char>>> {
    trail_upto(doc, id, node_count(id))
}

/// `names` joined by `sep`.
pub open spec fn join(names: Seq<Seq<char>>, sep: Seq<char>) -> Seq<char>
    decreases names.len(),
{
    if names.len() == 0 {
        seq![]
    } else if names.len() == 1 {
        names[0]
    } else {
        join(names.drop_last(), sep) + sep + names.last()
    }
}

/// Why a trail could not be built.
pub enum LookupError {
    /// The identifier addresses no node.
    NotFound,
    /// A section on the path has a name that is not text.
    Malformed,
}

proof fn lemma_path_head_shape(id: Seq<char>)
    ensures
        path_head(id).len() % 2 == 1,
        path_head(id)[0] == "RULES"@,
    decreases id.len(),
{
    if id.len() > 0 {
        lemma_path_head_shape(id.drop_last());
    }
}

/// The path of an identifier has two keys per node, and at least one node.
pub proof fn lemma_path_shape(id: Seq<char>)
    ensures
        path_of(id).len() == 2 * node_count(id),
        node_count(id) >= 1,
{
    lemma_path_head_shape(id);
}

/// Once a lookup on the way fails, the whole path fails.
proof fn lemma_follow_stops(v: JsonValue, path: Seq<Seq<char>>, i: int)
    requires
        0 <= i <= path.len(),
        follow(v, path.take(i)) is None,
    ensures
        follow(v, path) is None,
    decreases path.len() - i,
{
    if i == path.len() {
        assert(path.take(i) =~= path);
    } else {
        assert(path.take(i + 1).drop_last() =~= path.take(i));
        lemma_follow_stops(v, path, i + 1);
    }
}

/// The access path of a rule number: `RULES` and the first segment, then
/// `CONTENT` and the compound key of each further segment.
pub fn access_path(number: &String) -> (r: Vec<String>)
    ensures
        texts(r@) == path_of(number@),
{
    let s = number.as_str();
    let n = s.unicode_len();
    let mut path: Vec<String> = Vec::new();
    path.push(String::from_str("RULES"));
    let mut i: usize = 0;
    assert(texts(path@) =~= path_head(number@.take(0)));
    while i < n
        invariant
            s@ == number@,
            n == number@.len(),
            i <= n,
            texts(path@) == path_head(number@.take(i as int)),
        decreases n - i,
    {
        let c = s.get_char(i);
        let ghost before = path@;
        assert(number@.take(i + 1).drop_last() =~= number@.take(i as int));
        if c == '.' {
            path.push(String::from_str(s.substring_char(0, i)));
            path.push(String::from_str("CONTENT"));
            assert(texts(path@) =~= texts(before) + seq![number@.take(i as int), "CONTENT"@]);
        } else {
            assert(path@ == before);
        }
        i = i + 1;
    }
    let ghost before = path@;
    path.push(number.clone());
    assert(number@.take(n as int) =~= number@);
    assert(texts(path@) =~= texts(before).push(number@));
    path
}

/// The node that `id` addresses in `doc`, if any.
pub fn resolve<'a>(doc: &'a JsonValue, id: &String) -> (r: Option<&'a JsonValue>)
    ensures
        resolve_spec(*doc, id@) == match r {
            Some(x) => Some(*x),
            None => None::<JsonValue>,
        },
{
    let path = access_path(id);
    let mut cur = doc;
    let mut i: usize = 0;
    assert(texts(path@).take(0) =~= seq![]);
    while i < path.len()
        invariant
            texts(path@) == path_of(id@),
            i <= path@.len(),
            follow(*doc, texts(path@).take(i as int)) == Some(*cur),
        decreases path.len() - i,
    {
        assert(texts(path@).take(i + 1).drop_last() =~= texts(path@).take(i as int));
        match cur.get(path[i].as_str()) {
            Some(next) => {
                cur = next;
            },
            None => {
                proof {
                    lemma_follow_stops(*doc, texts(path@), i + 1);
                }
                return None;
            },
        }
        i = i + 1;
    }
    assert(texts(path@).take(i as int) =~= texts(path@));
    Some(cur)
}

/// The names of the sections on the path of `id`, root first: a rule at the
/// end of the path adds none.
pub fn ancestor_names(doc: &JsonValue, id: &String) -> (r: Result<Vec<String>, LookupError>)
    ensures
        resolve_spec(*doc, id@) is None ==> r matches Err(LookupError::NotFound),
        resolve_spec(*doc, id@) is Some ==> match trail_spec(*doc, id@) {
            Some(names) => r is Ok && texts(r->Ok_0@) == names,
            None => r matches Err(LookupError::Malformed),
        },
{
    let path = access_path(id);
    proof {
        lemma_path_shape(id@);
    }
    let k = path.len() / 2;
    let ghost p = texts(path@);
    let mut names: Vec<String> = Vec::new();
    let mut bad = false;
    let mut cur = doc;
    let mut j: usize = 0;
    let mut pos: usize = 0;
    assert(p.take(0) =~= seq![]);
    assert(texts(names@) =~= seq![]);
    while j < k
        invariant
            pos == 2 * j,
            p == texts(path@),
            p == path_of(id@),
            path@.len() == 2 * k,
            k == node_count(id@),
            j <= k,
            follow(*doc, p.take(2 * j)) == Some(*cur),
            bad ==> trail_upto(*doc, id@, j as int) is None,
            !bad ==> trail_upto(*doc, id@, j as int) == Some(texts(names@)),
        decreases k - j,
    {
        assert(p.take(2 * j + 1).drop_last() =~= p.take(2 * j));
        assert(p.take(2 * j + 2).drop_last() =~= p.take(2 * j + 1));
        let mid = match cur.get(path[pos].as_str()) {
            Some(x) => x,
            None => {
                proof {
                    lemma_follow_stops(*doc, p, 2 * j + 1);
                }
                return Err(LookupError::NotFound);
            },
        };
        let next = match mid.get(path[pos + 1].as_str()) {
            Some(x) => x,
            None => {
                proof {
                    lemma_follow_stops(*doc, p, 2 * j + 2);
                }
                return Err(LookupError::NotFound);
            },
        };
        assert(node_on_path(*doc, id@, j + 1) == Some(*next));
        match next.get("NAME") {
            Some(name) => match name.as_text() {
                Some(t) => {
                    let ghost before = names@;
                    names.push(t.clone());
                    assert(texts(names@) =~= texts(before).push(t@));
                },
                None => {
                    bad = true;
                },
            },
            None => {},
        }
        cur = next;
        assert(pos + 2 <= path.len());
        j = j + 1;
        pos = pos + 2;
    }
    assert(p.take(2 * k) =~= p);
    if bad {
        Err(LookupError::Malformed)
    } else {
        Ok(names)
    }
}

/// `names` joined by `sep`.
pub fn join_names(names: &Vec<String>, sep: &str) -> (r: String)
    ensures
        r@ == join(texts(names@), sep@),
{
    let mut out = String::new();
    let mut i: usize = 0;
    while i < names.len()
        invariant
            i <= names@.len(),
            out@ == join(texts(names@).take(i as int), sep@),
        decreases names.len() - i,
    {
        assert(texts(names@).take(i + 1).drop_last() =~= texts(names@).take(i as int));
        if i > 0 {
            out.append(sep);
        }
        out.append(names[i].as_str());
        i = i + 1;
    }
    assert(texts(names@).take(i as int) =~= texts(names@));
    out
}

/// The ancestor trail of a rule number, its names joined by ` / `.
pub fn sections(number: &String, doc: &JsonValue) -> (r: Result<String, LookupError>)
    ensures
        resolve_spec(*doc, number@) is None ==> r matches Err(LookupError::NotFound),
        resolve_spec(*doc, number@) is Some ==> match trail_spec(*doc, number@) {
            Some(names) => r is Ok && r->Ok_0@ == join(names, " / "@),
            None => r matches Err(LookupError::Malformed),
        },
{
    match ancestor_names(doc, number) {
        Ok(names) => Ok(join_names(&names, " / ")),
        Err(e) => Err(e),
    }
}

proof fn lemma_trail_upto_counts(doc: JsonValue, id: Seq<char>, j: int)
    requires
        j >= 0,
    ensures
        trail_upto(doc, id, j) matches Some(names) ==> names.len() == sections_upto(doc, id, j),
        0 <= sections_upto(doc, id, j) <= j,
    decreases j,
{
    if j > 0 {
        lemma_trail_upto_counts(doc, id, j - 1);
    }
}

/// The ancestor trail of an identifier with `k` segments names exactly the
/// sections among the `k` nodes on its path; the last node is the one it
/// resolves to, and where that is a rule the trail has at most `k - 1` names.
pub proof fn lemma_trail_length(doc: JsonValue, id: Seq<char>)
    ensures
        node_on_path(doc, id, node_count(id)) == resolve_spec(doc, id),
        trail_spec(doc, id) matches Some(names) ==> names.len() == sections_upto(
            doc,
            id,
            node_count(id),
        ) && names.len() <= node_count(id),
        trail_spec(doc, id) matches Some(names) ==> !is_section(resolve_spec(doc, id))
            ==> names.len() <= node_count(id) - 1,
{
    lemma_path_shape(id);
    let k = node_count(id);
    assert(path_of(id).take(2 * k) =~= path_of(id));
    lemma_trail_upto_counts(doc, id, k);
    lemma_trail_upto_counts(doc, id, k - 1);
}

/// Each key of `path` preceded by `/`.
pub open spec fn pointer_of(path: Seq<Seq<char>>) -> Seq<char>
    decreases path.len(),
{
    if path.len() == 0 {
        seq![]
    } else {
        pointer_of(path.drop_last()) + "/"@ + path.last()
    }
}

/// The access path of a rule number written as a pointer into the document:
/// "1.2.a" gives `/RULES/1/CONTENT/1.2/CONTENT/1.2.a`.
pub fn build_pointer(number: &String) -> (r: String)
    ensures
        r@ == pointer_of(path_of(number@)),
{
    let access = access_path(number);
    let mut pointer = String::new();
    let mut i: usize = 0;
    assert(texts(access@).take(0) =~= seq![]);
    while i < access.len()
        invariant
            texts(access@) == path_of(number@),
            i <= access@.len(),
            pointer@ == pointer_of(texts(access@).take(i as int)),
        decreases access.len() - i,
    {
        assert(texts(access@).take(i + 1).drop_last() =~= texts(access@).take(i as int));
        pointer.append("/");
        pointer.append(access[i].as_str());
        i = i + 1;
    }
    assert(texts(access@).take(i as int) =~= texts(access@));
    pointer
}

/// Where no name holds a `/`, the names joined by ` / ` hold one `/` fewer
/// than there are names.
proof fn lemma_join_slashes(names: Seq<Seq<char>>)
    requires
        names.len() > 0,
        forall|i: int, j: int| 0 <= i < names.len() && 0 <= j < names[i].len() ==> #[trigger] names[i][j]
            != '/',
    ensures
        count_of(join(names, " / "@), '/') + 1 == names.len(),
    decreases names.len(),
{
    let last = names[names.len() - 1];
    assert forall|j: int| 0 <= j < last.len() implies last[j] != '/' by {
        assert(names[names.len() - 1][j] != '/');
    }
    lemma_count_absent(last, '/');
    if names.len() > 1 {
        let init = names.drop_last();
        assert forall|i: int, j: int| 0 <= i < init.len() && 0 <= j < init[i].len() implies #[trigger] init[i][j]
            != '/' by {
            assert(init[i] == names[i]);
        }
        lemma_join_slashes(init);
        lemma_count_add(join(init, " / "@), " / "@, '/');
        lemma_count_add(join(init, " / "@) + " / "@, last, '/');
        assert(count_of(" / "@, '/') == 1) by {
            reveal_strlit(" / ");
            let sep = " / "@;
            let a = sep.drop_last();
            let b = a.drop_last();
            let c = b.drop_last();
            assert(c =~= Seq::<char>::empty());
            assert(count_of(c, '/') == 0);
            assert(b.last() == ' ' && count_of(b, '/') == 0);
            assert(a.last() == '/' && count_of(a, '/') == 1);
            assert(sep.last() == ' ');
        }
    }
}

/// The ancestor trail as text, with names free of `/`, splits at ` / ` into
/// as many parts as there are sections on the path: one `/` fewer than
/// sections, and no text at all where the path has no section.
pub proof fn lemma_trail_text_parts(doc: JsonValue, id: Seq<char>)
    ensures
        trail_spec(doc, id) matches Some(names) ==> (names.len() == 0 ==> join(names, " / "@)
            == Seq::<char>::empty()) && (names.len() > 0 && (forall|i: int, j: int|
            0 <= i < names.len() && 0 <= j < names[i].len() ==> #[trigger] names[i][j] != '/')
            ==> count_of(join(names, " / "@), '/') + 1 == sections_upto(doc, id, node_count(id))),
{
    lemma_trail_length(doc, id);
    if let Some(names) = trail_spec(doc, id) {
        if names.len() > 0 && (forall|i: int, j: int|
            0 <= i < names.len() && 0 <= j < names[i].len() ==> #[trigger] names[i][j] != '/') {
            lemma_join_slashes(names);
        }
    }
}

} // verus!
