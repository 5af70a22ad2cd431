//! Substitution of inline icon placeholders (`%token%`) by display tokens.

use vstd::prelude::*;
use vstd::string::*;

verus! {

/// `s` with every leftmost, non-overlapping occurrence of `p` replaced by `r`,
/// scanning from the left.
pub open spec fn replace_lit(s: Seq<char>, p: Seq<char>, r: Seq<char>) -> Seq<char>
    decreases s.len(),
{
    if p.len() == 0 || s.len() < p.len() {
        s
    } else if s.take(p.len() as int) == p {
        r + replace_lit(s.skip(p.len() as int), p, r)
    } else {
        seq![s[0]] + replace_lit(s.skip(1), p, r)
    }
}

/// An ASCII letter or digit.
pub open spec fn is_alnum(c: char) -> bool {
    ('0' <= c && c <= '9') || ('a' <= c && c <= 'z') || ('A' <= c && c <= 'Z')
}

/// A token that may name an icon: one to 32 ASCII letters or digits.
pub open spec fn token_ok(t: Seq<char>) -> bool {
    &&& 0 < t.len() <= 32
    &&& forall|i: int| 0 <= i < t.len() ==> is_alnum(#[trigger] t[i])
}

/// The placeholder that stands for `token` in text.
pub open spec fn placeholder(token: Seq<char>) -> Seq<char> {
    seq!['%'] + token + seq!['%']
}

/// A display token: it starts with `<` and holds neither `%` nor `$`.
pub open spec fn display_ok(r: Seq<char>) -> bool {
    &&& r.len() > 0
    &&& r[0] == '<'
    &&& forall|i: int| 0 <= i < r.len() ==> #[trigger] r[i] != '%' && r[i] != '$'
}

/// The icon table: each placeholder token with its display token.
pub open spec fn icons() -> Seq<(Seq<char>, Seq<char>)> {
    seq![
        ("1"@, "<:icon_1:1294668469257633874>"@),
        ("2"@, "<:icon_2:1294668512035344384>"@),
        ("3"@, "<:icon_3:1294668541651324969>"@),
        ("4"@, "<:icon_4:1294668575738691687>"@),
        ("5"@, "<:icon_5:1294668611083960361>"@),
        ("6"@, "<:icon_6:1294668649621094554>"@),
        ("7"@, "<:icon_7:1294668688347369564>"@),
        ("8"@, "<:icon_8:1294668756521324646>"@),
        ("9"@, "<:icon_9:1294668790566617088>"@),
        ("x"@, "<:icon_x:1294668825354309643>"@),
        ("j"@, "<:icon_j:1294649576124321813>"@),
        ("r"@, "<:icon_r:1294668318812143697>"@),
        ("h"@, "<:icon_h:1294670002439454775>"@),
        ("T"@, "<:icon_T:1294670251493032000>"@),
        ("D"@, "<:icon_D:1294670405251891250>"@),
        ("O"@, "<:icon_O:1294671037681897584>"@),
        ("V"@, "<:icon_V:1294671319320891433>"@),
        ("M"@, "<:icon_M:1294671220221939826>"@),
        ("common"@, "<:icon_common:1294678013404774422>"@),
        ("rare"@, "<:icon_rare:1294678128664379522>"@),
        ("unique"@, "<:icon_unique:1294678091007918120>"@),
        ("axiom"@, "<:icon_axiom:1294678780144521330>"@),
        ("bravos"@, "<:icon_bravos:1294678819608727693>"@),
        ("lyra"@, "<:icon_lyra:1294678874403110913>"@),
        ("muna"@, "<:icon_muna:1294678905541890171>"@),
        ("ordis"@, "<:icon_ordis:1294678944959823872>"@),
        ("yzmir"@, "<:icon_yzmir:1294678973246083124>"@),
    ]
}

/// Every entry of `t` pairs a valid token with a valid display token.
pub open spec fn table_ok(t: Seq<(Seq<char>, Seq<char>)>) -> bool {
    forall|i: int| 0 <= i < t.len() ==> token_ok(#[trigger] t[i].0) && display_ok(t[i].1)
}

/// `s` after the entries of `t` were applied in order, each replacing all of
/// its placeholders.
pub open spec fn apply_icons(s: Seq<char>, t: Seq<(Seq<char>, Seq<char>)>) -> Seq<char>
    decreases t.len(),
{
    if t.len() == 0 {
        s
    } else {
        replace_lit(apply_icons(s, t.drop_last()), placeholder(t.last().0), t.last().1)
    }
}

/// The icon table is well formed.
pub proof fn lemma_icons_ok()
    ensures
        table_ok(icons()),
{
    reveal_strlit("1");
    reveal_strlit("<:icon_1:1294668469257633874>");
    reveal_strlit("2");
    reveal_strlit("<:icon_2:1294668512035344384>");
    reveal_strlit("3");
    reveal_strlit("<:icon_3:1294668541651324969>");
    reveal_strlit("4");
    reveal_strlit("<:icon_4:1294668575738691687>");
    reveal_strlit("5");
    reveal_strlit("<:icon_5:1294668611083960361>");
    reveal_strlit("6");
    reveal_strlit("<:icon_6:1294668649621094554>");
    reveal_strlit("7");
    reveal_strlit("<:icon_7:1294668688347369564>");
    reveal_strlit("8");
    reveal_strlit("<:icon_8:1294668756521324646>");
    reveal_strlit("9");
    reveal_strlit("<:icon_9:1294668790566617088>");
    reveal_strlit("x");
    reveal_strlit("<:icon_x:1294668825354309643>");
    reveal_strlit("j");
    reveal_strlit("<:icon_j:1294649576124321813>");
    reveal_strlit("r");
    reveal_strlit("<:icon_r:1294668318812143697>");
    reveal_strlit("h");
    reveal_strlit("<:icon_h:1294670002439454775>");
    reveal_strlit("T");
    reveal_strlit("<:icon_T:1294670251493032000>");
    reveal_strlit("D");
    reveal_strlit("<:icon_D:1294670405251891250>");
    reveal_strlit("O");
    reveal_strlit("<:icon_O:1294671037681897584>");
    reveal_strlit("V");
    reveal_strlit("<:icon_V:1294671319320891433>");
    reveal_strlit("M");
    reveal_strlit("<:icon_M:1294671220221939826>");
    reveal_strlit("common");
    reveal_strlit("<:icon_common:1294678013404774422>");
    reveal_strlit("rare");
    reveal_strlit("<:icon_rare:1294678128664379522>");
    reveal_strlit("unique");
    reveal_strlit("<:icon_unique:1294678091007918120>");
    reveal_strlit("axiom");
    reveal_strlit("<:icon_axiom:1294678780144521330>");
    reveal_strlit("bravos");
    reveal_strlit("<:icon_bravos:1294678819608727693>");
    reveal_strlit("lyra");
    reveal_strlit("<:icon_lyra:1294678874403110913>");
    reveal_strlit("muna");
    reveal_strlit("<:icon_muna:1294678905541890171>");
    reveal_strlit("ordis");
    reveal_strlit("<:icon_ordis:1294678944959823872>");
    reveal_strlit("yzmir");
    reveal_strlit("<:icon_yzmir:1294678973246083124>");
}

/// The icon table as executable data.
fn icon_table() -> (t: Vec<(&'static str, &'static str)>)
    ensures
        t@.len() == icons().len(),
        forall|i: int| 0 <= i < t@.len() ==> (#[trigger] t@[i].0@, t@[i].1@) == icons()[i],
{
    vec![
        ("1", "<:icon_1:1294668469257633874>"),
        ("2", "<:icon_2:1294668512035344384>"),
        ("3", "<:icon_3:1294668541651324969>"),
        ("4", "<:icon_4:1294668575738691687>"),
        ("5", "<:icon_5:1294668611083960361>"),
        ("6", "<:icon_6:1294668649621094554>"),
        ("7", "<:icon_7:1294668688347369564>"),
        ("8", "<:icon_8:1294668756521324646>"),
        ("9", "<:icon_9:1294668790566617088>"),
        ("x", "<:icon_x:1294668825354309643>"),
        ("j", "<:icon_j:1294649576124321813>"),
        ("r", "<:icon_r:1294668318812143697>"),
        ("h", "<:icon_h:1294670002439454775>"),
        ("T", "<:icon_T:1294670251493032000>"),
        ("D", "<:icon_D:1294670405251891250>"),
        ("O", "<:icon_O:1294671037681897584>"),
        ("V", "<:icon_V:1294671319320891433>"),
        ("M", "<:icon_M:1294671220221939826>"),
        ("common", "<:icon_common:1294678013404774422>"),
        ("rare", "<:icon_rare:1294678128664379522>"),
        ("unique", "<:icon_unique:1294678091007918120>"),
        ("axiom", "<:icon_axiom:1294678780144521330>"),
        ("bravos", "<:icon_bravos:1294678819608727693>"),
        ("lyra", "<:icon_lyra:1294678874403110913>"),
        ("muna", "<:icon_muna:1294678905541890171>"),
        ("ordis", "<:icon_ordis:1294678944959823872>"),
        ("yzmir", "<:icon_yzmir:1294678973246083124>"),
    ]
}

/// No window of `s` equals `q`.
pub open spec fn free_of(s: Seq<char>, q: Seq<char>) -> bool {
    forall|k: int| 0 <= k && k + q.len() <= s.len() ==> #[trigger] s.subrange(k, k + q.len()) != q
}

/// Every placeholder of the table `t` is absent from `s`.
pub open spec fn free_of_all(s: Seq<char>, t: Seq<(Seq<char>, Seq<char>)>) -> bool {
    forall|i: int| 0 <= i < t.len() ==> free_of(s, placeholder(#[trigger] t[i].0))
}

/// A placeholder: `%`, a valid token, `%`.
pub open spec fn is_placeholder(p: Seq<char>) -> bool {
    &&& p.len() >= 3
    &&& p[0] == '%'
    &&& p[p.len() - 1] == '%'
    &&& token_ok(p.subrange(1, p.len() - 1))
}

/// Relies on regex::Regex::new and Regex::replace_all: a pattern made of `%`,
/// ASCII letters and digits compiles and matches itself literally;
/// replace_all replaces every leftmost non-overlapping match from the left,
/// and a replacement without `$` is inserted as it stands.
#[verifier::external_body]
fn replace_literal(text: &str, pattern: &str, display: &str) -> (r: String)
    requires
        is_placeholder(pattern@),
        forall|i: int| 0 <= i < display@.len() ==> display@[i] != '$',
    ensures
        r@ == replace_lit(text@, pattern@, display@),
{
    let re = regex::Regex::new(pattern).unwrap();
    re.replace_all(text, display).into_owned()
}

/// The placeholder text of `token`.
fn placeholder_text(token: &str) -> (r: String)
    requires
        token_ok(token@),
    ensures
        r@ == placeholder(token@),
        is_placeholder(r@),
{
    let mut p = String::from_str("%");
    p.append(token);
    p.append("%");
    proof {
        reveal_strlit("%");
        assert(p@ =~= placeholder(token@));
        assert(p@.subrange(1, p@.len() - 1) =~= token@);
    }
    p
}

/// Replaces each icon placeholder of `text` by its display token.
pub fn iconify(text: String) -> (r: String)
    ensures
        r@ == apply_icons(text@, icons()),
{
    proof {
        lemma_icons_ok();
    }
    let table = icon_table();
    let mut out = text;
    let mut i: usize = 0;
    while i < table.len()
        invariant
            table@.len() == icons().len(),
            forall|j: int| 0 <= j < table@.len() ==> (#[trigger] table@[j].0@, table@[j].1@) == icons()[j],
            table_ok(icons()),
            i <= table@.len(),
            out@ == apply_icons(text@, icons().take(i as int)),
        decreases table.len() - i,
    {
        let (token, display) = table[i];
        assert(icons()[i as int] == (token@, display@));
        assert(token_ok(icons()[i as int].0));
        let pattern = placeholder_text(token);
        out = replace_literal(out.as_str(), pattern.as_str(), display);
        assert(icons().take(i + 1).drop_last() == icons().take(i as int));
        i = i + 1;
    }
    assert(icons().take(i as int) == icons());
    out
}

/// Text without the placeholder comes out of a replacement unchanged.
proof fn lemma_replace_absent(s: Seq<char>, p: Seq<char>, r: Seq<char>)
    requires
        p.len() > 0,
        free_of(s, p),
    ensures
        replace_lit(s, p, r) == s,
    decreases s.len(),
{
    if s.len() >= p.len() {
        assert(s.subrange(0, 0 + p.len() as int) != p);
        assert(s.subrange(0, p.len() as int) =~= s.take(p.len() as int));
        assert forall|k: int| 0 <= k && k + p.len() <= s.skip(1).len() implies #[trigger] s.skip(
            1,
        ).subrange(k, k + p.len()) != p by {
            assert(s.skip(1).subrange(k, k + p.len()) =~= s.subrange(k + 1, k + 1 + p.len()));
        }
        lemma_replace_absent(s.skip(1), p, r);
        assert(seq![s[0]] + s.skip(1) =~= s);
    }
}

/// A replacement keeps its input up to the first inserted display token: the
/// first `n` characters of the result are those of the input, or one of them
/// is the first character of `r`.
proof fn lemma_replace_prefix(v: Seq<char>, p: Seq<char>, r: Seq<char>, n: int)
    requires
        p.len() > 0,
        r.len() > 0,
        0 <= n <= replace_lit(v, p, r).len(),
    ensures
        (n <= v.len() && replace_lit(v, p, r).take(n) == v.take(n)) || exists|j: int|
            0 <= j < n && #[trigger] replace_lit(v, p, r)[j] == r[0],
    decreases v.len(),
{
    let out = replace_lit(v, p, r);
    if n == 0 {
        assert(out.take(0) == v.take(0));
    } else if v.len() < p.len() {
    } else if v.take(p.len() as int) == p {
        assert(out[0] == r[0]);
    } else {
        let t = replace_lit(v.skip(1), p, r);
        lemma_replace_prefix(v.skip(1), p, r, n - 1);
        if n - 1 <= v.skip(1).len() && t.take(n - 1) == v.skip(1).take(n - 1) {
            assert forall|i: int| 1 <= i < n implies out.take(n)[i] == v.take(n)[i] by {
                assert(t.take(n - 1)[i - 1] == v.skip(1).take(n - 1)[i - 1]);
            }
            assert(out.take(n) =~= v.take(n));
        } else {
            let j = choose|j: int| 0 <= j < n - 1 && #[trigger] t[j] == r[0];
            assert(out[j + 1] == r[0]);
        }
    }
}

/// After a replacement of `p` by `r`, the text holds no `p`, and holds no
/// other placeholder `q` that it did not hold before.
proof fn lemma_replace_free(s: Seq<char>, p: Seq<char>, r: Seq<char>, q: Seq<char>)
    requires
        p.len() > 0,
        q.len() > 0,
        q[0] == '%',
        r.len() > 0,
        forall|i: int| 0 <= i < r.len() ==> #[trigger] r[i] != '%',
        forall|i: int| 0 <= i < q.len() ==> #[trigger] q[i] != r[0],
        q == p || free_of(s, q),
    ensures
        free_of(replace_lit(s, p, r), q),
    decreases s.len(),
{
    let out = replace_lit(s, p, r);
    if s.len() < p.len() {
    } else if s.take(p.len() as int) == p {
        let rest = s.skip(p.len() as int);
        if q != p {
            assert forall|k: int| 0 <= k && k + q.len() <= rest.len() implies #[trigger] rest.subrange(
                k,
                k + q.len(),
            ) != q by {
                assert(rest.subrange(k, k + q.len()) =~= s.subrange(
                    k + p.len(),
                    k + p.len() + q.len(),
                ));
            }
        }
        lemma_replace_free(rest, p, r, q);
        let t = replace_lit(rest, p, r);
        assert forall|k: int| 0 <= k && k + q.len() <= out.len() implies #[trigger] out.subrange(
            k,
            k + q.len(),
        ) != q by {
            if k < r.len() {
                assert(out.subrange(k, k + q.len())[0] == r[k]);
            } else {
                assert(out.subrange(k, k + q.len()) =~= t.subrange(
                    k - r.len(),
                    k - r.len() + q.len(),
                ));
            }
        }
    } else {
        let rest = s.skip(1);
        if q != p {
            assert forall|k: int| 0 <= k && k + q.len() <= rest.len() implies #[trigger] rest.subrange(
                k,
                k + q.len(),
            ) != q by {
                assert(rest.subrange(k, k + q.len()) =~= s.subrange(k + 1, k + 1 + q.len()));
            }
        }
        lemma_replace_free(rest, p, r, q);
        let t = replace_lit(rest, p, r);
        assert forall|k: int| 0 <= k && k + q.len() <= out.len() implies #[trigger] out.subrange(
            k,
            k + q.len(),
        ) != q by {
            if k == 0 {
                let n = q.len() - 1;
                lemma_replace_prefix(rest, p, r, n);
                let w = out.subrange(0, q.len() as int);
                if n <= rest.len() && t.take(n) == rest.take(n) {
                    assert forall|i: int| 1 <= i < q.len() implies w[i] == s[i] by {
                        assert(t.take(n)[i - 1] == rest.take(n)[i - 1]);
                    }
                    assert(w =~= s.subrange(0, q.len() as int));
                    assert(s.take(p.len() as int) =~= s.subrange(0, p.len() as int));
                } else {
                    let j = choose|j: int| 0 <= j < n && #[trigger] t[j] == r[0];
                    assert(w[j + 1] == r[0]);
                }
            } else {
                assert(out.subrange(k, k + q.len()) =~= t.subrange(k - 1, k - 1 + q.len()));
            }
        }
    }
}

/// After all entries of a well-formed table were applied, none of its
/// placeholders is left.
proof fn lemma_apply_clears(s: Seq<char>, t: Seq<(Seq<char>, Seq<char>)>)
    requires
        table_ok(t),
    ensures
        free_of_all(apply_icons(s, t), t),
    decreases t.len(),
{
    if t.len() > 0 {
        let init = t.drop_last();
        assert forall|i: int| 0 <= i < init.len() implies token_ok(#[trigger] init[i].0) && display_ok(
            init[i].1,
        ) by {
            assert(init[i] == t[i]);
        }
        lemma_apply_clears(s, init);
        let u = apply_icons(s, init);
        let p = placeholder(t.last().0);
        let r = t.last().1;
        assert(token_ok(t[t.len() - 1].0) && display_ok(t[t.len() - 1].1));
        assert forall|i: int| 0 <= i < t.len() implies free_of(
            apply_icons(s, t),
            placeholder(#[trigger] t[i].0),
        ) by {
            let q = placeholder(t[i].0);
            assert(token_ok(t[i].0));
            assert forall|j: int| 0 <= j < q.len() implies #[trigger] q[j] != r[0] by {
                if 0 < j < q.len() - 1 {
                    assert(q[j] == t[i].0[j - 1]);
                }
            }
            if i < t.len() - 1 {
                assert(init[i] == t[i]);
            }
            lemma_replace_free(u, p, r, q);
        }
    }
}

/// Text that holds none of a well-formed table's placeholders is left as it
/// is by the table.
proof fn lemma_apply_unchanged(s: Seq<char>, t: Seq<(Seq<char>, Seq<char>)>)
    requires
        table_ok(t),
        free_of_all(s, t),
    ensures
        apply_icons(s, t) == s,
    decreases t.len(),
{
    if t.len() > 0 {
        let init = t.drop_last();
        assert forall|i: int| 0 <= i < init.len() implies token_ok(#[trigger] init[i].0) && display_ok(
            init[i].1,
        ) && free_of(s, placeholder(init[i].0)) by {
            assert(init[i] == t[i]);
        }
        lemma_apply_unchanged(s, init);
        assert(token_ok(t[t.len() - 1].0));
        assert(free_of(s, placeholder(t[t.len() - 1].0)));
        lemma_replace_absent(s, placeholder(t.last().0), t.last().1);
    }
}

/// Substituting icons is idempotent: text whose placeholders were already
/// replaced holds no placeholder, so a second pass changes nothing.
pub proof fn lemma_iconify_idempotent(s: Seq<char>)
    ensures
        apply_icons(apply_icons(s, icons()), icons()) == apply_icons(s, icons()),
{
    lemma_icons_ok();
    lemma_apply_clears(s, icons());
    lemma_apply_unchanged(apply_icons(s, icons()), icons());
}

/// No placeholder of the icon table is left in text after the icons were
/// substituted: display tokens never form a placeholder.
pub proof fn lemma_iconify_clears(s: Seq<char>)
    ensures
        free_of_all(apply_icons(s, icons()), icons()),
{
    lemma_icons_ok();
    lemma_apply_clears(s, icons());
}

} // verus!
