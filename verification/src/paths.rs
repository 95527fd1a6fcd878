//! Paths as the package loader treats them. A path is split into its
//! components as `std::path::Path` splits a Unix path: the pieces between
//! slashes, with empty pieces and `.` pieces dropped, except that a relative
//! path that starts with `.` keeps that first `.`. Normalizing drops every
//! `.` and lets each `..` remove the component before it. On these rest the
//! rules that keep imports and workspace members inside their package.
use vstd::prelude::*;
use crate::diagnostics::Diagnostic;
use crate::manifest::joined;
use crate::syntax::Import;
use crate::text::{cat, chars_of, debug_quoted, debug_string, decimal, is_ws, string_from, string_is, usize_to_string};

verus! {

// ----- Components ---------------------------------------------------------------------------

/// Whether the path starts at the root.
pub open spec fn is_absolute(t: Seq<char>) -> bool {
    t.len() > 0 && t[0] == '/'
}

/// The non-empty pieces of `t` between slashes, from position `i` on, where
/// the piece being read began at `start`.
pub open spec fn pieces_from(t: Seq<char>, start: int, i: int) -> Seq<Seq<char>>
    decreases t.len() - i,
{
    if i >= t.len() {
        if start < t.len() {
            seq![t.subrange(start, t.len() as int)]
        } else {
            seq![]
        }
    } else if t[i] == '/' {
        let rest = pieces_from(t, i + 1, i + 1);
        if start < i {
            seq![t.subrange(start, i)] + rest
        } else {
            rest
        }
    } else {
        pieces_from(t, start, i + 1)
    }
}

/// The non-empty pieces of `t` between slashes, left to right.
pub open spec fn pieces(t: Seq<char>) -> Seq<Seq<char>> {
    pieces_from(t, 0, 0)
}

/// The pieces without their `.` entries; where `keep_lead` holds, a `.` in
/// the first place stays.
pub open spec fn drop_dots(s: Seq<Seq<char>>, keep_lead: bool) -> Seq<Seq<char>>
    decreases s.len(),
{
    if s.len() == 0 {
        seq![]
    } else {
        let r = drop_dots(s.drop_last(), keep_lead);
        if s.last() == "."@ && !(keep_lead && s.len() == 1) {
            r
        } else {
            r.push(s.last())
        }
    }
}

/// The components of a path: its pieces without `.`, but for a leading `.`
/// of a relative path.
pub open spec fn components_of(t: Seq<char>) -> Seq<Seq<char>> {
    drop_dots(pieces(t), !is_absolute(t))
}

/// The components with every `.` dropped and each `..` removing the
/// component before it, where there is one.
pub open spec fn normalized_components(s: Seq<Seq<char>>) -> Seq<Seq<char>>
    decreases s.len(),
{
    if s.len() == 0 {
        seq![]
    } else {
        let r = normalized_components(s.drop_last());
        let c = s.last();
        if c == ".."@ {
            if r.len() > 0 {
                r.drop_last()
            } else {
                r
            }
        } else if c == "."@ || c.len() == 0 {
            r
        } else {
            r.push(c)
        }
    }
}

/// The components written one after another with a slash between each two.
pub open spec fn intercalate(s: Seq<Seq<char>>) -> Seq<char>
    decreases s.len(),
{
    if s.len() == 0 {
        seq![]
    } else if s.len() == 1 {
        s[0]
    } else {
        intercalate(s.drop_last()) + "/"@ + s.last()
    }
}

/// A path written from its components.
pub open spec fn render_path(absolute: bool, s: Seq<Seq<char>>) -> Seq<char> {
    (if absolute {
        "/"@
    } else {
        seq![]
    }) + intercalate(s)
}

/// The normal form of a path, as the loader compares package and module paths.
pub open spec fn normalized(t: Seq<char>) -> Seq<char> {
    render_path(is_absolute(t), normalized_components(components_of(t)))
}

/// Whether `p` lies at or below `base`, component by component.
pub open spec fn starts_with_path(p: Seq<char>, base: Seq<char>) -> bool {
    is_absolute(p) == is_absolute(base) && components_of(base).is_prefix_of(components_of(p))
}

/// The path without its last component; a path with no components has none.
pub open spec fn parent_of(t: Seq<char>) -> Option<Seq<char>> {
    let c = components_of(t);
    if c.len() == 0 {
        None
    } else {
        Some(render_path(is_absolute(t), c.drop_last()))
    }
}

/// A component that `normalized` can leave: not empty, not `.` or `..`, no slash.
pub open spec fn plain_component(c: Seq<char>) -> bool {
    &&& c.len() > 0
    &&& c != "."@
    &&& c != ".."@
    &&& forall|k: int| 0 <= k < c.len() ==> c[k] != '/'
}

pub open spec fn slash_free(c: Seq<char>) -> bool {
    forall|k: int| 0 <= k < c.len() ==> c[k] != '/'
}

proof fn lemma_pieces_from_slash_free(t: Seq<char>, start: int, i: int)
    requires
        0 <= start <= i <= t.len(),
        forall|k: int| start <= k < i ==> t[k] != '/',
    ensures
        forall|j: int|
            0 <= j < pieces_from(t, start, i).len() ==> (#[trigger] pieces_from(t, start, i)[j]).len() > 0
                && slash_free(pieces_from(t, start, i)[j]),
    decreases t.len() - i,
{
    let r = pieces_from(t, start, i);
    if i >= t.len() {
        if start < t.len() {
            assert(slash_free(t.subrange(start, t.len() as int)));
            assert(r[0] == t.subrange(start, t.len() as int));
        }
    } else if t[i] == '/' {
        lemma_pieces_from_slash_free(t, i + 1, i + 1);
        let rest = pieces_from(t, i + 1, i + 1);
        if start < i {
            let piece = t.subrange(start, i);
            assert(slash_free(piece));
            assert forall|j: int| 0 <= j < r.len() implies (#[trigger] r[j]).len() > 0 && slash_free(r[j]) by {
                if j == 0 {
                    assert(r[j] == piece);
                } else {
                    assert(r[j] == rest[j - 1]);
                }
            }
        } else {
            assert(r == rest);
        }
    } else {
        lemma_pieces_from_slash_free(t, start, i + 1);
        assert(r == pieces_from(t, start, i + 1));
    }
}

proof fn lemma_drop_dots_from(s: Seq<Seq<char>>, keep_lead: bool)
    ensures
        forall|j: int|
            0 <= j < drop_dots(s, keep_lead).len() ==> exists|k: int|
                0 <= k < s.len() && s[k] == #[trigger] drop_dots(s, keep_lead)[j],
    decreases s.len(),
{
    if s.len() > 0 {
        lemma_drop_dots_from(s.drop_last(), keep_lead);
        let r = drop_dots(s.drop_last(), keep_lead);
        assert forall|j: int| 0 <= j < drop_dots(s, keep_lead).len() implies exists|k: int|
            0 <= k < s.len() && s[k] == #[trigger] drop_dots(s, keep_lead)[j] by {
            if j < r.len() {
                let k = choose|k: int| 0 <= k < s.drop_last().len() && s.drop_last()[k] == #[trigger] r[j];
                assert(s[k] == r[j]);
            } else {
                assert(s[s.len() - 1] == drop_dots(s, keep_lead)[j]);
            }
        }
    }
}

proof fn lemma_normalized_components_plain(s: Seq<Seq<char>>)
    requires
        forall|k: int| 0 <= k < s.len() ==> slash_free(#[trigger] s[k]),
    ensures
        forall|j: int| 0 <= j < normalized_components(s).len() ==> plain_component(#[trigger] normalized_components(s)[j]),
    decreases s.len(),
{
    if s.len() > 0 {
        let d = s.drop_last();
        assert forall|k: int| 0 <= k < d.len() implies slash_free(#[trigger] d[k]) by {
            assert(d[k] == s[k]);
        }
        lemma_normalized_components_plain(d);
        let r = normalized_components(d);
        let c = s.last();
        assert(slash_free(s[s.len() - 1]));
        let out = normalized_components(s);
        assert forall|j: int| 0 <= j < out.len() implies plain_component(#[trigger] out[j]) by {
            if c == ".."@ {
                if r.len() > 0 {
                    assert(out[j] == r[j]);
                }
            } else if c == "."@ || c.len() == 0 {
            } else {
                if j < r.len() {
                    assert(out[j] == r[j]);
                } else {
                    assert(out[j] == c);
                }
            }
        }
    }
}

/// The pieces of a slash-free tail `t[s..]` are that tail.
proof fn lemma_pieces_tail(t: Seq<char>, s: int, i: int)
    requires
        0 <= s < t.len(),
        s <= i <= t.len(),
        forall|k: int| s <= k < t.len() ==> t[k] != '/',
    ensures
        pieces_from(t, s, i) == seq![t.subrange(s, t.len() as int)],
    decreases t.len() - i,
{
    if i < t.len() {
        lemma_pieces_tail(t, s, i + 1);
    }
}

/// Appending `/y` to a path appends `y` to its pieces.
proof fn lemma_pieces_append(x: Seq<char>, y: Seq<char>, start: int, i: int)
    requires
        0 <= start <= i <= x.len(),
        forall|k: int| start <= k < i ==> x[k] != '/',
        y.len() > 0,
        slash_free(y),
    ensures
        pieces_from(x + "/"@ + y, start, i) == pieces_from(x, start, i) + seq![y],
    decreases x.len() - i,
{
    reveal_strlit("/");
    let big = x + "/"@ + y;
    assert(big.len() == x.len() + 1 + y.len());
    if i == x.len() {
        assert(big[i] == '/');
        assert forall|k: int| i + 1 <= k < big.len() implies big[k] != '/' by {
            assert(big[k] == y[k - i - 1]);
        }
        lemma_pieces_tail(big, i + 1, i + 1);
        assert(big.subrange(i + 1, big.len() as int) =~= y);
        if start < i {
            assert(big.subrange(start, i) =~= x.subrange(start, i));
        }
    } else {
        assert(big[i] == x[i]);
        if x[i] == '/' {
            lemma_pieces_append(x, y, i + 1, i + 1);
            if start < i {
                assert(big.subrange(start, i) =~= x.subrange(start, i));
                assert(seq![x.subrange(start, i)] + (pieces_from(x, i + 1, i + 1) + seq![y]) =~= (seq![
                    x.subrange(start, i),
                ] + pieces_from(x, i + 1, i + 1)) + seq![y]);
            }
        } else {
            lemma_pieces_append(x, y, start, i + 1);
        }
    }
}

/// A leading slash does not change the pieces.
proof fn lemma_pieces_after_slash(x: Seq<char>, start: int, i: int)
    requires
        0 <= start <= i <= x.len(),
    ensures
        pieces_from("/"@ + x, start + 1, i + 1) == pieces_from(x, start, i),
    decreases x.len() - i,
{
    reveal_strlit("/");
    let big = "/"@ + x;
    if i < x.len() {
        assert(big[i + 1] == x[i]);
        if x[i] == '/' {
            lemma_pieces_after_slash(x, i + 1, i + 1);
            if start < i {
                assert(big.subrange(start + 1, i + 1) =~= x.subrange(start, i));
            }
        } else {
            lemma_pieces_after_slash(x, start, i + 1);
        }
    } else {
        if start < x.len() {
            assert(big.subrange(start + 1, big.len() as int) =~= x.subrange(start, x.len() as int));
        }
    }
}

proof fn lemma_intercalate_pieces(n: Seq<Seq<char>>)
    requires
        forall|j: int| 0 <= j < n.len() ==> plain_component(#[trigger] n[j]),
    ensures
        pieces(intercalate(n)) == n,
        n.len() > 0 ==> intercalate(n).len() > 0 && intercalate(n)[0] != '/',
    decreases n.len(),
{
    if n.len() == 0 {
        assert(pieces(intercalate(n)) =~= n);
    } else if n.len() == 1 {
        assert(plain_component(n[0]));
        lemma_pieces_tail(n[0], 0, 0);
        assert(n[0].subrange(0, n[0].len() as int) =~= n[0]);
        assert(seq![n[0]] =~= n);
    } else {
        let d = n.drop_last();
        assert forall|j: int| 0 <= j < d.len() implies plain_component(#[trigger] d[j]) by {
            assert(d[j] == n[j]);
        }
        lemma_intercalate_pieces(d);
        assert(plain_component(n.last()));
        lemma_pieces_append(intercalate(d), n.last(), 0, 0);
        assert(d + seq![n.last()] =~= n);
        reveal_strlit("/");
        assert((intercalate(d) + "/"@ + n.last())[0] == intercalate(d)[0]);
    }
}

proof fn lemma_drop_dots_keeps_plain(n: Seq<Seq<char>>, keep_lead: bool)
    requires
        forall|j: int| 0 <= j < n.len() ==> plain_component(#[trigger] n[j]),
    ensures
        drop_dots(n, keep_lead) == n,
    decreases n.len(),
{
    if n.len() > 0 {
        let d = n.drop_last();
        assert forall|j: int| 0 <= j < d.len() implies plain_component(#[trigger] d[j]) by {
            assert(d[j] == n[j]);
        }
        lemma_drop_dots_keeps_plain(d, keep_lead);
        assert(plain_component(n.last()));
        assert(d.push(n.last()) =~= n);
    }
}

proof fn lemma_normalized_components_of_plain(n: Seq<Seq<char>>)
    requires
        forall|j: int| 0 <= j < n.len() ==> plain_component(#[trigger] n[j]),
    ensures
        normalized_components(n) == n,
    decreases n.len(),
{
    if n.len() > 0 {
        let d = n.drop_last();
        assert forall|j: int| 0 <= j < d.len() implies plain_component(#[trigger] d[j]) by {
            assert(d[j] == n[j]);
        }
        lemma_normalized_components_of_plain(d);
        assert(plain_component(n.last()));
        assert(d.push(n.last()) =~= n);
    }
}

/// The components of a path written from plain components are those components.
proof fn lemma_components_of_render(absolute: bool, n: Seq<Seq<char>>)
    requires
        forall|j: int| 0 <= j < n.len() ==> plain_component(#[trigger] n[j]),
    ensures
        components_of(render_path(absolute, n)) == n,
        is_absolute(render_path(absolute, n)) == absolute,
{
    reveal_strlit("/");
    lemma_intercalate_pieces(n);
    let body = intercalate(n);
    if absolute {
        assert(render_path(absolute, n) =~= "/"@ + body);
        lemma_pieces_after_slash(body, 0, 0);
        assert(("/"@ + body)[0] == '/');
        let p = pieces_from("/"@ + body, 0, 0);
        assert(p == pieces_from("/"@ + body, 1, 1));
    } else {
        assert(render_path(absolute, n) =~= body);
    }
    lemma_drop_dots_keeps_plain(n, !absolute);
}

/// Normalizing a normalized path changes nothing.
pub proof fn lemma_normalized_idempotent(t: Seq<char>)
    ensures
        normalized(normalized(t)) == normalized(t),
{
    let p = pieces(t);
    lemma_pieces_from_slash_free(t, 0, 0);
    let c = components_of(t);
    lemma_drop_dots_from(p, !is_absolute(t));
    assert forall|k: int| 0 <= k < c.len() implies slash_free(#[trigger] c[k]) by {
        let q = choose|q: int| 0 <= q < p.len() && p[q] == #[trigger] c[k];
        assert(slash_free(p[q]));
    }
    let n = normalized_components(c);
    lemma_normalized_components_plain(c);
    lemma_components_of_render(is_absolute(t), n);
    lemma_normalized_components_of_plain(n);
}

pub open spec fn views(v: Seq<String>) -> Seq<Seq<char>> {
    v.map_values(|s: String| s@)
}

/// A path split into its components.
#[derive(Debug, Clone, PartialEq, Eq)]
pub struct PathParts {
    /// Whether the path starts at the root.
    pub absolute: bool,
    pub components: Vec<String>,
}

fn is_dot(c: &String) -> (b: bool)
    ensures
        b == (c@ == "."@),
{
    string_is(c, ".")
}

fn is_dot_dot(c: &String) -> (b: bool)
    ensures
        b == (c@ == ".."@),
{
    string_is(c, "..")
}

/// The non-empty pieces of a path between its slashes.
fn pieces_of(t: &Vec<char>) -> (v: Vec<String>)
    ensures
        views(v@) == pieces(t@),
{
    let mut out: Vec<String> = Vec::new();
    let mut start: usize = 0;
    let mut i: usize = 0;
    while i < t.len()
        invariant
            start <= i <= t@.len(),
            views(out@) + pieces_from(t@, start as int, i as int) == pieces(t@),
        decreases t@.len() - i,
    {
        if t[i] == '/' {
            let ghost before = views(out@);
            if i > start {
                let c = string_from(t, start, i);
                out.push(c);
                proof {
                    assert(views(out@) =~= before.push(t@.subrange(start as int, i as int)));
                    assert(before + pieces_from(t@, start as int, i as int) =~= views(out@) + pieces_from(
                        t@,
                        i + 1,
                        i + 1,
                    ));
                }
            }
            start = i + 1;
        }
        i = i + 1;
    }
    if start < t.len() {
        let ghost before = views(out@);
        let c = string_from(t, start, t.len());
        out.push(c);
        proof {
            assert(views(out@) =~= before.push(t@.subrange(start as int, t@.len() as int)));
            assert(views(out@) =~= before + pieces_from(t@, start as int, i as int));
        }
    } else {
        assert(views(out@) =~= views(out@) + pieces_from(t@, start as int, i as int));
    }
    out
}

/// Splits a path into its components, as `std::path::Path` does for Unix paths.
pub fn split_path(path: &str) -> (p: PathParts)
    ensures
        p.absolute == is_absolute(path@),
        views(p.components@) == components_of(path@),
{
    let t = chars_of(path);
    let absolute = t.len() > 0 && t[0] == '/';
    let all = pieces_of(&t);
    let keep_lead = !absolute;
    let mut components: Vec<String> = Vec::new();
    let mut i: usize = 0;
    while i < all.len()
        invariant
            i <= all@.len(),
            views(components@) == drop_dots(views(all@).take(i as int), keep_lead),
        decreases all@.len() - i,
    {
        let ghost before = views(components@);
        proof {
            assert(views(all@).take(i + 1).drop_last() =~= views(all@).take(i as int));
            assert(views(all@).take(i + 1).last() == all@[i as int]@);
        }
        if !is_dot(&all[i]) || (keep_lead && i == 0) {
            components.push(all[i].clone());
            proof {
                assert(views(components@) =~= before.push(all@[i as int]@));
            }
        }
        i = i + 1;
    }
    proof {
        assert(views(all@).take(all@.len() as int) =~= views(all@));
    }
    PathParts { absolute, components }
}

/// Applies `.` and `..`: a `..` removes the component before it, and does
/// nothing where there is none.
pub fn normalize_parts(parts: &PathParts) -> (r: PathParts)
    ensures
        r.absolute == parts.absolute,
        views(r.components@) == normalized_components(views(parts.components@)),
{
    let ghost s = views(parts.components@);
    let mut out: Vec<String> = Vec::new();
    let mut i: usize = 0;
    while i < parts.components.len()
        invariant
            i <= parts.components@.len(),
            s == views(parts.components@),
            views(out@) == normalized_components(s.take(i as int)),
        decreases parts.components@.len() - i,
    {
        let ghost before = views(out@);
        proof {
            assert(s.take(i + 1).drop_last() =~= s.take(i as int));
            assert(s.take(i + 1).last() == parts.components@[i as int]@);
        }
        let c = &parts.components[i];
        if is_dot_dot(c) {
            if out.len() > 0 {
                out.pop();
                proof {
                    assert(views(out@) =~= before.drop_last());
                }
            }
        } else if !is_dot(c) && c.as_str().unicode_len() > 0 {
            out.push(c.clone());
            proof {
                assert(views(out@) =~= before.push(c@));
            }
        }
        i = i + 1;
    }
    proof {
        assert(s.take(parts.components@.len() as int) =~= s);
    }
    PathParts { absolute: parts.absolute, components: out }
}

/// Writes components back as a path.
pub fn join_parts(parts: &PathParts) -> (s: String)
    ensures
        s@ == render_path(parts.absolute, views(parts.components@)),
{
    let ghost v = views(parts.components@);
    let mut body = String::new();
    let mut i: usize = 0;
    while i < parts.components.len()
        invariant
            i <= parts.components@.len(),
            v == views(parts.components@),
            body@ == intercalate(v.take(i as int)),
        decreases parts.components@.len() - i,
    {
        proof {
            assert(v.take(i + 1).drop_last() =~= v.take(i as int));
            assert(v.take(i + 1).last() == parts.components@[i as int]@);
        }
        if i > 0 {
            body.append("/");
        } else {
            proof {
                assert(v.take(1)[0] == parts.components@[0]@);
            }
        }
        body.append(parts.components[i].as_str());
        i = i + 1;
    }
    proof {
        assert(v.take(parts.components@.len() as int) =~= v);
    }
    if parts.absolute {
        let mut out = String::from_str("/");
        out.append(body.as_str());
        out
    } else {
        proof {
            assert(seq![] + body@ =~= body@);
        }
        body
    }
}

/// The normal form of a path: `.` dropped and each `..` applied.
pub fn normalize_path(path: &str) -> (s: String)
    ensures
        s@ == normalized(path@),
{
    join_parts(&normalize_parts(&split_path(path)))
}

/// Whether `base`'s components begin `path`'s.
pub fn path_starts_with(path: &str, base: &str) -> (b: bool)
    ensures
        b == starts_with_path(path@, base@),
{
    let p = split_path(path);
    let q = split_path(base);
    if p.absolute != q.absolute || q.components.len() > p.components.len() {
        return false;
    }
    let mut i: usize = 0;
    while i < q.components.len()
        invariant
            q.components@.len() <= p.components@.len(),
            i <= q.components@.len(),
            views(p.components@) == components_of(path@),
            views(q.components@) == components_of(base@),
            p.absolute == is_absolute(path@),
            q.absolute == is_absolute(base@),
            forall|k: int| 0 <= k < i ==> views(p.components@)[k] == views(q.components@)[k],
        decreases q.components@.len() - i,
    {
        if p.components[i] != q.components[i] {
            assert(views(p.components@)[i as int] != views(q.components@)[i as int]);
            assert(views(p.components@).subrange(0, views(q.components@).len() as int)[i as int]
                == views(p.components@)[i as int]);
            return false;
        }
        i = i + 1;
    }
    proof {
        assert(views(p.components@).subrange(0, views(q.components@).len() as int) =~= views(
            q.components@,
        ));
    }
    true
}

pub fn has_parent_component(parts: &PathParts) -> (b: bool)
    ensures
        b == views(parts.components@).contains(".."@),
{
    let mut i: usize = 0;
    while i < parts.components.len()
        invariant
            i <= parts.components@.len(),
            forall|k: int| 0 <= k < i ==> (#[trigger] views(parts.components@)[k]) != ".."@,
        decreases parts.components@.len() - i,
    {
        if is_dot_dot(&parts.components[i]) {
            assert(views(parts.components@)[i as int] == ".."@);
            return true;
        }
        i = i + 1;
    }
    false
}

/// The path without its last component, as `Path::parent` gives it.
pub fn parent_path(path: &str) -> (r: Option<String>)
    ensures
        match r {
            Some(s) => parent_of(path@) == Some(s@),
            None => parent_of(path@) is None,
        },
{
    let p = split_path(path);
    if p.components.len() == 0 {
        return None;
    }
    let mut comps = p.components.clone();
    proof {
        assert(comps@ == p.components@);
    }
    comps.pop();
    proof {
        assert(views(comps@) =~= views(p.components@).drop_last());
    }
    Some(join_parts(&PathParts { absolute: p.absolute, components: comps }))
}

// ----- Imports --------------------------------------------------------------------------------

/// Where an import leads, before the loader looks for the file.
#[derive(Debug, Clone, PartialEq, Eq)]
pub enum ImportTarget {
    /// A module of the synthetic stdlib, at its virtual path.
    Stdlib { path: String },
    /// A module of a dependency: the dependency's root, and the module's path.
    Dependency { root: String, path: String },
    /// A module of the importing package itself.
    Local { root: String, path: String },
}

/// A dependency as imports see it: its name, root and source root.
#[derive(Debug, Clone, PartialEq, Eq)]
pub struct DependencyRoots {
    pub name: String,
    pub root: String,
    pub source_root: String,
}

/// What an import resolves to: a refusal with its message, or a target.
pub enum ImportOutcome {
    Refused(Seq<char>),
    Stdlib(Seq<char>),
    Dependency(Seq<char>, Seq<char>),
    Local(Seq<char>, Seq<char>),
}

/// The first dependency at or after `i` named `name`.
pub open spec fn dependency_named(deps: Seq<DependencyRoots>, name: Seq<char>, i: int) -> Option<int>
    decreases deps.len() - i,
{
    if i >= deps.len() || i < 0 {
        None
    } else if deps[i].name@ == name {
        Some(i)
    } else {
        dependency_named(deps, name, i + 1)
    }
}

pub open spec fn stdlib_module(rem: Seq<char>) -> bool {
    exists|i: int|
        0 <= i < crate::stdlib::stdlib_table().len() && crate::stdlib::stdlib_table()[i].0 == rem
}

/// How the import `ip` of the module at `source_path`, in the package at
/// `package_root` with sources at `source_root`, resolves: `std/...` names a
/// stdlib module and `<dependency>/...` a module of a declared dependency,
/// when that name is the first component; any other path names a module of
/// the package relative to the importing module. Absolute paths and `..`
/// are refused, and so is a path that leaves its package.
pub open spec fn import_resolution(
    package_root: Seq<char>,
    source_root: Seq<char>,
    source_path: Seq<char>,
    deps: Seq<DependencyRoots>,
    ip: Seq<char>,
) -> ImportOutcome {
    let c = components_of(ip);
    let named_first = c.len() > 0 && c[0] != "."@;
    if is_absolute(ip) {
        ImportOutcome::Refused("stage1 imports must be relative"@)
    } else if c.contains(".."@) {
        ImportOutcome::Refused("stage1 imports may not traverse parent directories"@)
    } else if named_first && c[0] == crate::stdlib::STDLIB_IMPORT_PREFIX@ {
        let rem = intercalate(c.drop_first());
        if c.len() == 1 {
            ImportOutcome::Refused("stdlib import must include a module path (e.g. import \"std/time.ax\")"@)
        } else if !stdlib_module(rem) {
            ImportOutcome::Refused("unknown stdlib module "@ + debug_quoted(ip))
        } else {
            ImportOutcome::Stdlib(joined(crate::stdlib::STDLIB_ROOT@, rem))
        }
    } else if named_first && dependency_named(deps, c[0], 0) is Some {
        let d = deps[dependency_named(deps, c[0], 0)->0];
        if c.len() == 1 {
            ImportOutcome::Refused("dependency import "@ + debug_quoted(c[0]) + " must include a module path"@)
        } else {
            let candidate = normalized(joined(d.source_root@, intercalate(c.drop_first())));
            if !starts_with_path(candidate, d.source_root@) {
                ImportOutcome::Refused("dependency imports must stay inside the package"@)
            } else {
                ImportOutcome::Dependency(d.root@, candidate)
            }
        }
    } else {
        let base = match parent_of(source_path) {
            Some(p) => p,
            None => source_root,
        };
        let candidate = normalized(joined(base, ip));
        if !starts_with_path(candidate, package_root) {
            ImportOutcome::Refused("stage1 imports must stay inside the package"@)
        } else {
            ImportOutcome::Local(package_root, candidate)
        }
    }
}

/// A module of the package is found beside the module that imports it: the
/// import path is taken from the importing module's directory (the source
/// root only for a module path with no directory at all).
pub proof fn lemma_local_import_beside_importer(
    package_root: Seq<char>,
    source_root: Seq<char>,
    source_path: Seq<char>,
    deps: Seq<DependencyRoots>,
    ip: Seq<char>,
)
    ensures
        import_resolution(package_root, source_root, source_path, deps, ip) matches ImportOutcome::Local(root, path)
            ==> root == package_root && match parent_of(source_path) {
            Some(dir) => path == normalized(joined(dir, ip)),
            None => path == normalized(joined(source_root, ip)),
        },
{
}

/// The dependency `dependency_named` finds carries that name.
proof fn lemma_dependency_named(deps: Seq<DependencyRoots>, name: Seq<char>, i: int)
    ensures
        dependency_named(deps, name, i) matches Some(k) ==> i <= k < deps.len() && 0 <= k && deps[k].name@ == name,
    decreases deps.len() - i,
{
    if 0 <= i < deps.len() && deps[i].name@ != name {
        lemma_dependency_named(deps, name, i + 1);
    }
}

/// An import that names a dependency first is found in that dependency's
/// sources: the target is the rest of the path below the source root of a
/// dependency of that name, and lies inside it.
pub proof fn lemma_dependency_import_in_dependency(
    package_root: Seq<char>,
    source_root: Seq<char>,
    source_path: Seq<char>,
    deps: Seq<DependencyRoots>,
    ip: Seq<char>,
)
    ensures
        import_resolution(package_root, source_root, source_path, deps, ip) matches ImportOutcome::Dependency(
            root,
            path,
        ) ==> exists|k: int|
            0 <= k < deps.len() && (#[trigger] deps[k]).name@ == components_of(ip)[0] && deps[k].root@ == root
                && path == normalized(joined(deps[k].source_root@, intercalate(components_of(ip).drop_first())))
                && starts_with_path(path, deps[k].source_root@),
{
    let c = components_of(ip);
    if c.len() > 0 {
        lemma_dependency_named(deps, c[0], 0);
    }
}

/// The outcome that a result of `resolve_import_target` stands for.
pub open spec fn outcome_of(r: Result<ImportTarget, Diagnostic>) -> ImportOutcome {
    match r {
        Err(d) => ImportOutcome::Refused(d.message@),
        Ok(ImportTarget::Stdlib { path }) => ImportOutcome::Stdlib(path@),
        Ok(ImportTarget::Dependency { root, path }) => ImportOutcome::Dependency(root@, path@),
        Ok(ImportTarget::Local { root, path }) => ImportOutcome::Local(root@, path@),
    }
}

fn import_error(msg: String, source_path: &str, import: &Import) -> (d: Diagnostic)
    ensures
        d.kind@ == "import"@,
        d.message@ == msg@,
        d.path matches Some(p) && p@ == source_path@,
        d.line == Some(import.line),
        d.column == Some(import.column),
{
    Diagnostic::new("import", msg).with_path(String::from_str(source_path)).with_span(import.line, import.column)
}

/// The first dependency named `name`.
fn find_dependency(deps: &Vec<DependencyRoots>, name: &String) -> (r: Option<usize>)
    ensures
        match r {
            Some(k) => k < deps@.len() && dependency_named(deps@, name@, 0) == Some(k as int),
            None => dependency_named(deps@, name@, 0) is None,
        },
{
    let mut d: usize = 0;
    while d < deps.len()
        invariant
            d <= deps@.len(),
            dependency_named(deps@, name@, 0) == dependency_named(deps@, name@, d as int),
        decreases deps@.len() - d,
    {
        if deps[d].name == *name {
            return Some(d);
        }
        d = d + 1;
    }
    None
}

/// The components after the first, written with slashes between them.
fn rest_of(parts: &PathParts) -> (s: String)
    requires
        parts.components@.len() > 0,
    ensures
        s@ == intercalate(views(parts.components@).drop_first()),
{
    let mut rest: Vec<String> = Vec::new();
    let mut i: usize = 1;
    while i < parts.components.len()
        invariant
            1 <= i <= parts.components@.len(),
            views(rest@) == views(parts.components@).subrange(1, i as int),
        decreases parts.components@.len() - i,
    {
        let ghost before = views(rest@);
        let c = parts.components[i].clone();
        rest.push(c);
        proof {
            assert(views(rest@) =~= before.push(parts.components@[i as int]@));
            assert(views(rest@) =~= views(parts.components@).subrange(1, i + 1));
        }
        i = i + 1;
    }
    proof {
        assert(views(parts.components@).subrange(1, parts.components@.len() as int) =~= views(
            parts.components@,
        ).drop_first());
    }
    join_parts(&PathParts { absolute: false, components: rest })
}

/// Resolves an import of the module at `source_path` in the package at
/// `package_root` (sources under `source_root`). Whether the target file
/// exists is the caller's to check.
pub fn resolve_import_target(
    package_root: &str,
    source_root: &str,
    source_path: &str,
    dependencies: &Vec<DependencyRoots>,
    import: &Import,
) -> (r: Result<ImportTarget, Diagnostic>)
    ensures
        outcome_of(r) == import_resolution(
            package_root@,
            source_root@,
            source_path@,
            dependencies@,
            import.path@,
        ),
        r matches Err(d) ==> d.kind@ == "import"@ && (d.path matches Some(p) && p@ == source_path@)
            && d.line == Some(import.line) && d.column == Some(import.column),
        r matches Ok(ImportTarget::Local { path, .. }) ==> match parent_of(source_path@) {
            Some(dir) => path@ == normalized(joined(dir, import.path@)),
            None => path@ == normalized(joined(source_root@, import.path@)),
        },
{
    proof {
        reveal_strlit("..");
        reveal_strlit(".");
    }
    let parts = split_path(import.path.as_str());
    let ghost c = views(parts.components@);
    if parts.absolute {
        return Err(import_error(String::from_str("stage1 imports must be relative"), source_path, import));
    }
    if has_parent_component(&parts) {
        return Err(
            import_error(String::from_str("stage1 imports may not traverse parent directories"), source_path, import),
        );
    }
    if parts.components.len() > 0 && !is_dot(&parts.components[0]) {
        let head = &parts.components[0];
        assert(head@ == c[0]);
        if string_is(head, crate::stdlib::STDLIB_IMPORT_PREFIX) {
            let remainder = rest_of(&parts);
            if parts.components.len() == 1 {
                return Err(
                    import_error(
                        String::from_str("stdlib import must include a module path (e.g. import \"std/time.ax\")"),
                        source_path,
                        import,
                    ),
                );
            }
            if !crate::stdlib::stdlib_has_module(remainder.as_str()) {
                return Err(
                    import_error(
                        cat("unknown stdlib module ", debug_string(import.path.as_str()).as_str()),
                        source_path,
                        import,
                    ),
                );
            }
            return Ok(ImportTarget::Stdlib { path: crate::stdlib::stdlib_source_path(remainder.as_str()) });
        }
        if let Some(k) = find_dependency(dependencies, head) {
            let dep = &dependencies[k];
            if parts.components.len() == 1 {
                return Err(
                    import_error(
                        crate::text::cat3(
                            "dependency import ",
                            debug_string(head.as_str()).as_str(),
                            " must include a module path",
                        ),
                        source_path,
                        import,
                    ),
                );
            }
            let remainder = rest_of(&parts);
            let joined_path = crate::manifest::join_path(dep.source_root.as_str(), remainder.as_str());
            let candidate = normalize_path(joined_path.as_str());
            if !path_starts_with(candidate.as_str(), dep.source_root.as_str()) {
                return Err(
                    import_error(
                        String::from_str("dependency imports must stay inside the package"),
                        source_path,
                        import,
                    ),
                );
            }
            return Ok(ImportTarget::Dependency { root: dep.root.clone(), path: candidate });
        }
    }
    let base = match parent_path(source_path) {
        Some(p) => p,
        None => String::from_str(source_root),
    };
    let joined_path = crate::manifest::join_path(base.as_str(), import.path.as_str());
    let candidate = normalize_path(joined_path.as_str());
    if !path_starts_with(candidate.as_str(), package_root) {
        return Err(
            import_error(String::from_str("stage1 imports must stay inside the package"), source_path, import),
        );
    }
    Ok(ImportTarget::Local { root: String::from_str(package_root), path: candidate })
}

// ----- Workspace members ------------------------------------------------------------------------

/// What the `index`-th workspace member path `member` of the package at
/// `project_root` gives: the member's root, or the refusal's message.
pub open spec fn member_resolution(project_root: Seq<char>, index: nat, member: Seq<char>) -> Result<
    Seq<char>,
    Seq<char>,
> {
    let member_root = normalized(joined(project_root, member));
    if forall|k: int| 0 <= k < member.len() ==> is_ws(#[trigger] member[k]) {
        Err("workspace member paths must not be empty"@)
    } else if is_absolute(member) {
        Err("workspace.members["@ + decimal(index) + "] must be relative"@)
    } else if components_of(member).contains(".."@) {
        Err("workspace.members["@ + decimal(index) + "] must not use parent traversal"@)
    } else if member_root == normalized(project_root) {
        Err("workspace members must not include the root package"@)
    } else {
        Ok(member_root)
    }
}

fn manifest_error(msg: String, project_root: &str) -> (d: Diagnostic)
    ensures
        d.kind@ == "manifest"@,
        d.message@ == msg@,
        d.path matches Some(p) && p@ == joined(project_root@, crate::manifest::MANIFEST_FILENAME@),
{
    Diagnostic::new("manifest", msg).with_path(crate::manifest::manifest_path(project_root))
}

/// Checks the `index`-th workspace member path of the package at
/// `project_root` and gives the member's root. Whether the member and its
/// manifest exist is the caller's to check.
pub fn workspace_member_root(project_root: &str, index: usize, member: &String) -> (r: Result<
    String,
    Diagnostic,
>)
    ensures
        match r {
            Ok(s) => member_resolution(project_root@, index as nat, member@) == Ok::<Seq<char>, Seq<char>>(s@),
            Err(d) => member_resolution(project_root@, index as nat, member@) == Err::<Seq<char>, Seq<char>>(
                d.message@,
            ) && d.kind@ == "manifest"@,
        },
{
    proof {
        reveal_strlit("..");
    }
    let t = crate::text::chars_of_string(member);
    let (a, b) = crate::text::trim(&t, 0, t.len());
    if a == b {
        return Err(manifest_error(String::from_str("workspace member paths must not be empty"), project_root));
    }
    assert(!is_ws(t@[a as int]));
    let parts = split_path(member.as_str());
    if parts.absolute {
        return Err(
            manifest_error(
                crate::text::cat3("workspace.members[", usize_to_string(index).as_str(), "] must be relative"),
                project_root,
            ),
        );
    }
    if has_parent_component(&parts) {
        return Err(
            manifest_error(
                crate::text::cat3(
                    "workspace.members[",
                    usize_to_string(index).as_str(),
                    "] must not use parent traversal",
                ),
                project_root,
            ),
        );
    }
    let root = normalize_path(project_root);
    let joined_path = crate::manifest::join_path(project_root, member.as_str());
    let member_root = normalize_path(joined_path.as_str());
    if member_root == root {
        return Err(manifest_error(String::from_str("workspace members must not include the root package"), project_root));
    }
    Ok(member_root)
}

/// An import never leads outside its package: a local import stays below
/// the importing package's root, a dependency import below the
/// dependency's source root, and a stdlib import names a module of the
/// stdlib table.
pub proof fn lemma_imports_stay_inside(
    package_root: Seq<char>,
    source_root: Seq<char>,
    source_path: Seq<char>,
    deps: Seq<DependencyRoots>,
    ip: Seq<char>,
)
    ensures
        match import_resolution(package_root, source_root, source_path, deps, ip) {
            ImportOutcome::Local(root, p) => root == package_root && starts_with_path(p, package_root),
            ImportOutcome::Dependency(root, p) => exists|k: int|
                0 <= k < deps.len() && deps[k].root@ == root && starts_with_path(p, deps[k].source_root@),
            ImportOutcome::Stdlib(p) => exists|rem: Seq<char>|
                stdlib_module(rem) && p == joined(crate::stdlib::STDLIB_ROOT@, rem),
            ImportOutcome::Refused(_) => true,
        },
{
    let c = components_of(ip);
    if !is_absolute(ip) && !c.contains(".."@) && c.len() > 0 && c[0] != "."@ && c[0] != crate::stdlib::STDLIB_IMPORT_PREFIX@ {
        if let Some(k) = dependency_named(deps, c[0], 0) {
            lemma_dependency_named_bound(deps, c[0], 0);
        }
    }
}

proof fn lemma_dependency_named_bound(deps: Seq<DependencyRoots>, name: Seq<char>, i: int)
    ensures
        dependency_named(deps, name, i) matches Some(k) ==> 0 <= k < deps.len() && deps[k].name@ == name,
    decreases deps.len() - i,
{
    if 0 <= i < deps.len() && deps[i].name@ != name {
        lemma_dependency_named_bound(deps, name, i + 1);
    }
}

} // verus!
