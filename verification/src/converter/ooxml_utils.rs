//! Helpers shared by the OOXML converters: relationship parts and package
//! path resolution.

use vstd::prelude::*;

use crate::detection::last_index_of;
use crate::text::{
    chars_of, has_prefix, join_with, push_all, push_joined, slice_chars, split_chars, split_on,
    starts_with_str, string_from_chars,
};
use crate::xml_io::{tokenize, XmlAttr, XmlElement, XmlToken};

verus! {

broadcast use vstd::string::group_string_axioms;

/// A resolved relationship entry from a `.rels` part.
#[derive(Debug)]
pub struct Relationship {
    pub target: String,
    pub rel_type: String,
}

// ---------------------------------------------------------------------------
// Relationships
// ---------------------------------------------------------------------------

/// The value of the last attribute whose qualified key is exactly `key`.
pub open spec fn last_attr_exact(attrs: Seq<Option<XmlAttr>>, key: Seq<char>) -> Option<Seq<char>>
    decreases attrs.len(),
{
    if attrs.len() == 0 {
        None
    } else if attrs.last() matches Some(a) && a.key@ == key {
        Some(attrs.last()->0.value@)
    } else {
        last_attr_exact(attrs.drop_last(), key)
    }
}

/// The relationship an element declares: a `Relationship` element with both
/// an `Id` and a `Target` attribute yields `(id, target, type)`, the type
/// being empty when absent.
pub open spec fn relationship_of(e: XmlElement) -> Option<(Seq<char>, Seq<char>, Seq<char>)> {
    if e.name@ == "Relationship"@ {
        match (last_attr_exact(e.attrs@, "Id"@), last_attr_exact(e.attrs@, "Target"@)) {
            (Some(id), Some(target)) => Some(
                (
                    id,
                    target,
                    match last_attr_exact(e.attrs@, "Type"@) {
                        Some(t) => t,
                        None => Seq::empty(),
                    },
                ),
            ),
            _ => None,
        }
    } else {
        None
    }
}

/// The relationships declared by a token stream, in document order.
pub open spec fn rels_from_tokens(tokens: Seq<XmlToken>) -> Seq<(Seq<char>, Seq<char>, Seq<char>)>
    decreases tokens.len(),
{
    if tokens.len() == 0 {
        Seq::empty()
    } else {
        let prev = rels_from_tokens(tokens.drop_last());
        match tokens.last() {
            XmlToken::Start(e) => match relationship_of(e) {
                Some(r) => prev.push(r),
                None => prev,
            },
            XmlToken::Empty(e) => match relationship_of(e) {
                Some(r) => prev.push(r),
                None => prev,
            },
            _ => prev,
        }
    }
}

/// The view of a relationship list.
pub open spec fn rels_view(rels: Seq<(String, Relationship)>) -> Seq<(Seq<char>, Seq<char>, Seq<char>)> {
    rels.map_values(|r: (String, Relationship)| (r.0@, r.1.target@, r.1.rel_type@))
}

/// The relationship with id `id`: the last declaration of that id.
pub open spec fn rel_lookup(rels: Seq<(Seq<char>, Seq<char>, Seq<char>)>, id: Seq<char>) -> Option<
    (Seq<char>, Seq<char>),
>
    decreases rels.len(),
{
    if rels.len() == 0 {
        None
    } else if rels.last().0 == id {
        Some((rels.last().1, rels.last().2))
    } else {
        rel_lookup(rels.drop_last(), id)
    }
}

fn find_exact(attrs: &Vec<Option<XmlAttr>>, key: &str) -> (r: Option<String>)
    ensures
        r matches Some(v) ==> last_attr_exact(attrs@, key@) == Some(v@),
        r is None ==> last_attr_exact(attrs@, key@) is None,
{
    let mut j = attrs.len();
    assert(attrs@.subrange(0, attrs.len() as int) =~= attrs@);
    while j > 0
        invariant
            j <= attrs.len(),
            last_attr_exact(attrs@.subrange(0, j as int), key@) == last_attr_exact(attrs@, key@),
        decreases j,
    {
        assert(attrs@.subrange(0, j as int).drop_last() =~= attrs@.subrange(0, j - 1));
        match &attrs[j - 1] {
            Some(a) => {
                let k = chars_of(a.key.as_str());
                if crate::text::eq_str(k.as_slice(), key) {
                    return Some(a.value.clone());
                }
            },
            None => {},
        }
        j = j - 1;
    }
    None
}

fn relationship_from(e: &XmlElement) -> (r: Option<(String, Relationship)>)
    ensures
        r matches Some(p) ==> relationship_of(*e) == Some((p.0@, p.1.target@, p.1.rel_type@)),
        r is None ==> relationship_of(*e) is None,
{
    let n = chars_of(e.name.as_str());
    if !crate::text::eq_str(n.as_slice(), "Relationship") {
        return None;
    }
    let id = find_exact(&e.attrs, "Id");
    let target = find_exact(&e.attrs, "Target");
    match (id, target) {
        (Some(id), Some(target)) => {
            let rel_type = match find_exact(&e.attrs, "Type") {
                Some(t) => t,
                None => String::new(),
            };
            Some((id, Relationship { target, rel_type }))
        },
        _ => None,
    }
}

/// The relationships of a token stream (see [`rels_from_tokens`]).
pub fn relationships_from_tokens(tokens: &Vec<XmlToken>) -> (r: Vec<(String, Relationship)>)
    ensures
        rels_view(r@) == rels_from_tokens(tokens@),
{
    let mut rels: Vec<(String, Relationship)> = Vec::new();
    let mut i: usize = 0;
    while i < tokens.len()
        invariant
            i <= tokens.len(),
            rels_view(rels@) == rels_from_tokens(tokens@.subrange(0, i as int)),
        decreases tokens.len() - i,
    {
        let ghost before = rels@;
        assert(tokens@.subrange(0, i + 1).drop_last() =~= tokens@.subrange(0, i as int));
        match &tokens[i] {
            XmlToken::Start(e) => {
                match relationship_from(e) {
                    Some(p) => rels.push(p),
                    None => {},
                }
            },
            XmlToken::Empty(e) => {
                match relationship_from(e) {
                    Some(p) => rels.push(p),
                    None => {},
                }
            },
            _ => {},
        }
        assert(rels_view(rels@) =~= rels_from_tokens(tokens@.subrange(0, i + 1)));
        i = i + 1;
    }
    assert(tokens@.subrange(0, tokens.len() as int) =~= tokens@);
    rels
}

/// Parses a `.rels` part into `(id, relationship)` pairs in document order.
pub fn parse_relationships(xml: &str) -> (r: Vec<(String, Relationship)>)
    ensures
        rels_view(r@) == rels_from_tokens(crate::xml_io::xml_tokens(xml@)),
{
    let tokens = tokenize(xml);
    relationships_from_tokens(&tokens)
}

/// Finds the relationship with id `id`.
pub fn find_relationship<'a>(rels: &'a Vec<(String, Relationship)>, id: &str) -> (r: Option<
    &'a Relationship,
>)
    ensures
        r matches Some(rel) ==> rel_lookup(rels_view(rels@), id@) == Some(
            (rel.target@, rel.rel_type@),
        ),
        r is None ==> rel_lookup(rels_view(rels@), id@) is None,
{
    let k = chars_of(id);
    let mut j = rels.len();
    assert(rels_view(rels@).subrange(0, rels.len() as int) =~= rels_view(rels@));
    while j > 0
        invariant
            j <= rels.len(),
            k@ == id@,
            rel_lookup(rels_view(rels@).subrange(0, j as int), id@) == rel_lookup(
                rels_view(rels@),
                id@,
            ),
        decreases j,
    {
        assert(rels_view(rels@).subrange(0, j as int).drop_last() =~= rels_view(rels@).subrange(
            0,
            j - 1,
        ));
        let n = chars_of(rels[j - 1].0.as_str());
        if crate::text::eq_chars(n.as_slice(), k.as_slice()) {
            return Some(&rels[j - 1].1);
        }
        j = j - 1;
    }
    None
}

// ---------------------------------------------------------------------------
// Paths
// ---------------------------------------------------------------------------

/// The `.rels` path of a part: `dir/_rels/name.rels`, or `_rels/name.rels`
/// for a part at the package root.
pub open spec fn rels_path_spec(p: Seq<char>) -> Seq<char> {
    match last_index_of(p, '/') {
        Some(i) => p.subrange(0, i) + "/_rels/"@ + p.subrange(i + 1, p.len() as int) + ".rels"@,
        None => "_rels/"@ + p + ".rels"@,
    }
}

/// The number of leading `../` steps of a target and the rest of it.
pub open spec fn parent_steps(t: Seq<char>) -> (nat, Seq<char>)
    decreases t.len(),
{
    if has_prefix(t, "../"@) && t.len() >= 3 {
        let (k, rest) = parent_steps(t.subrange(3, t.len() as int));
        (k + 1, rest)
    } else {
        (0, t)
    }
}

/// `parts` with its last `k` parts removed (all of them when fewer).
pub open spec fn drop_parts(parts: Seq<Seq<char>>, k: nat) -> Seq<Seq<char>> {
    if k >= parts.len() {
        Seq::empty()
    } else {
        parts.subrange(0, parts.len() - k)
    }
}

/// `parts` joined by `/` and then `/rest`, or just `rest` without parts.
pub open spec fn rejoin(parts: Seq<Seq<char>>, rest: Seq<char>) -> Seq<char> {
    if parts.len() == 0 {
        rest
    } else {
        join_with(parts, "/"@) + "/"@ + rest
    }
}

/// `target` resolved against a base directory: a same-directory target is
/// appended (`dir/target`, or `target` for an empty directory); each leading
/// `../` removes one trailing directory component.
pub open spec fn resolve_dir_spec(base_dir: Seq<char>, target: Seq<char>) -> Seq<char> {
    if !has_prefix(target, "../"@) {
        if base_dir.len() == 0 {
            target
        } else {
            base_dir + "/"@ + target
        }
    } else {
        let (k, rest) = parent_steps(target);
        rejoin(drop_parts(split_on(base_dir, '/'), k), rest)
    }
}

/// `target` resolved against the directory of the part `base_file`: a
/// package-absolute target (`/word/media/a.png`) names the part without its
/// leading slash, and a leading `./` is dropped before resolving.
pub open spec fn resolve_file_spec(base_file: Seq<char>, target: Seq<char>) -> Seq<char> {
    if has_prefix(target, "/"@) {
        target.subrange(1, target.len() as int)
    } else if has_prefix(target, "./"@) {
        resolve_file_rel_spec(base_file, target.subrange(2, target.len() as int))
    } else {
        resolve_file_rel_spec(base_file, target)
    }
}

/// A relative `target` resolved against the directory of the part `base_file`.
pub open spec fn resolve_file_rel_spec(base_file: Seq<char>, target: Seq<char>) -> Seq<char> {
    if !has_prefix(target, "../"@) {
        match last_index_of(base_file, '/') {
            Some(i) => base_file.subrange(0, i) + "/"@ + target,
            None => target,
        }
    } else {
        let (k, rest) = parent_steps(target);
        rejoin(drop_parts(split_on(base_file, '/'), k + 1), rest)
    }
}

/// Derives the `.rels` path for a part, e.g. `ppt/slides/slide1.xml` gives
/// `ppt/slides/_rels/slide1.xml.rels`.
pub fn derive_rels_path(file_path: &str) -> (r: String)
    ensures
        r@ == rels_path_spec(file_path@),
{
    let p = chars_of(file_path);
    let mut out: Vec<char> = Vec::new();
    match crate::text::last_index(p.as_slice(), '/') {
        Some(pos) => {
            let dir = slice_chars(p.as_slice(), 0, pos);
            push_all(&mut out, dir.as_slice());
            crate::text::push_str(&mut out, "/_rels/");
            let name = slice_chars(p.as_slice(), pos + 1, p.len());
            push_all(&mut out, name.as_slice());
            crate::text::push_str(&mut out, ".rels");
        },
        None => {
            crate::text::push_str(&mut out, "_rels/");
            push_all(&mut out, p.as_slice());
            crate::text::push_str(&mut out, ".rels");
        },
    }
    assert(out@ =~= rels_path_spec(file_path@));
    string_from_chars(out.as_slice())
}

/// Counts and strips the leading `../` steps of `t`.
fn strip_parents(t: &[char]) -> (r: (usize, Vec<char>))
    ensures
        (r.0 as nat, r.1@) == parent_steps(t@),
        3 * r.0 <= t.len(),
{
    let mut k: usize = 0;
    let mut start: usize = 0;
    assert(t@.subrange(0, t.len() as int) =~= t@);
    while t.len() >= 3 && start <= t.len() - 3 && t[start] == '.' && t[start + 1] == '.' && t[start + 2] == '/'
        invariant
            start <= t.len(),
            start == 3 * k,
            ({
                let (n, rest) = parent_steps(t@.subrange(start as int, t.len() as int));
                parent_steps(t@) == ((n + k) as nat, rest)
            }),
        decreases t.len() - start,
    {
        proof {
            let cur = t@.subrange(start as int, t.len() as int);
            assert(cur.subrange(0, 3) =~= "../"@) by {
                reveal_strlit("../");
            }
            assert(cur.subrange(3, cur.len() as int) =~= t@.subrange(start + 3, t.len() as int));
        }
        k = k + 1;
        start = start + 3;
    }
    proof {
        let cur = t@.subrange(start as int, t.len() as int);
        if has_prefix(cur, "../"@) && cur.len() >= 3 {
            reveal_strlit("../");
            assert(cur.subrange(0, 3)[0] == '.');
            assert(cur.subrange(0, 3)[1] == '.');
            assert(cur.subrange(0, 3)[2] == '/');
        }
    }
    (k, slice_chars(t, start, t.len()))
}

/// Appends [`rejoin`] of the parts to `out`.
fn push_rejoined(out: &mut Vec<char>, parts: &[Vec<char>], keep: usize, rest: &[char])
    requires
        keep <= parts.len(),
    ensures
        final(out)@ == old(out)@ + rejoin(parts.deep_view().subrange(0, keep as int), rest@),
{
    let kept = crate::text::slice_parts(parts, keep);
    if keep == 0 {
        push_all(out, rest);
        assert(out@ =~= old(out)@ + rejoin(parts.deep_view().subrange(0, keep as int), rest@));
    } else {
        let slash: Vec<char> = vec!['/'];
        assert(slash@ =~= "/"@) by {
            reveal_strlit("/");
        }
        push_joined(out, kept.as_slice(), slash.as_slice());
        out.push('/');
        push_all(out, rest);
        assert(out@ =~= old(out)@ + rejoin(parts.deep_view().subrange(0, keep as int), rest@)) by {
            reveal_strlit("/");
        }
    }
}

/// Resolves a relative `target` against a base directory, e.g. `xl/drawings`
/// and `../media/image1.png` give `xl/media/image1.png`.
pub fn resolve_relative_path(base_dir: &str, target: &str) -> (r: String)
    ensures
        r@ == resolve_dir_spec(base_dir@, target@),
{
    let b = chars_of(base_dir);
    let t = chars_of(target);
    let mut out: Vec<char> = Vec::new();
    if !starts_with_str(t.as_slice(), "../") {
        if b.len() > 0 {
            push_all(&mut out, b.as_slice());
            crate::text::push_str(&mut out, "/");
        }
        push_all(&mut out, t.as_slice());
        assert(out@ =~= resolve_dir_spec(base_dir@, target@));
        return string_from_chars(out.as_slice());
    }
    let (k, rest) = strip_parents(t.as_slice());
    let parts = split_chars(b.as_slice(), '/');
    let keep = if k >= parts.len() {
        0
    } else {
        parts.len() - k
    };
    push_rejoined(&mut out, parts.as_slice(), keep, rest.as_slice());
    proof {
        let ps = split_on(base_dir@, '/');
        if k >= ps.len() {
            assert(ps.subrange(0, 0) =~= drop_parts(ps, k as nat));
        }
    }
    assert(out@ =~= resolve_dir_spec(base_dir@, target@));
    string_from_chars(out.as_slice())
}

/// Resolves a relative `target` against the directory of the part
/// `base_file`, e.g. `ppt/slides/slide1.xml` and `../media/image1.png` give
/// `ppt/media/image1.png`.
pub fn resolve_relative_to_file(base_file: &str, target: &str) -> (r: String)
    ensures
        r@ == resolve_file_spec(base_file@, target@),
{
    let b = chars_of(base_file);
    let whole = chars_of(target);
    proof {
        reveal_strlit("/");
        reveal_strlit("./");
    }
    if starts_with_str(whole.as_slice(), "/") {
        let rest = slice_chars(whole.as_slice(), 1, whole.len());
        return string_from_chars(rest.as_slice());
    }
    let t = if starts_with_str(whole.as_slice(), "./") {
        slice_chars(whole.as_slice(), 2, whole.len())
    } else {
        whole
    };
    let mut out: Vec<char> = Vec::new();
    if !starts_with_str(t.as_slice(), "../") {
        match crate::text::last_index(b.as_slice(), '/') {
            Some(pos) => {
                let dir = slice_chars(b.as_slice(), 0, pos);
                push_all(&mut out, dir.as_slice());
                crate::text::push_str(&mut out, "/");
                push_all(&mut out, t.as_slice());
            },
            None => {
                push_all(&mut out, t.as_slice());
            },
        }
        assert(out@ =~= resolve_file_rel_spec(base_file@, t@));
        return string_from_chars(out.as_slice());
    }
    let (k, rest) = strip_parents(t.as_slice());
    let parts = split_chars(b.as_slice(), '/');
    let drop = k + 1;
    let keep = if drop >= parts.len() {
        0
    } else {
        parts.len() - drop
    };
    push_rejoined(&mut out, parts.as_slice(), keep, rest.as_slice());
    proof {
        let ps = split_on(base_file@, '/');
        if drop >= ps.len() {
            assert(ps.subrange(0, 0) =~= drop_parts(ps, (k + 1) as nat));
        }
    }
    assert(out@ =~= resolve_file_rel_spec(base_file@, t@));
    string_from_chars(out.as_slice())
}

} // verus!
