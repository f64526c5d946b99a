//! Path strings under the Unix convention of `std::path`: components, file
//! names, joining, equality by components, and the workspace path rules
//! built on them.
use vstd::prelude::*;

use crate::text::{
    chars_of, ends_with, has_suffix, lemma_find_char_is, push_all, replace_char, replaced, same, slice,
    split_char, string_from, views,
};

verus! {

// ---------------------------------------------------------------------------
// Specifications
// ---------------------------------------------------------------------------
/// The pieces of a path between separators that name something: not empty
/// and not `.`.
pub open spec fn named_parts(parts: Seq<Seq<char>>) -> Seq<Seq<char>>
    decreases parts.len(),
{
    if parts.len() == 0 {
        seq![]
    } else {
        let rest = named_parts(parts.drop_last());
        let x = parts.last();
        if x.len() == 0 || x == seq!['.'] {
            rest
        } else {
            rest.push(x)
        }
    }
}

/// `Path::components`: a root (written `/`) or a leading current directory
/// (written `.`), then the named parts.
pub open spec fn components(s: Seq<char>) -> Seq<Seq<char>> {
    let lead = if s.len() > 0 && s[0] == '/' {
        seq![seq!['/']]
    } else if s.len() > 0 && s[0] == '.' && (s.len() == 1 || s[1] == '/') {
        seq![seq!['.']]
    } else {
        seq![]
    };
    lead + named_parts(split_char(s, '/'))
}

/// A component that is a file or directory name.
pub open spec fn is_normal(c: Seq<char>) -> bool {
    c != seq!['/'] && c != seq!['.'] && c != seq!['.', '.']
}

/// `Path::file_name`: the last component when it is a name.
pub open spec fn file_name(s: Seq<char>) -> Option<Seq<char>> {
    let c = components(s);
    if c.len() > 0 && is_normal(c.last()) {
        Some(c.last())
    } else {
        None
    }
}

/// `Path == Path`: the same components.
pub open spec fn path_eq(a: Seq<char>, b: Seq<char>) -> bool {
    components(a) == components(b)
}

/// `Path::is_absolute`.
pub open spec fn is_absolute(s: Seq<char>) -> bool {
    s.len() > 0 && s[0] == '/'
}

/// `Path::join`: an absolute `p` replaces `base`; otherwise a separator is put
/// between them unless `base` is empty or already ends with one.
pub open spec fn path_join(base: Seq<char>, p: Seq<char>) -> Seq<char> {
    if is_absolute(p) {
        p
    } else if base.len() == 0 || base.last() == '/' {
        base + p
    } else {
        base + seq!['/'] + p
    }
}

/// A name that `is_hidden` treats as hidden: its file name starts with a dot.
pub open spec fn hidden(s: Seq<char>) -> bool {
    match file_name(s) {
        Some(n) => n.len() > 0 && n[0] == '.',
        None => false,
    }
}

/// The paths of `ps`, each kept only where no earlier path is equal to it.
pub open spec fn dedupe(ps: Seq<Seq<char>>) -> Seq<Seq<char>>
    decreases ps.len(),
{
    if ps.len() == 0 {
        seq![]
    } else {
        let d = dedupe(ps.drop_last());
        if exists|i: int| 0 <= i < d.len() && path_eq(#[trigger] d[i], ps.last()) {
            d
        } else {
            d.push(ps.last())
        }
    }
}

/// Whether a descriptor file name stands for the file at `file_path`, with
/// backslashes read as slashes: equal names, a suffix, or the same file name.
pub open spec fn descriptor_matches(descriptor: Seq<char>, file: Seq<char>) -> bool {
    let d = replace_char(descriptor, '\\', '/');
    let f = replace_char(file, '\\', '/');
    d == f || ends_with(f, d) || file_name(d) == file_name(f)
}

/// A path inside the repository: relative and without a `..` component.
pub open spec fn inside_repository(s: Seq<char>) -> bool {
    !is_absolute(s) && !components(s).contains(seq!['.', '.'])
}

// ---------------------------------------------------------------------------
// Executable functions
// ---------------------------------------------------------------------------
/// `str::split(sep)` on characters.
pub fn split_on(v: &Vec<char>, sep: char) -> (r: Vec<Vec<char>>)
    ensures
        views(r@) == split_char(v@, sep),
{
    let mut r: Vec<Vec<char>> = Vec::new();
    let mut pos: usize = 0;
    let ghost mut done: Seq<Seq<char>> = seq![];
    assert(v@.skip(0) =~= v@);
    assert(views(r@) =~= done);
    loop
        invariant
            pos <= v.len(),
            views(r@) == done,
            split_char(v@, sep) == done + split_char(v@.skip(pos as int), sep),
        decreases v.len() - pos,
    {
        let ghost rest = v@.skip(pos as int);
        let mut j = pos;
        while j < v.len() && v[j] != sep
            invariant
                pos <= j <= v.len(),
                forall|k: int| pos <= k < j ==> v@[k] != sep,
            decreases v.len() - j,
        {
            j = j + 1;
        }
        let piece = slice(v, pos, j);
        if j == v.len() {
            proof {
                lemma_find_char_is(rest, sep, -1);
                assert(rest =~= piece@);
                done = done.push(piece@);
                assert(split_char(v@, sep) =~= done);
            }
            r.push(piece);
            assert(views(r@) =~= done);
            return r;
        }
        proof {
            lemma_find_char_is(rest, sep, j - pos);
            assert(rest.skip(j - pos + 1) =~= v@.skip(j + 1));
            assert(rest.take(j - pos) =~= piece@);
            done = done.push(piece@);
            assert(split_char(v@, sep) =~= done + split_char(v@.skip(j + 1), sep));
        }
        r.push(piece);
        assert(views(r@) =~= done);
        pos = j + 1;
    }
}

/// The components of a path.
pub fn components_of(v: &Vec<char>) -> (r: Vec<Vec<char>>)
    ensures
        views(r@) == components(v@),
{
    let parts = split_on(v, '/');
    let ghost ps = split_char(v@, '/');
    let mut r: Vec<Vec<char>> = Vec::new();
    let ghost mut lead: Seq<Seq<char>> = seq![];
    if v.len() > 0 && v[0] == '/' {
        let root = vec!['/'];
        assert(root@ =~= seq!['/']);
        r.push(root);
        proof {
            lead = seq![seq!['/']];
        }
    } else if v.len() > 0 && v[0] == '.' && (v.len() == 1 || v[1] == '/') {
        let dot = vec!['.'];
        assert(dot@ =~= seq!['.']);
        r.push(dot);
        proof {
            lead = seq![seq!['.']];
        }
    }
    assert(views(r@) =~= lead);
    assert(ps.take(0) =~= seq![]);
    assert(lead + named_parts(ps.take(0)) =~= lead);
    let mut i: usize = 0;
    while i < parts.len()
        invariant
            i <= parts.len(),
            views(parts@) == ps,
            ps == split_char(v@, '/'),
            lead == (if v@.len() > 0 && v@[0] == '/' {
                seq![seq!['/']]
            } else if v@.len() > 0 && v@[0] == '.' && (v@.len() == 1 || v@[1] == '/') {
                seq![seq!['.']]
            } else {
                seq![]
            }),
            views(r@) == lead + named_parts(ps.take(i as int)),
        decreases parts.len() - i,
    {
        let ghost before = lead + named_parts(ps.take(i as int));
        proof {
            assert(ps.take(i + 1).drop_last() =~= ps.take(i as int));
            assert(ps.take(i + 1).last() == ps[i as int]);
            assert(parts@[i as int]@ == ps[i as int]);
        }
        let p = &parts[i];
        let dot = vec!['.'];
        assert(dot@ =~= seq!['.']);
        if p.len() == 0 || same(p, &dot) {
            proof {
                assert(lead + named_parts(ps.take(i + 1)) =~= before);
            }
        } else {
            let q = slice(p, 0, p.len());
            proof {
                assert(p@.subrange(0, p@.len() as int) =~= p@);
                assert(lead + named_parts(ps.take(i + 1)) =~= before.push(p@));
            }
            r.push(q);
            assert(views(r@) =~= before.push(p@));
        }
        i = i + 1;
    }
    proof {
        assert(ps.take(parts.len() as int) =~= ps);
    }
    r
}

/// Component lists equal.
fn same_parts(a: &Vec<Vec<char>>, b: &Vec<Vec<char>>) -> (r: bool)
    ensures
        r == (views(a@) == views(b@)),
{
    if a.len() != b.len() {
        proof {
            assert(views(a@).len() != views(b@).len());
        }
        return false;
    }
    let mut i: usize = 0;
    while i < a.len()
        invariant
            a.len() == b.len(),
            i <= a.len(),
            forall|j: int| 0 <= j < i ==> a@[j]@ == b@[j]@,
        decreases a.len() - i,
    {
        if !same(&a[i], &b[i]) {
            proof {
                assert(views(a@)[i as int] != views(b@)[i as int]);
            }
            return false;
        }
        i = i + 1;
    }
    assert(views(a@) =~= views(b@));
    true
}

/// Whether two paths have the same components.
pub fn paths_equal(a: &Vec<char>, b: &Vec<char>) -> (r: bool)
    ensures
        r == path_eq(a@, b@),
{
    let ca = components_of(a);
    let cb = components_of(b);
    same_parts(&ca, &cb)
}

/// The file name of a path.
pub fn file_name_of(v: &Vec<char>) -> (r: Option<Vec<char>>)
    ensures
        match r {
            Some(n) => file_name(v@) == Some(n@),
            None => file_name(v@) is None,
        },
{
    let c = components_of(v);
    if c.len() == 0 {
        return None;
    }
    let last = &c[c.len() - 1];
    assert(views(c@).last() == last@);
    let root = vec!['/'];
    let dot = vec!['.'];
    let dots = vec!['.', '.'];
    assert(root@ =~= seq!['/']);
    assert(dot@ =~= seq!['.']);
    assert(dots@ =~= seq!['.', '.']);
    if same(last, &root) || same(last, &dot) || same(last, &dots) {
        return None;
    }
    let n = slice(last, 0, last.len());
    assert(n@ =~= last@);
    Some(n)
}

/// `path_join` on characters.
pub fn join_chars(base: &Vec<char>, p: &Vec<char>) -> (r: Vec<char>)
    ensures
        r@ == path_join(base@, p@),
{
    if p.len() > 0 && p[0] == '/' {
        return slice(p, 0, p.len());
    }
    let mut r = slice(base, 0, base.len());
    if !(base.len() == 0 || base[base.len() - 1] == '/') {
        r.push('/');
    }
    push_all(&mut r, p);
    r
}

/// `Path::new(base).join(p)`, as text.
pub fn join_path(base: &str, p: &str) -> (r: String)
    ensures
        r@ == path_join(base@, p@),
{
    string_from(&join_chars(&chars_of(base), &chars_of(p)))
}

/// Whether the entry at `path` is hidden: its file name starts with a dot.
pub fn is_hidden(path: &str) -> (r: bool)
    ensures
        r == hidden(path@),
{
    match file_name_of(&chars_of(path)) {
        Some(n) => n.len() > 0 && n[0] == '.',
        None => false,
    }
}

/// The paths in their order, each without the later paths equal to it.
pub fn dedupe_paths(paths: Vec<String>) -> (r: Vec<String>)
    ensures
        r.deep_view() == dedupe(paths.deep_view()),
{
    let mut result: Vec<String> = Vec::new();
    let mut seen: Vec<Vec<char>> = Vec::new();
    let mut i: usize = 0;
    while i < paths.len()
        invariant
            i <= paths.len(),
            result.deep_view() == dedupe(paths.deep_view().take(i as int)),
            views(seen@) == result.deep_view(),
        decreases paths.len() - i,
    {
        let ghost ps = paths.deep_view().take(i + 1);
        proof {
            assert(ps.drop_last() =~= paths.deep_view().take(i as int));
            assert(ps.last() == paths@[i as int]@);
        }
        let p = chars_of(paths[i].as_str());
        let mut found = false;
        let mut k: usize = 0;
        while k < seen.len()
            invariant
                k <= seen.len(),
                found == exists|j: int| 0 <= j < k && path_eq(#[trigger] views(seen@)[j], p@),
            decreases seen.len() - k,
        {
            proof {
                assert(views(seen@)[k as int] == seen@[k as int]@);
            }
            if paths_equal(&seen[k], &p) {
                found = true;
            }
            proof {
                if !found {
                    assert forall|j: int| 0 <= j < k + 1 implies !path_eq(
                        #[trigger] views(seen@)[j],
                        p@,
                    ) by {
                        if j == k {
                            assert(views(seen@)[k as int] == seen@[k as int]@);
                        }
                    }
                }
            }
            k = k + 1;
        }
        if !found {
            let kept = slice(&p, 0, p.len());
            proof {
                assert(p@.subrange(0, p@.len() as int) =~= p@);
            }
            seen.push(kept);
            result.push(string_from(&p));
            proof {
                assert(result.deep_view() =~= dedupe(ps));
                assert(views(seen@) =~= result.deep_view());
            }
        } else {
            proof {
                assert(result.deep_view() =~= dedupe(ps));
            }
        }
        i = i + 1;
    }
    proof {
        assert(paths.deep_view().take(paths.len() as int) =~= paths.deep_view());
    }
    result
}

/// Whether a descriptor's file name stands for the file at `file_path`.
pub fn descriptor_file_matches(descriptor_name: &str, file_path: &str) -> (r: bool)
    ensures
        r == descriptor_matches(descriptor_name@, file_path@),
{
    let d = replaced(&chars_of(descriptor_name), '\\', '/');
    let f = replaced(&chars_of(file_path), '\\', '/');
    if same(&d, &f) || has_suffix(&f, &d) {
        return true;
    }
    let nd = file_name_of(&d);
    let nf = file_name_of(&f);
    match (nd, nf) {
        (Some(a), Some(b)) => same(&a, &b),
        (None, None) => true,
        _ => false,
    }
}

/// Whether `path` stays inside the repository: it is relative and has no
/// `..` component.
pub fn is_inside_repository(path: &str) -> (r: bool)
    ensures
        r == inside_repository(path@),
{
    let v = chars_of(path);
    if v.len() > 0 && v[0] == '/' {
        return false;
    }
    let c = components_of(&v);
    let dots = vec!['.', '.'];
    assert(dots@ =~= seq!['.', '.']);
    let mut i: usize = 0;
    while i < c.len()
        invariant
            i <= c.len(),
            views(c@) == components(v@),
            v@ == path@,
            dots@ == seq!['.', '.'],
            forall|k: int| 0 <= k < i ==> components(v@)[k] != seq!['.', '.'],
        decreases c.len() - i,
    {
        proof {
            assert(views(c@)[i as int] == c@[i as int]@);
        }
        if same(&c[i], &dots) {
            proof {
                assert(views(c@)[i as int] == c@[i as int]@);
                assert(components(v@)[i as int] == seq!['.', '.']);
                assert(components(v@).contains(seq!['.', '.']));
            }
            return false;
        }
        i = i + 1;
    }
    proof {
        if components(v@).contains(seq!['.', '.']) {
            let k = choose|k: int| 0 <= k < components(v@).len() && components(v@)[k] == seq!['.', '.'];
            assert(components(v@)[k] == seq!['.', '.']);
        }
    }
    true
}

// ---------------------------------------------------------------------------
// Parents, through std::path
// ---------------------------------------------------------------------------
pub open spec fn opt_view(o: Option<String>) -> Option<Seq<char>> {
    match o {
        Some(s) => Some(s@),
        None => None,
    }
}

/// What `std::path::Path::parent` gives for a path.
pub uninterp spec fn path_parent(path: Seq<char>) -> Option<Seq<char>>;

/// `std::path::Path::parent`: the path without its final component. As its
/// documentation says, there is none when the path is empty or ends in the
/// root. Which text the parent has is left to the name `path_parent`.
#[verifier::external_body]
pub(crate) fn parent_of(path: &str) -> (r: Option<String>)
    ensures
        opt_view(r) == path_parent(path@),
        r is None <==> (components(path@).len() == 0 || components(path@).last() == seq!['/']),
{
    match std::path::Path::new(path).parent() {
        Some(p) => Some(p.to_string_lossy().into_owned()),
        None => None,
    }
}

/// The include paths a descriptor is compiled with: the given ones that
/// exist, then the file's directory, each kept once.
pub open spec fn include_dirs(paths: Seq<Seq<char>>, exists: Seq<bool>, file_path: Seq<char>) -> Seq<
    Seq<char>,
> {
    let kept = existing(paths, exists, paths.len() as int);
    let all = match path_parent(file_path) {
        Some(p) => kept.push(p),
        None => kept,
    };
    dedupe(all)
}

/// The first `k` paths that exist.
pub open spec fn existing(paths: Seq<Seq<char>>, exists: Seq<bool>, k: int) -> Seq<Seq<char>>
    decreases k,
{
    if k <= 0 {
        seq![]
    } else if exists[k - 1] {
        existing(paths, exists, k - 1).push(paths[k - 1])
    } else {
        existing(paths, exists, k - 1)
    }
}

/// The include paths to compile `file_path` with, from the given include
/// paths and which of them exist.
pub fn descriptor_includes(include_paths: &Vec<String>, exists: &Vec<bool>, file_path: &str) -> (r:
    Vec<String>)
    requires
        exists@.len() == include_paths@.len(),
    ensures
        r.deep_view() == include_dirs(include_paths.deep_view(), exists@, file_path@),
{
    let ghost ps = include_paths.deep_view();
    let mut kept: Vec<String> = Vec::new();
    let mut i: usize = 0;
    while i < include_paths.len()
        invariant
            i <= include_paths@.len(),
            exists@.len() == include_paths@.len(),
            ps == include_paths.deep_view(),
            kept.deep_view() == existing(ps, exists@, i as int),
        decreases include_paths@.len() - i,
    {
        if exists[i] {
            let ghost before = kept.deep_view();
            kept.push(include_paths[i].clone());
            assert(kept.deep_view() =~= before.push(ps[i as int]));
        }
        i = i + 1;
    }
    match parent_of(file_path) {
        Some(p) => {
            let ghost before = kept.deep_view();
            kept.push(p);
            assert(kept.deep_view() =~= before.push(path_parent(file_path@)->Some_0));
        },
        None => {},
    }
    dedupe_paths(kept)
}

// ---------------------------------------------------------------------------
// Laws
// ---------------------------------------------------------------------------
/// No two paths of `s` are equal.
pub open spec fn distinct_paths(s: Seq<Seq<char>>) -> bool {
    forall|i: int, j: int| 0 <= i < j < s.len() ==> !path_eq(#[trigger] s[i], #[trigger] s[j])
}

/// Deduplicated paths hold no two equal paths.
pub proof fn law_dedupe_distinct(ps: Seq<Seq<char>>)
    ensures
        distinct_paths(dedupe(ps)),
    decreases ps.len(),
{
    if ps.len() > 0 {
        law_dedupe_distinct(ps.drop_last());
    }
}

/// Every path is equal to a kept one, and every kept path is one of the
/// paths: deduplication loses no path and adds none.
pub proof fn law_dedupe_covers(ps: Seq<Seq<char>>)
    ensures
        forall|i: int|
            0 <= i < ps.len() ==> exists|j: int|
                0 <= j < dedupe(ps).len() && path_eq(#[trigger] dedupe(ps)[j], #[trigger] ps[i]),
        forall|j: int| 0 <= j < dedupe(ps).len() ==> ps.contains(#[trigger] dedupe(ps)[j]),
    decreases ps.len(),
{
    if ps.len() > 0 {
        let rest = ps.drop_last();
        law_dedupe_covers(rest);
        let d = dedupe(rest);
        assert forall|i: int| 0 <= i < ps.len() implies exists|j: int|
            0 <= j < dedupe(ps).len() && path_eq(#[trigger] dedupe(ps)[j], #[trigger] ps[i]) by {
            if i < ps.len() - 1 {
                assert(ps[i] == rest[i]);
                let j = choose|j: int| 0 <= j < d.len() && path_eq(#[trigger] d[j], #[trigger] rest[i]);
                assert(dedupe(ps)[j] == d[j]);
            } else if exists|k: int| 0 <= k < d.len() && path_eq(#[trigger] d[k], ps.last()) {
                let k = choose|k: int| 0 <= k < d.len() && path_eq(#[trigger] d[k], ps.last());
                assert(dedupe(ps)[k] == d[k]);
            } else {
                assert(dedupe(ps)[d.len() as int] == ps[i]);
            }
        }
        assert forall|j: int| 0 <= j < dedupe(ps).len() implies ps.contains(#[trigger] dedupe(ps)[j]) by {
            if j < d.len() {
                assert(rest.contains(d[j]));
                let k = choose|k: int| 0 <= k < rest.len() && rest[k] == d[j];
                assert(ps[k] == rest[k]);
            } else {
                assert(ps[ps.len() - 1] == dedupe(ps)[j]);
            }
        }
    }
}

/// Paths that hold no two equal paths are their own deduplication.
pub proof fn lemma_dedupe_of_distinct(s: Seq<Seq<char>>)
    requires
        distinct_paths(s),
    ensures
        dedupe(s) == s,
    decreases s.len(),
{
    if s.len() > 0 {
        let rest = s.drop_last();
        assert(distinct_paths(rest)) by {
            assert forall|i: int, j: int| 0 <= i < j < rest.len() implies !path_eq(
                #[trigger] rest[i],
                #[trigger] rest[j],
            ) by {
                assert(rest[i] == s[i] && rest[j] == s[j]);
            }
        }
        lemma_dedupe_of_distinct(rest);
        assert(!exists|i: int| 0 <= i < rest.len() && path_eq(#[trigger] rest[i], s.last())) by {
            if exists|i: int| 0 <= i < rest.len() && path_eq(#[trigger] rest[i], s.last()) {
                let i = choose|i: int| 0 <= i < rest.len() && path_eq(#[trigger] rest[i], s.last());
                assert(s[i] == rest[i]);
                assert(!path_eq(s[i], s[s.len() - 1]));
            }
        }
        assert(rest.push(s.last()) =~= s);
    }
}

/// Deduplicating twice is deduplicating once.
pub proof fn law_dedupe_idempotent(ps: Seq<Seq<char>>)
    ensures
        dedupe(dedupe(ps)) == dedupe(ps),
{
    law_dedupe_distinct(ps);
    lemma_dedupe_of_distinct(dedupe(ps));
}

/// A descriptor file name matches the file it names.
pub proof fn law_descriptor_matches_itself(path: Seq<char>)
    ensures
        descriptor_matches(path, path),
{
}

} // verus!
