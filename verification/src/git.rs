//! Git working-tree status: the porcelain status lines that `git status
//! --porcelain=v1` prints, read into changes.
use vstd::prelude::*;

use crate::paths::{join_chars, path_join};
use crate::text::{
    chars_of, lines, lines_of, rfind, rsplit_once_seq, slice, string_from, strip, strip_end,
    strip_start, trim, trim_char,
    trimmed, views, CharClass,
};

verus! {

// ---------------------------------------------------------------------------
// Data
// ---------------------------------------------------------------------------
/// A changed file in the working tree.
#[derive(Debug)]
pub struct GitChange {
    /// The file's path: the repository path joined with the relative path.
    pub path: String,
    pub relative_path: String,
    /// The path before a rename; the relative path otherwise.
    pub original_relative_path: String,
    /// The two status letters, trimmed.
    pub status: String,
}

pub struct ChangeView {
    pub path: Seq<char>,
    pub relative_path: Seq<char>,
    pub original_relative_path: Seq<char>,
    pub status: Seq<char>,
}

impl View for GitChange {
    type V = ChangeView;

    open spec fn view(&self) -> ChangeView {
        ChangeView {
            path: self.path@,
            relative_path: self.relative_path@,
            original_relative_path: self.original_relative_path@,
            status: self.status@,
        }
    }
}

pub open spec fn change_views(cs: Seq<GitChange>) -> Seq<ChangeView> {
    Seq::new(cs.len(), |i: int| cs[i]@)
}

// ---------------------------------------------------------------------------
// UTF-8 lengths
// ---------------------------------------------------------------------------
/// `char::len_utf8`.
pub open spec fn width(c: char) -> int {
    let u = c as u32;
    if u < 0x80 {
        1
    } else if u < 0x800 {
        2
    } else if u < 0x10000 {
        3
    } else {
        4
    }
}

/// The length of `s` in UTF-8 bytes, what `str::len` gives.
pub open spec fn byte_len(s: Seq<char>) -> int
    decreases s.len(),
{
    if s.len() == 0 {
        0
    } else {
        width(s[0]) + byte_len(s.drop_first())
    }
}

/// Byte offset `b` of `s` starts a character (or is the end).
pub open spec fn is_boundary(s: Seq<char>, b: int) -> bool
    decreases s.len(),
{
    if b == 0 {
        true
    } else if s.len() == 0 || b < 0 {
        false
    } else {
        width(s[0]) <= b && is_boundary(s.drop_first(), b - width(s[0]))
    }
}

/// How many characters the first `b` bytes of `s` hold.
pub open spec fn chars_in_bytes(s: Seq<char>, b: int) -> int
    decreases s.len(),
{
    if b <= 0 || s.len() == 0 {
        0
    } else {
        1 + chars_in_bytes(s.drop_first(), b - width(s[0]))
    }
}

// ---------------------------------------------------------------------------
// Status lines
// ---------------------------------------------------------------------------
/// The change that a status line `XY path` (or `XY from -> to`) reports;
/// lines shorter than four bytes report none.
pub open spec fn change_of(line: Seq<char>, repository: Seq<char>) -> Option<ChangeView> {
    if byte_len(line) < 4 {
        None
    } else {
        let status = trim(line.take(chars_in_bytes(line, 2)));
        let rest = line.skip(chars_in_bytes(line, 3));
        let i = rfind(rest, " -> "@);
        let display = trim_char(
            if i >= 0 {
                rest.skip(i + " -> "@.len())
            } else {
                rest
            },
            '"',
        );
        let original = trim_char(
            if i >= 0 {
                rest.take(i)
            } else {
                display
            },
            '"',
        );
        Some(
            ChangeView {
                path: path_join(repository, display),
                relative_path: display,
                original_relative_path: original,
                status,
            },
        )
    }
}

/// The changes that the first `k` lines report.
pub open spec fn changes(ls: Seq<Seq<char>>, repository: Seq<char>, k: int) -> Seq<ChangeView>
    decreases k,
{
    if k <= 0 {
        seq![]
    } else {
        match change_of(ls[k - 1], repository) {
            Some(c) => changes(ls, repository, k - 1).push(c),
            None => changes(ls, repository, k - 1),
        }
    }
}

/// Every status line of four bytes or more can be cut after its second and
/// third byte (status lines start with ASCII status letters and a space).
pub open spec fn status_lines_cut(output: Seq<char>) -> bool {
    forall|j: int|
        0 <= j < lines(output).len() && byte_len(#[trigger] lines(output)[j]) >= 4 ==> is_boundary(
            lines(output)[j],
            2,
        ) && is_boundary(lines(output)[j], 3)
}

// ---------------------------------------------------------------------------
// Executable functions
// ---------------------------------------------------------------------------
fn utf8_width(c: char) -> (r: usize)
    ensures
        r == width(c),
{
    let u = c as u32;
    if u < 0x80 {
        1
    } else if u < 0x800 {
        2
    } else if u < 0x10000 {
        3
    } else {
        4
    }
}

proof fn lemma_skip_next(s: Seq<char>, i: int)
    requires
        0 <= i < s.len(),
    ensures
        s.skip(i).drop_first() == s.skip(i + 1),
        s.skip(i)[0] == s[i],
{
    assert(s.skip(i).drop_first() =~= s.skip(i + 1));
}

/// Whether `v` takes at least four bytes in UTF-8.
fn at_least_four_bytes(v: &Vec<char>) -> (r: bool)
    ensures
        r == (byte_len(v@) >= 4),
{
    let mut bytes: usize = 0;
    let mut i: usize = 0;
    assert(v@.skip(0) =~= v@);
    while i < v.len() && bytes < 4
        invariant
            i <= v.len(),
            bytes <= 7,
            byte_len(v@) == bytes + byte_len(v@.skip(i as int)),
        decreases v.len() - i,
    {
        proof {
            lemma_skip_next(v@, i as int);
        }
        bytes = bytes + utf8_width(v[i]);
        i = i + 1;
    }
    proof {
        if i == v.len() {
            assert(v@.skip(i as int).len() == 0);
        }
        lemma_byte_len_nonneg(v@.skip(i as int));
    }
    bytes >= 4
}

proof fn lemma_byte_len_nonneg(s: Seq<char>)
    ensures
        byte_len(s) >= 0,
    decreases s.len(),
{
    if s.len() > 0 {
        lemma_byte_len_nonneg(s.drop_first());
    }
}

/// The character index where byte offset `b` of `v` falls.
fn char_index(v: &Vec<char>, b: usize) -> (r: usize)
    requires
        is_boundary(v@, b as int),
        b <= 4,
    ensures
        r == chars_in_bytes(v@, b as int),
        r <= v.len(),
{
    let mut bytes: usize = 0;
    let mut i: usize = 0;
    assert(v@.skip(0) =~= v@);
    while bytes < b
        invariant
            i <= v.len(),
            bytes <= b <= 4,
            is_boundary(v@.skip(i as int), b - bytes),
            chars_in_bytes(v@, b as int) == i + chars_in_bytes(v@.skip(i as int), b - bytes),
        decreases b - bytes,
    {
        proof {
            if i == v.len() {
                assert(v@.skip(i as int).len() == 0);
            }
            lemma_skip_next(v@, i as int);
        }
        bytes = bytes + utf8_width(v[i]);
        i = i + 1;
    }
    i
}

fn change_in(line: &Vec<char>, repository: &Vec<char>) -> (r: Option<GitChange>)
    requires
        byte_len(line@) >= 4 ==> is_boundary(line@, 2) && is_boundary(line@, 3),
    ensures
        match r {
            Some(c) => change_of(line@, repository@) == Some(c@),
            None => change_of(line@, repository@) is None,
        },
{
    if !at_least_four_bytes(line) {
        return None;
    }
    let two = char_index(line, 2);
    let three = char_index(line, 3);
    let status = trimmed(&slice(line, 0, two));
    let rest = slice(line, three, line.len());
    assert(line@.subrange(0, two as int) =~= line@.take(two as int));
    assert(rest@ =~= line@.skip(three as int));
    let arrow = chars_of(" -> ");
    let quote = CharClass::Only('"');
    let (display, original) = match rsplit_once_seq(&rest, &arrow) {
        Some((source, destination)) => {
            let display = strip(&destination, quote, true, true);
            let original = strip(&source, quote, true, true);
            (display, original)
        },
        None => {
            let display = strip(&rest, quote, true, true);
            let original = strip(&display, quote, true, true);
            (display, original)
        },
    };
    Some(
        GitChange {
            path: string_from(&join_chars(repository, &display)),
            relative_path: string_from(&display),
            original_relative_path: string_from(&original),
            status: string_from(&status),
        },
    )
}

/// The changes that `git status --porcelain=v1` output reports, with paths
/// joined to `repository_path`; lines shorter than four bytes are skipped.
pub fn parse_git_changes(output: &str, repository_path: &str) -> (r: Vec<GitChange>)
    requires
        status_lines_cut(output@),
    ensures
        change_views(r@) == changes(lines(output@), repository_path@, lines(output@).len() as int),
{
    let ls = lines_of(&chars_of(output));
    let repository = chars_of(repository_path);
    let ghost lsv = lines(output@);
    let mut r: Vec<GitChange> = Vec::new();
    let mut j: usize = 0;
    while j < ls.len()
        invariant
            j <= ls.len(),
            views(ls@) == lsv,
            lsv == lines(output@),
            repository@ == repository_path@,
            status_lines_cut(output@),
            change_views(r@) == changes(lsv, repository@, j as int),
        decreases ls.len() - j,
    {
        assert(lsv[j as int] == ls@[j as int]@);
        let ghost before = change_views(r@);
        match change_in(&ls[j], &repository) {
            Some(c) => {
                let ghost cv = c@;
                r.push(c);
                assert(change_views(r@) =~= before.push(cv));
            },
            None => {},
        }
        j = j + 1;
    }
    r
}

/// Whether byte offset `b` of `v` starts a character (or is the end).
fn boundary_at(v: &Vec<char>, b: usize) -> (r: bool)
    requires
        b <= 4,
    ensures
        r == is_boundary(v@, b as int),
{
    let mut bytes: usize = 0;
    let mut i: usize = 0;
    assert(v@.skip(0) =~= v@);
    while bytes < b
        invariant
            i <= v.len(),
            bytes <= b <= 4,
            is_boundary(v@, b as int) == is_boundary(v@.skip(i as int), b - bytes),
        decreases b - bytes,
    {
        if i == v.len() {
            assert(v@.skip(i as int).len() == 0);
            return false;
        }
        proof {
            lemma_skip_next(v@, i as int);
        }
        let w = utf8_width(v[i]);
        if w > b - bytes {
            return false;
        }
        bytes = bytes + w;
        i = i + 1;
    }
    true
}

/// Whether every status line can be cut where `parse_git_changes` cuts it:
/// the condition of `parse_git_changes`.
pub fn status_lines_cut_check(output: &str) -> (r: bool)
    ensures
        r == status_lines_cut(output@),
{
    let ls = lines_of(&chars_of(output));
    let ghost lsv = lines(output@);
    let mut j: usize = 0;
    while j < ls.len()
        invariant
            j <= ls.len(),
            views(ls@) == lsv,
            lsv == lines(output@),
            forall|x: int|
                0 <= x < j && byte_len(#[trigger] lsv[x]) >= 4 ==> is_boundary(lsv[x], 2)
                    && is_boundary(lsv[x], 3),
        decreases ls.len() - j,
    {
        assert(lsv[j as int] == ls@[j as int]@);
        if at_least_four_bytes(&ls[j]) {
            if !boundary_at(&ls[j], 2) || !boundary_at(&ls[j], 3) {
                return false;
            }
        }
        j = j + 1;
    }
    true
}

// ---------------------------------------------------------------------------
// Laws
// ---------------------------------------------------------------------------
/// A plain status line, `XY path` with ASCII status letters and a path
/// without an arrow or quotes at its ends, reports that path unchanged, from
/// its first character on.
pub proof fn law_status_keeps_path(x: char, y: char, p: Seq<char>, repository: Seq<char>)
    requires
        (x as u32) < 0x80,
        (y as u32) < 0x80,
        p.len() > 0,
        !crate::text::contains(p, " -> "@),
        p[0] != '"',
        p.last() != '"',
    ensures
        ({
            let line = seq![x, y, ' '] + p;
            &&& change_of(line, repository) is Some
            &&& change_of(line, repository)->Some_0.relative_path == p
            &&& change_of(line, repository)->Some_0.original_relative_path == p
            &&& change_of(line, repository)->Some_0.path == path_join(repository, p)
            &&& change_of(line, repository)->Some_0.status == trim(seq![x, y])
        }),
{
    let line = seq![x, y, ' '] + p;
    lemma_byte_len_nonneg(p.drop_first());
    assert(line.drop_first() =~= seq![y, ' '] + p);
    assert(line.drop_first().drop_first() =~= seq![' '] + p);
    assert(line.drop_first().drop_first().drop_first() =~= p);
    let l1 = line.drop_first();
    let l2 = l1.drop_first();
    assert(width(' ') == 1);
    assert(width(x) == 1);
    assert(width(y) == 1);
    assert(byte_len(p) == width(p[0]) + byte_len(p.drop_first()));
    assert(byte_len(p) >= 1);
    assert(byte_len(l2) == 1 + byte_len(p));
    assert(byte_len(l1) == 1 + byte_len(l2));
    assert(byte_len(line) == 1 + byte_len(l1));
    assert(byte_len(line) >= 4);
    assert(chars_in_bytes(p, 0) == 0);
    assert(chars_in_bytes(line.drop_first().drop_first(), 0) == 0);
    assert(chars_in_bytes(line.drop_first(), 1) == 1);
    assert(chars_in_bytes(line, 2) == 2);
    assert(chars_in_bytes(line.drop_first().drop_first(), 1) == 1);
    assert(chars_in_bytes(line.drop_first(), 2) == 2);
    assert(chars_in_bytes(line, 3) == 3);
    assert(line.take(2) =~= seq![x, y]);
    assert(line.skip(3) =~= p);
    crate::text::lemma_find(p, " -> "@);
    crate::text::lemma_rfind(p, " -> "@);
    if rfind(p, " -> "@) >= 0 {
        assert(crate::text::matches_at(p, " -> "@, rfind(p, " -> "@)));
    }
    assert(rfind(p, " -> "@) < 0);
    assert(strip_start(p, CharClass::Only('"')) == p);
    assert(strip_end(p, CharClass::Only('"')) == p);
    assert(trim_char(p, '"') == p);
}

} // verus!
