//! Pieces of `.proto` source text: the block of one declaration with the
//! comment lines above it, all blocks of one kind, and the imported files.
use vstd::prelude::*;

use crate::proto::{count_braces, count_fits, delta, in_i32, lemma_delta_step};
use crate::text::{
    chars_of, contains, find_char, has_char, has_prefix, join, join_with, lines, lines_of,
    push_all, slice, split_once_char, starts_with, string_from, trim, trim_start, trimmed,
    trimmed_start, views,
};

verus! {

// ---------------------------------------------------------------------------
// Specifications
// ---------------------------------------------------------------------------
/// A line comment, after leading whitespace.
pub open spec fn is_comment(line: Seq<char>) -> bool {
    starts_with(trim_start(line), "//"@)
}

/// The first line of the comment lines right above line `start`.
pub open spec fn block_first(ls: Seq<Seq<char>>, start: int) -> int
    decreases start,
{
    if start > 0 && is_comment(ls[start - 1]) {
        block_first(ls, start - 1)
    } else {
        start
    }
}

/// A line ends the block when it closed every brace it or an earlier line
/// opened, or, before any brace opened, when it holds a `;`.
pub open spec fn ends_block(line: Seq<char>, depth: int, opened: bool) -> bool {
    let d = depth + delta(line);
    let o = opened || line.contains('{');
    (o && d <= 0) || (!o && line.contains(';'))
}

/// The last line of the block, scanning from line `i` with `depth` braces
/// open; the last line of the text if nothing ends the block.
pub open spec fn block_end(ls: Seq<Seq<char>>, i: int, depth: int, opened: bool) -> int
    decreases ls.len() - i,
{
    if i < 0 || i + 1 >= ls.len() || ends_block(ls[i], depth, opened) {
        i
    } else {
        block_end(ls, i + 1, depth + delta(ls[i]), opened || ls[i].contains('{'))
    }
}

/// The brace counter of the scan from line `i` stays within `i32`.
pub open spec fn block_fits(ls: Seq<Seq<char>>, i: int, depth: int, opened: bool) -> bool
    decreases ls.len() - i,
{
    if i < 0 || i >= ls.len() {
        true
    } else {
        &&& count_fits(depth, ls[i])
        &&& (i + 1 >= ls.len() || ends_block(ls[i], depth, opened) || block_fits(
            ls,
            i + 1,
            depth + delta(ls[i]),
            opened || ls[i].contains('{'),
        ))
    }
}

/// The block of the declaration at line `start`: the comment lines above
/// it, through the line that ends it, joined with newlines.
pub open spec fn block(ls: Seq<Seq<char>>, start: int) -> Seq<char> {
    join(ls.subrange(block_first(ls, start), block_end(ls, start, 0, false) + 1), seq!['\n'])
}

/// The first line at or after `i` that contains `needle`, or -1.
pub open spec fn first_line_with(ls: Seq<Seq<char>>, needle: Seq<char>, i: int) -> int
    decreases ls.len() - i,
{
    if i < 0 || i >= ls.len() {
        -1
    } else if contains(ls[i], needle) {
        i
    } else {
        first_line_with(ls, needle, i + 1)
    }
}

/// The source of the rpc `method_name`: the block of the first line that
/// contains `rpc <method_name>`, or nothing.
pub open spec fn rpc_source(source: Seq<char>, method_name: Seq<char>) -> Seq<char> {
    let ls = lines(source);
    let j = first_line_with(ls, "rpc "@ + method_name, 0);
    if j < 0 {
        seq![]
    } else {
        block(ls, j)
    }
}

/// A line that declares a `keyword`.
pub open spec fn declares(line: Seq<char>, keyword: Seq<char>) -> bool {
    starts_with(trim_start(line), keyword + seq![' '])
}

/// The blocks of the `keyword` declarations among the first `k` lines.
pub open spec fn named_blocks(ls: Seq<Seq<char>>, keyword: Seq<char>, k: int) -> Seq<Seq<char>>
    decreases k,
{
    if k <= 0 {
        seq![]
    } else {
        let before = named_blocks(ls, keyword, k - 1);
        if declares(ls[k - 1], keyword) {
            before.push(block(ls, k - 1))
        } else {
            before
        }
    }
}

/// Every block of a `keyword` declaration, separated by empty lines.
pub open spec fn all_named_blocks(source: Seq<char>, keyword: Seq<char>) -> Seq<char> {
    let ls = lines(source);
    join(named_blocks(ls, keyword, ls.len() as int), seq!['\n', '\n'])
}

/// The scan of every `keyword` block stays within `i32`.
pub open spec fn named_blocks_fit(source: Seq<char>, keyword: Seq<char>) -> bool {
    let ls = lines(source);
    forall|j: int| 0 <= j < ls.len() && #[trigger] declares(ls[j], keyword) ==> block_fits(ls, j, 0, false)
}

/// The scan of the rpc block stays within `i32`.
pub open spec fn rpc_source_fits(source: Seq<char>, method_name: Seq<char>) -> bool {
    let ls = lines(source);
    let j = first_line_with(ls, "rpc "@ + method_name, 0);
    j >= 0 ==> block_fits(ls, j, 0, false)
}

/// The file that an `import "..."` line names.
pub open spec fn import_of(line: Seq<char>) -> Option<Seq<char>> {
    let t = trim(line);
    if !starts_with(t, "import "@) {
        None
    } else {
        let a = find_char(t, '"');
        if a < 0 {
            None
        } else {
            let b = find_char(t.skip(a + 1), '"');
            if b < 0 {
                None
            } else {
                Some(t.subrange(a + 1, a + 1 + b))
            }
        }
    }
}

/// The imported files named among the first `k` lines.
pub open spec fn imports(ls: Seq<Seq<char>>, k: int) -> Seq<Seq<char>>
    decreases k,
{
    if k <= 0 {
        seq![]
    } else {
        match import_of(ls[k - 1]) {
            Some(p) => imports(ls, k - 1).push(p),
            None => imports(ls, k - 1),
        }
    }
}

pub proof fn lemma_block_end_bounds(ls: Seq<Seq<char>>, i: int, depth: int, opened: bool)
    requires
        0 <= i < ls.len(),
    ensures
        i <= block_end(ls, i, depth, opened) < ls.len(),
    decreases ls.len() - i,
{
    if !(i + 1 >= ls.len() || ends_block(ls[i], depth, opened)) {
        lemma_block_end_bounds(ls, i + 1, depth + delta(ls[i]), opened || ls[i].contains('{'));
    }
}

pub proof fn lemma_block_first_bounds(ls: Seq<Seq<char>>, start: int)
    requires
        0 <= start,
    ensures
        0 <= block_first(ls, start) <= start,
    decreases start,
{
    if start > 0 && is_comment(ls[start - 1]) {
        lemma_block_first_bounds(ls, start - 1);
    }
}

// ---------------------------------------------------------------------------
// Executable functions
// ---------------------------------------------------------------------------
fn comment_line(line: &Vec<char>) -> (r: bool)
    ensures
        r == is_comment(line@),
{
    has_prefix(&trimmed_start(line), &chars_of("//"))
}

/// The block of the declaration at line `start` of `ls`.
fn block_of(ls: &Vec<Vec<char>>, start: usize) -> (r: Vec<char>)
    requires
        start < ls.len(),
        block_fits(views(ls@), start as int, 0, false),
    ensures
        r@ == block(views(ls@), start as int),
{
    let ghost lsv = views(ls@);
    let mut first = start;
    while first > 0 && comment_line(&ls[first - 1])
        invariant
            first <= start < ls.len(),
            lsv == views(ls@),
            block_first(lsv, start as int) == block_first(lsv, first as int),
        decreases first,
    {
        assert(lsv[first - 1] == ls@[first - 1]@);
        first = first - 1;
    }
    proof {
        if first > 0 {
            assert(lsv[first - 1] == ls@[first - 1]@);
        }
    }
    let mut depth: i32 = 0;
    let mut opened = false;
    let mut i = start;
    loop
        invariant
            first <= start <= i < ls.len(),
            lsv == views(ls@),
            block_first(lsv, start as int) == first,
            block_fits(lsv, i as int, depth as int, opened),
            block_end(lsv, start as int, 0, false) == block_end(lsv, i as int, depth as int, opened),
        ensures
            first <= start <= i < ls.len(),
            lsv == views(ls@),
            block_first(lsv, start as int) == first,
            block_end(lsv, start as int, 0, false) == i,
        decreases ls.len() - i,
    {
        let line = &ls[i];
        assert(lsv[i as int] == line@);
        let d = count_braces(line, depth);
        let o = opened || has_char(line, '{');
        if (o && d <= 0) || (!o && has_char(line, ';')) || i + 1 >= ls.len() {
            break;
        }
        depth = d;
        opened = o;
        i = i + 1;
    }
    proof {
        lemma_block_end_bounds(lsv, start as int, 0, false);
    }
    let mut parts: Vec<Vec<char>> = Vec::new();
    let mut k = first;
    while k <= i
        invariant
            first <= k <= i + 1,
            i < ls.len(),
            lsv == views(ls@),
            views(parts@) == lsv.subrange(first as int, k as int),
        decreases i + 1 - k,
    {
        let p = slice(&ls[k], 0, ls[k].len());
        let ghost before = views(parts@);
        assert(p@ =~= lsv[k as int]);
        parts.push(p);
        assert(views(parts@) =~= before.push(p@));
        assert(before.push(p@) =~= lsv.subrange(first as int, k + 1));
        k = k + 1;
    }
    let sep = vec!['\n'];
    assert(sep@ =~= seq!['\n']);
    let r = join_with(&parts, &sep);
    assert(Seq::new(parts@.len(), |x: int| parts@[x]@) =~= views(parts@));
    r
}

/// The block of the declaration at line `start`: the comment lines right
/// above it, then the lines through the one that closes its braces (or, with
/// no brace, holds a `;`), joined with newlines.
pub fn extract_block_from_lines(lines: &[&str], start: usize) -> (r: String)
    requires
        start < lines@.len(),
        block_fits(lines.deep_view(), start as int, 0, false),
    ensures
        r@ == block(lines.deep_view(), start as int),
{
    let mut ls: Vec<Vec<char>> = Vec::new();
    let mut i: usize = 0;
    while i < lines.len()
        invariant
            i <= lines@.len(),
            views(ls@) == lines.deep_view().take(i as int),
        decreases lines@.len() - i,
    {
        let ghost before = views(ls@);
        let c = chars_of(lines[i]);
        assert(lines.deep_view()[i as int] == lines@[i as int]@);
        ls.push(c);
        assert(views(ls@) =~= before.push(c@));
        assert(before.push(c@) =~= lines.deep_view().take(i + 1));
        i = i + 1;
    }
    assert(lines.deep_view().take(lines@.len() as int) =~= lines.deep_view());
    string_from(&block_of(&ls, start))
}

/// The source of rpc `method_name`: the block of the first line holding
/// `rpc <method_name>`; empty when no line does.
pub fn extract_rpc_source(source: &str, method_name: &str) -> (r: String)
    requires
        rpc_source_fits(source@, method_name@),
    ensures
        r@ == rpc_source(source@, method_name@),
{
    let ls = lines_of(&chars_of(source));
    let ghost lsv = lines(source@);
    let mut needle = chars_of("rpc ");
    push_all(&mut needle, &chars_of(method_name));
    let mut j: usize = 0;
    while j < ls.len()
        invariant
            j <= ls.len(),
            views(ls@) == lsv,
            lsv == lines(source@),
            rpc_source_fits(source@, method_name@),
            needle@ == "rpc "@ + method_name@,
            first_line_with(lsv, needle@, 0) == first_line_with(lsv, needle@, j as int),
        decreases ls.len() - j,
    {
        assert(lsv[j as int] == ls@[j as int]@);
        match crate::text::find_seq(&ls[j], &needle) {
            Some(_) => {
                assert(first_line_with(lsv, needle@, j as int) == j);
                return string_from(&block_of(&ls, j));
            },
            None => {},
        }
        j = j + 1;
    }
    String::new()
}

/// Every block of a `keyword` declaration (`enum`, `message`, ...), joined
/// with an empty line between neighbours.
pub fn extract_named_blocks(source: &str, keyword: &str) -> (r: String)
    requires
        named_blocks_fit(source@, keyword@),
    ensures
        r@ == all_named_blocks(source@, keyword@),
{
    let ls = lines_of(&chars_of(source));
    let ghost lsv = lines(source@);
    let mut prefix = chars_of(keyword);
    prefix.push(' ');
    let mut blocks: Vec<Vec<char>> = Vec::new();
    let mut j: usize = 0;
    while j < ls.len()
        invariant
            j <= ls.len(),
            views(ls@) == lsv,
            lsv == lines(source@),
            named_blocks_fit(source@, keyword@),
            prefix@ == keyword@ + seq![' '],
            views(blocks@) == named_blocks(lsv, keyword@, j as int),
        decreases ls.len() - j,
    {
        assert(lsv[j as int] == ls@[j as int]@);
        let ghost before = views(blocks@);
        if has_prefix(&trimmed_start(&ls[j]), &prefix) {
            assert(declares(lsv[j as int], keyword@));
            let b = block_of(&ls, j);
            blocks.push(b);
            assert(views(blocks@) =~= before.push(b@));
        }
        j = j + 1;
    }
    let sep = vec!['\n', '\n'];
    assert(sep@ =~= seq!['\n', '\n']);
    let r = join_with(&blocks, &sep);
    assert(Seq::new(blocks@.len(), |x: int| blocks@[x]@) =~= views(blocks@));
    string_from(&r)
}

fn import_in(line: &Vec<char>) -> (r: Option<Vec<char>>)
    ensures
        match r {
            Some(p) => import_of(line@) == Some(p@),
            None => import_of(line@) is None,
        },
{
    let t = trimmed(line);
    if !has_prefix(&t, &chars_of("import ")) {
        return None;
    }
    match split_once_char(&t, '"') {
        None => None,
        Some((a, rest)) => {
            proof {
                crate::text::lemma_find_char(t@, '"');
            }
            match split_once_char(&rest, '"') {
                None => None,
                Some((name, _)) => {
                    assert(name@ =~= t@.subrange(
                        find_char(t@, '"') + 1,
                        find_char(t@, '"') + 1 + find_char(rest@, '"'),
                    ));
                    Some(name)
                },
            }
        },
    }
}

/// The files that the `import "..."` lines of `source` name, in order.
pub fn parse_proto_imports(source: &str) -> (r: Vec<String>)
    ensures
        r.deep_view() == imports(lines(source@), lines(source@).len() as int),
{
    let ls = lines_of(&chars_of(source));
    let ghost lsv = lines(source@);
    let mut r: Vec<String> = Vec::new();
    let mut j: usize = 0;
    while j < ls.len()
        invariant
            j <= ls.len(),
            views(ls@) == lsv,
            r.deep_view() == imports(lsv, j as int),
        decreases ls.len() - j,
    {
        assert(lsv[j as int] == ls@[j as int]@);
        let ghost before = r.deep_view();
        match import_in(&ls[j]) {
            Some(p) => {
                let s = string_from(&p);
                r.push(s);
                assert(r.deep_view() =~= before.push(p@));
            },
            None => {},
        }
        j = j + 1;
    }
    r
}

// ---------------------------------------------------------------------------
// Whether the brace counter fits
// ---------------------------------------------------------------------------
/// `base` plus the braces of `v`, when counting them one by one stays
/// within `i32`.
pub(crate) fn count_checked(v: &Vec<char>, base: i32) -> (r: Option<i32>)
    ensures
        r is Some <==> count_fits(base as int, v@),
        r is Some ==> r->Some_0 == base + delta(v@),
{
    let mut d: i64 = base as i64;
    let mut i: usize = 0;
    assert(v@.take(0) =~= seq![]);
    while i < v.len()
        invariant
            i <= v.len(),
            d == base + delta(v@.take(i as int)),
            in_i32(d as int),
            forall|k: int| 0 <= k <= i ==> in_i32(base + #[trigger] delta(v@.take(k))),
        decreases v.len() - i,
    {
        proof {
            lemma_delta_step(v@, i as int);
        }
        if v[i] == '{' {
            d = d + 1;
        } else if v[i] == '}' {
            d = d - 1;
        }
        if d < i32::MIN as i64 || d > i32::MAX as i64 {
            assert(!in_i32(base + delta(v@.take(i + 1))));
            return None;
        }
        i = i + 1;
    }
    assert(v@.take(v.len() as int) =~= v@);
    Some(d as i32)
}

/// Whether the scan of the block that starts at line `start` keeps its
/// brace counter within `i32`.
fn block_fits_from(ls: &Vec<Vec<char>>, start: usize) -> (r: bool)
    requires
        start < ls.len(),
    ensures
        r == block_fits(views(ls@), start as int, 0, false),
{
    let ghost lsv = views(ls@);
    let mut depth: i32 = 0;
    let mut opened = false;
    let mut i = start;
    loop
        invariant
            start <= i < ls.len(),
            lsv == views(ls@),
            block_fits(lsv, start as int, 0, false) == block_fits(lsv, i as int, depth as int, opened),
        decreases ls.len() - i,
    {
        let line = &ls[i];
        assert(lsv[i as int] == line@);
        match count_checked(line, depth) {
            None => {
                return false;
            },
            Some(d) => {
                let o = opened || has_char(line, '{');
                if (o && d <= 0) || (!o && has_char(line, ';')) || i + 1 >= ls.len() {
                    return true;
                }
                depth = d;
                opened = o;
                i = i + 1;
            },
        }
    }
}

/// Whether extracting the `keyword` blocks of `source` keeps its brace
/// counter within `i32`: the condition of `extract_named_blocks`.
pub fn named_blocks_fit_check(source: &str, keyword: &str) -> (r: bool)
    ensures
        r == named_blocks_fit(source@, keyword@),
{
    let ls = lines_of(&chars_of(source));
    let ghost lsv = lines(source@);
    let mut prefix = chars_of(keyword);
    prefix.push(' ');
    let mut j: usize = 0;
    while j < ls.len()
        invariant
            j <= ls.len(),
            views(ls@) == lsv,
            lsv == lines(source@),
            prefix@ == keyword@ + seq![' '],
            forall|x: int|
                0 <= x < j && #[trigger] declares(lsv[x], keyword@) ==> block_fits(lsv, x, 0, false),
        decreases ls.len() - j,
    {
        assert(lsv[j as int] == ls@[j as int]@);
        if has_prefix(&trimmed_start(&ls[j]), &prefix) {
            assert(declares(lsv[j as int], keyword@));
            if !block_fits_from(&ls, j) {
                return false;
            }
        }
        j = j + 1;
    }
    true
}

/// Whether extracting the source of rpc `method_name` keeps its brace
/// counter within `i32`: the condition of `extract_rpc_source`.
pub fn rpc_source_fits_check(source: &str, method_name: &str) -> (r: bool)
    ensures
        r == rpc_source_fits(source@, method_name@),
{
    let ls = lines_of(&chars_of(source));
    let ghost lsv = lines(source@);
    let mut needle = chars_of("rpc ");
    push_all(&mut needle, &chars_of(method_name));
    let mut j: usize = 0;
    while j < ls.len()
        invariant
            j <= ls.len(),
            views(ls@) == lsv,
            lsv == lines(source@),
            needle@ == "rpc "@ + method_name@,
            first_line_with(lsv, needle@, 0) == first_line_with(lsv, needle@, j as int),
        decreases ls.len() - j,
    {
        assert(lsv[j as int] == ls@[j as int]@);
        match crate::text::find_seq(&ls[j], &needle) {
            Some(_) => {
                assert(first_line_with(lsv, needle@, j as int) == j);
                return block_fits_from(&ls, j);
            },
            None => {},
        }
        j = j + 1;
    }
    true
}

// ---------------------------------------------------------------------------
// Laws
// ---------------------------------------------------------------------------
proof fn lemma_first_line_with(ls: Seq<Seq<char>>, needle: Seq<char>, i: int)
    requires
        0 <= i,
    ensures
        first_line_with(ls, needle, i) == -1 || (i <= first_line_with(ls, needle, i) < ls.len()
            && contains(ls[first_line_with(ls, needle, i)], needle)),
        forall|k: int|
            i <= k < ls.len() && (first_line_with(ls, needle, i) == -1 || k < first_line_with(
                ls,
                needle,
                i,
            )) ==> !contains(#[trigger] ls[k], needle),
    decreases ls.len() - i,
{
    if i < ls.len() && !contains(ls[i], needle) {
        lemma_first_line_with(ls, needle, i + 1);
    }
}

/// The source of rpc `M` is the block that starts at the first line holding
/// the text `rpc M`; when no line holds it, the source is empty. A line that
/// only mentions `M`, such as `message MRequest`, never starts it.
pub proof fn law_rpc_source_starts_at_rpc_line(source: Seq<char>, method_name: Seq<char>, j: int)
    ensures
        ({
            let ls = lines(source);
            let needle = "rpc "@ + method_name;
            &&& (0 <= j < ls.len() && contains(ls[j], needle) && (forall|k: int|
                0 <= k < j ==> !contains(#[trigger] ls[k], needle))) ==> rpc_source(
                source,
                method_name,
            ) == block(ls, j)
            &&& (forall|k: int| 0 <= k < ls.len() ==> !contains(#[trigger] ls[k], needle))
                ==> rpc_source(source, method_name).len() == 0
        }),
{
    let ls = lines(source);
    let needle = "rpc "@ + method_name;
    lemma_first_line_with(ls, needle, 0);
    let f = first_line_with(ls, needle, 0);
    if 0 <= j < ls.len() && contains(ls[j], needle) && (forall|k: int|
        0 <= k < j ==> !contains(#[trigger] ls[k], needle)) {
        if f == -1 {
            assert(!contains(ls[j], needle));
        } else if f < j {
            assert(!contains(ls[f], needle));
        } else if f > j {
            assert(!contains(ls[j], needle));
        }
    }
    if forall|k: int| 0 <= k < ls.len() ==> !contains(#[trigger] ls[k], needle) {
        if f != -1 {
            assert(!contains(ls[f], needle));
        }
    }
}

} // verus!
