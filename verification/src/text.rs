//! Character-level text primitives shared by the parsers: whitespace and
//! character trimming, line splitting, substring search, prefixes and joins.
//! Every function works on `Seq<char>` views and is proved against a spec.
use vstd::prelude::*;

verus! {

broadcast use vstd::string::group_string_axioms;

// ---------------------------------------------------------------------------
// Specifications
// ---------------------------------------------------------------------------
/// Unicode `White_Space`, the property `char::is_whitespace` tests.
pub open spec fn is_ws(c: char) -> bool {
    let u = c as u32;
    ||| (0x9 <= u && u <= 0xD)
    ||| u == 0x20
    ||| u == 0x85
    ||| u == 0xA0
    ||| u == 0x1680
    ||| (0x2000 <= u && u <= 0x200A)
    ||| u == 0x2028
    ||| u == 0x2029
    ||| u == 0x202F
    ||| u == 0x205F
    ||| u == 0x3000
}

/// A class of characters that trimming removes.
#[derive(Clone, Copy)]
pub enum CharClass {
    /// Unicode whitespace.
    Space,
    /// Exactly this character.
    Only(char),
    /// Unicode whitespace or this character.
    SpaceOr(char),
    /// A carriage return or a line feed.
    LineEnd,
}

pub open spec fn in_class(k: CharClass, c: char) -> bool {
    match k {
        CharClass::Space => is_ws(c),
        CharClass::Only(x) => c == x,
        CharClass::SpaceOr(x) => is_ws(c) || c == x,
        CharClass::LineEnd => c == '\r' || c == '\n',
    }
}

/// `s` without its leading characters of class `k`.
pub open spec fn strip_start(s: Seq<char>, k: CharClass) -> Seq<char>
    decreases s.len(),
{
    if s.len() > 0 && in_class(k, s[0]) {
        strip_start(s.drop_first(), k)
    } else {
        s
    }
}

/// `s` without its trailing characters of class `k`.
pub open spec fn strip_end(s: Seq<char>, k: CharClass) -> Seq<char>
    decreases s.len(),
{
    if s.len() > 0 && in_class(k, s.last()) {
        strip_end(s.drop_last(), k)
    } else {
        s
    }
}

/// `str::trim`: leading and trailing whitespace removed.
pub open spec fn trim(s: Seq<char>) -> Seq<char> {
    strip_end(strip_start(s, CharClass::Space), CharClass::Space)
}

/// `str::trim_start`.
pub open spec fn trim_start(s: Seq<char>) -> Seq<char> {
    strip_start(s, CharClass::Space)
}

/// `str::trim_matches(c)`: every leading and trailing `c` removed.
pub open spec fn trim_char(s: Seq<char>, c: char) -> Seq<char> {
    strip_end(strip_start(s, CharClass::Only(c)), CharClass::Only(c))
}

/// `p` occurs in `s` at position `i`.
pub open spec fn matches_at(s: Seq<char>, p: Seq<char>, i: int) -> bool {
    0 <= i && i + p.len() <= s.len() && s.subrange(i, i + p.len()) == p
}

pub open spec fn starts_with(s: Seq<char>, p: Seq<char>) -> bool {
    matches_at(s, p, 0)
}

pub open spec fn ends_with(s: Seq<char>, p: Seq<char>) -> bool {
    matches_at(s, p, s.len() - p.len())
}

/// The first position at or after `i` where `p` occurs in `s`, or -1.
pub open spec fn find_from(s: Seq<char>, p: Seq<char>, i: int) -> int
    decreases s.len() + 1 - i,
{
    if i < 0 || i + p.len() > s.len() {
        -1
    } else if matches_at(s, p, i) {
        i
    } else {
        find_from(s, p, i + 1)
    }
}

/// `str::find`: the first position where `p` occurs in `s`, or -1.
pub open spec fn find(s: Seq<char>, p: Seq<char>) -> int {
    find_from(s, p, 0)
}

/// The last position at or before `i` where `p` occurs in `s`, or -1.
pub open spec fn rfind_upto(s: Seq<char>, p: Seq<char>, i: int) -> int
    decreases i + 1,
{
    if i < 0 {
        -1
    } else if matches_at(s, p, i) {
        i
    } else {
        rfind_upto(s, p, i - 1)
    }
}

/// `str::rfind`: the last position where `p` occurs in `s`, or -1.
pub open spec fn rfind(s: Seq<char>, p: Seq<char>) -> int {
    rfind_upto(s, p, s.len() - p.len())
}

pub open spec fn contains(s: Seq<char>, p: Seq<char>) -> bool {
    find(s, p) >= 0
}

/// The first position of `c` in `s`, or -1.
pub open spec fn find_char(s: Seq<char>, c: char) -> int {
    find(s, seq![c])
}

/// The views of a sequence of character vectors.
pub open spec fn views(v: Seq<Vec<char>>) -> Seq<Seq<char>> {
    Seq::new(v.len(), |i: int| v[i]@)
}

/// `s` without one trailing carriage return.
pub open spec fn strip_cr(s: Seq<char>) -> Seq<char> {
    if s.len() > 0 && s.last() == '\r' {
        s.drop_last()
    } else {
        s
    }
}

/// `str::lines`: pieces between `\n`, each without a trailing `\r`; a final
/// line ending gives no empty last line.
pub open spec fn lines(s: Seq<char>) -> Seq<Seq<char>>
    decreases s.len(),
{
    if s.len() == 0 {
        seq![]
    } else {
        let i = find_char(s, '\n');
        if i < 0 {
            seq![s]
        } else {
            proof {
                lemma_find_char(s, '\n');
            }
            seq![strip_cr(s.take(i))] + lines(s.skip(i + 1))
        }
    }
}

/// `str::split(sep)`: the pieces between occurrences of `sep`.
pub open spec fn split_char(s: Seq<char>, sep: char) -> Seq<Seq<char>>
    decreases s.len(),
{
    let i = find_char(s, sep);
    if i < 0 {
        seq![s]
    } else {
        proof {
            lemma_find_char(s, sep);
        }
        seq![s.take(i)] + split_char(s.skip(i + 1), sep)
    }
}

/// `parts` joined with `sep` between neighbours.
pub open spec fn join(parts: Seq<Seq<char>>, sep: Seq<char>) -> Seq<char>
    decreases parts.len(),
{
    if parts.len() == 0 {
        seq![]
    } else if parts.len() == 1 {
        parts[0]
    } else {
        join(parts.drop_last(), sep) + sep + parts.last()
    }
}

/// `s` up to (not including) its first character of class `k`.
pub open spec fn take_until(s: Seq<char>, k: CharClass) -> Seq<char>
    decreases s.len(),
{
    if s.len() == 0 || in_class(k, s[0]) {
        seq![]
    } else {
        seq![s[0]] + take_until(s.drop_first(), k)
    }
}

/// Every `from` in `s` replaced by `to`.
pub open spec fn replace_char(s: Seq<char>, from: char, to: char) -> Seq<char> {
    s.map_values(|x: char| if x == from { to } else { x })
}

// ---------------------------------------------------------------------------
// Lemmas
// ---------------------------------------------------------------------------
/// What `find_from` returns.
pub proof fn lemma_find_from(s: Seq<char>, p: Seq<char>, i: int)
    requires
        0 <= i,
    ensures
        ({
            let r = find_from(s, p, i);
            &&& -1 <= r
            &&& r >= 0 ==> i <= r && r + p.len() <= s.len() && matches_at(s, p, r)
            &&& r >= 0 ==> forall|j: int| i <= j < r ==> !matches_at(s, p, j)
            &&& r < 0 ==> forall|j: int| i <= j ==> !matches_at(s, p, j)
        }),
    decreases s.len() + 1 - i,
{
    if i + p.len() > s.len() {
    } else if matches_at(s, p, i) {
    } else {
        lemma_find_from(s, p, i + 1);
        let r = find_from(s, p, i);
        assert forall|j: int| i <= j && (r >= 0 ==> j < r) implies !matches_at(s, p, j) by {
            if j > i {
            }
        }
    }
}

/// What `find` returns.
pub proof fn lemma_find(s: Seq<char>, p: Seq<char>)
    ensures
        ({
            let r = find(s, p);
            &&& -1 <= r
            &&& r >= 0 ==> r + p.len() <= s.len() && matches_at(s, p, r)
            &&& r >= 0 ==> forall|j: int| 0 <= j < r ==> !matches_at(s, p, j)
            &&& r < 0 ==> forall|j: int| 0 <= j ==> !matches_at(s, p, j)
        }),
{
    lemma_find_from(s, p, 0);
}

/// `find` is determined by where `p` occurs.
pub proof fn lemma_find_is(s: Seq<char>, p: Seq<char>, r: int)
    requires
        r == -1 ==> forall|j: int| 0 <= j ==> !matches_at(s, p, j),
        r >= 0 ==> matches_at(s, p, r) && forall|j: int| 0 <= j < r ==> !matches_at(s, p, j),
        r >= -1,
    ensures
        find(s, p) == r,
{
    lemma_find(s, p);
    let f = find(s, p);
    if f >= 0 && r >= 0 {
        if f < r {
        } else if r < f {
        }
    }
}

/// A single-character match is a character equality.
pub proof fn lemma_matches_char(s: Seq<char>, c: char, i: int)
    ensures
        matches_at(s, seq![c], i) <==> (0 <= i < s.len() && s[i] == c),
{
    if 0 <= i < s.len() && s[i] == c {
        assert(s.subrange(i, i + 1) =~= seq![c]);
    }
    if matches_at(s, seq![c], i) {
        assert(s.subrange(i, i + 1)[0] == s[i]);
    }
}

/// What `find_char` returns.
pub proof fn lemma_find_char(s: Seq<char>, c: char)
    ensures
        ({
            let r = find_char(s, c);
            &&& -1 <= r < s.len()
            &&& r >= 0 ==> s[r] == c
            &&& r >= 0 ==> forall|j: int| 0 <= j < r ==> s[j] != c
            &&& r < 0 ==> forall|j: int| 0 <= j < s.len() ==> s[j] != c
        }),
{
    lemma_find(s, seq![c]);
    let r = find_char(s, c);
    if r >= 0 {
        lemma_matches_char(s, c, r);
        assert forall|j: int| 0 <= j < r implies s[j] != c by {
            lemma_matches_char(s, c, j);
        }
    } else {
        assert forall|j: int| 0 <= j < s.len() implies s[j] != c by {
            lemma_matches_char(s, c, j);
        }
    }
}

/// `find_char` is determined by where `c` occurs.
pub proof fn lemma_find_char_is(s: Seq<char>, c: char, r: int)
    requires
        -1 <= r < s.len(),
        r >= 0 ==> s[r] == c,
        forall|j: int| 0 <= j < s.len() && (r < 0 || j < r) ==> s[j] != c,
    ensures
        find_char(s, c) == r,
{
    lemma_find_char(s, c);
    let f = find_char(s, c);
    if f >= 0 && r >= 0 {
        if f < r {
        } else if r < f {
        }
    }
}

/// What `rfind_upto` returns.
pub proof fn lemma_rfind_upto(s: Seq<char>, p: Seq<char>, i: int)
    ensures
        ({
            let r = rfind_upto(s, p, i);
            &&& -1 <= r
            &&& r >= 0 ==> r <= i && matches_at(s, p, r)
            &&& forall|j: int| r < j <= i ==> !matches_at(s, p, j)
        }),
    decreases i + 1,
{
    if i >= 0 && !matches_at(s, p, i) {
        lemma_rfind_upto(s, p, i - 1);
    }
}

/// What `rfind` returns.
pub proof fn lemma_rfind(s: Seq<char>, p: Seq<char>)
    ensures
        ({
            let r = rfind(s, p);
            &&& -1 <= r
            &&& r >= 0 ==> matches_at(s, p, r)
            &&& forall|j: int| r < j ==> !matches_at(s, p, j)
        }),
{
    lemma_rfind_upto(s, p, s.len() - p.len());
}

/// `strip_start` removes exactly the first `k` characters when they are the
/// leading run of the class.
pub proof fn lemma_strip_start(s: Seq<char>, c: CharClass, k: int)
    requires
        0 <= k <= s.len(),
        forall|i: int| 0 <= i < k ==> in_class(c, s[i]),
        k == s.len() || !in_class(c, s[k]),
    ensures
        strip_start(s, c) == s.skip(k),
    decreases k,
{
    if k == 0 {
        assert(s.skip(0) =~= s);
    } else {
        assert(s.drop_first().skip(k - 1) =~= s.skip(k));
        lemma_strip_start(s.drop_first(), c, k - 1);
    }
}

/// `strip_end` keeps exactly the first `k` characters when the rest is the
/// trailing run of the class.
pub proof fn lemma_strip_end(s: Seq<char>, c: CharClass, k: int)
    requires
        0 <= k <= s.len(),
        forall|i: int| k <= i < s.len() ==> in_class(c, s[i]),
        k == 0 || !in_class(c, s[k - 1]),
    ensures
        strip_end(s, c) == s.take(k),
    decreases s.len() - k,
{
    if k == s.len() {
        assert(s.take(k) =~= s);
    } else {
        assert(s.drop_last().take(k) =~= s.take(k));
        lemma_strip_end(s.drop_last(), c, k);
    }
}

/// `strip_start` leaves a suffix that is empty or starts outside the class.
pub proof fn lemma_strip_start_shape(s: Seq<char>, c: CharClass)
    ensures
        strip_start(s, c).len() <= s.len(),
        strip_start(s, c) == s.skip(s.len() - strip_start(s, c).len()),
        strip_start(s, c).len() == 0 || !in_class(c, strip_start(s, c)[0]),
    decreases s.len(),
{
    if s.len() > 0 && in_class(c, s[0]) {
        lemma_strip_start_shape(s.drop_first(), c);
        assert(s.drop_first().skip(s.drop_first().len() - strip_start(s, c).len()) =~= s.skip(
            s.len() - strip_start(s, c).len(),
        ));
    } else {
        assert(s.skip(0) =~= s);
    }
}

/// `strip_end` leaves a prefix that is empty or ends outside the class.
pub proof fn lemma_strip_end_shape(s: Seq<char>, c: CharClass)
    ensures
        strip_end(s, c).len() <= s.len(),
        strip_end(s, c) == s.take(strip_end(s, c).len() as int),
        strip_end(s, c).len() == 0 || !in_class(c, strip_end(s, c).last()),
    decreases s.len(),
{
    if s.len() > 0 && in_class(c, s.last()) {
        lemma_strip_end_shape(s.drop_last(), c);
        assert(s.drop_last().take(strip_end(s, c).len() as int) =~= s.take(
            strip_end(s, c).len() as int,
        ));
    } else {
        assert(s.take(s.len() as int) =~= s);
    }
}

/// Trimmed text is empty or starts and ends with a character that is not
/// whitespace.
pub proof fn lemma_trim_shape(s: Seq<char>)
    ensures
        trim(s).len() == 0 || (!is_ws(trim(s)[0]) && !is_ws(trim(s).last())),
{
    let a = strip_start(s, CharClass::Space);
    lemma_strip_start_shape(s, CharClass::Space);
    lemma_strip_end_shape(a, CharClass::Space);
    let t = trim(s);
    if t.len() > 0 {
        assert(t[0] == a[0]);
    }
}

/// Text that is empty or starts and ends outside whitespace is its own trim.
pub proof fn lemma_trim_fixed(t: Seq<char>)
    requires
        t.len() == 0 || (!is_ws(t[0]) && !is_ws(t.last())),
    ensures
        trim(t) == t,
{
}

/// `take_until` is the prefix before the first character of the class.
pub proof fn lemma_take_until(s: Seq<char>, c: CharClass, k: int)
    requires
        0 <= k <= s.len(),
        forall|i: int| 0 <= i < k ==> !in_class(c, s[i]),
        k == s.len() || in_class(c, s[k]),
    ensures
        take_until(s, c) == s.take(k),
    decreases k,
{
    if k == 0 {
        assert(s.take(0) =~= seq![]);
    } else {
        lemma_take_until(s.drop_first(), c, k - 1);
        assert(seq![s[0]] + s.drop_first().take(k - 1) =~= s.take(k));
    }
}

// ---------------------------------------------------------------------------
// Executable functions
// ---------------------------------------------------------------------------
/// The characters of `s`, in order.
pub fn chars_of(s: &str) -> (r: Vec<char>)
    ensures
        r@ == s@,
{
    let mut r: Vec<char> = Vec::new();
    for c in it: s.chars()
        invariant
            r@ == it.seq().take(it.index() as int),
            it.seq() == s@,
    {
        r.push(c);
    }
    r
}

#[verifier::external_body]
pub fn push_char(s: &mut String, c: char)
    ensures
        final(s)@ == old(s)@.push(c),
{
    s.push(c);
}

/// A `String` that holds the characters of `v`.
pub fn string_from(v: &Vec<char>) -> (r: String)
    ensures
        r@ == v@,
{
    let mut r = String::new();
    let mut i: usize = 0;
    while i < v.len()
        invariant
            i <= v.len(),
            r@ == v@.take(i as int),
        decreases v.len() - i,
    {
        push_char(&mut r, v[i]);
        assert(v@.take(i + 1) =~= v@.take(i as int).push(v@[i as int]));
        i = i + 1;
    }
    assert(v@.take(v.len() as int) =~= v@);
    r
}

/// Unicode whitespace, as `char::is_whitespace` decides it.
pub fn is_whitespace(c: char) -> (r: bool)
    ensures
        r == is_ws(c),
{
    let u = c as u32;
    (0x9 <= u && u <= 0xD) || u == 0x20 || u == 0x85 || u == 0xA0 || u == 0x1680 || (0x2000
        <= u && u <= 0x200A) || u == 0x2028 || u == 0x2029 || u == 0x202F || u == 0x205F || u
        == 0x3000
}

pub fn char_in_class(k: CharClass, c: char) -> (r: bool)
    ensures
        r == in_class(k, c),
{
    match k {
        CharClass::Space => is_whitespace(c),
        CharClass::Only(x) => c == x,
        CharClass::SpaceOr(x) => is_whitespace(c) || c == x,
        CharClass::LineEnd => c == '\r' || c == '\n',
    }
}

/// The characters of `v` in `lo..hi`.
pub fn slice(v: &Vec<char>, lo: usize, hi: usize) -> (r: Vec<char>)
    requires
        lo <= hi <= v.len(),
    ensures
        r@ == v@.subrange(lo as int, hi as int),
{
    let mut r: Vec<char> = Vec::new();
    let mut i = lo;
    while i < hi
        invariant
            lo <= i <= hi <= v.len(),
            r@ == v@.subrange(lo as int, i as int),
        decreases hi - i,
    {
        r.push(v[i]);
        assert(v@.subrange(lo as int, i + 1) =~= v@.subrange(lo as int, i as int).push(
            v@[i as int],
        ));
        i = i + 1;
    }
    r
}

/// `dst` with `src` appended.
pub fn push_all(dst: &mut Vec<char>, src: &Vec<char>)
    ensures
        final(dst)@ == old(dst)@ + src@,
{
    let mut i: usize = 0;
    while i < src.len()
        invariant
            i <= src.len(),
            dst@ == old(dst)@ + src@.take(i as int),
        decreases src.len() - i,
    {
        dst.push(src[i]);
        assert(old(dst)@ + src@.take(i + 1) =~= (old(dst)@ + src@.take(i as int)).push(
            src@[i as int],
        ));
        i = i + 1;
    }
    assert(src@.take(src.len() as int) =~= src@);
}

/// Characters equal.
pub fn same(a: &Vec<char>, b: &Vec<char>) -> (r: bool)
    ensures
        r == (a@ == b@),
{
    if a.len() != b.len() {
        return false;
    }
    let mut i: usize = 0;
    while i < a.len()
        invariant
            a.len() == b.len(),
            i <= a.len(),
            forall|j: int| 0 <= j < i ==> a@[j] == b@[j],
        decreases a.len() - i,
    {
        if a[i] != b[i] {
            return false;
        }
        i = i + 1;
    }
    assert(a@ =~= b@);
    true
}

/// Whether `p` occurs in `v` at position `i`.
pub fn matches_here(v: &Vec<char>, p: &Vec<char>, i: usize) -> (r: bool)
    ensures
        r == matches_at(v@, p@, i as int),
{
    if i > v.len() || p.len() > v.len() - i {
        return false;
    }
    let mut j: usize = 0;
    while j < p.len()
        invariant
            i + p.len() <= v.len(),
            j <= p.len(),
            forall|k: int| 0 <= k < j ==> v@[i + k] == p@[k],
        decreases p.len() - j,
    {
        if v[i + j] != p[j] {
            assert(v@.subrange(i as int, i + p.len())[j as int] != p@[j as int]);
            return false;
        }
        j = j + 1;
    }
    assert(v@.subrange(i as int, i + p.len()) =~= p@);
    true
}

/// `s` starts with `p`.
pub fn has_prefix(v: &Vec<char>, p: &Vec<char>) -> (r: bool)
    ensures
        r == starts_with(v@, p@),
{
    matches_here(v, p, 0)
}

/// `s` ends with `p`.
pub fn has_suffix(v: &Vec<char>, p: &Vec<char>) -> (r: bool)
    ensures
        r == ends_with(v@, p@),
{
    if p.len() > v.len() {
        return false;
    }
    matches_here(v, p, v.len() - p.len())
}

/// The first position of `p` in `v`.
pub fn find_seq(v: &Vec<char>, p: &Vec<char>) -> (r: Option<usize>)
    ensures
        match r {
            Some(i) => find(v@, p@) == i,
            None => find(v@, p@) == -1,
        },
{
    proof {
        lemma_find(v@, p@);
    }
    if p.len() > v.len() {
        proof {
            lemma_find_is(v@, p@, -1);
        }
        return None;
    }
    let last = v.len() - p.len();
    let mut i: usize = 0;
    loop
        invariant
            p.len() <= v.len(),
            last == v.len() - p.len(),
            i <= last,
            forall|j: int| 0 <= j < i ==> !matches_at(v@, p@, j),
        decreases last - i,
    {
        if matches_here(v, p, i) {
            proof {
                lemma_find_is(v@, p@, i as int);
            }
            return Some(i);
        }
        if i == last {
            proof {
                assert forall|j: int| 0 <= j implies !matches_at(v@, p@, j) by {
                    if j > last {
                    }
                }
                lemma_find_is(v@, p@, -1);
            }
            return None;
        }
        i = i + 1;
    }
}

/// The last position of `p` in `v`.
pub fn rfind_seq(v: &Vec<char>, p: &Vec<char>) -> (r: Option<usize>)
    ensures
        match r {
            Some(i) => rfind(v@, p@) == i,
            None => rfind(v@, p@) == -1,
        },
{
    proof {
        lemma_rfind(v@, p@);
    }
    if p.len() > v.len() {
        return None;
    }
    let mut i: usize = v.len() - p.len();
    loop
        invariant
            p.len() <= v.len(),
            i <= v.len() - p.len(),
            rfind(v@, p@) == rfind_upto(v@, p@, i as int),
        decreases i,
    {
        if matches_here(v, p, i) {
            return Some(i);
        }
        if i == 0 {
            assert(rfind_upto(v@, p@, -1) == -1);
            return None;
        }
        i = i - 1;
    }
}

/// The first position of `c` in `v`.
pub fn find_in(v: &Vec<char>, c: char) -> (r: Option<usize>)
    ensures
        match r {
            Some(i) => find_char(v@, c) == i && i < v.len(),
            None => find_char(v@, c) == -1,
        },
{
    let mut i: usize = 0;
    while i < v.len()
        invariant
            i <= v.len(),
            forall|j: int| 0 <= j < i ==> v@[j] != c,
        decreases v.len() - i,
    {
        if v[i] == c {
            proof {
                lemma_find_char_is(v@, c, i as int);
            }
            return Some(i);
        }
        i = i + 1;
    }
    proof {
        lemma_find_char_is(v@, c, -1);
    }
    None
}

/// `v` split around its first `c`.
pub fn split_once_char(v: &Vec<char>, c: char) -> (r: Option<(Vec<char>, Vec<char>)>)
    ensures
        match r {
            None => find_char(v@, c) == -1,
            Some((a, b)) => {
                let i = find_char(v@, c);
                &&& 0 <= i < v@.len()
                &&& a@ == v@.take(i)
                &&& b@ == v@.skip(i + 1)
            },
        },
{
    match find_in(v, c) {
        None => None,
        Some(i) => {
            let a = slice(v, 0, i);
            let b = slice(v, i + 1, v.len());
            assert(a@ =~= v@.take(i as int));
            assert(b@ =~= v@.skip(i + 1));
            Some((a, b))
        },
    }
}

/// `v` split around the first occurrence of `p`.
pub fn split_once_seq(v: &Vec<char>, p: &Vec<char>) -> (r: Option<(Vec<char>, Vec<char>)>)
    ensures
        match r {
            None => find(v@, p@) == -1,
            Some((a, b)) => {
                let i = find(v@, p@);
                &&& 0 <= i && i + p@.len() <= v@.len()
                &&& a@ == v@.take(i)
                &&& b@ == v@.skip(i + p@.len())
            },
        },
{
    proof {
        lemma_find(v@, p@);
    }
    match find_seq(v, p) {
        None => None,
        Some(i) => {
            assert(matches_at(v@, p@, i as int));
            let a = slice(v, 0, i);
            let b = slice(v, i + p.len(), v.len());
            assert(a@ =~= v@.take(i as int));
            assert(b@ =~= v@.skip(i + p@.len()));
            Some((a, b))
        },
    }
}

/// `v` split around the last occurrence of `p`.
pub fn rsplit_once_seq(v: &Vec<char>, p: &Vec<char>) -> (r: Option<(Vec<char>, Vec<char>)>)
    ensures
        match r {
            None => rfind(v@, p@) == -1,
            Some((a, b)) => {
                let i = rfind(v@, p@);
                &&& 0 <= i && i + p@.len() <= v@.len()
                &&& a@ == v@.take(i)
                &&& b@ == v@.skip(i + p@.len())
            },
        },
{
    proof {
        lemma_rfind(v@, p@);
    }
    match rfind_seq(v, p) {
        None => None,
        Some(i) => {
            assert(matches_at(v@, p@, i as int));
            let a = slice(v, 0, i);
            let b = slice(v, i + p.len(), v.len());
            assert(a@ =~= v@.take(i as int));
            assert(b@ =~= v@.skip(i + p@.len()));
            Some((a, b))
        },
    }
}

/// Whether `c` occurs in `v`.
pub fn has_char(v: &Vec<char>, c: char) -> (r: bool)
    ensures
        r == (find_char(v@, c) >= 0),
        r == v@.contains(c),
{
    proof {
        lemma_find_char(v@, c);
    }
    let r = find_in(v, c);
    proof {
        if v@.contains(c) {
            let j = choose|j: int| 0 <= j < v@.len() && v@[j] == c;
            assert(v@[j] == c);
        }
    }
    r.is_some()
}

/// `v` without leading and/or trailing characters of class `k`.
pub fn strip(v: &Vec<char>, k: CharClass, at_start: bool, at_end: bool) -> (r: Vec<char>)
    ensures
        r@ == {
            let s = if at_start {
                strip_start(v@, k)
            } else {
                v@
            };
            if at_end {
                strip_end(s, k)
            } else {
                s
            }
        },
{
    let mut lo: usize = 0;
    if at_start {
        while lo < v.len() && char_in_class(k, v[lo])
            invariant
                lo <= v.len(),
                forall|i: int| 0 <= i < lo ==> in_class(k, v@[i]),
            decreases v.len() - lo,
        {
            lo = lo + 1;
        }
        proof {
            lemma_strip_start(v@, k, lo as int);
        }
    }
    let mut hi: usize = v.len();
    if at_end {
        while hi > lo && char_in_class(k, v[hi - 1])
            invariant
                lo <= hi <= v.len(),
                forall|i: int| hi <= i < v.len() ==> in_class(k, v@[i]),
            decreases hi,
        {
            hi = hi - 1;
        }
        proof {
            let s = v@.subrange(lo as int, v.len() as int);
            assert(v@.skip(lo as int) =~= s);
            lemma_strip_end(s, k, hi - lo);
            assert(s.take(hi - lo) =~= v@.subrange(lo as int, hi as int));
        }
    }
    proof {
        if !at_end {
            assert(v@.skip(lo as int) =~= v@.subrange(lo as int, hi as int));
        }
        if !at_start {
            assert(v@ =~= v@.skip(0));
        }
    }
    slice(v, lo, hi)
}

/// `str::trim`.
pub fn trimmed(v: &Vec<char>) -> (r: Vec<char>)
    ensures
        r@ == trim(v@),
{
    strip(v, CharClass::Space, true, true)
}

/// `str::trim_start`.
pub fn trimmed_start(v: &Vec<char>) -> (r: Vec<char>)
    ensures
        r@ == trim_start(v@),
{
    strip(v, CharClass::Space, true, false)
}

/// `v` up to its first character of class `k`.
pub fn prefix_until(v: &Vec<char>, k: CharClass) -> (r: Vec<char>)
    ensures
        r@ == take_until(v@, k),
{
    let mut i: usize = 0;
    while i < v.len() && !char_in_class(k, v[i])
        invariant
            i <= v.len(),
            forall|j: int| 0 <= j < i ==> !in_class(k, v@[j]),
        decreases v.len() - i,
    {
        i = i + 1;
    }
    proof {
        lemma_take_until(v@, k, i as int);
    }
    slice(v, 0, i)
}

/// `v` with every `from` replaced by `to`.
pub fn replaced(v: &Vec<char>, from: char, to: char) -> (r: Vec<char>)
    ensures
        r@ == replace_char(v@, from, to),
{
    let mut r: Vec<char> = Vec::new();
    let mut i: usize = 0;
    while i < v.len()
        invariant
            i <= v.len(),
            r@ == replace_char(v@.take(i as int), from, to),
        decreases v.len() - i,
    {
        let c = if v[i] == from {
            to
        } else {
            v[i]
        };
        r.push(c);
        assert(replace_char(v@.take(i + 1), from, to) =~= replace_char(v@.take(i as int), from, to).push(c));
        i = i + 1;
    }
    assert(v@.take(v.len() as int) =~= v@);
    r
}

/// The lines of `v`, as `str::lines` gives them.
pub fn lines_of(v: &Vec<char>) -> (r: Vec<Vec<char>>)
    ensures
        views(r@) == lines(v@),
{
    let mut r: Vec<Vec<char>> = Vec::new();
    let mut pos: usize = 0;
    let ghost mut done: Seq<Seq<char>> = seq![];
    assert(v@.skip(0) =~= v@);
    assert(views(r@) =~= done);
    while pos < v.len()
        invariant
            pos <= v.len(),
            views(r@) == done,
            lines(v@) == done + lines(v@.skip(pos as int)),
        decreases v.len() - pos,
    {
        let ghost rest = v@.skip(pos as int);
        let mut j = pos;
        while j < v.len() && v[j] != '\n'
            invariant
                pos <= j <= v.len(),
                forall|k: int| pos <= k < j ==> v@[k] != '\n',
            decreases v.len() - j,
        {
            j = j + 1;
        }
        if j == v.len() {
            proof {
                lemma_find_char_is(rest, '\n', -1);
                assert(lines(v@.skip(v.len() as int)) =~= seq![]);
                assert(rest =~= v@.subrange(pos as int, j as int));
            }
            let piece = slice(v, pos, j);
            proof {
                done = done.push(piece@);
                assert(lines(v@) =~= done + lines(v@.skip(v.len() as int)));
            }
            r.push(piece);
            assert(views(r@) =~= done);
            pos = j;
        } else {
            proof {
                lemma_find_char_is(rest, '\n', j - pos);
                assert(rest.skip(j - pos + 1) =~= v@.skip(j + 1));
                assert(rest.take(j - pos) =~= v@.subrange(pos as int, j as int));
            }
            let mut end = j;
            if end > pos && v[end - 1] == '\r' {
                end = end - 1;
            }
            let piece = slice(v, pos, end);
            proof {
                assert(piece@ == strip_cr(rest.take(j - pos)));
                done = done.push(piece@);
                assert(lines(v@) =~= done + lines(v@.skip(j + 1)));
            }
            r.push(piece);
            assert(views(r@) =~= done);
            pos = j + 1;
        }
    }
    proof {
        assert(lines(v@.skip(pos as int)) =~= seq![]);
        assert(lines(v@) =~= done);
    }
    r
}

/// `parts` joined with `sep` between neighbours.
pub fn join_with(parts: &Vec<Vec<char>>, sep: &Vec<char>) -> (r: Vec<char>)
    ensures
        r@ == join(Seq::new(parts@.len(), |i: int| parts@[i]@), sep@),
{
    let ghost whole = Seq::new(parts@.len(), |i: int| parts@[i]@);
    let mut r: Vec<char> = Vec::new();
    let mut i: usize = 0;
    while i < parts.len()
        invariant
            i <= parts.len(),
            whole == Seq::new(parts@.len(), |i: int| parts@[i]@),
            r@ == join(whole.take(i as int), sep@),
        decreases parts.len() - i,
    {
        if i > 0 {
            push_all(&mut r, sep);
        }
        push_all(&mut r, &parts[i]);
        proof {
            let t = whole.take(i + 1);
            assert(t.drop_last() =~= whole.take(i as int));
            if i == 0 {
                assert(join(whole.take(0), sep@) =~= seq![]);
                assert(r@ =~= t[0]);
            }
        }
        i = i + 1;
    }
    assert(whole.take(parts.len() as int) =~= whole);
    r
}

} // verus!
