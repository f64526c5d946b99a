//! The workspace tree shown beside the editor: which entries of a directory
//! are listed, and in which order. Hidden entries are left out; directories
//! come first, then `.proto` files, each group by name.
use vstd::prelude::*;

use crate::paths::{file_name, file_name_of, hidden, is_hidden};
use crate::text::{chars_of, ends_with, has_suffix, string_from};

verus! {

broadcast use vstd::seq_lib::group_to_multiset_ensures;

/// An entry of a directory: its name and whether it is a directory.
#[derive(Debug)]
pub struct TreeEntry {
    pub name: String,
    pub is_dir: bool,
}

/// An entry as the order sees it: whether it is a directory, and its name.
pub open spec fn entry_key(e: TreeEntry) -> (bool, Seq<char>) {
    (e.is_dir, e.name@)
}

pub open spec fn keys(v: Seq<TreeEntry>) -> Seq<(bool, Seq<char>)> {
    Seq::new(v.len(), |i: int| entry_key(v[i]))
}

/// Names in lexicographic order of their characters, which is the byte
/// order of their UTF-8 text.
pub open spec fn name_le(a: Seq<char>, b: Seq<char>) -> bool
    decreases a.len(),
{
    if a.len() == 0 {
        true
    } else if b.len() == 0 {
        false
    } else if (a[0] as u32) < (b[0] as u32) {
        true
    } else if (a[0] as u32) > (b[0] as u32) {
        false
    } else {
        name_le(a.drop_first(), b.drop_first())
    }
}

/// Directories before files; within each, by name.
pub open spec fn key_le(a: (bool, Seq<char>), b: (bool, Seq<char>)) -> bool {
    (a.0 && !b.0) || (a.0 == b.0 && name_le(a.1, b.1))
}

/// Every entry is at or before every later one.
pub open spec fn sorted(s: Seq<(bool, Seq<char>)>) -> bool {
    forall|i: int, j: int| 0 <= i < j < s.len() ==> key_le(s[i], s[j])
}

/// `Path::extension` is `proto`: the name ends in `.proto` after at least
/// one other character.
pub open spec fn proto_file(name: Seq<char>) -> bool {
    name.len() > 6 && ends_with(name, ".proto"@)
}

/// An entry the tree lists: not hidden, and a directory or a `.proto` file.
pub open spec fn listed(k: (bool, Seq<char>)) -> bool {
    !hidden(k.1) && (k.0 || proto_file(k.1))
}

/// The listed entries among `s`, in order.
pub open spec fn listed_of(s: Seq<(bool, Seq<char>)>) -> Seq<(bool, Seq<char>)>
    decreases s.len(),
{
    if s.len() == 0 {
        seq![]
    } else if listed(s.last()) {
        listed_of(s.drop_last()).push(s.last())
    } else {
        listed_of(s.drop_last())
    }
}

// ---------------------------------------------------------------------------
// The order is total and transitive
// ---------------------------------------------------------------------------
pub proof fn lemma_name_total(a: Seq<char>, b: Seq<char>)
    ensures
        name_le(a, b) || name_le(b, a),
    decreases a.len(),
{
    if a.len() > 0 && b.len() > 0 && (a[0] as u32) == (b[0] as u32) {
        lemma_name_total(a.drop_first(), b.drop_first());
    }
}

pub proof fn lemma_name_trans(a: Seq<char>, b: Seq<char>, c: Seq<char>)
    requires
        name_le(a, b),
        name_le(b, c),
    ensures
        name_le(a, c),
    decreases a.len(),
{
    if a.len() > 0 && b.len() > 0 && c.len() > 0 && (a[0] as u32) == (b[0] as u32) && (b[0] as u32)
        == (c[0] as u32) {
        lemma_name_trans(a.drop_first(), b.drop_first(), c.drop_first());
    }
}

pub proof fn lemma_key_total(a: (bool, Seq<char>), b: (bool, Seq<char>))
    ensures
        key_le(a, b) || key_le(b, a),
{
    lemma_name_total(a.1, b.1);
}

pub proof fn lemma_key_trans(a: (bool, Seq<char>), b: (bool, Seq<char>), c: (bool, Seq<char>))
    requires
        key_le(a, b),
        key_le(b, c),
    ensures
        key_le(a, c),
{
    if a.0 == b.0 && b.0 == c.0 {
        lemma_name_trans(a.1, b.1, c.1);
    }
}

pub proof fn lemma_name_antisymmetric(a: Seq<char>, b: Seq<char>)
    requires
        name_le(a, b),
        name_le(b, a),
    ensures
        a == b,
    decreases a.len(),
{
    if a.len() > 0 && b.len() > 0 {
        lemma_name_antisymmetric(a.drop_first(), b.drop_first());
        let u = a[0] as u32;
        vstd::utf8::char_u32_cast(a[0], u);
        vstd::utf8::char_u32_cast(b[0], u);
        assert(a =~= seq![a[0]] + a.drop_first());
        assert(b =~= seq![b[0]] + b.drop_first());
    }
}

/// The order of the tree is total and antisymmetric on entries, so a
/// listing that is sorted and holds the listed entries is the only one:
/// two entries that each go before or with the other are the same entry.
pub proof fn law_tree_order_is_total(a: (bool, Seq<char>), b: (bool, Seq<char>))
    ensures
        key_le(a, b) || key_le(b, a),
        key_le(a, b) && key_le(b, a) ==> a == b,
{
    lemma_key_total(a, b);
    if key_le(a, b) && key_le(b, a) {
        lemma_name_antisymmetric(a.1, b.1);
    }
}

// ---------------------------------------------------------------------------
// Executable functions
// ---------------------------------------------------------------------------
fn names_le(a: &Vec<char>, b: &Vec<char>) -> (r: bool)
    ensures
        r == name_le(a@, b@),
{
    let mut i: usize = 0;
    assert(a@.skip(0) =~= a@);
    assert(b@.skip(0) =~= b@);
    while i < a.len() && i < b.len()
        invariant
            i <= a.len(),
            i <= b.len(),
            name_le(a@, b@) == name_le(a@.skip(i as int), b@.skip(i as int)),
        decreases a.len() - i,
    {
        assert(a@.skip(i as int)[0] == a@[i as int]);
        assert(b@.skip(i as int)[0] == b@[i as int]);
        if (a[i] as u32) < (b[i] as u32) {
            return true;
        }
        if (a[i] as u32) > (b[i] as u32) {
            return false;
        }
        assert(a@.skip(i as int).drop_first() =~= a@.skip(i + 1));
        assert(b@.skip(i as int).drop_first() =~= b@.skip(i + 1));
        i = i + 1;
    }
    i == a.len()
}

/// Whether entry `a` goes before or with entry `b`.
fn entry_le(a: &TreeEntry, b: &TreeEntry) -> (r: bool)
    ensures
        r == key_le(entry_key(*a), entry_key(*b)),
{
    if a.is_dir && !b.is_dir {
        return true;
    }
    if a.is_dir != b.is_dir {
        return false;
    }
    names_le(&chars_of(a.name.as_str()), &chars_of(b.name.as_str()))
}

fn is_listed(e: &TreeEntry) -> (r: bool)
    ensures
        r == listed(entry_key(*e)),
{
    if is_hidden(e.name.as_str()) {
        return false;
    }
    if e.is_dir {
        return true;
    }
    let v = chars_of(e.name.as_str());
    v.len() > 6 && has_suffix(&v, &chars_of(".proto"))
}

/// The entries of a directory that the tree lists, in the order it lists
/// them: directories first, then `.proto` files, each by name; hidden
/// entries and other files left out.
pub fn tree_children(entries: Vec<TreeEntry>) -> (r: Vec<TreeEntry>)
    ensures
        sorted(keys(r@)),
        keys(r@).to_multiset() == listed_of(keys(entries@)).to_multiset(),
{
    let ghost all = keys(entries@);
    let mut rest = entries;
    let mut r: Vec<TreeEntry> = Vec::new();
    let ghost mut done: Seq<(bool, Seq<char>)> = seq![];
    assert(keys(r@) =~= seq![]);
    while rest.len() > 0
        invariant
            all == done + keys(rest@),
            sorted(keys(r@)),
            keys(r@).to_multiset() == listed_of(done).to_multiset(),
        decreases rest@.len(),
    {
        let ghost before_rest = keys(rest@);
        let e = rest.remove(0);
        let ghost k = entry_key(e);
        assert(keys(rest@) =~= before_rest.drop_first());
        assert(before_rest[0] == k);
        proof {
            assert(done.push(k) + keys(rest@) =~= done + before_rest);
            assert(done.push(k).drop_last() =~= done);
        }
        if is_listed(&e) {
            let mut p: usize = 0;
            while p < r.len() && entry_le(&r[p], &e)
                invariant
                    p <= r.len(),
                    k == entry_key(e),
                    sorted(keys(r@)),
                    forall|j: int| 0 <= j < p ==> key_le(#[trigger] keys(r@)[j], k),
                decreases r.len() - p,
            {
                assert(keys(r@)[p as int] == entry_key(r@[p as int]));
                p = p + 1;
            }
            let ghost old_keys = keys(r@);
            proof {
                if p < r.len() {
                    assert(!key_le(old_keys[p as int], k));
                    lemma_key_total(old_keys[p as int], k);
                }
            }
            r.insert(p, e);
            proof {
                let nk = keys(r@);
                assert(nk =~= old_keys.insert(p as int, k));
                assert forall|i: int, j: int| 0 <= i < j < nk.len() implies key_le(nk[i], nk[j]) by {
                    if j < p {
                        assert(nk[i] == old_keys[i] && nk[j] == old_keys[j]);
                    } else if j == p {
                        assert(nk[i] == old_keys[i]);
                    } else if i < p {
                        assert(nk[i] == old_keys[i] && nk[j] == old_keys[j - 1]);
                        assert(key_le(old_keys[i], k));
                        assert(key_le(k, old_keys[p as int]));
                        lemma_key_trans(old_keys[i], k, old_keys[p as int]);
                        if j - 1 > p {
                            lemma_key_trans(old_keys[i], old_keys[p as int], old_keys[j - 1]);
                        }
                    } else if i == p {
                        assert(nk[j] == old_keys[j - 1]);
                        if j - 1 > p {
                            lemma_key_trans(k, old_keys[p as int], old_keys[j - 1]);
                        }
                    } else {
                        assert(nk[i] == old_keys[i - 1] && nk[j] == old_keys[j - 1]);
                    }
                }
                vstd::seq_lib::to_multiset_insert(old_keys, p as int, k);
                vstd::seq_lib::to_multiset_build(listed_of(done), k);
                done = done.push(k);
            }
        } else {
            proof {
                done = done.push(k);
            }
        }
    }
    proof {
        assert(done =~= all);
    }
    r
}

/// The name a tree node shows: the path's file name, or `workspace`.
pub open spec fn node_name(path: Seq<char>) -> Seq<char> {
    match file_name(path) {
        Some(n) => n,
        None => "workspace"@,
    }
}

/// The name of the tree node of `path`.
pub fn tree_node_name(path: &str) -> (r: String)
    ensures
        r@ == node_name(path@),
{
    match file_name_of(&chars_of(path)) {
        Some(n) => string_from(&n),
        None => "workspace".to_owned(),
    }
}

} // verus!
