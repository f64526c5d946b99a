//! A JSON value held as plain data, with objects as ordered entries.
use vstd::prelude::*;

verus! {

/// A JSON value.
#[derive(Debug, PartialEq)]
pub enum JsonValue {
    Null,
    Bool(bool),
    /// A number, as JSON writes it.
    Number(String),
    Str(String),
    Array(Vec<JsonValue>),
    /// Entries in order; keys are distinct.
    Object(Vec<(String, JsonValue)>),
}

/// The mathematical form of a JSON value.
pub enum JsonView {
    Null,
    Bool(bool),
    Number(Seq<char>),
    Str(Seq<char>),
    Array(Seq<JsonView>),
    Object(Seq<(Seq<char>, JsonView)>),
}

impl View for JsonValue {
    type V = JsonView;

    open spec fn view(&self) -> JsonView
        decreases self,
    {
        match self {
            JsonValue::Null => JsonView::Null,
            JsonValue::Bool(b) => JsonView::Bool(*b),
            JsonValue::Number(n) => JsonView::Number(n@),
            JsonValue::Str(s) => JsonView::Str(s@),
            JsonValue::Array(items) => JsonView::Array(
                Seq::new(
                    items@.len(),
                    |i: int|
                        if 0 <= i < items@.len() {
                            items@[i].view()
                        } else {
                            JsonView::Null
                        },
                ),
            ),
            JsonValue::Object(entries) => JsonView::Object(
                Seq::new(
                    entries@.len(),
                    |i: int|
                        (
                            entries@[i].0@,
                            if 0 <= i < entries@.len() {
                                entries@[i].1.view()
                            } else {
                                JsonView::Null
                            },
                        ),
                ),
            ),
        }
    }
}

/// A copy of a JSON value.
pub fn copy_json(v: &JsonValue) -> (r: JsonValue)
    ensures
        r@ == v@,
    decreases v,
{
    match v {
        JsonValue::Null => JsonValue::Null,
        JsonValue::Bool(b) => JsonValue::Bool(*b),
        JsonValue::Number(n) => JsonValue::Number(n.clone()),
        JsonValue::Str(s) => JsonValue::Str(s.clone()),
        JsonValue::Array(items) => {
            let mut out: Vec<JsonValue> = Vec::new();
            let mut i: usize = 0;
            while i < items.len()
                invariant
                    i <= items@.len(),
                    *v == JsonValue::Array(*items),
                    out@.len() == i,
                    forall|j: int| 0 <= j < i ==> #[trigger] out@[j]@ == items@[j]@,
                decreases items@.len() - i,
            {
                proof {
                    vstd::std_specs::vec::axiom_vec_index_decreases(*items, i as int);
                    assert(decreases_to!(*v => v->Array_0));
                    assert(decreases_to!(*v => items@[i as int]));
                }
                let c = copy_json(&items[i]);
                out.push(c);
                i = i + 1;
            }
            let r = JsonValue::Array(out);
            proof {
                let ra = r@->Array_0;
                let vb = v@->Array_0;
                assert(ra.len() == vb.len());
                assert forall|j: int| 0 <= j < ra.len() implies ra[j] == vb[j] by {
                    assert(ra[j] == out@[j]@);
                    assert(vb[j] == items@[j]@);
                }
                assert(ra =~= vb);
            }
            r
        },
        JsonValue::Object(entries) => {
            let mut out: Vec<(String, JsonValue)> = Vec::new();
            let mut i: usize = 0;
            while i < entries.len()
                invariant
                    i <= entries@.len(),
                    *v == JsonValue::Object(*entries),
                    out@.len() == i,
                    forall|j: int|
                        0 <= j < i ==> #[trigger] out@[j].0@ == entries@[j].0@ && out@[j].1@
                            == entries@[j].1@,
                decreases entries@.len() - i,
            {
                proof {
                    vstd::std_specs::vec::axiom_vec_index_decreases(*entries, i as int);
                    assert(decreases_to!(*v => v->Object_0));
                    assert(decreases_to!(*v => entries@[i as int]));
                    assert(decreases_to!(*v => entries@[i as int].1));
                }
                let c = copy_json(&entries[i].1);
                out.push((entries[i].0.clone(), c));
                i = i + 1;
            }
            let r = JsonValue::Object(out);
            proof {
                let ra = r@->Object_0;
                let vb = v@->Object_0;
                let w = JsonValue::Object(*entries);
                assert(w@ == v@);
                assert(w@->Object_0.len() == entries@.len());
                assert(vb.len() == entries@.len());
                assert(ra.len() == out@.len());
                assert(ra.len() == vb.len());
                assert forall|j: int| 0 <= j < ra.len() implies ra[j] == vb[j] by {
                    assert(ra[j] == (out@[j].0@, out@[j].1@));
                    assert(vb[j] == (entries@[j].0@, entries@[j].1@));
                }
                assert(ra =~= vb);
            }
            r
        },
    }
}


/// The entries of an object, each key and value by its view.
pub open spec fn entry_views(es: Seq<(String, JsonValue)>) -> Seq<(Seq<char>, JsonView)> {
    Seq::new(es.len(), |i: int| (es[i].0@, es[i].1@))
}

/// The items of an array, each by its view.
pub open spec fn item_views(vs: Seq<JsonValue>) -> Seq<JsonView> {
    Seq::new(vs.len(), |i: int| vs[i]@)
}

pub proof fn lemma_object_view(es: Vec<(String, JsonValue)>)
    ensures
        JsonValue::Object(es)@ == JsonView::Object(entry_views(es@)),
{
    let w = JsonValue::Object(es);
    assert(w@->Object_0 =~= entry_views(es@));
}

pub proof fn lemma_array_view(vs: Vec<JsonValue>)
    ensures
        JsonValue::Array(vs)@ == JsonView::Array(item_views(vs@)),
{
    let w = JsonValue::Array(vs);
    assert(w@->Array_0 =~= item_views(vs@));
}

/// The first index at or after `i` whose key is `key`, or -1.
pub open spec fn key_from(es: Seq<(Seq<char>, JsonView)>, key: Seq<char>, i: int) -> int
    decreases es.len() - i,
{
    if i < 0 || i >= es.len() {
        -1
    } else if es[i].0 == key {
        i
    } else {
        key_from(es, key, i + 1)
    }
}

/// The index of the entry with key `key`, or -1.
pub open spec fn key_index(es: Seq<(Seq<char>, JsonView)>, key: Seq<char>) -> int {
    key_from(es, key, 0)
}

/// The entries after `key` is set to `value`, as a map insertion does:
/// an entry with that key takes the new value, else one is added at the end.
pub open spec fn entry_insert(es: Seq<(Seq<char>, JsonView)>, key: Seq<char>, value: JsonView) -> Seq<
    (Seq<char>, JsonView),
> {
    let i = key_index(es, key);
    if i >= 0 {
        es.update(i, (key, value))
    } else {
        es.push((key, value))
    }
}

pub proof fn lemma_key_from(es: Seq<(Seq<char>, JsonView)>, key: Seq<char>, i: int)
    requires
        0 <= i,
    ensures
        key_from(es, key, i) == -1 || (i <= key_from(es, key, i) < es.len() && es[key_from(
            es,
            key,
            i,
        )].0 == key),
        forall|j: int|
            i <= j < es.len() && (key_from(es, key, i) == -1 || j < key_from(es, key, i))
                ==> es[j].0 != key,
    decreases es.len() - i,
{
    if i < es.len() && es[i].0 != key {
        lemma_key_from(es, key, i + 1);
    }
}

/// The index of the entry of `es` whose key is `key`, if there is one.
pub fn find_key(es: &Vec<(String, JsonValue)>, key: &String) -> (r: Option<usize>)
    ensures
        match r {
            Some(i) => i as int == key_index(entry_views(es@), key@),
            None => key_index(entry_views(es@), key@) == -1,
        },
{
    let ghost ev = entry_views(es@);
    let mut i: usize = 0;
    while i < es.len()
        invariant
            i <= es@.len(),
            ev == entry_views(es@),
            key_from(ev, key@, 0) == key_from(ev, key@, i as int),
        decreases es@.len() - i,
    {
        assert(ev[i as int].0 == es@[i as int].0@);
        if es[i].0 == *key {
            return Some(i);
        }
        i = i + 1;
    }
    None
}

/// Sets `key` to `value` in the entries of an object.
pub fn object_insert(es: &mut Vec<(String, JsonValue)>, key: String, value: JsonValue)
    ensures
        entry_views(final(es)@) == entry_insert(entry_views(old(es)@), key@, value@),
{
    let ghost kv = key@;
    let ghost vv = value@;
    proof {
        lemma_key_from(entry_views(es@), kv, 0);
    }
    match find_key(es, &key) {
        Some(i) => {
            es.set(i, (key, value));
            assert(entry_views(es@) =~= entry_insert(entry_views(old(es)@), kv, vv));
        },
        None => {
            es.push((key, value));
            assert(entry_views(es@) =~= entry_insert(entry_views(old(es)@), kv, vv));
        },
    }
}

/// An object with no entries.
pub fn empty_object() -> (r: JsonValue)
    ensures
        r@ == JsonView::Object(seq![]),
{
    let es: Vec<(String, JsonValue)> = Vec::new();
    proof {
        lemma_object_view(es);
        assert(entry_views(es@) =~= seq![]);
    }
    JsonValue::Object(es)
}

} // verus!
