//! Request JSON written by hand, brought to the field names that protobuf's
//! JSON mapping expects: a field may be written under its JSON name, its
//! proto name, its proto name without underscores, or its JSON name in
//! lower case; each field found is moved to its JSON name, nested messages
//! are treated the same way, and keys that match no field are kept.
use vstd::prelude::*;

use crate::json::{
    copy_json, entry_insert, key_index, lemma_key_from, entry_views, item_views, lemma_array_view, lemma_object_view,
    object_insert, JsonValue, JsonView,
};
use crate::template::{
    field_is_list, field_is_map, is_list, is_map, kind_ok, model_wf, DescriptorModel, FieldKind,
    FieldModel,
};

verus! {

// ---------------------------------------------------------------------------
// Candidate keys
// ---------------------------------------------------------------------------
/// `s` without any `c`.
pub open spec fn without_char(s: Seq<char>, c: char) -> Seq<char>
    decreases s.len(),
{
    if s.len() == 0 {
        seq![]
    } else if s.last() == c {
        without_char(s.drop_last(), c)
    } else {
        without_char(s.drop_last(), c).push(s.last())
    }
}

/// An ASCII capital letter in lower case; any other character unchanged.
pub open spec fn lower_char(c: char) -> char {
    if 'A' <= c && c <= 'Z' {
        ((c as u32) + 32) as char
    } else {
        c
    }
}

/// `s` with its ASCII capitals in lower case.
pub open spec fn ascii_lower(s: Seq<char>) -> Seq<char> {
    Seq::new(s.len(), |i: int| lower_char(s[i]))
}

/// The keys a field may be written under, in the order they are tried.
pub open spec fn candidate_keys(f: FieldModel) -> Seq<Seq<char>> {
    seq![f.json_name@, f.name@, without_char(f.name@, '_'), ascii_lower(f.json_name@)]
}

fn lower(c: char) -> (r: char)
    ensures
        r == lower_char(c),
{
    if 'A' <= c && c <= 'Z' {
        let b = (c as u32) as u8;
        ((b + 32) as u8) as char
    } else {
        c
    }
}

fn lowered(s: &String) -> (r: String)
    ensures
        r@ == ascii_lower(s@),
{
    let mut r = String::new();
    for c in iter: s.chars()
        invariant
            iter.seq() == s@,
            r@ == ascii_lower(s@.take(iter.index() as int)),
    {
        let ghost before = r@;
        crate::text::push_char(&mut r, lower(c));
        assert(ascii_lower(s@.take(iter.index() + 1)) =~= before.push(lower_char(c)));
    }
    assert(s@.take(s@.len() as int) =~= s@);
    r
}

fn without_underscores(s: &String) -> (r: String)
    ensures
        r@ == without_char(s@, '_'),
{
    let mut r = String::new();
    for c in iter: s.chars()
        invariant
            iter.seq() == s@,
            r@ == without_char(s@.take(iter.index() as int), '_'),
    {
        assert(s@.take(iter.index() + 1).drop_last() =~= s@.take(iter.index() as int));
        if c != '_' {
            crate::text::push_char(&mut r, c);
        }
    }
    assert(s@.take(s@.len() as int) =~= s@);
    r
}

fn candidates_of(f: &FieldModel) -> (r: Vec<String>)
    ensures
        Seq::new(r@.len(), |i: int| r@[i]@) == candidate_keys(*f),
{
    let mut r: Vec<String> = Vec::new();
    r.push(f.json_name.clone());
    r.push(f.name.clone());
    r.push(without_underscores(&f.name));
    r.push(lowered(&f.json_name));
    assert(Seq::new(r@.len(), |i: int| r@[i]@) =~= candidate_keys(*f));
    r
}

// ---------------------------------------------------------------------------
// Specification
// ---------------------------------------------------------------------------
/// The first entry at or after `i` with key `key` that is not yet taken, or -1.
pub open spec fn free_key_from(
    es: Seq<(Seq<char>, JsonView)>,
    taken: Set<int>,
    key: Seq<char>,
    i: int,
) -> int
    decreases es.len() - i,
{
    if i < 0 || i >= es.len() {
        -1
    } else if es[i].0 == key && !taken.contains(i) {
        i
    } else {
        free_key_from(es, taken, key, i + 1)
    }
}

/// The entry that the first candidate key from `c` on finds, or -1.
pub open spec fn pick_from(
    es: Seq<(Seq<char>, JsonView)>,
    taken: Set<int>,
    cands: Seq<Seq<char>>,
    c: int,
) -> int
    decreases cands.len() - c,
{
    if c < 0 || c >= cands.len() {
        -1
    } else if free_key_from(es, taken, cands[c], 0) >= 0 {
        free_key_from(es, taken, cands[c], 0)
    } else {
        pick_from(es, taken, cands, c + 1)
    }
}

pub proof fn lemma_free_key_from(
    es: Seq<(Seq<char>, JsonView)>,
    taken: Set<int>,
    key: Seq<char>,
    i: int,
)
    requires
        0 <= i,
    ensures
        free_key_from(es, taken, key, i) == -1 || (i <= free_key_from(es, taken, key, i) < es.len()),
    decreases es.len() - i,
{
    if i < es.len() && !(es[i].0 == key && !taken.contains(i)) {
        lemma_free_key_from(es, taken, key, i + 1);
    }
}

pub proof fn lemma_pick_from(
    es: Seq<(Seq<char>, JsonView)>,
    taken: Set<int>,
    cands: Seq<Seq<char>>,
    c: int,
)
    requires
        0 <= c,
    ensures
        pick_from(es, taken, cands, c) == -1 || (0 <= pick_from(es, taken, cands, c) < es.len()),
    decreases cands.len() - c,
{
    if c < cands.len() {
        lemma_free_key_from(es, taken, cands[c], 0);
        lemma_pick_from(es, taken, cands, c + 1);
    }
}

/// The target entries after the entries of `es` not taken, from `i` on,
/// are added under their own keys.
pub open spec fn leftovers(
    es: Seq<(Seq<char>, JsonView)>,
    taken: Set<int>,
    i: int,
    tgt: Seq<(Seq<char>, JsonView)>,
) -> Seq<(Seq<char>, JsonView)>
    decreases es.len() - i,
{
    if i < 0 || i >= es.len() {
        tgt
    } else if taken.contains(i) {
        leftovers(es, taken, i + 1, tgt)
    } else {
        leftovers(es, taken, i + 1, entry_insert(tgt, es[i].0, es[i].1))
    }
}

/// The number of fields of message `m`.
pub open spec fn field_count(d: DescriptorModel, m: int) -> int {
    d.messages@[m].fields@.len() as int
}

/// A request value for message `m`: an object has its fields moved to their
/// JSON names; any other value is kept.
pub open spec fn normalize(d: DescriptorModel, m: int, v: JsonView) -> JsonView
    decreases v, 2int, 0int,
{
    match v {
        JsonView::Object(es) => JsonView::Object(normalize_entries(d, m, v, Set::empty(), 0, seq![])),
        _ => v,
    }
}

/// The entries of the normalized object `v`, with the fields of `m` from `k`
/// on still to look for, the entries in `taken` used, and `tgt` so far.
pub open spec fn normalize_entries(
    d: DescriptorModel,
    m: int,
    v: JsonView,
    taken: Set<int>,
    k: int,
    tgt: Seq<(Seq<char>, JsonView)>,
) -> Seq<(Seq<char>, JsonView)>
    decreases v, 1int, field_count(d, m) - k,
{
    let es = match v {
        JsonView::Object(es) => es,
        _ => seq![],
    };
    if k < 0 || k >= field_count(d, m) {
        leftovers(es, taken, 0, tgt)
    } else {
        let f = d.messages@[m].fields@[k];
        let j = pick_from(es, taken, candidate_keys(f), 0);
        if j >= 0 && j < es.len() {
            proof {
                assert(decreases_to!(v => v->Object_0));
                assert(decreases_to!(v => es[j]));
                assert(decreases_to!(v => es[j].1));
            }
            normalize_entries(
                d,
                m,
                v,
                taken.insert(j),
                k + 1,
                entry_insert(tgt, f.json_name@, normalize_field(d, f, es[j].1)),
            )
        } else {
            normalize_entries(d, m, v, taken, k + 1, tgt)
        }
    }
}

/// The value of field `f` in a request: the items of a list of messages and
/// a message value are normalized; anything else is kept.
pub open spec fn normalize_field(d: DescriptorModel, f: FieldModel, x: JsonView) -> JsonView
    decreases x, 3int, 0int,
{
    match f.kind {
        FieldKind::Message(m) => if is_list(d, f) {
            match x {
                JsonView::Array(items) => JsonView::Array(normalize_items(d, m as int, x, 0)),
                _ => x,
            }
        } else if !is_map(d, f) {
            normalize(d, m as int, x)
        } else {
            x
        },
        _ => x,
    }
}

/// The items of the array `x` from `j` on, each normalized for message `m`.
pub open spec fn normalize_items(d: DescriptorModel, m: int, x: JsonView, j: int) -> Seq<JsonView>
    decreases x, 1int, (match x {
        JsonView::Array(items) => items.len() as int,
        _ => 0int,
    }) - j,
{
    let items = match x {
        JsonView::Array(items) => items,
        _ => seq![],
    };
    if j < 0 || j >= items.len() {
        seq![]
    } else {
        proof {
            assert(decreases_to!(x => x->Array_0));
            assert(decreases_to!(x => items[j]));
        }
        seq![normalize(d, m, items[j])] + normalize_items(d, m, x, j + 1)
    }
}

// ---------------------------------------------------------------------------
// Executable functions
// ---------------------------------------------------------------------------
/// The strings, each by its view.
pub open spec fn string_views(v: Seq<String>) -> Seq<Seq<char>> {
    Seq::new(v.len(), |i: int| v[i]@)
}

/// The indices whose flag is set.
pub open spec fn taken_set(flags: Seq<bool>) -> Set<int> {
    Set::new(|i: int| 0 <= i < flags.len() && flags[i])
}

fn pick_entry(es: &Vec<(String, JsonValue)>, taken: &Vec<bool>, cands: &Vec<String>) -> (r: Option<
    usize,
>)
    requires
        taken@.len() == es@.len(),
    ensures
        match r {
            Some(j) => j as int == pick_from(
                entry_views(es@),
                taken_set(taken@),
                string_views(cands@),
                0,
            ) && j < es@.len(),
            None => pick_from(entry_views(es@), taken_set(taken@), string_views(cands@), 0) == -1,
        },
{
    let ghost ev = entry_views(es@);
    let ghost ts = taken_set(taken@);
    let ghost cs = string_views(cands@);
    let mut c: usize = 0;
    while c < cands.len()
        invariant
            taken@.len() == es@.len(),
            ev == entry_views(es@),
            ts == taken_set(taken@),
            cs == string_views(cands@),
            c <= cands@.len(),
            pick_from(ev, ts, cs, 0) == pick_from(ev, ts, cs, c as int),
        decreases cands@.len() - c,
    {
        let mut i: usize = 0;
        while i < es.len()
            invariant
                taken@.len() == es@.len(),
                ev == entry_views(es@),
                ts == taken_set(taken@),
                cs == string_views(cands@),
                c < cands@.len(),
                i <= es@.len(),
                pick_from(ev, ts, cs, 0) == pick_from(ev, ts, cs, c as int),
                free_key_from(ev, ts, cs[c as int], 0) == free_key_from(ev, ts, cs[c as int], i as int),
            decreases es@.len() - i,
        {
            assert(ev[i as int].0 == es@[i as int].0@);
            assert(ts.contains(i as int) == taken@[i as int]);
            if !taken[i] && es[i].0 == cands[c] {
                return Some(i);
            }
            i = i + 1;
        }
        c = c + 1;
    }
    None
}

fn all_false(n: usize) -> (r: Vec<bool>)
    ensures
        r@.len() == n,
        taken_set(r@) == Set::<int>::empty(),
{
    let mut r: Vec<bool> = Vec::new();
    let mut i: usize = 0;
    while i < n
        invariant
            i <= n,
            r@.len() == i,
            forall|j: int| 0 <= j < i ==> !r@[j],
        decreases n - i,
    {
        r.push(false);
        i = i + 1;
    }
    assert(taken_set(r@) =~= Set::<int>::empty());
    r
}

fn normalize_value(model: &DescriptorModel, message: usize, value: &JsonValue) -> (r: JsonValue)
    requires
        model_wf(*model),
        message < model.messages@.len(),
    ensures
        r@ == normalize(*model, message as int, value@),
    decreases *value, 2int, 0int,
{
    match value {
        JsonValue::Object(es) => {
            let ghost v = value@;
            let ghost ev = entry_views(es@);
            proof {
                lemma_object_view(*es);
            }
            let fields = &model.messages[message].fields;
            let mut taken = all_false(es.len());
            let mut tgt: Vec<(String, JsonValue)> = Vec::new();
            assert(entry_views(tgt@) =~= seq![]);
            let mut k: usize = 0;
            while k < fields.len()
                invariant
                    model_wf(*model),
                    message < model.messages@.len(),
                    *fields == model.messages@[message as int].fields,
                    *value == JsonValue::Object(*es),
                    v == value@,
                    v == JsonView::Object(ev),
                    ev == entry_views(es@),
                    taken@.len() == es@.len(),
                    k <= fields@.len(),
                    normalize_entries(
                        *model,
                        message as int,
                        v,
                        taken_set(taken@),
                        k as int,
                        entry_views(tgt@),
                    ) == normalize_entries(*model, message as int, v, Set::empty(), 0, seq![]),
                decreases fields@.len() - k,
            {
                let f = &fields[k];
                assert(kind_ok(*model, model.messages@[message as int].fields@[k as int].kind));
                let cands = candidates_of(f);
                assert(string_views(cands@) =~= candidate_keys(*f));
                match pick_entry(es, &taken, &cands) {
                    Some(j) => {
                        proof {
                            vstd::std_specs::vec::axiom_vec_index_decreases(*es, j as int);
                            assert(decreases_to!(*value => value->Object_0));
                            assert(decreases_to!(*value => es@[j as int]));
                            assert(decreases_to!(*value => es@[j as int].1));
                        }
                        let nv = normalize_field_value(model, f, &es[j].1);
                        let ghost before = taken@;
                        taken.set(j, true);
                        assert(taken_set(taken@) =~= taken_set(before).insert(j as int));
                        object_insert(&mut tgt, f.json_name.clone(), nv);
                    },
                    None => {},
                }
                k = k + 1;
            }
            let mut i: usize = 0;
            while i < es.len()
                invariant
                    *value == JsonValue::Object(*es),
                    v == JsonView::Object(ev),
                    ev == entry_views(es@),
                    taken@.len() == es@.len(),
                    i <= es@.len(),
                    leftovers(ev, taken_set(taken@), i as int, entry_views(tgt@)) == normalize_entries(
                        *model,
                        message as int,
                        v,
                        Set::empty(),
                        0,
                        seq![],
                    ),
                decreases es@.len() - i,
            {
                assert(taken_set(taken@).contains(i as int) == taken@[i as int]);
                if !taken[i] {
                    let c = copy_json(&es[i].1);
                    object_insert(&mut tgt, es[i].0.clone(), c);
                }
                i = i + 1;
            }
            proof {
                lemma_object_view(tgt);
            }
            JsonValue::Object(tgt)
        },
        _ => copy_json(value),
    }
}

fn normalize_field_value(model: &DescriptorModel, field: &FieldModel, x: &JsonValue) -> (r:
    JsonValue)
    requires
        model_wf(*model),
        kind_ok(*model, field.kind),
    ensures
        r@ == normalize_field(*model, *field, x@),
    decreases *x, 3int, 0int,
{
    match field.kind {
        FieldKind::Message(m) => {
            if field_is_list(model, field) {
                match x {
                    JsonValue::Array(items) => {
                        proof {
                            lemma_array_view(*items);
                        }
                        let ghost xv = x@;
                        let mut out: Vec<JsonValue> = Vec::new();
                        let mut j: usize = 0;
                        while j < items.len()
                            invariant
                                model_wf(*model),
                                m < model.messages@.len(),
                                *x == JsonValue::Array(*items),
                                xv == x@,
                                xv == JsonView::Array(item_views(items@)),
                                j <= items@.len(),
                                item_views(out@) + normalize_items(*model, m as int, xv, j as int)
                                    == normalize_items(*model, m as int, xv, 0),
                            decreases items@.len() - j,
                        {
                            proof {
                                vstd::std_specs::vec::axiom_vec_index_decreases(*items, j as int);
                                assert(decreases_to!(*x => x->Array_0));
                                assert(decreases_to!(*x => items@[j as int]));
                            }
                            let n = normalize_value(model, m, &items[j]);
                            let ghost before = out@;
                            out.push(n);
                            assert(item_views(out@) =~= item_views(before).push(n@));
                            assert(normalize_items(*model, m as int, xv, j as int) =~= seq![n@]
                                + normalize_items(*model, m as int, xv, j + 1));
                            assert(item_views(out@) + normalize_items(
                                *model,
                                m as int,
                                xv,
                                j + 1,
                            ) =~= item_views(before) + normalize_items(
                                *model,
                                m as int,
                                xv,
                                j as int,
                            ));
                            j = j + 1;
                        }
                        assert(item_views(out@) + normalize_items(
                            *model,
                            m as int,
                            xv,
                            j as int,
                        ) =~= item_views(out@));
                        proof {
                            lemma_array_view(out);
                        }
                        JsonValue::Array(out)
                    },
                    _ => copy_json(x),
                }
            } else if !field_is_map(model, field) {
                normalize_value(model, m, x)
            } else {
                copy_json(x)
            }
        },
        _ => copy_json(x),
    }
}

/// The request value for message `message` with its fields under their
/// JSON names.
pub fn normalize_request_json(model: &DescriptorModel, message: usize, value: JsonValue) -> (r:
    JsonValue)
    requires
        model_wf(*model),
        message < model.messages@.len(),
    ensures
        r@ == normalize(*model, message as int, value@),
{
    normalize_value(model, message, &value)
}

/// The request value of one field, normalized as its type asks.
pub fn normalize_field_json(model: &DescriptorModel, field: &FieldModel, value: JsonValue) -> (r:
    JsonValue)
    requires
        model_wf(*model),
        kind_ok(*model, field.kind),
    ensures
        r@ == normalize_field(*model, *field, value@),
{
    normalize_field_value(model, field, &value)
}

// ---------------------------------------------------------------------------
// Laws
// ---------------------------------------------------------------------------
/// A value that is not an object is sent as it is.
pub proof fn law_normalize_keeps_non_objects(d: DescriptorModel, m: int, v: JsonView)
    requires
        !(v is Object),
    ensures
        normalize(d, m, v) == v,
{
}

/// No two entries have the same key.
pub open spec fn distinct_keys(es: Seq<(Seq<char>, JsonView)>) -> bool {
    forall|i: int, j: int| 0 <= i < j < es.len() ==> es[i].0 != es[j].0
}

/// No key of the entries is a key that a field of message `m` may be
/// written under.
pub open spec fn no_field_keys(d: DescriptorModel, m: int, es: Seq<(Seq<char>, JsonView)>) -> bool {
    forall|k: int, c: int, i: int|
        0 <= k < field_count(d, m) && 0 <= c < 4 && 0 <= i < es.len() ==> #[trigger] es[i].0
            != #[trigger] candidate_keys(d.messages@[m].fields@[k])[c]
}

proof fn lemma_free_key_none(es: Seq<(Seq<char>, JsonView)>, taken: Set<int>, key: Seq<char>, i: int)
    requires
        0 <= i,
        forall|j: int| i <= j < es.len() ==> es[j].0 != key,
    ensures
        free_key_from(es, taken, key, i) == -1,
    decreases es.len() - i,
{
    if i < es.len() {
        lemma_free_key_none(es, taken, key, i + 1);
    }
}

proof fn lemma_pick_none(es: Seq<(Seq<char>, JsonView)>, taken: Set<int>, cands: Seq<Seq<char>>, c: int)
    requires
        0 <= c,
        forall|x: int, j: int| c <= x < cands.len() && 0 <= j < es.len() ==> es[j].0 != cands[x],
    ensures
        pick_from(es, taken, cands, c) == -1,
    decreases cands.len() - c,
{
    if c < cands.len() {
        lemma_free_key_none(es, taken, cands[c], 0);
        lemma_pick_none(es, taken, cands, c + 1);
    }
}

proof fn lemma_no_field_taken(d: DescriptorModel, m: int, es: Seq<(Seq<char>, JsonView)>, k: int)
    requires
        0 <= k,
        no_field_keys(d, m, es),
    ensures
        normalize_entries(d, m, JsonView::Object(es), Set::empty(), k, seq![]) == leftovers(
            es,
            Set::empty(),
            0,
            seq![],
        ),
    decreases field_count(d, m) - k,
{
    if k < field_count(d, m) {
        let f = d.messages@[m].fields@[k];
        let cands = candidate_keys(f);
        assert forall|x: int, j: int| 0 <= x < cands.len() && 0 <= j < es.len() implies es[j].0
            != cands[x] by {
            assert(es[j].0 != candidate_keys(d.messages@[m].fields@[k])[x]);
        }
        lemma_pick_none(es, Set::empty(), cands, 0);
        lemma_no_field_taken(d, m, es, k + 1);
    }
}

proof fn lemma_leftovers_all(es: Seq<(Seq<char>, JsonView)>, i: int)
    requires
        distinct_keys(es),
        0 <= i <= es.len(),
    ensures
        leftovers(es, Set::empty(), i, es.take(i)) == es,
    decreases es.len() - i,
{
    if i == es.len() {
        assert(es.take(i) =~= es);
    } else {
        let t = es.take(i);
        lemma_key_from(t, es[i].0, 0);
        if key_index(t, es[i].0) >= 0 {
            let x = key_index(t, es[i].0);
            assert(t[x] == es[x]);
        }
        assert(entry_insert(t, es[i].0, es[i].1) =~= es.take(i + 1));
        lemma_leftovers_all(es, i + 1);
    }
}

/// An object none of whose keys a field of the message may be written
/// under, and with no key twice, is sent as it is.
pub proof fn law_normalize_keeps_unknown_keys(d: DescriptorModel, m: int, es: Seq<(Seq<char>, JsonView)>)
    requires
        distinct_keys(es),
        no_field_keys(d, m, es),
    ensures
        normalize(d, m, JsonView::Object(es)) == JsonView::Object(es),
{
    lemma_no_field_taken(d, m, es, 0);
    assert(es.take(0) =~= seq![]);
    lemma_leftovers_all(es, 0);
}

} // verus!
