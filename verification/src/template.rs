//! The messages of a compiled descriptor as plain data, and what the editor
//! derives from them: the JSON template of a request, the summary of each
//! field, and the type label that a field is shown with.
use vstd::prelude::*;

use crate::grpc::{grpc_method_path, method_path};
use crate::proto::ProtoMethodInfo;
use crate::source::{extract_rpc_source, rpc_source, rpc_source_fits};
use crate::text::{ends_with, push_char};
use crate::json::{
    key_index, lemma_key_from, copy_json, empty_object, entry_insert, entry_views, item_views, lemma_array_view, lemma_object_view,
    object_insert, JsonValue, JsonView,
};

verus! {

// ---------------------------------------------------------------------------
// The model
// ---------------------------------------------------------------------------
/// The type of a field. `Enum` and `Message` hold an index into the enums
/// or the messages of the model.
#[derive(Clone, Copy, Debug)]
pub enum FieldKind {
    Double,
    Float,
    Int32,
    Int64,
    Uint32,
    Uint64,
    Sint32,
    Sint64,
    Fixed32,
    Fixed64,
    Sfixed32,
    Sfixed64,
    Bool,
    Str,
    Bytes,
    Enum(usize),
    Message(usize),
}

/// How many times a field may appear.
#[derive(Clone, Copy, Debug, PartialEq, Eq, Structural)]
pub enum Cardinality {
    Optional,
    Required,
    Repeated,
}

/// A field of a message.
#[derive(Debug)]
pub struct FieldModel {
    pub name: String,
    pub json_name: String,
    pub number: u32,
    pub kind: FieldKind,
    pub cardinality: Cardinality,
    /// The name of the oneof that holds the field.
    pub oneof: Option<String>,
    /// The field's options, as JSON.
    pub options: JsonValue,
}

/// A message type.
#[derive(Debug)]
pub struct MessageModel {
    pub full_name: String,
    /// Whether the message is the entry type of a map field.
    pub map_entry: bool,
    pub fields: Vec<FieldModel>,
    /// The message's options, as JSON.
    pub options: JsonValue,
}

/// An enum type, with its values in declaration order.
#[derive(Debug)]
pub struct EnumModel {
    pub full_name: String,
    pub values: Vec<(String, i32)>,
}

/// The message and enum types of a descriptor pool.
#[derive(Debug)]
pub struct DescriptorModel {
    pub messages: Vec<MessageModel>,
    pub enums: Vec<EnumModel>,
}

/// The first field at or after `i` with this number, or -1.
pub open spec fn number_from(fs: Seq<FieldModel>, number: u32, i: int) -> int
    decreases fs.len() - i,
{
    if i < 0 || i >= fs.len() {
        -1
    } else if fs[i].number == number {
        i
    } else {
        number_from(fs, number, i + 1)
    }
}

/// The index of the value field (number 2) of a map entry message.
pub open spec fn value_field_index(m: MessageModel) -> int {
    number_from(m.fields@, 2, 0)
}

/// An index of the kind points into the model.
pub open spec fn kind_ok(d: DescriptorModel, k: FieldKind) -> bool {
    match k {
        FieldKind::Enum(e) => e < d.enums@.len(),
        FieldKind::Message(m) => m < d.messages@.len(),
        _ => true,
    }
}

/// Every index of the model points into it, and every map entry message has
/// a value field.
pub open spec fn model_wf(d: DescriptorModel) -> bool {
    &&& forall|m: int, k: int|
        0 <= m < d.messages@.len() && 0 <= k < d.messages@[m].fields@.len() ==> kind_ok(
            d,
            #[trigger] d.messages@[m].fields@[k].kind,
        )
    &&& forall|m: int|
        0 <= m < d.messages@.len() && (#[trigger] d.messages@[m]).map_entry ==> value_field_index(
            d.messages@[m],
        ) >= 0
}

/// A map field: repeated, of a map entry message.
pub open spec fn is_map(d: DescriptorModel, f: FieldModel) -> bool {
    f.cardinality == Cardinality::Repeated && match f.kind {
        FieldKind::Message(m) => m < d.messages@.len() && d.messages@[m as int].map_entry,
        _ => false,
    }
}

/// A list field: repeated, and not a map.
pub open spec fn is_list(d: DescriptorModel, f: FieldModel) -> bool {
    f.cardinality == Cardinality::Repeated && !is_map(d, f)
}

/// Whether a field is a map field.
pub fn field_is_map(model: &DescriptorModel, field: &FieldModel) -> (r: bool)
    ensures
        r == is_map(*model, *field),
{
    match field.cardinality {
        Cardinality::Repeated => match field.kind {
            FieldKind::Message(m) => m < model.messages.len() && model.messages[m].map_entry,
            _ => false,
        },
        _ => false,
    }
}

/// Whether a field is a list field.
pub fn field_is_list(model: &DescriptorModel, field: &FieldModel) -> (r: bool)
    ensures
        r == is_list(*model, *field),
{
    match field.cardinality {
        Cardinality::Repeated => !field_is_map(model, field),
        _ => false,
    }
}

// ---------------------------------------------------------------------------
// Request templates
// ---------------------------------------------------------------------------
/// The rank of a message template at this depth; nesting stops below depth 4.
pub open spec fn message_rank(depth: int) -> int {
    if depth <= 4 {
        2 * (5 - depth)
    } else {
        1
    }
}

/// The rank of a field template at this depth.
pub open spec fn field_rank(depth: int) -> int {
    if depth <= 4 {
        2 * (5 - depth) + 1
    } else {
        0
    }
}

/// The JSON template of a message: an object with each field's template
/// under the field's name.
pub open spec fn message_template(d: DescriptorModel, m: int, depth: int) -> JsonView
    decreases message_rank(depth), d.messages@[m].fields@.len() + 1,
{
    JsonView::Object(template_entries(d, m, depth, d.messages@[m].fields@.len() as int))
}

/// The entries of the template of message `m` for its first `k` fields.
pub open spec fn template_entries(d: DescriptorModel, m: int, depth: int, k: int) -> Seq<
    (Seq<char>, JsonView),
>
    decreases message_rank(depth), k,
{
    if k <= 0 {
        seq![]
    } else {
        let f = d.messages@[m].fields@[k - 1];
        entry_insert(template_entries(d, m, depth, k - 1), f.name@, field_template(d, f, depth + 1))
    }
}

/// The template of a field: an empty object for a map, a list of one value
/// for a list, else the value's template.
pub open spec fn field_template(d: DescriptorModel, f: FieldModel, depth: int) -> JsonView
    decreases field_rank(depth), 2int,
{
    if is_map(d, f) {
        JsonView::Object(seq![])
    } else if is_list(d, f) {
        JsonView::Array(seq![single_template(d, f, depth)])
    } else {
        single_template(d, f, depth)
    }
}

/// The template of one value of a field: zero, false or empty by type, the
/// first value of an enum, and for a message its template, or an empty
/// object once the depth exceeds 4.
pub open spec fn single_template(d: DescriptorModel, f: FieldModel, depth: int) -> JsonView
    decreases field_rank(depth), 1int,
{
    match f.kind {
        FieldKind::Double | FieldKind::Float => JsonView::Number("0.0"@),
        FieldKind::Int32
        | FieldKind::Sint32
        | FieldKind::Sfixed32
        | FieldKind::Uint32
        | FieldKind::Fixed32 => JsonView::Number("0"@),
        FieldKind::Int64
        | FieldKind::Sint64
        | FieldKind::Sfixed64
        | FieldKind::Uint64
        | FieldKind::Fixed64 => JsonView::Str("0"@),
        FieldKind::Bool => JsonView::Bool(false),
        FieldKind::Str | FieldKind::Bytes => JsonView::Str(""@),
        FieldKind::Enum(e) => if d.enums@[e as int].values@.len() > 0 {
            JsonView::Str(d.enums@[e as int].values@[0].0@)
        } else {
            JsonView::Null
        },
        FieldKind::Message(m) => if depth > 4 {
            JsonView::Object(seq![])
        } else {
            message_template(d, m as int, depth)
        },
    }
}

/// The JSON template of message `message`, whose fields stand at `depth + 1`.
pub fn message_template_json(model: &DescriptorModel, message: usize, depth: usize) -> (r:
    JsonValue)
    requires
        model_wf(*model),
        message < model.messages@.len(),
        depth < usize::MAX,
    ensures
        r@ == message_template(*model, message as int, depth as int),
    decreases message_rank(depth as int), model.messages@[message as int].fields@.len() + 1,
{
    let fields = &model.messages[message].fields;
    let mut out: Vec<(String, JsonValue)> = Vec::new();
    let mut i: usize = 0;
    while i < fields.len()
        invariant
            model_wf(*model),
            message < model.messages@.len(),
            depth < usize::MAX,
            *fields == model.messages@[message as int].fields,
            i <= fields@.len(),
            entry_views(out@) == template_entries(*model, message as int, depth as int, i as int),
        decreases fields@.len() - i,
    {
        let f = &fields[i];
        assert(kind_ok(*model, model.messages@[message as int].fields@[i as int].kind));
        let v = field_template_json(model, f, depth + 1);
        object_insert(&mut out, f.name.clone(), v);
        i = i + 1;
    }
    proof {
        lemma_object_view(out);
    }
    JsonValue::Object(out)
}

/// The JSON template of a field at `depth`.
pub fn field_template_json(model: &DescriptorModel, field: &FieldModel, depth: usize) -> (r:
    JsonValue)
    requires
        model_wf(*model),
        kind_ok(*model, field.kind),
    ensures
        r@ == field_template(*model, *field, depth as int),
    decreases field_rank(depth as int), 2int,
{
    if field_is_map(model, field) {
        return empty_object();
    }
    if field_is_list(model, field) {
        let one = single_field_template_json(model, field, depth);
        let mut items: Vec<JsonValue> = Vec::new();
        items.push(one);
        proof {
            lemma_array_view(items);
            assert(item_views(items@) =~= seq![items@[0]@]);
        }
        return JsonValue::Array(items);
    }
    single_field_template_json(model, field, depth)
}

/// The JSON template of one value of a field at `depth`.
pub fn single_field_template_json(model: &DescriptorModel, field: &FieldModel, depth: usize) -> (r:
    JsonValue)
    requires
        model_wf(*model),
        kind_ok(*model, field.kind),
    ensures
        r@ == single_template(*model, *field, depth as int),
    decreases field_rank(depth as int), 1int,
{
    match field.kind {
        FieldKind::Double | FieldKind::Float => JsonValue::Number("0.0".to_owned()),
        FieldKind::Int32
        | FieldKind::Sint32
        | FieldKind::Sfixed32
        | FieldKind::Uint32
        | FieldKind::Fixed32 => JsonValue::Number("0".to_owned()),
        FieldKind::Int64
        | FieldKind::Sint64
        | FieldKind::Sfixed64
        | FieldKind::Uint64
        | FieldKind::Fixed64 => JsonValue::Str("0".to_owned()),
        FieldKind::Bool => JsonValue::Bool(false),
        FieldKind::Str | FieldKind::Bytes => JsonValue::Str("".to_owned()),
        FieldKind::Enum(e) => {
            let values = &model.enums[e].values;
            if values.len() > 0 {
                JsonValue::Str(values[0].0.clone())
            } else {
                JsonValue::Null
            }
        },
        FieldKind::Message(m) => {
            if depth > 4 {
                empty_object()
            } else {
                message_template_json(model, m, depth)
            }
        },
    }
}

// ---------------------------------------------------------------------------
// Type labels
// ---------------------------------------------------------------------------
/// The name of a field's type, before `map<..>` or `repeated`.
pub open spec fn base_label(d: DescriptorModel, k: FieldKind) -> Seq<char> {
    match k {
        FieldKind::Double => "double"@,
        FieldKind::Float => "float"@,
        FieldKind::Int32 => "int32"@,
        FieldKind::Int64 => "int64"@,
        FieldKind::Uint32 => "uint32"@,
        FieldKind::Uint64 => "uint64"@,
        FieldKind::Sint32 => "sint32"@,
        FieldKind::Sint64 => "sint64"@,
        FieldKind::Fixed32 => "fixed32"@,
        FieldKind::Fixed64 => "fixed64"@,
        FieldKind::Sfixed32 => "sfixed32"@,
        FieldKind::Sfixed64 => "sfixed64"@,
        FieldKind::Bool => "bool"@,
        FieldKind::Str => "string"@,
        FieldKind::Bytes => "bytes"@,
        FieldKind::Enum(e) => "enum "@ + d.enums@[e as int].full_name@,
        FieldKind::Message(m) => d.messages@[m as int].full_name@,
    }
}

/// The label of a field's type: `map<..>` for a map, `repeated ..` for a
/// list, else the type's name.
pub open spec fn type_label(d: DescriptorModel, f: FieldModel) -> Seq<char> {
    if is_map(d, f) {
        "map<"@ + base_label(d, f.kind) + ">"@
    } else if is_list(d, f) {
        "repeated "@ + base_label(d, f.kind)
    } else {
        base_label(d, f.kind)
    }
}

fn base_type_label(model: &DescriptorModel, kind: FieldKind) -> (r: String)
    requires
        kind_ok(*model, kind),
    ensures
        r@ == base_label(*model, kind),
{
    match kind {
        FieldKind::Double => "double".to_owned(),
        FieldKind::Float => "float".to_owned(),
        FieldKind::Int32 => "int32".to_owned(),
        FieldKind::Int64 => "int64".to_owned(),
        FieldKind::Uint32 => "uint32".to_owned(),
        FieldKind::Uint64 => "uint64".to_owned(),
        FieldKind::Sint32 => "sint32".to_owned(),
        FieldKind::Sint64 => "sint64".to_owned(),
        FieldKind::Fixed32 => "fixed32".to_owned(),
        FieldKind::Fixed64 => "fixed64".to_owned(),
        FieldKind::Sfixed32 => "sfixed32".to_owned(),
        FieldKind::Sfixed64 => "sfixed64".to_owned(),
        FieldKind::Bool => "bool".to_owned(),
        FieldKind::Str => "string".to_owned(),
        FieldKind::Bytes => "bytes".to_owned(),
        FieldKind::Enum(e) => {
            let mut r = "enum ".to_owned();
            r.append(model.enums[e].full_name.as_str());
            r
        },
        FieldKind::Message(m) => model.messages[m].full_name.clone(),
    }
}

/// The label a field's type is shown with.
pub fn field_type_label(model: &DescriptorModel, field: &FieldModel) -> (r: String)
    requires
        kind_ok(*model, field.kind),
    ensures
        r@ == type_label(*model, *field),
{
    let base = base_type_label(model, field.kind);
    if field_is_map(model, field) {
        let mut r = "map<".to_owned();
        r.append(base.as_str());
        r.append(">");
        r
    } else if field_is_list(model, field) {
        let mut r = "repeated ".to_owned();
        r.append(base.as_str());
        r
    } else {
        base
    }
}

/// The cardinality in lower case, as the field summary shows it.
pub open spec fn cardinality_text(c: Cardinality) -> Seq<char> {
    match c {
        Cardinality::Optional => "optional"@,
        Cardinality::Required => "required"@,
        Cardinality::Repeated => "repeated"@,
    }
}

/// The cardinality in lower case.
pub fn cardinality_label(c: Cardinality) -> (r: String)
    ensures
        r@ == cardinality_text(c),
{
    match c {
        Cardinality::Optional => "optional".to_owned(),
        Cardinality::Required => "required".to_owned(),
        Cardinality::Repeated => "repeated".to_owned(),
    }
}

// ---------------------------------------------------------------------------
// Decimal numbers
// ---------------------------------------------------------------------------
/// The decimal digit of `d`, for `0 <= d < 10`.
pub open spec fn digit(d: int) -> char {
    if d == 0 {
        '0'
    } else if d == 1 {
        '1'
    } else if d == 2 {
        '2'
    } else if d == 3 {
        '3'
    } else if d == 4 {
        '4'
    } else if d == 5 {
        '5'
    } else if d == 6 {
        '6'
    } else if d == 7 {
        '7'
    } else if d == 8 {
        '8'
    } else {
        '9'
    }
}

/// The decimal digits of a natural number, without leading zeros.
pub open spec fn digits(n: nat) -> Seq<char>
    decreases n,
{
    if n < 10 {
        seq![digit(n as int)]
    } else {
        digits(n / 10).push(digit((n % 10) as int))
    }
}

/// An integer in decimal, with a minus sign when negative.
pub open spec fn decimal(n: int) -> Seq<char> {
    if n < 0 {
        seq!['-'] + digits((-n) as nat)
    } else {
        digits(n as nat)
    }
}

fn digit_char(d: u64) -> (r: char)
    requires
        d < 10,
    ensures
        r == digit(d as int),
{
    if d == 0 {
        '0'
    } else if d == 1 {
        '1'
    } else if d == 2 {
        '2'
    } else if d == 3 {
        '3'
    } else if d == 4 {
        '4'
    } else if d == 5 {
        '5'
    } else if d == 6 {
        '6'
    } else if d == 7 {
        '7'
    } else if d == 8 {
        '8'
    } else {
        '9'
    }
}

fn push_digits(v: &mut Vec<char>, n: u64)
    ensures
        final(v)@ == old(v)@ + digits(n as nat),
    decreases n,
{
    if n >= 10 {
        push_digits(v, n / 10);
    }
    v.push(digit_char(n % 10));
    assert(v@ =~= old(v)@ + digits(n as nat));
}

/// An `i32` in decimal.
pub fn decimal_text(n: i32) -> (r: Vec<char>)
    ensures
        r@ == decimal(n as int),
{
    let mut v: Vec<char> = Vec::new();
    let wide = n as i64;
    if wide < 0 {
        v.push('-');
        push_digits(&mut v, (-wide) as u64);
    } else {
        push_digits(&mut v, wide as u64);
    }
    assert(v@ =~= decimal(n as int));
    v
}

// ---------------------------------------------------------------------------
// Field summaries
// ---------------------------------------------------------------------------
/// What the editor shows of a field.
#[derive(Debug)]
pub struct FieldInfo {
    pub name: String,
    pub json_name: String,
    pub field_type: String,
    pub number: u32,
    pub cardinality: String,
    pub oneof: Option<String>,
    /// `NAME = number` for each value of an enum field.
    pub enum_values: Vec<String>,
    pub options: JsonValue,
    pub repeated: bool,
    pub map: bool,
    pub required: bool,
    /// The fields of a message field, or the value field of a map.
    pub children: Vec<FieldInfo>,
}

/// The mathematical form of a field summary.
pub struct FieldInfoView {
    pub name: Seq<char>,
    pub json_name: Seq<char>,
    pub field_type: Seq<char>,
    pub number: u32,
    pub cardinality: Seq<char>,
    pub oneof: Option<Seq<char>>,
    pub enum_values: Seq<Seq<char>>,
    pub options: JsonView,
    pub repeated: bool,
    pub map: bool,
    pub required: bool,
    pub children: Seq<FieldInfoView>,
}

pub open spec fn opt_view(o: Option<String>) -> Option<Seq<char>> {
    match o {
        Some(s) => Some(s@),
        None => None,
    }
}

impl View for FieldInfo {
    type V = FieldInfoView;

    open spec fn view(&self) -> FieldInfoView
        decreases self,
    {
        let kids = self.children;
        let values = self.enum_values;
        FieldInfoView {
            name: self.name@,
            json_name: self.json_name@,
            field_type: self.field_type@,
            number: self.number,
            cardinality: self.cardinality@,
            oneof: opt_view(self.oneof),
            enum_values: Seq::new(values@.len(), |i: int| values@[i]@),
            options: self.options@,
            repeated: self.repeated,
            map: self.map,
            required: self.required,
            children: info_views(kids@),
        }
    }
}

pub proof fn lemma_info_view(r: &FieldInfo)
    ensures
        r@.children == info_views(r.children@),
        r@.enum_values == Seq::new(r.enum_values@.len(), |i: int| r.enum_values@[i]@),
{
}

/// The summaries, each by its view.
pub open spec fn info_views(v: Seq<FieldInfo>) -> Seq<FieldInfoView>
    decreases v,
{
    if v.len() == 0 {
        seq![]
    } else {
        info_views(v.subrange(0, v.len() - 1)).push(v[v.len() - 1].view())
    }
}

/// `NAME = number` for each value of an enum.
pub open spec fn enum_value_texts(values: Seq<(String, i32)>) -> Seq<Seq<char>> {
    Seq::new(values.len(), |i: int| values[i].0@ + " = "@ + decimal(values[i].1 as int))
}

/// The enum values shown for a field: those of its enum, else none.
pub open spec fn field_enum_values(d: DescriptorModel, f: FieldModel) -> Seq<Seq<char>> {
    match f.kind {
        FieldKind::Enum(e) => enum_value_texts(d.enums@[e as int].values@),
        _ => seq![],
    }
}

/// The summary of a field at `depth`: its names, type, number and options,
/// and down to depth 4 the summaries of a message's fields, or of a map's
/// value field.
pub open spec fn field_summary(d: DescriptorModel, f: FieldModel, depth: int) -> FieldInfoView
    decreases field_rank(depth), 0int,
{
    let children = match f.kind {
        FieldKind::Message(m) => if depth <= 4 && !is_map(d, f) {
            message_summaries(d, m as int, depth)
        } else if depth <= 4 && is_map(d, f) {
            let entry = d.messages@[m as int];
            seq![field_summary(d, entry.fields@[value_field_index(entry)], depth + 1)]
        } else {
            seq![]
        },
        _ => seq![],
    };
    FieldInfoView {
        name: f.name@,
        json_name: f.json_name@,
        field_type: type_label(d, f),
        number: f.number,
        cardinality: cardinality_text(f.cardinality),
        oneof: opt_view(f.oneof),
        enum_values: field_enum_values(d, f),
        options: f.options@,
        repeated: is_list(d, f),
        map: is_map(d, f),
        required: f.cardinality == Cardinality::Required,
        children,
    }
}

/// The summaries of the fields of message `m`, each at `depth + 1`.
pub open spec fn message_summaries(d: DescriptorModel, m: int, depth: int) -> Seq<FieldInfoView>
    decreases message_rank(depth), d.messages@[m].fields@.len() + 1,
{
    summaries_upto(d, m, depth, d.messages@[m].fields@.len() as int)
}

/// The summaries of the first `k` fields of message `m`.
pub open spec fn summaries_upto(d: DescriptorModel, m: int, depth: int, k: int) -> Seq<
    FieldInfoView,
>
    decreases message_rank(depth), k,
{
    if k <= 0 {
        seq![]
    } else {
        summaries_upto(d, m, depth, k - 1).push(
            field_summary(d, d.messages@[m].fields@[k - 1], depth + 1),
        )
    }
}

fn enum_values_of(model: &DescriptorModel, field: &FieldModel) -> (r: Vec<String>)
    requires
        kind_ok(*model, field.kind),
    ensures
        Seq::new(r@.len(), |i: int| r@[i]@) == field_enum_values(*model, *field),
{
    let mut r: Vec<String> = Vec::new();
    match field.kind {
        FieldKind::Enum(e) => {
            let values = &model.enums[e].values;
            let mut i: usize = 0;
            while i < values.len()
                invariant
                    *values == model.enums@[e as int].values,
                    i <= values@.len(),
                    r@.len() == i,
                    forall|j: int|
                        0 <= j < i ==> #[trigger] r@[j]@ == values@[j].0@ + " = "@ + decimal(
                            values@[j].1 as int,
                        ),
                decreases values@.len() - i,
            {
                let mut t = values[i].0.clone();
                t.append(" = ");
                let digits = decimal_text(values[i].1);
                let mut k: usize = 0;
                let ghost before = t@;
                while k < digits.len()
                    invariant
                        k <= digits@.len(),
                        t@ == before + digits@.take(k as int),
                    decreases digits@.len() - k,
                {
                    push_char(&mut t, digits[k]);
                    assert(digits@.take(k + 1) =~= digits@.take(k as int).push(digits@[k as int]));
                    k = k + 1;
                }
                assert(digits@.take(digits@.len() as int) =~= digits@);
                r.push(t);
                i = i + 1;
            }
            assert(Seq::new(r@.len(), |i: int| r@[i]@) =~= field_enum_values(*model, *field));
        },
        _ => {
            assert(Seq::new(r@.len(), |i: int| r@[i]@) =~= field_enum_values(*model, *field));
        },
    }
    r
}

fn clone_opt(o: &Option<String>) -> (r: Option<String>)
    ensures
        opt_view(r) == opt_view(*o),
{
    match o {
        Some(s) => Some(s.clone()),
        None => None,
    }
}

/// The summary of a field at `depth`.
pub fn field_info(model: &DescriptorModel, field: &FieldModel, depth: usize) -> (r: FieldInfo)
    requires
        model_wf(*model),
        kind_ok(*model, field.kind),
    ensures
        r@ == field_summary(*model, *field, depth as int),
    decreases field_rank(depth as int), 0int,
{
    let ghost want = field_summary(*model, *field, depth as int).children;
    let is_map_field = field_is_map(model, field);
    let mut children: Vec<FieldInfo> = Vec::new();
    match field.kind {
        FieldKind::Message(m) => {
            if depth <= 4 && !is_map_field {
                children = message_fields(model, m, depth);
                assert(info_views(children@) =~= want);
            } else if depth <= 4 && is_map_field {
                let entry = &model.messages[m];
                let vi = value_field_of(entry);
                assert(kind_ok(*model, model.messages@[m as int].fields@[vi as int].kind));
                let child = field_info(model, &entry.fields[vi], depth + 1);
                children.push(child);
                assert(children@.subrange(0, 0) =~= Seq::<FieldInfo>::empty());
                assert(info_views(children@.subrange(0, 0)) =~= seq![]);
                assert(info_views(children@) =~= seq![child@]);
                assert(info_views(children@) =~= want);
            } else {
                assert(info_views(children@) =~= want);
            }
        },
        _ => {
            assert(info_views(children@) =~= want);
        },
    }
    let r = FieldInfo {
        name: field.name.clone(),
        json_name: field.json_name.clone(),
        field_type: field_type_label(model, field),
        number: field.number,
        cardinality: cardinality_label(field.cardinality),
        oneof: clone_opt(&field.oneof),
        enum_values: enum_values_of(model, field),
        options: copy_json(&field.options),
        repeated: field_is_list(model, field),
        map: is_map_field,
        required: match field.cardinality {
            Cardinality::Required => true,
            _ => false,
        },
        children,
    };
    proof {
        lemma_info_view(&r);
        assert(r@.enum_values =~= field_summary(*model, *field, depth as int).enum_values);
    }
    r
}

pub proof fn lemma_number_from(fs: Seq<FieldModel>, number: u32, i: int)
    requires
        0 <= i,
    ensures
        number_from(fs, number, i) == -1 || (i <= number_from(fs, number, i) < fs.len()
            && fs[number_from(fs, number, i)].number == number),
    decreases fs.len() - i,
{
    if i < fs.len() && fs[i].number != number {
        lemma_number_from(fs, number, i + 1);
    }
}

/// The index of the value field of a map entry message.
fn value_field_of(entry: &MessageModel) -> (r: usize)
    requires
        value_field_index(*entry) >= 0,
    ensures
        r as int == value_field_index(*entry),
        r < entry.fields@.len(),
{
    proof {
        lemma_number_from(entry.fields@, 2, 0);
    }
    let mut i: usize = 0;
    while i < entry.fields.len()
        invariant
            i <= entry.fields@.len(),
            number_from(entry.fields@, 2, 0) == number_from(entry.fields@, 2, i as int),
        decreases entry.fields@.len() - i,
    {
        if entry.fields[i].number == 2 {
            return i;
        }
        i = i + 1;
    }
    i
}

/// The summaries of the fields of message `message`, each at `depth + 1`.
pub fn message_fields(model: &DescriptorModel, message: usize, depth: usize) -> (r: Vec<FieldInfo>)
    requires
        model_wf(*model),
        message < model.messages@.len(),
        depth < usize::MAX,
    ensures
        info_views(r@) == message_summaries(*model, message as int, depth as int),
    decreases message_rank(depth as int), model.messages@[message as int].fields@.len() + 1,
{
    let fields = &model.messages[message].fields;
    let mut out: Vec<FieldInfo> = Vec::new();
    let mut i: usize = 0;
    while i < fields.len()
        invariant
            model_wf(*model),
            message < model.messages@.len(),
            depth < usize::MAX,
            *fields == model.messages@[message as int].fields,
            i <= fields@.len(),
            info_views(out@) == summaries_upto(*model, message as int, depth as int, i as int),
        decreases fields@.len() - i,
    {
        assert(kind_ok(*model, model.messages@[message as int].fields@[i as int].kind));
        let info = field_info(model, &fields[i], depth + 1);
        let ghost before = out@;
        out.push(info);
        assert(out@.subrange(0, out@.len() - 1) =~= before);
        i = i + 1;
    }
    out
}

// ---------------------------------------------------------------------------
// The template of a method
// ---------------------------------------------------------------------------
/// The first message at or after `i` with this full name, or -1.
pub open spec fn message_from(ms: Seq<MessageModel>, name: Seq<char>, i: int) -> int
    decreases ms.len() - i,
{
    if i < 0 || i >= ms.len() {
        -1
    } else if ms[i].full_name@ == name {
        i
    } else {
        message_from(ms, name, i + 1)
    }
}

/// The message with this full name.
pub fn find_message(model: &DescriptorModel, full_name: &str) -> (r: Option<usize>)
    ensures
        match r {
            Some(i) => i as int == message_from(model.messages@, full_name@, 0) && i
                < model.messages@.len(),
            None => message_from(model.messages@, full_name@, 0) == -1,
        },
{
    let name = full_name.to_owned();
    let mut i: usize = 0;
    while i < model.messages.len()
        invariant
            i <= model.messages@.len(),
            name@ == full_name@,
            message_from(model.messages@, full_name@, 0) == message_from(
                model.messages@,
                full_name@,
                i as int,
            ),
        decreases model.messages@.len() - i,
    {
        if model.messages[i].full_name == name {
            return Some(i);
        }
        i = i + 1;
    }
    None
}

/// Everything the editor shows of a method: its types, request and response
/// templates and field summaries, the options, its source and the enums it
/// can use, and its path.
#[derive(Debug)]
pub struct MethodTemplate {
    pub request_type: String,
    pub response_type: String,
    pub request_json: JsonValue,
    pub response_json: JsonValue,
    pub request_fields: Vec<FieldInfo>,
    pub response_fields: Vec<FieldInfo>,
    pub service_options: JsonValue,
    pub method_options: JsonValue,
    pub request_options: JsonValue,
    pub response_options: JsonValue,
    pub rpc_source: String,
    pub enum_source: String,
    pub grpc_path: String,
    pub client_streaming: bool,
    pub server_streaming: bool,
}

/// The template of `method` of the service `service_full_name`, whose
/// request and response are messages `request` and `response` of the model.
pub fn method_template(
    model: &DescriptorModel,
    service_full_name: &str,
    method: &ProtoMethodInfo,
    request: usize,
    response: usize,
    source: &str,
    enum_source: String,
    service_options: JsonValue,
    method_options: JsonValue,
) -> (r: MethodTemplate)
    requires
        model_wf(*model),
        request < model.messages@.len(),
        response < model.messages@.len(),
        rpc_source_fits(source@, method.name@),
    ensures
        r.request_type@ == model.messages@[request as int].full_name@,
        r.response_type@ == model.messages@[response as int].full_name@,
        r.request_json@ == message_template(*model, request as int, 0),
        r.response_json@ == message_template(*model, response as int, 0),
        info_views(r.request_fields@) == message_summaries(*model, request as int, 0),
        info_views(r.response_fields@) == message_summaries(*model, response as int, 0),
        r.service_options@ == service_options@,
        r.method_options@ == method_options@,
        r.request_options@ == model.messages@[request as int].options@,
        r.response_options@ == model.messages@[response as int].options@,
        r.rpc_source@ == rpc_source(source@, method.name@),
        r.enum_source@ == enum_source@,
        r.grpc_path@ == method_path(service_full_name@, method.name@),
        r.client_streaming == method.client_streaming,
        r.server_streaming == method.server_streaming,
{
    let req = &model.messages[request];
    let rsp = &model.messages[response];
    MethodTemplate {
        request_type: req.full_name.clone(),
        response_type: rsp.full_name.clone(),
        request_json: message_template_json(model, request, 0),
        response_json: message_template_json(model, response, 0),
        request_fields: message_fields(model, request, 0),
        response_fields: message_fields(model, response, 0),
        service_options,
        method_options,
        request_options: copy_json(&req.options),
        response_options: copy_json(&rsp.options),
        rpc_source: extract_rpc_source(source, method.name.as_str()),
        enum_source,
        grpc_path: grpc_method_path(service_full_name, method.name.as_str()),
        client_streaming: method.client_streaming,
        server_streaming: method.server_streaming,
    }
}

// ---------------------------------------------------------------------------
// Laws
// ---------------------------------------------------------------------------
/// No two fields of message `m` share a name.
pub open spec fn distinct_field_names(d: DescriptorModel, m: int) -> bool {
    forall|i: int, j: int|
        0 <= i < j < d.messages@[m].fields@.len() ==> d.messages@[m].fields@[i].name@
            != d.messages@[m].fields@[j].name@
}

/// The template entries of message `m`, field by field.
pub open spec fn field_entries(d: DescriptorModel, m: int, depth: int, k: int) -> Seq<
    (Seq<char>, JsonView),
> {
    Seq::new(
        k as nat,
        |i: int|
            (
                d.messages@[m].fields@[i].name@,
                field_template(d, d.messages@[m].fields@[i], depth + 1),
            ),
    )
}

proof fn lemma_template_entries(d: DescriptorModel, m: int, depth: int, k: int)
    requires
        0 <= k <= d.messages@[m].fields@.len(),
        distinct_field_names(d, m),
    ensures
        template_entries(d, m, depth, k) == field_entries(d, m, depth, k),
    decreases k,
{
    if k > 0 {
        lemma_template_entries(d, m, depth, k - 1);
        let t = field_entries(d, m, depth, k - 1);
        let f = d.messages@[m].fields@[k - 1];
        lemma_key_from(t, f.name@, 0);
        if key_index(t, f.name@) >= 0 {
            let x = key_index(t, f.name@);
            assert(t[x].0 == d.messages@[m].fields@[x].name@);
        }
        assert(t.push((f.name@, field_template(d, f, depth + 1))) =~= field_entries(d, m, depth, k));
    }
}

/// The template of a message whose fields have distinct names has one
/// entry per field, in field order: the field's name and its template one
/// level deeper.
pub proof fn law_template_has_each_field(d: DescriptorModel, m: int, depth: int)
    requires
        0 <= m < d.messages@.len(),
        distinct_field_names(d, m),
    ensures
        message_template(d, m, depth) == JsonView::Object(
            field_entries(d, m, depth, d.messages@[m].fields@.len() as int),
        ),
{
    lemma_template_entries(d, m, depth, d.messages@[m].fields@.len() as int);
}

/// Templates and summaries stop below depth 4: past it a message value is
/// an empty object and a field has no children.
pub proof fn law_depth_is_capped(d: DescriptorModel, f: FieldModel, depth: int)
    requires
        depth > 4,
    ensures
        f.kind is Message ==> single_template(d, f, depth) == JsonView::Object(seq![]),
        field_summary(d, f, depth).children.len() == 0,
{
}

/// A kind of a scalar field: neither an enum nor a message.
pub open spec fn is_scalar(k: FieldKind) -> bool {
    !(k is Enum) && !(k is Message)
}

/// The 64-bit integer kinds.
pub open spec fn is_64_bit(k: FieldKind) -> bool {
    k is Int64 || k is Uint64 || k is Sint64 || k is Fixed64 || k is Sfixed64
}

/// The 32-bit integer kinds.
pub open spec fn is_32_bit(k: FieldKind) -> bool {
    k is Int32 || k is Uint32 || k is Sint32 || k is Fixed32 || k is Sfixed32
}

/// Length, first character and next-to-last character of a label.
pub open spec fn label_shape(s: Seq<char>) -> (int, char, char) {
    (s.len() as int, s[0], s[s.len() - 2])
}

proof fn lemma_scalar_shapes(d: DescriptorModel, k: FieldKind)
    requires
        is_scalar(k),
    ensures
        label_shape(base_label(d, k)) == match k {
            FieldKind::Double => (6int, 'd', 'l'),
            FieldKind::Float => (5int, 'f', 'a'),
            FieldKind::Int32 => (5int, 'i', '3'),
            FieldKind::Int64 => (5int, 'i', '6'),
            FieldKind::Uint32 => (6int, 'u', '3'),
            FieldKind::Uint64 => (6int, 'u', '6'),
            FieldKind::Sint32 => (6int, 's', '3'),
            FieldKind::Sint64 => (6int, 's', '6'),
            FieldKind::Fixed32 => (7int, 'f', '3'),
            FieldKind::Fixed64 => (7int, 'f', '6'),
            FieldKind::Sfixed32 => (8int, 's', '3'),
            FieldKind::Sfixed64 => (8int, 's', '6'),
            FieldKind::Bool => (4int, 'b', 'o'),
            FieldKind::Str => (6int, 's', 'n'),
            FieldKind::Bytes => (5int, 'b', 'e'),
            _ => (0int, ' ', ' '),
        },
        is_64_bit(k) ==> base_label(d, k).subrange(base_label(d, k).len() - 2, base_label(d, k).len() as int) == "64"@,
        is_32_bit(k) ==> base_label(d, k).subrange(base_label(d, k).len() - 2, base_label(d, k).len() as int) == "32"@,
{
    reveal_strlit("double");
    reveal_strlit("float");
    reveal_strlit("int32");
    reveal_strlit("int64");
    reveal_strlit("uint32");
    reveal_strlit("uint64");
    reveal_strlit("sint32");
    reveal_strlit("sint64");
    reveal_strlit("fixed32");
    reveal_strlit("fixed64");
    reveal_strlit("sfixed32");
    reveal_strlit("sfixed64");
    reveal_strlit("bool");
    reveal_strlit("string");
    reveal_strlit("bytes");
    reveal_strlit("64");
    reveal_strlit("32");
    let b = base_label(d, k);
    if is_64_bit(k) {
        assert(b.subrange(b.len() - 2, b.len() as int) =~= "64"@);
    }
    if is_32_bit(k) {
        assert(b.subrange(b.len() - 2, b.len() as int) =~= "32"@);
    }
}

/// Type labels name the protobuf type of a scalar field: two singular
/// scalar fields get the same label only when they have the same kind, the
/// label of a 64-bit integer field ends in `64` and that of a 32-bit one in
/// `32`, and a list field's label is `repeated ` and the label its field
/// would have if it were singular.
pub proof fn law_type_labels_name_kinds(d: DescriptorModel, f: FieldModel, g: FieldModel)
    requires
        is_scalar(f.kind),
        is_scalar(g.kind),
    ensures
        f.cardinality != Cardinality::Repeated && g.cardinality != Cardinality::Repeated && type_label(
            d,
            f,
        ) == type_label(d, g) ==> f.kind == g.kind,
        is_64_bit(f.kind) ==> ends_with(type_label(d, f), "64"@),
        is_32_bit(f.kind) ==> ends_with(type_label(d, f), "32"@),
        f.cardinality == Cardinality::Repeated ==> type_label(d, f) == "repeated "@ + type_label(
            d,
            FieldModel { cardinality: Cardinality::Optional, ..f },
        ),
{
    lemma_scalar_shapes(d, f.kind);
    lemma_scalar_shapes(d, g.kind);
    let b = base_label(d, f.kind);
    let t = type_label(d, f);
    if f.cardinality == Cardinality::Repeated {
        assert(t == "repeated "@ + b);
    } else {
        assert(t == b);
    }
    assert(t.subrange(t.len() - 2, t.len() as int) =~= b.subrange(b.len() - 2, b.len() as int));
    if f.cardinality != Cardinality::Repeated && g.cardinality != Cardinality::Repeated && t
        == type_label(d, g) {
        assert(label_shape(b) == label_shape(base_label(d, g.kind)));
    }
}

} // verus!
