//! JSON values: the library's own type for them, what it reads out of them, and the calls that
//! turn text into values and back.
use crate::percent::{from_integer, integer_encoding, Percent};
use crate::text::{same, text_before};
use serde_json::{Number, Value};
use vstd::prelude::*;
use vstd::utf8::{decode_utf8, encode_utf8, valid_utf8};

verus! {

/// A number written with a fraction or an exponent: its binary64 encoding, and the digits it is
/// written with.
pub struct Float {
    pub bits: u64,
    pub text: String,
}

/// One entry of an object.
pub struct Field {
    pub name: String,
    pub value: Json,
}

/// A JSON value. The fields of an object stand in the order of their names.
pub enum Json {
    Null,
    Bool(bool),
    Unsigned(u64),
    Negative(i64),
    Float(Float),
    Text(String),
    List(Vec<Json>),
    Object(Vec<Field>),
}

/// What a JSON value is.
pub enum JsonView {
    Null,
    Bool(bool),
    Integer(int),
    Real(u64, Seq<char>),
    Text(Seq<char>),
    List(Seq<JsonView>),
    Object(Seq<(Seq<char>, JsonView)>),
}

pub open spec fn json_view(json: Json) -> JsonView
    decreases json,
{
    match json {
        Json::Null => JsonView::Null,
        Json::Bool(b) => JsonView::Bool(b),
        Json::Unsigned(n) => JsonView::Integer(n as int),
        Json::Negative(n) => JsonView::Integer(n as int),
        Json::Float(f) => JsonView::Real(f.bits, f.text@),
        Json::Text(s) => JsonView::Text(s@),
        Json::List(items) => JsonView::List(
            Seq::new(
                items@.len(),
                |i: int|
                    if 0 <= i < items@.len() {
                        json_view(items@[i])
                    } else {
                        JsonView::Null
                    },
            ),
        ),
        Json::Object(fields) => JsonView::Object(
            Seq::new(
                fields@.len(),
                |i: int|
                    if 0 <= i < fields@.len() {
                        (fields@[i].name@, json_view(fields@[i].value))
                    } else {
                        (Seq::empty(), JsonView::Null)
                    },
            ),
        ),
    }
}

impl View for Json {
    type V = JsonView;

    open spec fn view(&self) -> JsonView {
        json_view(*self)
    }
}

/// The value under a name; the last one where a name is repeated.
pub open spec fn lookup(fields: Seq<(Seq<char>, JsonView)>, name: Seq<char>) -> Option<JsonView>
    decreases fields.len(),
{
    if fields.len() == 0 {
        None
    } else if fields.last().0 == name {
        Some(fields.last().1)
    } else {
        lookup(fields.drop_last(), name)
    }
}

impl JsonView {
    /// The value of an object's field.
    pub open spec fn get(self, name: Seq<char>) -> Option<JsonView> {
        match self {
            JsonView::Object(fields) => lookup(fields, name),
            _ => None,
        }
    }

    /// The text that a JSON string holds.
    pub open spec fn text(self) -> Option<Seq<char>> {
        match self {
            JsonView::Text(s) => Some(s),
            _ => None,
        }
    }

    /// The text of a field that holds a string.
    pub open spec fn text_at(self, name: Seq<char>) -> Option<Seq<char>> {
        match self.get(name) {
            Some(value) => value.text(),
            None => None,
        }
    }

    /// The value of a field that holds an object.
    pub open spec fn object_at(self, name: Seq<char>) -> Option<JsonView> {
        match self.get(name) {
            Some(value) if value is Object => Some(value),
            _ => None,
        }
    }

    /// The items of a field that holds a list.
    pub open spec fn list_at(self, name: Seq<char>) -> Option<Seq<JsonView>> {
        match self.get(name) {
            Some(JsonView::List(items)) => Some(items),
            _ => None,
        }
    }

    /// The truth value of a field that holds one.
    pub open spec fn bool_at(self, name: Seq<char>) -> Option<bool> {
        match self.get(name) {
            Some(JsonView::Bool(b)) => Some(b),
            _ => None,
        }
    }

    /// The whole number of a field that holds one that fits 64 signed bits.
    pub open spec fn integer_at(self, name: Seq<char>) -> Option<int> {
        match self.get(name) {
            Some(JsonView::Integer(n)) if n <= i64::MAX => Some(n),
            _ => None,
        }
    }

    /// The binary64 number nearest to a field's number.
    pub open spec fn number_at(self, name: Seq<char>) -> Option<int> {
        match self.get(name) {
            Some(JsonView::Integer(n)) => Some(integer_encoding(n)),
            Some(JsonView::Real(bits, _)) => Some(bits as int),
            _ => None,
        }
    }
}

impl Json {
    /// The value of an object's field.
    pub fn get(&self, name: &str) -> (r: Option<&Json>)
        ensures
            match r {
                Some(value) => self@.get(name@) == Some(value@),
                None => self@.get(name@) is None,
            },
    {
        match self {
            Json::Object(fields) => {
                let ghost all = self@->Object_0;
                let mut n: usize = fields.len();
                assert(all.take(n as int) =~= all);
                while n > 0
                    invariant
                        n <= fields.len(),
                        self@ == JsonView::Object(all),
                        self == Json::Object(*fields),
                        all.len() == fields.len(),
                        lookup(all, name@) == lookup(all.take(n as int), name@),
                    decreases n,
                {
                    proof {
                        assert(all.take(n as int).drop_last() =~= all.take(n - 1));
                        assert(all[n - 1] == (fields@[n - 1].name@, fields@[n - 1].value@));
                    }
                    if same(&fields[n - 1].name, name) {
                        return Some(&fields[n - 1].value);
                    }
                    n -= 1;
                }
                None
            },
            _ => None,
        }
    }

    /// The text that a JSON string holds.
    pub fn text(&self) -> (r: Option<&String>)
        ensures
            match r {
                Some(s) => self@.text() == Some(s@),
                None => self@.text() is None,
            },
    {
        match self {
            Json::Text(s) => Some(s),
            _ => None,
        }
    }

    /// The text of a field that holds a string.
    pub fn text_at(&self, name: &str) -> (r: Option<&String>)
        ensures
            match r {
                Some(s) => self@.text_at(name@) == Some(s@),
                None => self@.text_at(name@) is None,
            },
    {
        match self.get(name) {
            Some(value) => value.text(),
            None => None,
        }
    }

    /// Whether a field holds exactly this string.
    pub fn text_at_is(&self, name: &str, wanted: &str) -> (r: bool)
        ensures
            r == (self@.text_at(name@) == Some(wanted@)),
    {
        match self.text_at(name) {
            Some(s) => same(s, wanted),
            None => false,
        }
    }

    /// The value of a field that holds an object.
    pub fn object_at(&self, name: &str) -> (r: Option<&Json>)
        ensures
            match r {
                Some(value) => self@.object_at(name@) == Some(value@) && value is Object,
                None => self@.object_at(name@) is None,
            },
    {
        match self.get(name) {
            Some(value) => match value {
                Json::Object(_) => Some(value),
                _ => None,
            },
            None => None,
        }
    }

    /// The items of a field that holds a list.
    pub fn list_at(&self, name: &str) -> (r: Option<&Vec<Json>>)
        ensures
            match r {
                Some(items) => self@.list_at(name@) == Some(views(items@)),
                None => self@.list_at(name@) is None,
            },
    {
        match self.get(name) {
            Some(Json::List(items)) => {
                proof {
                    assert(json_view(Json::List(*items))->List_0 =~= views(items@));
                }
                Some(items)
            },
            _ => None,
        }
    }

    /// The truth value of a field that holds one.
    pub fn bool_at(&self, name: &str) -> (r: Option<bool>)
        ensures
            r == self@.bool_at(name@),
    {
        match self.get(name) {
            Some(Json::Bool(b)) => Some(*b),
            _ => None,
        }
    }

    /// The whole number of a field that holds one that fits 64 signed bits.
    pub fn integer_at(&self, name: &str) -> (r: Option<i64>)
        ensures
            match r {
                Some(n) => self@.integer_at(name@) == Some(n as int),
                None => self@.integer_at(name@) is None,
            },
    {
        match self.get(name) {
            Some(Json::Unsigned(n)) => if *n <= i64::MAX as u64 {
                Some(*n as i64)
            } else {
                None
            },
            Some(Json::Negative(n)) => Some(*n),
            _ => None,
        }
    }

    /// The binary64 number nearest to a field's number.
    pub fn number_at(&self, name: &str) -> (r: Option<Percent>)
        ensures
            match r {
                Some(p) => self@.number_at(name@) == Some(p.bits as int),
                None => self@.number_at(name@) is None,
            },
    {
        match self.get(name) {
            Some(Json::Unsigned(n)) => Some(from_integer(*n as i128)),
            Some(Json::Negative(n)) => Some(from_integer(*n as i128)),
            Some(Json::Float(f)) => Some(Percent { bits: f.bits }),
            _ => None,
        }
    }

    /// A copy of the value.
    pub fn copy(&self) -> (r: Json)
        ensures
            r@ == self@,
        decreases self,
    {
        match self {
            Json::Null => Json::Null,
            Json::Bool(b) => Json::Bool(*b),
            Json::Unsigned(n) => Json::Unsigned(*n),
            Json::Negative(n) => Json::Negative(*n),
            Json::Float(f) => Json::Float(Float { bits: f.bits, text: f.text.clone() }),
            Json::Text(s) => Json::Text(s.clone()),
            Json::List(items) => {
                let out = copy_list(items);
                proof {
                    assert(json_view(Json::List(out))->List_0 =~= views(out@));
                    assert(json_view(*self)->List_0 =~= views(items@));
                }
                Json::List(out)
            },
            Json::Object(fields) => {
                let out = copy_fields(fields);
                proof {
                    lemma_object(out);
                    lemma_object(*fields);
                }
                Json::Object(out)
            },
        }
    }

    /// A string value.
    pub fn of(text: &str) -> (r: Json)
        ensures
            r@ == JsonView::Text(text@),
    {
        Json::Text(text.to_owned())
    }
}

fn copy_list(items: &Vec<Json>) -> (r: Vec<Json>)
    ensures
        views(r@) == views(items@),
    decreases items,
{
    let mut out: Vec<Json> = Vec::new();
    let mut i: usize = 0;
    while i < items.len()
        invariant
            i <= items.len(),
            out@.len() == i,
            forall|j: int| 0 <= j < i ==> json_view(#[trigger] out@[j]) == json_view(items@[j]),
        decreases items.len() - i,
    {
        proof {
            assert(decreases_to!(items => items@));
            assert(decreases_to!(items@ => items@[i as int]));
        }
        let item = items[i].copy();
        assert(json_view(item) == json_view(items@[i as int]));
        out.push(item);
        i += 1;
    }
    proof {
        assert(views(out@) =~= views(items@));
    }
    out
}

fn copy_fields(fields: &Vec<Field>) -> (r: Vec<Field>)
    ensures
        field_views(r@) == field_views(fields@),
    decreases fields,
{
    let mut out: Vec<Field> = Vec::new();
    let mut i: usize = 0;
    while i < fields.len()
        invariant
            i <= fields.len(),
            out@.len() == i,
            forall|j: int|
                0 <= j < i ==> (#[trigger] out@[j]).name@ == fields@[j].name@ && json_view(
                    out@[j].value,
                ) == json_view(fields@[j].value),
        decreases fields.len() - i,
    {
        proof {
            assert(decreases_to!(fields => fields@));
            assert(decreases_to!(fields@ => fields@[i as int]));
            assert(decreases_to!(fields@[i as int] => fields@[i as int].value));
        }
        let value = fields[i].value.copy();
        out.push(Field { name: fields[i].name.clone(), value });
        i += 1;
    }
    proof {
        assert(field_views(out@) =~= field_views(fields@));
    }
    out
}

/// The values behind a sequence of JSON values.
pub open spec fn views(items: Seq<Json>) -> Seq<JsonView> {
    items.map_values(|j: Json| json_view(j))
}

/// The fields behind a sequence of object entries.
pub open spec fn field_views(fields: Seq<Field>) -> Seq<(Seq<char>, JsonView)> {
    fields.map_values(|f: Field| (f.name@, json_view(f.value)))
}

pub proof fn lemma_object(fields: Vec<Field>)
    ensures
        json_view(Json::Object(fields)) == JsonView::Object(field_views(fields@)),
{
    assert(json_view(Json::Object(fields))->Object_0 =~= field_views(fields@));
}

/// One object field.
pub fn field(name: &str, value: Json) -> (r: Field)
    ensures
        r.name@ == name@,
        r.value == value,
{
    Field { name: name.to_owned(), value }
}

/// An object of one field.
pub fn object1(a: Field) -> (r: Json)
    ensures
        r@ == JsonView::Object(seq![(a.name@, a.value@)]),
{
    let v = vec![a];
    proof {
        lemma_object(v);
        assert(field_views(v@) =~= seq![(a.name@, a.value@)]);
    }
    Json::Object(v)
}

/// An object of two fields.
pub fn object2(a: Field, b: Field) -> (r: Json)
    ensures
        r@ == JsonView::Object(seq![(a.name@, a.value@), (b.name@, b.value@)]),
{
    let v = vec![a, b];
    proof {
        lemma_object(v);
        assert(field_views(v@) =~= seq![(a.name@, a.value@), (b.name@, b.value@)]);
    }
    Json::Object(v)
}

/// An object of three fields.
pub fn object3(a: Field, b: Field, c: Field) -> (r: Json)
    ensures
        r@ == JsonView::Object(
            seq![(a.name@, a.value@), (b.name@, b.value@), (c.name@, c.value@)],
        ),
{
    let v = vec![a, b, c];
    proof {
        lemma_object(v);
        assert(field_views(v@) =~= seq![
            (a.name@, a.value@),
            (b.name@, b.value@),
            (c.name@, c.value@),
        ]);
    }
    Json::Object(v)
}

/// An object of these fields.
pub fn object(fields: Vec<Field>) -> (r: Json)
    ensures
        r@ == JsonView::Object(field_views(fields@)),
{
    proof {
        lemma_object(fields);
    }
    Json::Object(fields)
}

/// The text at the end of a way of two names.
pub open spec fn text_under(value: JsonView, first: Seq<char>, second: Seq<char>) -> Option<
    Seq<char>,
> {
    match value.get(first) {
        Some(inner) => inner.text_at(second),
        None => None,
    }
}

/// Whether the text at the end of a way of two names is this one.
pub fn text_under_is(value: &Json, first: &str, second: &str, wanted: &str) -> (r: bool)
    ensures
        r == (text_under(value@, first@, second@) == Some(wanted@)),
{
    match value.get(first) {
        Some(inner) => inner.text_at_is(second, wanted),
        None => false,
    }
}

// ---------------------------------------------------------------- equality

/// The two encodings of zero count as one number.
pub open spec fn same_bits(a: u64, b: u64) -> bool {
    a == b || (a % 0x8000_0000_0000_0000 == 0 && b % 0x8000_0000_0000_0000 == 0)
}

/// Whether two values are the same: numbers by their value within their kind, everything else
/// part by part.
pub open spec fn alike(a: JsonView, b: JsonView) -> bool
    decreases a,
{
    match (a, b) {
        (JsonView::Null, JsonView::Null) => true,
        (JsonView::Bool(x), JsonView::Bool(y)) => x == y,
        (JsonView::Integer(x), JsonView::Integer(y)) => x == y,
        (JsonView::Real(x, _), JsonView::Real(y, _)) => same_bits(x, y),
        (JsonView::Text(x), JsonView::Text(y)) => x == y,
        (JsonView::List(x), JsonView::List(y)) => {
            &&& x.len() == y.len()
            &&& forall|i: int| 0 <= i < x.len() ==> alike(#[trigger] x[i], y[i])
        },
        (JsonView::Object(x), JsonView::Object(y)) => {
            &&& x.len() == y.len()
            &&& forall|i: int|
                0 <= i < x.len() ==> (#[trigger] x[i]).0 == y[i].0 && alike(x[i].1, y[i].1)
        },
        _ => false,
    }
}

/// Whether two values are the same.
pub fn same_json(a: &Json, b: &Json) -> (r: bool)
    ensures
        r == alike(a@, b@),
    decreases a,
{
    match (a, b) {
        (Json::Null, Json::Null) => true,
        (Json::Bool(x), Json::Bool(y)) => *x == *y,
        (Json::Unsigned(x), Json::Unsigned(y)) => *x == *y,
        (Json::Negative(x), Json::Negative(y)) => *x == *y,
        (Json::Unsigned(x), Json::Negative(y)) => *y >= 0 && *x == *y as u64,
        (Json::Negative(x), Json::Unsigned(y)) => *x >= 0 && *x as u64 == *y,
        (Json::Float(x), Json::Float(y)) => x.bits == y.bits || (x.bits % 0x8000_0000_0000_0000
            == 0 && y.bits % 0x8000_0000_0000_0000 == 0),
        (Json::Text(x), Json::Text(y)) => same(x, y),
        (Json::List(x), Json::List(y)) => {
            proof {
                assert(json_view(*a)->List_0 =~= views(x@));
                assert(json_view(*b)->List_0 =~= views(y@));
            }
            if x.len() != y.len() {
                return false;
            }
            let mut i: usize = 0;
            while i < x.len()
                invariant
                    i <= x.len() == y.len(),
                    a == Json::List(*x),
                    b == Json::List(*y),
                    a@ == JsonView::List(views(x@)),
                    b@ == JsonView::List(views(y@)),
                    forall|j: int| 0 <= j < i ==> alike(#[trigger] views(x@)[j], views(y@)[j]),
                decreases x.len() - i,
            {
                if !same_json(&x[i], &y[i]) {
                    assert(!alike(views(x@)[i as int], views(y@)[i as int]));
                    return false;
                }
                i += 1;
            }
            true
        },
        (Json::Object(x), Json::Object(y)) => {
            proof {
                assert(json_view(*a)->Object_0 =~= field_views(x@));
                assert(json_view(*b)->Object_0 =~= field_views(y@));
            }
            if x.len() != y.len() {
                return false;
            }
            let mut i: usize = 0;
            while i < x.len()
                invariant
                    i <= x.len() == y.len(),
                    a == Json::Object(*x),
                    b == Json::Object(*y),
                    a@ == JsonView::Object(field_views(x@)),
                    b@ == JsonView::Object(field_views(y@)),
                    forall|j: int|
                        0 <= j < i ==> (#[trigger] field_views(x@)[j]).0 == field_views(y@)[j].0
                            && alike(field_views(x@)[j].1, field_views(y@)[j].1),
                decreases x.len() - i,
            {
                if !same(&x[i].name, &y[i].name) || !same_json(&x[i].value, &y[i].value) {
                    assert(!(field_views(x@)[i as int].0 == field_views(y@)[i as int].0 && alike(
                        field_views(x@)[i as int].1,
                        field_views(y@)[i as int].1,
                    )));
                    return false;
                }
                i += 1;
            }
            true
        },
        _ => false,
    }
}

/// Whether two optional values are both absent, or both there and the same.
pub open spec fn alike_opt(a: Option<JsonView>, b: Option<JsonView>) -> bool {
    match (a, b) {
        (Some(x), Some(y)) => alike(x, y),
        (None, None) => true,
        _ => false,
    }
}

// ---------------------------------------------------------------- text and values

/// What a byte string is read as: the value it denotes, or the reader's complaint.
pub uninterp spec fn json_parsed(bytes: Seq<u8>) -> Result<JsonView, Seq<char>>;

/// Whether a byte string is read as this value.
pub open spec fn reads_as(bytes: Seq<u8>, value: JsonView) -> bool {
    json_parsed(bytes) == Ok::<JsonView, Seq<char>>(value)
}

/// How a value is written, without white space.
pub uninterp spec fn json_text(value: JsonView) -> Seq<char>;

/// The complaint about bytes that are not UTF-8.
pub uninterp spec fn utf8_complaint(bytes: Seq<u8>) -> Seq<char>;

/// `serde_json::Value`, only carried from the reader to `from_value` and from `to_value` to the
/// writer.
#[verifier::external_type_specification]
#[verifier::external_body]
pub struct ExValue(Value);

/// Moves a value of `serde_json` into the library's type, part by part: a whole number by
/// `Number::as_u64` or `Number::as_i64`, another one by the encoding of `Number::as_f64` and the
/// digits that it is written with. Claims nothing by itself; `parse` states what is read.
#[verifier::external_body]
fn from_value(value: Value) -> Json {
    match value {
        Value::Null => Json::Null,
        Value::Bool(b) => Json::Bool(b),
        Value::Number(n) => n.as_u64().map(Json::Unsigned).or(n.as_i64().map(Json::Negative)).unwrap_or(
            Json::Float(Float { bits: n.as_f64().map_or(0, |x| x.to_bits()), text: n.to_string() }),
        ),
        Value::String(s) => Json::Text(s),
        Value::Array(items) => Json::List(items.into_iter().map(from_value).collect()),
        Value::Object(map) => Json::Object(map.into_iter().map(|(name, value)| Field { name, value: from_value(value) }).collect()),
    }
}

/// Moves a value of the library into `serde_json`'s type, part by part: a whole number by
/// `Number::from`, another one by `Number::from_f64` of its digits. Claims nothing by itself;
/// `render` states what is written.
#[verifier::external_body]
fn to_value(json: &Json) -> Value {
    match json {
        Json::Null => Value::Null,
        Json::Bool(b) => Value::Bool(*b),
        Json::Unsigned(n) => Value::from(*n),
        Json::Negative(n) => Value::from(*n),
        Json::Float(f) => Number::from_f64(f.text.parse().unwrap_or_default()).map_or(Value::Null, Value::Number),
        Json::Text(s) => Value::String(s.clone()),
        Json::List(items) => Value::Array(items.iter().map(to_value).collect()),
        Json::Object(fields) => Value::Object(fields.iter().map(|f| (f.name.clone(), to_value(&f.value))).collect()),
    }
}

/// `serde_json::from_slice` into a `serde_json::Value`: the result, a value or a complaint, is a
/// function of the bytes.
#[verifier::external_body]
pub(crate) fn parse(bytes: &[u8]) -> (r: Result<Json, String>)
    ensures
        match r {
            Ok(value) => reads_as(bytes@, value@),
            Err(complaint) => json_parsed(bytes@) == Err::<JsonView, Seq<char>>(complaint@),
        },
{
    serde_json::from_slice::<Value>(bytes).map(from_value).map_err(|error| error.to_string())
}

/// Whether a text stands on one line, without white space before it.
pub open spec fn one_line(text: Seq<char>) -> bool {
    &&& text.len() > 0
    &&& text[0] > ' '
    &&& forall|i: int| 0 <= i < text.len() ==> #[trigger] text[i] != '\n'
}

/// `serde_json::Value`'s `Display`: the compact text of a value is a function of the value and
/// stands on one line; reading it back, with or without the end of the line, gives a plain value
/// again.
#[verifier::external_body]
pub(crate) fn render(json: &Json) -> (r: String)
    ensures
        r@ == json_text(json@),
        one_line(r@),
        plain(json@, 127) ==> reads_as(encode_utf8(r@), json@) && reads_as(
            encode_utf8(r@).push(10),
            json@,
        ),
{
    to_value(json).to_string()
}

/// `String::from_utf8`: the text of bytes that are UTF-8, a complaint about others.
#[verifier::external_body]
pub(crate) fn utf8_text(bytes: Vec<u8>) -> (r: Result<String, String>)
    ensures
        match r {
            Ok(text) => valid_utf8(bytes@) && text@ == decode_utf8(bytes@),
            Err(complaint) => !valid_utf8(bytes@) && complaint@ == utf8_complaint(bytes@),
        },
{
    String::from_utf8(bytes).map_err(|error| error.utf8_error().to_string())
}

/// A value that survives being written and read: whole numbers of at most 64 bits, object fields
/// in the order of their names, nested at most `room` deep.
pub open spec fn plain(value: JsonView, room: nat) -> bool
    decreases room,
{
    match value {
        JsonView::Null | JsonView::Bool(_) | JsonView::Text(_) => true,
        JsonView::Integer(n) => -0x8000_0000_0000_0000 <= n <= 0xffff_ffff_ffff_ffff,
        JsonView::Real(_, _) => false,
        JsonView::List(items) => {
            &&& room > 0
            &&& forall|i: int|
                0 <= i < items.len() ==> plain(#[trigger] items[i], (room - 1) as nat)
        },
        JsonView::Object(fields) => {
            &&& room > 0
            &&& forall|i: int|
                0 <= i < fields.len() ==> plain((#[trigger] fields[i]).1, (room - 1) as nat)
            &&& forall|i: int, j: int|
                0 <= i < j < fields.len() ==> text_before(
                    (#[trigger] fields[i]).0,
                    (#[trigger] fields[j]).0,
                )
        },
    }
}

}
