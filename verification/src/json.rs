//! JSON values, and the text that `serde_json` writes and reads for them.

use crate::text;
use vstd::prelude::*;

verus! {

// ---------------------------------------------------------------------------
// What is taken from serde_json
// ---------------------------------------------------------------------------
/// `serde_json::Number`, carried through for the numbers that are no integers.
/// What it holds is seen through `as_u64` and `as_i64` alone.
#[verifier::external_type_specification]
#[verifier::external_body]
pub struct ExNumber(serde_json::Number);

/// `serde_json::Value`, the tree that `serde_json` reads and writes.
#[verifier::external_type_specification]
#[verifier::external_body]
pub struct ExValue(serde_json::Value);

/// The integer that a `serde_json::Number` holds, where `u64` can hold it.
pub uninterp spec fn number_u64(n: serde_json::Number) -> Option<u64>;

/// The integer that a `serde_json::Number` holds, where `i64` can hold it.
pub uninterp spec fn number_i64(n: serde_json::Number) -> Option<i64>;

/// `serde_json::Number::as_u64` gives the integer where `u64` can hold it; the
/// answer is only named.
pub assume_specification[ serde_json::Number::as_u64 ](n: &serde_json::Number) -> (u: Option<u64>)
    ensures
        u == number_u64(*n),
;

/// `serde_json::Number::as_i64` gives the integer where `i64` can hold it; the
/// answer is only named.
pub assume_specification[ serde_json::Number::as_i64 ](n: &serde_json::Number) -> (i: Option<i64>)
    ensures
        i == number_i64(*n),
;

/// The JSON value that a `serde_json::Value` holds.
pub uninterp spec fn value_held(v: serde_json::Value) -> JsonView;

/// The compact text that `serde_json` writes for a value.
pub uninterp spec fn compact_text(v: JsonView) -> Option<Seq<char>>;

/// The indented text that `serde_json` writes for a value.
pub uninterp spec fn pretty_text(v: JsonView) -> Option<Seq<char>>;

/// The value that `serde_json` reads from a text, or what it says is wrong
/// with the text.
pub uninterp spec fn value_read(text: Seq<char>) -> Result<JsonView, Seq<char>>;

/// Build the `serde_json::Value` of a [`Json`], variant by variant. An object
/// becomes a `serde_json::Map`, in which the last of two equal keys stays.
#[verifier::external_body]
fn to_value(j: &Json) -> (v: serde_json::Value)
    ensures
        value_held(v) == j@,
{
    match j {
        Json::Null => serde_json::Value::Null,
        Json::Bool(b) => serde_json::Value::Bool(*b),
        Json::Unsigned(n) => serde_json::Value::from(*n),
        Json::Signed(n) => serde_json::Value::from(*n),
        Json::Number(n) => serde_json::Value::Number(n.clone()),
        Json::Str(s) => serde_json::Value::String(s.clone()),
        Json::Array(items) => serde_json::Value::Array(items.iter().map(to_value).collect()),
        Json::Object(fields) => serde_json::Value::Object(
            fields.iter().map(|f| (f.0.clone(), to_value(&f.1))).collect(),
        ),
    }
}

/// Take the [`Json`] out of a `serde_json::Value`, variant by variant.
#[verifier::external_body]
fn from_value(v: &serde_json::Value) -> (j: Json)
    ensures
        j@ == value_held(*v),
{
    match v {
        serde_json::Value::Null => Json::Null,
        serde_json::Value::Bool(b) => Json::Bool(*b),
        serde_json::Value::Number(n) => Json::Number(n.clone()),
        serde_json::Value::String(s) => Json::Str(s.clone()),
        serde_json::Value::Array(a) => Json::Array(a.iter().map(from_value).collect()),
        serde_json::Value::Object(o) => Json::Object(o.iter().map(|(k, x)| (k.clone(), from_value(x))).collect()),
    }
}

/// `serde_json::to_string` writes a value as compact text; the text is only
/// named, and nothing where writing fails. There is no line break in it: none
/// between the tokens, and those in strings are escaped.
#[verifier::external_body]
fn write_compact(v: &serde_json::Value) -> (written: Option<String>)
    ensures
        text::opt_text(written) == compact_text(value_held(*v)),
        written is Some ==> !written->0@.contains('\n'),
{
    serde_json::to_string(v).ok()
}

/// `serde_json::to_string_pretty` writes a value as indented text; the text is
/// only named, and nothing where writing fails.
#[verifier::external_body]
fn write_pretty(v: &serde_json::Value) -> (written: Option<String>)
    ensures
        text::opt_text(written) == pretty_text(value_held(*v)),
{
    serde_json::to_string_pretty(v).ok()
}

/// `serde_json::from_str` reads a value from a text; what it reads, and what it
/// says where it cannot, is only named.
#[verifier::external_body]
fn read_value(s: &str) -> (read: Result<serde_json::Value, String>)
    ensures
        match read {
            Ok(v) => value_read(s@) == Ok::<JsonView, Seq<char>>(value_held(v)),
            Err(e) => value_read(s@) == Err::<JsonView, Seq<char>>(e@),
        },
{
    serde_json::from_str(s).map_err(|e| e.to_string())
}

/// `serde_json::Number::clone` gives the same number.
pub assume_specification[ <serde_json::Number as Clone>::clone ](n: &serde_json::Number) -> (m: serde_json::Number)
    ensures
        m == *n,
;

// ---------------------------------------------------------------------------
// Values
// ---------------------------------------------------------------------------
/// A JSON value.
#[derive(Debug, PartialEq)]
pub enum Json {
    /// `null`.
    Null,
    /// `true` or `false`.
    Bool(bool),
    /// An integer that is not negative.
    Unsigned(u64),
    /// An integer of either sign.
    Signed(i64),
    /// A number as `serde_json` holds it, integer or not.
    Number(serde_json::Number),
    /// A string.
    Str(String),
    /// An array.
    Array(Vec<Json>),
    /// An object. Where two fields have one key, the later one counts.
    Object(Vec<(String, Json)>),
}

/// What a [`Json`] stands for: an object is a map from keys to values, and an
/// integer has one form only, however it is held.
pub enum JsonView {
    Null,
    Bool(bool),
    Unsigned(u64),
    Negative(i64),
    Float(serde_json::Number),
    Str(Seq<char>),
    Array(Seq<JsonView>),
    Object(Map<Seq<char>, JsonView>),
}

/// The view of an integer of either sign.
pub open spec fn signed_view(n: i64) -> JsonView {
    if n >= 0 {
        JsonView::Unsigned(n as u64)
    } else {
        JsonView::Negative(n)
    }
}

/// The view of a number as `serde_json` holds it.
pub open spec fn number_view(n: serde_json::Number) -> JsonView {
    match number_u64(n) {
        Some(u) => JsonView::Unsigned(u),
        None => match number_i64(n) {
            Some(i) => signed_view(i),
            None => JsonView::Float(n),
        },
    }
}

/// The view of a [`Json`].
pub open spec fn json_view(j: Json) -> JsonView
    decreases j,
{
    match j {
        Json::Null => JsonView::Null,
        Json::Bool(b) => JsonView::Bool(b),
        Json::Unsigned(n) => JsonView::Unsigned(n),
        Json::Signed(n) => signed_view(n),
        Json::Number(n) => number_view(n),
        Json::Str(s) => JsonView::Str(s@),
        Json::Array(items) => JsonView::Array(items_view(items@)),
        Json::Object(fields) => JsonView::Object(fields_view(fields@)),
    }
}

/// The views of the items of an array.
pub open spec fn items_view(items: Seq<Json>) -> Seq<JsonView>
    decreases items,
{
    Seq::new(
        items.len(),
        |i: int|
            if 0 <= i < items.len() {
                json_view(items[i])
            } else {
                JsonView::Null
            },
    )
}

/// The map that the fields of an object stand for.
pub open spec fn fields_view(fields: Seq<(String, Json)>) -> Map<Seq<char>, JsonView>
    decreases fields,
{
    if fields.len() == 0 {
        Map::empty()
    } else {
        fields_view(fields.subrange(0, fields.len() - 1)).insert(
            fields[fields.len() - 1].0@,
            json_view(fields[fields.len() - 1].1),
        )
    }
}

impl View for Json {
    type V = JsonView;

    open spec fn view(&self) -> JsonView {
        json_view(*self)
    }
}

impl Clone for Json {
    fn clone(&self) -> (j: Json)
        ensures
            j@ == self@,
    {
        self.copy()
    }
}

impl JsonView {
    /// The object without fields.
    pub open spec fn object() -> JsonView {
        JsonView::Object(Map::empty())
    }

    /// An object with one more field.
    pub open spec fn with(self, key: Seq<char>, value: JsonView) -> JsonView {
        match self {
            JsonView::Object(m) => JsonView::Object(m.insert(key, value)),
            _ => self,
        }
    }

    /// The value under a key of an object.
    pub open spec fn get(self, key: Seq<char>) -> Option<JsonView> {
        match self {
            JsonView::Object(m) => if m.contains_key(key) {
                Some(m[key])
            } else {
                None
            },
            _ => None,
        }
    }

    /// The text of a string.
    pub open spec fn as_str(self) -> Option<Seq<char>> {
        match self {
            JsonView::Str(s) => Some(s),
            _ => None,
        }
    }

    /// The number that is an integer and not negative.
    pub open spec fn as_u64(self) -> Option<u64> {
        match self {
            JsonView::Unsigned(n) => Some(n),
            _ => None,
        }
    }

    /// The truth value.
    pub open spec fn as_bool(self) -> Option<bool> {
        match self {
            JsonView::Bool(b) => Some(b),
            _ => None,
        }
    }

    /// The items of an array.
    pub open spec fn as_array(self) -> Option<Seq<JsonView>> {
        match self {
            JsonView::Array(items) => Some(items),
            _ => None,
        }
    }

    /// The text under a key of an object.
    pub open spec fn str_at(self, key: Seq<char>) -> Option<Seq<char>> {
        match self.get(key) {
            Some(v) => v.as_str(),
            None => None,
        }
    }

    /// The integer that is not negative under a key of an object.
    pub open spec fn u64_at(self, key: Seq<char>) -> Option<u64> {
        match self.get(key) {
            Some(v) => v.as_u64(),
            None => None,
        }
    }

    /// The truth value under a key of an object.
    pub open spec fn bool_at(self, key: Seq<char>) -> Option<bool> {
        match self.get(key) {
            Some(v) => v.as_bool(),
            None => None,
        }
    }

    /// A string, or `null` where there is none.
    pub open spec fn opt_str(s: Option<Seq<char>>) -> JsonView {
        match s {
            Some(t) => JsonView::Str(t),
            None => JsonView::Null,
        }
    }

    /// An array of strings.
    pub open spec fn strs(s: Seq<Seq<char>>) -> JsonView {
        JsonView::Array(s.map_values(|t: Seq<char>| JsonView::Str(t)))
    }
}

impl Json {
    /// The object without fields.
    pub fn object() -> (j: Json)
        ensures
            j@ == JsonView::object(),
    {
        Json::Object(Vec::new())
    }

    /// An object with one more field; any other value as it is.
    pub fn with(self, key: &str, value: Json) -> (j: Json)
        ensures
            j@ == self@.with(key@, value@),
    {
        match self {
            Json::Object(fields) => {
                let mut fields = fields;
                let ghost before = fields@;
                fields.push((key.to_owned(), value));
                assert(fields@.subrange(0, fields@.len() - 1) =~= before);
                Json::Object(fields)
            },
            other => other,
        }
    }

    /// A string.
    pub fn text(s: &str) -> (j: Json)
        ensures
            j@ == JsonView::Str(s@),
    {
        Json::Str(s.to_owned())
    }

    /// A string, or `null` where there is none.
    pub fn opt_text(s: &Option<String>) -> (j: Json)
        ensures
            j@ == JsonView::opt_str(text::opt_text(*s)),
    {
        match s {
            Some(t) => Json::Str(t.clone()),
            None => Json::Null,
        }
    }

    /// An array of strings.
    pub fn texts(strings: &Vec<String>) -> (j: Json)
        ensures
            j@ == JsonView::strs(text::texts(strings@)),
    {
        let mut items: Vec<Json> = Vec::new();
        let mut i: usize = 0;
        while i < strings.len()
            invariant
                i <= strings@.len(),
                items@.len() == i,
                forall|k: int| 0 <= k < i ==> json_view(#[trigger] items@[k]) == JsonView::Str(strings@[k]@),
            decreases strings@.len() - i,
        {
            items.push(Json::Str(strings[i].clone()));
            i += 1;
        }
        let ghost want = text::texts(strings@).map_values(|t: Seq<char>| JsonView::Str(t));
        assert(items_view(items@) =~= want);
        Json::Array(items)
    }

    /// The value under a key of an object; nothing for any other value.
    pub fn get(&self, key: &str) -> (found: Option<&Json>)
        ensures
            match found {
                Some(v) => self@.get(key@) == Some(v@),
                None => self@.get(key@) is None,
            },
    {
        match self {
            Json::Object(fields) => {
                let mut i: usize = fields.len();
                assert(fields@.subrange(0, fields@.len() as int) =~= fields@);
                while i > 0
                    invariant
                        i <= fields@.len(),
                        fields_view(fields@).contains_key(key@) == fields_view(fields@.subrange(0, i as int)).contains_key(key@),
                        fields_view(fields@)[key@] == fields_view(fields@.subrange(0, i as int))[key@],
                        self@ == JsonView::Object(fields_view(fields@)),
                    decreases i,
                {
                    let ghost upto = fields@.subrange(0, i as int);
                    assert(upto.subrange(0, upto.len() - 1) =~= fields@.subrange(0, i - 1));
                    i -= 1;
                    let name: &str = fields[i].0.as_str();
                    if *name == *key {
                        return Some(&fields[i].1);
                    }
                }
                None
            },
            _ => None,
        }
    }

    /// The text of a string.
    pub fn as_str(&self) -> (s: Option<&str>)
        ensures
            text::opt_str(s) == self@.as_str(),
    {
        match self {
            Json::Str(s) => Some(s.as_str()),
            _ => None,
        }
    }

    /// The number that is an integer and not negative.
    pub fn as_u64(&self) -> (n: Option<u64>)
        ensures
            n == self@.as_u64(),
    {
        match self {
            Json::Unsigned(n) => Some(*n),
            Json::Signed(n) => if *n >= 0 {
                Some(*n as u64)
            } else {
                None
            },
            Json::Number(n) => match n.as_u64() {
                Some(u) => Some(u),
                None => match n.as_i64() {
                    Some(i) => if i >= 0 {
                        Some(i as u64)
                    } else {
                        None
                    },
                    None => None,
                },
            },
            _ => None,
        }
    }

    /// The truth value.
    pub fn as_bool(&self) -> (b: Option<bool>)
        ensures
            b == self@.as_bool(),
    {
        match self {
            Json::Bool(b) => Some(*b),
            _ => None,
        }
    }

    /// The items of an array.
    pub fn as_array(&self) -> (items: Option<&Vec<Json>>)
        ensures
            match items {
                Some(v) => self@.as_array() == Some(items_view(v@)),
                None => self@.as_array() is None,
            },
    {
        match self {
            Json::Array(items) => Some(items),
            _ => None,
        }
    }

    /// The text under a key of an object.
    pub fn str_at(&self, key: &str) -> (s: Option<&str>)
        ensures
            text::opt_str(s) == self@.str_at(key@),
    {
        match self.get(key) {
            Some(v) => v.as_str(),
            None => None,
        }
    }

    /// The integer that is not negative under a key of an object.
    pub fn u64_at(&self, key: &str) -> (n: Option<u64>)
        ensures
            n == self@.u64_at(key@),
    {
        match self.get(key) {
            Some(v) => v.as_u64(),
            None => None,
        }
    }

    /// The truth value under a key of an object.
    pub fn bool_at(&self, key: &str) -> (b: Option<bool>)
        ensures
            b == self@.bool_at(key@),
    {
        match self.get(key) {
            Some(v) => v.as_bool(),
            None => None,
        }
    }

    /// A number as `serde_json` holds it.
    pub(crate) fn number(n: &serde_json::Number) -> (j: Json)
        ensures
            j@ == number_view(*n),
    {
        Json::Number(n.clone())
    }

    fn copy(&self) -> (j: Json)
        ensures
            j@ == self@,
        decreases self,
    {
        match self {
            Json::Null => Json::Null,
            Json::Bool(b) => Json::Bool(*b),
            Json::Unsigned(n) => Json::Unsigned(*n),
            Json::Signed(n) => Json::Signed(*n),
            Json::Number(n) => Json::Number(n.clone()),
            Json::Str(s) => Json::Str(s.clone()),
            Json::Array(items) => {
                let mut out: Vec<Json> = Vec::new();
                let mut i: usize = 0;
                while i < items.len()
                    invariant
                        i <= items@.len(),
                        out@.len() == i,
                        self matches Json::Array(it) && it == items,
                        forall|k: int| 0 <= k < i ==> json_view(#[trigger] out@[k]) == json_view(items@[k]),
                    decreases items@.len() - i,
                {
                    out.push(items[i].copy());
                    i += 1;
                }
                assert(items_view(out@) =~= items_view(items@));
                Json::Array(out)
            },
            Json::Object(fields) => {
                let mut out: Vec<(String, Json)> = Vec::new();
                let mut i: usize = 0;
                assert(fields_view(out@) =~= fields_view(fields@.subrange(0, 0)));
                while i < fields.len()
                    invariant
                        i <= fields@.len(),
                        out@.len() == i,
                        self matches Json::Object(it) && it == fields,
                        fields_view(out@) == fields_view(fields@.subrange(0, i as int)),
                    decreases fields@.len() - i,
                {
                    let ghost before = out@;
                    out.push((fields[i].0.clone(), fields[i].1.copy()));
                    let ghost upto = fields@.subrange(0, i + 1);
                    assert(upto.subrange(0, upto.len() - 1) =~= fields@.subrange(0, i as int));
                    assert(out@.subrange(0, out@.len() - 1) =~= before);
                    i += 1;
                }
                assert(fields@.subrange(0, fields@.len() as int) =~= fields@);
                Json::Object(out)
            },
        }
    }

    /// The compact text of the value, which has no line breaks.
    pub fn to_text(&self) -> (s: Option<String>)
        ensures
            text::opt_text(s) == compact_text(self@),
            s is Some ==> !s->0@.contains('\n'),
    {
        let v = to_value(self);
        write_compact(&v)
    }

    /// The indented text of the value.
    pub fn to_pretty_text(&self) -> (s: Option<String>)
        ensures
            text::opt_text(s) == pretty_text(self@),
    {
        let v = to_value(self);
        write_pretty(&v)
    }

    /// Read a value from a text; the error is what is wrong with the text.
    pub fn parse(s: &str) -> (read: Result<Json, String>)
        ensures
            match read {
                Ok(j) => value_read(s@) == Ok::<JsonView, Seq<char>>(j@),
                Err(e) => value_read(s@) == Err::<JsonView, Seq<char>>(e@),
            },
    {
        match read_value(s) {
            Ok(v) => Ok(from_value(&v)),
            Err(e) => Err(e),
        }
    }
}

// ---------------------------------------------------------------------------
// What holds of every value
// ---------------------------------------------------------------------------
/// A field that an object is given is read back, whatever stood under its key
/// before; every other field stays.
pub proof fn field_reads_back(o: JsonView, key: Seq<char>, value: JsonView, other: Seq<char>)
    requires
        o is Object,
    ensures
        o.with(key, value) is Object,
        o.with(key, value).get(key) == Some(value),
        other != key ==> o.with(key, value).get(other) == o.get(other),
        JsonView::object().get(key) is None,
{
}

/// A value is read as what it is and as nothing else.
pub proof fn value_is_read_as_it_is(v: JsonView, key: Seq<char>, s: Seq<char>, n: u64, b: bool)
    ensures
        v.as_str() == Some(s) <==> v == JsonView::Str(s),
        v.as_u64() == Some(n) <==> v == JsonView::Unsigned(n),
        v.as_bool() == Some(b) <==> v == JsonView::Bool(b),
        v.str_at(key) == Some(s) <==> v.get(key) == Some(JsonView::Str(s)),
        v.u64_at(key) == Some(n) <==> v.get(key) == Some(JsonView::Unsigned(n)),
        v.bool_at(key) == Some(b) <==> v.get(key) == Some(JsonView::Bool(b)),
        !(v is Object) ==> v.get(key) is None,
        JsonView::opt_str(Some(s)) == JsonView::Str(s),
        JsonView::opt_str(None) == JsonView::Null,
{
}

/// The items of an array are read in their order.
pub proof fn items_are_read_in_order(v: JsonView, items: Seq<JsonView>, texts: Seq<Seq<char>>, i: int)
    ensures
        v.as_array() == Some(items) <==> v == JsonView::Array(items),
        JsonView::strs(texts) is Array,
        JsonView::strs(texts)->Array_0.len() == texts.len(),
        0 <= i < texts.len() ==> JsonView::strs(texts)->Array_0[i] == JsonView::Str(texts[i]),
{
}

/// Of two fields with one key the later counts; a field counts for its own key
/// alone.
pub proof fn later_field_counts(fields: Seq<(String, Json)>, field: (String, Json), other: Seq<char>)
    ensures
        fields_view(fields.push(field)).contains_key(field.0@),
        fields_view(fields.push(field))[field.0@] == field.1@,
        other != field.0@ ==> (fields_view(fields.push(field)).contains_key(other) <==> fields_view(fields).contains_key(other)),
        other != field.0@ ==> fields_view(fields.push(field))[other] == fields_view(fields)[other],
        fields_view(Seq::empty()) == Map::<Seq<char>, JsonView>::empty(),
{
    let more = fields.push(field);
    assert(more.subrange(0, more.len() - 1) =~= fields);
}

/// An integer has one form, whatever type holds it: the sign tells which.
pub proof fn integer_has_one_form(n: i64)
    ensures
        n >= 0 ==> json_view(Json::Signed(n)) == json_view(Json::Unsigned(n as u64)),
        n < 0 ==> json_view(Json::Signed(n)) == JsonView::Negative(n),
        n < 0 ==> json_view(Json::Signed(n)).as_u64() is None,
{
}

/// A number that `serde_json` holds is the integer that it holds, where it holds one
/// that is not negative or one that is.
pub proof fn held_numbers_are_their_integers(n: serde_json::Number, u: u64, i: i64)
    ensures
        number_u64(n) == Some(u) ==> json_view(Json::Number(n)) == json_view(Json::Unsigned(u)),
        number_u64(n) is None && number_i64(n) == Some(i) ==> json_view(Json::Number(n)) == json_view(Json::Signed(i)),
        number_u64(n) is None && number_i64(n) is None ==> json_view(Json::Number(n)) == JsonView::Float(n),
{
}

} // verus!
