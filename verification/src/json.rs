//! JSON values, as the providers' requests and replies are made of them.

use vstd::prelude::*;

use serde_json::Value;

use crate::text::same_text;

verus! {

/// `serde_json::Value`, a parsed JSON document.
#[verifier::external_type_specification]
#[verifier::external_body]
pub struct ExValue(serde_json::Value);

/// A JSON value.
///
/// A number is an `Unsigned`, a `Negative`, or the text of any other number.
#[derive(Debug, PartialEq)]
pub enum Json {
    Null,
    Bool(bool),
    Unsigned(u64),
    Negative(i64),
    Decimal(String),
    Text(String),
    Array(Vec<Json>),
    Object(Vec<(String, Json)>),
}

/// What a JSON value holds.
pub enum JsonView {
    Null,
    Bool(bool),
    Unsigned(u64),
    Negative(i64),
    Decimal(Seq<char>),
    Text(Seq<char>),
    Array(Seq<JsonView>),
    Object(Seq<(Seq<char>, JsonView)>),
}

impl Json {
    /// What the value holds.
    pub open spec fn model(self) -> JsonView
        decreases self,
    {
        match self {
            Json::Null => JsonView::Null,
            Json::Bool(b) => JsonView::Bool(b),
            Json::Unsigned(n) => JsonView::Unsigned(n),
            Json::Negative(n) => JsonView::Negative(n),
            Json::Decimal(t) => JsonView::Decimal(t@),
            Json::Text(t) => JsonView::Text(t@),
            Json::Array(items) => JsonView::Array(
                Seq::new(
                    items@.len(),
                    |i: int|
                        if 0 <= i < items@.len() {
                            items@[i].model()
                        } else {
                            JsonView::Null
                        },
                ),
            ),
            Json::Object(fields) => JsonView::Object(
                Seq::new(
                    fields@.len(),
                    |i: int|
                        if 0 <= i < fields@.len() {
                            (fields@[i].0@, fields@[i].1.model())
                        } else {
                            (Seq::empty(), JsonView::Null)
                        },
                ),
            ),
        }
    }
}

impl View for Json {
    type V = JsonView;

    open spec fn view(&self) -> JsonView {
        self.model()
    }
}

/// What `serde_json` reads from a text: the document's value, or nothing where the text is no
/// JSON document.
pub uninterp spec fn json_parsed(text: Seq<char>) -> Option<JsonView>;

/// What `serde_json` says of a text that is no JSON document.
pub uninterp spec fn json_fault(text: Seq<char>) -> Seq<char>;

/// What `serde_json` reads from a text, or what it says where the text is no JSON document.
pub open spec fn json_read(text: Seq<char>) -> Result<JsonView, Seq<char>> {
    match json_parsed(text) {
        Some(value) => Ok(value),
        None => Err(json_fault(text)),
    }
}

/// The compact text that `serde_json` writes for a value.
pub uninterp spec fn json_written(value: JsonView) -> Seq<char>;

/// The values of a list.
pub open spec fn items_view(items: Seq<Json>) -> Seq<JsonView> {
    Seq::new(items.len(), |i: int| items[i]@)
}

/// The names and values of a list of fields.
pub open spec fn fields_view(fields: Seq<(String, Json)>) -> Seq<(Seq<char>, JsonView)> {
    Seq::new(fields.len(), |i: int| (fields[i].0@, fields[i].1@))
}

/// The value of the first field called `key`.
pub open spec fn lookup(fields: Seq<(Seq<char>, JsonView)>, key: Seq<char>) -> Option<JsonView>
    decreases fields.len(),
{
    if fields.len() == 0 {
        None
    } else if fields[0].0 == key {
        Some(fields[0].1)
    } else {
        lookup(fields.drop_first(), key)
    }
}

impl JsonView {
    /// The field `key` of an object.
    pub open spec fn field(self, key: Seq<char>) -> Option<JsonView> {
        match self {
            JsonView::Object(fields) => lookup(fields, key),
            _ => None,
        }
    }

    /// The characters of a text.
    pub open spec fn chars(self) -> Option<Seq<char>> {
        match self {
            JsonView::Text(t) => Some(t),
            _ => None,
        }
    }

    /// The items of an array.
    pub open spec fn items(self) -> Option<Seq<JsonView>> {
        match self {
            JsonView::Array(items) => Some(items),
            _ => None,
        }
    }

    /// An integer that is not negative.
    pub open spec fn unsigned(self) -> Option<u64> {
        match self {
            JsonView::Unsigned(n) => Some(n),
            _ => None,
        }
    }

    /// The text in the field `key`.
    pub open spec fn text_field(self, key: Seq<char>) -> Option<Seq<char>> {
        match self.field(key) {
            Some(v) => v.chars(),
            None => None,
        }
    }

    /// The text in the field `inner` of the field `outer`.
    pub open spec fn nested_text(self, outer: Seq<char>, inner: Seq<char>) -> Option<Seq<char>> {
        match self.field(outer) {
            Some(v) => v.text_field(inner),
            None => None,
        }
    }

    /// The items of the array in the field `key`.
    pub open spec fn array_field(self, key: Seq<char>) -> Option<Seq<JsonView>> {
        match self.field(key) {
            Some(v) => v.items(),
            None => None,
        }
    }

    /// The integer in the field `key`.
    pub open spec fn unsigned_field(self, key: Seq<char>) -> Option<u64> {
        match self.field(key) {
            Some(v) => v.unsigned(),
            None => None,
        }
    }
}

/// The position of the first field called `key`.
pub open spec fn position_of(fields: Seq<(Seq<char>, JsonView)>, key: Seq<char>) -> Option<int>
    decreases fields.len(),
{
    if fields.len() == 0 {
        None
    } else if fields[0].0 == key {
        Some(0)
    } else {
        match position_of(fields.drop_first(), key) {
            Some(i) => Some(i + 1),
            None => None,
        }
    }
}

/// The position that is found is that of the field that is looked up, and the first one.
pub proof fn lemma_position(fields: Seq<(Seq<char>, JsonView)>, key: Seq<char>)
    ensures
        match position_of(fields, key) {
            Some(i) => 0 <= i < fields.len() && fields[i].0 == key && lookup(fields, key) == Some(
                fields[i].1,
            ) && forall|j: int| 0 <= j < i ==> (#[trigger] fields[j]).0 != key,
            None => lookup(fields, key) is None && forall|j: int|
                0 <= j < fields.len() ==> (#[trigger] fields[j]).0 != key,
        },
    decreases fields.len(),
{
    if fields.len() > 0 && fields[0].0 != key {
        let rest = fields.drop_first();
        lemma_position(rest, key);
        match position_of(rest, key) {
            Some(i) => {
                assert forall|j: int| 0 <= j < i + 1 implies (#[trigger] fields[j]).0 != key by {
                    if j > 0 {
                        assert(fields[j] == rest[j - 1]);
                    }
                }
            },
            None => {
                assert forall|j: int| 0 <= j < fields.len() implies (#[trigger] fields[j]).0
                    != key by {
                    if j > 0 {
                        assert(fields[j] == rest[j - 1]);
                    }
                }
            },
        }
    }
}

/// A first position with the key is the position that is found.
pub proof fn lemma_position_is(fields: Seq<(Seq<char>, JsonView)>, key: Seq<char>, i: int)
    requires
        0 <= i < fields.len(),
        fields[i].0 == key,
        forall|j: int| 0 <= j < i ==> (#[trigger] fields[j]).0 != key,
    ensures
        position_of(fields, key) == Some(i),
{
    lemma_position(fields, key);
}

/// The first field with a name is the one that is found under it.
pub proof fn lemma_field_at(fields: Seq<(Seq<char>, JsonView)>, key: Seq<char>, i: int)
    requires
        0 <= i < fields.len(),
        fields[i].0 == key,
        forall|j: int| 0 <= j < i ==> (#[trigger] fields[j]).0 != key,
    ensures
        JsonView::Object(fields).field(key) == Some(fields[i].1),
{
    lemma_position_is(fields, key, i);
    lemma_position(fields, key);
}

/// Where no field has a name, nothing is found under it.
pub proof fn lemma_no_field(fields: Seq<(Seq<char>, JsonView)>, key: Seq<char>)
    requires
        forall|j: int| 0 <= j < fields.len() ==> (#[trigger] fields[j]).0 != key,
    ensures
        JsonView::Object(fields).field(key) is None,
{
    lemma_position(fields, key);
}

/// Fields with `key` set to `value`: in the place of the first field of that name, or at the end.
pub open spec fn put_field(
    fields: Seq<(Seq<char>, JsonView)>,
    key: Seq<char>,
    value: JsonView,
) -> Seq<(Seq<char>, JsonView)> {
    match position_of(fields, key) {
        Some(i) => fields.update(i, (key, value)),
        None => fields.push((key, value)),
    }
}

/// What an optional text holds.
pub open spec fn option_text(t: Option<String>) -> Option<Seq<char>> {
    match t {
        Some(s) => Some(s@),
        None => None,
    }
}

/// What an optional value holds.
pub open spec fn option_json(v: Option<Json>) -> Option<JsonView> {
    match v {
        Some(j) => Some(j@),
        None => None,
    }
}

/// What an optional borrowed value holds.
pub open spec fn option_json_ref(v: Option<&Json>) -> Option<JsonView> {
    match v {
        Some(j) => Some(j@),
        None => None,
    }
}

/// Whether a text is there and is `wanted`.
pub fn is_text(text: &Option<String>, wanted: &str) -> (r: bool)
    ensures
        r == (option_text(*text) == Some(wanted@)),
{
    match text {
        Some(t) => same_text(t, wanted),
        None => false,
    }
}

/// A value as an object: a list that holds as many items as there are names holds the fields that
/// they name, one behind the other.
pub open spec fn with_names(v: JsonView, names: Seq<&str>) -> JsonView {
    match v {
        JsonView::Array(items) => if items.len() == names.len() {
            JsonView::Object(Seq::new(items.len(), |i: int| (names[i]@, items[i])))
        } else {
            v
        },
        _ => v,
    }
}

/// A value as an object: a list that holds as many items as there are names holds the fields that
/// they name, one behind the other.
pub fn named(v: &Json, names: Vec<&str>) -> (r: Json)
    ensures
        r@ == with_names(v@, names@),
{
    if let Json::Array(items) = v {
        if items.len() == names.len() {
            let mut fields: Vec<(String, Json)> = Vec::new();
            let mut i: usize = 0;
            while i < items.len()
                invariant
                    i <= items@.len(),
                    items@.len() == names@.len(),
                    fields@.len() == i,
                    forall|j: int|
                        0 <= j < i ==> (#[trigger] fields@[j]).0@ == names@[j]@ && fields@[j].1@
                            == items@[j]@,
                decreases items@.len() - i,
            {
                fields.push((names[i].to_owned(), items[i].copy()));
                i += 1;
            }
            let r = Json::Object(fields);
            proof {
                let wanted = with_names(v@, names@);
                assert(r@->Object_0 =~= wanted->Object_0);
            }
            return r;
        }
    }
    v.copy()
}

/// `serde_json::Value`, variant by variant. Nothing is claimed of the result here: what a parsed
/// document holds is named where a text is read.
#[verifier::external_body]
fn json_of(value: &Value) -> Json {
    match value {
        Value::Null => Json::Null,
        Value::Bool(b) => Json::Bool(*b),
        Value::Number(n) => match (n.as_u64(), n.as_i64()) {
            (Some(u), _) => Json::Unsigned(u),
            (None, Some(i)) => Json::Negative(i),
            (None, None) => Json::Decimal(n.to_string()),
        },
        Value::String(t) => Json::Text(t.clone()),
        Value::Array(items) => Json::Array(items.iter().map(json_of).collect()),
        Value::Object(map) => Json::Object(
            map.iter().map(|(k, v)| (k.clone(), json_of(v))).collect()),
    }
}

/// The `serde_json::Value` that stands for a value, variant by variant. Nothing is claimed of the
/// result here: what is written for a value is named where a text is made.
#[verifier::external_body]
fn value_of(json: &Json) -> Value {
    match json {
        Json::Null => Value::Null,
        Json::Bool(b) => Value::Bool(*b),
        Json::Unsigned(n) => Value::from(*n),
        Json::Negative(n) => Value::from(*n),
        Json::Decimal(t) => serde_json::from_str(t).unwrap_or_default(),
        Json::Text(t) => Value::String(t.clone()),
        Json::Array(items) => items.iter().map(value_of).collect(),
        Json::Object(fields) => fields.iter().map(|f| (f.0.clone(), value_of(&f.1))).collect(),
    }
}

/// `serde_json::from_str` into a `serde_json::Value`: the value that the text writes, or what
/// `serde_json::Error` says where it writes none. What it reads is named `json_parsed`, what the
/// error says `json_fault`. A `serde_json::Value` keeps no trace of a field that is written twice.
#[verifier::external_body]
pub(crate) fn read_json(text: &str) -> (r: Result<Json, String>)
    ensures
        match r {
            Ok(value) => json_parsed(text@) == Some(value@),
            Err(fault) => json_parsed(text@) is None && fault@ == json_fault(text@),
        },
{
    match serde_json::from_str::<Value>(text) {
        Ok(value) => Ok(json_of(&value)),
        Err(error) => Err(error.to_string()),
    }
}

/// The value that a text writes, or nothing where it writes none.
pub(crate) fn parse_json(text: &str) -> (r: Option<Json>)
    ensures
        option_json(r) == json_parsed(text@),
{
    match read_json(text) {
        Ok(value) => Some(value),
        Err(_) => None,
    }
}

/// `serde_json::to_string` of a `serde_json::Value`: its compact text, named `json_written`.
#[verifier::external_body]
pub(crate) fn write_json(value: &Json) -> (text: String)
    ensures
        text@ == json_written(value@),
{
    value_of(value).to_string()
}

impl Json {
    /// A text.
    pub fn text(t: &str) -> (r: Json)
        ensures
            r@ == JsonView::Text(t@),
    {
        Json::Text(t.to_owned())
    }

    /// An integer.
    pub fn integer(n: i64) -> (r: Json)
        ensures
            r@ == int_view(n as int),
    {
        if n >= 0 {
            Json::Unsigned(n as u64)
        } else {
            Json::Negative(n)
        }
    }

    /// The field `key` of an object.
    pub fn get(&self, key: &str) -> (r: Option<&Json>)
        ensures
            option_json_ref(r) == self@.field(key@),
    {
        match self {
            Json::Object(fields) => {
                assert(self@->Object_0 =~= fields_view(fields@));
                assert(fields_view(fields@).skip(0) =~= fields_view(fields@));
                let mut i: usize = 0;
                while i < fields.len()
                    invariant
                        i <= fields@.len(),
                        self@.field(key@) == lookup(fields_view(fields@), key@),
                        lookup(fields_view(fields@), key@) == lookup(
                            fields_view(fields@).skip(i as int),
                            key@,
                        ),
                    decreases fields@.len() - i,
                {
                    let ghost rest = fields_view(fields@).skip(i as int);
                    assert(rest[0] == (fields@[i as int].0@, fields@[i as int].1@));
                    assert(rest.drop_first() =~= fields_view(fields@).skip(i + 1));
                    if same_text(&fields[i].0, key) {
                        return Some(&fields[i].1);
                    }
                    i += 1;
                }
                None
            },
            _ => None,
        }
    }

    /// The characters of a text.
    pub fn as_text(&self) -> (r: Option<&String>)
        ensures
            match r {
                Some(t) => self@.chars() == Some(t@),
                None => self@.chars() is None,
            },
    {
        match self {
            Json::Text(t) => Some(t),
            _ => None,
        }
    }

    /// The items of an array.
    pub fn as_array(&self) -> (r: Option<&Vec<Json>>)
        ensures
            match r {
                Some(items) => self@.items() == Some(items_view(items@)),
                None => self@.items() is None,
            },
    {
        match self {
            Json::Array(items) => {
                assert(self@->Array_0 =~= items_view(items@));
                Some(items)
            },
            _ => None,
        }
    }

    /// An integer that is not negative.
    pub fn as_unsigned(&self) -> (r: Option<u64>)
        ensures
            r == self@.unsigned(),
    {
        match self {
            Json::Unsigned(n) => Some(*n),
            _ => None,
        }
    }

    /// A copy of the text in the field `key`.
    pub fn text_at(&self, key: &str) -> (r: Option<String>)
        ensures
            option_text(r) == self@.text_field(key@),
    {
        match self.get(key) {
            Some(v) => match v.as_text() {
                Some(t) => Some(t.clone()),
                None => None,
            },
            None => None,
        }
    }

    /// A copy of the text in the field `inner` of the field `outer`.
    pub fn nested_text_at(&self, outer: &str, inner: &str) -> (r: Option<String>)
        ensures
            option_text(r) == self@.nested_text(outer@, inner@),
    {
        match self.get(outer) {
            Some(v) => v.text_at(inner),
            None => None,
        }
    }

    /// The items of the array in the field `key`.
    pub fn array_at(&self, key: &str) -> (r: Option<&Vec<Json>>)
        ensures
            match r {
                Some(items) => self@.array_field(key@) == Some(items_view(items@)),
                None => self@.array_field(key@) is None,
            },
    {
        match self.get(key) {
            Some(v) => v.as_array(),
            None => None,
        }
    }

    /// The integer in the field `key`.
    pub fn unsigned_at(&self, key: &str) -> (r: Option<u64>)
        ensures
            r == self@.unsigned_field(key@),
    {
        match self.get(key) {
            Some(v) => v.as_unsigned(),
            None => None,
        }
    }

    /// The object with its field `key` set to `value`; a value that is no object is kept.
    pub fn set(self, key: &str, value: Json) -> (r: Json)
        ensures
            r@ == (match self@ {
                JsonView::Object(fields) => JsonView::Object(put_field(fields, key@, value@)),
                _ => self@,
            }),
    {
        match self {
            Json::Object(fields) => {
                let ghost all = fields_view(fields@);
                assert(self@->Object_0 =~= all);
                let mut list = fields;
                let mut i: usize = 0;
                while i < list.len()
                    invariant
                        i <= list@.len(),
                        all == fields_view(list@),
                        forall|j: int| 0 <= j < i ==> (#[trigger] all[j]).0 != key@,
                    ensures
                        i <= list@.len(),
                        all == fields_view(list@),
                        forall|j: int| 0 <= j < i ==> (#[trigger] all[j]).0 != key@,
                        i < list@.len() ==> all[i as int].0 == key@,
                    decreases list@.len() - i,
                {
                    if same_text(&list[i].0, key) {
                        break;
                    }
                    i += 1;
                }
                proof {
                    lemma_position(all, key@);
                }
                if i < list.len() {
                    proof {
                        lemma_position_is(all, key@, i as int);
                    }
                    list.set(i, (key.to_owned(), value));
                    assert(fields_view(list@) =~= all.update(i as int, (key@, value@)));
                } else {
                    assert(position_of(all, key@) is None) by {
                        if let Some(j) = position_of(all, key@) {
                            assert(all[j].0 == key@);
                        }
                    }
                    list.push((key.to_owned(), value));
                    assert(fields_view(list@) =~= all.push((key@, value@)));
                }
                let r = Json::Object(list);
                assert(r@->Object_0 =~= fields_view(list@));
                r
            },
            other => other,
        }
    }

    /// A copy.
    pub fn copy(&self) -> (r: Json)
        ensures
            r@ == self@,
        decreases self,
    {
        match self {
            Json::Null => Json::Null,
            Json::Bool(b) => Json::Bool(*b),
            Json::Unsigned(n) => Json::Unsigned(*n),
            Json::Negative(n) => Json::Negative(*n),
            Json::Decimal(t) => Json::Decimal(t.clone()),
            Json::Text(t) => Json::Text(t.clone()),
            Json::Array(items) => {
                let mut copies = Items::new();
                let mut i: usize = 0;
                while i < items.len()
                    invariant
                        i <= items@.len(),
                        *self == Json::Array(*items),
                        copies@ == items_view(items@).take(i as int),
                    decreases items@.len() - i,
                {
                    assert(decreases_to!(self => self->Array_0@[i as int]));
                    let one = items[i].copy();
                    copies.push(one);
                    assert(items_view(items@).take(i + 1) =~= items_view(items@).take(
                        i as int,
                    ).push(items@[i as int]@));
                    i += 1;
                }
                assert(items_view(items@).take(i as int) =~= self@->Array_0);
                copies.done()
            },
            Json::Object(fields) => {
                let mut copies = Fields::new();
                let mut i: usize = 0;
                while i < fields.len()
                    invariant
                        i <= fields@.len(),
                        *self == Json::Object(*fields),
                        copies@ == fields_view(fields@).take(i as int),
                    decreases fields@.len() - i,
                {
                    assert(decreases_to!(self => self->Object_0@[i as int].1));
                    let one = fields[i].1.copy();
                    copies.put(&fields[i].0, one);
                    assert(fields_view(fields@).take(i + 1) =~= fields_view(fields@).take(
                        i as int,
                    ).push((fields@[i as int].0@, fields@[i as int].1@)));
                    i += 1;
                }
                assert(fields_view(fields@).take(i as int) =~= self@->Object_0);
                copies.done()
            },
        }
    }
}

impl Clone for Json {
    fn clone(&self) -> (r: Json)
        ensures
            r@ == self@,
    {
        self.copy()
    }
}

/// An integer as a JSON value.
pub open spec fn int_view(n: int) -> JsonView {
    if n >= 0 {
        JsonView::Unsigned(n as u64)
    } else {
        JsonView::Negative(n as i64)
    }
}

/// An array in the making.
pub struct Items {
    list: Vec<Json>,
}

impl View for Items {
    type V = Seq<JsonView>;

    closed spec fn view(&self) -> Seq<JsonView> {
        items_view(self.list@)
    }
}

impl Items {
    /// No item.
    pub fn new() -> (r: Items)
        ensures
            r@ == Seq::<JsonView>::empty(),
    {
        let r = Items { list: Vec::new() };
        assert(r@ =~= Seq::<JsonView>::empty());
        r
    }

    /// Appends an item.
    pub fn push(&mut self, item: Json)
        ensures
            final(self)@ == old(self)@.push(item@),
    {
        self.list.push(item);
        assert(self@ =~= old(self)@.push(item@));
    }

    /// Whether there is no item.
    pub fn is_empty(&self) -> (r: bool)
        ensures
            r == (self@.len() == 0),
    {
        self.list.len() == 0
    }

    /// The array of the items.
    pub fn done(self) -> (r: Json)
        ensures
            r@ == JsonView::Array(self@),
    {
        let r = Json::Array(self.list);
        assert(r@->Array_0 =~= self@);
        r
    }
}

/// An object with one field.
pub open spec fn object1(
    k1: Seq<char>,
    v1: JsonView,
) -> JsonView {
    JsonView::Object(Seq::empty().push((k1, v1)))
}

/// An object with two fields.
pub open spec fn object2(
    k1: Seq<char>,
    v1: JsonView,
    k2: Seq<char>,
    v2: JsonView,
) -> JsonView {
    JsonView::Object(Seq::empty().push((k1, v1)).push((k2, v2)))
}

/// An object with three fields.
pub open spec fn object3(
    k1: Seq<char>,
    v1: JsonView,
    k2: Seq<char>,
    v2: JsonView,
    k3: Seq<char>,
    v3: JsonView,
) -> JsonView {
    JsonView::Object(Seq::empty().push((k1, v1)).push((k2, v2)).push((k3, v3)))
}

/// An object with four fields.
pub open spec fn object4(
    k1: Seq<char>,
    v1: JsonView,
    k2: Seq<char>,
    v2: JsonView,
    k3: Seq<char>,
    v3: JsonView,
    k4: Seq<char>,
    v4: JsonView,
) -> JsonView {
    JsonView::Object(Seq::empty().push((k1, v1)).push((k2, v2)).push((k3, v3)).push((k4, v4)))
}

/// An object with five fields.
pub open spec fn object5(
    k1: Seq<char>,
    v1: JsonView,
    k2: Seq<char>,
    v2: JsonView,
    k3: Seq<char>,
    v3: JsonView,
    k4: Seq<char>,
    v4: JsonView,
    k5: Seq<char>,
    v5: JsonView,
) -> JsonView {
    JsonView::Object(Seq::empty().push((k1, v1)).push((k2, v2)).push((k3, v3)).push((k4, v4)).push((k5, v5)))
}

/// Fields with one more, where there is a value for it.
pub open spec fn with_field(
    fields: Seq<(Seq<char>, JsonView)>,
    key: Seq<char>,
    value: Option<JsonView>,
) -> Seq<(Seq<char>, JsonView)> {
    match value {
        Some(v) => fields.push((key, v)),
        None => fields,
    }
}

/// An object in the making.
pub struct Fields {
    list: Vec<(String, Json)>,
}

impl View for Fields {
    type V = Seq<(Seq<char>, JsonView)>;

    closed spec fn view(&self) -> Seq<(Seq<char>, JsonView)> {
        fields_view(self.list@)
    }
}

impl Fields {
    /// No field.
    pub fn new() -> (r: Fields)
        ensures
            r@ == Seq::<(Seq<char>, JsonView)>::empty(),
    {
        let r = Fields { list: Vec::new() };
        assert(r@ =~= Seq::<(Seq<char>, JsonView)>::empty());
        r
    }

    /// Appends a field.
    pub fn put(&mut self, key: &str, value: Json)
        ensures
            final(self)@ == old(self)@.push((key@, value@)),
    {
        self.list.push((key.to_owned(), value));
        assert(self@ =~= old(self)@.push((key@, value@)));
    }

    /// Appends a field with a text.
    pub fn put_text(&mut self, key: &str, value: &str)
        ensures
            final(self)@ == old(self)@.push((key@, JsonView::Text(value@))),
    {
        self.put(key, Json::text(value));
    }

    /// Appends a field where there is a value for it.
    pub fn put_some(&mut self, key: &str, value: Option<Json>)
        ensures
            final(self)@ == with_field(old(self)@, key@, option_json(value)),
    {
        match value {
            Some(v) => self.put(key, v),
            None => {},
        }
    }

    /// The object with the fields.
    pub fn done(self) -> (r: Json)
        ensures
            r@ == JsonView::Object(self@),
    {
        let r = Json::Object(self.list);
        assert(r@->Object_0 =~= self@);
        r
    }
}

/// A value that was put into an object is read back under its name, and no other name is touched.
pub proof fn law_a_put_field_is_read_back(
    fields: Seq<(Seq<char>, JsonView)>,
    key: Seq<char>,
    value: JsonView,
    other: Seq<char>,
)
    ensures
        JsonView::Object(put_field(fields, key, value)).field(key) == Some(value),
        other != key ==> JsonView::Object(put_field(fields, key, value)).field(other)
            == JsonView::Object(fields).field(other),
{
    let put = put_field(fields, key, value);
    lemma_position(fields, key);
    lemma_position(fields, other);
    match position_of(fields, key) {
        Some(i) => {
            lemma_field_at(put, key, i);
        },
        None => {
            lemma_field_at(put, key, fields.len() as int);
        },
    }
    if other != key {
        match position_of(fields, other) {
            Some(k) => {
                lemma_field_at(fields, other, k);
                lemma_field_at(put, other, k);
            },
            None => {
                lemma_no_field(fields, other);
                lemma_no_field(put, other);
            },
        }
    }
}

} // verus!
