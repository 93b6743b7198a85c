//! JSON documents as plain values, with `serde_json` reading and writing their text.
use crate::text;
use vstd::prelude::*;

verus! {

/// The number type of `serde_json`, carried through unread.
#[verifier::external_type_specification]
#[verifier::external_body]
pub struct ExNumber(serde_json::Number);

/// The document type of `serde_json`, which stands only between its parser or
/// printer and `Json`.
#[verifier::external_type_specification]
#[verifier::external_body]
pub struct ExValue(serde_json::Value);

/// A JSON document.
#[derive(Debug)]
pub enum Json {
    Null,
    Bool(bool),
    Number(serde_json::Number),
    Str(String),
    Array(Vec<Json>),
    Object(Vec<(String, Json)>),
}

/// A JSON document as a mathematical value.
pub enum JsonView {
    Null,
    Bool(bool),
    Number(serde_json::Number),
    Str(Seq<char>),
    Array(Seq<JsonView>),
    Object(Seq<(Seq<char>, JsonView)>),
}

impl View for Json {
    type V = JsonView;

    open spec fn view(&self) -> JsonView
        decreases self,
    {
        match self {
            Json::Null => JsonView::Null,
            Json::Bool(b) => JsonView::Bool(*b),
            Json::Number(n) => JsonView::Number(*n),
            Json::Str(s) => JsonView::Str(s@),
            Json::Array(v) => JsonView::Array(
                Seq::new(
                    v@.len(),
                    |i: int|
                        if 0 <= i < v@.len() {
                            v@[i].view()
                        } else {
                            JsonView::Null
                        },
                ),
            ),
            Json::Object(v) => JsonView::Object(
                Seq::new(
                    v@.len(),
                    |i: int|
                        (
                            v@[i].0@,
                            if 0 <= i < v@.len() {
                                v@[i].1.view()
                            } else {
                                JsonView::Null
                            },
                        ),
                ),
            ),
        }
    }
}

/// The views of a list of documents.
pub open spec fn views(v: Seq<Json>) -> Seq<JsonView> {
    Seq::new(v.len(), |i: int| v[i]@)
}

/// The views of a list of fields.
pub open spec fn field_views(v: Seq<(String, Json)>) -> Seq<(Seq<char>, JsonView)> {
    Seq::new(v.len(), |i: int| (v[i].0@, v[i].1@))
}

pub open spec fn opt_json(j: Option<Json>) -> Option<JsonView> {
    match j {
        Some(v) => Some(v@),
        None => None,
    }
}

/// The view of what was read.
pub open spec fn read_view(r: Result<Json, String>) -> Result<JsonView, Seq<char>> {
    match r {
        Ok(v) => Ok(v@),
        Err(e) => Err(e@),
    }
}

pub open spec fn opt_json_ref(j: Option<&Json>) -> Option<JsonView> {
    match j {
        Some(v) => Some(v@),
        None => None,
    }
}

/// The position of the first field with a name.
pub open spec fn field_index(fields: Seq<(Seq<char>, JsonView)>, key: Seq<char>) -> Option<int>
    decreases fields.len(),
{
    if fields.len() == 0 {
        None
    } else {
        match field_index(fields.drop_last(), key) {
            Some(i) => Some(i),
            None => if fields.last().0 == key {
                Some(fields.len() - 1)
            } else {
                None
            },
        }
    }
}

/// A member of an object; nothing for a name it lacks, or for what is no object.
pub open spec fn member(j: JsonView, key: Seq<char>) -> Option<JsonView> {
    match j {
        JsonView::Object(fields) => match field_index(fields, key) {
            Some(i) => Some(fields[i].1),
            None => None,
        },
        _ => None,
    }
}

/// The text of a string document.
pub open spec fn string_value(j: JsonView) -> Option<Seq<char>> {
    match j {
        JsonView::Str(s) => Some(s),
        _ => None,
    }
}

/// The text of a string member.
pub open spec fn string_member(j: JsonView, key: Seq<char>) -> Option<Seq<char>> {
    match member(j, key) {
        Some(v) => string_value(v),
        None => None,
    }
}

pub proof fn field_index_found(fields: Seq<(Seq<char>, JsonView)>, key: Seq<char>)
    ensures
        match field_index(fields, key) {
            Some(i) => {
                &&& 0 <= i < fields.len()
                &&& fields[i].0 == key
                &&& forall|j: int| 0 <= j < i ==> (#[trigger] fields[j]).0 != key
            },
            None => forall|j: int| 0 <= j < fields.len() ==> (#[trigger] fields[j]).0 != key,
        },
    decreases fields.len(),
{
    if fields.len() > 0 {
        let before = fields.drop_last();
        field_index_found(before, key);
        assert forall|j: int| 0 <= j < fields.len() - 1 implies #[trigger] fields[j]
            == before[j] by {}
        match field_index(before, key) {
            Some(i) => {
                assert(fields[i] == before[i]);
            },
            None => {},
        }
    }
}

impl Json {
    pub proof fn array_view(v: Vec<Json>)
        ensures
            Json::Array(v)@ == JsonView::Array(views(v@)),
    {
        assert(Json::Array(v)@->Array_0 =~= views(v@));
    }

    pub proof fn object_view(v: Vec<(String, Json)>)
        ensures
            Json::Object(v)@ == JsonView::Object(field_views(v@)),
    {
        assert(Json::Object(v)@->Object_0 =~= field_views(v@));
    }

    pub fn str(s: &str) -> (r: Json)
        ensures
            r@ == JsonView::Str(s@),
    {
        Json::Str(s.to_owned())
    }

    pub fn text(s: String) -> (r: Json)
        ensures
            r@ == JsonView::Str(s@),
    {
        Json::Str(s)
    }

    pub fn array(v: Vec<Json>) -> (r: Json)
        ensures
            r@ == JsonView::Array(views(v@)),
    {
        proof {
            Json::array_view(v);
        }
        Json::Array(v)
    }

    pub fn object(v: Vec<(String, Json)>) -> (r: Json)
        ensures
            r@ == JsonView::Object(field_views(v@)),
    {
        proof {
            Json::object_view(v);
        }
        Json::Object(v)
    }

    /// The document that a text holds, or a message where the text is not JSON.
    pub fn parse(s: &str) -> (r: Result<Json, String>)
        ensures
            read_view(r) == json_read(s@),
    {
        parse(s)
    }

    /// The document as compact JSON text.
    pub fn print(&self) -> (r: String)
        ensures
            r@ == json_printed(self@),
    {
        print(self)
    }

    /// An integer.
    pub fn whole(n: i64) -> (r: Json)
        ensures
            r@ == integer(n as int),
    {
        match number(n as i128) {
            Some(k) => Json::Number(k),
            None => Json::Null,
        }
    }

    /// A count.
    pub fn count(n: usize) -> (r: Json)
        ensures
            r@ == integer(n as int),
    {
        match number(n as i128) {
            Some(k) => Json::Number(k),
            None => Json::Null,
        }
    }

    /// The member `key`, as `serde_json::Value::get` finds it.
    pub fn get(&self, key: &str) -> (r: Option<&Json>)
        ensures
            opt_json_ref(r) == member(self@, key@),
    {
        match self {
            Json::Object(fields) => {
                proof {
                    Json::object_view(*fields);
                    field_index_found(field_views(fields@), key@);
                }
                let mut i: usize = 0;
                while i < fields.len()
                    invariant
                        self@ == JsonView::Object(field_views(fields@)),
                        i <= fields@.len(),
                        forall|j: int| 0 <= j < i ==> (#[trigger] fields@[j]).0@ != key@,
                    decreases fields@.len() - i,
                {
                    if text::same(fields[i].0.as_str(), key) {
                        proof {
                            let all = field_views(fields@);
                            field_index_found(all, key@);
                            let found = field_index(all, key@);
                            assert(all[i as int].0 == key@);
                            assert(found is Some);
                            let k = found->0;
                            if k < i {
                                assert(all[k].0 == fields@[k].0@);
                            }
                            assert(k == i);
                        }
                        return Some(&fields[i].1);
                    }
                    i = i + 1;
                }
                proof {
                    let all = field_views(fields@);
                    field_index_found(all, key@);
                    if field_index(all, key@) is Some {
                        let k = field_index(all, key@)->0;
                        assert(all[k].0 == fields@[k].0@);
                    }
                }
                None
            },
            _ => None,
        }
    }

    pub fn as_str(&self) -> (r: Option<&str>)
        ensures
            text::opt_str(r) == string_value(self@),
    {
        match self {
            Json::Str(s) => Some(s.as_str()),
            _ => None,
        }
    }

    /// The text of the member `key`, where it is a string.
    pub fn get_str(&self, key: &str) -> (r: Option<&str>)
        ensures
            text::opt_str(r) == string_member(self@, key@),
    {
        match self.get(key) {
            Some(v) => v.as_str(),
            None => None,
        }
    }

    /// The member `key`, taken out of its object.
    pub fn take(self, key: &str) -> (r: Option<Json>)
        ensures
            opt_json(r) == member(self@, key@),
    {
        match self {
            Json::Object(fields) => {
                let mut fields = fields;
                let ghost all = field_views(fields@);
                proof {
                    Json::object_view(fields);
                    field_index_found(all, key@);
                }
                let mut i: usize = 0;
                while i < fields.len()
                    invariant
                        self@ == JsonView::Object(all),
                        i <= fields@.len(),
                        all == field_views(fields@),
                        forall|j: int| 0 <= j < i ==> (#[trigger] all[j]).0 != key@,
                    decreases fields@.len() - i,
                {
                    if text::same(fields[i].0.as_str(), key) {
                        proof {
                            field_index_found(all, key@);
                            assert(all[i as int].0 == key@);
                            let k = field_index(all, key@)->0;
                            assert(k == i);
                        }
                        let field = fields.swap_remove(i);
                        return Some(field.1);
                    }
                    assert(all[i as int].0 != key@);
                    i = i + 1;
                }
                None
            },
            _ => None,
        }
    }
}

// ---------------------------------------------------------------------------
// Building documents
// ---------------------------------------------------------------------------

/// No members yet.
pub open spec fn members() -> Seq<(Seq<char>, JsonView)> {
    Seq::empty()
}

/// No names yet.
pub open spec fn names() -> Seq<Seq<char>> {
    Seq::empty()
}

pub open spec fn strings(v: Seq<Seq<char>>) -> Seq<JsonView> {
    Seq::new(v.len(), |i: int| JsonView::Str(v[i]))
}

pub(crate) fn no_fields() -> (r: Vec<(String, Json)>)
    ensures
        field_views(r@) == Seq::<(Seq<char>, JsonView)>::empty(),
{
    let r: Vec<(String, Json)> = Vec::new();
    assert(field_views(r@) =~= Seq::<(Seq<char>, JsonView)>::empty());
    r
}

pub(crate) fn put(fields: &mut Vec<(String, Json)>, key: &str, value: Json)
    ensures
        field_views(final(fields)@) == field_views(old(fields)@).push((key@, value@)),
{
    let ghost before = field_views(fields@);
    fields.push((key.to_owned(), value));
    assert(field_views(fields@) =~= before.push((key@, value@)));
}

/// A number as a document.
pub(crate) fn copy_number(n: &serde_json::Number) -> (r: Json)
    ensures
        r@ == JsonView::Number(*n),
{
    Json::Number(clone_number(n))
}

/// A list of one document.
pub(crate) fn single(j: Json) -> (r: Json)
    ensures
        r@ == JsonView::Array(Seq::empty().push(j@)),
{
    let mut v: Vec<Json> = Vec::new();
    let ghost item = j@;
    v.push(j);
    assert(views(v@) =~= Seq::empty().push(item));
    Json::array(v)
}

/// The strings of a list as a JSON array.
pub(crate) fn string_array(v: &Vec<String>) -> (r: Json)
    ensures
        r@ == JsonView::Array(strings(text::texts(v@))),
{
    let mut items: Vec<Json> = Vec::new();
    let mut i: usize = 0;
    let ghost all = strings(text::texts(v@));
    while i < v.len()
        invariant
            i <= v@.len(),
            all == strings(text::texts(v@)),
            views(items@) == all.take(i as int),
        decreases v@.len() - i,
    {
        let ghost before = views(items@);
        items.push(Json::str(v[i].as_str()));
        assert(views(items@) =~= before.push(JsonView::Str(v@[i as int]@)));
        i = i + 1;
        assert(all.take(i as int) =~= all.take(i - 1).push(all[i - 1]));
    }
    assert(all.take(i as int) =~= all);
    Json::array(items)
}

// ---------------------------------------------------------------------------
// Calls into `serde_json`
// ---------------------------------------------------------------------------

/// What `serde_json` reads from a text: the document, or the message of the error
/// where the text is not JSON.
pub uninterp spec fn json_read(s: Seq<char>) -> Result<JsonView, Seq<char>>;

/// What `serde_json` reads from bytes.
pub uninterp spec fn json_read_bytes(b: Seq<u8>) -> Result<JsonView, Seq<char>>;

/// The text that `serde_json` prints for a document.
pub uninterp spec fn json_printed(j: JsonView) -> Seq<char>;

/// The number that `serde_json` makes of an integer.
pub uninterp spec fn json_integer(n: int) -> serde_json::Number;

/// An integer document.
pub open spec fn integer(n: int) -> JsonView {
    JsonView::Number(json_integer(n))
}

/// Takes a `serde_json::Value` apart, variant by variant. Nothing is claimed of it:
/// `parse` states what its result is.
#[verifier::external_body]
fn from_value(value: serde_json::Value) -> Json {
    match value {
        serde_json::Value::Null => Json::Null,
        serde_json::Value::Bool(b) => Json::Bool(b),
        serde_json::Value::Number(n) => Json::Number(n),
        serde_json::Value::String(s) => Json::Str(s),
        serde_json::Value::Array(v) => Json::Array(v.into_iter().map(from_value).collect()),
        serde_json::Value::Object(m) => Json::Object(
            m.into_iter().map(|(k, v)| (k, from_value(v))).collect(),
        ),
    }
}

/// Builds the `serde_json::Value` of a document, variant by variant. Nothing is
/// claimed of it: `print` states what its text is.
#[verifier::external_body]
fn to_value(json: &Json) -> serde_json::Value {
    match json {
        Json::Null => serde_json::Value::Null,
        Json::Bool(b) => serde_json::Value::Bool(*b),
        Json::Number(n) => serde_json::Value::Number(n.clone()),
        Json::Str(s) => serde_json::Value::String(s.clone()),
        Json::Array(v) => serde_json::Value::Array(v.iter().map(to_value).collect()),
        Json::Object(v) => serde_json::Value::Object(
            v.iter().map(|f| (f.0.clone(), to_value(&f.1))).collect(),
        ),
    }
}

/// Calls `serde_json::from_str` for a `serde_json::Value`: the document that the
/// text holds, or the message of the error that the parser reports.
#[verifier::external_body]
pub(crate) fn parse(s: &str) -> (r: Result<Json, String>)
    ensures
        read_view(r) == json_read(s@),
{
    serde_json::from_str::<serde_json::Value>(s).map(from_value).map_err(|e| e.to_string())
}

/// Calls `serde_json::from_slice` for a `serde_json::Value`.
#[verifier::external_body]
pub(crate) fn parse_bytes(b: &[u8]) -> (r: Result<Json, String>)
    ensures
        read_view(r) == json_read_bytes(b@),
{
    serde_json::from_slice::<serde_json::Value>(b).map(from_value).map_err(|e| e.to_string())
}

/// Calls `serde_json::Value::to_string`: the document as compact JSON text.
#[verifier::external_body]
pub(crate) fn print(json: &Json) -> (r: String)
    ensures
        r@ == json_printed(json@),
{
    to_value(json).to_string()
}

/// Calls `serde_json::Number::from_i128`: a number for every integer that fits in an
/// `i64` or a `u64`, named by `json_integer`, and `None` for every other one.
#[verifier::external_body]
pub(crate) fn number(n: i128) -> (r: Option<serde_json::Number>)
    ensures
        r == if i64::MIN <= n <= u64::MAX {
            Some(json_integer(n as int))
        } else {
            None
        },
{
    serde_json::Number::from_i128(n)
}

/// Calls `serde_json::Number::clone`: the same number once more.
#[verifier::external_body]
fn clone_number(n: &serde_json::Number) -> (r: serde_json::Number)
    ensures
        r == *n,
{
    n.clone()
}

/// A member is found under its name, at the first place where the name stands; without the
/// name there is none.
pub proof fn members_are_found_by_name(
    fields: Seq<(Seq<char>, JsonView)>,
    key: Seq<char>,
    p: int,
)
    requires
        0 <= p <= fields.len(),
        p < fields.len() ==> fields[p].0 == key,
        forall|j: int| 0 <= j < p ==> (#[trigger] fields[j]).0 != key,
    ensures
        p < fields.len() ==> member(JsonView::Object(fields), key) == Some(fields[p].1),
        p == fields.len() ==> member(JsonView::Object(fields), key) is None,
        p < fields.len() && fields[p].1 is Str ==> string_member(JsonView::Object(fields), key)
            == Some(fields[p].1->Str_0),
        p < fields.len() && !(fields[p].1 is Str) ==> string_member(
            JsonView::Object(fields),
            key,
        ) is None,
{
    field_index_found(fields, key);
}

} // verus!
