//! JSON values that come from outside, and flat JSON objects as bytes.

use crate::text;
use serde_json::Value::{self, Array, Bool, Null, Number, Object};
use vstd::prelude::*;

verus! {

/// A JSON value. A number counts only where it is a whole one that a `u64`
/// holds.
#[derive(Debug, PartialEq, Eq)]
pub enum Json {
    Null,
    Bool(bool),
    Number(Option<u64>),
    Text(String),
    List(Vec<Json>),
    Object(Vec<(String, Json)>),
}

impl Json {
    /// What the value reads, where it is a text.
    pub open spec fn text(self) -> Option<Seq<char>> {
        match self {
            Json::Text(s) => Some(s@),
            _ => None,
        }
    }

    /// The items of the value, none where it is no list.
    pub open spec fn items(self) -> Seq<Json> {
        match self {
            Json::List(v) => v@,
            _ => Seq::empty(),
        }
    }

    /// The value as a text, where it is one.
    pub fn as_str(&self) -> (r: Option<&str>)
        ensures
            match r {
                Some(s) => self.text() == Some(s@),
                None => self.text() is None,
            },
    {
        match self {
            Json::Text(s) => Some(s.as_str()),
            _ => None,
        }
    }

    /// The items of the value, where it is a list.
    pub fn as_array(&self) -> (r: Option<&Vec<Json>>)
        ensures
            match r {
                Some(v) => *self is List && v@ == self.items(),
                None => !(*self is List),
            },
    {
        match self {
            Json::List(v) => Some(v),
            _ => None,
        }
    }
}

// ---- flat objects -----------------------------------------------------------

/// What a key of a JSON object stands for, one level deep. A number counts only
/// where it is a whole one that a `u64` holds; an item of a list only where it
/// is a text.
#[derive(Debug, PartialEq, Eq)]
pub enum Field {
    Null,
    Bool(bool),
    Number(Option<u64>),
    Text(String),
    List(Vec<Option<String>>),
    /// An object, as the text that spells it.
    Object(String),
}

/// What a [`Field`] reads.
pub enum FieldView {
    Null,
    Bool(bool),
    Number(Option<u64>),
    Text(Seq<char>),
    List(Seq<Option<Seq<char>>>),
    Object(Seq<char>),
}

/// A JSON value, one level deep.
#[derive(Debug, PartialEq, Eq)]
pub enum Shape {
    Object(Vec<(String, Field)>),
    /// The items, each as the text that spells it.
    List(Vec<String>),
    /// Any other value.
    Scalar,
}

/// What a [`Shape`] reads.
pub enum ShapeView {
    Object(Seq<(Seq<char>, FieldView)>),
    List(Seq<Seq<char>>),
    Scalar,
}

/// What each item of a list reads.
pub open spec fn items_view(v: Seq<Option<String>>) -> Seq<Option<Seq<char>>> {
    v.map_values(|s: Option<String>| text::opt_text(s))
}

impl View for Field {
    type V = FieldView;

    open spec fn view(&self) -> FieldView {
        match self {
            Field::Null => FieldView::Null,
            Field::Bool(b) => FieldView::Bool(*b),
            Field::Number(n) => FieldView::Number(*n),
            Field::Text(s) => FieldView::Text(s@),
            Field::List(v) => FieldView::List(items_view(v@)),
            Field::Object(b) => FieldView::Object(b@),
        }
    }
}

/// What the keys and the fields of an object read.
pub open spec fn fields_view(v: Seq<(String, Field)>) -> Seq<(Seq<char>, FieldView)> {
    v.map_values(|p: (String, Field)| (p.0@, p.1@))
}

impl View for Shape {
    type V = ShapeView;

    open spec fn view(&self) -> ShapeView {
        match self {
            Shape::Object(o) => ShapeView::Object(fields_view(o@)),
            Shape::List(v) => ShapeView::List(text::texts(v@)),
            Shape::Scalar => ShapeView::Scalar,
        }
    }
}

/// What `key` stands for: null where it is not there.
pub open spec fn lookup(o: Seq<(Seq<char>, FieldView)>, key: Seq<char>) -> FieldView
    decreases o.len(),
{
    if o.len() == 0 {
        FieldView::Null
    } else if o.last().0 == key {
        o.last().1
    } else {
        lookup(o.drop_last(), key)
    }
}

/// The flag that `key` stands for.
pub open spec fn flag(o: Seq<(Seq<char>, FieldView)>, key: Seq<char>) -> Option<bool> {
    match lookup(o, key) {
        FieldView::Bool(b) => Some(b),
        _ => None,
    }
}

/// The number that `key` stands for.
pub open spec fn number(o: Seq<(Seq<char>, FieldView)>, key: Seq<char>) -> Option<u64> {
    match lookup(o, key) {
        FieldView::Number(n) => n,
        _ => None,
    }
}

/// The text that `key` stands for.
pub open spec fn string(o: Seq<(Seq<char>, FieldView)>, key: Seq<char>) -> Option<Seq<char>> {
    match lookup(o, key) {
        FieldView::Text(s) => Some(s),
        _ => None,
    }
}

/// The texts among the items of a list, in order.
pub open spec fn texts_in(items: Seq<Option<Seq<char>>>) -> Seq<Seq<char>>
    decreases items.len(),
{
    if items.len() == 0 {
        Seq::empty()
    } else {
        match items.last() {
            Some(s) => texts_in(items.drop_last()).push(s),
            None => texts_in(items.drop_last()),
        }
    }
}

/// The texts in the list that `key` stands for, none where it is no list.
pub open spec fn strings(o: Seq<(Seq<char>, FieldView)>, key: Seq<char>) -> Seq<Seq<char>> {
    match lookup(o, key) {
        FieldView::List(v) => texts_in(v),
        _ => Seq::empty(),
    }
}

/// Whether a field is written so that it reads back: all but an object, a number
/// that no `u64` holds and a list with anything but texts in it.
pub open spec fn is_writable(f: FieldView) -> bool {
    match f {
        FieldView::Number(n) => n is Some,
        FieldView::List(v) => forall|i: int| 0 <= i < v.len() ==> (#[trigger] v[i]) is Some,
        FieldView::Object(_) => false,
        _ => true,
    }
}

/// Whether an object is written so that it reads back: no key twice, and every
/// field one that does.
pub open spec fn is_plain(o: Seq<(Seq<char>, FieldView)>) -> bool {
    &&& forall|i: int| 0 <= i < o.len() ==> is_writable((#[trigger] o[i]).1)
    &&& forall|i: int, j: int| 0 <= i < j < o.len() ==> (#[trigger] o[i]).0 != (#[trigger] o[j]).0
}

/// The value that `bytes` spell, one level deep; or why they are no JSON.
pub uninterp spec fn json_of(bytes: Seq<u8>) -> Result<ShapeView, Seq<char>>;

/// The object that `bytes` spell, without fields where they spell another value;
/// or why they are no JSON.
pub open spec fn object_of(bytes: Seq<u8>) -> Result<Seq<(Seq<char>, FieldView)>, Seq<char>> {
    match json_of(bytes) {
        Ok(ShapeView::Object(o)) => Ok(o),
        Ok(_) => Ok(Seq::empty()),
        Err(e) => Err(e),
    }
}

/// The bytes of an object.
pub uninterp spec fn object_bytes(o: Seq<(Seq<char>, FieldView)>) -> Seq<u8>;

/// Whether every key stands for the same in both objects.
pub open spec fn same_fields(
    p: Seq<(Seq<char>, FieldView)>,
    o: Seq<(Seq<char>, FieldView)>,
) -> bool {
    forall|key: Seq<char>| #[trigger] lookup(p, key) == lookup(o, key)
}

/// Whether the bytes `b` spell an object in which every key stands for what it
/// does in `o`.
pub open spec fn spells(b: Seq<u8>, o: Seq<(Seq<char>, FieldView)>) -> bool {
    object_of(b) matches Ok(p) && same_fields(p, o)
}

/// `serde_json::from_slice` into a `Value`, converted one for one; a value below
/// the first level is spelled out again by the `Display` of `Value`. The result,
/// and the error's text, are a function of the bytes.
#[verifier::external_body]
pub(crate) fn read_json(bytes: &[u8]) -> (r: Result<Shape, String>)
    ensures
        match r {
            Ok(v) => json_of(bytes@) == Ok::<ShapeView, Seq<char>>(v@),
            Err(e) => json_of(bytes@) == Err::<ShapeView, Seq<char>>(e@),
        },
{
    Ok(match serde_json::from_slice(bytes).map_err(|e| e.to_string())? {
        Object(m) => Shape::Object(m.into_iter().map(|(k, v)| (k, match v {
            Null => Field::Null,
            Bool(b) => Field::Bool(b),
            Number(n) => Field::Number(n.as_u64()),
            Value::String(s) => Field::Text(s),
            Array(a) => Field::List(a.iter().map(|x| x.as_str().map(String::from)).collect()),
            o => Field::Object(o.to_string()),
        })).collect()),
        Array(a) => Shape::List(a.iter().map(Value::to_string).collect()),
        _ => Shape::Scalar,
    })
}

/// The object that `bytes` spell, without fields where they spell another value;
/// or why they are no JSON.
pub fn read_object(bytes: &[u8]) -> (r: Result<Vec<(String, Field)>, String>)
    ensures
        match r {
            Ok(v) => object_of(bytes@) == Ok::<Seq<(Seq<char>, FieldView)>, Seq<char>>(
                fields_view(v@),
            ),
            Err(e) => object_of(bytes@) == Err::<Seq<(Seq<char>, FieldView)>, Seq<char>>(e@),
        },
{
    match read_json(bytes) {
        Ok(Shape::Object(v)) => Ok(v),
        Ok(_) => {
            let v: Vec<(String, Field)> = Vec::new();
            assert(fields_view(v@) == Seq::<(Seq<char>, FieldView)>::empty());
            Ok(v)
        },
        Err(e) => Err(e),
    }
}

/// `serde_json::to_vec` of a plain object with these fields, converted one for
/// one. The bytes are a function of the fields, and `serde_json::from_slice`
/// reads the fields back from them. A plain object has no object among its
/// fields.
#[verifier::external_body]
pub(crate) fn write_object(fields: &Vec<(String, Field)>) -> (r: Vec<u8>)
    requires
        is_plain(fields_view(fields@)),
    ensures
        r@ == object_bytes(fields_view(fields@)),
        spells(r@, fields_view(fields@)),
{
    let mut m = serde_json::Map::new();
    for (k, f) in fields {
        m.insert(k.clone(), match f {
            Field::Null | Field::Object(_) => Null,
            Field::Bool(b) => Value::from(*b),
            Field::Number(n) => Value::from(*n),
            Field::Text(s) => Value::from(s.as_str()),
            Field::List(v) => Value::from(v.clone()),
        });
    }
    serde_json::to_vec(&Object(m)).unwrap_or_default()
}

/// Whether `key` is there.
pub open spec fn has_key(o: Seq<(Seq<char>, FieldView)>, key: Seq<char>) -> bool {
    exists|i: int| 0 <= i < o.len() && (#[trigger] o[i]).0 == key
}

/// What `key` stands for, where it is there.
pub fn find<'a>(fields: &'a Vec<(String, Field)>, key: &str) -> (r: Option<&'a Field>)
    ensures
        match r {
            Some(f) => lookup(fields_view(fields@), key@) == f@ && has_key(
                fields_view(fields@),
                key@,
            ),
            None => lookup(fields_view(fields@), key@) is Null && !has_key(
                fields_view(fields@),
                key@,
            ),
        },
{
    let ghost all = fields_view(fields@);
    let mut n: usize = fields.len();
    assert(all.take(n as int) == all);
    while n > 0
        invariant
            n <= fields@.len(),
            all == fields_view(fields@),
            lookup(all, key@) == lookup(all.take(n as int), key@),
            forall|j: int| n <= j < all.len() ==> (#[trigger] all[j]).0 != key@,
        decreases n,
    {
        assert(all[n - 1].0 == fields@[n - 1].0@);
        assert(all.take(n as int).drop_last() == all.take(n - 1));
        assert(all.take(n as int).last() == (fields@[n - 1].0@, fields@[n - 1].1@));
        if text::str_eq(fields[n - 1].0.as_str(), key) {
            return Some(&fields[n - 1].1);
        }
        n = n - 1;
    }
    None
}

/// The flag that `key` stands for.
pub fn get_bool(fields: &Vec<(String, Field)>, key: &str) -> (r: Option<bool>)
    ensures
        r == flag(fields_view(fields@), key@),
{
    match find(fields, key) {
        Some(Field::Bool(b)) => Some(*b),
        _ => None,
    }
}

/// The number that `key` stands for.
pub fn get_u64(fields: &Vec<(String, Field)>, key: &str) -> (r: Option<u64>)
    ensures
        r == number(fields_view(fields@), key@),
{
    match find(fields, key) {
        Some(Field::Number(n)) => *n,
        _ => None,
    }
}

/// The text that `key` stands for.
pub fn get_str<'a>(fields: &'a Vec<(String, Field)>, key: &str) -> (r: Option<&'a str>)
    ensures
        text::opt_str(r) == string(fields_view(fields@), key@),
{
    match find(fields, key) {
        Some(Field::Text(s)) => Some(s.as_str()),
        _ => None,
    }
}

/// The texts in the list that `key` stands for.
pub fn get_texts(fields: &Vec<(String, Field)>, key: &str) -> (r: Vec<String>)
    ensures
        text::texts(r@) == strings(fields_view(fields@), key@),
{
    let mut out: Vec<String> = Vec::new();
    match find(fields, key) {
        Some(Field::List(v)) => {
            let ghost all = items_view(v@);
            assert(text::texts(out@) == texts_in(all.take(0)));
            for i in 0..v.len()
                invariant
                    all == items_view(v@),
                    text::texts(out@) == texts_in(all.take(i as int)),
            {
                assert(all.take(i + 1).drop_last() == all.take(i as int));
                assert(all.take(i + 1).last() == text::opt_text(v@[i as int]));
                if let Some(s) = &v[i] {
                    let ghost was = out@;
                    out.push(s.clone());
                    assert(text::texts(out@) == text::texts(was).push(s@));
                }
            }
            assert(all.take(all.len() as int) == all);
        },
        _ => {
            assert(text::texts(out@) == Seq::<Seq<char>>::empty());
        },
    }
    out
}

// ---- laws -------------------------------------------------------------------

/// The last field of a name counts, and fields of other names make no difference.
pub proof fn law_fields_are_found_by_name(
    o: Seq<(Seq<char>, FieldView)>,
    key: Seq<char>,
    other: Seq<char>,
    v: FieldView,
)
    requires
        other != key,
    ensures
        lookup(Seq::empty(), key) is Null,
        lookup(o.push((key, v)), key) == v,
        lookup(o.push((other, v)), key) == lookup(o, key),
        flag(o.push((key, FieldView::Bool(true))), key) == Some(true),
        flag(o.push((key, FieldView::Bool(false))), key) == Some(false),
        flag(o.push((key, FieldView::Null)), key) is None,
        number(o.push((key, FieldView::Number(Some(7)))), key) == Some(7u64),
        v matches FieldView::Number(n) ==> number(o.push((key, v)), key) == n,
        v matches FieldView::Text(t) ==> string(o.push((key, v)), key) == Some(t),
        !(v is Text) ==> string(o.push((key, v)), key) is None,
{
    assert(o.push((key, v)).drop_last() == o);
    assert(o.push((other, v)).drop_last() == o);
}

/// The texts of a list, in order, without what is none.
pub proof fn law_texts_of_a_list(
    o: Seq<(Seq<char>, FieldView)>,
    key: Seq<char>,
    items: Seq<Option<Seq<char>>>,
    t: Seq<char>,
)
    ensures
        strings(o.push((key, FieldView::List(Seq::empty()))), key) == Seq::<Seq<char>>::empty(),
        strings(o.push((key, FieldView::List(items.push(Some(t))))), key) == strings(
            o.push((key, FieldView::List(items))),
            key,
        ).push(t),
        strings(o.push((key, FieldView::List(items.push(None)))), key) == strings(
            o.push((key, FieldView::List(items))),
            key,
        ),
{
    assert(items.push(Some(t)).drop_last() == items);
    assert(items.push(None).drop_last() == items);
}

} // verus!
