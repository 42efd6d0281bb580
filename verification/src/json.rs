//! JSON values: `serde_json::Value` as the crate sees it.
use vstd::prelude::*;

verus! {

/// What a JSON value holds.
pub enum Tree {
    Null,
    Bool(bool),
    /// A number, by its value where that is an unsigned integer of 64 bits.
    Number(Option<u64>),
    Text(Seq<char>),
    List(Seq<Tree>),
    Object(Map<Seq<char>, Tree>),
}

/// `serde_json::Value`: a JSON value, of which nothing is known but what the functions below say.
#[verifier::external_type_specification]
#[verifier::external_body]
pub struct ExternalValue(serde_json::Value);

/// What a JSON value holds.
pub uninterp spec fn tree(v: serde_json::Value) -> Tree;

/// What a list of JSON values holds.
pub open spec fn trees(values: Seq<serde_json::Value>) -> Seq<Tree> {
    values.map_values(|v: serde_json::Value| tree(v))
}

/// What parsing a text gives: what the value holds, or the text of the error.
pub uninterp spec fn parsed(text: Seq<char>) -> Result<Tree, Seq<char>>;

/// `serde_json::from_str` depends on the text alone. What is JSON, what each text means and how an
/// error reads is left to the name `parsed`.
#[verifier::external_body]
pub(crate) fn parse(text: &str) -> (r: Result<serde_json::Value, String>)
    ensures
        match r {
            Ok(v) => parsed(text@) == Ok::<Tree, Seq<char>>(tree(v)),
            Err(e) => parsed(text@) == Err::<Tree, Seq<char>>(e@),
        },
{
    serde_json::from_str(text).map_err(|e| e.to_string())
}

/// What stands under `key`; nothing stands under any key of what is no object.
pub open spec fn field_of(t: Tree, key: Seq<char>) -> Tree {
    match t {
        Tree::Object(fields) => if fields.contains_key(key) {
            fields[key]
        } else {
            Tree::Null
        },
        _ => Tree::Null,
    }
}

/// `Value`'s `Index` by a text gives the value under that key, or null where there is none or the
/// value is no object.
#[verifier::external_body]
pub(crate) fn field<'a>(v: &'a serde_json::Value, key: &str) -> (r: &'a serde_json::Value)
    ensures
        tree(*r) == field_of(tree(*v), key@),
{
    &v[key]
}

/// The element at position `i`; what is no list has none.
pub open spec fn element_of(t: Tree, i: int) -> Tree {
    match t {
        Tree::List(items) => if 0 <= i < items.len() {
            items[i]
        } else {
            Tree::Null
        },
        _ => Tree::Null,
    }
}

/// `Value`'s `Index` by a position gives the element there, or null where there is none or the
/// value is no array.
#[verifier::external_body]
pub(crate) fn element(v: &serde_json::Value, i: usize) -> (r: &serde_json::Value)
    ensures
        tree(*r) == element_of(tree(*v), i as int),
{
    &v[i]
}

/// The text that a value is, if it is one.
pub open spec fn text_of(t: Tree) -> Option<Seq<char>> {
    match t {
        Tree::Text(s) => Some(s),
        _ => None,
    }
}

/// The text behind an optional reference.
pub open spec fn optional_str(s: Option<&str>) -> Option<Seq<char>> {
    match s {
        Some(t) => Some(t@),
        None => None,
    }
}

/// `Value::as_str` gives the text of a JSON string, and nothing for any other value.
pub assume_specification[ serde_json::Value::as_str ](v: &serde_json::Value) -> (r: Option<&str>)
    ensures
        optional_str(r) == text_of(tree(*v)),
;

/// The unsigned integer that a value is, if it is one.
pub open spec fn integer_of(t: Tree) -> Option<u64> {
    match t {
        Tree::Number(n) => n,
        _ => None,
    }
}

/// `Value::as_u64` gives the value of a JSON number that is an unsigned integer of 64 bits, and
/// nothing for any other value.
pub assume_specification[ serde_json::Value::as_u64 ](v: &serde_json::Value) -> (r: Option<u64>)
    ensures
        r == integer_of(tree(*v)),
;

/// `Value::as_array` gives the elements of a JSON array, and nothing for any other value.
pub assume_specification[ serde_json::Value::as_array ](v: &serde_json::Value) -> (r: Option<
    &Vec<serde_json::Value>,
>)
    ensures
        match r {
            Some(items) => tree(*v) == Tree::List(trees(items@)),
            None => !(tree(*v) is List),
        },
;

/// `Value::from` makes a JSON string of a text.
#[verifier::external_body]
pub(crate) fn text_value(s: &str) -> (r: serde_json::Value)
    ensures
        tree(r) == Tree::Text(s@),
{
    serde_json::Value::from(s)
}

/// `Value::from` makes a JSON boolean of a `bool`.
#[verifier::external_body]
pub(crate) fn bool_value(b: bool) -> (r: serde_json::Value)
    ensures
        tree(r) == Tree::Bool(b),
{
    serde_json::Value::from(b)
}

/// `Value::from` makes a JSON number of an integer.
#[verifier::external_body]
pub(crate) fn number_value(n: u32) -> (r: serde_json::Value)
    ensures
        tree(r) == Tree::Number(Some(n as u64)),
{
    serde_json::Value::from(n)
}

/// `Value::from` makes a JSON array of a list of values.
#[verifier::external_body]
pub(crate) fn list_value(items: Vec<serde_json::Value>) -> (r: serde_json::Value)
    ensures
        tree(r) == Tree::List(trees(items@)),
{
    serde_json::Value::from(items)
}

/// `Value::from` makes a JSON object without fields of a new `serde_json::Map`.
#[verifier::external_body]
pub(crate) fn empty_object() -> (r: serde_json::Value)
    ensures
        tree(r) == Tree::Object(Map::empty()),
{
    serde_json::Value::from(serde_json::Map::new())
}

/// `Value`'s `IndexMut` by a text puts a value under that key of an object, in the place of what
/// was there.
#[verifier::external_body]
pub(crate) fn set_field(v: &mut serde_json::Value, key: &str, x: serde_json::Value)
    requires
        tree(*old(v)) is Object,
    ensures
        tree(*final(v)) == Tree::Object(tree(*old(v))->Object_0.insert(key@, tree(x))),
{
    v[key] = x;
}

} // verus!
