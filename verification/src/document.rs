//! What the crate reads of a TOML document, and the calls into the `toml`
//! crate that read it. Nothing in this file is proved: each contract says
//! what the `toml` crate's own code does.

use vstd::prelude::*;

verus! {

/// `toml::Value`, a value of a document. Its inside is not looked at here.
#[verifier::external_type_specification]
#[verifier::external_body]
pub struct ExValue(toml::Value);

/// `toml::map::Map`, of which `toml::Table` is the one with string keys and
/// `toml::Value` values. Its inside is not looked at here.
#[verifier::external_type_specification]
#[verifier::external_body]
#[verifier::reject_recursive_types(K)]
#[verifier::reject_recursive_types(V)]
pub struct ExMap<K, V>(toml::map::Map<K, V>);

/// `toml::de::Error`, what `toml::from_str` returns for a text that it
/// refuses. Nothing is read from it.
#[verifier::external_type_specification]
#[verifier::external_body]
pub struct ExDeError(toml::de::Error);

/// A TOML value as far as a configuration looks at it.
pub enum Node {
    /// An integer.
    Integer(i64),
    /// A float, as the sixty-four bits that hold it.
    Float(u64),
    /// An array with its items in order.
    Array(Seq<Node>),
    /// A table with its entries by key.
    Table(Map<Seq<char>, Node>),
    /// A string, a boolean or a date.
    Other,
}

/// What a `toml::Value` holds.
pub uninterp spec fn value_node(v: toml::Value) -> Node;

/// What a `toml::Table` holds, by key.
pub uninterp spec fn table_nodes(t: toml::Table) -> Map<Seq<char>, Node>;

/// The top-level table that `toml::from_str` reads from a text; none where
/// it refuses the text.
pub uninterp spec fn document_nodes(text: Seq<char>) -> Option<Map<Seq<char>, Node>>;

/// `toml::from_str` for a `toml::Table`: parses a whole document. The result
/// depends on the text alone; the contract gives it the name
/// `document_nodes` and says nothing else of it.
#[verifier::external_body]
pub(crate) fn parse_document(text: &str) -> (r: Result<toml::Table, toml::de::Error>)
    ensures
        match r {
            Ok(t) => document_nodes(text@) == Some(table_nodes(t)),
            Err(_) => document_nodes(text@) is None,
        },
{
    toml::from_str(text)
}

/// `toml::map::Map::get` on a table with string keys: the value stored under
/// `key`, or `None` where the table has no such key.
#[verifier::external_body]
pub(crate) fn table_get<'a>(t: &'a toml::Table, key: &str) -> (r: Option<&'a toml::Value>)
    ensures
        match r {
            Some(child) => table_nodes(*t).contains_key(key@) && value_node(*child) == table_nodes(
                *t,
            )[key@],
            None => !table_nodes(*t).contains_key(key@),
        },
{
    t.get(key)
}

/// `toml::Value::get` with a string index: where the value is a table that
/// has the key, the value stored under it; `None` for a table without the
/// key and for every value that is not a table.
#[verifier::external_body]
pub(crate) fn value_get<'a>(v: &'a toml::Value, key: &str) -> (r: Option<&'a toml::Value>)
    ensures
        match r {
            Some(child) => value_node(*v) is Table && value_node(*v)->Table_0.contains_key(key@)
                && value_node(*child) == value_node(*v)->Table_0[key@],
            None => !(value_node(*v) is Table && value_node(*v)->Table_0.contains_key(key@)),
        },
{
    v.get(key)
}

/// `toml::Value::as_float`, followed by `to_bits`: the bits of the float
/// where the value is a float, `None` for every other kind of value.
#[verifier::external_body]
pub(crate) fn value_float_bits(v: &toml::Value) -> (r: Option<u64>)
    ensures
        r == (match value_node(*v) {
            Node::Float(bits) => Some(bits),
            _ => None,
        }),
{
    match v.as_float() {
        Some(x) => Some(x.to_bits()),
        None => None,
    }
}

/// `toml::Value::as_integer`: the integer where the value is one, `None` for
/// every other kind of value.
pub assume_specification[ toml::Value::as_integer ](v: &toml::Value) -> (r: Option<i64>)
    ensures
        r == (match value_node(*v) {
            Node::Integer(i) => Some(i),
            _ => None,
        }),
;

/// `toml::Value::as_array`: the items where the value is an array, in their
/// order; `None` for every other kind of value.
pub assume_specification[ toml::Value::as_array ](v: &toml::Value) -> (r: Option<&Vec<toml::Value>>)
    ensures
        match r {
            Some(items) => {
                &&& value_node(*v) is Array
                &&& value_node(*v)->Array_0.len() == items@.len()
                &&& forall|i: int|
                    0 <= i < items@.len() ==> value_node(#[trigger] items@[i]) == value_node(
                        *v,
                    )->Array_0[i]
            },
            None => !(value_node(*v) is Array),
        },
;

} // verus!
