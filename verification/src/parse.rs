//! Parsing JSON text into the library's tree, through serde_json.

use vstd::prelude::*;
use crate::value::JsonValue;

verus! {

/// A failed parse, at the 1-based line and column serde_json reported within
/// the parsed text.
#[derive(Clone, Copy, Debug)]
pub struct ParseError {
    pub line: usize,
    pub column: usize,
}

/// What parsing a whole string as one JSON document yields: the tree, or,
/// where the text is not one valid document, the 1-based line and column at
/// which parsing fails.
pub uninterp spec fn json_parse(s: Seq<char>) -> Result<JsonValue, (usize, usize)>;

/// What reading a string as a stream of self-delimiting JSON documents
/// yields: the documents before the first syntax error, and, where reading
/// ends in such an error rather than at the end of the text, its 1-based
/// line and column.
pub uninterp spec fn json_stream(s: Seq<char>) -> (Seq<JsonValue>, Option<(usize, usize)>);

#[verifier::external_type_specification]
#[verifier::external_body]
pub struct ExSerdeValue(serde_json::Value);

/// Relies on serde_json::Value's public variants and on Number's Display,
/// which prints the number's decimal text: rebuilds the same tree as plain
/// values. Only the two parse wrappers below call it; what they return is
/// pinned by their own contracts.
#[verifier::external_body]
fn value_to_tree(v: &serde_json::Value) -> JsonValue {
    match v {
        serde_json::Value::Null => JsonValue::Null,
        serde_json::Value::Bool(b) => JsonValue::Bool(*b),
        serde_json::Value::Number(n) => JsonValue::Number(n.to_string()),
        serde_json::Value::String(s) => JsonValue::String(s.clone()),
        serde_json::Value::Array(a) => JsonValue::Array(a.iter().map(value_to_tree).collect()),
        serde_json::Value::Object(m) => JsonValue::Object(
            m.iter().map(|e| (e.0.clone(), value_to_tree(e.1))).collect(),
        ),
    }
}

/// Relies on serde_json::from_str: whether a string is one valid JSON
/// document, the tree it yields, and on failure the line and column that
/// Error::line and Error::column report, depend on its characters alone.
#[verifier::external_body]
pub(crate) fn parse_json(s: &str) -> (r: Result<JsonValue, ParseError>)
    ensures
        r is Ok <==> json_parse(s@) is Ok,
        r matches Ok(v) ==> json_parse(s@) matches Ok(w) && w == v,
        r matches Err(e) ==> json_parse(s@) matches Err(p) && e.line == p.0 && e.column == p.1,
{
    match serde_json::from_str::<serde_json::Value>(s) {
        Ok(v) => Ok(value_to_tree(&v)),
        Err(e) => Err(ParseError { line: e.line(), column: e.column() }),
    }
}

/// Relies on serde_json::Deserializer::from_str and its stream form, which
/// reads one self-delimiting document at a time: the documents read before
/// the first syntax error, whether reading ended in one, and where, depend
/// on the characters alone.
#[verifier::external_body]
pub(crate) fn parse_stream(s: &str) -> (r: (Vec<JsonValue>, Option<ParseError>))
    ensures
        r.0@ == json_stream(s@).0,
        r.1 is Some <==> json_stream(s@).1 is Some,
        r.1 matches Some(e) ==> json_stream(s@).1 matches Some(p) && e.line == p.0 && e.column
            == p.1,
{
    let mut values = Vec::new();
    for item in serde_json::Deserializer::from_str(s).into_iter::<serde_json::Value>() {
        match item {
            Ok(v) => values.push(value_to_tree(&v)),
            Err(e) => {
                return (values, Some(ParseError { line: e.line(), column: e.column() }));
            },
        }
    }
    (values, None)
}

} // verus!
