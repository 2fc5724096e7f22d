//! The JSON tree the engine works on, its canonical scalar forms, and its
//! compact serialization back to JSON text.

use vstd::prelude::*;
use vstd::string::{StrSliceExecFns, StringExecFns};
use crate::text::{escape_seq, push_char, push_escaped};

verus! {

/// One parsed JSON value. A number carries its decimal text exactly as it
/// stood in the source, so no numeric formatting is ever re-invented. Object
/// entries keep the order in which they were produced.
pub enum JsonValue {
    Null,
    Bool(bool),
    Number(String),
    String(String),
    Array(Vec<JsonValue>),
    Object(Vec<(String, JsonValue)>),
}

impl JsonValue {
    /// A scalar is a leaf of the tree: anything but an array or an object.
    pub open spec fn is_scalar(self) -> bool {
        !(self is Array) && !(self is Object)
    }
}

/// The canonical string form of a scalar: a string stands for itself, a
/// number for its decimal text, booleans and null for their JSON keywords.
pub open spec fn canon_scalar(v: JsonValue) -> Seq<char>
    recommends
        v.is_scalar(),
{
    match v {
        JsonValue::Null => "null"@,
        JsonValue::Bool(b) => if b {
            "true"@
        } else {
            "false"@
        },
        JsonValue::Number(s) => s@,
        JsonValue::String(s) => s@,
        _ => Seq::empty(),
    }
}

/// The compact JSON serialization of a value: no spaces, keys and strings
/// escaped as in `escape_seq`, numbers written as their stored decimal text.
pub open spec fn ser(v: JsonValue) -> Seq<char>
    decreases v,
{
    match v {
        JsonValue::Null => "null"@,
        JsonValue::Bool(b) => if b {
            "true"@
        } else {
            "false"@
        },
        JsonValue::Number(s) => s@,
        JsonValue::String(s) => seq!['"'] + escape_seq(s@) + seq!['"'],
        JsonValue::Array(a) => seq!['['] + ser_elems(a@) + seq![']'],
        JsonValue::Object(fields) => seq!['{'] + ser_fields(fields@) + seq!['}'],
    }
}

/// The comma-separated serializations of an array's elements.
pub open spec fn ser_elems(elems: Seq<JsonValue>) -> Seq<char>
    decreases elems,
{
    if elems.len() == 0 {
        Seq::empty()
    } else if elems.len() == 1 {
        ser(elems.last())
    } else {
        ser_elems(elems.drop_last()) + seq![','] + ser(elems.last())
    }
}

/// The comma-separated `"key":value` texts of an object's entries.
pub open spec fn ser_fields(fields: Seq<(String, JsonValue)>) -> Seq<char>
    decreases fields,
{
    if fields.len() == 0 {
        Seq::empty()
    } else if fields.len() == 1 {
        ser_field(fields.last())
    } else {
        ser_fields(fields.drop_last()) + seq![','] + ser_field(fields.last())
    }
}

/// One object entry as `"key":value`.
pub open spec fn ser_field(field: (String, JsonValue)) -> Seq<char>
    decreases field,
{
    seq!['"'] + escape_seq(field.0@) + seq!['"', ':'] + ser(field.1)
}

/// Appends the canonical string form of a scalar to `out`.
pub(crate) fn push_canon_scalar(v: &JsonValue, out: &mut String)
    requires
        v.is_scalar(),
    ensures
        final(out)@ == old(out)@ + canon_scalar(*v),
{
    match v {
        JsonValue::Null => {
            out.append("null");
        },
        JsonValue::Bool(b) => {
            if *b {
                out.append("true");
            } else {
                out.append("false");
            }
        },
        JsonValue::Number(s) => {
            out.append(s.as_str());
        },
        JsonValue::String(s) => {
            out.append(s.as_str());
        },
        _ => {
            proof {
                assert(false);
            }
        },
    }
}

/// Appends the compact JSON serialization of `v` to `out`.
#[verifier::loop_isolation(false)]
pub(crate) fn push_ser(v: &JsonValue, out: &mut String)
    ensures
        final(out)@ == old(out)@ + ser(*v),
    decreases *v,
{
    match v {
        JsonValue::Null => {
            out.append("null");
        },
        JsonValue::Bool(b) => {
            if *b {
                out.append("true");
            } else {
                out.append("false");
            }
        },
        JsonValue::Number(s) => {
            out.append(s.as_str());
        },
        JsonValue::String(s) => {
            push_char(out, '"');
            push_escaped(s.as_str(), out);
            push_char(out, '"');
            proof {
                assert(out@ =~= old(out)@ + ser(*v));
            }
        },
        JsonValue::Array(a) => {
            push_char(out, '[');
            let ghost base = out@;
            let n = a.len();
            let mut i: usize = 0;
            proof {
                assert(a@.subrange(0, 0) =~= Seq::<JsonValue>::empty());
            }
            while i < n
                invariant
                    i <= n,
                    n == a@.len(),
                    base == old(out)@ + seq!['['],
                    out@ == base + ser_elems(a@.subrange(0, i as int)),
                decreases n - i,
            {
                if i > 0 {
                    push_char(out, ',');
                }
                push_ser(&a[i], out);
                proof {
                    assert(a@.subrange(0, i + 1).drop_last() =~= a@.subrange(0, i as int));
                    assert(a@.subrange(0, i + 1).last() == a@[i as int]);
                    if i == 0 {
                        assert(out@ =~= base + ser_elems(a@.subrange(0, i + 1)));
                    } else {
                        assert(out@ =~= base + ser_elems(a@.subrange(0, i + 1)));
                    }
                }
                i = i + 1;
            }
            push_char(out, ']');
            proof {
                assert(a@.subrange(0, n as int) =~= a@);
                assert(out@ =~= old(out)@ + ser(*v));
            }
        },
        JsonValue::Object(fields) => {
            push_char(out, '{');
            let ghost base = out@;
            let n = fields.len();
            let mut i: usize = 0;
            proof {
                assert(fields@.subrange(0, 0) =~= Seq::<(String, JsonValue)>::empty());
            }
            while i < n
                invariant
                    i <= n,
                    n == fields@.len(),
                    base == old(out)@ + seq!['{'],
                    out@ == base + ser_fields(fields@.subrange(0, i as int)),
                decreases n - i,
            {
                if i > 0 {
                    push_char(out, ',');
                }
                push_char(out, '"');
                let entry = &fields[i];
                push_escaped(entry.0.as_str(), out);
                push_char(out, '"');
                push_char(out, ':');
                push_ser(&entry.1, out);
                proof {
                    assert(fields@.subrange(0, i + 1).drop_last() =~= fields@.subrange(
                        0,
                        i as int,
                    ));
                    assert(fields@.subrange(0, i + 1).last() == fields@[i as int]);
                    assert(ser_field(fields@[i as int]) =~= seq!['"'] + escape_seq(
                        fields@[i as int].0@,
                    ) + seq!['"', ':'] + ser(fields@[i as int].1));
                    assert(out@ =~= base + ser_fields(fields@.subrange(0, i + 1)));
                }
                i = i + 1;
            }
            push_char(out, '}');
            proof {
                assert(fields@.subrange(0, n as int) =~= fields@);
                assert(out@ =~= old(out)@ + ser(*v));
            }
        },
    }
}

/// The compact JSON text of a value, as `ser` describes it.
pub fn to_json_text(v: &JsonValue) -> (r: String)
    ensures
        r@ == ser(*v),
{
    let mut out = String::new();
    push_ser(v, &mut out);
    proof {
        assert(out@ =~= ser(*v));
    }
    out
}

} // verus!
