//! The bulk layers: the chunked stream processor, the large-object splitter,
//! and the single JSON document taken as text.

use vstd::prelude::*;
use vstd::slice::slice_subrange;
use rayon::iter::{IndexedParallelIterator, IntoParallelRefIterator, ParallelIterator};
use crate::flatten::{flat_spec, flatten_entries, flatten_entry, flatten_json};
use crate::options::FlattenOptions;
use crate::parse::{ParseError, json_parse, json_stream, parse_json, parse_stream};
use crate::record::{
    FlatRecord,
    record_onto,
    lemma_record_onto_app,
    lemma_record_onto_as_union,
};
use crate::value::JsonValue;

verus! {

/// Relies on rayon: ThreadPoolBuilder::num_threads bounds the pool built for
/// this one call, and IndexedParallelIterator::collect_into_vec stores each
/// element's result at that element's index. The closure handed over only
/// calls the verified `flatten_json`, whose contract the clauses repeat.
/// Where no pool can be built, `None` comes back and the caller maps the
/// chunk itself.
#[verifier::external_body]
fn par_flatten_chunk(chunk: &[JsonValue], options: &FlattenOptions) -> (r: Option<
    Vec<FlatRecord>,
>)
    requires
        options.max_concurrency >= 1,
    ensures
        r matches Some(rs) ==> rs@.len() == chunk@.len() && forall|i: int|
            0 <= i < chunk@.len() ==> (#[trigger] rs@[i])@ == flat_spec(chunk@[i], *options),
{
    match rayon::ThreadPoolBuilder::new().num_threads(options.max_concurrency).build() {
        Ok(pool) => {
            let mut out = Vec::new();
            pool.install(|| {
                chunk.par_iter().map(|v| flatten_json(v, options)).collect_into_vec(&mut out);
            });
            Some(out)
        },
        Err(_) => None,
    }
}

/// Flattens a chunk one document at a time on the calling thread: the
/// fallback when no worker pool could be built.
fn seq_flatten_chunk(chunk: &[JsonValue], options: &FlattenOptions) -> (r: Vec<FlatRecord>)
    ensures
        r@.len() == chunk@.len(),
        forall|i: int|
            0 <= i < chunk@.len() ==> (#[trigger] r@[i])@ == flat_spec(chunk@[i], *options),
{
    let n = chunk.len();
    let mut out: Vec<FlatRecord> = Vec::new();
    let mut i: usize = 0;
    while i < n
        invariant
            i <= n,
            n == chunk@.len(),
            out@.len() == i,
            forall|j: int|
                0 <= j < i ==> (#[trigger] out@[j])@ == flat_spec(chunk@[j], *options),
        decreases n - i,
    {
        out.push(flatten_json(&chunk[i], options));
        i = i + 1;
    }
    out
}

/// Relies on rayon in the same way; the closure handed over only calls the
/// verified `flatten_entry`, whose contract the clauses repeat: each
/// top-level entry is flattened from depth zero under its own key. Where no
/// pool can be built, `None` comes back and the caller maps the entries
/// itself.
#[verifier::external_body]
fn par_flatten_fields(fields: &[(String, JsonValue)], options: &FlattenOptions) -> (r: Option<
    Vec<FlatRecord>,
>)
    requires
        options.max_concurrency >= 1,
    ensures
        r matches Some(rs) ==> rs@.len() == fields@.len() && forall|i: int|
            0 <= i < fields@.len() ==> (#[trigger] rs@[i])@ == record_onto(
                Map::empty(),
                flatten_entries((#[trigger] fields@[i]).1, fields@[i].0@, 0, *options),
            ),
{
    match rayon::ThreadPoolBuilder::new().num_threads(options.max_concurrency).build() {
        Ok(pool) => {
            let mut out = Vec::new();
            pool.install(|| {
                fields.par_iter().map(|e| flatten_entry(e.0.as_str(), &e.1, options))
                    .collect_into_vec(&mut out);
            });
            Some(out)
        },
        Err(_) => None,
    }
}

/// Flattens the top-level entries one at a time on the calling thread: the
/// fallback when no worker pool could be built.
fn seq_flatten_fields(fields: &[(String, JsonValue)], options: &FlattenOptions) -> (r: Vec<
    FlatRecord,
>)
    ensures
        r@.len() == fields@.len(),
        forall|i: int|
            0 <= i < fields@.len() ==> (#[trigger] r@[i])@ == record_onto(
                Map::empty(),
                flatten_entries((#[trigger] fields@[i]).1, fields@[i].0@, 0, *options),
            ),
{
    let n = fields.len();
    let mut out: Vec<FlatRecord> = Vec::new();
    let mut i: usize = 0;
    while i < n
        invariant
            i <= n,
            n == fields@.len(),
            out@.len() == i,
            forall|j: int|
                0 <= j < i ==> (#[trigger] out@[j])@ == record_onto(
                    Map::empty(),
                    flatten_entries((#[trigger] fields@[j]).1, fields@[j].0@, 0, *options),
                ),
        decreases n - i,
    {
        let entry = &fields[i];
        out.push(flatten_entry(entry.0.as_str(), &entry.1, options));
        i = i + 1;
    }
    out
}

/// Flattens one JSON document given as text: parsed, then flattened exactly
/// as `flatten_json` does. Fails exactly on text that is not one valid JSON
/// document.
pub fn flatten_json_text(input: &str, options: &FlattenOptions) -> (r: Result<
    FlatRecord,
    ParseError,
>)
    ensures
        r is Ok <==> json_parse(input@) is Ok,
        r matches Ok(rec) ==> rec@ == flat_spec(json_parse(input@)->Ok_0, *options),
        r matches Err(e) ==> json_parse(input@) matches Err(p) && e.line == p.0 && e.column
            == p.1,
{
    match parse_json(input) {
        Ok(v) => Ok(flatten_json(&v, options)),
        Err(e) => Err(e),
    }
}

/// Flattens a sequence of documents in chunks of `chunk_size`: each full (or
/// final partial) chunk goes through one parallel map, and the chunk's
/// results are appended in original order before the next chunk starts, so
/// output order equals input order whatever `max_concurrency` is.
#[verifier::loop_isolation(false)]
pub fn process_stream(values: &Vec<JsonValue>, options: &FlattenOptions) -> (r: Vec<FlatRecord>)
    requires
        options.chunk_size >= 1,
        options.max_concurrency >= 1,
    ensures
        r@.len() == values@.len(),
        forall|i: int|
            0 <= i < values@.len() ==> (#[trigger] r@[i])@ == flat_spec(values@[i], *options),
{
    let n = values.len();
    let mut out: Vec<FlatRecord> = Vec::new();
    let mut start: usize = 0;
    while start < n
        invariant
            start <= n,
            out@.len() == start,
            forall|i: int|
                0 <= i < start ==> (#[trigger] out@[i])@ == flat_spec(values@[i], *options),
        decreases n - start,
    {
        let remaining = n - start;
        let len = if options.chunk_size < remaining {
            options.chunk_size
        } else {
            remaining
        };
        let end = start + len;
        let chunk = slice_subrange(values.as_slice(), start, end);
        let mut part = match par_flatten_chunk(chunk, options) {
            Some(rs) => rs,
            None => seq_flatten_chunk(chunk, options),
        };
        out.append(&mut part);
        start = end;
    }
    out
}

/// The document sequence a text stands for: the elements of a top-level
/// array, a single document otherwise, and, where the text is not one valid
/// document, whatever the stream parser reads before its first error.
pub open spec fn stream_documents(s: Seq<char>) -> Seq<JsonValue> {
    match json_parse(s) {
        Ok(v) => match v {
            JsonValue::Array(elems) => elems@,
            _ => seq![v],
        },
        Err(_) => json_stream(s).0,
    }
}

/// Whether a text fails as a document stream: not one valid document, and the
/// stream parser stops on a syntax error.
pub open spec fn stream_fault(s: Seq<char>) -> bool {
    json_parse(s) is Err && json_stream(s).1 is Some
}

/// Flattens a text of JSON documents through the chunked processor: a
/// top-level array contributes one document per element, any other single
/// document contributes itself, and otherwise the text is read as a stream of
/// self-delimiting documents. A syntax error anywhere fails the whole call:
/// nothing flattened from earlier chunks is returned.
pub fn flatten_json_stream(input: &str, options: &FlattenOptions) -> (r: Result<
    Vec<FlatRecord>,
    ParseError,
>)
    requires
        options.chunk_size >= 1,
        options.max_concurrency >= 1,
    ensures
        r is Ok <==> !stream_fault(input@),
        r matches Ok(records) ==> records@.len() == stream_documents(input@).len() && forall|
            i: int,
        |
            0 <= i < records@.len() ==> (#[trigger] records@[i])@ == flat_spec(
                stream_documents(input@)[i],
                *options,
            ),
        r matches Err(e) ==> json_stream(input@).1 matches Some(p) && e.line == p.0 && e.column
            == p.1,
{
    match parse_json(input) {
        Ok(v) => match v {
            JsonValue::Array(elems) => Ok(process_stream(&elems, options)),
            other => {
                let ghost doc = other;
                let single = vec![other];
                proof {
                    assert(single@ =~= seq![doc]);
                    assert(stream_documents(input@) =~= seq![doc]);
                }
                Ok(process_stream(&single, options))
            },
        },
        Err(_) => {
            let parsed = parse_stream(input);
            match parsed.1 {
                Some(e) => Err(e),
                None => Ok(process_stream(&parsed.0, options)),
            }
        },
    }
}

/// The insertions the splitter makes for a large object: each top-level
/// entry's subtree flattened from depth zero under its own key, in entry
/// order.
pub open spec fn split_entries(
    fields: Seq<(String, JsonValue)>,
    opts: FlattenOptions,
) -> Seq<(Seq<char>, Seq<char>)>
    decreases fields,
{
    if fields.len() == 0 {
        Seq::empty()
    } else {
        split_entries(fields.drop_last(), opts) + flatten_entries(
            fields.last().1,
            fields.last().0@,
            0,
            opts,
        )
    }
}

/// What the splitter returns: for an object, its top-level entries' partial
/// records merged in entry order; for anything else, plain flattening.
pub open spec fn split_spec(v: JsonValue, opts: FlattenOptions) -> Map<Seq<char>, Seq<char>> {
    match v {
        JsonValue::Object(fields) => record_onto(Map::empty(), split_entries(fields@, opts)),
        _ => flat_spec(v, opts),
    }
}

/// Splits one large object's top-level entries across up to
/// `max_concurrency` workers, each flattening its entry from depth zero, and
/// merges the partial records; a later entry's key wins a clash. A value
/// that is not an object is flattened whole.
#[verifier::loop_isolation(false)]
pub fn split_large_object(value: &JsonValue, options: &FlattenOptions) -> (r: FlatRecord)
    requires
        options.max_concurrency >= 1,
    ensures
        r@ == split_spec(*value, *options),
{
    match value {
        JsonValue::Object(fields) => {
            let parts = match par_flatten_fields(fields.as_slice(), options) {
                Some(rs) => rs,
                None => seq_flatten_fields(fields.as_slice(), options),
            };
            let n = parts.len();
            let mut merged = FlatRecord::new();
            let mut i: usize = 0;
            proof {
                assert(fields@.subrange(0, 0) =~= Seq::<(String, JsonValue)>::empty());
            }
            while i < n
                invariant
                    i <= n,
                    merged@ == record_onto(
                        Map::empty(),
                        split_entries(fields@.subrange(0, i as int), *options),
                    ),
                decreases n - i,
            {
                merged.extend(&parts[i]);
                proof {
                    let prev = fields@.subrange(0, i as int);
                    let cur = fields@.subrange(0, i + 1);
                    assert(cur.drop_last() =~= prev);
                    assert(cur.last() == fields@[i as int]);
                    let tail = flatten_entries(
                        fields@[i as int].1,
                        fields@[i as int].0@,
                        0,
                        *options,
                    );
                    lemma_record_onto_app(Map::empty(), split_entries(prev, *options), tail);
                    lemma_record_onto_as_union(
                        record_onto(Map::empty(), split_entries(prev, *options)),
                        tail,
                    );
                    assert(merged@ == record_onto(Map::empty(), split_entries(cur, *options)));
                }
                i = i + 1;
            }
            proof {
                assert(fields@.subrange(0, n as int) =~= fields@);
            }
            merged
        },
        _ => flatten_json(value, options),
    }
}

/// Flattens one large top-level JSON object given as text: parsed, then
/// handed to the splitter. Fails exactly on text that is not one valid JSON
/// document.
pub fn process_large_json(input: &str, options: &FlattenOptions) -> (r: Result<
    FlatRecord,
    ParseError,
>)
    requires
        options.max_concurrency >= 1,
    ensures
        r is Ok <==> json_parse(input@) is Ok,
        r matches Ok(rec) ==> rec@ == split_spec(json_parse(input@)->Ok_0, *options),
        r matches Err(e) ==> json_parse(input@) matches Err(p) && e.line == p.0 && e.column
            == p.1,
{
    match parse_json(input) {
        Ok(v) => Ok(split_large_object(&v, options)),
        Err(e) => Err(e),
    }
}

} // verus!
