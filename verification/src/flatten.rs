//! The flattening engine: a depth-first traversal turning one JSON value into
//! a flat record under the configured policy.

use vstd::prelude::*;
use vstd::string::{StrSliceExecFns, StringExecFns};
use crate::options::FlattenOptions;
use crate::record::{FlatRecord, record_onto, lemma_record_onto_app, lemma_record_onto_single};
use crate::text::dec_str;
use crate::text::push_dec;
use crate::value::{JsonValue, canon_scalar, ser, to_json_text, push_canon_scalar};

verus! {

/// Whether the depth cutoff applies at this depth: a positive limit that the
/// depth has reached. A limit of zero never cuts.
pub open spec fn cut_off(opts: FlattenOptions, depth: int) -> bool {
    opts.max_depth > 0 && depth >= opts.max_depth
}

/// The key under which a child of an object is stored: the child's own key
/// when the prefix is empty, otherwise prefix, separator and key joined.
pub open spec fn object_key(prefix: Seq<char>, key: Seq<char>, opts: FlattenOptions) -> Seq<char> {
    if prefix.len() == 0 {
        key
    } else {
        prefix + opts.separator@ + key
    }
}

/// The key under which an array element is stored: prefix, separator and the
/// decimal index joined when indices are included, the prefix unchanged
/// otherwise (so that later siblings overwrite earlier ones).
pub open spec fn array_key(prefix: Seq<char>, index: int, opts: FlattenOptions) -> Seq<char>
    recommends
        index >= 0,
{
    if opts.include_array_indices {
        prefix + opts.separator@ + dec_str(index as nat)
    } else {
        prefix
    }
}

/// The ordered key-value insertions the engine makes for `v` standing at this
/// prefix and depth. At the cutoff the whole subtree is one insertion of its
/// JSON text; an unexpanded array likewise; a scalar under a non-empty prefix
/// is one insertion of its canonical form, and a bare scalar at the root none.
pub open spec fn flatten_entries(
    v: JsonValue,
    prefix: Seq<char>,
    depth: int,
    opts: FlattenOptions,
) -> Seq<(Seq<char>, Seq<char>)>
    decreases v,
{
    if cut_off(opts, depth) {
        seq![(prefix, ser(v))]
    } else {
        match v {
            JsonValue::Object(fields) => entries_of_fields(fields@, prefix, depth, opts),
            JsonValue::Array(elems) => if opts.expand_arrays {
                entries_of_elems(elems@, prefix, depth, opts)
            } else {
                seq![(prefix, ser(v))]
            },
            _ => if prefix.len() == 0 {
                Seq::empty()
            } else {
                seq![(prefix, canon_scalar(v))]
            },
        }
    }
}

/// The insertions of an object's entries, in entry order.
pub open spec fn entries_of_fields(
    fields: Seq<(String, JsonValue)>,
    prefix: Seq<char>,
    depth: int,
    opts: FlattenOptions,
) -> Seq<(Seq<char>, Seq<char>)>
    decreases fields,
{
    if fields.len() == 0 {
        Seq::empty()
    } else {
        entries_of_fields(fields.drop_last(), prefix, depth, opts) + flatten_entries(
            fields.last().1,
            object_key(prefix, fields.last().0@, opts),
            depth + 1,
            opts,
        )
    }
}

/// The insertions of an array's elements, in element order.
pub open spec fn entries_of_elems(
    elems: Seq<JsonValue>,
    prefix: Seq<char>,
    depth: int,
    opts: FlattenOptions,
) -> Seq<(Seq<char>, Seq<char>)>
    decreases elems,
{
    if elems.len() == 0 {
        Seq::empty()
    } else {
        entries_of_elems(elems.drop_last(), prefix, depth, opts) + flatten_entries(
            elems.last(),
            array_key(prefix, elems.len() - 1, opts),
            depth + 1,
            opts,
        )
    }
}

/// The record one document flattens to: its insertions folded into a map.
pub open spec fn flat_spec(v: JsonValue, opts: FlattenOptions) -> Map<Seq<char>, Seq<char>> {
    record_onto(Map::empty(), flatten_entries(v, Seq::empty(), 0, opts))
}

/// A depth limit of zero never truncates: the insertions made for a value do
/// not depend on the depth at which it stands, however deeply it is nested.
pub proof fn lemma_unlimited_depth(
    v: JsonValue,
    prefix: Seq<char>,
    d1: int,
    d2: int,
    opts: FlattenOptions,
)
    requires
        opts.max_depth == 0,
    ensures
        flatten_entries(v, prefix, d1, opts) == flatten_entries(v, prefix, d2, opts),
    decreases v,
{
    match v {
        JsonValue::Object(fields) => {
            lemma_unlimited_depth_fields(fields@, prefix, d1, d2, opts);
        },
        JsonValue::Array(elems) => {
            if opts.expand_arrays {
                lemma_unlimited_depth_elems(elems@, prefix, d1, d2, opts);
            }
        },
        _ => {},
    }
}

proof fn lemma_unlimited_depth_fields(
    fields: Seq<(String, JsonValue)>,
    prefix: Seq<char>,
    d1: int,
    d2: int,
    opts: FlattenOptions,
)
    requires
        opts.max_depth == 0,
    ensures
        entries_of_fields(fields, prefix, d1, opts) == entries_of_fields(fields, prefix, d2, opts),
    decreases fields,
{
    if fields.len() > 0 {
        lemma_unlimited_depth_fields(fields.drop_last(), prefix, d1, d2, opts);
        lemma_unlimited_depth(
            fields.last().1,
            object_key(prefix, fields.last().0@, opts),
            d1 + 1,
            d2 + 1,
            opts,
        );
    }
}

proof fn lemma_unlimited_depth_elems(
    elems: Seq<JsonValue>,
    prefix: Seq<char>,
    d1: int,
    d2: int,
    opts: FlattenOptions,
)
    requires
        opts.max_depth == 0,
    ensures
        entries_of_elems(elems, prefix, d1, opts) == entries_of_elems(elems, prefix, d2, opts),
    decreases elems,
{
    if elems.len() > 0 {
        lemma_unlimited_depth_elems(elems.drop_last(), prefix, d1, d2, opts);
        lemma_unlimited_depth(
            elems.last(),
            array_key(prefix, elems.len() - 1, opts),
            d1 + 1,
            d2 + 1,
            opts,
        );
    }
}

/// Builds the key of an object child, as `object_key` describes it.
fn join_object_key(prefix: &str, key: &str, options: &FlattenOptions) -> (r: String)
    ensures
        r@ == object_key(prefix@, key@, *options),
{
    if prefix.is_empty() {
        key.to_owned()
    } else {
        let mut s = prefix.to_owned();
        s.append(options.separator.as_str());
        s.append(key);
        proof {
            assert(s@ =~= object_key(prefix@, key@, *options));
        }
        s
    }
}

/// Builds the key of an array element, as `array_key` describes it.
fn join_array_key(prefix: &str, index: usize, options: &FlattenOptions) -> (r: String)
    ensures
        r@ == array_key(prefix@, index as int, *options),
{
    if options.include_array_indices {
        let mut s = prefix.to_owned();
        s.append(options.separator.as_str());
        push_dec(index, &mut s);
        proof {
            assert(s@ =~= array_key(prefix@, index as int, *options));
        }
        s
    } else {
        prefix.to_owned()
    }
}

/// Flattens `value` into `result`, every leaf keyed under `prefix`: the
/// depth-first traversal making exactly the insertions of `flatten_entries`.
#[verifier::loop_isolation(false)]
pub fn flatten_value(
    prefix: &str,
    value: &JsonValue,
    result: &mut FlatRecord,
    options: &FlattenOptions,
    depth: usize,
)
    ensures
        final(result)@ == record_onto(
            old(result)@,
            flatten_entries(*value, prefix@, depth as int, *options),
        ),
    decreases *value,
{
    if options.max_depth > 0 && depth >= options.max_depth {
        let text = to_json_text(value);
        result.insert(prefix.to_owned(), text);
        proof {
            lemma_record_onto_single(old(result)@, prefix@, ser(*value));
        }
        return ;
    }
    match value {
        JsonValue::Object(fields) => {
            let n = fields.len();
            let mut i: usize = 0;
            proof {
                assert(fields@.subrange(0, 0) =~= Seq::<(String, JsonValue)>::empty());
            }
            while i < n
                invariant
                    i <= n,
                    result@ == record_onto(
                        old(result)@,
                        entries_of_fields(
                            fields@.subrange(0, i as int),
                            prefix@,
                            depth as int,
                            *options,
                        ),
                    ),
                decreases n - i,
            {
                let entry = &fields[i];
                let child_key = join_object_key(prefix, entry.0.as_str(), options);
                let next_depth = if options.max_depth > 0 {
                    depth + 1
                } else {
                    depth
                };
                flatten_value(child_key.as_str(), &entry.1, result, options, next_depth);
                proof {
                    if options.max_depth == 0 {
                        lemma_unlimited_depth(
                            fields@[i as int].1,
                            child_key@,
                            depth as int,
                            depth as int + 1,
                            *options,
                        );
                    }
                    assert(fields@.subrange(0, i + 1).drop_last() =~= fields@.subrange(
                        0,
                        i as int,
                    ));
                    assert(fields@.subrange(0, i + 1).last() == fields@[i as int]);
                    lemma_record_onto_app(
                        old(result)@,
                        entries_of_fields(
                            fields@.subrange(0, i as int),
                            prefix@,
                            depth as int,
                            *options,
                        ),
                        flatten_entries(
                            fields@[i as int].1,
                            object_key(prefix@, fields@[i as int].0@, *options),
                            depth as int + 1,
                            *options,
                        ),
                    );
                    assert(result@ == record_onto(
                        old(result)@,
                        entries_of_fields(
                            fields@.subrange(0, i + 1),
                            prefix@,
                            depth as int,
                            *options,
                        ),
                    ));
                }
                i = i + 1;
            }
            proof {
                assert(fields@.subrange(0, n as int) =~= fields@);
            }
        },
        JsonValue::Array(elems) => {
            if options.expand_arrays {
                let n = elems.len();
                let mut i: usize = 0;
                proof {
                    assert(elems@.subrange(0, 0) =~= Seq::<JsonValue>::empty());
                }
                while i < n
                    invariant
                        i <= n,
                        result@ == record_onto(
                            old(result)@,
                            entries_of_elems(
                                elems@.subrange(0, i as int),
                                prefix@,
                                depth as int,
                                *options,
                            ),
                        ),
                    decreases n - i,
                {
                    let child_key = join_array_key(prefix, i, options);
                    let next_depth = if options.max_depth > 0 {
                        depth + 1
                    } else {
                        depth
                    };
                    flatten_value(child_key.as_str(), &elems[i], result, options, next_depth);
                    proof {
                        if options.max_depth == 0 {
                            lemma_unlimited_depth(
                                elems@[i as int],
                                child_key@,
                                depth as int,
                                depth as int + 1,
                                *options,
                            );
                        }
                        assert(elems@.subrange(0, i + 1).drop_last() =~= elems@.subrange(
                            0,
                            i as int,
                        ));
                        assert(elems@.subrange(0, i + 1).last() == elems@[i as int]);
                        lemma_record_onto_app(
                            old(result)@,
                            entries_of_elems(
                                elems@.subrange(0, i as int),
                                prefix@,
                                depth as int,
                                *options,
                            ),
                            flatten_entries(
                                elems@[i as int],
                                array_key(prefix@, i as int, *options),
                                depth as int + 1,
                                *options,
                            ),
                        );
                        assert(result@ == record_onto(
                            old(result)@,
                            entries_of_elems(
                                elems@.subrange(0, i + 1),
                                prefix@,
                                depth as int,
                                *options,
                            ),
                        ));
                    }
                    i = i + 1;
                }
                proof {
                    assert(elems@.subrange(0, n as int) =~= elems@);
                }
            } else {
                let text = to_json_text(value);
                result.insert(prefix.to_owned(), text);
                proof {
                    lemma_record_onto_single(old(result)@, prefix@, ser(*value));
                }
            }
        },
        _ => {
            if !prefix.is_empty() {
                let mut text = String::new();
                push_canon_scalar(value, &mut text);
                result.insert(prefix.to_owned(), text);
                proof {
                    assert(text@ =~= canon_scalar(*value));
                    lemma_record_onto_single(old(result)@, prefix@, canon_scalar(*value));
                }
            }
        },
    }
}

/// Flattens one JSON value into a flat record with path-joined keys, under
/// the given options: exactly the fold of its `flatten_entries` from the
/// empty prefix at depth zero.
pub fn flatten_json(value: &JsonValue, options: &FlattenOptions) -> (r: FlatRecord)
    ensures
        r@ == flat_spec(*value, *options),
{
    let mut result = FlatRecord::new();
    flatten_value("", value, &mut result, options, 0);
    proof {
        reveal_strlit("");
        assert(""@ =~= Seq::<char>::empty());
    }
    result
}

/// Flattens one top-level entry of a large object: the child is traversed
/// from depth zero with its key as the whole prefix, exactly as if it were a
/// root document handed in under that name.
pub fn flatten_entry(key: &str, value: &JsonValue, options: &FlattenOptions) -> (r: FlatRecord)
    ensures
        r@ == record_onto(Map::empty(), flatten_entries(*value, key@, 0, *options)),
{
    let mut result = FlatRecord::new();
    flatten_value(key, value, &mut result, options, 0);
    result
}

} // verus!
