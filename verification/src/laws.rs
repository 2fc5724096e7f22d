//! The properties the engine is held to, stated and proved over the
//! specification functions that its contracts use.

use vstd::prelude::*;
use crate::options::FlattenOptions;
use crate::record::{
    record_onto,
    lemma_record_onto_app,
    lemma_record_onto_count,
    lemma_record_onto_single,
};
use crate::text::dec_str;
use crate::flatten::{
    cut_off,
    object_key,
    array_key,
    flat_spec,
    flatten_entries,
    entries_of_fields,
    entries_of_elems,
};
use crate::value::{JsonValue, canon_scalar, ser};

verus! {

/// How many scalar leaves a value holds; null counts as a leaf.
pub open spec fn leaf_count(v: JsonValue) -> nat
    decreases v,
{
    match v {
        JsonValue::Array(elems) => leaves_of_elems(elems@),
        JsonValue::Object(fields) => leaves_of_fields(fields@),
        _ => 1,
    }
}

/// The leaves of an array's elements, summed.
pub open spec fn leaves_of_elems(elems: Seq<JsonValue>) -> nat
    decreases elems,
{
    if elems.len() == 0 {
        0
    } else {
        leaves_of_elems(elems.drop_last()) + leaf_count(elems.last())
    }
}

/// The leaves of an object's entries, summed.
pub open spec fn leaves_of_fields(fields: Seq<(String, JsonValue)>) -> nat
    decreases fields,
{
    if fields.len() == 0 {
        0
    } else {
        leaves_of_fields(fields.drop_last()) + leaf_count(fields.last().1)
    }
}

/// Whether no array or object of `v`, standing at `depth`, reaches the depth
/// cutoff; scalars may, since serializing a scalar still makes one entry.
pub open spec fn within_depth(v: JsonValue, depth: int, opts: FlattenOptions) -> bool
    decreases v,
{
    match v {
        JsonValue::Array(elems) => !cut_off(opts, depth) && elems_within_depth(
            elems@,
            depth + 1,
            opts,
        ),
        JsonValue::Object(fields) => !cut_off(opts, depth) && fields_within_depth(
            fields@,
            depth + 1,
            opts,
        ),
        _ => true,
    }
}

/// `within_depth` over an array's elements.
pub open spec fn elems_within_depth(elems: Seq<JsonValue>, depth: int, opts: FlattenOptions) -> bool
    decreases elems,
{
    if elems.len() == 0 {
        true
    } else {
        elems_within_depth(elems.drop_last(), depth, opts) && within_depth(
            elems.last(),
            depth,
            opts,
        )
    }
}

/// `within_depth` over an object's entries.
pub open spec fn fields_within_depth(
    fields: Seq<(String, JsonValue)>,
    depth: int,
    opts: FlattenOptions,
) -> bool
    decreases fields,
{
    if fields.len() == 0 {
        true
    } else {
        fields_within_depth(fields.drop_last(), depth, opts) && within_depth(
            fields.last().1,
            depth,
            opts,
        )
    }
}

/// Where no container reaches the cutoff and arrays are expanded, a value
/// under a non-empty prefix makes exactly one insertion per scalar leaf.
pub proof fn lemma_leaf_count(v: JsonValue, prefix: Seq<char>, depth: int, opts: FlattenOptions)
    requires
        opts.expand_arrays,
        prefix.len() > 0,
        within_depth(v, depth, opts),
    ensures
        flatten_entries(v, prefix, depth, opts).len() == leaf_count(v),
    decreases v,
{
    match v {
        JsonValue::Array(elems) => {
            lemma_leaf_count_elems(elems@, prefix, depth, opts);
        },
        JsonValue::Object(fields) => {
            lemma_leaf_count_fields(fields@, prefix, depth, opts);
        },
        _ => {},
    }
}

proof fn lemma_leaf_count_elems(
    elems: Seq<JsonValue>,
    prefix: Seq<char>,
    depth: int,
    opts: FlattenOptions,
)
    requires
        opts.expand_arrays,
        prefix.len() > 0,
        elems_within_depth(elems, depth + 1, opts),
    ensures
        entries_of_elems(elems, prefix, depth, opts).len() == leaves_of_elems(elems),
    decreases elems,
{
    if elems.len() > 0 {
        lemma_leaf_count_elems(elems.drop_last(), prefix, depth, opts);
        let key = array_key(prefix, elems.len() - 1, opts);
        assert(key.len() > 0);
        lemma_leaf_count(elems.last(), key, depth + 1, opts);
    }
}

proof fn lemma_leaf_count_fields(
    fields: Seq<(String, JsonValue)>,
    prefix: Seq<char>,
    depth: int,
    opts: FlattenOptions,
)
    requires
        opts.expand_arrays,
        prefix.len() > 0,
        fields_within_depth(fields, depth + 1, opts),
    ensures
        entries_of_fields(fields, prefix, depth, opts).len() == leaves_of_fields(fields),
    decreases fields,
{
    if fields.len() > 0 {
        lemma_leaf_count_fields(fields.drop_last(), prefix, depth, opts);
        let key = object_key(prefix, fields.last().0@, opts);
        assert(key.len() > 0);
        lemma_leaf_count(fields.last().1, key, depth + 1, opts);
    }
}

/// At the root the same count holds for an object whose top-level keys are
/// non-empty, and for an array when indices are included: one insertion per
/// scalar leaf. (A bare scalar root makes no insertion, a top-level empty key
/// leaves its subtree's prefix empty, and an unindexed root array keeps the
/// empty prefix, so those inputs stand outside the law.)
pub proof fn lemma_flatten_count(v: JsonValue, opts: FlattenOptions)
    requires
        opts.expand_arrays,
        within_depth(v, 0, opts),
        v matches JsonValue::Object(fields) ==> forall|i: int|
            0 <= i < fields@.len() ==> (#[trigger] fields@[i]).0@.len() > 0,
        v is Object || (v is Array && opts.include_array_indices),
    ensures
        flatten_entries(v, Seq::empty(), 0, opts).len() == leaf_count(v),
{
    match v {
        JsonValue::Array(elems) => {
            lemma_root_count_elems(elems@, opts);
        },
        JsonValue::Object(fields) => {
            lemma_root_count_fields(fields@, opts);
        },
        _ => {},
    }
}

proof fn lemma_root_count_elems(elems: Seq<JsonValue>, opts: FlattenOptions)
    requires
        opts.expand_arrays,
        opts.include_array_indices,
        elems_within_depth(elems, 1, opts),
    ensures
        entries_of_elems(elems, Seq::empty(), 0, opts).len() == leaves_of_elems(elems),
    decreases elems,
{
    if elems.len() > 0 {
        lemma_root_count_elems(elems.drop_last(), opts);
        let key = array_key(Seq::empty(), elems.len() - 1, opts);
        assert(dec_str((elems.len() - 1) as nat).len() > 0);
        assert(key.len() > 0);
        lemma_leaf_count(elems.last(), key, 1, opts);
    }
}

proof fn lemma_root_count_fields(fields: Seq<(String, JsonValue)>, opts: FlattenOptions)
    requires
        opts.expand_arrays,
        fields_within_depth(fields, 1, opts),
        forall|i: int| 0 <= i < fields.len() ==> (#[trigger] fields[i]).0@.len() > 0,
    ensures
        entries_of_fields(fields, Seq::empty(), 0, opts).len() == leaves_of_fields(fields),
    decreases fields,
{
    if fields.len() > 0 {
        lemma_root_count_fields(fields.drop_last(), opts);
        assert(fields[fields.len() - 1].0@.len() > 0);
        let key = object_key(Seq::empty(), fields.last().0@, opts);
        lemma_leaf_count(fields.last().1, key, 1, opts);
    }
}

/// Where, on top of the root count law's premises, no two of the insertions
/// collide on a key (the caller's separator introduces no ambiguity), the
/// flattened record itself holds exactly one entry per scalar leaf.
pub proof fn lemma_record_leaf_count(v: JsonValue, opts: FlattenOptions)
    requires
        opts.expand_arrays,
        within_depth(v, 0, opts),
        v matches JsonValue::Object(fields) ==> forall|i: int|
            0 <= i < fields@.len() ==> (#[trigger] fields@[i]).0@.len() > 0,
        v is Object || (v is Array && opts.include_array_indices),
        forall|i: int, j: int|
            0 <= i < j < flatten_entries(v, Seq::empty(), 0, opts).len() ==> (
            #[trigger] flatten_entries(v, Seq::empty(), 0, opts)[i]).0 != (
            #[trigger] flatten_entries(v, Seq::empty(), 0, opts)[j]).0,
    ensures
        flat_spec(v, opts).dom().finite(),
        flat_spec(v, opts).dom().len() == leaf_count(v),
{
    lemma_flatten_count(v, opts);
    lemma_record_onto_count(flatten_entries(v, Seq::empty(), 0, opts));
}

/// The nesting height of a value: zero for a scalar, one more than its
/// deepest child for an array or object.
pub open spec fn height_of(v: JsonValue) -> nat
    decreases v,
{
    match v {
        JsonValue::Array(elems) => 1 + elems_height(elems@),
        JsonValue::Object(fields) => 1 + fields_height(fields@),
        _ => 0,
    }
}

/// The deepest height among an array's elements.
pub open spec fn elems_height(elems: Seq<JsonValue>) -> nat
    decreases elems,
{
    if elems.len() == 0 {
        0
    } else {
        let rest = elems_height(elems.drop_last());
        let last = height_of(elems.last());
        if rest >= last {
            rest
        } else {
            last
        }
    }
}

/// The deepest height among an object's entries.
pub open spec fn fields_height(fields: Seq<(String, JsonValue)>) -> nat
    decreases fields,
{
    if fields.len() == 0 {
        0
    } else {
        let rest = fields_height(fields.drop_last());
        let last = height_of(fields.last().1);
        if rest >= last {
            rest
        } else {
            last
        }
    }
}

proof fn lemma_elems_height_bound(elems: Seq<JsonValue>, i: int)
    requires
        0 <= i < elems.len(),
    ensures
        height_of(elems[i]) <= elems_height(elems),
    decreases elems,
{
    if i < elems.len() - 1 {
        lemma_elems_height_bound(elems.drop_last(), i);
    }
}

proof fn lemma_fields_height_bound(fields: Seq<(String, JsonValue)>, i: int)
    requires
        0 <= i < fields.len(),
    ensures
        height_of(fields[i].1) <= fields_height(fields),
    decreases fields,
{
    if i < fields.len() - 1 {
        lemma_fields_height_bound(fields.drop_last(), i);
    }
}

/// A run whose depth limit lies above the depth the value can reach makes
/// the same insertions as a run with no limit at all: with the other options
/// equal, the limit never fires.
pub proof fn lemma_high_limit_unlimited(
    v: JsonValue,
    prefix: Seq<char>,
    depth: int,
    o0: FlattenOptions,
    od: FlattenOptions,
)
    requires
        o0.max_depth == 0,
        od.separator == o0.separator,
        od.include_array_indices == o0.include_array_indices,
        od.expand_arrays == o0.expand_arrays,
        depth >= 0,
        depth + height_of(v) < od.max_depth,
    ensures
        flatten_entries(v, prefix, depth, od) == flatten_entries(v, prefix, depth, o0),
    decreases v,
{
    match v {
        JsonValue::Object(fields) => {
            lemma_high_fields(fields@, prefix, depth, o0, od);
        },
        JsonValue::Array(elems) => {
            if o0.expand_arrays {
                lemma_high_elems(elems@, prefix, depth, o0, od);
            }
        },
        _ => {},
    }
}

proof fn lemma_high_fields(
    fields: Seq<(String, JsonValue)>,
    prefix: Seq<char>,
    depth: int,
    o0: FlattenOptions,
    od: FlattenOptions,
)
    requires
        o0.max_depth == 0,
        od.separator == o0.separator,
        od.include_array_indices == o0.include_array_indices,
        od.expand_arrays == o0.expand_arrays,
        depth >= 0,
        depth + 1 + fields_height(fields) < od.max_depth,
    ensures
        entries_of_fields(fields, prefix, depth, od) == entries_of_fields(
            fields,
            prefix,
            depth,
            o0,
        ),
    decreases fields,
{
    if fields.len() > 0 {
        lemma_high_fields(fields.drop_last(), prefix, depth, o0, od);
        lemma_fields_height_bound(fields, fields.len() - 1);
        lemma_high_limit_unlimited(
            fields.last().1,
            object_key(prefix, fields.last().0@, od),
            depth + 1,
            o0,
            od,
        );
        assert(object_key(prefix, fields.last().0@, od) == object_key(
            prefix,
            fields.last().0@,
            o0,
        ));
    }
}

proof fn lemma_high_elems(
    elems: Seq<JsonValue>,
    prefix: Seq<char>,
    depth: int,
    o0: FlattenOptions,
    od: FlattenOptions,
)
    requires
        o0.max_depth == 0,
        od.separator == o0.separator,
        od.include_array_indices == o0.include_array_indices,
        od.expand_arrays == o0.expand_arrays,
        depth >= 0,
        depth + 1 + elems_height(elems) < od.max_depth,
    ensures
        entries_of_elems(elems, prefix, depth, od) == entries_of_elems(elems, prefix, depth, o0),
    decreases elems,
{
    if elems.len() > 0 {
        lemma_high_elems(elems.drop_last(), prefix, depth, o0, od);
        lemma_elems_height_bound(elems, elems.len() - 1);
        lemma_high_limit_unlimited(
            elems.last(),
            array_key(prefix, elems.len() - 1, od),
            depth + 1,
            o0,
            od,
        );
        assert(array_key(prefix, elems.len() - 1, od) == array_key(
            prefix,
            elems.len() - 1,
            o0,
        ));
    }
}

/// A run with no depth limit flattens exactly as a run whose limit exceeds
/// the value's nesting height, the other options being equal: a limit of
/// zero never truncates, whatever the nesting depth.
pub proof fn lemma_unlimited_like_high_limit(
    v: JsonValue,
    o0: FlattenOptions,
    od: FlattenOptions,
)
    requires
        o0.max_depth == 0,
        od.separator == o0.separator,
        od.include_array_indices == o0.include_array_indices,
        od.expand_arrays == o0.expand_arrays,
        height_of(v) < od.max_depth,
    ensures
        flat_spec(v, od) == flat_spec(v, o0),
{
    lemma_high_limit_unlimited(v, Seq::empty(), 0, o0, od);
}

/// A depth limit of zero never truncates: the cutoff holds at no depth.
pub proof fn lemma_no_cutoff(opts: FlattenOptions)
    requires
        opts.max_depth == 0,
    ensures
        forall|depth: int| !cut_off(opts, depth),
{
}

/// A positive depth limit, reached: the whole subtree is stored as one
/// insertion whose value is its exact JSON serialization, with no descent.
pub proof fn lemma_depth_cutoff(v: JsonValue, prefix: Seq<char>, depth: int, opts: FlattenOptions)
    requires
        opts.max_depth > 0,
        depth >= opts.max_depth,
    ensures
        flatten_entries(v, prefix, depth, opts) == seq![(prefix, ser(v))],
{
}

/// With array expansion off, every array becomes exactly one insertion whose
/// value is the array's exact JSON serialization, at any depth.
pub proof fn lemma_unexpanded_array(
    v: JsonValue,
    prefix: Seq<char>,
    depth: int,
    opts: FlattenOptions,
)
    requires
        !opts.expand_arrays,
        v is Array,
    ensures
        flatten_entries(v, prefix, depth, opts) == seq![(prefix, ser(v))],
{
}

/// An empty object, or an empty array while arrays are expanded, contributes
/// no insertion at all, wherever the cutoff does not reach it first.
pub proof fn lemma_empty_container(
    v: JsonValue,
    prefix: Seq<char>,
    depth: int,
    opts: FlattenOptions,
)
    requires
        !cut_off(opts, depth),
        (v matches JsonValue::Object(fields) && fields@.len() == 0) || (opts.expand_arrays && (
        v matches JsonValue::Array(elems) && elems@.len() == 0)),
    ensures
        flatten_entries(v, prefix, depth, opts) == Seq::<(Seq<char>, Seq<char>)>::empty(),
{
}

/// With indices off, an array element's key is the unchanged prefix, for
/// every index: all siblings collapse onto the one key their parent carries.
pub proof fn lemma_unindexed_element_key(prefix: Seq<char>, index: int, opts: FlattenOptions)
    requires
        !opts.include_array_indices,
    ensures
        array_key(prefix, index, opts) == prefix,
{
}

/// What one scalar element of an array contributes as a value: its canonical
/// form, or its JSON text where the cutoff reaches it.
pub open spec fn scalar_text(v: JsonValue, depth: int, opts: FlattenOptions) -> Seq<char>
    recommends
        v.is_scalar(),
{
    if cut_off(opts, depth) {
        ser(v)
    } else {
        canon_scalar(v)
    }
}

/// With expansion on and indices off, the scalar elements of an array all
/// collapse onto the prefix key, and the stored value is the one contributed
/// by the last element.
pub proof fn lemma_index_collapse(
    v: JsonValue,
    prefix: Seq<char>,
    depth: int,
    opts: FlattenOptions,
    m: Map<Seq<char>, Seq<char>>,
)
    requires
        opts.expand_arrays,
        !opts.include_array_indices,
        !cut_off(opts, depth),
        prefix.len() > 0,
        v matches JsonValue::Array(elems) && elems@.len() > 0 && forall|i: int|
            0 <= i < elems@.len() ==> (#[trigger] elems@[i]).is_scalar(),
    ensures
        record_onto(m, flatten_entries(v, prefix, depth, opts)) == m.insert(
            prefix,
            scalar_text(v->Array_0@.last(), depth + 1, opts),
        ),
{
    let elems = v->Array_0@;
    lemma_collapse_elems(elems, prefix, depth, opts, m);
}

proof fn lemma_collapse_elems(
    elems: Seq<JsonValue>,
    prefix: Seq<char>,
    depth: int,
    opts: FlattenOptions,
    m: Map<Seq<char>, Seq<char>>,
)
    requires
        opts.expand_arrays,
        !opts.include_array_indices,
        prefix.len() > 0,
        elems.len() > 0,
        forall|i: int| 0 <= i < elems.len() ==> (#[trigger] elems[i]).is_scalar(),
    ensures
        record_onto(m, entries_of_elems(elems, prefix, depth, opts)) == m.insert(
            prefix,
            scalar_text(elems.last(), depth + 1, opts),
        ),
    decreases elems,
{
    let last = elems.last();
    let tail_entries = flatten_entries(last, array_key(prefix, elems.len() - 1, opts), depth + 1, opts);
    assert(array_key(prefix, elems.len() - 1, opts) == prefix);
    assert(tail_entries =~= seq![(prefix, scalar_text(last, depth + 1, opts))]);
    lemma_record_onto_app(
        m,
        entries_of_elems(elems.drop_last(), prefix, depth, opts),
        tail_entries,
    );
    if elems.len() == 1 {
        assert(elems.drop_last().len() == 0);
        lemma_record_onto_single(m, prefix, scalar_text(last, depth + 1, opts));
    } else {
        lemma_collapse_elems(elems.drop_last(), prefix, depth, opts, m);
        lemma_record_onto_single(
            m.insert(prefix, scalar_text(elems.drop_last().last(), depth + 1, opts)),
            prefix,
            scalar_text(last, depth + 1, opts),
        );
        assert(m.insert(prefix, scalar_text(elems.drop_last().last(), depth + 1, opts)).insert(
            prefix,
            scalar_text(last, depth + 1, opts),
        ) =~= m.insert(prefix, scalar_text(last, depth + 1, opts)));
    }
}

} // verus!
