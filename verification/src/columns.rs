//! Pivoting an ordered sequence of flat records into named columns, ready
//! for tabular consumption.

use vstd::prelude::*;
use vstd::string::{StrSliceExecFns, StringExecFns};
use crate::record::{FlatRecord, contains_str, holds_key};

verus! {

/// Whether some record in the sequence has this key.
pub open spec fn key_of_some(records: Seq<FlatRecord>, k: Seq<char>) -> bool {
    exists|r: int| 0 <= r < records.len() && (#[trigger] records[r])@.contains_key(k)
}

/// Pivots the records into columns: one column per distinct key, in order of
/// first appearance; each column holds one value per record, in record order,
/// with `missing` standing in where a record lacks the key.
#[verifier::loop_isolation(false)]
pub fn to_columns(records: &Vec<FlatRecord>, missing: &str) -> (r: Vec<(String, Vec<String>)>)
    ensures
        forall|c1: int, c2: int|
            0 <= c1 < c2 < r@.len() ==> (#[trigger] r@[c1]).0@ != (#[trigger] r@[c2]).0@,
        forall|c: int| 0 <= c < r@.len() ==> key_of_some(records@, (#[trigger] r@[c]).0@),
        forall|j: int, k: Seq<char>|
            0 <= j < records@.len() && #[trigger] records@[j]@.contains_key(k) ==> exists|c: int|
                0 <= c < r@.len() && (#[trigger] r@[c]).0@ == k,
        forall|c: int| 0 <= c < r@.len() ==> (#[trigger] r@[c]).1@.len() == records@.len(),
        forall|c: int, j: int|
            0 <= c < r@.len() && 0 <= j < records@.len() ==> (#[trigger] r@[c].1@[j])@ == (
            if records@[j]@.contains_key(r@[c].0@) {
                records@[j]@[r@[c].0@]
            } else {
                missing@
            }),
{
    let nrec = records.len();
    let mut names: Vec<String> = Vec::new();
    let mut j: usize = 0;
    while j < nrec
        invariant
            j <= nrec,
            forall|c1: int, c2: int|
                0 <= c1 < c2 < names@.len() ==> (#[trigger] names@[c1])@ != (
                #[trigger] names@[c2])@,
            forall|c: int| 0 <= c < names@.len() ==> key_of_some(records@, (#[trigger] names@[c])@),
            forall|t: int, k: Seq<char>|
                0 <= t < j && #[trigger] records@[t]@.contains_key(k) ==> holds_key(names@, k),
        decreases nrec - j,
    {
        let ks = records[j].keys();
        let m = ks.len();
        let mut t: usize = 0;
        while t < m
            invariant
                t <= m,
                j < nrec,
                m == ks@.len(),
                forall|i: int| 0 <= i < m ==> records@[j as int]@.contains_key((#[trigger] ks@[i])@),
                forall|k: Seq<char>|
                    records@[j as int]@.contains_key(k) ==> exists|i: int|
                        0 <= i < m && (#[trigger] ks@[i])@ == k,
                forall|c1: int, c2: int|
                    0 <= c1 < c2 < names@.len() ==> (#[trigger] names@[c1])@ != (
                    #[trigger] names@[c2])@,
                forall|c: int|
                    0 <= c < names@.len() ==> key_of_some(records@, (#[trigger] names@[c])@),
                forall|s: int, k: Seq<char>|
                    0 <= s < j && #[trigger] records@[s]@.contains_key(k) ==> holds_key(
                        names@,
                        k,
                    ),
                forall|i: int| 0 <= i < t ==> holds_key(names@, (#[trigger] ks@[i])@),
            decreases m - t,
        {
            let ghost prev = names@;
            if !contains_str(&names, ks[t].as_str()) {
                names.push(ks[t].clone());
                proof {
                    assert(names@[prev.len() as int]@ == ks@[t as int]@);
                    assert(forall|i: int| 0 <= i < prev.len() ==> names@[i] == prev[i]);
                    assert forall|s: int, k: Seq<char>|
                        0 <= s < j && #[trigger] records@[s]@.contains_key(k) implies holds_key(
                        names@,
                        k,
                    ) by {
                        let i = choose|i: int| 0 <= i < prev.len() && (#[trigger] prev[i])@ == k;
                        assert(names@[i]@ == k);
                    }
                    assert forall|i: int| 0 <= i < t + 1 implies holds_key(
                        names@,
                        (#[trigger] ks@[i])@,
                    ) by {
                        if i < t {
                            let c = choose|c: int|
                                0 <= c < prev.len() && (#[trigger] prev[c])@ == ks@[i]@;
                            assert(names@[c]@ == ks@[i]@);
                        } else {
                            assert(names@[prev.len() as int]@ == ks@[i]@);
                        }
                    }
                }
            } else {
                proof {
                    assert forall|i: int| 0 <= i < t + 1 implies holds_key(
                        names@,
                        (#[trigger] ks@[i])@,
                    ) by {
                    }
                }
            }
            t = t + 1;
        }
        proof {
            assert forall|s: int, k: Seq<char>|
                0 <= s < j + 1 && #[trigger] records@[s]@.contains_key(k) implies holds_key(
                names@,
                k,
            ) by {
                if s == j {
                    let i = choose|i: int| 0 <= i < m && (#[trigger] ks@[i])@ == k;
                    assert(holds_key(names@, ks@[i]@));
                }
            }
        }
        j = j + 1;
    }
    let ncol = names.len();
    let mut out: Vec<(String, Vec<String>)> = Vec::new();
    let mut c: usize = 0;
    while c < ncol
        invariant
            c <= ncol,
            out@.len() == c,
            ncol == names@.len(),
            forall|x: int| 0 <= x < c ==> (#[trigger] out@[x]).0 == names@[x],
            forall|x: int| 0 <= x < c ==> (#[trigger] out@[x]).1@.len() == records@.len(),
            forall|x: int, t: int|
                0 <= x < c && 0 <= t < records@.len() ==> (#[trigger] out@[x].1@[t])@ == (
                if records@[t]@.contains_key(out@[x].0@) {
                    records@[t]@[out@[x].0@]
                } else {
                    missing@
                }),
        decreases ncol - c,
    {
        let name = &names[c];
        let mut col: Vec<String> = Vec::new();
        let mut t: usize = 0;
        while t < nrec
            invariant
                t <= nrec,
                col@.len() == t,
                forall|s: int|
                    0 <= s < t ==> ((#[trigger] col@[s])@) == (
                    if records@[s]@.contains_key(name@) {
                        records@[s]@[name@]
                    } else {
                        missing@
                    }),
            decreases nrec - t,
        {
            match records[t].get(name.as_str()) {
                Some(v) => {
                    col.push(v.clone());
                },
                None => {
                    col.push(missing.to_owned());
                },
            }
            t = t + 1;
        }
        out.push((name.clone(), col));
        c = c + 1;
    }
    proof {
        assert forall|j0: int, k: Seq<char>|
            0 <= j0 < records@.len() && #[trigger] records@[j0]@.contains_key(k) implies exists|
            cc: int,
        | 0 <= cc < out@.len() && (#[trigger] out@[cc]).0@ == k by {
            assert(holds_key(names@, k));
            let i = choose|i: int| 0 <= i < names@.len() && (#[trigger] names@[i])@ == k;
            assert(out@[i].0@ == k);
        }
    }
    out
}

} // verus!
