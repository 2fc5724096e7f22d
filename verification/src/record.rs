//! The flat record a document is flattened into: a key-value mapping in which
//! a later insertion under the same key overwrites the earlier one.

use vstd::prelude::*;
use vstd::string::StrSliceExecFns;
use crate::text::str_eq;

verus! {

/// A sequence of key-value insertions folded into a map, later insertions
/// overwriting earlier ones under the same key.
pub open spec fn record_onto(
    m: Map<Seq<char>, Seq<char>>,
    es: Seq<(Seq<char>, Seq<char>)>,
) -> Map<Seq<char>, Seq<char>>
    decreases es.len(),
{
    if es.len() == 0 {
        m
    } else {
        record_onto(m, es.drop_last()).insert(es.last().0, es.last().1)
    }
}

/// The views of a vector of owned key-value pairs.
pub open spec fn kv_views(es: Seq<(String, String)>) -> Seq<(Seq<char>, Seq<char>)> {
    es.map_values(|e: (String, String)| (e.0@, e.1@))
}

/// Whether one of the first `upto` insertions carries exactly this key.
pub open spec fn key_listed(es: Seq<(Seq<char>, Seq<char>)>, upto: int, key: Seq<char>) -> bool {
    exists|j: int| 0 <= j < upto && (#[trigger] es[j]).0 == key
}

/// Whether one of the strings in `out` has exactly the characters of `key`.
pub open spec fn holds_key(out: Seq<String>, key: Seq<char>) -> bool {
    exists|i: int| 0 <= i < out.len() && (#[trigger] out[i])@ == key
}

/// A flat record: the result of flattening one JSON document. Its view is the
/// key-value map it stands for; insertion order decides who wins on a clash.
pub struct FlatRecord {
    pub(crate) entries: Vec<(String, String)>,
}

impl View for FlatRecord {
    type V = Map<Seq<char>, Seq<char>>;

    closed spec fn view(&self) -> Map<Seq<char>, Seq<char>> {
        record_onto(Map::empty(), kv_views(self.entries@))
    }
}

/// Folding a concatenation is folding the two halves in turn.
pub proof fn lemma_record_onto_app(
    m: Map<Seq<char>, Seq<char>>,
    a: Seq<(Seq<char>, Seq<char>)>,
    b: Seq<(Seq<char>, Seq<char>)>,
)
    ensures
        record_onto(m, a + b) == record_onto(record_onto(m, a), b),
    decreases b.len(),
{
    if b.len() == 0 {
        assert(a + b =~= a);
    } else {
        lemma_record_onto_app(m, a, b.drop_last());
        assert((a + b).drop_last() =~= a + b.drop_last());
        assert((a + b).last() == b.last());
    }
}

/// Folding a single insertion is inserting it.
pub proof fn lemma_record_onto_single(m: Map<Seq<char>, Seq<char>>, k: Seq<char>, v: Seq<char>)
    ensures
        record_onto(m, seq![(k, v)]) == m.insert(k, v),
{
    assert(seq![(k, v)].drop_last() =~= Seq::<(Seq<char>, Seq<char>)>::empty());
    assert(record_onto(m, seq![(k, v)].drop_last()) == m);
}

/// A key none of the insertions mentions is left exactly as the base map has it.
pub proof fn lemma_record_onto_absent(
    m: Map<Seq<char>, Seq<char>>,
    es: Seq<(Seq<char>, Seq<char>)>,
    k: Seq<char>,
)
    requires
        forall|i: int| 0 <= i < es.len() ==> (#[trigger] es[i]).0 != k,
    ensures
        record_onto(m, es).contains_key(k) == m.contains_key(k),
        m.contains_key(k) ==> record_onto(m, es)[k] == m[k],
    decreases es.len(),
{
    if es.len() > 0 {
        lemma_record_onto_absent(m, es.drop_last(), k);
    }
}

/// The fold maps a key to the value of its last insertion.
pub proof fn lemma_record_onto_found(
    m: Map<Seq<char>, Seq<char>>,
    es: Seq<(Seq<char>, Seq<char>)>,
    k: Seq<char>,
    i: int,
)
    requires
        0 <= i < es.len(),
        es[i].0 == k,
        forall|j: int| i < j < es.len() ==> (#[trigger] es[j]).0 != k,
    ensures
        record_onto(m, es).contains_key(k),
        record_onto(m, es)[k] == es[i].1,
    decreases es.len(),
{
    if i == es.len() - 1 {
    } else {
        lemma_record_onto_found(m, es.drop_last(), k, i);
    }
}

/// The fold's keys are the base map's keys plus the inserted ones.
pub proof fn lemma_record_onto_dom(
    m: Map<Seq<char>, Seq<char>>,
    es: Seq<(Seq<char>, Seq<char>)>,
)
    ensures
        forall|k: Seq<char>| #![trigger record_onto(m, es).contains_key(k)]
            record_onto(m, es).contains_key(k) <==> m.contains_key(k) || key_listed(
                es,
                es.len() as int,
                k,
            ),
    decreases es.len(),
{
    if es.len() > 0 {
        lemma_record_onto_dom(m, es.drop_last());
        assert forall|k: Seq<char>|
            record_onto(m, es).contains_key(k) implies m.contains_key(k) || key_listed(
            es,
            es.len() as int,
            k,
        ) by {
            if k == es.last().0 {
                assert(es[es.len() - 1].0 == k);
            } else {
                assert(record_onto(m, es.drop_last()).contains_key(k));
                if key_listed(es.drop_last(), es.drop_last().len() as int, k) {
                    let i = choose|i: int|
                        0 <= i < es.drop_last().len() && (#[trigger] es.drop_last()[i]).0 == k;
                    assert(es[i].0 == k);
                }
            }
        }
        assert forall|k: Seq<char>|
            m.contains_key(k) || key_listed(es, es.len() as int, k) implies record_onto(
            m,
            es,
        ).contains_key(k) by {
            if key_listed(es, es.len() as int, k) {
                let i = choose|i: int| 0 <= i < es.len() && (#[trigger] es[i]).0 == k;
                if i < es.len() - 1 {
                    assert(es.drop_last()[i].0 == k);
                    assert(key_listed(es.drop_last(), es.drop_last().len() as int, k));
                    assert(record_onto(m, es.drop_last()).contains_key(k));
                }
            } else {
                assert(record_onto(m, es.drop_last()).contains_key(k));
            }
        }
    }
}

/// Where the insertions' keys are pairwise distinct, the fold from the empty
/// map holds exactly one entry per insertion.
pub proof fn lemma_record_onto_count(es: Seq<(Seq<char>, Seq<char>)>)
    requires
        forall|i: int, j: int| 0 <= i < j < es.len() ==> (#[trigger] es[i]).0 != (#[trigger] es[j]).0,
    ensures
        record_onto(Map::empty(), es).dom().finite(),
        record_onto(Map::empty(), es).dom().len() == es.len(),
    decreases es.len(),
{
    if es.len() == 0 {
        assert(record_onto(Map::empty(), es).dom() =~= Set::<Seq<char>>::empty());
    } else {
        let prev = es.drop_last();
        assert(forall|i: int, j: int|
            0 <= i < j < prev.len() ==> (#[trigger] prev[i]).0 != (#[trigger] prev[j]).0);
        lemma_record_onto_count(prev);
        assert(forall|i: int| 0 <= i < prev.len() ==> (#[trigger] prev[i]).0 != es.last().0);
        lemma_record_onto_absent(Map::empty(), prev, es.last().0);
        assert(record_onto(Map::empty(), es).dom() =~= record_onto(
            Map::empty(),
            prev,
        ).dom().insert(es.last().0));
    }
}

/// Folding onto `m` is a right-biased union of `m` with the fold from empty.
pub proof fn lemma_record_onto_as_union(
    m: Map<Seq<char>, Seq<char>>,
    es: Seq<(Seq<char>, Seq<char>)>,
)
    ensures
        record_onto(m, es) == m.union_prefer_right(record_onto(Map::empty(), es)),
    decreases es.len(),
{
    if es.len() == 0 {
        assert(record_onto(m, es) =~= m.union_prefer_right(Map::empty()));
    } else {
        lemma_record_onto_as_union(m, es.drop_last());
        assert(record_onto(m, es) =~= m.union_prefer_right(record_onto(Map::empty(), es)));
    }
}

impl FlatRecord {
    /// An empty record.
    pub fn new() -> (r: FlatRecord)
        ensures
            r@ == Map::<Seq<char>, Seq<char>>::empty(),
    {
        FlatRecord { entries: Vec::new() }
    }

    /// Stores `value` under `key`, overwriting any earlier value for it.
    pub fn insert(&mut self, key: String, value: String)
        ensures
            final(self)@ == old(self)@.insert(key@, value@),
    {
        let ghost k = key@;
        let ghost v = value@;
        self.entries.push((key, value));
        proof {
            assert(kv_views(self.entries@).drop_last() =~= kv_views(old(self).entries@));
            assert(kv_views(self.entries@).last() == (k, v));
        }
    }

    /// Looks a key up: the value of its last insertion, if any.
    pub fn get(&self, key: &str) -> (r: Option<&String>)
        ensures
            match r {
                Some(v) => self@.contains_key(key@) && v@ == self@[key@],
                None => !self@.contains_key(key@),
            },
    {
        let n = self.entries.len();
        let mut i: usize = n;
        while i > 0
            invariant
                i <= n,
                n == self.entries@.len(),
                forall|j: int|
                    i <= j < n ==> (#[trigger] kv_views(self.entries@)[j]).0 != key@,
            decreases i,
        {
            i = i - 1;
            let e = &self.entries[i];
            if str_eq(e.0.as_str(), key) {
                proof {
                    lemma_record_onto_found(
                        Map::empty(),
                        kv_views(self.entries@),
                        key@,
                        i as int,
                    );
                }
                return Some(&e.1);
            }
        }
        proof {
            lemma_record_onto_absent(Map::empty(), kv_views(self.entries@), key@);
        }
        None
    }

    /// Merges `other` into `self`; on a clash the value of `other` wins.
    pub fn extend(&mut self, other: &FlatRecord)
        ensures
            final(self)@ == old(self)@.union_prefer_right(other@),
    {
        let n = other.entries.len();
        let mut j: usize = 0;
        proof {
            assert(kv_views(other.entries@).subrange(0, 0) =~= Seq::<
                (Seq<char>, Seq<char>),
            >::empty());
            assert(self@ =~= old(self)@.union_prefer_right(
                record_onto(Map::empty(), kv_views(other.entries@).subrange(0, 0)),
            ));
        }
        while j < n
            invariant
                j <= n,
                n == other.entries@.len(),
                self@ == old(self)@.union_prefer_right(
                    record_onto(Map::empty(), kv_views(other.entries@).subrange(0, j as int)),
                ),
            decreases n - j,
        {
            let e = &other.entries[j];
            let k = e.0.clone();
            let v = e.1.clone();
            self.insert(k, v);
            proof {
                let kvs = kv_views(other.entries@);
                assert(kvs.subrange(0, j + 1).drop_last() =~= kvs.subrange(0, j as int));
                assert(kvs.subrange(0, j + 1).last() == kvs[j as int]);
                assert(record_onto(Map::empty(), kvs.subrange(0, j + 1)) == record_onto(
                    Map::empty(),
                    kvs.subrange(0, j as int),
                ).insert(kvs[j as int].0, kvs[j as int].1));
                assert(self@ =~= old(self)@.union_prefer_right(
                    record_onto(Map::empty(), kvs.subrange(0, j + 1)),
                ));
            }
            j = j + 1;
        }
        proof {
            assert(kv_views(other.entries@).subrange(0, n as int) =~= kv_views(other.entries@));
        }
    }

    /// The distinct keys of the record, each exactly once.
    pub fn keys(&self) -> (r: Vec<String>)
        ensures
            forall|i: int, j: int|
                0 <= i < j < r@.len() ==> (#[trigger] r@[i])@ != (#[trigger] r@[j])@,
            forall|i: int| 0 <= i < r@.len() ==> self@.contains_key((#[trigger] r@[i])@),
            forall|k: Seq<char>|
                self@.contains_key(k) ==> exists|i: int|
                    0 <= i < r@.len() && (#[trigger] r@[i])@ == k,
    {
        let n = self.entries.len();
        let mut out: Vec<String> = Vec::new();
        let mut idx: usize = 0;
        while idx < n
            invariant
                idx <= n,
                n == self.entries@.len(),
                forall|i: int, j: int|
                    0 <= i < j < out@.len() ==> (#[trigger] out@[i])@ != (#[trigger] out@[j])@,
                forall|i: int|
                    0 <= i < out@.len() ==> key_listed(
                        kv_views(self.entries@),
                        n as int,
                        (#[trigger] out@[i])@,
                    ),
                forall|j: int|
                    0 <= j < idx ==> holds_key(
                        out@,
                        (#[trigger] kv_views(self.entries@)[j]).0,
                    ),
            decreases n - idx,
        {
            let e = &self.entries[idx];
            let ghost prev = out@;
            proof {
                let entry_view = self.entries@[idx as int];
                assert(kv_views(self.entries@)[idx as int] == (entry_view.0@, entry_view.1@));
            }
            if !contains_str(&out, e.0.as_str()) {
                out.push(e.0.clone());
                proof {
                    assert(out@[prev.len() as int]@ == kv_views(self.entries@)[idx as int].0);
                    assert(forall|i: int| 0 <= i < prev.len() ==> out@[i] == prev[i]);
                    assert(key_listed(
                        kv_views(self.entries@),
                        n as int,
                        out@[prev.len() as int]@,
                    ));
                }
            }
            proof {
                assert forall|j: int| 0 <= j < idx + 1 implies holds_key(
                    out@,
                    (#[trigger] kv_views(self.entries@)[j]).0,
                ) by {
                    let key = kv_views(self.entries@)[j].0;
                    if j < idx {
                        assert(holds_key(prev, key));
                        let i = choose|i: int| 0 <= i < prev.len() && (#[trigger] prev[i])@ == key;
                        assert(out@[i]@ == key);
                    } else {
                        if out@ == prev {
                            let i = choose|i: int|
                                0 <= i < prev.len() && (#[trigger] prev[i])@ == key;
                            assert(out@[i]@ == key);
                        } else {
                            assert(out@[prev.len() as int]@ == key);
                        }
                    }
                }
            }
            idx = idx + 1;
        }
        proof {
            assert(kv_views(self.entries@).len() == self.entries@.len());
            lemma_record_onto_dom(Map::empty(), kv_views(self.entries@));
            assert forall|i: int| 0 <= i < out@.len() implies self@.contains_key(
                (#[trigger] out@[i])@,
            ) by {
                assert(key_listed(kv_views(self.entries@), n as int, out@[i]@));
                let j = choose|j: int|
                    0 <= j < n && (#[trigger] kv_views(self.entries@)[j]).0 == out@[i]@;
                assert(kv_views(self.entries@)[j].0 == out@[i]@);
            }
            assert forall|k: Seq<char>| self@.contains_key(k) implies exists|i: int|
                0 <= i < out@.len() && (#[trigger] out@[i])@ == k by {
                let j = choose|j: int|
                    0 <= j < kv_views(self.entries@).len() && (#[trigger] kv_views(
                        self.entries@,
                    )[j]).0 == k;
                assert(holds_key(out@, k));
                let i = choose|i: int| 0 <= i < out@.len() && (#[trigger] out@[i])@ == k;
                assert(out@[i]@ == k);
            }
        }
        out
    }
}

/// Whether one of the strings in `v` has exactly the characters of `s`.
pub(crate) fn contains_str(v: &Vec<String>, s: &str) -> (r: bool)
    ensures
        r == exists|i: int| 0 <= i < v@.len() && (#[trigger] v@[i])@ == s@,
{
    let n = v.len();
    let mut i: usize = 0;
    while i < n
        invariant
            i <= n,
            n == v@.len(),
            forall|j: int| 0 <= j < i ==> (#[trigger] v@[j])@ != s@,
        decreases n - i,
    {
        if str_eq(v[i].as_str(), s) {
            return true;
        }
        i = i + 1;
    }
    false
}

} // verus!
