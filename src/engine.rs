//! The embedded ordered key-value engine: named records of bytes, read and
//! written by key, and scanned by key prefix.

use vstd::prelude::*;
use vstd::string::{StrSliceExecFns, StringExecFns};

verus! {

/// The records of a store, by key.
pub type Store = Map<Seq<char>, Seq<u8>>;

/// The partition that holds the raft records and the cluster data.
pub const DB_COLUMN_FAMILY_CLUSTER: &'static str = "cluster";

/// The names of the partitions that the engine keeps.
pub fn column_family_list() -> (r: Vec<String>)
    ensures
        r@.len() == 1,
        r@[0]@ == DB_COLUMN_FAMILY_CLUSTER@,
{
    let mut list: Vec<String> = Vec::new();
    list.push(String::from_str(DB_COLUMN_FAMILY_CLUSTER));
    list
}

/// Whether `p` is a prefix of `s`.
pub open spec fn has_prefix(s: Seq<char>, p: Seq<char>) -> bool {
    p.len() <= s.len() && s.subrange(0, p.len() as int) == p
}

/// Whether `s` starts with `p`.
pub fn starts_with(s: &str, p: &str) -> (r: bool)
    ensures
        r == has_prefix(s@, p@),
{
    let n = s.unicode_len();
    let m = p.unicode_len();
    if m > n {
        return false;
    }
    let mut i: usize = 0;
    while i < m
        invariant
            m == p@.len(),
            n == s@.len(),
            m <= n,
            i <= m,
            forall|j: int| 0 <= j < i ==> s@[j] == p@[j],
        decreases m - i,
    {
        if s.get_char(i) != p.get_char(i) {
            proof {
                assert(s@.subrange(0, m as int)[i as int] != p@[i as int]);
            }
            return false;
        }
        i = i + 1;
    }
    proof {
        assert(s@.subrange(0, m as int) =~= p@);
    }
    true
}

/// The records of `v` as plain values.
pub open spec fn pairs_of(v: Seq<(String, Vec<u8>)>) -> Seq<(Seq<char>, Seq<u8>)> {
    v.map_values(|p: (String, Vec<u8>)| (p.0@, p.1@))
}

/// `s` lists each record of `m` exactly once.
pub open spec fn lists(s: Seq<(Seq<char>, Seq<u8>)>, m: Map<Seq<char>, Seq<u8>>) -> bool {
    &&& forall|i: int, j: int| 0 <= i < s.len() && 0 <= j < s.len() && i != j ==> s[i].0 != s[j].0
    &&& forall|i: int| 0 <= i < s.len() ==> #[trigger] m.contains_key(s[i].0) && m[s[i].0] == s[i].1
    &&& forall|k: Seq<char>| #[trigger] m.contains_key(k) ==> exists|i: int| 0 <= i < s.len() && s[i].0 == k
}

/// The records of `m` whose key starts with `p`.
pub open spec fn prefix_part(m: Map<Seq<char>, Seq<u8>>, p: Seq<char>) -> Map<Seq<char>, Seq<u8>> {
    Map::new(|k: Seq<char>| m.contains_key(k) && has_prefix(k, p), |k: Seq<char>| m[k])
}

/// A copy of the bytes of `v`.
pub fn copy_bytes(v: &Vec<u8>) -> (r: Vec<u8>)
    ensures
        r@ == v@,
{
    let mut out: Vec<u8> = Vec::new();
    let mut i: usize = 0;
    while i < v.len()
        invariant
            i <= v@.len(),
            out@ == v@.subrange(0, i as int),
        decreases v@.len() - i,
    {
        out.push(v[i]);
        proof {
            assert(v@.subrange(0, i + 1) =~= v@.subrange(0, i as int).push(v@[i as int]));
        }
        i = i + 1;
    }
    proof {
        assert(v@.subrange(0, v@.len() as int) =~= v@);
    }
    out
}

/// An in-memory ordered store of byte records keyed by path-like strings.
pub struct RocksDBEngine {
    records: Vec<(String, Vec<u8>)>,
}

impl RocksDBEngine {
    /// The record of key `k`, as a map.
    pub closed spec fn view(&self) -> Map<Seq<char>, Seq<u8>> {
        Map::new(
            |k: Seq<char>| exists|i: int| 0 <= i < self.records@.len() && self.records@[i].0@ == k,
            |k: Seq<char>|
                self.records@[choose|i: int|
                    0 <= i < self.records@.len() && self.records@[i].0@ == k].1@,
        )
    }

    /// Keys are unique among the records.
    pub closed spec fn wf(&self) -> bool {
        forall|i: int, j: int|
            0 <= i < self.records@.len() && 0 <= j < self.records@.len() && i != j
                ==> self.records@[i].0@ != self.records@[j].0@
    }

    proof fn lemma_view_at(&self, i: int)
        requires
            self.wf(),
            0 <= i < self.records@.len(),
        ensures
            self.view().contains_key(self.records@[i].0@),
            self.view()[self.records@[i].0@] == self.records@[i].1@,
    {
        let k = self.records@[i].0@;
        assert(self.view().dom().contains(k));
        let j = choose|j: int| 0 <= j < self.records@.len() && self.records@[j].0@ == k;
        assert(j == i);
    }

    /// An empty store.
    pub fn new() -> (r: Self)
        ensures
            r.wf(),
            r.view() == Map::<Seq<char>, Seq<u8>>::empty(),
    {
        let r = RocksDBEngine { records: Vec::new() };
        assert(r.view() =~= Map::<Seq<char>, Seq<u8>>::empty());
        r
    }

    fn find(&self, key: &String) -> (r: Option<usize>)
        requires
            self.wf(),
        ensures
            match r {
                Some(i) => i < self.records@.len() && self.records@[i as int].0@ == key@,
                None => !self.view().contains_key(key@),
            },
    {
        let mut i: usize = 0;
        while i < self.records.len()
            invariant
                i <= self.records@.len(),
                forall|j: int| 0 <= j < i ==> self.records@[j].0@ != key@,
            decreases self.records@.len() - i,
        {
            if self.records[i].0 == *key {
                return Some(i);
            }
            i = i + 1;
        }
        None
    }

    /// Stores `value` under `key`, replacing what was there.
    pub fn write(&mut self, key: &str, value: Vec<u8>)
        requires
            old(self).wf(),
        ensures
            final(self).wf(),
            final(self).view() == old(self).view().insert(key@, value@),
    {
        let k = key.to_owned();
        let ghost before = self.view();
        let ghost v = value@;
        match self.find(&k) {
            Some(i) => {
                self.records.set(i, (k, value));
                proof {
                    assert forall|a: int, b: int|
                        0 <= a < self.records@.len() && 0 <= b < self.records@.len() && a != b
                            implies self.records@[a].0@ != self.records@[b].0@ by {}
                    assert forall|a: int| 0 <= a < self.records@.len() && a != i implies self.records@[a]
                        == old(self).records@[a] by {}
                    assert forall|q: Seq<char>| #[trigger]
                        before.insert(key@, v).contains_key(q) implies self.view().contains_key(
                            q,
                        ) by {
                        if q == key@ {
                            assert(self.records@[i as int].0@ == q);
                        } else {
                            let j = choose|j: int|
                                0 <= j < old(self).records@.len() && old(self).records@[j].0@ == q;
                            assert(self.records@[j].0@ == q);
                        }
                    }
                    assert forall|q: Seq<char>| #[trigger]
                        self.view().contains_key(q) implies before.insert(key@, v).contains_key(
                            q,
                        ) by {
                        let j = choose|j: int|
                            0 <= j < self.records@.len() && self.records@[j].0@ == q;
                        if j != i {
                            assert(old(self).records@[j].0@ == q);
                        }
                    }
                    assert forall|q: Seq<char>| #[trigger]
                        self.view().contains_key(q) implies self.view()[q] == before.insert(
                            key@,
                            v,
                        )[q] by {
                        let j = choose|j: int|
                            0 <= j < self.records@.len() && self.records@[j].0@ == q;
                        self.lemma_view_at(j);
                        if j != i {
                            old(self).lemma_view_at(j);
                        }
                    }
                    assert(self.view() =~= before.insert(key@, v));
                }
            },
            None => {
                self.records.push((k, value));
                proof {
                    let n = old(self).records@.len() as int;
                    assert(self.records@.len() == n + 1);
                    assert(self.records@[n].0@ == key@);
                    assert forall|a: int| 0 <= a < n implies self.records@[a] == old(
                        self,
                    ).records@[a] by {}
                    assert forall|a: int, b: int|
                        0 <= a < self.records@.len() && 0 <= b < self.records@.len() && a != b
                            implies self.records@[a].0@ != self.records@[b].0@ by {
                        if a == n {
                            assert(old(self).view().contains_key(old(self).records@[b].0@));
                        } else if b == n {
                            assert(old(self).view().contains_key(old(self).records@[a].0@));
                        }
                    }
                    assert forall|q: Seq<char>| #[trigger]
                        before.insert(key@, v).contains_key(q) implies self.view().contains_key(
                            q,
                        ) by {
                        if q == key@ {
                            assert(self.records@[n].0@ == q);
                        } else {
                            let j = choose|j: int|
                                0 <= j < old(self).records@.len() && old(self).records@[j].0@ == q;
                            assert(self.records@[j].0@ == q);
                        }
                    }
                    assert forall|q: Seq<char>| #[trigger]
                        self.view().contains_key(q) implies before.insert(key@, v).contains_key(
                            q,
                        ) by {
                        let j = choose|j: int|
                            0 <= j < self.records@.len() && self.records@[j].0@ == q;
                        if j < n {
                            assert(old(self).records@[j].0@ == q);
                        }
                    }
                    assert forall|q: Seq<char>| #[trigger]
                        self.view().contains_key(q) implies self.view()[q] == before.insert(
                            key@,
                            v,
                        )[q] by {
                        let j = choose|j: int|
                            0 <= j < self.records@.len() && self.records@[j].0@ == q;
                        self.lemma_view_at(j);
                        if j != n {
                            old(self).lemma_view_at(j);
                        }
                    }
                    assert(self.view() =~= before.insert(key@, v));
                }
            },
        }
    }

    /// The record stored under `key`.
    pub fn read(&self, key: &str) -> (r: Option<Vec<u8>>)
        requires
            self.wf(),
        ensures
            match r {
                Some(v) => self.view().contains_key(key@) && v@ == self.view()[key@],
                None => !self.view().contains_key(key@),
            },
    {
        let k = key.to_owned();
        match self.find(&k) {
            Some(i) => {
                proof {
                    self.lemma_view_at(i as int);
                }
                Some(copy_bytes(&self.records[i].1))
            },
            None => None,
        }
    }

    /// Whether a record is stored under `key`.
    pub fn exist(&self, key: &str) -> (r: bool)
        requires
            self.wf(),
        ensures
            r == self.view().contains_key(key@),
    {
        let k = key.to_owned();
        match self.find(&k) {
            Some(i) => {
                proof {
                    self.lemma_view_at(i as int);
                }
                true
            },
            None => false,
        }
    }

    /// Removes the record stored under `key`, if any.
    pub fn delete(&mut self, key: &str)
        requires
            old(self).wf(),
        ensures
            final(self).wf(),
            final(self).view() == old(self).view().remove(key@),
    {
        let k = key.to_owned();
        let ghost before = self.view();
        match self.find(&k) {
            Some(i) => {
                self.records.remove(i);
                proof {
                    let o = old(self).records@;
                    assert forall|a: int| 0 <= a < self.records@.len() implies #[trigger] self.records@[a]
                        == o[if a < i { a } else { a + 1 }] by {}
                    assert forall|a: int, b: int|
                        0 <= a < self.records@.len() && 0 <= b < self.records@.len() && a != b
                            implies self.records@[a].0@ != self.records@[b].0@ by {
                        assert(self.records@[a] == o[if a < i { a } else { a + 1 }]);
                        assert(self.records@[b] == o[if b < i { b } else { b + 1 }]);
                    }
                    assert forall|q: Seq<char>| #[trigger]
                        before.remove(key@).contains_key(q) implies self.view().contains_key(q) by {
                        let j = choose|j: int| 0 <= j < o.len() && o[j].0@ == q;
                        assert(j != i);
                        let a = if j < i { j } else { j - 1 };
                        assert(self.records@[a] == o[if a < i { a } else { a + 1 }]);
                        assert(self.records@[a].0@ == q);
                    }
                    assert forall|q: Seq<char>| #[trigger]
                        self.view().contains_key(q) implies before.remove(key@).contains_key(q) by {
                        let a = choose|a: int| 0 <= a < self.records@.len() && self.records@[a].0@ == q;
                        let j = if a < i { a } else { a + 1 };
                        assert(self.records@[a] == o[j]);
                        assert(o[j].0@ == q);
                        assert(j != i);
                    }
                    assert forall|q: Seq<char>| #[trigger]
                        self.view().contains_key(q) implies self.view()[q] == before.remove(key@)[q] by {
                        let a = choose|a: int| 0 <= a < self.records@.len() && self.records@[a].0@ == q;
                        let j = if a < i { a } else { a + 1 };
                        assert(self.records@[a] == o[j]);
                        self.lemma_view_at(a);
                        old(self).lemma_view_at(j);
                    }
                    assert(self.view() =~= before.remove(key@));
                }
            },
            None => {
                assert(self.view() =~= before.remove(key@));
            },
        }
    }

    /// Stores the text `value` under `key`, as its UTF-8 bytes.
    pub fn write_str(&mut self, key: &str, value: String)
        requires
            old(self).wf(),
        ensures
            final(self).wf(),
            final(self).view() == old(self).view().insert(key@, vstd::utf8::encode_utf8(value@)),
    {
        let bytes = value.as_str().as_bytes_vec();
        self.write(key, bytes);
    }

    spec fn copied_from(&self, e: (String, Vec<u8>), bound: int) -> bool {
        exists|j: int| 0 <= j < bound && self.records@[j].0@ == e.0@ && self.records@[j].1@ == e.1@
    }

    proof fn lemma_records_list(&self)
        requires
            self.wf(),
        ensures
            lists(pairs_of(self.records@), self.view()),
    {
        let s = pairs_of(self.records@);
        assert forall|i: int| 0 <= i < s.len() implies #[trigger] self.view().contains_key(s[i].0)
            && self.view()[s[i].0] == s[i].1 by {
            self.lemma_view_at(i);
        }
        assert forall|k: Seq<char>| #[trigger] self.view().contains_key(k) implies exists|i: int|
            0 <= i < s.len() && s[i].0 == k by {
            let i = choose|i: int| 0 <= i < self.records@.len() && self.records@[i].0@ == k;
            assert(s[i].0 == k);
        }
    }

    /// Every record whose key starts with `search_key`, each once.
    pub fn read_prefix(&self, search_key: &str) -> (r: Vec<(String, Vec<u8>)>)
        requires
            self.wf(),
        ensures
            lists(pairs_of(r@), prefix_part(self.view(), search_key@)),
    {
        let mut out: Vec<(String, Vec<u8>)> = Vec::new();
        let mut i: usize = 0;
        let ghost m = prefix_part(self.view(), search_key@);
        while i < self.records.len()
            invariant
                self.wf(),
                i <= self.records@.len(),
                m == prefix_part(self.view(), search_key@),
                forall|a: int, b: int|
                    0 <= a < out@.len() && 0 <= b < out@.len() && a != b ==> out@[a].0@ != out@[b].0@,
                forall|a: int| 0 <= a < out@.len() ==> self.copied_from(#[trigger] out@[a], i as int),
                forall|a: int| 0 <= a < out@.len() ==> has_prefix(#[trigger] out@[a].0@, search_key@),
                forall|j: int| 0 <= j < i && has_prefix(#[trigger] self.records@[j].0@, search_key@) ==> exists|a: int| 0 <= a < out@.len() && out@[a].0@ == self.records@[j].0@,
            decreases self.records@.len() - i,
        {
            if starts_with(self.records[i].0.as_str(), search_key) {
                let k = self.records[i].0.clone();
                let v = copy_bytes(&self.records[i].1);
                let ghost before = out@;
                out.push((k, v));
                proof {
                    let n = before.len() as int;
                    assert(out@[n].0@ == self.records@[i as int].0@);
                    assert forall|a: int, b: int|
                        0 <= a < out@.len() && 0 <= b < out@.len() && a != b implies out@[a].0@ != out@[b].0@ by {
                        if a == n || b == n {
                            let c = if a == n { b } else { a };
                            assert(out@[c] == before[c]);
                            assert(self.copied_from(before[c], i as int));
                            let j = choose|j: int| 0 <= j < i && self.records@[j].0@ == before[c].0@ && self.records@[j].1@ == before[c].1@;
                            assert(j != i);
                        }
                    }
                    assert forall|a: int| 0 <= a < out@.len() implies self.copied_from(#[trigger] out@[a], i + 1) by {
                        if a == n {
                            assert(self.records@[i as int].0@ == out@[a].0@);
                        } else {
                            assert(out@[a] == before[a]);
                            assert(self.copied_from(before[a], i as int));
                        }
                    }
                    assert forall|j: int| 0 <= j < i + 1 && has_prefix(#[trigger] self.records@[j].0@, search_key@) implies exists|a: int| 0 <= a < out@.len() && out@[a].0@ == self.records@[j].0@ by {
                        if j == i {
                            assert(out@[n].0@ == self.records@[j].0@);
                        } else {
                            let a = choose|a: int| 0 <= a < before.len() && before[a].0@ == self.records@[j].0@;
                            assert(out@[a] == before[a]);
                        }
                    }
                }
            }
            i = i + 1;
        }
        proof {
            let s = pairs_of(out@);
            assert forall|a: int| 0 <= a < s.len() implies #[trigger] m.contains_key(s[a].0) && m[s[a].0] == s[a].1 by {
                assert(self.copied_from(out@[a], i as int));
                let j = choose|j: int| 0 <= j < i && self.records@[j].0@ == out@[a].0@ && self.records@[j].1@ == out@[a].1@;
                self.lemma_view_at(j);
            }
            assert forall|k: Seq<char>| #[trigger] m.contains_key(k) implies exists|a: int| 0 <= a < s.len() && s[a].0 == k by {
                let j = choose|j: int| 0 <= j < self.records@.len() && self.records@[j].0@ == k;
                let a = choose|a: int| 0 <= a < out@.len() && out@[a].0@ == self.records@[j].0@;
                assert(s[a].0 == k);
            }
        }
        out
    }

    /// Every record of the store, each once.
    pub fn read_all_by_cf(&self) -> (r: Vec<(String, Vec<u8>)>)
        requires
            self.wf(),
        ensures
            lists(pairs_of(r@), self.view()),
    {
        let mut out: Vec<(String, Vec<u8>)> = Vec::new();
        let mut i: usize = 0;
        while i < self.records.len()
            invariant
                i <= self.records@.len(),
                out@.len() == i,
                forall|a: int| 0 <= a < i ==> #[trigger] out@[a].0@ == self.records@[a].0@ && out@[a].1@ == self.records@[a].1@,
            decreases self.records@.len() - i,
        {
            let k = self.records[i].0.clone();
            let v = copy_bytes(&self.records[i].1);
            out.push((k, v));
            i = i + 1;
        }
        proof {
            self.lemma_records_list();
            assert(pairs_of(out@) =~= pairs_of(self.records@));
        }
        out
    }

    /// Every record of every partition, each once.
    pub fn read_all(&self) -> (r: Vec<(String, Vec<u8>)>)
        requires
            self.wf(),
        ensures
            lists(pairs_of(r@), self.view()),
    {
        self.read_all_by_cf()
    }
}

} // verus!
