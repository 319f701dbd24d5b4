//! The full dump of the key-value namespace carried by a snapshot.

use crate::engine::{lists, pairs_of};
use vstd::prelude::*;

verus! {

/// What bincode writes for a list of records.
pub uninterp spec fn dump_encoding(d: Seq<(Seq<char>, Seq<u8>)>) -> Seq<u8>;

/// What bincode reads back from bytes, if they hold a list of records.
pub uninterp spec fn dump_decoding(b: Seq<u8>) -> Option<Seq<(Seq<char>, Seq<u8>)>>;

/// Relies on `bincode::serialize`: it encodes any list of string/byte pairs
/// (it has no size limit in its default options) and `bincode::deserialize`
/// reads the same list back from what it wrote.
#[verifier::external_body]
pub(crate) fn dump_bytes(records: &Vec<(String, Vec<u8>)>) -> (r: Vec<u8>)
    ensures
        r@ == dump_encoding(pairs_of(records@)),
        dump_decoding(r@) == Some(pairs_of(records@)),
{
    bincode::serialize(records).unwrap_or_default()
}

/// Relies on `bincode::deserialize` for a list of string/byte pairs; its
/// error becomes `None`.
#[verifier::external_body]
pub(crate) fn dump_records(b: &Vec<u8>) -> (r: Option<Vec<(String, Vec<u8>)>>)
    ensures
        match r {
            Some(v) => dump_decoding(b@) == Some(pairs_of(v@)),
            None => dump_decoding(b@) is None,
        },
{
    bincode::deserialize::<Vec<(String, Vec<u8>)>>(b).ok()
}

/// `m` after storing each record of `d` in turn.
pub open spec fn write_pairs(m: Map<Seq<char>, Seq<u8>>, d: Seq<(Seq<char>, Seq<u8>)>) -> Map<
    Seq<char>,
    Seq<u8>,
>
    decreases d.len(),
{
    if d.len() == 0 {
        m
    } else {
        write_pairs(m.insert(d[0].0, d[0].1), d.drop_first())
    }
}

pub proof fn lemma_write_pairs_push(m: Map<Seq<char>, Seq<u8>>, d: Seq<(Seq<char>, Seq<u8>)>, p: (Seq<char>, Seq<u8>))
    ensures
        write_pairs(m, d.push(p)) == write_pairs(m, d).insert(p.0, p.1),
    decreases d.len(),
{
    if d.len() == 0 {
        assert(d.push(p).drop_first() =~= Seq::<(Seq<char>, Seq<u8>)>::empty());
        assert(d.push(p)[0] == p);
        assert(write_pairs(m.insert(p.0, p.1), Seq::<(Seq<char>, Seq<u8>)>::empty()) == m.insert(
            p.0,
            p.1,
        ));
        assert(write_pairs(m, d) == m);
    } else {
        assert(d.push(p).drop_first() =~= d.drop_first().push(p));
        assert(d.push(p)[0] == d[0]);
        lemma_write_pairs_push(m.insert(d[0].0, d[0].1), d.drop_first(), p);
    }
}

/// Storing, on an empty store, a list that names each record of `m` once
/// gives back `m`.
pub proof fn lemma_write_listing(m: Map<Seq<char>, Seq<u8>>, d: Seq<(Seq<char>, Seq<u8>)>)
    requires
        lists(d, m),
    ensures
        write_pairs(Map::empty(), d) == m,
{
    lemma_write_pairs_covers(Map::empty(), d);
    assert forall|k: Seq<char>| #[trigger] m.contains_key(k) implies write_pairs(Map::empty(), d).contains_key(k)
        && write_pairs(Map::empty(), d)[k] == m[k] by {
        let i = choose|i: int| 0 <= i < d.len() && d[i].0 == k;
        assert(m.contains_key(d[i].0));
    }
    assert forall|k: Seq<char>| #[trigger] write_pairs(Map::empty(), d).contains_key(k) implies m.contains_key(k) by {
        let i = choose|i: int| 0 <= i < d.len() && d[i].0 == k;
        assert(m.contains_key(d[i].0));
    }
    assert(write_pairs(Map::empty(), d) =~= m);
}

/// Where the keys of `d` are distinct, each of them ends up with its value
/// and the other keys keep theirs.
pub proof fn lemma_write_pairs_covers(m: Map<Seq<char>, Seq<u8>>, d: Seq<(Seq<char>, Seq<u8>)>)
    requires
        forall|i: int, j: int| 0 <= i < d.len() && 0 <= j < d.len() && i != j ==> d[i].0 != d[j].0,
    ensures
        forall|i: int| 0 <= i < d.len() ==> #[trigger] write_pairs(m, d).contains_key(d[i].0)
            && write_pairs(m, d)[d[i].0] == d[i].1,
        forall|k: Seq<char>| #[trigger] write_pairs(m, d).contains_key(k) ==> m.contains_key(k)
            || exists|i: int| 0 <= i < d.len() && d[i].0 == k,
        forall|k: Seq<char>| (forall|i: int| 0 <= i < d.len() ==> d[i].0 != k) ==> (#[trigger] write_pairs(m, d).contains_key(k)
            == m.contains_key(k) && write_pairs(m, d)[k] == m[k]),
    decreases d.len(),
{
    if d.len() > 0 {
        let m1 = m.insert(d[0].0, d[0].1);
        let t = d.drop_first();
        assert forall|i: int, j: int| 0 <= i < t.len() && 0 <= j < t.len() && i != j implies t[i].0 != t[j].0 by {
            assert(t[i] == d[i + 1] && t[j] == d[j + 1]);
        }
        lemma_write_pairs_covers(m1, t);
        assert(write_pairs(m, d) == write_pairs(m1, t));
        assert forall|i: int| 0 <= i < d.len() implies #[trigger] write_pairs(m, d).contains_key(d[i].0)
            && write_pairs(m, d)[d[i].0] == d[i].1 by {
            if i > 0 {
                assert(t[i - 1] == d[i]);
            } else {
                assert forall|j: int| 0 <= j < t.len() implies t[j].0 != d[0].0 by {
                    assert(t[j] == d[j + 1]);
                }
            }
        }
        assert forall|k: Seq<char>| #[trigger] write_pairs(m, d).contains_key(k) implies m.contains_key(k)
            || exists|i: int| 0 <= i < d.len() && d[i].0 == k by {
            if !m.contains_key(k) && k != d[0].0 {
                let j = choose|j: int| 0 <= j < t.len() && t[j].0 == k;
                assert(d[j + 1].0 == k);
            }
        }
        assert forall|k: Seq<char>| (forall|i: int| 0 <= i < d.len() ==> d[i].0 != k) implies (#[trigger] write_pairs(m, d).contains_key(k)
            == m.contains_key(k) && write_pairs(m, d)[k] == m[k]) by {
            assert(d[0].0 != k);
            assert forall|j: int| 0 <= j < t.len() implies t[j].0 != k by {
                assert(t[j] == d[j + 1]);
            }
        }
    }
}

} // verus!
