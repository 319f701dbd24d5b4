//! The durable log and snapshot store that backs the consensus group.

use crate::codec::{be_bytes, be_bytes_of, be_read, be_value, encode_u64s, lemma_be_round_trip, u64s_bytes};
use crate::dump::{dump_bytes, dump_decoding, dump_encoding, dump_records, lemma_write_pairs_covers, lemma_write_pairs_push, write_pairs};
use crate::engine::{lists, pairs_of, RocksDBEngine, Store};
use crate::keys::{
    is_raft_marker,
    conf_state_key, entry_key, first_index_key, hard_state_key, key_name_by_conf_state,
    key_name_by_entry, key_name_by_first_index, key_name_by_hard_state, key_name_by_last_index,
    key_name_snapshot, key_name_uncommit, last_index_key, lemma_entry_keys_distinct,
    lemma_raft_markers_distinct, snapshot_key, uncommit_key,
};
use crate::records::{
    conf_bytes, conf_of, decode_conf_state, decode_entry, decode_hard_state, decode_indexes,
    decode_snapshot, encode_conf_state, encode_entry, encode_hard_state, encode_snapshot,
    entry_bytes, entry_of, hard_state_bytes, hard_state_of, indexes_of, lemma_conf_round_trip,
    lemma_entry_round_trip, lemma_hard_state_round_trip, lemma_indexes_round_trip,
    lemma_snapshot_round_trip, snapshot_bytes, ConfModel, ConfState, Entry,
    EntryModel, HardState, RaftState, Snapshot, SnapshotMetadata, SnapshotModel,
};
use vstd::prelude::*;

verus! {

/// Why the store refused a request.
#[derive(Clone, Copy, PartialEq, Eq, Debug)]
pub enum StorageError {
    /// The first new entry lies at or before the compacted part of the log.
    LogCompacted,
    /// The new entries do not follow the log, or not each other, without a gap.
    LogGap,
    /// The snapshot is older than the first entry kept.
    SnapshotOutOfDate,
}

/// The index held by marker record `k`, if it holds one.
pub open spec fn marker_in(m: Store, k: Seq<char>) -> Option<u64> {
    if m.contains_key(k) && m[k].len() == 8 {
        Some(be_value(m[k]))
    } else {
        None
    }
}

/// `i + 1`, held at the largest index.
pub open spec fn after(i: u64) -> u64 {
    if i == u64::MAX {
        i
    } else {
        (i + 1) as u64
    }
}

pub open spec fn first_index_in(m: Store, snapshot_index: u64) -> u64 {
    match marker_in(m, first_index_key()) {
        Some(v) => v,
        None => after(snapshot_index),
    }
}

pub open spec fn last_index_in(m: Store, snapshot_index: u64) -> u64 {
    match marker_in(m, last_index_key()) {
        Some(v) => v,
        None => snapshot_index,
    }
}

pub open spec fn entry_in(m: Store, i: u64) -> Option<EntryModel> {
    if m.contains_key(entry_key(i)) {
        entry_of(m[entry_key(i)])
    } else {
        None
    }
}

/// The stored hard state; zero where none can be read.
pub open spec fn hard_state_in(m: Store) -> HardState {
    if m.contains_key(hard_state_key()) && hard_state_of(m[hard_state_key()]) is Some {
        hard_state_of(m[hard_state_key()])->0
    } else {
        HardState { term: 0, vote: 0, commit: 0 }
    }
}

/// The stored membership; empty where none can be read.
pub open spec fn conf_in(m: Store) -> ConfModel {
    if m.contains_key(conf_state_key()) && conf_of(m[conf_state_key()]) is Some {
        conf_of(m[conf_state_key()])->0
    } else {
        ConfModel { voters: Seq::empty(), learners: Seq::empty() }
    }
}

/// The indexes stored as uncommitted; none where none can be read.
pub open spec fn stored_uncommitted(m: Store) -> Seq<u64> {
    if m.contains_key(uncommit_key()) {
        indexes_of(m[uncommit_key()])
    } else {
        Seq::empty()
    }
}

/// The entries present in the store from `low` to `high`, in index order.
pub open spec fn present_entries(m: Store, low: int, high: int) -> Seq<EntryModel>
    decreases high - low + 1,
{
    if high < low || high < 0 || high > u64::MAX {
        Seq::empty()
    } else {
        let before = present_entries(m, low, high - 1);
        match entry_in(m, high as u64) {
            Some(e) => before.push(e),
            None => before,
        }
    }
}

/// Each entry follows the one before it.
pub open spec fn contiguous(es: Seq<EntryModel>) -> bool {
    forall|k: int| 0 < k < es.len() ==> #[trigger] es[k].index == es[k - 1].index + 1
}

/// The records that storing `es` writes.
pub open spec fn entry_pairs(es: Seq<EntryModel>) -> Seq<(Seq<char>, Seq<u8>)> {
    es.map_values(|e: EntryModel| (entry_key(e.index), entry_bytes(e)))
}

pub open spec fn entries_view(v: Seq<Entry>) -> Seq<EntryModel> {
    v.map_values(|e: Entry| e@)
}

/// The store after installing a snapshot whose dump is `data`.
pub open spec fn installed_in(m: Store, data: Seq<u8>, index: u64, term: u64, conf: ConfModel) -> Store {
    let restored = match dump_decoding(data) {
        Some(d) => write_pairs(m, d),
        None => m,
    };
    let h = hard_state_in(restored);
    let h2 = HardState {
        term: if h.term >= term { h.term } else { term },
        vote: h.vote,
        commit: if h.commit >= index { h.commit } else { index },
    };
    restored.insert(hard_state_key(), hard_state_bytes(h2)).insert(conf_state_key(), conf_bytes(conf))
}

/// Contiguous entries sit at consecutive indexes.
pub proof fn lemma_contiguous_index(es: Seq<EntryModel>, a: int)
    requires
        contiguous(es),
        0 <= a < es.len(),
    ensures
        es[a].index == es[0].index + a,
    decreases a,
{
    if a > 0 {
        lemma_contiguous_index(es, a - 1);
        assert(es[a].index == es[a - 1].index + 1);
    }
}

/// Storing contiguous entries touches their own keys only.
proof fn lemma_entry_pairs_distinct(es: Seq<EntryModel>)
    requires
        contiguous(es),
    ensures
        forall|i: int, j: int|
            0 <= i < es.len() && 0 <= j < es.len() && i != j ==> entry_pairs(es)[i].0 != entry_pairs(es)[j].0,
        forall|i: int| 0 <= i < es.len() ==> #[trigger] entry_pairs(es)[i] == (entry_key(es[i].index), entry_bytes(es[i])),
        forall|i: int| 0 <= i < es.len() ==> !is_raft_marker(#[trigger] entry_pairs(es)[i].0),
{
    assert forall|i: int, j: int|
        0 <= i < es.len() && 0 <= j < es.len() && i != j implies entry_pairs(es)[i].0 != entry_pairs(es)[j].0 by {
        lemma_contiguous_index(es, i);
        lemma_contiguous_index(es, j);
        lemma_entry_keys_distinct(es[i].index, es[j].index);
    }
    assert forall|i: int| 0 <= i < es.len() implies !is_raft_marker(#[trigger] entry_pairs(es)[i].0) by {
        lemma_entry_keys_distinct(es[i].index, es[i].index);
    }
}

/// Whether each entry follows the one before it.
pub fn batch_is_contiguous(entries: &Vec<Entry>) -> (r: bool)
    ensures
        r == contiguous(entries_view(entries@)),
{
    let ghost es = entries_view(entries@);
    let mut c: usize = 1;
    if entries.len() == 0 {
        return true;
    }
    while c < entries.len()
        invariant
            1 <= c <= entries@.len(),
            es == entries_view(entries@),
            forall|k: int| 0 < k < c ==> #[trigger] es[k].index == es[k - 1].index + 1,
        decreases entries@.len() - c,
    {
        if entries[c - 1].index == u64::MAX || entries[c].index != entries[c - 1].index + 1 {
            proof {
                assert(!(es[c as int].index == es[c - 1].index + 1));
            }
            return false;
        }
        c = c + 1;
    }
    true
}

/// What an append leaves in the store: the new entries, the last index
/// marker and the uncommitted record, and every other record as it was.
proof fn lemma_appended_store(m0: Store, es: Seq<EntryModel>, u: Seq<u8>, snap: u64)
    requires
        contiguous(es),
        es.len() > 0,
    ensures
        ({
            let m = write_pairs(m0, entry_pairs(es)).insert(last_index_key(), be_bytes(es.last().index)).insert(uncommit_key(), u);
            &&& forall|k: int| 0 <= k < es.len() ==> entry_in(m, #[trigger] es[k].index) == Some(es[k])
            &&& forall|i: u64| (forall|k: int| 0 <= k < es.len() ==> es[k].index != i) ==> #[trigger] entry_in(m, i) == entry_in(m0, i)
            &&& last_index_in(m, snap) == es.last().index
            &&& first_index_in(m, snap) == first_index_in(m0, snap)
            &&& hard_state_in(m) == hard_state_in(m0)
            &&& conf_in(m) == conf_in(m0)
            &&& m[uncommit_key()] == u
        }),
{
    let ps = entry_pairs(es);
    let last = es.last().index;
    let m1 = write_pairs(m0, ps);
    let m = m1.insert(last_index_key(), be_bytes(last)).insert(uncommit_key(), u);
    lemma_entry_pairs_distinct(es);
    lemma_write_pairs_covers(m0, ps);
    lemma_raft_markers_distinct();
    lemma_be_round_trip(last);
    assert forall|kk: int| 0 <= kk < es.len() implies entry_in(m, #[trigger] es[kk].index) == Some(es[kk]) by {
        assert(ps[kk] == (entry_key(es[kk].index), entry_bytes(es[kk])));
        lemma_entry_keys_distinct(es[kk].index, es[kk].index);
        lemma_entry_round_trip(es[kk]);
    }
    assert forall|i: u64| (forall|kk: int| 0 <= kk < es.len() ==> es[kk].index != i) implies #[trigger] entry_in(m, i) == entry_in(m0, i) by {
        lemma_entry_keys_distinct(i, i);
        assert forall|kk: int| 0 <= kk < ps.len() implies ps[kk].0 != entry_key(i) by {
            lemma_entry_keys_distinct(es[kk].index, i);
            assert(ps[kk] == (entry_key(es[kk].index), entry_bytes(es[kk])));
        }
    }
    lemma_markers_kept(m0, es, first_index_key());
    lemma_markers_kept(m0, es, hard_state_key());
    lemma_markers_kept(m0, es, conf_state_key());
    assert(m.contains_key(last_index_key()) && m[last_index_key()] == be_bytes(last));
    assert(marker_in(m, first_index_key()) == marker_in(m0, first_index_key()));
}

/// Storing contiguous entries leaves each raft marker as it was.
proof fn lemma_markers_kept(m0: Store, es: Seq<EntryModel>, k: Seq<char>)
    requires
        contiguous(es),
        is_raft_marker(k),
    ensures
        write_pairs(m0, entry_pairs(es)).contains_key(k) == m0.contains_key(k),
        write_pairs(m0, entry_pairs(es))[k] == m0[k],
{
    let ps = entry_pairs(es);
    lemma_entry_pairs_distinct(es);
    lemma_write_pairs_covers(m0, ps);
    assert forall|kk: int| 0 <= kk < ps.len() implies ps[kk].0 != k by {
        assert(!is_raft_marker(ps[kk].0));
    }
}

pub struct RaftMachineStorage {
    pub uncommit_index: Vec<u64>,
    pub trigger_snap_unavailable: bool,
    pub snapshot_metadata: SnapshotMetadata,
    pub rocksdb_engine_handler: RocksDBEngine,
}

/// Marks `i` as uncommitted.
fn insert_index(v: &mut Vec<u64>, i: u64)
    requires
        old(v)@.no_duplicates(),
    ensures
        final(v)@.no_duplicates(),
        forall|j: u64| #[trigger] final(v)@.contains(j) <==> old(v)@.contains(j) || j == i,
{
    let mut k: usize = 0;
    while k < v.len()
        invariant
            v@ == old(v)@,
            old(v)@.no_duplicates(),
            k <= v@.len(),
            forall|a: int| 0 <= a < k ==> v@[a] != i,
        decreases v@.len() - k,
    {
        if v[k] == i {
            proof {
                assert forall|j: u64| #[trigger] v@.contains(j) <==> v@.contains(j) || j == i by {
                    if j == i {
                        assert(v@[k as int] == j);
                    }
                }
            }
            return;
        }
        k = k + 1;
    }
    let ghost o = v@;
    v.push(i);
    proof {
        assert forall|a: int, b: int| 0 <= a < v@.len() && 0 <= b < v@.len() && a != b implies v@[a] != v@[b] by {
            if a < o.len() && b < o.len() {
                assert(o[a] == v@[a] && o[b] == v@[b]);
            }
        }
        assert forall|j: u64| #[trigger] v@.contains(j) <==> o.contains(j) || j == i by {
            if o.contains(j) {
                let a = choose|a: int| 0 <= a < o.len() && o[a] == j;
                assert(v@[a] == j);
            }
            if j == i {
                assert(v@[o.len() as int] == j);
            }
            if v@.contains(j) && j != i {
                let a = choose|a: int| 0 <= a < v@.len() && v@[a] == j;
                assert(o[a] == j);
            }
        }
    }
}

/// Clears the mark of `i`.
fn remove_index(v: &mut Vec<u64>, i: u64)
    requires
        old(v)@.no_duplicates(),
    ensures
        final(v)@.no_duplicates(),
        forall|j: u64| #[trigger] final(v)@.contains(j) <==> old(v)@.contains(j) && j != i,
{
    let mut k: usize = 0;
    while k < v.len()
        invariant
            v@ == old(v)@,
            old(v)@.no_duplicates(),
            k <= v@.len(),
            forall|a: int| 0 <= a < k ==> v@[a] != i,
        decreases v@.len() - k,
    {
        if v[k] == i {
            let ghost o = v@;
            v.remove(k);
            proof {
                assert forall|a: int| 0 <= a < v@.len() implies #[trigger] v@[a] == o[if a < k { a } else { a + 1 }] by {}
                assert forall|j: u64| #[trigger] v@.contains(j) <==> o.contains(j) && j != i by {
                    if v@.contains(j) {
                        let a = choose|a: int| 0 <= a < v@.len() && v@[a] == j;
                        assert(v@[a] == o[if a < k { a } else { a + 1 }]);
                    }
                    if o.contains(j) && j != i {
                        let a = choose|a: int| 0 <= a < o.len() && o[a] == j;
                        assert(a != k);
                        let b = if a < k { a } else { a - 1 };
                        assert(v@[b] == o[if b < k { b } else { b + 1 }]);
                    }
                }
                assert forall|a: int, b: int| 0 <= a < v@.len() && 0 <= b < v@.len() && a != b implies v@[a] != v@[b] by {
                    let a2 = if a < k { a } else { a + 1 };
                    let b2 = if b < k { b } else { b + 1 };
                    assert(v@[a] == o[a2]);
                    assert(v@[b] == o[b2]);
                    assert(a2 != b2);
                }
            }
            return;
        }
        k = k + 1;
    }
}

impl RaftMachineStorage {
    pub open spec fn store(&self) -> Store {
        self.rocksdb_engine_handler.view()
    }

    pub open spec fn wf(&self) -> bool {
        self.rocksdb_engine_handler.wf() && self.uncommit_index@.no_duplicates()
    }

    pub open spec fn first_index_spec(&self) -> u64 {
        first_index_in(self.store(), self.snapshot_metadata.index)
    }

    pub open spec fn last_index_spec(&self) -> u64 {
        last_index_in(self.store(), self.snapshot_metadata.index)
    }

    pub open spec fn entry_at(&self, i: u64) -> Option<EntryModel> {
        entry_in(self.store(), i)
    }

    pub open spec fn uncommitted(&self, i: u64) -> bool {
        self.uncommit_index@.contains(i)
    }

    /// Reads the marker record `key`.
    fn read_marker(&self, key: &String) -> (r: Option<u64>)
        requires
            self.wf(),
        ensures
            r == marker_in(self.store(), key@),
    {
        match self.rocksdb_engine_handler.read(key.as_str()) {
            Some(v) => {
                if v.len() == 8 {
                    Some(be_read(v.as_slice()))
                } else {
                    None
                }
            },
            None => None,
        }
    }

    /// The first index of the log, or the one after the last snapshot where
    /// no marker can be read.
    pub fn first_index(&self) -> (r: u64)
        requires
            self.wf(),
        ensures
            r == self.first_index_spec(),
    {
        match self.read_marker(&key_name_by_first_index()) {
            Some(v) => v,
            None => {
                let i = self.snapshot_metadata.index;
                if i == u64::MAX {
                    i
                } else {
                    i + 1
                }
            },
        }
    }

    /// The last index of the log, or the last snapshot's where no marker can
    /// be read.
    pub fn last_index(&self) -> (r: u64)
        requires
            self.wf(),
        ensures
            r == self.last_index_spec(),
    {
        match self.read_marker(&key_name_by_last_index()) {
            Some(v) => v,
            None => self.snapshot_metadata.index,
        }
    }

    /// The stored hard state, zero where none can be read.
    pub fn hard_state(&self) -> (r: HardState)
        requires
            self.wf(),
        ensures
            r == hard_state_in(self.store()),
    {
        let key = key_name_by_hard_state();
        match self.rocksdb_engine_handler.read(key.as_str()) {
            Some(v) => match decode_hard_state(&v) {
                Some(h) => h,
                None => HardState::default(),
            },
            None => HardState::default(),
        }
    }

    /// The stored membership, empty where none can be read.
    pub fn conf_state(&self) -> (r: ConfState)
        requires
            self.wf(),
        ensures
            r@ == conf_in(self.store()),
    {
        let key = key_name_by_conf_state();
        match self.rocksdb_engine_handler.read(key.as_str()) {
            Some(v) => match decode_conf_state(&v) {
                Some(c) => c,
                None => ConfState::default(),
            },
            None => ConfState::default(),
        }
    }

    /// The hard state and membership, as the consensus engine reads them on
    /// restart.
    pub fn raft_state(&self) -> (r: RaftState)
        requires
            self.wf(),
        ensures
            r.hard_state == hard_state_in(self.store()),
            r.conf_state@ == conf_in(self.store()),
    {
        RaftState { hard_state: self.hard_state(), conf_state: self.conf_state() }
    }

    /// The entry stored at `idx`, if any can be read.
    pub fn entry_by_idx(&self, idx: u64) -> (r: Option<Entry>)
        requires
            self.wf(),
        ensures
            match r {
                Some(e) => self.entry_at(idx) == Some(e@),
                None => self.entry_at(idx) is None,
            },
    {
        let key = key_name_by_entry(idx);
        match self.rocksdb_engine_handler.read(key.as_str()) {
            Some(v) => decode_entry(&v),
            None => None,
        }
    }

    /// The entries present from `low` to `high` inclusive, in index order;
    /// missing ones are left out.
    pub fn entries(&self, low: u64, high: u64) -> (r: Vec<Entry>)
        requires
            self.wf(),
        ensures
            entries_view(r@) == present_entries(self.store(), low as int, high as int),
    {
        let mut out: Vec<Entry> = Vec::new();
        if high < low {
            proof {
                assert(entries_view(out@) =~= present_entries(self.store(), low as int, high as int));
            }
            return out;
        }
        let mut i: u64 = low;
        proof {
            assert(entries_view(out@) =~= present_entries(self.store(), low as int, low - 1));
        }
        while i < high
            invariant
                self.wf(),
                low <= i <= high,
                entries_view(out@) == present_entries(self.store(), low as int, i - 1),
            decreases high - i,
        {
            let ghost before = out@;
            match self.entry_by_idx(i) {
                Some(e) => {
                    out.push(e);
                    proof {
                        assert(entries_view(out@) =~= entries_view(before).push(out@.last()@));
                    }
                },
                None => {},
            }
            i = i + 1;
        }
        let ghost before = out@;
        match self.entry_by_idx(high) {
            Some(e) => {
                out.push(e);
                proof {
                    assert(entries_view(out@) =~= entries_view(before).push(out@.last()@));
                }
            },
            None => {},
        }
        out
    }

    /// Stores the first index marker.
    pub fn save_first_index(&mut self, index: u64)
        requires
            old(self).wf(),
        ensures
            final(self).wf(),
            final(self).store() == old(self).store().insert(first_index_key(), be_bytes(index)),
            final(self).first_index_spec() == index,
            final(self).uncommit_index == old(self).uncommit_index,
            final(self).snapshot_metadata == old(self).snapshot_metadata,
    {
        let key = key_name_by_first_index();
        self.rocksdb_engine_handler.write(key.as_str(), be_bytes_of(index));
        proof {
            lemma_be_round_trip(index);
        }
    }

    /// Stores the last index marker.
    pub fn save_last_index(&mut self, index: u64)
        requires
            old(self).wf(),
        ensures
            final(self).wf(),
            final(self).store() == old(self).store().insert(last_index_key(), be_bytes(index)),
            final(self).last_index_spec() == index,
            final(self).uncommit_index == old(self).uncommit_index,
            final(self).snapshot_metadata == old(self).snapshot_metadata,
    {
        let key = key_name_by_last_index();
        self.rocksdb_engine_handler.write(key.as_str(), be_bytes_of(index));
        proof {
            lemma_be_round_trip(index);
        }
    }

    /// Stores the hard state.
    pub fn save_hard_state(&mut self, hs: HardState)
        requires
            old(self).wf(),
        ensures
            final(self).wf(),
            final(self).store() == old(self).store().insert(hard_state_key(), hard_state_bytes(hs)),
            hard_state_in(final(self).store()) == hs,
            final(self).uncommit_index == old(self).uncommit_index,
            final(self).snapshot_metadata == old(self).snapshot_metadata,
    {
        let key = key_name_by_hard_state();
        self.rocksdb_engine_handler.write(key.as_str(), encode_hard_state(&hs));
        proof {
            lemma_hard_state_round_trip(hs);
        }
    }

    /// Stores the membership.
    pub fn save_conf_state(&mut self, cs: ConfState)
        requires
            old(self).wf(),
        ensures
            final(self).wf(),
            final(self).store() == old(self).store().insert(conf_state_key(), conf_bytes(cs@)),
            conf_in(final(self).store()) == cs@,
            final(self).uncommit_index == old(self).uncommit_index,
            final(self).snapshot_metadata == old(self).snapshot_metadata,
    {
        let key = key_name_by_conf_state();
        let nv = cs.voters.len();
        let nl = cs.learners.len();
        self.rocksdb_engine_handler.write(key.as_str(), encode_conf_state(&cs));
        proof {
            assert(nv as int <= u64::MAX && nl as int <= u64::MAX);
            lemma_conf_round_trip(cs@);
        }
    }

    /// Stores the uncommitted indexes.
    pub fn save_uncommit_index(&mut self)
        requires
            old(self).wf(),
        ensures
            final(self).wf(),
            final(self).store() == old(self).store().insert(
                uncommit_key(),
                u64s_bytes(old(self).uncommit_index@),
            ),
            stored_uncommitted(final(self).store()) == old(self).uncommit_index@,
            final(self).uncommit_index == old(self).uncommit_index,
            final(self).snapshot_metadata == old(self).snapshot_metadata,
    {
        let key = key_name_uncommit();
        let val = encode_u64s(&self.uncommit_index);
        self.rocksdb_engine_handler.write(key.as_str(), val);
        proof {
            lemma_indexes_round_trip(self.uncommit_index@);
        }
    }

    /// Stores `snapshot` as the latest one.
    pub fn save_snapshot_data(&mut self, snapshot: Snapshot)
        requires
            old(self).wf(),
        ensures
            final(self).wf(),
            final(self).store() == old(self).store().insert(snapshot_key(), snapshot_bytes(snapshot.model())),
            final(self).uncommit_index == old(self).uncommit_index,
            final(self).snapshot_metadata == old(self).snapshot_metadata,
    {
        let key = key_name_snapshot();
        self.rocksdb_engine_handler.write(key.as_str(), encode_snapshot(&snapshot));
    }

    /// Sets the commit index of the stored hard state.
    pub fn set_hard_state_commit(&mut self, commit: u64)
        requires
            old(self).wf(),
        ensures
            final(self).wf(),
            final(self).store() == old(self).store().insert(
                hard_state_key(),
                hard_state_bytes(HardState { commit, ..hard_state_in(old(self).store()) }),
            ),
            final(self).uncommit_index == old(self).uncommit_index,
            final(self).snapshot_metadata == old(self).snapshot_metadata,
    {
        let mut hs = self.hard_state();
        hs.commit = commit;
        self.save_hard_state(hs);
    }

    /// Writes each of `entries` under its index and marks it uncommitted.
    fn store_entries(&mut self, entries: &Vec<Entry>)
        requires
            old(self).wf(),
            contiguous(entries_view(entries@)),
        ensures
            final(self).wf(),
            final(self).snapshot_metadata == old(self).snapshot_metadata,
            final(self).store() == write_pairs(old(self).store(), entry_pairs(entries_view(entries@))),
            forall|j: u64| #[trigger] final(self).uncommit_index@.contains(j) <==> old(self).uncommit_index@.contains(j) || exists|a: int| 0 <= a < entries@.len() && entries@[a].index == j,
    {
        let ghost es = entries_view(entries@);
        let ghost m0 = self.store();
        let mut k: usize = 0;
        proof {
            assert(entry_pairs(es.take(0)) =~= Seq::<(Seq<char>, Seq<u8>)>::empty());
        }
        while k < entries.len()
            invariant
                self.wf(),
                k <= entries@.len(),
                es == entries_view(entries@),
                self.store() == write_pairs(m0, entry_pairs(es.take(k as int))),
                self.snapshot_metadata == old(self).snapshot_metadata,
                forall|j: u64| #[trigger] self.uncommit_index@.contains(j) <==> old(self).uncommit_index@.contains(j) || exists|a: int| 0 <= a < k && entries@[a].index == j,
            decreases entries@.len() - k,
        {
            let key = key_name_by_entry(entries[k].index);
            self.rocksdb_engine_handler.write(key.as_str(), encode_entry(&entries[k]));
            let ghost u0 = self.uncommit_index@;
            insert_index(&mut self.uncommit_index, entries[k].index);
            proof {
                let p = (entry_key(es[k as int].index), entry_bytes(es[k as int]));
                lemma_write_pairs_push(m0, entry_pairs(es.take(k as int)), p);
                assert(entry_pairs(es.take(k + 1)) =~= entry_pairs(es.take(k as int)).push(p));
                assert forall|j: u64| #[trigger] self.uncommit_index@.contains(j) <==> old(self).uncommit_index@.contains(j) || exists|a: int| 0 <= a < k + 1 && entries@[a].index == j by {
                    assert(self.uncommit_index@.contains(j) <==> u0.contains(j) || j == entries@[k as int].index);
                    if exists|a: int| 0 <= a < k + 1 && entries@[a].index == j {
                        let a = choose|a: int| 0 <= a < k + 1 && entries@[a].index == j;
                        if a < k {
                            assert(exists|a: int| 0 <= a < k && entries@[a].index == j);
                        }
                    }
                }
            }
            k = k + 1;
        }
        proof {
            assert(es.take(es.len() as int) =~= es);
        }
    }

    /// Persists `entries` after the log: the first of them must not lie in
    /// the compacted part, nor leave a gap after the last index, and each
    /// must follow the one before. Each new index is marked uncommitted.
    pub fn append(&mut self, entries: &Vec<Entry>) -> (r: Result<(), StorageError>)
        requires
            old(self).wf(),
        ensures
            final(self).wf(),
            final(self).snapshot_metadata == old(self).snapshot_metadata,
            entries@.len() == 0 ==> r is Ok && *final(self) == *old(self),
            entries@.len() > 0 ==> (r == Err::<(), StorageError>(StorageError::LogCompacted)
                <==> old(self).first_index_spec() > entries@[0].index),
            entries@.len() > 0 ==> (r == Err::<(), StorageError>(StorageError::LogGap) <==> (old(
                self,
            ).first_index_spec() <= entries@[0].index && (old(self).last_index_spec() + 1
                < entries@[0].index || !contiguous(entries_view(entries@))))),
            r is Err ==> *final(self) == *old(self),
            r is Err ==> r == Err::<(), StorageError>(StorageError::LogCompacted) || r == Err::<
                (),
                StorageError,
            >(StorageError::LogGap),
            r is Ok && entries@.len() > 0 ==> {
                let es = entries_view(entries@);
                &&& forall|k: int| 0 <= k < es.len() ==> final(self).entry_at(#[trigger] es[k].index) == Some(es[k])
                &&& forall|i: u64| (forall|k: int| 0 <= k < es.len() ==> es[k].index != i) ==> #[trigger] final(self).entry_at(i) == old(self).entry_at(i)
                &&& final(self).last_index_spec() == es.last().index
                &&& final(self).first_index_spec() == old(self).first_index_spec()
                &&& hard_state_in(final(self).store()) == hard_state_in(old(self).store())
                &&& conf_in(final(self).store()) == conf_in(old(self).store())
                &&& forall|i: u64| #[trigger] final(self).uncommitted(i) <==> old(self).uncommitted(i) || exists|k: int| 0 <= k < es.len() && es[k].index == i
                &&& final(self).store()[uncommit_key()] == u64s_bytes(final(self).uncommit_index@)
            },
    {
        if entries.len() == 0 {
            return Ok(());
        }
        let entry_first_index = entries[0].index;
        let first_index = self.first_index();
        if first_index > entry_first_index {
            return Err(StorageError::LogCompacted);
        }
        let last_index = self.last_index();
        if last_index < entry_first_index && entry_first_index - last_index > 1 {
            return Err(StorageError::LogGap);
        }
        if !batch_is_contiguous(entries) {
            return Err(StorageError::LogGap);
        }
        let ghost m0 = self.store();
        self.store_entries(entries);
        let last = entries[entries.len() - 1].index;
        self.save_last_index(last);
        self.save_uncommit_index();
        proof {
            let es = entries_view(entries@);
            lemma_appended_store(m0, es, u64s_bytes(self.uncommit_index@), self.snapshot_metadata.index);
            assert forall|i: u64| #[trigger] self.uncommitted(i) <==> old(self).uncommitted(i) || exists|k: int| 0 <= k < es.len() && es[k].index == i by {
                if exists|k: int| 0 <= k < entries@.len() && entries@[k].index == i {
                    let k = choose|k: int| 0 <= k < entries@.len() && entries@[k].index == i;
                    assert(es[k].index == i);
                }
                if exists|k: int| 0 <= k < es.len() && es[k].index == i {
                    let k = choose|k: int| 0 <= k < es.len() && es[k].index == i;
                    assert(entries@[k].index == i);
                }
            }
        }
        Ok(())
    }

    /// Marks entry `idx` committed: it leaves the uncommitted set and the
    /// hard state takes its index and term. Where no entry can be read at
    /// `idx`, nothing changes.
    pub fn commit_index(&mut self, idx: u64) -> (r: Result<(), StorageError>)
        requires
            old(self).wf(),
        ensures
            r is Ok,
            final(self).wf(),
            final(self).snapshot_metadata == old(self).snapshot_metadata,
            old(self).entry_at(idx) is None ==> *final(self) == *old(self),
            old(self).entry_at(idx) is Some ==> {
                let e = old(self).entry_at(idx)->0;
                let h = hard_state_in(old(self).store());
                &&& hard_state_in(final(self).store()) == (HardState { term: e.term, vote: h.vote, commit: idx })
                &&& forall|i: u64| #[trigger] final(self).uncommitted(i) <==> old(self).uncommitted(i) && i != idx
                &&& forall|i: u64| #[trigger] final(self).entry_at(i) == old(self).entry_at(i)
                &&& final(self).first_index_spec() == old(self).first_index_spec()
                &&& final(self).last_index_spec() == old(self).last_index_spec()
                &&& conf_in(final(self).store()) == conf_in(old(self).store())
            },
    {
        let entry = match self.entry_by_idx(idx) {
            Some(e) => e,
            None => {
                return Ok(());
            },
        };
        remove_index(&mut self.uncommit_index, idx);
        self.save_uncommit_index();
        let mut hs = self.hard_state();
        hs.commit = idx;
        hs.term = entry.term;
        self.save_hard_state(hs);
        proof {
            lemma_raft_markers_distinct();
            lemma_hard_state_round_trip(hs);
            assert forall|i: u64| #[trigger] self.entry_at(i) == old(self).entry_at(i) by {
                lemma_entry_keys_distinct(i, i);
            }
        }
        Ok(())
    }

    /// The indexes recorded as uncommitted, each once.
    pub fn uncommit_index(&self) -> (r: Vec<u64>)
        requires
            self.wf(),
        ensures
            r@.no_duplicates(),
            forall|j: u64| #[trigger] r@.contains(j) <==> stored_uncommitted(self.store()).contains(j),
    {
        let key = key_name_uncommit();
        let stored = match self.rocksdb_engine_handler.read(key.as_str()) {
            Some(v) => decode_indexes(&v),
            None => Vec::new(),
        };
        let mut out: Vec<u64> = Vec::new();
        let mut k: usize = 0;
        while k < stored.len()
            invariant
                k <= stored@.len(),
                stored@ == stored_uncommitted(self.store()),
                out@.no_duplicates(),
                forall|j: u64| #[trigger] out@.contains(j) <==> stored@.subrange(0, k as int).contains(j),
            decreases stored@.len() - k,
        {
            let ghost o = out@;
            insert_index(&mut out, stored[k]);
            proof {
                assert forall|j: u64| #[trigger] out@.contains(j) <==> stored@.subrange(0, k + 1).contains(j) by {
                    let s0 = stored@.subrange(0, k as int);
                    let s1 = stored@.subrange(0, k + 1);
                    assert(s1 =~= s0.push(stored@[k as int]));
                    assert(o.contains(j) <==> s0.contains(j));
                    if s0.contains(j) {
                        let a = choose|a: int| 0 <= a < s0.len() && s0[a] == j;
                        assert(s1[a] == j);
                    }
                    if j == stored@[k as int] {
                        assert(s1[k as int] == j);
                    }
                    if s1.contains(j) {
                        let a = choose|a: int| 0 <= a < s1.len() && s1[a] == j;
                        if a < k {
                            assert(s0[a] == j);
                        }
                    }
                }
            }
            k = k + 1;
        }
        proof {
            assert(stored@.subrange(0, stored@.len() as int) =~= stored@);
        }
        out
    }

    /// The metadata of a snapshot taken now: the commit index and term of
    /// the hard state, and the membership.
    pub fn create_snapshot_metadata(&self) -> (r: SnapshotMetadata)
        requires
            self.wf(),
        ensures
            r.index == hard_state_in(self.store()).commit,
            r.term == hard_state_in(self.store()).term,
            r.conf_state@ == conf_in(self.store()),
    {
        let hard_state = self.hard_state();
        let conf_state = self.conf_state();
        SnapshotMetadata { conf_state, index: hard_state.commit, term: hard_state.term }
    }

    /// A store over `engine`, resuming from what it holds.
    pub fn new(engine: RocksDBEngine) -> (r: Self)
        requires
            engine.wf(),
        ensures
            r.wf(),
            r.store() == engine.view(),
            forall|j: u64| #[trigger] r.uncommitted(j) <==> stored_uncommitted(engine.view()).contains(j),
            r.snapshot_metadata.index == hard_state_in(engine.view()).commit,
            r.snapshot_metadata.term == hard_state_in(engine.view()).term,
            r.snapshot_metadata.conf_state@ == conf_in(engine.view()),
            !r.trigger_snap_unavailable,
    {
        let mut rc = RaftMachineStorage {
            uncommit_index: Vec::new(),
            trigger_snap_unavailable: false,
            snapshot_metadata: SnapshotMetadata::default(),
            rocksdb_engine_handler: engine,
        };
        rc.uncommit_index = rc.uncommit_index();
        rc.snapshot_metadata = rc.create_snapshot_metadata();
        rc
    }

    /// Takes a snapshot: the whole namespace is dumped, stored with the
    /// metadata of `create_snapshot_metadata`, and the log now starts at the
    /// snapshot's index.
    pub fn create_snapshot(&mut self)
        requires
            old(self).wf(),
        ensures
            final(self).wf(),
            final(self).uncommit_index == old(self).uncommit_index,
            final(self).snapshot_metadata.index == hard_state_in(old(self).store()).commit,
            final(self).snapshot_metadata.term == hard_state_in(old(self).store()).term,
            final(self).snapshot_metadata.conf_state@ == conf_in(old(self).store()),
            exists|d: Seq<(Seq<char>, Seq<u8>)>| {
                &&& lists(d, old(self).store())
                &&& dump_decoding(dump_encoding(d)) == Some(d)
                &&& #[trigger] final(self).store() == snapshot_store(old(self).store(), d)
            },
    {
        let meta = self.create_snapshot_metadata();
        let all_data = self.rocksdb_engine_handler.read_all();
        let data = dump_bytes(&all_data);
        let ghost d = pairs_of(all_data@);
        let ghost m0 = self.store();
        self.save_first_index(meta.index);
        let sns = Snapshot { data, metadata: meta.clone() };
        self.save_snapshot_data(sns);
        self.snapshot_metadata = meta;
        proof {
            assert(self.store() == snapshot_store(m0, d));
        }
    }

    /// Takes a snapshot as `create_snapshot` does and returns it.
    pub fn snapshot(&mut self) -> (r: Snapshot)
        requires
            old(self).wf(),
        ensures
            final(self).wf(),
            final(self).uncommit_index == old(self).uncommit_index,
            final(self).snapshot_metadata.index == hard_state_in(old(self).store()).commit,
            final(self).snapshot_metadata.term == hard_state_in(old(self).store()).term,
            final(self).snapshot_metadata.conf_state@ == conf_in(old(self).store()),
            r.model().index == hard_state_in(old(self).store()).commit,
            r.model().term == hard_state_in(old(self).store()).term,
            r.model().conf == conf_in(old(self).store()),
            exists|d: Seq<(Seq<char>, Seq<u8>)>| {
                &&& lists(d, old(self).store())
                &&& r.data@ == dump_encoding(d)
                &&& dump_decoding(r.data@) == Some(d)
                &&& #[trigger] final(self).store() == snapshot_store(old(self).store(), d)
            },
    {
        self.create_snapshot();
        let key = key_name_snapshot();
        let value = self.rocksdb_engine_handler.read(key.as_str());
        proof {
            let d = choose|d: Seq<(Seq<char>, Seq<u8>)>| {
                &&& lists(d, old(self).store())
                &&& dump_decoding(dump_encoding(d)) == Some(d)
                &&& #[trigger] self.store() == snapshot_store(old(self).store(), d)
            };
            lemma_raft_markers_distinct();
            let model = snapshot_model_of(old(self).store(), d);
            lemma_snapshot_round_trip(model);
        }
        match value {
            Some(v) => match decode_snapshot(&v) {
                Some(sn) => sn,
                None => Snapshot::default(),
            },
            None => Snapshot::default(),
        }
    }

    /// A dump of every record of the store, which `write_all` on an empty
    /// store reads back whole.
    pub fn export(&self) -> (r: Vec<u8>)
        requires
            self.wf(),
        ensures
            exists|d: Seq<(Seq<char>, Seq<u8>)>| #[trigger] lists(d, self.store()) && dump_decoding(r@) == Some(d),
    {
        let all_data = self.rocksdb_engine_handler.read_all();
        let r = dump_bytes(&all_data);
        assert(lists(pairs_of(all_data@), self.store()) && dump_decoding(r@) == Some(pairs_of(all_data@)));
        r
    }

    /// Stores each record of the dump `data`; a dump that cannot be read
    /// stores nothing.
    pub fn write_all(&mut self, data: &Vec<u8>)
        requires
            old(self).wf(),
        ensures
            final(self).wf(),
            final(self).uncommit_index == old(self).uncommit_index,
            final(self).snapshot_metadata == old(self).snapshot_metadata,
            final(self).store() == match dump_decoding(data@) {
                Some(d) => write_pairs(old(self).store(), d),
                None => old(self).store(),
            },
    {
        match dump_records(data) {
            None => {},
            Some(records) => {
                let ghost m0 = self.store();
                let ghost d = pairs_of(records@);
                let mut k: usize = 0;
                proof {
                    assert(d.take(0) =~= Seq::<(Seq<char>, Seq<u8>)>::empty());
                }
                while k < records.len()
                    invariant
                        self.wf(),
                        k <= records@.len(),
                        d == pairs_of(records@),
                        self.store() == write_pairs(m0, d.take(k as int)),
                        self.uncommit_index == old(self).uncommit_index,
                        self.snapshot_metadata == old(self).snapshot_metadata,
                    decreases records@.len() - k,
                {
                    let key = records[k].0.as_str();
                    let value = crate::engine::copy_bytes(&records[k].1);
                    self.rocksdb_engine_handler.write(key, value);
                    proof {
                        lemma_write_pairs_push(m0, d.take(k as int), d[k as int]);
                        assert(d.take(k + 1) =~= d.take(k as int).push(d[k as int]));
                    }
                    k = k + 1;
                }
                proof {
                    assert(d.take(d.len() as int) =~= d);
                }
            },
        }
    }

    /// Installs `snapshot`: refused, with nothing changed, when it is older
    /// than the first index; otherwise its dump is stored, the hard state's
    /// term and commit index rise to at least the snapshot's, and its
    /// membership is stored.
    pub fn apply_snapshot(&mut self, snapshot: Snapshot) -> (r: Result<(), StorageError>)
        requires
            old(self).wf(),
        ensures
            final(self).wf(),
            r is Err <==> old(self).first_index_spec() > snapshot.metadata.index,
            r is Err ==> r == Err::<(), StorageError>(StorageError::SnapshotOutOfDate) && *final(self) == *old(self),
            r is Ok ==> {
                &&& final(self).store() == installed_in(old(self).store(), snapshot.data@, snapshot.metadata.index, snapshot.metadata.term, snapshot.metadata.conf_state@)
                &&& final(self).snapshot_metadata.index == snapshot.metadata.index
                &&& final(self).snapshot_metadata.term == snapshot.metadata.term
                &&& final(self).snapshot_metadata.conf_state@ == snapshot.metadata.conf_state@
                &&& final(self).uncommit_index == old(self).uncommit_index
            },
    {
        let index = snapshot.metadata.index;
        if self.first_index() > index {
            return Err(StorageError::SnapshotOutOfDate);
        }
        self.snapshot_metadata = snapshot.metadata.clone();
        self.write_all(&snapshot.data);
        let mut hs = self.hard_state();
        if hs.term < snapshot.metadata.term {
            hs.term = snapshot.metadata.term;
        }
        if hs.commit < index {
            hs.commit = index;
        }
        self.save_hard_state(hs);
        self.save_conf_state(snapshot.metadata.conf_state);
        Ok(())
    }
}

/// The snapshot taken of store `m` whose dump lists it as `d`.
pub open spec fn snapshot_model_of(m: Store, d: Seq<(Seq<char>, Seq<u8>)>) -> SnapshotModel {
    SnapshotModel {
        index: hard_state_in(m).commit,
        term: hard_state_in(m).term,
        conf: conf_in(m),
        data: dump_encoding(d),
    }
}

/// The store after taking, of store `m`, the snapshot whose dump lists it as `d`.
pub open spec fn snapshot_store(m: Store, d: Seq<(Seq<char>, Seq<u8>)>) -> Store {
    m.insert(first_index_key(), be_bytes(hard_state_in(m).commit)).insert(
        snapshot_key(),
        snapshot_bytes(snapshot_model_of(m, d)),
    )
}

/// Reading back the range that a successful append of contiguous entries
/// covers gives exactly those entries, in order.
pub proof fn lemma_append_read_back(m: Store, es: Seq<EntryModel>)
    requires
        es.len() > 0,
        contiguous(es),
        forall|k: int| 0 <= k < es.len() ==> entry_in(m, #[trigger] es[k].index) == Some(es[k]),
    ensures
        present_entries(m, es[0].index as int, es.last().index as int) == es,
    decreases es.len(),
{
    let n = es.len() as int;
    lemma_contiguous_index(es, n - 1);
    let hi = es.last().index as int;
    let lo = es[0].index as int;
    if n == 1 {
        assert(present_entries(m, lo, lo - 1) =~= Seq::<EntryModel>::empty());
        assert(present_entries(m, lo, hi) =~= seq![es[0]]);
        assert(es =~= seq![es[0]]);
    } else {
        let init = es.drop_last();
        assert(contiguous(init)) by {
            assert forall|k: int| 0 < k < init.len() implies #[trigger] init[k].index == init[k - 1].index + 1 by {
                assert(es[k].index == es[k - 1].index + 1);
            }
        }
        assert forall|k: int| 0 <= k < init.len() implies entry_in(m, #[trigger] init[k].index) == Some(init[k]) by {
            assert(init[k] == es[k]);
        }
        lemma_append_read_back(m, init);
        lemma_contiguous_index(es, n - 2);
        assert(init.last().index == hi - 1);
        assert(entry_in(m, es[n - 1].index) == Some(es[n - 1]));
        assert(present_entries(m, lo, hi) == present_entries(m, lo, hi - 1).push(es.last()));
        assert(es =~= init.push(es.last()));
    }
}

/// Entries appended by two successful appends, the second starting right
/// after the first, read back as one run: the first batch followed by the
/// second.
pub proof fn lemma_appends_read_back(m: Store, es: Seq<EntryModel>, more: Seq<EntryModel>)
    requires
        es.len() > 0,
        more.len() > 0,
        contiguous(es),
        contiguous(more),
        more[0].index == es.last().index + 1,
        forall|k: int| 0 <= k < es.len() ==> entry_in(m, #[trigger] es[k].index) == Some(es[k]),
        forall|k: int| 0 <= k < more.len() ==> entry_in(m, #[trigger] more[k].index) == Some(more[k]),
    ensures
        present_entries(m, es[0].index as int, more.last().index as int) == es + more,
{
    let all = es + more;
    let n = es.len() as int;
    assert(contiguous(all)) by {
        assert forall|k: int| 0 < k < all.len() implies #[trigger] all[k].index == all[k - 1].index + 1 by {
            if k < n {
                assert(es[k].index == es[k - 1].index + 1);
            } else if k > n {
                assert(more[k - n].index == more[k - n - 1].index + 1);
            }
        }
    }
    assert forall|k: int| 0 <= k < all.len() implies entry_in(m, #[trigger] all[k].index) == Some(all[k]) by {
        if k < n {
            assert(all[k] == es[k]);
        } else {
            assert(all[k] == more[k - n]);
        }
    }
    lemma_append_read_back(m, all);
    assert(all[0] == es[0]);
    assert(all.last() == more.last());
}

/// Installing, on an empty store, a snapshot whose dump lists the records of
/// a store gives back every record of that store, but the hard state and
/// membership records that the install writes anew.
pub proof fn lemma_snapshot_restores_records(
    source: Store,
    dump: Seq<(Seq<char>, Seq<u8>)>,
    data: Seq<u8>,
    index: u64,
    term: u64,
    conf: ConfModel,
)
    requires
        lists(dump, source),
        dump_decoding(data) == Some(dump),
    ensures
        forall|k: Seq<char>|
            k != hard_state_key() && k != conf_state_key() ==> (#[trigger] installed_in(
                Map::empty(),
                data,
                index,
                term,
                conf,
            ).contains_key(k) == source.contains_key(k) && installed_in(
                Map::empty(),
                data,
                index,
                term,
                conf,
            )[k] == source[k]),
{
    crate::dump::lemma_write_listing(source, dump);
}

} // verus!
