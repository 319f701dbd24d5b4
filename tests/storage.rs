use placement_center::engine::RocksDBEngine;
use placement_center::kv::KvStorage;
use placement_center::records::{ConfState, Entry, HardState, Snapshot, SnapshotMetadata};
use placement_center::storage::{RaftMachineStorage, StorageError};

fn entry(term: u64, index: u64, data: &[u8]) -> Entry {
    Entry { term, index, data: data.to_vec() }
}

fn fresh() -> RaftMachineStorage {
    RaftMachineStorage::new(RocksDBEngine::new())
}

#[test]
fn fresh_store_indexes() {
    let s = fresh();
    assert_eq!(s.first_index(), 1);
    assert_eq!(s.last_index(), 0);
    assert_eq!(s.hard_state(), HardState { term: 0, vote: 0, commit: 0 });
    assert!(s.conf_state().voters.is_empty());
}

#[test]
fn append_then_read_back() {
    let mut s = fresh();
    let batch = vec![entry(1, 1, b"a"), entry(1, 2, b"bb"), entry(2, 3, b"")];
    assert_eq!(s.append(&batch), Ok(()));
    assert_eq!(s.last_index(), 3);
    let got = s.entries(1, 3);
    assert_eq!(got.len(), 3);
    for (g, e) in got.iter().zip(batch.iter()) {
        assert_eq!(g.index, e.index);
        assert_eq!(g.term, e.term);
        assert_eq!(g.data, e.data);
    }
}

#[test]
fn successive_appends_stay_contiguous() {
    let mut s = fresh();
    assert_eq!(s.append(&vec![entry(1, 1, b"x")]), Ok(()));
    assert_eq!(s.append(&vec![entry(1, 2, b"y"), entry(1, 3, b"z")]), Ok(()));
    assert_eq!(s.append(&vec![entry(2, 4, b"w")]), Ok(()));
    assert_eq!(s.last_index(), 4);
    let got = s.entries(1, 4);
    let data: Vec<Vec<u8>> = got.into_iter().map(|e| e.data).collect();
    assert_eq!(data, vec![b"x".to_vec(), b"y".to_vec(), b"z".to_vec(), b"w".to_vec()]);
}

#[test]
fn entries_skip_missing_indexes() {
    let mut s = fresh();
    assert_eq!(s.append(&vec![entry(1, 1, b"x"), entry(1, 2, b"y")]), Ok(()));
    let got = s.entries(0, 9);
    assert_eq!(got.len(), 2);
    assert!(s.entries(5, 2).is_empty());
}

#[test]
fn empty_append_is_a_no_op() {
    let mut s = fresh();
    assert_eq!(s.append(&vec![]), Ok(()));
    assert_eq!(s.last_index(), 0);
}

#[test]
fn append_rejects_gap() {
    let mut s = fresh();
    assert_eq!(s.append(&vec![entry(1, 5, b"x")]), Err(StorageError::LogGap));
    assert_eq!(s.last_index(), 0);
    assert!(s.entry_by_idx(5).is_none());
}

#[test]
fn append_rejects_gap_inside_batch() {
    let mut s = fresh();
    assert_eq!(s.append(&vec![entry(1, 1, b"x"), entry(1, 3, b"y")]), Err(StorageError::LogGap));
    assert!(s.entry_by_idx(1).is_none());
}

#[test]
fn append_rejects_compacted_index() {
    let mut s = fresh();
    let snap = Snapshot {
        data: vec![],
        metadata: SnapshotMetadata { conf_state: ConfState::default(), index: 10, term: 3 },
    };
    assert_eq!(s.apply_snapshot(snap), Ok(()));
    assert_eq!(s.first_index(), 11);
    assert_eq!(s.append(&vec![entry(3, 5, b"x")]), Err(StorageError::LogCompacted));
    assert_eq!(s.append(&vec![entry(3, 11, b"x")]), Ok(()));
}

#[test]
fn append_marks_uncommitted_and_commit_clears() {
    let mut s = fresh();
    assert_eq!(s.append(&vec![entry(4, 1, b"x"), entry(4, 2, b"y")]), Ok(()));
    let mut u = s.uncommit_index();
    u.sort();
    assert_eq!(u, vec![1, 2]);
    assert_eq!(s.commit_index(1), Ok(()));
    assert_eq!(s.uncommit_index(), vec![2]);
    assert_eq!(s.hard_state(), HardState { term: 4, vote: 0, commit: 1 });
}

#[test]
fn commit_of_missing_entry_changes_nothing() {
    let mut s = fresh();
    assert_eq!(s.append(&vec![entry(1, 1, b"x")]), Ok(()));
    assert_eq!(s.commit_index(7), Ok(()));
    assert_eq!(s.uncommit_index(), vec![1]);
    assert_eq!(s.hard_state(), HardState { term: 0, vote: 0, commit: 0 });
}

#[test]
fn state_survives_reopen() {
    let mut s = fresh();
    assert_eq!(s.append(&vec![entry(2, 1, b"x"), entry(2, 2, b"y")]), Ok(()));
    assert_eq!(s.commit_index(1), Ok(()));
    s.save_conf_state(ConfState { voters: vec![1, 2, 3], learners: vec![9] });
    let reopened = RaftMachineStorage::new(s.rocksdb_engine_handler);
    assert_eq!(reopened.last_index(), 2);
    assert_eq!(reopened.uncommit_index(), vec![2]);
    assert_eq!(reopened.hard_state().commit, 1);
    assert_eq!(reopened.snapshot_metadata.index, 1);
    assert_eq!(reopened.snapshot_metadata.term, 2);
    let st = reopened.raft_state();
    assert_eq!(st.conf_state.voters, vec![1, 2, 3]);
    assert_eq!(st.conf_state.learners, vec![9]);
}

#[test]
fn snapshot_restores_namespace_on_fresh_store() {
    let kv = KvStorage::new();
    let mut a = fresh();
    kv.set(&mut a.rocksdb_engine_handler, "a".to_string(), "1".to_string());
    kv.set(&mut a.rocksdb_engine_handler, "/clusters/x".to_string(), "two".to_string());
    a.save_hard_state(HardState { term: 2, vote: 1, commit: 5 });
    a.save_conf_state(ConfState { voters: vec![1, 2], learners: vec![] });
    let snap = a.snapshot();
    assert_eq!(snap.metadata.index, 5);
    assert_eq!(snap.metadata.term, 2);
    assert_eq!(snap.metadata.conf_state.voters, vec![1, 2]);
    assert_eq!(a.first_index(), 5);

    let mut b = fresh();
    assert_eq!(b.apply_snapshot(snap), Ok(()));
    assert_eq!(kv.get(&b.rocksdb_engine_handler, "a".to_string()).unwrap(), Some("1".to_string()));
    assert_eq!(
        kv.get(&b.rocksdb_engine_handler, "/clusters/x".to_string()).unwrap(),
        Some("two".to_string())
    );
    assert_eq!(b.hard_state(), HardState { term: 2, vote: 1, commit: 5 });
    assert_eq!(b.conf_state().voters, vec![1, 2]);
    assert_eq!(b.snapshot_metadata.index, 5);
}

#[test]
fn stale_snapshot_is_refused_and_changes_nothing() {
    let kv = KvStorage::new();
    let mut s = fresh();
    s.save_first_index(11);
    kv.set(&mut s.rocksdb_engine_handler, "k".to_string(), "v".to_string());
    let snap = Snapshot {
        data: vec![1, 2, 3],
        metadata: SnapshotMetadata { conf_state: ConfState::default(), index: 3, term: 9 },
    };
    assert_eq!(s.apply_snapshot(snap), Err(StorageError::SnapshotOutOfDate));
    assert_eq!(s.first_index(), 11);
    assert_eq!(s.hard_state(), HardState { term: 0, vote: 0, commit: 0 });
    assert_eq!(kv.get(&s.rocksdb_engine_handler, "k".to_string()).unwrap(), Some("v".to_string()));
}

#[test]
fn snapshot_term_never_moves_back() {
    let mut s = fresh();
    s.save_hard_state(HardState { term: 7, vote: 2, commit: 1 });
    let snap = Snapshot {
        data: vec![],
        metadata: SnapshotMetadata { conf_state: ConfState::default(), index: 4, term: 3 },
    };
    assert_eq!(s.apply_snapshot(snap), Ok(()));
    assert_eq!(s.hard_state(), HardState { term: 7, vote: 2, commit: 4 });
    s.save_hard_state(HardState { term: 7, vote: 2, commit: 9 });
    let older = Snapshot {
        data: vec![],
        metadata: SnapshotMetadata { conf_state: ConfState::default(), index: 5, term: 8 },
    };
    assert_eq!(s.apply_snapshot(older), Ok(()));
    assert_eq!(s.hard_state(), HardState { term: 8, vote: 2, commit: 9 });
}

#[test]
fn unreadable_dump_restores_nothing() {
    let mut s = fresh();
    s.write_all(&vec![0xff]);
    assert!(s.rocksdb_engine_handler.read_all().is_empty());
}

#[test]
fn set_hard_state_commit_keeps_term_and_vote() {
    let mut s = fresh();
    s.save_hard_state(HardState { term: 3, vote: 2, commit: 1 });
    s.set_hard_state_commit(9);
    assert_eq!(s.hard_state(), HardState { term: 3, vote: 2, commit: 9 });
}

#[test]
fn snapshot_metadata_follows_hard_state() {
    let mut s = fresh();
    s.save_hard_state(HardState { term: 6, vote: 0, commit: 12 });
    let m = s.create_snapshot_metadata();
    assert_eq!(m.index, 12);
    assert_eq!(m.term, 6);
}

#[test]
fn last_index_marker_is_eight_big_endian_bytes() {
    let mut s = fresh();
    s.save_last_index(0x0102030405060708);
    let raw = s.rocksdb_engine_handler.read("/raft/last_index").unwrap();
    assert_eq!(raw, vec![1, 2, 3, 4, 5, 6, 7, 8]);
    assert_eq!(s.last_index(), 0x0102030405060708);
}

#[test]
fn export_restores_every_record() {
    let kv = KvStorage::new();
    let mut a = fresh();
    assert_eq!(a.append(&vec![entry(3, 1, b"x"), entry(3, 2, b"y")]), Ok(()));
    assert_eq!(a.commit_index(2), Ok(()));
    kv.set(&mut a.rocksdb_engine_handler, "k".to_string(), "v".to_string());
    let bytes = a.export();
    let mut b = fresh();
    b.write_all(&bytes);
    let b = RaftMachineStorage::new(b.rocksdb_engine_handler);
    assert_eq!(b.last_index(), 2);
    assert_eq!(b.hard_state(), HardState { term: 3, vote: 0, commit: 2 });
    assert_eq!(b.entries(1, 2).len(), 2);
    assert_eq!(b.uncommit_index(), vec![1]);
    assert_eq!(kv.get(&b.rocksdb_engine_handler, "k".to_string()).unwrap(), Some("v".to_string()));
    assert_eq!(b.rocksdb_engine_handler.read_all().len(), a.rocksdb_engine_handler.read_all().len());
}
