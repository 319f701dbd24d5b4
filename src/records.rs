//! The records that the consensus engine persists: log entries, hard state,
//! membership, snapshots, and their byte layouts.

use crate::codec::{
    append_bytes, be_value, bytes_from, encode_u64s, lemma_u64s_at, lemma_u64s_len, read_u64_at,
    u64s_bytes,
};
use vstd::prelude::*;

verus! {

/// The integer stored in the `k`-th eight-byte word of `b`.
pub open spec fn word(b: Seq<u8>, k: int) -> u64 {
    be_value(b.subrange(8 * k, 8 * k + 8))
}

/// The `n` integers stored from word `start` of `b` on.
pub open spec fn words(b: Seq<u8>, start: int, n: int) -> Seq<u64> {
    Seq::new(n as nat, |k: int| word(b, start + k))
}

/// Words read back from a framed list are the list's own integers.
pub proof fn lemma_words_of_frame(s: Seq<u64>, rest: Seq<u8>, start: int, n: int)
    requires
        0 <= start,
        0 <= n,
        start + n <= s.len(),
    ensures
        words(u64s_bytes(s) + rest, start, n) == s.subrange(start, start + n),
        (u64s_bytes(s) + rest).len() == 8 * s.len() + rest.len(),
{
    lemma_u64s_len(s);
    let b = u64s_bytes(s) + rest;
    assert forall|k: int| 0 <= k < n implies #[trigger] words(b, start, n)[k] == s[start + k] by {
        lemma_u64s_at(s, rest, start + k);
    }
    assert(words(b, start, n) =~= s.subrange(start, start + n));
}

/// Reads `n` integers from word `start` of `b` on.
pub fn read_words(b: &Vec<u8>, start: usize, n: usize) -> (r: Vec<u64>)
    requires
        8 * (start + n) <= b@.len(),
    ensures
        r@ == words(b@, start as int, n as int),
{
    let len = b.len();
    let mut out: Vec<u64> = Vec::new();
    let mut k: usize = 0;
    while k < n
        invariant
            k <= n,
            len == b@.len(),
            8 * (start + n) <= b@.len(),
            out@ == words(b@, start as int, k as int),
        decreases n - k,
    {
        let v = read_u64_at(b, 8 * (start + k));
        proof {
            assert(words(b@, start as int, k + 1) =~= words(b@, start as int, k as int).push(v));
        }
        out.push(v);
        k = k + 1;
    }
    out
}

/// One log entry of the consensus engine.
pub struct Entry {
    pub term: u64,
    pub index: u64,
    pub data: Vec<u8>,
}

/// An entry as plain values.
pub struct EntryModel {
    pub term: u64,
    pub index: u64,
    pub data: Seq<u8>,
}

impl View for Entry {
    type V = EntryModel;

    open spec fn view(&self) -> EntryModel {
        EntryModel { term: self.term, index: self.index, data: self.data@ }
    }
}

/// The durable term, vote and commit index of the consensus engine.
#[derive(Clone, Copy, PartialEq, Eq, Debug)]
pub struct HardState {
    pub term: u64,
    pub vote: u64,
    pub commit: u64,
}

/// The voters and learners of the group.
pub struct ConfState {
    pub voters: Vec<u64>,
    pub learners: Vec<u64>,
}

/// Membership as plain values.
pub struct ConfModel {
    pub voters: Seq<u64>,
    pub learners: Seq<u64>,
}

impl View for ConfState {
    type V = ConfModel;

    open spec fn view(&self) -> ConfModel {
        ConfModel { voters: self.voters@, learners: self.learners@ }
    }
}

/// The log position that a snapshot stands for.
pub struct SnapshotMetadata {
    pub conf_state: ConfState,
    pub index: u64,
    pub term: u64,
}

/// A point-in-time copy of the state machine with its log position.
pub struct Snapshot {
    pub data: Vec<u8>,
    pub metadata: SnapshotMetadata,
}

/// What the consensus engine reads back on restart.
pub struct RaftState {
    pub hard_state: HardState,
    pub conf_state: ConfState,
}

impl HardState {
    pub fn default() -> (r: HardState)
        ensures
            r == (HardState { term: 0, vote: 0, commit: 0 }),
    {
        HardState { term: 0, vote: 0, commit: 0 }
    }
}

impl ConfState {
    pub fn default() -> (r: ConfState)
        ensures
            r@ == (ConfModel { voters: Seq::empty(), learners: Seq::empty() }),
    {
        let r = ConfState { voters: Vec::new(), learners: Vec::new() };
        assert(r@.voters =~= Seq::<u64>::empty());
        assert(r@.learners =~= Seq::<u64>::empty());
        r
    }

    pub fn clone(&self) -> (r: ConfState)
        ensures
            r@ == self@,
    {
        ConfState { voters: copy_words(&self.voters), learners: copy_words(&self.learners) }
    }
}

impl SnapshotMetadata {
    pub fn default() -> (r: SnapshotMetadata)
        ensures
            r.index == 0,
            r.term == 0,
            r.conf_state@ == (ConfModel { voters: Seq::empty(), learners: Seq::empty() }),
    {
        SnapshotMetadata { conf_state: ConfState::default(), index: 0, term: 0 }
    }

    pub fn clone(&self) -> (r: SnapshotMetadata)
        ensures
            r.index == self.index,
            r.term == self.term,
            r.conf_state@ == self.conf_state@,
    {
        SnapshotMetadata { conf_state: self.conf_state.clone(), index: self.index, term: self.term }
    }
}

/// A copy of `v`.
pub fn copy_words(v: &Vec<u64>) -> (r: Vec<u64>)
    ensures
        r@ == v@,
{
    let mut out: Vec<u64> = Vec::new();
    let mut i: usize = 0;
    while i < v.len()
        invariant
            i <= v@.len(),
            out@ == v@.subrange(0, i as int),
        decreases v@.len() - i,
    {
        out.push(v[i]);
        proof {
            assert(v@.subrange(0, i + 1) =~= v@.subrange(0, i as int).push(v@[i as int]));
        }
        i = i + 1;
    }
    proof {
        assert(v@.subrange(0, v@.len() as int) =~= v@);
    }
    out
}

// ---- entries: term, index, then the payload

pub open spec fn entry_bytes(e: EntryModel) -> Seq<u8> {
    u64s_bytes(seq![e.term, e.index]) + e.data
}

pub open spec fn entry_of(b: Seq<u8>) -> Option<EntryModel> {
    if b.len() >= 16 {
        Some(EntryModel { term: word(b, 0), index: word(b, 1), data: b.subrange(16, b.len() as int) })
    } else {
        None
    }
}

pub proof fn lemma_entry_round_trip(e: EntryModel)
    ensures
        entry_of(entry_bytes(e)) == Some(e),
{
    let s = seq![e.term, e.index];
    lemma_words_of_frame(s, e.data, 0, 2);
    let b = entry_bytes(e);
    assert(words(b, 0, 2)[0] == word(b, 0));
    assert(words(b, 0, 2)[1] == word(b, 1));
    assert(b.subrange(16, b.len() as int) =~= e.data);
}

pub fn encode_entry(e: &Entry) -> (r: Vec<u8>)
    ensures
        r@ == entry_bytes(e@),
{
    let mut head: Vec<u64> = Vec::new();
    head.push(e.term);
    head.push(e.index);
    let mut out = encode_u64s(&head);
    proof {
        assert(head@ =~= seq![e.term, e.index]);
    }
    append_bytes(&mut out, &e.data);
    out
}

pub fn decode_entry(b: &Vec<u8>) -> (r: Option<Entry>)
    ensures
        match r {
            Some(e) => entry_of(b@) == Some(e@),
            None => entry_of(b@) is None,
        },
{
    if b.len() < 16 {
        return None;
    }
    let term = read_u64_at(b, 0);
    let index = read_u64_at(b, 8);
    let data = bytes_from(b, 16);
    Some(Entry { term, index, data })
}

// ---- hard state: term, vote, commit

pub open spec fn hard_state_bytes(h: HardState) -> Seq<u8> {
    u64s_bytes(seq![h.term, h.vote, h.commit])
}

pub open spec fn hard_state_of(b: Seq<u8>) -> Option<HardState> {
    if b.len() == 24 {
        Some(HardState { term: word(b, 0), vote: word(b, 1), commit: word(b, 2) })
    } else {
        None
    }
}

pub proof fn lemma_hard_state_round_trip(h: HardState)
    ensures
        hard_state_of(hard_state_bytes(h)) == Some(h),
{
    let s = seq![h.term, h.vote, h.commit];
    lemma_words_of_frame(s, Seq::empty(), 0, 3);
    let b = hard_state_bytes(h);
    assert(b + Seq::<u8>::empty() =~= b);
    assert(words(b, 0, 3)[0] == word(b, 0));
    assert(words(b, 0, 3)[1] == word(b, 1));
    assert(words(b, 0, 3)[2] == word(b, 2));
}

pub fn encode_hard_state(h: &HardState) -> (r: Vec<u8>)
    ensures
        r@ == hard_state_bytes(*h),
{
    let mut head: Vec<u64> = Vec::new();
    head.push(h.term);
    head.push(h.vote);
    head.push(h.commit);
    proof {
        assert(head@ =~= seq![h.term, h.vote, h.commit]);
    }
    encode_u64s(&head)
}

pub fn decode_hard_state(b: &Vec<u8>) -> (r: Option<HardState>)
    ensures
        r == hard_state_of(b@),
{
    if b.len() != 24 {
        return None;
    }
    Some(HardState { term: read_u64_at(b, 0), vote: read_u64_at(b, 8), commit: read_u64_at(b, 16) })
}

// ---- membership: the two counts, the voters, the learners

pub open spec fn conf_words(c: ConfModel) -> Seq<u64> {
    seq![c.voters.len() as u64, c.learners.len() as u64] + c.voters + c.learners
}

pub open spec fn conf_bytes(c: ConfModel) -> Seq<u8> {
    u64s_bytes(conf_words(c))
}

/// Membership read from word `at` of `b` on, with the number of words it takes.
pub open spec fn conf_at(b: Seq<u8>, at: int) -> Option<(ConfModel, int)> {
    if 8 * (at + 2) <= b.len() {
        let nv = word(b, at) as int;
        let nl = word(b, at + 1) as int;
        if 8 * (at + 2 + nv + nl) <= b.len() {
            Some(
                (
                    ConfModel {
                        voters: words(b, at + 2, nv),
                        learners: words(b, at + 2 + nv, nl),
                    },
                    2 + nv + nl,
                ),
            )
        } else {
            None
        }
    } else {
        None
    }
}

pub open spec fn conf_of(b: Seq<u8>) -> Option<ConfModel> {
    match conf_at(b, 0) {
        Some((c, n)) => if 8 * n == b.len() {
            Some(c)
        } else {
            None
        },
        None => None,
    }
}

/// Membership framed at word `at` of a list reads back whole.
pub proof fn lemma_conf_at_frame(head: Seq<u64>, c: ConfModel, rest: Seq<u8>)
    requires
        c.voters.len() <= u64::MAX,
        c.learners.len() <= u64::MAX,
    ensures
        conf_at(u64s_bytes(head + conf_words(c)) + rest, head.len() as int) == Some(
            (c, (2 + c.voters.len() + c.learners.len()) as int),
        ),
{
    let s = head + conf_words(c);
    let b = u64s_bytes(s) + rest;
    let at = head.len() as int;
    let nv = c.voters.len() as int;
    let nl = c.learners.len() as int;
    assert(s.len() == at + 2 + nv + nl);
    lemma_words_of_frame(s, rest, at, 2);
    assert(words(b, at, 2)[0] == word(b, at));
    assert(words(b, at, 2)[1] == word(b, at + 1));
    assert(s[at] == nv as u64);
    assert(s[at + 1] == nl as u64);
    lemma_words_of_frame(s, rest, at + 2, nv);
    lemma_words_of_frame(s, rest, at + 2 + nv, nl);
    assert(s.subrange(at + 2, at + 2 + nv) =~= c.voters);
    assert(s.subrange(at + 2 + nv, at + 2 + nv + nl) =~= c.learners);
}

pub proof fn lemma_conf_round_trip(c: ConfModel)
    requires
        c.voters.len() <= u64::MAX,
        c.learners.len() <= u64::MAX,
    ensures
        conf_of(conf_bytes(c)) == Some(c),
{
    let e = Seq::<u64>::empty();
    assert(e + conf_words(c) =~= conf_words(c));
    assert(conf_bytes(c) + Seq::<u8>::empty() =~= conf_bytes(c));
    lemma_conf_at_frame(e, c, Seq::empty());
    lemma_u64s_len(conf_words(c));
}

/// Appends the words of `c` to `ws`.
fn push_conf_words(ws: &mut Vec<u64>, c: &ConfState)
    ensures
        final(ws)@ == old(ws)@ + conf_words(c@),
{
    ws.push(c.voters.len() as u64);
    ws.push(c.learners.len() as u64);
    let mut i: usize = 0;
    let ghost base = ws@;
    while i < c.voters.len()
        invariant
            i <= c.voters@.len(),
            ws@ == base + c.voters@.subrange(0, i as int),
        decreases c.voters@.len() - i,
    {
        ws.push(c.voters[i]);
        proof {
            assert(c.voters@.subrange(0, i + 1) =~= c.voters@.subrange(0, i as int).push(
                c.voters@[i as int],
            ));
        }
        i = i + 1;
    }
    let mut j: usize = 0;
    let ghost base2 = ws@;
    while j < c.learners.len()
        invariant
            j <= c.learners@.len(),
            ws@ == base2 + c.learners@.subrange(0, j as int),
        decreases c.learners@.len() - j,
    {
        ws.push(c.learners[j]);
        proof {
            assert(c.learners@.subrange(0, j + 1) =~= c.learners@.subrange(0, j as int).push(
                c.learners@[j as int],
            ));
        }
        j = j + 1;
    }
    proof {
        assert(c.voters@.subrange(0, c.voters@.len() as int) =~= c.voters@);
        assert(c.learners@.subrange(0, c.learners@.len() as int) =~= c.learners@);
        assert(ws@ =~= old(ws)@ + conf_words(c@));
    }
}

pub fn encode_conf_state(c: &ConfState) -> (r: Vec<u8>)
    ensures
        r@ == conf_bytes(c@),
{
    let mut ws: Vec<u64> = Vec::new();
    push_conf_words(&mut ws, c);
    proof {
        assert(ws@ =~= conf_words(c@));
    }
    encode_u64s(&ws)
}

/// Reads membership from word `at` of `b` on.
fn read_conf_at(b: &Vec<u8>, at: usize) -> (r: Option<(ConfState, usize)>)
    ensures
        match r {
            Some((c, n)) => conf_at(b@, at as int) == Some((c@, n as int)),
            None => conf_at(b@, at as int) is None,
        },
{
    let words_len = b.len() / 8;
    if at > words_len || words_len - at < 2 {
        return None;
    }
    let nv = read_u64_at(b, 8 * at);
    let nl = read_u64_at(b, 8 * (at + 1));
    assert(word(b@, at as int) == nv);
    assert(word(b@, at + 1) == nl);
    let room = words_len - at - 2;
    if nv > room as u64 || nl > (room as u64) - nv {
        return None;
    }
    let nv = nv as usize;
    let nl = nl as usize;
    let voters = read_words(b, at + 2, nv);
    let learners = read_words(b, at + 2 + nv, nl);
    Some((ConfState { voters, learners }, 2 + nv + nl))
}

pub fn decode_conf_state(b: &Vec<u8>) -> (r: Option<ConfState>)
    ensures
        match r {
            Some(c) => conf_of(b@) == Some(c@),
            None => conf_of(b@) is None,
        },
{
    match read_conf_at(b, 0) {
        Some((c, n)) => {
            if n <= b.len() / 8 && 8 * n == b.len() {
                Some(c)
            } else {
                None
            }
        },
        None => None,
    }
}

// ---- snapshots: index, term, membership, then the state-machine dump

/// A snapshot as plain values.
pub struct SnapshotModel {
    pub index: u64,
    pub term: u64,
    pub conf: ConfModel,
    pub data: Seq<u8>,
}

impl Snapshot {
    pub open spec fn model(&self) -> SnapshotModel {
        SnapshotModel {
            index: self.metadata.index,
            term: self.metadata.term,
            conf: self.metadata.conf_state@,
            data: self.data@,
        }
    }

    pub fn default() -> (r: Snapshot)
        ensures
            r.model().index == 0,
            r.model().term == 0,
            r.model().data.len() == 0,
    {
        Snapshot { data: Vec::new(), metadata: SnapshotMetadata::default() }
    }
}

pub open spec fn snapshot_bytes(s: SnapshotModel) -> Seq<u8> {
    u64s_bytes(seq![s.index, s.term] + conf_words(s.conf)) + s.data
}

pub open spec fn snapshot_of(b: Seq<u8>) -> Option<SnapshotModel> {
    if b.len() >= 16 {
        match conf_at(b, 2) {
            Some((c, n)) => Some(
                SnapshotModel {
                    index: word(b, 0),
                    term: word(b, 1),
                    conf: c,
                    data: b.subrange(8 * (2 + n), b.len() as int),
                },
            ),
            None => None,
        }
    } else {
        None
    }
}

pub proof fn lemma_snapshot_round_trip(s: SnapshotModel)
    requires
        s.conf.voters.len() <= u64::MAX,
        s.conf.learners.len() <= u64::MAX,
    ensures
        snapshot_of(snapshot_bytes(s)) == Some(s),
{
    let head = seq![s.index, s.term];
    let all = head + conf_words(s.conf);
    let b = snapshot_bytes(s);
    lemma_conf_at_frame(head, s.conf, s.data);
    lemma_words_of_frame(all, s.data, 0, 2);
    assert(words(b, 0, 2)[0] == word(b, 0));
    assert(words(b, 0, 2)[1] == word(b, 1));
    assert(all[0] == s.index && all[1] == s.term);
    lemma_u64s_len(all);
    assert(b.subrange(8 * all.len() as int, b.len() as int) =~= s.data);
}

pub fn encode_snapshot(sn: &Snapshot) -> (r: Vec<u8>)
    ensures
        r@ == snapshot_bytes(sn.model()),
{
    let mut ws: Vec<u64> = Vec::new();
    ws.push(sn.metadata.index);
    ws.push(sn.metadata.term);
    push_conf_words(&mut ws, &sn.metadata.conf_state);
    proof {
        assert(ws@ =~= seq![sn.metadata.index, sn.metadata.term] + conf_words(
            sn.metadata.conf_state@,
        ));
    }
    let mut out = encode_u64s(&ws);
    append_bytes(&mut out, &sn.data);
    out
}

pub fn decode_snapshot(b: &Vec<u8>) -> (r: Option<Snapshot>)
    ensures
        match r {
            Some(sn) => snapshot_of(b@) == Some(sn.model()),
            None => snapshot_of(b@) is None,
        },
{
    if b.len() < 16 {
        return None;
    }
    let index = read_u64_at(b, 0);
    let term = read_u64_at(b, 8);
    match read_conf_at(b, 2) {
        Some((c, n)) => {
            let data = bytes_from(b, 8 * (2 + n));
            Some(Snapshot { data, metadata: SnapshotMetadata { conf_state: c, index, term } })
        },
        None => None,
    }
}

// ---- the uncommitted indexes: one word each

pub open spec fn indexes_of(b: Seq<u8>) -> Seq<u64> {
    if b.len() % 8 == 0 {
        words(b, 0, (b.len() / 8) as int)
    } else {
        Seq::empty()
    }
}

pub proof fn lemma_indexes_round_trip(s: Seq<u64>)
    ensures
        indexes_of(u64s_bytes(s)) == s,
{
    lemma_u64s_len(s);
    assert(u64s_bytes(s) + Seq::<u8>::empty() =~= u64s_bytes(s));
    lemma_words_of_frame(s, Seq::empty(), 0, s.len() as int);
    assert(s.subrange(0, s.len() as int) =~= s);
}

pub fn decode_indexes(b: &Vec<u8>) -> (r: Vec<u64>)
    ensures
        r@ == indexes_of(b@),
{
    if b.len() % 8 != 0 {
        return Vec::new();
    }
    read_words(b, 0, b.len() / 8)
}

} // verus!
