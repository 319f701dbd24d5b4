//! The names under which records are stored: raft markers and entries,
//! cluster metadata, journal segments and MQTT resources.

use vstd::prelude::*;
use vstd::string::StringExecFns;

verus! {

/// The decimal digit `d`.
pub open spec fn digit_char(d: nat) -> char {
    if d == 0 {
        '0'
    } else if d == 1 {
        '1'
    } else if d == 2 {
        '2'
    } else if d == 3 {
        '3'
    } else if d == 4 {
        '4'
    } else if d == 5 {
        '5'
    } else if d == 6 {
        '6'
    } else if d == 7 {
        '7'
    } else if d == 8 {
        '8'
    } else {
        '9'
    }
}

/// The decimal notation of `n`: no sign, no leading zero.
pub open spec fn decimal(n: nat) -> Seq<char>
    decreases n,
{
    if n < 10 {
        seq![digit_char(n)]
    } else {
        decimal(n / 10).push(digit_char(n % 10))
    }
}

proof fn lemma_digit_char_injective(a: nat, b: nat)
    requires
        a < 10,
        b < 10,
        digit_char(a) == digit_char(b),
    ensures
        a == b,
{
}

proof fn lemma_decimal_len(n: nat)
    ensures
        decimal(n).len() >= 1,
        n >= 10 ==> decimal(n).len() >= 2,
    decreases n,
{
    if n >= 10 {
        lemma_decimal_len(n / 10);
    }
}

/// Distinct numbers have distinct decimal notations.
pub proof fn lemma_decimal_injective(a: nat, b: nat)
    requires
        decimal(a) == decimal(b),
    ensures
        a == b,
    decreases a,
{
    lemma_decimal_len(a);
    lemma_decimal_len(b);
    if a < 10 && b < 10 {
        assert(decimal(a)[0] == digit_char(a));
        assert(decimal(b)[0] == digit_char(b));
        lemma_digit_char_injective(a, b);
    } else if a >= 10 && b >= 10 {
        let da = decimal(a);
        assert(da.last() == digit_char(a % 10));
        assert(decimal(b).last() == digit_char(b % 10));
        lemma_digit_char_injective(a % 10, b % 10);
        assert(decimal(a / 10) =~= da.drop_last());
        assert(decimal(b / 10) =~= decimal(b).drop_last());
        lemma_decimal_injective(a / 10, b / 10);
    } else if a < 10 {
        assert(decimal(a).len() == 1);
    } else {
        assert(decimal(b).len() == 1);
    }
}

/// Relies on std's `u64::to_string`, which writes the number in decimal
/// through `Display`: digits only, without sign or leading zeros.
#[verifier::external_body]
pub(crate) fn decimal_string(n: u64) -> (r: String)
    ensures
        r@ == decimal(n as nat),
{
    n.to_string()
}

/// `a` followed by `b`.
fn cat(a: &str, b: &str) -> (r: String)
    ensures
        r@ == a@ + b@,
{
    let mut s = String::from_str(a);
    s.append(b);
    s
}

/// `a`, `b` and `c` in turn.
fn cat3(a: &str, b: &str, c: &str) -> (r: String)
    ensures
        r@ == a@ + b@ + c@,
{
    let mut s = String::from_str(a);
    s.append(b);
    s.append(c);
    s
}

/// `a`, `b`, `c`, `d` and `e` in turn.
fn cat5(a: &str, b: &str, c: &str, d: &str, e: &str) -> (r: String)
    ensures
        r@ == a@ + b@ + c@ + d@ + e@,
{
    let mut s = String::from_str(a);
    s.append(b);
    s.append(c);
    s.append(d);
    s.append(e);
    s
}

pub open spec fn first_index_key() -> Seq<char> {
    "/raft/first_index"@
}

pub open spec fn last_index_key() -> Seq<char> {
    "/raft/last_index"@
}

pub open spec fn hard_state_key() -> Seq<char> {
    "/raft/hard_state"@
}

pub open spec fn conf_state_key() -> Seq<char> {
    "/raft/conf_state"@
}

pub open spec fn uncommit_key() -> Seq<char> {
    "/raft/uncommit_index"@
}

pub open spec fn snapshot_key() -> Seq<char> {
    "/raft/snapshot"@
}

/// The key of the log entry at `idx`.
pub open spec fn entry_key(idx: u64) -> Seq<char> {
    "/raft/entry/"@ + decimal(idx as nat)
}

/// The raft markers, as opposed to entries and application data.
pub open spec fn is_raft_marker(k: Seq<char>) -> bool {
    k == first_index_key() || k == last_index_key() || k == hard_state_key() || k
        == conf_state_key() || k == uncommit_key() || k == snapshot_key()
}

/// Entry keys are distinct from each other and from the raft markers.
pub proof fn lemma_entry_keys_distinct(a: u64, b: u64)
    ensures
        entry_key(a) == entry_key(b) ==> a == b,
        !is_raft_marker(entry_key(a)),
{
    reveal_strlit("/raft/entry/");
    reveal_strlit("/raft/first_index");
    reveal_strlit("/raft/last_index");
    reveal_strlit("/raft/hard_state");
    reveal_strlit("/raft/conf_state");
    reveal_strlit("/raft/uncommit_index");
    reveal_strlit("/raft/snapshot");
    let p = "/raft/entry/"@;
    if entry_key(a) == entry_key(b) {
        assert(decimal(a as nat) =~= entry_key(a).subrange(12, entry_key(a).len() as int));
        assert(decimal(b as nat) =~= entry_key(b).subrange(12, entry_key(b).len() as int));
        lemma_decimal_injective(a as nat, b as nat);
    }
    assert(entry_key(a)[6] == 'e');
    assert(first_index_key()[6] == 'f');
    assert(last_index_key()[6] == 'l');
    assert(hard_state_key()[6] == 'h');
    assert(conf_state_key()[6] == 'c');
    assert(uncommit_key()[6] == 'u');
    assert(snapshot_key()[6] == 's');
}

/// The raft markers are distinct from each other.
pub proof fn lemma_raft_markers_distinct()
    ensures
        first_index_key() != last_index_key(),
        first_index_key() != hard_state_key(),
        first_index_key() != conf_state_key(),
        first_index_key() != uncommit_key(),
        first_index_key() != snapshot_key(),
        last_index_key() != hard_state_key(),
        last_index_key() != conf_state_key(),
        last_index_key() != uncommit_key(),
        last_index_key() != snapshot_key(),
        hard_state_key() != conf_state_key(),
        hard_state_key() != uncommit_key(),
        hard_state_key() != snapshot_key(),
        conf_state_key() != uncommit_key(),
        conf_state_key() != snapshot_key(),
        uncommit_key() != snapshot_key(),
{
    reveal_strlit("/raft/first_index");
    reveal_strlit("/raft/last_index");
    reveal_strlit("/raft/hard_state");
    reveal_strlit("/raft/conf_state");
    reveal_strlit("/raft/uncommit_index");
    reveal_strlit("/raft/snapshot");
    assert(first_index_key()[6] == 'f');
    assert(last_index_key()[6] == 'l');
    assert(hard_state_key()[6] == 'h');
    assert(conf_state_key()[6] == 'c');
    assert(uncommit_key()[6] == 'u');
    assert(snapshot_key()[6] == 's');
}

pub fn key_name_by_first_index() -> (r: String)
    ensures
        r@ == first_index_key(),
{
    String::from_str("/raft/first_index")
}

pub fn key_name_by_last_index() -> (r: String)
    ensures
        r@ == last_index_key(),
{
    String::from_str("/raft/last_index")
}

pub fn key_name_by_hard_state() -> (r: String)
    ensures
        r@ == hard_state_key(),
{
    String::from_str("/raft/hard_state")
}

pub fn key_name_by_conf_state() -> (r: String)
    ensures
        r@ == conf_state_key(),
{
    String::from_str("/raft/conf_state")
}

pub fn key_name_by_entry(idx: u64) -> (r: String)
    ensures
        r@ == entry_key(idx),
{
    let d = decimal_string(idx);
    cat("/raft/entry/", d.as_str())
}

pub fn key_name_uncommit() -> (r: String)
    ensures
        r@ == uncommit_key(),
{
    String::from_str("/raft/uncommit_index")
}

pub fn key_name_snapshot() -> (r: String)
    ensures
        r@ == snapshot_key(),
{
    String::from_str("/raft/snapshot")
}

pub fn key_cluster(cluster_type: &String, cluster_name: &String) -> (r: String)
    ensures
        r@ == "/clusters/"@ + cluster_type@ + "/"@ + cluster_name@,
{
    let mut s = cat3("/clusters/", cluster_type.as_str(), "/");
    s.append(cluster_name.as_str());
    s
}

pub fn key_cluster_prefix() -> (r: String)
    ensures
        r@ == "/clusters/"@,
{
    String::from_str("/clusters/")
}

pub fn key_cluster_prefix_by_type(cluster_type: &String) -> (r: String)
    ensures
        r@ == "/clusters/"@ + cluster_type@,
{
    cat("/clusters/", cluster_type.as_str())
}

pub fn key_node(cluster_name: &String, node_id: u64) -> (r: String)
    ensures
        r@ == "/clusters/node/"@ + cluster_name@ + "/"@ + decimal(node_id as nat),
{
    let d = decimal_string(node_id);
    let mut s = cat3("/clusters/node/", cluster_name.as_str(), "/");
    s.append(d.as_str());
    s
}

pub fn key_node_prefix(cluster_name: &String) -> (r: String)
    ensures
        r@ == "/clusters/node/"@ + cluster_name@,
{
    cat("/clusters/node/", cluster_name.as_str())
}

pub fn key_node_prefix_all() -> (r: String)
    ensures
        r@ == "/clusters/node/"@,
{
    String::from_str("/clusters/node/")
}

pub fn key_resource_config(cluster_name: String, resource_key: String) -> (r: String)
    ensures
        r@ == "/config/"@ + cluster_name@ + "/"@ + resource_key@,
{
    let mut s = cat3("/config/", cluster_name.as_str(), "/");
    s.append(resource_key.as_str());
    s
}

pub fn key_resource_idempotent(cluster_name: &String, produce_id: &String, seq_num: u64) -> (r:
    String)
    ensures
        r@ == "/idempotent/"@ + cluster_name@ + "/"@ + produce_id@ + "/"@ + decimal(
            seq_num as nat,
        ),
{
    let d = decimal_string(seq_num);
    let mut s = cat5("/idempotent/", cluster_name.as_str(), "/", produce_id.as_str(), "/");
    s.append(d.as_str());
    s
}

pub fn key_shard_prefix(cluster_name: &String) -> (r: String)
    ensures
        r@ == "/journal/shard/"@ + cluster_name@,
{
    cat("/journal/shard/", cluster_name.as_str())
}

pub fn key_segment(cluster_name: &String, shard_name: &String, segment_seq: u64) -> (r: String)
    ensures
        r@ == "/journal/segment/"@ + cluster_name@ + "/"@ + shard_name@ + "/"@ + decimal(
            segment_seq as nat,
        ),
{
    let d = decimal_string(segment_seq);
    let mut s = cat5("/journal/segment/", cluster_name.as_str(), "/", shard_name.as_str(), "/");
    s.append(d.as_str());
    s
}

pub fn key_segment_cluster_prefix(cluster_name: &String) -> (r: String)
    ensures
        r@ == "/journal/segment/"@ + cluster_name@,
{
    cat("/journal/segment/", cluster_name.as_str())
}

pub fn key_segment_shard_prefix(cluster_name: &String, shard_name: &String) -> (r: String)
    ensures
        r@ == "/journal/segment/"@ + cluster_name@ + "/"@ + shard_name@,
{
    let mut s = cat3("/journal/segment/", cluster_name.as_str(), "/");
    s.append(shard_name.as_str());
    s
}

pub fn storage_key_mqtt_user(cluster_name: &String, user_name: &String) -> (r: String)
    ensures
        r@ == "/mqtt/user/"@ + cluster_name@ + "/"@ + user_name@,
{
    let mut s = cat3("/mqtt/user/", cluster_name.as_str(), "/");
    s.append(user_name.as_str());
    s
}

pub fn storage_key_mqtt_user_cluster_prefix(cluster_name: &String) -> (r: String)
    ensures
        r@ == "/mqtt/user/"@ + cluster_name@,
{
    cat("/mqtt/user/", cluster_name.as_str())
}

pub fn storage_key_mqtt_topic(cluster_name: &String, user_name: &String) -> (r: String)
    ensures
        r@ == "/mqtt/topic/"@ + cluster_name@ + "/"@ + user_name@,
{
    let mut s = cat3("/mqtt/topic/", cluster_name.as_str(), "/");
    s.append(user_name.as_str());
    s
}

pub fn storage_key_mqtt_topic_cluster_prefix(cluster_name: &String) -> (r: String)
    ensures
        r@ == "/mqtt/topic/"@ + cluster_name@,
{
    cat("/mqtt/topic/", cluster_name.as_str())
}

pub fn storage_key_mqtt_session(cluster_name: &String, client_id: &String) -> (r: String)
    ensures
        r@ == "/mqtt/session/"@ + cluster_name@ + "/"@ + client_id@,
{
    let mut s = cat3("/mqtt/session/", cluster_name.as_str(), "/");
    s.append(client_id.as_str());
    s
}

pub fn storage_key_mqtt_session_cluster_prefix(cluster_name: &String) -> (r: String)
    ensures
        r@ == "/mqtt/session/"@ + cluster_name@,
{
    cat("/mqtt/session/", cluster_name.as_str())
}

pub fn storage_key_mqtt_last_will(cluster_name: &String, client_id: &String) -> (r: String)
    ensures
        r@ == "/mqtt/lastwill/"@ + cluster_name@ + "/"@ + client_id@,
{
    let mut s = cat3("/mqtt/lastwill/", cluster_name.as_str(), "/");
    s.append(client_id.as_str());
    s
}

pub fn storage_key_mqtt_last_will_prefix(cluster_name: &String) -> (r: String)
    ensures
        r@ == "/mqtt/lastwill/"@ + cluster_name@,
{
    cat("/mqtt/lastwill/", cluster_name.as_str())
}

pub fn storage_key_mqtt_node_sub_group_leader(cluster_name: &String) -> (r: String)
    ensures
        r@ == "/mqtt/sub_group_leader/"@ + cluster_name@,
{
    cat("/mqtt/sub_group_leader/", cluster_name.as_str())
}

pub fn storage_key_mqtt_acl(cluster_name: &String, resource_type: &String, resource_name: &String) -> (r: String)
    ensures
        r@ == "/mqtt/acl/"@ + cluster_name@ + "/"@ + resource_type@ + "/"@ + resource_name@,
{
    let mut s = cat5("/mqtt/acl/", cluster_name.as_str(), "/", resource_type.as_str(), "/");
    s.append(resource_name.as_str());
    s
}

pub fn storage_key_mqtt_acl_prefix(cluster_name: &String) -> (r: String)
    ensures
        r@ == "/mqtt/acl/"@ + cluster_name@,
{
    cat("/mqtt/acl/", cluster_name.as_str())
}

pub fn storage_key_mqtt_blacklist(cluster_name: &String, black_list_type: &String, resource_name: &String) -> (r: String)
    ensures
        r@ == "/mqtt/blacklist/"@ + cluster_name@ + "/"@ + black_list_type@ + "/"@ + resource_name@,
{
    let mut s = cat5("/mqtt/blacklist/", cluster_name.as_str(), "/", black_list_type.as_str(), "/");
    s.append(resource_name.as_str());
    s
}

pub fn storage_key_mqtt_blacklist_prefix(cluster_name: &String) -> (r: String)
    ensures
        r@ == "/mqtt/blacklist/"@ + cluster_name@,
{
    cat("/mqtt/blacklist/", cluster_name.as_str())
}

} // verus!
