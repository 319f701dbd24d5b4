//! The retry policy of calls to peers: which address each attempt goes to,
//! how long to wait after a failure, and when to give up.

use vstd::prelude::*;
use vstd::string::StringExecFns;

verus! {

/// The number of retries after the first attempt.
pub open spec fn retry_bound() -> usize {
    3
}

/// The number of retries after the first attempt.
pub fn retry_times() -> (r: usize)
    ensures
        r == retry_bound(),
{
    3
}

/// Seconds to wait after failed attempt number `times` (counted from one).
pub fn retry_sleep_time(times: usize) -> (r: u64)
    requires
        2 * times <= u64::MAX,
    ensures
        r == 2 * times,
{
    (times as u64) * 2
}

/// The services that a placement-center node offers.
#[derive(Clone, Copy, PartialEq, Eq, Structural, Debug)]
pub enum PlacementCenterService {
    Kv,
    OpenRaft,
}

/// The procedures of those services.
#[derive(Clone, Copy, PartialEq, Eq, Structural, Debug)]
pub enum PlacementCenterInterface {
    KvSet,
    KvGet,
    KvDelete,
    KvExists,
    Vote,
    Append,
    Snapshot,
}

pub open spec fn offers(service: PlacementCenterService, interface: PlacementCenterInterface) -> bool {
    match service {
        PlacementCenterService::Kv => interface is KvSet || interface is KvGet || interface is KvDelete
            || interface is KvExists,
        PlacementCenterService::OpenRaft => interface is Vote || interface is Append
            || interface is Snapshot,
    }
}

/// Whether `service` offers `interface`; a call of any other is refused
/// before it is sent.
pub fn service_offers(service: PlacementCenterService, interface: PlacementCenterInterface) -> (r:
    bool)
    ensures
        r == offers(service, interface),
{
    match service {
        PlacementCenterService::Kv => match interface {
            PlacementCenterInterface::KvSet => true,
            PlacementCenterInterface::KvGet => true,
            PlacementCenterInterface::KvDelete => true,
            PlacementCenterInterface::KvExists => true,
            _ => false,
        },
        PlacementCenterService::OpenRaft => match interface {
            PlacementCenterInterface::Vote => true,
            PlacementCenterInterface::Append => true,
            PlacementCenterInterface::Snapshot => true,
            _ => false,
        },
    }
}

/// What follows a failed attempt.
#[derive(Clone, Copy, PartialEq, Eq, Structural, Debug)]
pub enum RetryStep {
    /// Wait this many seconds, then try the next address.
    Retry(u64),
    /// Give up and report the last error.
    GiveUp,
}

/// The state of one call across its attempts.
pub struct RetryCall {
    /// The attempts that have failed so far.
    pub attempt: usize,
    /// The number of candidate addresses.
    pub n_addrs: usize,
}

impl RetryCall {
    pub open spec fn wf(&self) -> bool {
        self.n_addrs > 0 && self.attempt <= retry_bound()
    }

    /// A call over `n_addrs` candidate addresses, none tried yet; none
    /// where there is no address.
    pub fn new(n_addrs: usize) -> (r: Option<RetryCall>)
        ensures
            n_addrs == 0 <==> r is None,
            r matches Some(c) ==> c.wf() && c.attempt == 0 && c.n_addrs == n_addrs,
    {
        if n_addrs == 0 {
            None
        } else {
            Some(RetryCall { attempt: 0, n_addrs })
        }
    }

    /// The address the next attempt goes to: the attempts rotate over the
    /// candidates, starting with the first.
    pub fn next_address(&self) -> (r: usize)
        requires
            self.wf(),
        ensures
            r == self.attempt % self.n_addrs,
            r < self.n_addrs,
    {
        self.attempt % self.n_addrs
    }

    /// Records a failed attempt: after the last retry the call gives up,
    /// otherwise it waits twice the number of failed attempts, in seconds.
    pub fn on_failure(&mut self) -> (r: RetryStep)
        requires
            old(self).wf(),
        ensures
            final(self).wf(),
            final(self).n_addrs == old(self).n_addrs,
            old(self).attempt >= retry_bound() ==> r == RetryStep::GiveUp && final(self).attempt == old(self).attempt,
            old(self).attempt < retry_bound() ==> r == RetryStep::Retry((2 * (old(self).attempt + 1)) as u64)
                && final(self).attempt == old(self).attempt + 1,
    {
        if self.attempt >= retry_times() {
            return RetryStep::GiveUp;
        }
        self.attempt = self.attempt + 1;
        RetryStep::Retry(retry_sleep_time(self.attempt))
    }
}

/// A call never makes more attempts than the retry bound plus the first
/// one, whatever the outcomes.
pub proof fn lemma_attempts_bounded(c: RetryCall)
    requires
        c.wf(),
    ensures
        c.attempt + 1 <= retry_bound() + 1,
{
}

/// The address of the endpoint of a peer at `addr`.
pub fn endpoint_uri(addr: &String) -> (r: String)
    ensures
        r@ == "http://"@ + addr@,
{
    let mut s = String::from_str("http://");
    s.append(addr.as_str());
    s
}

/// Connects to the key-value service of one peer.
pub struct KvServiceManager {
    pub addr: String,
}

impl KvServiceManager {
    pub fn new(addr: String) -> (r: Self)
        ensures
            r.addr == addr,
    {
        KvServiceManager { addr }
    }
}

/// Connects to the consensus transport service of one peer.
pub struct OpenRaftServiceManager {
    pub addr: String,
}

impl OpenRaftServiceManager {
    pub fn new(addr: String) -> (r: Self)
        ensures
            r.addr == addr,
    {
        OpenRaftServiceManager { addr }
    }
}

} // verus!
