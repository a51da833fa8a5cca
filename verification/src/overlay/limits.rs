//! Per-peer rate limits on overlay operations: FIND_NODE, ping and invite
//! issuing. Each peer's operations are limited per rolling window: an
//! operation is allowed when fewer than the limit were allowed in the last
//! window. Time is counted in milliseconds since the limiter was made; the
//! clock is read at one place only, and every decision is a function of the
//! time read.
use vstd::prelude::*;
use std::time::{Duration, Instant};
use crate::errors::ProtocolError;
use crate::node_id::NodeId;

verus! {

#[verifier::external_type_specification]
#[verifier::external_body]
pub struct ExInstant(Instant);

/// Reads the monotonic clock with `Instant::now()`. Nothing is stated of
/// the value: it is the time of the call.
#[verifier::external_body]
fn instant_now() -> (r: Instant) {
    Instant::now()
}

/// `Instant::duration_since`: the time from `earlier` to `later`, zero when
/// `earlier` is later. Nothing is stated of the value: it depends on when
/// the clock was read.
#[verifier::external_body]
fn duration_since(later: &Instant, earlier: &Instant) -> (r: Duration) {
    later.duration_since(*earlier)
}

/// `Duration::as_millis`: the whole milliseconds of a duration. Nothing is
/// stated of the value: `Duration` is opaque to the proofs.
#[verifier::external_body]
fn duration_millis(d: &Duration) -> (r: u128) {
    d.as_millis()
}

/// A rate limit: at most `max_per_window` operations in any window of
/// `window_ms` milliseconds.
#[derive(Clone, Copy, Debug)]
pub struct LimitConfig {
    pub max_per_window: u32,
    pub window_ms: u64,
}

/// The FIND_NODE limit: 60 per minute for an authenticated peer, 10 per
/// minute otherwise.
pub open spec fn find_limit(authenticated: bool) -> LimitConfig {
    LimitConfig { max_per_window: if authenticated { 60 } else { 10 }, window_ms: 60_000 }
}

impl LimitConfig {
    /// FIND_NODE from an authenticated peer: 60 per minute.
    pub fn find_node() -> (c: LimitConfig)
        ensures
            c == find_limit(true),
    {
        LimitConfig { max_per_window: 60, window_ms: 60_000 }
    }

    /// Ping: 120 per minute.
    pub fn ping() -> (c: LimitConfig)
        ensures
            c == (LimitConfig { max_per_window: 120, window_ms: 60_000 }),
    {
        LimitConfig { max_per_window: 120, window_ms: 60_000 }
    }

    /// Invite issuing: 8 per rolling day.
    pub fn invite() -> (c: LimitConfig)
        ensures
            c == (LimitConfig { max_per_window: 8, window_ms: 86_400_000 }),
    {
        LimitConfig { max_per_window: 8, window_ms: 86_400_000 }
    }

    /// FIND_NODE from an unauthenticated peer (no deposit): 10 per minute.
    pub fn find_unauth() -> (c: LimitConfig)
        ensures
            c == find_limit(false),
    {
        LimitConfig { max_per_window: 10, window_ms: 60_000 }
    }
}

/// Milliseconds from `start` to `now`, zero when `now` is earlier.
pub open spec fn elapsed_ms(start: u64, now: u64) -> nat {
    if now >= start {
        (now - start) as nat
    } else {
        0
    }
}

/// Whether a window of `window_ms` that began at `start` has passed by
/// `now`.
pub open spec fn window_passed(start: u64, now: u64, window_ms: u64) -> bool {
    elapsed_ms(start, now) >= window_ms
}

/// Whether a window of `window_ms` milliseconds that began at `start_ms`
/// has passed by `now_ms`.
pub fn window_passed_at(start_ms: u64, now_ms: u64, window_ms: u64) -> (r: bool)
    ensures
        r == window_passed(start_ms, now_ms, window_ms),
{
    if now_ms >= start_ms {
        now_ms - start_ms >= window_ms
    } else {
        window_ms == 0
    }
}

/// The times of allowed operations that still count at `now`: those whose
/// window has not passed, in order.
pub open spec fn in_window(times: Seq<u64>, now: u64, window_ms: u64) -> Seq<u64>
    decreases times.len(),
{
    if times.len() == 0 {
        Seq::empty()
    } else if window_passed(times.last(), now, window_ms) {
        in_window(times.drop_last(), now, window_ms)
    } else {
        in_window(times.drop_last(), now, window_ms).push(times.last())
    }
}

/// Whether an operation at `now` is allowed under `config`, given the times
/// of the operations allowed before: fewer than the limit still count.
pub open spec fn consume_allowed(times: Seq<u64>, config: LimitConfig, now: u64) -> bool {
    in_window(times, now, config.window_ms).len() < config.max_per_window
}

/// The times kept after an operation at `now`: those that still count, and
/// `now` when the operation was allowed.
pub open spec fn consumed(times: Seq<u64>, config: LimitConfig, now: u64) -> Seq<u64> {
    if consume_allowed(times, config, now) {
        in_window(times, now, config.window_ms).push(now)
    } else {
        in_window(times, now, config.window_ms)
    }
}

/// The times whose window has not passed are all kept, in order.
pub proof fn lemma_in_window_keeps(times: Seq<u64>, now: u64, window_ms: u64)
    requires
        forall|i: int| 0 <= i < times.len() ==> !window_passed(#[trigger] times[i], now, window_ms),
    ensures
        in_window(times, now, window_ms) == times,
    decreases times.len(),
{
    if times.len() > 0 {
        let t = times.drop_last();
        assert forall|i: int| 0 <= i < t.len() implies !window_passed(#[trigger] t[i], now, window_ms) by {
            assert(t[i] == times[i]);
        }
        lemma_in_window_keeps(t, now, window_ms);
        assert(!window_passed(times[times.len() - 1], now, window_ms));
        assert(t.push(times.last()) =~= times);
    }
}

/// Within one window at most `max_per_window` operations are allowed: once
/// that many allowed operations still count, the next one is refused and
/// the record stays as it is.
pub proof fn lemma_full_window_refuses(times: Seq<u64>, config: LimitConfig, now: u64)
    requires
        times.len() >= config.max_per_window,
        forall|i: int| 0 <= i < times.len() ==> !window_passed(#[trigger] times[i], now, config.window_ms),
    ensures
        !consume_allowed(times, config, now),
        consumed(times, config, now) == times,
{
    lemma_in_window_keeps(times, now, config.window_ms);
}

/// An operation under the limit is allowed and recorded, and the record
/// keeps the allowed operations that still count.
pub proof fn lemma_room_allows(times: Seq<u64>, config: LimitConfig, now: u64)
    requires
        times.len() < config.max_per_window,
        forall|i: int| 0 <= i < times.len() ==> !window_passed(#[trigger] times[i], now, config.window_ms),
    ensures
        consume_allowed(times, config, now),
        consumed(times, config, now) == times.push(now),
{
    lemma_in_window_keeps(times, now, config.window_ms);
}

/// One peer's record for one operation: the times of its allowed
/// operations that may still count.
pub struct Bucket {
    times: Vec<u64>,
}

impl View for Bucket {
    type V = Seq<u64>;

    closed spec fn view(&self) -> Seq<u64> {
        self.times@
    }
}

impl Bucket {
    /// A bucket with no operation recorded.
    pub fn new() -> (b: Bucket)
        ensures
            b@ == Seq::<u64>::empty(),
    {
        Bucket { times: Vec::new() }
    }

    /// Counts one operation at `now_ms` under `config`; returns whether it
    /// is allowed. The operations whose window has passed are forgotten.
    pub fn try_consume(&mut self, config: &LimitConfig, now_ms: u64) -> (allowed: bool)
        ensures
            allowed == consume_allowed(old(self)@, *config, now_ms),
            final(self)@ == consumed(old(self)@, *config, now_ms),
    {
        let ghost s = self.times@;
        let mut kept: Vec<u64> = Vec::new();
        let mut i: usize = 0;
        while i < self.times.len()
            invariant
                i <= s.len(),
                self.times@ == s,
                kept@ == in_window(s.take(i as int), now_ms, config.window_ms),
            decreases s.len() - i,
        {
            let t = self.times[i];
            proof {
                assert(s.take(i + 1).drop_last() =~= s.take(i as int));
            }
            if !window_passed_at(t, now_ms, config.window_ms) {
                kept.push(t);
            }
            i = i + 1;
        }
        assert(s.take(i as int) =~= s);
        if kept.len() < config.max_per_window as usize {
            kept.push(now_ms);
            self.times = kept;
            true
        } else {
            self.times = kept;
            false
        }
    }
}

spec fn table_map(s: Seq<(NodeId, Bucket)>) -> Map<NodeId, Seq<u64>>
    decreases s.len(),
{
    if s.len() == 0 {
        Map::empty()
    } else {
        table_map(s.drop_last()).insert(s.last().0, s.last().1@)
    }
}

spec fn table_wf(s: Seq<(NodeId, Bucket)>) -> bool {
    forall|i: int, j: int| 0 <= i < j < s.len() ==> s[i].0 != s[j].0
}

proof fn lemma_table_map(s: Seq<(NodeId, Bucket)>)
    requires
        forall|i: int, j: int| 0 <= i < j < s.len() ==> s[i].0 != s[j].0,
    ensures
        forall|k: NodeId|
            table_map(s).contains_key(k) <==> exists|i: int| 0 <= i < s.len() && s[i].0 == k,
        forall|i: int| 0 <= i < s.len() ==> table_map(s)[#[trigger] s[i].0] == s[i].1@,
    decreases s.len(),
{
    if s.len() > 0 {
        let t = s.drop_last();
        lemma_table_map(t);
        assert forall|k: NodeId|
            table_map(s).contains_key(k) <==> exists|i: int| 0 <= i < s.len() && s[i].0 == k by {
            if table_map(s).contains_key(k) {
                if k == s.last().0 {
                    assert(s[s.len() - 1].0 == k);
                } else {
                    assert(table_map(t).contains_key(k));
                    let i = choose|i: int| 0 <= i < t.len() && t[i].0 == k;
                    assert(t[i] == s[i]);
                    assert(s[i].0 == k);
                }
            }
            if exists|i: int| 0 <= i < s.len() && s[i].0 == k {
                let i = choose|i: int| 0 <= i < s.len() && s[i].0 == k;
                if i < t.len() {
                    assert(t[i] == s[i]);
                    assert(t[i].0 == k);
                    assert(table_map(t).contains_key(k));
                }
            }
        }
        assert forall|i: int| 0 <= i < s.len() implies table_map(s)[#[trigger] s[i].0]
            == s[i].1@ by {
            if i < t.len() {
                assert(t[i] == s[i]);
                assert(s[i].0 != s.last().0);
            }
        }
    }
}

proof fn lemma_table_update(s: Seq<(NodeId, Bucket)>, i: int, v: (NodeId, Bucket))
    requires
        forall|a: int, b: int| 0 <= a < b < s.len() ==> s[a].0 != s[b].0,
        0 <= i < s.len(),
        v.0 == s[i].0,
    ensures
        table_map(s.update(i, v)) == table_map(s).insert(v.0, v.1@),
{
    let u = s.update(i, v);
    lemma_table_map(s);
    assert forall|a: int, b: int| 0 <= a < b < u.len() implies u[a].0 != u[b].0 by {
        assert(u[a].0 == s[a].0 && u[b].0 == s[b].0);
    }
    lemma_table_map(u);
    assert forall|k: NodeId| #[trigger] table_map(u).contains_key(k) <==> table_map(s).insert(
        v.0,
        v.1@,
    ).contains_key(k) by {
        if exists|j: int| 0 <= j < s.len() && s[j].0 == k {
            let j = choose|j: int| 0 <= j < s.len() && s[j].0 == k;
            assert(u[j].0 == k);
        }
        if exists|j: int| 0 <= j < u.len() && u[j].0 == k {
            let j = choose|j: int| 0 <= j < u.len() && u[j].0 == k;
            assert(s[j].0 == k);
        }
    }
    assert forall|k: NodeId| #[trigger] table_map(u).contains_key(k) implies table_map(u)[k]
        == table_map(s).insert(v.0, v.1@)[k] by {
        let j = choose|j: int| 0 <= j < u.len() && u[j].0 == k;
        assert(table_map(u)[u[j].0] == u[j].1@);
        if j != i {
            assert(table_map(s)[s[j].0] == s[j].1@);
        }
    }
    assert(table_map(u) =~= table_map(s).insert(v.0, v.1@));
}

/// The record an operation of `peer` starts from: its own, or an empty one.
pub open spec fn start_times(m: Map<NodeId, Seq<u64>>, peer: NodeId) -> Seq<u64> {
    if m.contains_key(peer) {
        m[peer]
    } else {
        Seq::empty()
    }
}

/// Counts one operation of `peer` at `now_ms` under `config` in `table`,
/// making its record if it has none. Returns whether it is allowed.
fn consume_in(table: &mut Vec<(NodeId, Bucket)>, peer: &NodeId, config: &LimitConfig, now_ms: u64) -> (allowed: bool)
    requires
        table_wf(old(table)@),
    ensures
        table_wf(final(table)@),
        counted_at(table_map(old(table)@), table_map(final(table)@), *peer, *config, now_ms, allowed),
{
    proof {
        lemma_table_map(table@);
    }
    let mut i: usize = 0;
    while i < table.len()
        invariant
            i <= table@.len(),
            table@ == old(table)@,
            forall|j: int| 0 <= j < i ==> table@[j].0 != *peer,
        ensures
            i <= table@.len(),
            table@ == old(table)@,
            forall|j: int| 0 <= j < i ==> table@[j].0 != *peer,
            i < table@.len() ==> table@[i as int].0 == *peer,
        decreases table@.len() - i,
    {
        if table[i].0 == *peer {
            break;
        }
        i = i + 1;
    }
    let ghost m = table_map(table@);
    if i == table.len() {
        let mut b = Bucket::new();
        assert(!m.contains_key(*peer));
        let allowed = b.try_consume(config, now_ms);
        table.push((*peer, b));
        proof {
            assert(table@.drop_last() =~= old(table)@);
            assert(table_map(table@) == m.insert(*peer, b@));
            assert forall|a: int, c: int| 0 <= a < c < table@.len() implies table@[a].0
                != table@[c].0 by {
                if c == table@.len() - 1 {
                    assert(table@[a] == old(table)@[a]);
                }
            }
        }
        allowed
    } else {
        let ghost before = table@;
        let (k, mut b) = table.remove(i);
        proof {
            assert(before[i as int] == (k, b));
            assert(m[*peer] == b@);
        }
        let allowed = b.try_consume(config, now_ms);
        table.insert(i, (k, b));
        proof {
            assert(table@ =~= before.update(i as int, (*peer, b)));
            lemma_table_update(before, i as int, (*peer, b));
            assert forall|a: int, c: int| 0 <= a < c < table@.len() implies table@[a].0
                != table@[c].0 by {
                assert(table@[a].0 == before[a].0 && table@[c].0 == before[c].0);
            }
        }
        allowed
    }
}

/// One operation of `peer` at `now` counted under `config` in the records
/// `before`, giving `after`: only the peer's record changes, as
/// `consumed` says, and `allowed` is whether fewer than the limit of its
/// operations still counted.
pub open spec fn counted_at(
    before: Map<NodeId, Seq<u64>>,
    after: Map<NodeId, Seq<u64>>,
    peer: NodeId,
    config: LimitConfig,
    now: u64,
    allowed: bool,
) -> bool {
    &&& allowed == consume_allowed(start_times(before, peer), config, now)
    &&& after == before.insert(peer, consumed(start_times(before, peer), config, now))
}

/// A FIND_NODE from `peer` at `now` counted: 60 per minute when
/// authenticated, 10 otherwise, over all of the peer's FIND_NODEs; the
/// other operations' records are unchanged.
pub open spec fn find_counted_at(before: RateLimiterView, after: RateLimiterView, peer: NodeId, authenticated: bool, now: u64, allowed: bool) -> bool {
    &&& after.ping == before.ping
    &&& after.invite == before.invite
    &&& counted_at(before.find, after.find, peer, find_limit(authenticated), now, allowed)
}

/// A ping from `peer` at `now` counted, 120 per minute.
pub open spec fn ping_counted_at(before: RateLimiterView, after: RateLimiterView, peer: NodeId, now: u64, allowed: bool) -> bool {
    &&& after.find == before.find
    &&& after.invite == before.invite
    &&& counted_at(before.ping, after.ping, peer, LimitConfig { max_per_window: 120, window_ms: 60_000 }, now, allowed)
}

/// An invite by `issuer` at `now` counted, 8 per rolling day.
pub open spec fn invite_counted_at(before: RateLimiterView, after: RateLimiterView, issuer: NodeId, now: u64, allowed: bool) -> bool {
    &&& after.find == before.find
    &&& after.ping == before.ping
    &&& counted_at(before.invite, after.invite, issuer, LimitConfig { max_per_window: 8, window_ms: 86_400_000 }, now, allowed)
}

/// A FIND_NODE counted at the time the clock gave.
pub open spec fn find_counted(before: RateLimiterView, after: RateLimiterView, peer: NodeId, authenticated: bool, allowed: bool) -> bool {
    exists|now: u64|
        #![trigger find_counted_at(before, after, peer, authenticated, now, allowed)]
        find_counted_at(before, after, peer, authenticated, now, allowed)
}

/// A ping counted at the time the clock gave.
pub open spec fn ping_counted(before: RateLimiterView, after: RateLimiterView, peer: NodeId, allowed: bool) -> bool {
    exists|now: u64|
        #![trigger ping_counted_at(before, after, peer, now, allowed)]
        ping_counted_at(before, after, peer, now, allowed)
}

/// An invite counted at the time the clock gave.
pub open spec fn invite_counted(before: RateLimiterView, after: RateLimiterView, issuer: NodeId, allowed: bool) -> bool {
    exists|now: u64|
        #![trigger invite_counted_at(before, after, issuer, now, allowed)]
        invite_counted_at(before, after, issuer, now, allowed)
}

/// Per-peer, per-operation rate limiter.
pub struct RateLimiter {
    /// When the limiter was made; times are counted from here.
    origin: Instant,
    find: Vec<(NodeId, Bucket)>,
    ping: Vec<(NodeId, Bucket)>,
    invite: Vec<(NodeId, Bucket)>,
}

/// The records of each operation, by peer: the times (in milliseconds
/// since the limiter was made) of the allowed operations that may still
/// count.
pub struct RateLimiterView {
    pub find: Map<NodeId, Seq<u64>>,
    pub ping: Map<NodeId, Seq<u64>>,
    pub invite: Map<NodeId, Seq<u64>>,
}

impl View for RateLimiter {
    type V = RateLimiterView;

    closed spec fn view(&self) -> RateLimiterView {
        RateLimiterView {
            find: table_map(self.find@),
            ping: table_map(self.ping@),
            invite: table_map(self.invite@),
        }
    }
}

impl RateLimiter {
    /// Peers are distinct in each table.
    pub closed spec fn wf(&self) -> bool {
        table_wf(self.find@) && table_wf(self.ping@) && table_wf(self.invite@)
    }

    pub fn new() -> (rl: RateLimiter)
        ensures
            rl.wf(),
            rl@.find == Map::<NodeId, Seq<u64>>::empty(),
            rl@.ping == Map::<NodeId, Seq<u64>>::empty(),
            rl@.invite == Map::<NodeId, Seq<u64>>::empty(),
    {
        let rl = RateLimiter { origin: instant_now(), find: Vec::new(), ping: Vec::new(), invite: Vec::new() };
        assert(table_map(rl.find@) =~= Map::<NodeId, Seq<u64>>::empty());
        rl
    }

    /// The current time in milliseconds since the limiter was made, read
    /// from the clock (saturating at `u64::MAX`).
    fn now_ms(&self) -> (t: u64) {
        let now = instant_now();
        let ms = duration_millis(&duration_since(&now, &self.origin));
        if ms > u64::MAX as u128 {
            u64::MAX
        } else {
            ms as u64
        }
    }

    /// Counts a FIND_NODE from `peer` at `now_ms`: allowed while fewer than
    /// 60 (authenticated) or 10 (unauthenticated) of the peer's FIND_NODEs
    /// were allowed in the last minute.
    pub fn check_find_at(&mut self, peer: &NodeId, authenticated: bool, now_ms: u64) -> (r: Result<(), ProtocolError>)
        requires
            old(self).wf(),
        ensures
            final(self).wf(),
            find_counted_at(old(self)@, final(self)@, *peer, authenticated, now_ms, r is Ok),
            r matches Err(e) ==> e == (ProtocolError::RateLimitExceeded { op: "find_node" }),
    {
        let cfg = if authenticated {
            LimitConfig::find_node()
        } else {
            LimitConfig::find_unauth()
        };
        let allowed = consume_in(&mut self.find, peer, &cfg, now_ms);
        if allowed {
            Ok(())
        } else {
            Err(ProtocolError::RateLimitExceeded { op: "find_node" })
        }
    }

    /// Counts a ping from `peer` at `now_ms`: allowed while fewer than 120
    /// of its pings were allowed in the last minute.
    pub fn check_ping_at(&mut self, peer: &NodeId, now_ms: u64) -> (r: Result<(), ProtocolError>)
        requires
            old(self).wf(),
        ensures
            final(self).wf(),
            ping_counted_at(old(self)@, final(self)@, *peer, now_ms, r is Ok),
            r matches Err(e) ==> e == (ProtocolError::RateLimitExceeded { op: "ping" }),
    {
        let cfg = LimitConfig::ping();
        let allowed = consume_in(&mut self.ping, peer, &cfg, now_ms);
        if allowed {
            Ok(())
        } else {
            Err(ProtocolError::RateLimitExceeded { op: "ping" })
        }
    }

    /// Counts an invite issued by `issuer` at `now_ms`: allowed while fewer
    /// than 8 of its invites were allowed in the last 24 hours.
    pub fn check_invite_at(&mut self, issuer: &NodeId, now_ms: u64) -> (r: Result<(), ProtocolError>)
        requires
            old(self).wf(),
        ensures
            final(self).wf(),
            invite_counted_at(old(self)@, final(self)@, *issuer, now_ms, r is Ok),
            r matches Err(e) ==> e == ProtocolError::InviteQuotaExceeded,
    {
        let cfg = LimitConfig::invite();
        let allowed = consume_in(&mut self.invite, issuer, &cfg, now_ms);
        if allowed {
            Ok(())
        } else {
            Err(ProtocolError::InviteQuotaExceeded)
        }
    }

    /// Counts a FIND_NODE from `peer` now, as `check_find_at` does at the
    /// time read from the clock.
    pub fn check_find(&mut self, peer: &NodeId, authenticated: bool) -> (r: Result<(), ProtocolError>)
        requires
            old(self).wf(),
        ensures
            final(self).wf(),
            find_counted(old(self)@, final(self)@, *peer, authenticated, r is Ok),
            r matches Err(e) ==> e == (ProtocolError::RateLimitExceeded { op: "find_node" }),
    {
        let now = self.now_ms();
        self.check_find_at(peer, authenticated, now)
    }

    /// Counts a ping from `peer` now, as `check_ping_at` does at the time
    /// read from the clock.
    pub fn check_ping(&mut self, peer: &NodeId) -> (r: Result<(), ProtocolError>)
        requires
            old(self).wf(),
        ensures
            final(self).wf(),
            ping_counted(old(self)@, final(self)@, *peer, r is Ok),
            r matches Err(e) ==> e == (ProtocolError::RateLimitExceeded { op: "ping" }),
    {
        let now = self.now_ms();
        self.check_ping_at(peer, now)
    }

    /// Counts an invite issued by `issuer` now, as `check_invite_at` does at
    /// the time read from the clock.
    pub fn check_invite(&mut self, issuer: &NodeId) -> (r: Result<(), ProtocolError>)
        requires
            old(self).wf(),
        ensures
            final(self).wf(),
            invite_counted(old(self)@, final(self)@, *issuer, r is Ok),
            r matches Err(e) ==> e == ProtocolError::InviteQuotaExceeded,
    {
        let now = self.now_ms();
        self.check_invite_at(issuer, now)
    }
}

impl Default for RateLimiter {
    fn default() -> (rl: RateLimiter)
        ensures
            rl.wf(),
            rl@.find == Map::<NodeId, Seq<u64>>::empty(),
            rl@.ping == Map::<NodeId, Seq<u64>>::empty(),
            rl@.invite == Map::<NodeId, Seq<u64>>::empty(),
    {
        RateLimiter::new()
    }
}

} // verus!
