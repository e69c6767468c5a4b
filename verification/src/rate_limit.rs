//! Per-client request budget: at most `MAX_REQUESTS` requests in any
//! sliding window of `WINDOW_NANOS` nanoseconds.
use vstd::prelude::*;
use std::collections::HashMap;
use std::hash::Hash;

verus! {

broadcast use vstd::std_specs::hash::group_hash_axioms;

/// The most requests a client may make in one window.
pub const MAX_REQUESTS: usize = 100;

/// The length of the window, in nanoseconds (60 seconds).
pub const WINDOW_NANOS: u64 = 60_000_000_000;

/// The network address of a client.
#[derive(PartialEq, Eq, Structural, Debug, Clone, Copy)]
pub enum ClientIp {
    V4(u32),
    V6(u128),
}

/// Whether a request at time `t` still counts at time `now`: less than a
/// window has passed since (a time after `now` counts as no time passed).
pub open spec fn in_window(now: u64, t: u64) -> bool {
    t >= now || now - t < WINDOW_NANOS
}

/// The request times of `s` that still count at time `now`, in order.
pub open spec fn recent(s: Seq<u64>, now: u64) -> Seq<u64> {
    s.filter(|t: u64| in_window(now, t))
}

/// The request times of `stamps` that still count at time `now`.
fn recent_stamps(stamps: &Vec<u64>, now: u64) -> (r: Vec<u64>)
    ensures
        r@ == recent(stamps@, now),
{
    let mut kept: Vec<u64> = Vec::new();
    let mut i: usize = 0;
    while i < stamps.len()
        invariant
            i <= stamps@.len(),
            kept@ == recent(stamps@.take(i as int), now),
        decreases stamps.len() - i,
    {
        let t = stamps[i];
        proof {
            reveal(Seq::filter);
            assert(stamps@.take(i + 1).drop_last() =~= stamps@.take(i as int));
            assert(stamps@.take(i + 1).last() == t);
        }
        if t >= now || now - t < WINDOW_NANOS {
            kept.push(t);
        }
        i = i + 1;
    }
    assert(stamps@.take(stamps@.len() as int) =~= stamps@);
    kept
}

/// The request times recorded for the key `k` of `m`, none when absent.
pub open spec fn stamps_at<K>(m: Map<K, Seq<u64>>, k: K) -> Seq<u64> {
    if m.contains_key(k) {
        m[k]
    } else {
        Seq::empty()
    }
}

/// Whether a client with the recorded request times of `k` in `m` may make
/// a request at time `now`.
pub open spec fn allows<K>(m: Map<K, Seq<u64>>, k: K, now: u64) -> bool {
    recent(stamps_at(m, k), now).len() < MAX_REQUESTS
}

/// The record after a request of `k` at time `now`: the times that no
/// longer count are dropped, and `now` is added if the request is allowed.
pub open spec fn after_request<K>(m: Map<K, Seq<u64>>, k: K, now: u64) -> Map<K, Seq<u64>> {
    let kept = recent(stamps_at(m, k), now);
    if allows(m, k, now) {
        m.insert(k, kept.push(now))
    } else {
        m.insert(k, kept)
    }
}

/// The record after cleaning at time `now`: in each entry only the times
/// that still count are kept, and entries left empty are dropped.
pub open spec fn cleaned<K>(m: Map<K, Seq<u64>>, now: u64) -> Map<K, Seq<u64>> {
    Map::new(
        |k: K| m.contains_key(k) && recent(m[k], now).len() > 0,
        |k: K| recent(m[k], now),
    )
}

/// The request times held by a table, as sequences.
pub open spec fn table_view<K>(m: Map<K, Vec<u64>>) -> Map<K, Seq<u64>> {
    Map::new(|k: K| m.contains_key(k), |k: K| m[k]@)
}

/// Records a request of `k` at time `now` in the table `m`, and says
/// whether it is allowed.
fn request_in<K: Hash + Eq + Copy>(m: &mut HashMap<K, Vec<u64>>, k: K, now: u64) -> (r: bool)
    requires
        vstd::std_specs::hash::obeys_key_model::<K>(),
    ensures
        r == allows(table_view(old(m)@), k, now),
        table_view(final(m)@) == after_request(table_view(old(m)@), k, now),
{
    let ghost before = table_view(m@);
    let stamps = match m.remove(&k) {
        Some(v) => v,
        None => Vec::new(),
    };
    assert(stamps@ == stamps_at(before, k));
    let mut kept = recent_stamps(&stamps, now);
    let allowed = kept.len() < MAX_REQUESTS;
    if allowed {
        kept.push(now);
    }
    m.insert(k, kept);
    assert(table_view(m@) =~= after_request(before, k, now));
    allowed
}


/// The table `m` after cleaning at time `now`.
fn cleaned_table<K: Hash + Eq + Copy>(m: &HashMap<K, Vec<u64>>, now: u64) -> (r: HashMap<K, Vec<u64>>)
    requires
        vstd::std_specs::hash::obeys_key_model::<K>(),
    ensures
        table_view(r@) == cleaned(table_view(m@), now),
{
    let ghost orig = table_view(m@);
    let ghost items = vstd::std_specs::iter::IteratorSpec::remaining(
        &vstd::std_specs::hash::spec_hash_map_iter(m),
    );
    let ghost mut done: int = 0;
    let mut out: HashMap<K, Vec<u64>> = HashMap::new();
    for (k, v) in it: m.iter()
        invariant
            vstd::std_specs::hash::obeys_key_model::<K>(),
            orig == table_view(m@),
            it.seq() == items,
            done == it.index(),
            items.len() == m@.dom().len(),
            forall|i: int|
                #![trigger items[i]]
                0 <= i < items.len() ==> m@.contains_key(*items[i].0) && m@[*items[i].0]
                    == *items[i].1,
            forall|key: K| #[trigger] m@.contains_key(key) ==> items.contains((&key, &m@[key])),
            forall|key: K|
                #[trigger] table_view(out@).contains_key(key) ==> exists|i: int|
                    #![trigger items[i]]
                    0 <= i < done && *items[i].0 == key,
            forall|i: int|
                #![trigger items[i]]
                0 <= i < done ==> {
                    let key = *items[i].0;
                    (table_view(out@).contains_key(key) <==> recent(orig[key], now).len() > 0)
                        && (table_view(out@).contains_key(key) ==> table_view(out@)[key] == recent(
                        orig[key],
                        now,
                    ))
                },
    {
        let kept = recent_stamps(v, now);
        let ghost before = table_view(out@);
        if kept.len() > 0 {
            out.insert(*k, kept);
        }
        proof {
            assert(items[done] == (k, v));
            assert forall|i: int|
                #![trigger items[i]]
                0 <= i < done + 1 implies {
                    let key = *items[i].0;
                    (table_view(out@).contains_key(key) <==> recent(orig[key], now).len() > 0)
                        && (table_view(out@).contains_key(key) ==> table_view(out@)[key] == recent(
                        orig[key],
                        now,
                    ))
                } by {
                if i < done {
                    let key = *items[i].0;
                    if key == *k {
                        assert(m@[key] == *v);
                    }
                }
            }
            assert forall|key: K| #[trigger] table_view(out@).contains_key(key) implies exists|i: int|
                #![trigger items[i]]
                0 <= i < done + 1 && *items[i].0 == key by {
                if key != *k {
                    assert(before.contains_key(key));
                } else {
                    assert(*items[done].0 == key);
                }
            }
            done = done + 1;
        }
    }
    proof {
        assert forall|key: K| #[trigger] table_view(out@).contains_key(key) implies cleaned(
            orig,
            now,
        ).contains_key(key) && table_view(out@)[key] == cleaned(orig, now)[key] by {
            let i = choose|i: int| #![trigger items[i]] 0 <= i < done && *items[i].0 == key;
        }
        assert forall|key: K| #[trigger] cleaned(orig, now).contains_key(key) implies table_view(
            out@,
        ).contains_key(key) by {
            assert(m@.contains_key(key));
            assert(items.contains((&key, &m@[key])));
            let i = choose|i: int| 0 <= i < items.len() && items[i] == (&key, &m@[key]);
        }
        assert(table_view(out@) =~= cleaned(orig, now));
    }
    out
}

/// The server state that the request budget reads and changes: the times
/// of the requests of each client that still count.
pub struct AppStateInner {
    rate_limiter_v4: HashMap<u32, Vec<u64>>,
    rate_limiter_v6: HashMap<u128, Vec<u64>>,
}

impl View for AppStateInner {
    type V = Map<ClientIp, Seq<u64>>;

    /// The recorded request times of each client.
    closed spec fn view(&self) -> Map<ClientIp, Seq<u64>> {
        let v4 = table_view(self.rate_limiter_v4@);
        let v6 = table_view(self.rate_limiter_v6@);
        Map::new(
            |ip: ClientIp|
                match ip {
                    ClientIp::V4(a) => v4.contains_key(a),
                    ClientIp::V6(b) => v6.contains_key(b),
                },
            |ip: ClientIp|
                match ip {
                    ClientIp::V4(a) => v4[a],
                    ClientIp::V6(b) => v6[b],
                },
        )
    }
}

/// No client has more than `MAX_REQUESTS` recorded request times.
pub open spec fn within_budget(m: Map<ClientIp, Seq<u64>>) -> bool {
    forall|ip: ClientIp| #[trigger] m.contains_key(ip) ==> m[ip].len() <= MAX_REQUESTS
}

impl AppStateInner {
    /// A state with no recorded requests.
    pub fn new() -> (r: AppStateInner)
        ensures
            r@ == Map::<ClientIp, Seq<u64>>::empty(),
    {
        let r = AppStateInner { rate_limiter_v4: HashMap::new(), rate_limiter_v6: HashMap::new() };
        assert(r@ =~= Map::<ClientIp, Seq<u64>>::empty());
        r
    }

    /// Records a request of `ip` at time `now` and says whether it is
    /// allowed: it is when fewer than `MAX_REQUESTS` of the client's earlier
    /// requests still count. The times that no longer count are dropped, and
    /// `now` is recorded when the request is allowed.
    pub fn check_rate_limit(&mut self, ip: ClientIp, now: u64) -> (r: bool)
        ensures
            r == allows(old(self)@, ip, now),
            r == (stamps_at(old(self)@, ip).filter(
                |t: u64| t >= now || now - t < WINDOW_NANOS,
            ).len() < MAX_REQUESTS),
            final(self)@ == after_request(old(self)@, ip, now),
    {
        proof {
            lemma_sliding_window(self@, ip, now);
        }
        let ghost before = self@;
        let ghost v4 = table_view(self.rate_limiter_v4@);
        let ghost v6 = table_view(self.rate_limiter_v6@);
        match ip {
            ClientIp::V4(a) => {
                assert(stamps_at(before, ip) == stamps_at(v4, a));
                let r = request_in(&mut self.rate_limiter_v4, a, now);
                assert(self@ =~= after_request(before, ip, now));
                r
            },
            ClientIp::V6(b) => {
                assert(stamps_at(before, ip) == stamps_at(v6, b));
                let r = request_in(&mut self.rate_limiter_v6, b, now);
                assert(self@ =~= after_request(before, ip, now));
                r
            },
        }
    }

    /// Drops, at time `now`, every recorded time that no longer counts,
    /// and every client left with none.
    pub fn clean_old_rate_limits(&mut self, now: u64)
        ensures
            final(self)@ == cleaned(old(self)@, now),
    {
        let ghost before = self@;
        let v4 = cleaned_table(&self.rate_limiter_v4, now);
        let v6 = cleaned_table(&self.rate_limiter_v6, now);
        self.rate_limiter_v4 = v4;
        self.rate_limiter_v6 = v6;
        assert(self@ =~= cleaned(before, now));
    }
}

/// The window slides: a recorded request time `t` still counts at `now`
/// exactly when less than `WINDOW_NANOS` nanoseconds separate it from
/// `now` (or it is not before `now`), so a request is refused exactly when
/// `MAX_REQUESTS` recorded times of the client lie in the last window, and
/// the record keeps exactly those times.
pub proof fn lemma_sliding_window(m: Map<ClientIp, Seq<u64>>, ip: ClientIp, now: u64)
    ensures
        recent(stamps_at(m, ip), now) == stamps_at(m, ip).filter(
            |t: u64| t >= now || now - t < WINDOW_NANOS,
        ),
        allows(m, ip, now) == (stamps_at(m, ip).filter(
            |t: u64| t >= now || now - t < WINDOW_NANOS,
        ).len() < MAX_REQUESTS),
        forall|x: u64|
            #[trigger] recent(stamps_at(m, ip), now).contains(x) <==> stamps_at(m, ip).contains(x)
                && (x >= now || now - x < WINDOW_NANOS),
{
    let s = stamps_at(m, ip);
    let f = |t: u64| t >= now || now - t < WINDOW_NANOS;
    assert((|t: u64| in_window(now, t)) =~= f);
    assert(recent(s, now) == s.filter(f));
    assert forall|x: u64| #[trigger] recent(s, now).contains(x) <==> s.contains(x) && (x >= now
        || now - x < WINDOW_NANOS) by {
        broadcast use Seq::lemma_filter_contains_rev, Seq::lemma_filter_pred;
        if recent(s, now).contains(x) {
            let i = choose|i: int| 0 <= i < s.filter(f).len() && s.filter(f)[i] == x;
            s.lemma_filter_pred(f, i);
            s.lemma_filter_contains_rev(f, x);
        }
        if s.contains(x) && f(x) {
            let i = choose|i: int| 0 <= i < s.len() && s[i] == x;
            s.lemma_filter_contains(f, i);
        }
    }
}

/// What a request does to the record, in terms of times: the client's
/// entry becomes its times that are less than a window old (or not before
/// `now`), followed by `now` when the request is allowed; no other client's
/// entry changes.
pub proof fn lemma_request_record(m: Map<ClientIp, Seq<u64>>, ip: ClientIp, now: u64)
    ensures
        after_request(m, ip, now).contains_key(ip),
        allows(m, ip, now) ==> after_request(m, ip, now)[ip] == stamps_at(m, ip).filter(
            |t: u64| t >= now || now - t < WINDOW_NANOS,
        ).push(now),
        !allows(m, ip, now) ==> after_request(m, ip, now)[ip] == stamps_at(m, ip).filter(
            |t: u64| t >= now || now - t < WINDOW_NANOS,
        ),
        forall|k: ClientIp|
            k != ip ==> (#[trigger] after_request(m, ip, now).contains_key(k) <==> m.contains_key(k))
                && (m.contains_key(k) ==> after_request(m, ip, now)[k] == m[k]),
{
    lemma_sliding_window(m, ip, now);
}

/// What cleaning does to the record, in terms of times: each client keeps
/// exactly its times that are less than a window old (or not before
/// `now`), and a client is kept exactly when some of its times are.
pub proof fn lemma_clean_record(m: Map<ClientIp, Seq<u64>>, now: u64)
    ensures
        forall|k: ClientIp|
            #[trigger] cleaned(m, now).contains_key(k) <==> m.contains_key(k) && m[k].filter(
                |t: u64| t >= now || now - t < WINDOW_NANOS,
            ).len() > 0,
        forall|k: ClientIp|
            #[trigger] cleaned(m, now).contains_key(k) ==> cleaned(m, now)[k] == m[k].filter(
                |t: u64| t >= now || now - t < WINDOW_NANOS,
            ),
{
    assert forall|k: ClientIp| m.contains_key(k) implies #[trigger] recent(m[k], now) == m[k].filter(
        |t: u64| t >= now || now - t < WINDOW_NANOS,
    ) by {
        lemma_sliding_window(m, k, now);
        assert(stamps_at(m, k) == m[k]);
    }
}

/// A time that counts at a later moment also counts at an earlier one, so
/// keeping the times that count at `now` and then those that count at
/// `later` keeps the times that count at `later`.
pub proof fn lemma_recent_twice(s: Seq<u64>, now: u64, later: u64)
    requires
        now <= later,
    ensures
        recent(recent(s, now), later) == recent(s, later),
    decreases s.len(),
{
    reveal(Seq::filter);
    if s.len() > 0 {
        lemma_recent_twice(s.drop_last(), now, later);
        assert(recent(s, now) == if in_window(now, s.last()) {
            recent(s.drop_last(), now).push(s.last())
        } else {
            recent(s.drop_last(), now)
        });
        if in_window(now, s.last()) {
            assert(recent(s, now).drop_last() =~= recent(s.drop_last(), now));
        }
    }
}

/// Cleaning is invisible to the budget: after cleaning at `now`, a request
/// of any client at any time from `now` on is decided as it would have been
/// without cleaning, and leaves the same record for that client.
pub proof fn lemma_clean_keeps_decisions(
    m: Map<ClientIp, Seq<u64>>,
    ip: ClientIp,
    now: u64,
    later: u64,
)
    requires
        now <= later,
    ensures
        allows(cleaned(m, now), ip, later) == allows(m, ip, later),
        after_request(cleaned(m, now), ip, later)[ip] == after_request(m, ip, later)[ip],
{
    let c = cleaned(m, now);
    if m.contains_key(ip) {
        lemma_recent_twice(m[ip], now, later);
        if !c.contains_key(ip) {
            assert(recent(m[ip], now) =~= Seq::<u64>::empty());
            reveal(Seq::filter);
            assert(recent(Seq::<u64>::empty(), later) =~= Seq::<u64>::empty());
        }
    } else {
        assert(!c.contains_key(ip));
    }
}

/// The budget is never exceeded: when no client has more than
/// `MAX_REQUESTS` recorded times, none has after a request or a cleaning.
pub proof fn lemma_budget_kept(m: Map<ClientIp, Seq<u64>>, ip: ClientIp, now: u64)
    requires
        within_budget(m),
    ensures
        within_budget(after_request(m, ip, now)),
        within_budget(cleaned(m, now)),
{
    broadcast use Seq::lemma_filter_len;

    let after = after_request(m, ip, now);
    assert forall|k: ClientIp| #[trigger] after.contains_key(k) implies after[k].len()
        <= MAX_REQUESTS by {
        if k == ip {
            assert(recent(stamps_at(m, ip), now).len() <= stamps_at(m, ip).len());
        }
    }
    let c = cleaned(m, now);
    assert forall|k: ClientIp| #[trigger] c.contains_key(k) implies c[k].len() <= MAX_REQUESTS by {
        assert(recent(m[k], now).len() <= m[k].len());
    }
}

/// One step of the request budget's history: a request of a client, or a
/// cleaning, at a time.
pub enum RateEvent {
    Request(ClientIp, u64),
    Clean(u64),
}

/// The time at which `e` happens.
pub open spec fn event_time(e: RateEvent) -> u64 {
    match e {
        RateEvent::Request(_, t) => t,
        RateEvent::Clean(t) => t,
    }
}

/// The time of the last event of `events`, 0 before any event.
pub open spec fn last_time(events: Seq<RateEvent>) -> u64 {
    if events.len() == 0 {
        0
    } else {
        event_time(events.last())
    }
}

/// Whether the events of `events` happen in order of time.
pub open spec fn in_time_order(events: Seq<RateEvent>) -> bool {
    forall|i: int, j: int|
        0 <= i <= j < events.len() ==> event_time(#[trigger] events[i]) <= event_time(
            #[trigger] events[j],
        )
}

/// The record after the events of `events`, starting with no record, each
/// request being handled by `check_rate_limit` and each cleaning by
/// `clean_old_rate_limits`.
pub open spec fn replay(events: Seq<RateEvent>) -> Map<ClientIp, Seq<u64>>
    decreases events.len(),
{
    if events.len() == 0 {
        Map::empty()
    } else {
        let before = replay(events.drop_last());
        match events.last() {
            RateEvent::Request(ip, t) => after_request(before, ip, t),
            RateEvent::Clean(t) => cleaned(before, t),
        }
    }
}

/// The times of the requests of `ip` in `events` that were allowed.
pub open spec fn allowed_times(events: Seq<RateEvent>, ip: ClientIp) -> Seq<u64>
    decreases events.len(),
{
    if events.len() == 0 {
        Seq::empty()
    } else {
        let prefix = events.drop_last();
        match events.last() {
            RateEvent::Request(who, t) => if who == ip && allows(replay(prefix), ip, t) {
                allowed_times(prefix, ip).push(t)
            } else {
                allowed_times(prefix, ip)
            },
            RateEvent::Clean(_) => allowed_times(prefix, ip),
        }
    }
}

/// A request made when the window is over counts only itself.
proof fn lemma_recent_push(s: Seq<u64>, t: u64)
    ensures
        recent(s.push(t), t) == recent(s, t).push(t),
{
    reveal(Seq::filter);
    assert(s.push(t).drop_last() =~= s);
}

/// The record keeps, for every client, exactly the allowed requests that
/// still count, and never more than `MAX_REQUESTS` of them.
proof fn lemma_replay_tracks_allowed(events: Seq<RateEvent>, ip: ClientIp)
    requires
        in_time_order(events),
    ensures
        recent(stamps_at(replay(events), ip), last_time(events)) == recent(
            allowed_times(events, ip),
            last_time(events),
        ),
        recent(allowed_times(events, ip), last_time(events)).len() <= MAX_REQUESTS,
    decreases events.len(),
{
    broadcast use Seq::lemma_filter_len;

    if events.len() == 0 {
        reveal(Seq::filter);
        assert(stamps_at(replay(events), ip) =~= Seq::<u64>::empty());
    } else {
        let prefix = events.drop_last();
        assert(in_time_order(prefix)) by {
            assert forall|i: int, j: int| 0 <= i <= j < prefix.len() implies event_time(
                #[trigger] prefix[i],
            ) <= event_time(#[trigger] prefix[j]) by {
                assert(prefix[i] == events[i] && prefix[j] == events[j]);
            }
        }
        lemma_replay_tracks_allowed(prefix, ip);
        let before = replay(prefix);
        let t0 = last_time(prefix);
        let t = event_time(events.last());
        assert(t0 <= t) by {
            if prefix.len() > 0 {
                assert(prefix.last() == events[prefix.len() - 1]);
                assert(events.last() == events[events.len() - 1]);
            }
        }
        let stored = stamps_at(before, ip);
        let acc = allowed_times(prefix, ip);
        lemma_recent_twice(stored, t0, t);
        lemma_recent_twice(acc, t0, t);
        assert(recent(stored, t) == recent(acc, t));
        assert(recent(acc, t).len() <= recent(acc, t0).len());
        match events.last() {
            RateEvent::Request(who, _) => {
                if who == ip {
                    lemma_recent_twice(stored, t, t);
                    lemma_recent_twice(acc, t, t);
                    if allows(before, ip, t) {
                        lemma_recent_push(recent(stored, t), t);
                        lemma_recent_push(acc, t);
                    }
                } else {
                    assert(stamps_at(replay(events), ip) == stored);
                }
            },
            RateEvent::Clean(_) => {
                lemma_recent_twice(stored, t, t);
                if !before.contains_key(ip) {
                    assert(stored =~= Seq::<u64>::empty());
                }
                if before.contains_key(ip) && recent(before[ip], t).len() == 0 {
                    reveal(Seq::filter);
                    assert(recent(Seq::<u64>::empty(), t) =~= Seq::<u64>::empty());
                    assert(recent(stored, t) =~= Seq::<u64>::empty());
                }
            },
        }
    }
}

/// The request budget holds over any history: whatever requests and
/// cleanings happen, in order of time, at the time of the last event no
/// client has had more than `MAX_REQUESTS` requests allowed in the window
/// that ends then.
pub proof fn lemma_budget_holds(events: Seq<RateEvent>, ip: ClientIp)
    requires
        in_time_order(events),
    ensures
        recent(allowed_times(events, ip), last_time(events)).len() <= MAX_REQUESTS,
{
    lemma_replay_tracks_allowed(events, ip);
}

} // verus!
