//! Per-client request limiting for the mutating API endpoints: each client
//! key may make a bounded number of requests per fixed window, and buckets
//! whose window has passed are swept out once per window so the table cannot
//! grow without bound.
//!
//! Time is given by the caller as whole seconds on a monotonic clock.

use vstd::prelude::*;

use crate::text::same_text;

verus! {

/// Requests a client may make within one window.
pub const RATE_LIMIT_MAX_REQUESTS: usize = 20;

/// Length of a rate-limit window, in seconds.
pub const RATE_LIMIT_WINDOW_SECS: u64 = 60;

/// One client's count of requests in its current window.
#[derive(Clone, Copy, Debug, PartialEq, Eq, Structural)]
pub struct ClientBucket {
    pub count: usize,
    pub window_start: u64,
}

/// Seconds from `since` to `now`, zero when `now` is earlier
/// (`Instant::duration_since`, which saturates).
pub open spec fn elapsed_secs(now: u64, since: u64) -> int {
    if now >= since {
        now - since
    } else {
        0
    }
}

/// The buckets held by parallel sequences of keys and buckets.
pub open spec fn bucket_map(keys: Seq<Seq<char>>, bs: Seq<ClientBucket>) -> Map<
    Seq<char>,
    ClientBucket,
>
    decreases keys.len(),
{
    if keys.len() == 0 || bs.len() == 0 {
        Map::empty()
    } else {
        bucket_map(keys.drop_last(), bs.drop_last()).insert(keys.last(), bs.last())
    }
}

/// The texts of a sequence of strings.
pub open spec fn string_views(v: Seq<String>) -> Seq<Seq<char>> {
    v.map_values(|k: String| k@)
}

/// No key occurs twice.
pub open spec fn distinct_keys(keys: Seq<Seq<char>>) -> bool {
    forall|i: int, j: int| 0 <= i < j < keys.len() ==> keys[i] != keys[j]
}

/// The limiter as a map from client key to bucket, with the time of the last
/// sweep.
pub struct LimiterView {
    pub buckets: Map<Seq<char>, ClientBucket>,
    pub last_sweep: u64,
}

/// The buckets whose window has not yet passed at `now`.
pub open spec fn fresh_buckets(m: Map<Seq<char>, ClientBucket>, now: u64) -> Map<
    Seq<char>,
    ClientBucket,
> {
    Map::new(
        |k: Seq<char>|
            m.dom().contains(k) && elapsed_secs(now, m[k].window_start)
                < RATE_LIMIT_WINDOW_SECS,
        |k: Seq<char>| m[k],
    )
}

/// The limiter after the sweep that runs once a window has passed since the
/// last one.
pub open spec fn after_sweep(s: LimiterView, now: u64) -> LimiterView {
    if elapsed_secs(now, s.last_sweep) >= RATE_LIMIT_WINDOW_SECS {
        LimiterView { buckets: fresh_buckets(s.buckets, now), last_sweep: now }
    } else {
        s
    }
}

/// A client's bucket after one more request at `now`: a new client, or one
/// whose window has passed, starts a new window at `now`.
pub open spec fn bucket_after_request(b: Option<ClientBucket>, now: u64) -> ClientBucket {
    let b0 = match b {
        Some(b) => b,
        None => ClientBucket { count: 0, window_start: now },
    };
    let b1 = if elapsed_secs(now, b0.window_start) >= RATE_LIMIT_WINDOW_SECS {
        ClientBucket { count: 0, window_start: now }
    } else {
        b0
    };
    ClientBucket { count: (b1.count + 1) as usize, window_start: b1.window_start }
}

/// One request by `key` at `now`: the new state, and whether the request is
/// allowed (the client's count in its window is at most the limit).
pub open spec fn check_step(s: LimiterView, key: Seq<char>, now: u64) -> (LimiterView, bool) {
    let s1 = after_sweep(s, now);
    let old_bucket = if s1.buckets.dom().contains(key) {
        Some(s1.buckets[key])
    } else {
        None
    };
    let b = bucket_after_request(old_bucket, now);
    (
        LimiterView { buckets: s1.buckets.insert(key, b), last_sweep: s1.last_sweep },
        b.count <= RATE_LIMIT_MAX_REQUESTS,
    )
}

/// The number of allowed requests among requests by `key` at `times`, in
/// order, from state `s`.
pub open spec fn checks_allowed(s: LimiterView, key: Seq<char>, times: Seq<u64>) -> nat
    decreases times.len(),
{
    if times.len() == 0 {
        0
    } else {
        let (s2, ok) = check_step(s, key, times[0]);
        (if ok {
            1nat
        } else {
            0nat
        }) + checks_allowed(s2, key, times.drop_first())
    }
}

/// Whether each of successive requests by `key` at `times`, in order, from
/// state `s`, is allowed.
pub open spec fn check_results(s: LimiterView, key: Seq<char>, times: Seq<u64>) -> Seq<bool>
    decreases times.len(),
{
    if times.len() == 0 {
        Seq::empty()
    } else {
        let (s2, ok) = check_step(s, key, times[0]);
        seq![ok] + check_results(s2, key, times.drop_first())
    }
}

/// The state after successive requests, each by the given client key at the
/// given time, in order, from state `s`.
pub open spec fn after_requests(s: LimiterView, requests: Seq<(Seq<char>, u64)>) -> LimiterView
    decreases requests.len(),
{
    if requests.len() == 0 {
        s
    } else {
        after_requests(check_step(s, requests[0].0, requests[0].1).0, requests.drop_first())
    }
}

/// A request refused because the client is over its limit.
#[derive(Clone, Copy, Debug, PartialEq, Eq, Structural)]
pub struct RateLimitExceeded;

impl RateLimitExceeded {
    /// The HTTP status of the refusal (429 Too Many Requests).
    pub fn status(&self) -> (r: u16)
        ensures
            r == 429,
    {
        429
    }

    /// The message of the refusal.
    pub fn message(&self) -> (r: String)
        ensures
            r@ == "rate limit exceeded"@,
    {
        String::from_str("rate limit exceeded")
    }
}

/// The limiter: one bucket per client key.
pub struct RateLimiter {
    keys: Vec<String>,
    buckets: Vec<ClientBucket>,
    last_sweep: u64,
}

impl RateLimiter {
    pub closed spec fn key_views(&self) -> Seq<Seq<char>> {
        string_views(self.keys@)
    }

    #[verifier::type_invariant]
    spec fn well_formed(&self) -> bool {
        &&& self.keys.len() == self.buckets.len()
        &&& distinct_keys(self.key_views())
    }

    /// The limiter's buckets and last sweep time.
    pub closed spec fn view(&self) -> LimiterView {
        LimiterView {
            buckets: bucket_map(self.key_views(), self.buckets@),
            last_sweep: self.last_sweep,
        }
    }

    /// An empty limiter whose last sweep is `now_secs`.
    pub fn new(now_secs: u64) -> (r: Self)
        ensures
            r.view().buckets == Map::<Seq<char>, ClientBucket>::empty(),
            r.view().last_sweep == now_secs,
    {
        let r = RateLimiter { keys: Vec::new(), buckets: Vec::new(), last_sweep: now_secs };
        assert(r.key_views() =~= Seq::<Seq<char>>::empty());
        r
    }

    /// Records a request by `client_key` at `now_secs` and says whether it is
    /// within the limit.
    pub fn check(&mut self, client_key: &str, now_secs: u64) -> (r: Result<(), RateLimitExceeded>)
        requires
            old(self).view().buckets.dom().contains(client_key@) ==> old(self).view().buckets[client_key@].count
                < usize::MAX,
        ensures
            (final(self).view(), r is Ok) == check_step(old(self).view(), client_key@, now_secs),
    {
        proof {
            use_type_invariant(&*self);
        }
        let ghost s0 = self.view();
        let since = if now_secs >= self.last_sweep {
            now_secs - self.last_sweep
        } else {
            0
        };
        if since >= RATE_LIMIT_WINDOW_SECS {
            self.sweep(now_secs);
        }
        proof {
            use_type_invariant(&*self);
        }
        let ghost s1 = self.view();
        assert(s1 == after_sweep(s0, now_secs));
        let found = self.find(client_key);
        let old_bucket = match found {
            Some(i) => Some(self.buckets[i]),
            None => None,
        };
        proof {
            match found {
                Some(i) => {
                    lemma_bucket_lookup(self.key_views(), self.buckets@, i as int);
                },
                None => {
                    lemma_bucket_dom(self.key_views(), self.buckets@, client_key@);
                },
            }
        }
        let b0 = match old_bucket {
            Some(b) => b,
            None => ClientBucket { count: 0, window_start: now_secs },
        };
        let elapsed = if now_secs >= b0.window_start {
            now_secs - b0.window_start
        } else {
            0
        };
        let b1 = if elapsed >= RATE_LIMIT_WINDOW_SECS {
            ClientBucket { count: 0, window_start: now_secs }
        } else {
            b0
        };
        let b = ClientBucket { count: b1.count + 1, window_start: b1.window_start };
        assert(b == bucket_after_request(old_bucket, now_secs));
        match found {
            Some(i) => {
                let mut buckets = self.buckets.clone();
                buckets.set(i, b);
                proof {
                    lemma_bucket_update(self.key_views(), self.buckets@, i as int, b);
                }
                let keys = self.keys.clone();
                assert(string_views(keys@) =~= self.key_views());
                *self = RateLimiter { keys, buckets, last_sweep: self.last_sweep };
            },
            None => {
                let mut keys = self.keys.clone();
                let mut buckets = self.buckets.clone();
                let ghost kv = self.key_views();
                keys.push(client_key.to_string());
                buckets.push(b);
                proof {
                    assert(string_views(keys@) =~= kv.push(client_key@));
                    assert(kv.push(client_key@).drop_last() =~= kv);
                    assert(buckets@.drop_last() =~= self.buckets@);
                    assert forall|x: int, y: int|
                        0 <= x < y < kv.push(client_key@).len() implies kv.push(client_key@)[x]
                        != kv.push(client_key@)[y] by {
                        if y == kv.len() {
                            assert(kv[x] != client_key@);
                        }
                    }
                }
                *self = RateLimiter { keys, buckets, last_sweep: self.last_sweep };
            },
        }
        if b.count > RATE_LIMIT_MAX_REQUESTS {
            Err(RateLimitExceeded)
        } else {
            Ok(())
        }
    }

    /// The number of requests counted for `client_key` in its current bucket,
    /// if it has one.
    pub fn request_count(&self, client_key: &str) -> (r: Option<usize>)
        ensures
            r == (if self.view().buckets.dom().contains(client_key@) {
                Some(self.view().buckets[client_key@].count)
            } else {
                None
            }),
    {
        proof {
            use_type_invariant(self);
        }
        match self.find(client_key) {
            Some(i) => {
                proof {
                    lemma_bucket_lookup(self.key_views(), self.buckets@, i as int);
                }
                Some(self.buckets[i].count)
            },
            None => {
                proof {
                    lemma_bucket_dom(self.key_views(), self.buckets@, client_key@);
                }
                None
            },
        }
    }

    /// Index of `key`, if it has a bucket.
    fn find(&self, key: &str) -> (r: Option<usize>)
        ensures
            match r {
                Some(i) => i < self.keys.len() && self.key_views()[i as int] == key@,
                None => forall|i: int|
                    0 <= i < self.keys.len() ==> #[trigger] self.key_views()[i] != key@,
            },
    {
        let mut i: usize = 0;
        while i < self.keys.len()
            invariant
                i <= self.keys.len(),
                forall|j: int| 0 <= j < i ==> #[trigger] self.key_views()[j] != key@,
            decreases self.keys.len() - i,
        {
            if same_text(self.keys[i].as_str(), key) {
                return Some(i);
            }
            i = i + 1;
        }
        None
    }

    /// Drops every bucket whose window has passed and records `now` as the
    /// time of the sweep.
    fn sweep(&mut self, now: u64)
        ensures
            final(self).view() == (LimiterView {
                buckets: fresh_buckets(old(self).view().buckets, now),
                last_sweep: now,
            }),
    {
        proof {
            use_type_invariant(&*self);
        }
        let ghost kv = self.key_views();
        let ghost bs = self.buckets@;
        let mut keys: Vec<String> = Vec::new();
        let mut buckets: Vec<ClientBucket> = Vec::new();
        let mut i: usize = 0;
        while i < self.keys.len()
            invariant
                i <= self.keys.len() == self.buckets.len(),
                kv == self.key_views(),
                bs == self.buckets@,
                distinct_keys(kv),
                keys.len() == buckets.len(),
                distinct_keys(string_views(keys@)),
                forall|j: int|
                    0 <= j < keys.len() ==> exists|m: int|
                        0 <= m < i && #[trigger] string_views(keys@)[j] == kv[m],
                bucket_map(string_views(keys@), buckets@) == fresh_buckets(
                    bucket_map(kv.take(i as int), bs.take(i as int)),
                    now,
                ),
            decreases self.keys.len() - i,
        {
            let b = self.buckets[i];
            let ghost before_keys = string_views(keys@);
            let ghost before_bs = buckets@;
            proof {
                assert(kv.take(i + 1).drop_last() =~= kv.take(i as int));
                assert(bs.take(i + 1).drop_last() =~= bs.take(i as int));
                assert(kv.take(i + 1).last() == kv[i as int]);
                assert(bs.take(i + 1).last() == bs[i as int]);
                lemma_bucket_dom(kv.take(i as int), bs.take(i as int), kv[i as int]);
                assert(forall|m: int| 0 <= m < i ==> kv.take(i as int)[m] != kv[i as int]);
            }
            let elapsed = if now >= b.window_start {
                now - b.window_start
            } else {
                0
            };
            if elapsed < RATE_LIMIT_WINDOW_SECS {
                keys.push(self.keys[i].clone());
                buckets.push(b);
                proof {
                    assert(string_views(keys@) =~= before_keys.push(kv[i as int]));
                    assert(before_keys.push(kv[i as int]).drop_last() =~= before_keys);
                    assert(buckets@.drop_last() =~= before_bs);
                    assert forall|x: int, y: int|
                        0 <= x < y < before_keys.push(kv[i as int]).len() implies before_keys.push(
                        kv[i as int],
                    )[x] != before_keys.push(kv[i as int])[y] by {
                        if y == before_keys.len() {
                            let m = choose|m: int| 0 <= m < i && before_keys[x] == kv[m];
                            assert(before_keys[x] == kv[m]);
                        }
                    }
                    assert forall|j: int|
                        0 <= j < keys.len() implies exists|m: int|
                            0 <= m < i + 1 && #[trigger] string_views(keys@)[j]
                                == kv[m] by {
                        if j < before_keys.len() {
                            assert(string_views(keys@)[j] == before_keys[j]);
                            let m = choose|m: int| 0 <= m < i && before_keys[j] == kv[m];
                            assert(string_views(keys@)[j] == kv[m]);
                        } else {
                            assert(string_views(keys@)[j] == kv[i as int]);
                        }
                    }
                    assert(fresh_buckets(bucket_map(kv.take(i + 1), bs.take(i + 1)), now)
                        =~= fresh_buckets(bucket_map(kv.take(i as int), bs.take(i as int)), now).insert(
                        kv[i as int],
                        b,
                    ));
                }
            } else {
                proof {
                    assert(fresh_buckets(bucket_map(kv.take(i + 1), bs.take(i + 1)), now)
                        =~= fresh_buckets(bucket_map(kv.take(i as int), bs.take(i as int)), now));
                    assert forall|j: int|
                        0 <= j < keys.len() implies exists|m: int|
                            0 <= m < i + 1 && #[trigger] string_views(keys@)[j]
                                == kv[m] by {
                        let m = choose|m: int|
                            0 <= m < i && string_views(keys@)[j] == kv[m];
                        assert(string_views(keys@)[j] == kv[m]);
                    }
                }
            }
            i = i + 1;
        }
        assert(kv.take(self.keys.len() as int) =~= kv);
        assert(bs.take(self.keys.len() as int) =~= bs);
        *self = RateLimiter { keys, buckets, last_sweep: now };
    }
}

proof fn lemma_bucket_dom(keys: Seq<Seq<char>>, bs: Seq<ClientBucket>, k: Seq<char>)
    requires
        keys.len() == bs.len(),
    ensures
        bucket_map(keys, bs).dom().contains(k) <==> exists|i: int|
            0 <= i < keys.len() && #[trigger] keys[i] == k,
    decreases keys.len(),
{
    if keys.len() > 0 {
        lemma_bucket_dom(keys.drop_last(), bs.drop_last(), k);
        if bucket_map(keys, bs).dom().contains(k) {
            if k == keys.last() {
                assert(keys[keys.len() - 1] == k);
            } else {
                let i = choose|i: int| 0 <= i < keys.drop_last().len() && keys.drop_last()[i] == k;
                assert(keys[i] == k);
            }
        }
        if exists|i: int| 0 <= i < keys.len() && #[trigger] keys[i] == k {
            let i = choose|i: int| 0 <= i < keys.len() && keys[i] == k;
            if i < keys.len() - 1 {
                assert(keys.drop_last()[i] == k);
            }
        }
    }
}

proof fn lemma_bucket_lookup(keys: Seq<Seq<char>>, bs: Seq<ClientBucket>, i: int)
    requires
        keys.len() == bs.len(),
        distinct_keys(keys),
        0 <= i < keys.len(),
    ensures
        bucket_map(keys, bs).dom().contains(keys[i]),
        bucket_map(keys, bs)[keys[i]] == bs[i],
    decreases keys.len(),
{
    if i < keys.len() - 1 {
        assert(keys.drop_last()[i] == keys[i]);
        assert(bs.drop_last()[i] == bs[i]);
        lemma_bucket_lookup(keys.drop_last(), bs.drop_last(), i);
        assert(keys[i] != keys.last());
    }
}

proof fn lemma_bucket_update(keys: Seq<Seq<char>>, bs: Seq<ClientBucket>, i: int, b: ClientBucket)
    requires
        keys.len() == bs.len(),
        distinct_keys(keys),
        0 <= i < keys.len(),
    ensures
        bucket_map(keys, bs.update(i, b)) == bucket_map(keys, bs).insert(keys[i], b),
    decreases keys.len(),
{
    if i == keys.len() - 1 {
        assert(bs.update(i, b).drop_last() =~= bs.drop_last());
        assert(bs.update(i, b).last() == b);
        assert(bucket_map(keys, bs).insert(keys[i], b) =~= bucket_map(keys.drop_last(), bs.drop_last()).insert(keys[i], b));
    } else {
        assert(bs.update(i, b).drop_last() =~= bs.drop_last().update(i, b));
        assert(keys.drop_last()[i] == keys[i]);
        lemma_bucket_update(keys.drop_last(), bs.drop_last(), i, b);
        assert(keys[i] != keys.last());
        assert(bucket_map(keys, bs.update(i, b)) =~= bucket_map(keys, bs).insert(keys[i], b));
    }
}


/// Within one window of a client's bucket, requests are allowed until the
/// bucket holds the limit and refused after: from a state where `key` has a
/// bucket with count `c` whose window began at `start`, of any requests by
/// `key` at times inside that window, exactly `min(n, limit - c)` are allowed
/// (none once `c` has reached the limit).
pub proof fn lemma_rate_limit_allows_at_most_limit_per_window(
    s: LimiterView,
    key: Seq<char>,
    times: Seq<u64>,
)
    requires
        s.buckets.dom().contains(key),
        forall|j: int|
            0 <= j < times.len() ==> s.buckets[key].window_start <= #[trigger] times[j]
                && times[j] - s.buckets[key].window_start < RATE_LIMIT_WINDOW_SECS,
        s.buckets[key].count + times.len() < usize::MAX,
    ensures
        checks_allowed(s, key, times) == if s.buckets[key].count >= RATE_LIMIT_MAX_REQUESTS {
            0
        } else if times.len() <= RATE_LIMIT_MAX_REQUESTS - s.buckets[key].count {
            times.len()
        } else {
            (RATE_LIMIT_MAX_REQUESTS - s.buckets[key].count) as nat
        },
    decreases times.len(),
{
    if times.len() > 0 {
        let b = s.buckets[key];
        let t = times[0];
        let (s2, ok) = check_step(s, key, t);
        let s1 = after_sweep(s, t);
        assert(s1.buckets.dom().contains(key) && s1.buckets[key] == b);
        assert(s2.buckets[key] == ClientBucket { count: (b.count + 1) as usize, window_start: b.window_start });
        assert(ok == (b.count + 1 <= RATE_LIMIT_MAX_REQUESTS));
        let rest = times.drop_first();
        assert forall|j: int| 0 <= j < rest.len() implies s2.buckets[key].window_start
            <= #[trigger] rest[j] && rest[j] - s2.buckets[key].window_start
            < RATE_LIMIT_WINDOW_SECS by {
            assert(rest[j] == times[j + 1]);
        }
        lemma_rate_limit_allows_at_most_limit_per_window(s2, key, rest);
    }
}

/// Inside a window that holds `c` requests and began at `start`, further
/// requests are allowed while the count stays within the limit.
proof fn lemma_results_inside_window(s: LimiterView, key: Seq<char>, times: Seq<u64>)
    requires
        s.buckets.dom().contains(key),
        forall|j: int|
            0 <= j < times.len() ==> s.buckets[key].window_start <= #[trigger] times[j]
                && times[j] - s.buckets[key].window_start < RATE_LIMIT_WINDOW_SECS,
        s.buckets[key].count + times.len() < usize::MAX,
    ensures
        check_results(s, key, times).len() == times.len(),
        forall|j: int|
            0 <= j < times.len() ==> #[trigger] check_results(s, key, times)[j] == (
            s.buckets[key].count + j + 1 <= RATE_LIMIT_MAX_REQUESTS),
    decreases times.len(),
{
    if times.len() > 0 {
        let b = s.buckets[key];
        let t = times[0];
        let (s2, ok) = check_step(s, key, t);
        let s1 = after_sweep(s, t);
        assert(s1.buckets.dom().contains(key) && s1.buckets[key] == b);
        assert(s2.buckets[key] == ClientBucket { count: (b.count + 1) as usize, window_start: b.window_start });
        let rest = times.drop_first();
        assert forall|j: int| 0 <= j < rest.len() implies s2.buckets[key].window_start
            <= #[trigger] rest[j] && rest[j] - s2.buckets[key].window_start
            < RATE_LIMIT_WINDOW_SECS by {
            assert(rest[j] == times[j + 1]);
        }
        lemma_results_inside_window(s2, key, rest);
        let r = check_results(s, key, times);
        assert(r == seq![ok] + check_results(s2, key, rest));
        assert forall|j: int| 0 <= j < times.len() implies #[trigger] r[j] == (b.count + j + 1
            <= RATE_LIMIT_MAX_REQUESTS) by {
            if j > 0 {
                assert(r[j] == check_results(s2, key, rest)[j - 1]);
            }
        }
    }
}

/// A client with no open window that makes requests, all within one window
/// length of the first, has its first `RATE_LIMIT_MAX_REQUESTS` requests
/// allowed and every later one refused.
pub proof fn lemma_rate_limit_run_in_one_window(s: LimiterView, key: Seq<char>, times: Seq<u64>)
    requires
        times.len() > 0,
        !s.buckets.dom().contains(key) || elapsed_secs(times[0], s.buckets[key].window_start)
            >= RATE_LIMIT_WINDOW_SECS,
        forall|j: int|
            0 <= j < times.len() ==> times[0] <= #[trigger] times[j] && times[j] - times[0]
                < RATE_LIMIT_WINDOW_SECS,
        times.len() < usize::MAX,
    ensures
        check_results(s, key, times).len() == times.len(),
        forall|j: int|
            0 <= j < times.len() ==> #[trigger] check_results(s, key, times)[j] == (j
                < RATE_LIMIT_MAX_REQUESTS),
{
    let t0 = times[0];
    let (s2, ok) = check_step(s, key, t0);
    lemma_rate_limit_new_window_allows(s, key, t0);
    let rest = times.drop_first();
    assert forall|j: int| 0 <= j < rest.len() implies s2.buckets[key].window_start
        <= #[trigger] rest[j] && rest[j] - s2.buckets[key].window_start
        < RATE_LIMIT_WINDOW_SECS by {
        assert(rest[j] == times[j + 1]);
    }
    lemma_results_inside_window(s2, key, rest);
    let r = check_results(s, key, times);
    assert(r == seq![ok] + check_results(s2, key, rest));
    assert forall|j: int| 0 <= j < times.len() implies #[trigger] r[j] == (j
        < RATE_LIMIT_MAX_REQUESTS) by {
        if j > 0 {
            assert(r[j] == check_results(s2, key, rest)[j - 1]);
        }
    }
}

/// What requests by other clients can do to `key`'s bucket: keep it, or drop
/// it only once its window has passed by `later`.
pub open spec fn bucket_kept_or_expired(
    s0: LimiterView,
    s: LimiterView,
    key: Seq<char>,
    later: u64,
) -> bool {
    &&& s.buckets.dom().contains(key) ==> s0.buckets.dom().contains(key) && s.buckets[key]
        == s0.buckets[key]
    &&& s0.buckets.dom().contains(key) && !s.buckets.dom().contains(key) ==> elapsed_secs(
        later,
        s0.buckets[key].window_start,
    ) >= RATE_LIMIT_WINDOW_SECS
}

proof fn lemma_other_requests_keep_or_expire(
    s0: LimiterView,
    s: LimiterView,
    key: Seq<char>,
    requests: Seq<(Seq<char>, u64)>,
    later: u64,
)
    requires
        bucket_kept_or_expired(s0, s, key, later),
        forall|j: int| 0 <= j < requests.len() ==> (#[trigger] requests[j]).0 != key
            && requests[j].1 <= later,
    ensures
        bucket_kept_or_expired(s0, after_requests(s, requests), key, later),
    decreases requests.len(),
{
    if requests.len() > 0 {
        let s2 = check_step(s, requests[0].0, requests[0].1).0;
        assert(bucket_kept_or_expired(s0, s2, key, later));
        let rest = requests.drop_first();
        assert forall|j: int| 0 <= j < rest.len() implies (#[trigger] rest[j]).0 != key
            && rest[j].1 <= later by {
            assert(rest[j] == requests[j + 1]);
        }
        lemma_other_requests_keep_or_expire(s0, s2, key, rest, later);
    }
}

/// Whether a client's request is allowed never depends on requests that
/// other clients made before it: after any requests by other keys at times
/// no later than `now`, a request by `key` at `now` gets the same answer as
/// it would have got without them.
pub proof fn lemma_rate_limit_ignores_other_clients(
    s: LimiterView,
    key: Seq<char>,
    others: Seq<(Seq<char>, u64)>,
    now: u64,
)
    requires
        forall|j: int| 0 <= j < others.len() ==> (#[trigger] others[j]).0 != key
            && others[j].1 <= now,
    ensures
        check_step(after_requests(s, others), key, now).1 == check_step(s, key, now).1,
{
    lemma_other_requests_keep_or_expire(s, s, key, others, now);
}

/// A request by one client changes no other client's bucket; the periodic
/// sweep can only drop buckets whose window has passed.
pub proof fn lemma_rate_limit_other_clients_kept(
    s: LimiterView,
    key: Seq<char>,
    other: Seq<char>,
    now: u64,
)
    requires
        other != key,
    ensures
        ({
            let s2 = check_step(s, key, now).0;
            &&& s2.buckets.dom().contains(other) ==> s.buckets.dom().contains(other)
                && s2.buckets[other] == s.buckets[other]
            &&& s.buckets.dom().contains(other) && elapsed_secs(
                now,
                s.buckets[other].window_start,
            ) < RATE_LIMIT_WINDOW_SECS ==> s2.buckets.dom().contains(other)
        }),
{
}

/// A client with no bucket, or whose window has passed, is allowed and starts
/// a new window at the time of the request with a count of one.
pub proof fn lemma_rate_limit_new_window_allows(s: LimiterView, key: Seq<char>, now: u64)
    requires
        !s.buckets.dom().contains(key) || elapsed_secs(now, s.buckets[key].window_start)
            >= RATE_LIMIT_WINDOW_SECS,
    ensures
        check_step(s, key, now).1,
        check_step(s, key, now).0.buckets[key] == (ClientBucket { count: 1, window_start: now }),
{
}

/// Once a sweep has run, every bucket but the requesting client's own lies
/// within its window, so the table holds only clients seen in the last window.
pub proof fn lemma_rate_limit_sweep_drops_stale(s: LimiterView, key: Seq<char>, now: u64)
    requires
        elapsed_secs(now, s.last_sweep) >= RATE_LIMIT_WINDOW_SECS,
    ensures
        ({
            let s2 = check_step(s, key, now).0;
            &&& s2.last_sweep == now
            &&& forall|k: Seq<char>|
                s2.buckets.dom().contains(k) ==> elapsed_secs(now, #[trigger] s2.buckets[k].window_start)
                    < RATE_LIMIT_WINDOW_SECS
        }),
{
}

} // verus!
