//! Token-bucket rate limiting per client address and upstream server.
//!
//! Token amounts are counted in units of 10^-18 token, so that a refill rate
//! given in billionths of a token per second adds exactly that many units per
//! nanosecond, and refilling never rounds.

use crate::config::RateLimitConfig;
use crate::text::push_char;
use dashmap::DashMap;
use std::time::Instant;
use vstd::prelude::*;

verus! {

/// One whole token (one request) in bucket units.
pub const TOKEN: u128 = 1_000_000_000_000_000_000u128;

/// Bucket units in a billionth of a token.
pub const UNITS_PER_NANO_TOKEN: u128 = 1_000_000_000u128;

/// Largest bucket capacity a configuration can give.
pub const MAX_CAPACITY: u128 = 18_446_744_073_709_551_615_000_000_000u128;

/// Nanoseconds in a second.
pub const NANOS_PER_SEC: u64 = 1_000_000_000u64;

/// The state of one bucket: the tokens it holds and when it was last refilled
/// (nanoseconds on the limiter's clock).
#[derive(Clone, Copy, Debug, PartialEq, Eq, Structural)]
pub struct Bucket {
    pub tokens: u128,
    pub last_refill: u128,
}

/// The answer to one request.
#[derive(Clone, Copy, Debug, PartialEq, Eq, Structural)]
pub enum RateLimitResult {
    /// A token was taken.
    Allowed,
    /// No whole token was available. `retry_after_nanos` is the wait until one
    /// will be, or `None` when the bucket never refills.
    Denied { retry_after_nanos: Option<u64> },
}

/// Declares `dashmap::DashMap` to Verus as an opaque type; its contents are
/// seen only through `bucket_table`.
#[verifier::external_type_specification]
#[verifier::external_body]
#[verifier::reject_recursive_types(K)]
#[verifier::reject_recursive_types(V)]
#[verifier::reject_recursive_types(S)]
pub struct ExDashMap<K, V, S>(DashMap<K, V, S>);

/// Declares `std::time::Instant` to Verus as an opaque type.
#[verifier::external_type_specification]
#[verifier::external_body]
pub struct ExInstant(Instant);

/// The concurrent map that holds the buckets.
pub type BucketMap = DashMap<String, Bucket>;

/// The buckets that a `DashMap` holds, by the characters of their keys.
pub uninterp spec fn bucket_table(map: DashMap<String, Bucket>) -> Map<Seq<char>, Bucket>;

/// `DashMap::new`: a map with no entries.
#[verifier::external_body]
fn new_bucket_map() -> (m: BucketMap)
    ensures
        bucket_table(m) =~= Map::empty(),
{
    DashMap::new()
}

/// `DashMap::get`, copying the bucket out of the read guard: the bucket stored
/// under `key`, if any.
#[verifier::external_body]
fn lookup_bucket(map: &BucketMap, key: &String) -> (r: Option<Bucket>)
    ensures
        r == (if bucket_table(*map).contains_key(key@) {
            Some(bucket_table(*map)[key@])
        } else {
            None
        }),
{
    map.get(key).map(|entry| *entry.value())
}

/// `DashMap::insert`: stores `bucket` under `key`, replacing any earlier one.
#[verifier::external_body]
fn store_bucket(map: &mut BucketMap, key: String, bucket: Bucket)
    ensures
        bucket_table(*final(map)) == bucket_table(*old(map)).insert(key@, bucket),
{
    map.insert(key, bucket);
}

/// `Instant::now`. Nothing is claimed of the reading.
#[verifier::external_body]
fn clock_start() -> Instant {
    Instant::now()
}

/// `Instant::elapsed`, in nanoseconds. Nothing is claimed of the reading.
#[verifier::external_body]
fn nanos_since(start: &Instant) -> u128 {
    start.elapsed().as_nanos()
}

/// Nanoseconds from `last` to `now`, zero when `now` is earlier.
pub open spec fn elapsed_nanos(last: u128, now: u128) -> int {
    if last <= now {
        now - last
    } else {
        0
    }
}

/// The tokens of `b` at `now`: what it held plus what the rate adds since its
/// last refill, never more than the capacity.
pub open spec fn refilled_tokens(b: Bucket, now: u128, capacity: u128, rate: u64) -> int {
    let t = b.tokens + elapsed_nanos(b.last_refill, now) * rate;
    if t <= capacity {
        t
    } else {
        capacity as int
    }
}

/// `a / b` rounded up.
pub open spec fn ceil_div(a: int, b: int) -> int {
    if a % b == 0 {
        a / b
    } else {
        a / b + 1
    }
}

/// The wait, in nanoseconds, until a bucket holding `available` units holds a
/// whole token; `None` when it never refills.
pub open spec fn retry_after(available: int, rate: u64) -> Option<u64> {
    if rate == 0 {
        None
    } else {
        Some(ceil_div(TOKEN - available, rate as int) as u64)
    }
}

/// One request against bucket `b` at `now`: refill, then take a whole token if
/// there is one.
pub open spec fn bucket_step(b: Bucket, now: u128, capacity: u128, rate: u64) -> (Bucket, RateLimitResult) {
    let t = refilled_tokens(b, now, capacity, rate);
    if t >= TOKEN {
        (Bucket { tokens: (t - TOKEN) as u128, last_refill: now }, RateLimitResult::Allowed)
    } else {
        (
            Bucket { tokens: t as u128, last_refill: now },
            RateLimitResult::Denied { retry_after_nanos: retry_after(t, rate) },
        )
    }
}

/// The key of the bucket for a client address and a server: `"{ip}:{server}"`.
pub open spec fn bucket_key(client_ip: Seq<char>, server_name: Seq<char>) -> Seq<char> {
    client_ip + seq![':'] + server_name
}

/// The state of a `RateLimiter`: its buckets by key, their capacity and refill
/// rate (units per nanosecond), and whether limiting is on.
pub struct LimiterState {
    pub table: Map<Seq<char>, Bucket>,
    pub capacity: u128,
    pub rate: u64,
    pub enabled: bool,
}

impl LimiterState {
    /// The capacity is one a configuration can give, and no bucket holds more
    /// than the capacity.
    pub open spec fn wf(self) -> bool {
        &&& self.capacity <= MAX_CAPACITY
        &&& forall|k: Seq<char>| #[trigger] self.table.contains_key(k) ==> self.table[k].tokens <= self.capacity
    }

    /// The bucket under `key` at `now`: the stored one, or a full one.
    pub open spec fn bucket_at(self, key: Seq<char>, now: u128) -> Bucket {
        if self.table.contains_key(key) {
            self.table[key]
        } else {
            Bucket { tokens: self.capacity, last_refill: now }
        }
    }
}

/// One request under `key` at `now`: allowed with nothing stored when limiting
/// is off; else the step of the key's bucket, which is stored back.
pub open spec fn limiter_check(s: LimiterState, key: Seq<char>, now: u128) -> (LimiterState, RateLimitResult) {
    if !s.enabled {
        (s, RateLimitResult::Allowed)
    } else {
        let (b, r) = bucket_step(s.bucket_at(key, now), now, s.capacity, s.rate);
        (LimiterState { table: s.table.insert(key, b), ..s }, r)
    }
}

/// The answers to `n` requests under `key`, all at the instant `now`.
pub open spec fn answers_at(s: LimiterState, key: Seq<char>, now: u128, n: nat) -> Seq<RateLimitResult>
    decreases n,
{
    if n == 0 {
        Seq::empty()
    } else {
        let (s1, r) = limiter_check(s, key, now);
        seq![r] + answers_at(s1, key, now, (n - 1) as nat)
    }
}

/// A bucket refilled at the instant of its last refill keeps its tokens.
proof fn lemma_no_time_no_refill(b: Bucket, capacity: u128, rate: u64)
    requires
        b.tokens <= capacity,
    ensures
        refilled_tokens(b, b.last_refill, capacity, rate) == b.tokens,
{
    assert(elapsed_nanos(b.last_refill, b.last_refill) == 0);
    assert(0 * (rate as int) == 0) by (nonlinear_arith);
}

/// Every request keeps the limiter well formed: no bucket ever holds more
/// than the capacity.
pub proof fn lemma_check_keeps_wf(s: LimiterState, key: Seq<char>, now: u128)
    requires
        s.wf(),
    ensures
        limiter_check(s, key, now).0.wf(),
{
    let s1 = limiter_check(s, key, now).0;
    assert forall|k: Seq<char>| #[trigger] s1.table.contains_key(k) implies s1.table[k].tokens <= s1.capacity by {
        if s.enabled && k == key {
        }
    }
}

/// A request touches only its own key's bucket and never changes the
/// capacity, the rate or whether limiting is on.
pub proof fn lemma_check_touches_only_its_key(s: LimiterState, key: Seq<char>, other: Seq<char>, now: u128)
    requires
        other != key,
    ensures
        limiter_check(s, key, now).0.table.contains_key(other) == s.table.contains_key(other),
        s.table.contains_key(other) ==> limiter_check(s, key, now).0.table[other] == s.table[other],
        limiter_check(s, key, now).0.capacity == s.capacity,
        limiter_check(s, key, now).0.rate == s.rate,
        limiter_check(s, key, now).0.enabled == s.enabled,
{
}

/// With limiting off, every request is allowed and nothing is stored.
pub proof fn lemma_disabled_allows_everything(s: LimiterState, key: Seq<char>, now: u128)
    requires
        !s.enabled,
    ensures
        limiter_check(s, key, now) == (s, RateLimitResult::Allowed),
{
}

/// A bucket that holds exactly `m` whole tokens and was refilled at `now`
/// answers `m` requests at `now` and refuses the next one.
proof fn lemma_whole_tokens_at_one_instant(s: LimiterState, key: Seq<char>, now: u128, m: nat)
    requires
        s.wf(),
        s.enabled,
        s.bucket_at(key, now).last_refill == now,
        s.bucket_at(key, now).tokens == m * TOKEN,
    ensures
        answers_at(s, key, now, m + 1).len() == m + 1,
        forall|i: int| 0 <= i < m ==> #[trigger] answers_at(s, key, now, m + 1)[i] == RateLimitResult::Allowed,
        answers_at(s, key, now, m + 1)[m as int] is Denied,
    decreases m,
{
    let b = s.bucket_at(key, now);
    if !s.table.contains_key(key) {
        assert(b.tokens <= s.capacity);
    } else {
        assert(s.table.contains_key(key));
    }
    lemma_no_time_no_refill(b, s.capacity, s.rate);
    let (s1, r) = limiter_check(s, key, now);
    let rs = answers_at(s, key, now, m + 1);
    assert(rs == seq![r] + answers_at(s1, key, now, m));
    if m == 0 {
        assert(r is Denied);
    } else {
        assert(r == RateLimitResult::Allowed);
        lemma_check_keeps_wf(s, key, now);
        assert(s1.table.contains_key(key));
        assert(s1.bucket_at(key, now).tokens == (m - 1) * TOKEN);
        lemma_whole_tokens_at_one_instant(s1, key, now, (m - 1) as nat);
        let rs1 = answers_at(s1, key, now, m);
        assert forall|i: int| 0 <= i < m implies rs[i] == RateLimitResult::Allowed by {
            if i > 0 {
                assert(rs[i] == rs1[i - 1]);
            }
        }
        assert(rs[m as int] == rs1[m - 1]);
    }
}

/// A client that has not been seen yet, against buckets of `burst` whole
/// tokens, gets `burst` requests through at one instant and the next refused.
pub proof fn lemma_burst_then_refusal(s: LimiterState, key: Seq<char>, now: u128, burst: nat)
    requires
        s.wf(),
        s.enabled,
        !s.table.contains_key(key),
        s.capacity == burst * TOKEN,
    ensures
        answers_at(s, key, now, burst + 1).len() == burst + 1,
        forall|i: int| 0 <= i < burst ==> #[trigger] answers_at(s, key, now, burst + 1)[i] == RateLimitResult::Allowed,
        answers_at(s, key, now, burst + 1)[burst as int] is Denied,
{
    lemma_whole_tokens_at_one_instant(s, key, now, burst);
}

/// A refusal's wait is exact: when buckets can hold a whole token, the same
/// client is refused one nanosecond before the wait is over and allowed when
/// it is over.
pub proof fn lemma_retry_after_is_exact(s: LimiterState, key: Seq<char>, now: u128)
    requires
        s.wf(),
        s.enabled,
        s.capacity >= TOKEN,
    ensures
        ({
            let (s1, r) = limiter_check(s, key, now);
            r matches RateLimitResult::Denied { retry_after_nanos: Some(d) } ==> {
                &&& d > 0
                &&& now + d <= u128::MAX ==> {
                    &&& limiter_check(s1, key, (now + d - 1) as u128).1 is Denied
                    &&& limiter_check(s1, key, (now + d) as u128).1 == RateLimitResult::Allowed
                }
            }
        }),
{
    let (s1, r) = limiter_check(s, key, now);
    if let RateLimitResult::Denied { retry_after_nanos: Some(d) } = r {
        let b = s.bucket_at(key, now);
        let t = refilled_tokens(b, now, s.capacity, s.rate);
        assert(t < TOKEN);
        assert(t >= 0);
        let rate = s.rate as int;
        let need = TOKEN - t;
        assert(rate > 0);
        assert(d as int == ceil_div(need, rate));
        assert(s1.table[key] == Bucket { tokens: t as u128, last_refill: now });
        assert(0 < d && (d - 1) * rate < need && d * rate >= need) by (nonlinear_arith)
            requires
                rate > 0,
                need > 0,
                d == ceil_div(need, rate),
        {
            assert(need == (need / rate) * rate + need % rate);
        }
        if now + d <= u128::MAX {
            assert(s1.bucket_at(key, (now + d - 1) as u128) == Bucket { tokens: t as u128, last_refill: now });
            assert(elapsed_nanos(now, (now + d - 1) as u128) == d - 1);
            assert(s1.bucket_at(key, (now + d) as u128) == Bucket { tokens: t as u128, last_refill: now });
            assert(elapsed_nanos(now, (now + d) as u128) == d);
        }
    }
}

/// `times` never goes back.
pub open spec fn nondecreasing(times: Seq<u128>) -> bool {
    forall|i: int, j: int| 0 <= i <= j < times.len() ==> times[i] <= times[j]
}

/// A run of requests: request `i`, under `keys[i]` at `times[i]`, takes the
/// limiter from `states[i]` to `states[i + 1]` with answer `answers[i]`. This
/// is what a sequence of `check_at` calls gives, whatever keys they use.
pub open spec fn is_run(
    states: Seq<LimiterState>,
    keys: Seq<Seq<char>>,
    times: Seq<u128>,
    answers: Seq<RateLimitResult>,
) -> bool {
    &&& states.len() == times.len() + 1
    &&& keys.len() == times.len()
    &&& answers.len() == times.len()
    &&& forall|i: int|
        0 <= i < times.len() ==> #[trigger] limiter_check(states[i], keys[i], times[i]) == (
            states[i + 1],
            answers[i],
        )
}

/// How many of the first `n` requests of a run are under `key` and allowed.
pub open spec fn allowed_for(key: Seq<char>, keys: Seq<Seq<char>>, answers: Seq<RateLimitResult>, n: nat) -> nat
    decreases n,
{
    if n == 0 {
        0
    } else {
        allowed_for(key, keys, answers, (n - 1) as nat) + if keys[n - 1] == key && answers[n - 1]
            == RateLimitResult::Allowed {
            1nat
        } else {
            0nat
        }
    }
}

/// The time from `start` to `t`, zero when `t` is earlier.
pub open spec fn time_since(t: u128, start: u128) -> int {
    if t >= start {
        t - start
    } else {
        0
    }
}

/// What holds of `key`'s bucket after `allowed` of its requests in a run that
/// began at `start`, the last request being no later than `latest`.
spec fn window_account(
    s: LimiterState,
    key: Seq<char>,
    start: u128,
    capacity: u128,
    rate: u64,
    allowed: nat,
    latest: int,
) -> bool {
    &&& s.enabled
    &&& s.capacity == capacity
    &&& s.rate == rate
    &&& !s.table.contains_key(key) ==> allowed == 0
    &&& s.table.contains_key(key) ==> {
        let b = s.table[key];
        &&& b.last_refill <= latest
        &&& allowed > 0 ==> b.last_refill >= start
        &&& allowed * TOKEN + b.tokens <= capacity + rate * time_since(b.last_refill, start)
    }
}

/// `r * a + r * b == r * (a + b)`, and `r * a <= r * b` when `0 <= a <= b`.
proof fn lemma_rate_times(r: int, a: int, b: int)
    requires
        r >= 0,
    ensures
        r * a + r * b == r * (a + b),
        0 <= a <= b ==> 0 <= r * a <= r * b,
{
    assert(r * a + r * b == r * (a + b)) by (nonlinear_arith);
    assert(0 <= a <= b ==> 0 <= r * a <= r * b) by (nonlinear_arith)
        requires
            r >= 0,
    ;
}

/// The account of `key`'s bucket holds after each prefix of a run.
proof fn lemma_window_account(
    states: Seq<LimiterState>,
    keys: Seq<Seq<char>>,
    times: Seq<u128>,
    answers: Seq<RateLimitResult>,
    key: Seq<char>,
    start: u128,
    n: nat,
)
    requires
        is_run(states, keys, times, answers),
        states[0].enabled,
        nondecreasing(times),
        forall|i: int| 0 <= i < times.len() ==> start <= #[trigger] times[i],
        states[0].table.contains_key(key) ==> states[0].table[key].last_refill <= start,
        states[0].table.contains_key(key) ==> states[0].table[key].tokens <= states[0].capacity,
        n <= times.len(),
    ensures
        window_account(
            states[n as int],
            key,
            start,
            states[0].capacity,
            states[0].rate,
            allowed_for(key, keys, answers, n),
            if n == 0 {
                start as int
            } else {
                times[n - 1] as int
            },
        ),
    decreases n,
{
    let cap = states[0].capacity;
    let rate = states[0].rate;
    if n == 0 {
        if states[0].table.contains_key(key) {
            let b = states[0].table[key];
            assert(time_since(b.last_refill, start) == 0);
            assert(rate * time_since(b.last_refill, start) == 0) by (nonlinear_arith)
                requires
                    time_since(b.last_refill, start) == 0,
            ;
        }
    } else {
        let i = n - 1;
        lemma_window_account(states, keys, times, answers, key, start, i as nat);
        let s = states[i];
        let t = times[i];
        let a0 = allowed_for(key, keys, answers, i as nat);
        let latest0: int = if i == 0 { start as int } else { times[i - 1] as int };
        assert(latest0 <= t) by {
            if i > 0 {
                assert(times[i - 1] <= times[i]);
            }
        }
        assert(limiter_check(s, keys[i], t) == (states[n as int], answers[i]));
        let s1 = states[n as int];
        if keys[i] != key {
            lemma_check_touches_only_its_key(s, keys[i], key, t);
            assert(allowed_for(key, keys, answers, n) == a0);
        } else {
            let b = s.bucket_at(key, t);
            let sum = b.tokens + elapsed_nanos(b.last_refill, t) * rate;
            let r1 = refilled_tokens(b, t, cap, rate);
            assert(r1 <= cap);
            assert(r1 <= sum);
            let b1 = s1.table[key];
            let got: nat = if answers[i] == RateLimitResult::Allowed { 1 } else { 0 };
            assert(allowed_for(key, keys, answers, n) == a0 + got);
            assert(b1.tokens + got * TOKEN == r1);
            assert(b1.last_refill == t);
            assert(time_since(t, start) == t - start);
            lemma_rate_times(rate as int, 0, t - start);
            if !s.table.contains_key(key) {
                assert(a0 == 0);
            } else if b.last_refill < start {
                assert(a0 == 0);
            } else {
                let e = t - b.last_refill;
                assert(elapsed_nanos(b.last_refill, t) == e);
                lemma_rate_times(rate as int, b.last_refill - start, e);
                assert(e * rate == rate * e) by (nonlinear_arith);
            }
            assert((a0 + got) * TOKEN + b1.tokens == a0 * TOKEN + r1) by (nonlinear_arith)
                requires
                    b1.tokens + got * TOKEN == r1,
            ;
        }
    }
}

/// The token-bucket bound. In any run of requests (under any keys, in time
/// order) whose instants lie within a window of `window` nanoseconds from
/// `start`, and before which `key`'s bucket was last refilled no later than
/// `start`, the requests under `key` are allowed at most `capacity + rate *
/// window` units' worth: at most burst + rate x window requests.
pub proof fn lemma_window_bound(
    states: Seq<LimiterState>,
    keys: Seq<Seq<char>>,
    times: Seq<u128>,
    answers: Seq<RateLimitResult>,
    key: Seq<char>,
    start: u128,
    window: nat,
)
    requires
        is_run(states, keys, times, answers),
        states[0].wf(),
        states[0].enabled,
        nondecreasing(times),
        forall|i: int| 0 <= i < times.len() ==> start <= #[trigger] times[i] <= start + window,
        states[0].table.contains_key(key) ==> states[0].table[key].last_refill <= start,
    ensures
        allowed_for(key, keys, answers, times.len()) * TOKEN <= states[0].capacity + states[0].rate
            * window,
{
    let n = times.len();
    lemma_window_account(states, keys, times, answers, key, start, n);
    let s = states[n as int];
    let a = allowed_for(key, keys, answers, n);
    let rate = states[0].rate as int;
    lemma_rate_times(rate, 0, window as int);
    if s.table.contains_key(key) {
        let b = s.table[key];
        let latest: int = if n == 0 { start as int } else { times[n - 1] as int };
        assert(latest <= start + window);
        assert(0 <= time_since(b.last_refill, start) <= window);
        lemma_rate_times(rate, time_since(b.last_refill, start), window as int);
    }
}

/// Refills `b` at `now`.
fn refill(b: Bucket, now: u128, capacity: u128, rate: u64) -> (t: u128)
    ensures
        t == refilled_tokens(b, now, capacity, rate),
        t <= capacity,
{
    let elapsed: u128 = if b.last_refill <= now {
        now - b.last_refill
    } else {
        0
    };
    assert(elapsed == elapsed_nanos(b.last_refill, now));
    assert(elapsed * rate >= 0) by (nonlinear_arith);
    if b.tokens >= capacity {
        return capacity;
    }
    if rate == 0 {
        assert(elapsed * rate == 0) by (nonlinear_arith)
            requires
                rate == 0,
        ;
        return b.tokens;
    }
    let r: u128 = rate as u128;
    let deficit: u128 = capacity - b.tokens;
    assert(deficit % r != 0 ==> deficit / r < deficit) by (nonlinear_arith)
        requires
            r > 0,
    {
        if deficit % r != 0 {
            assert(r >= 2);
            assert(deficit == (deficit / r) * r + deficit % r);
            assert((deficit / r) * r >= (deficit / r) * 2);
        }
    }
    let needed: u128 = if deficit % r == 0 {
        deficit / r
    } else {
        deficit / r + 1
    };
    if elapsed >= needed {
        assert(elapsed * r >= deficit) by (nonlinear_arith)
            requires
                r > 0,
                elapsed >= needed,
                needed == (if deficit % r == 0 { (deficit / r) as int } else { deficit / r + 1 }),
        {
            assert(deficit == (deficit / r) * r + deficit % r);
            assert(needed * r >= deficit);
            assert(elapsed * r >= needed * r);
        }
        capacity
    } else {
        assert(elapsed * r < deficit) by (nonlinear_arith)
            requires
                r > 0,
                elapsed < needed,
                needed == (if deficit % r == 0 { (deficit / r) as int } else { deficit / r + 1 }),
        {
            assert(deficit == (deficit / r) * r + deficit % r);
            assert(elapsed * r <= (needed - 1) * r);
        }
        b.tokens + elapsed * r
    }
}

/// The wait until `available` units grow to a whole token at `rate`.
fn wait_for_token(available: u128, rate: u64) -> (w: Option<u64>)
    requires
        available < TOKEN,
    ensures
        w == retry_after(available as int, rate),
{
    if rate == 0 {
        return None;
    }
    let need: u128 = TOKEN - available;
    let r: u128 = rate as u128;
    let q: u128 = need / r;
    assert(q <= need && (need % r != 0 ==> q + 1 <= need)) by (nonlinear_arith)
        requires
            r > 0,
            q == need / r,
    {
        assert(need == q * r + need % r);
        assert(q * r >= q);
    }
    let w: u128 = if need % r == 0 {
        q
    } else {
        q + 1
    };
    assert(w <= TOKEN);
    Some(w as u64)
}

/// Token buckets keyed by client address and server name.
pub struct RateLimiter {
    buckets: BucketMap,
    capacity: u128,
    refill_rate: u64,
    enabled: bool,
    clock: Instant,
    latest: u128,
}

impl View for RateLimiter {
    type V = LimiterState;

    closed spec fn view(&self) -> LimiterState {
        LimiterState {
            table: bucket_table(self.buckets),
            capacity: self.capacity,
            rate: self.refill_rate,
            enabled: self.enabled,
        }
    }
}

impl RateLimiter {
    /// The limiter's state is well formed.
    pub open spec fn wf(&self) -> bool {
        self@.wf()
    }

    /// The latest reading of the limiter's clock, in nanoseconds since the
    /// limiter was made (0 before the first).
    pub closed spec fn latest_reading(&self) -> u128 {
        self.latest
    }

    /// A limiter with no buckets, whose buckets hold `nano_burst` billionths
    /// of a token and refill at `nano_requests_per_second` billionths of a
    /// token per second.
    pub fn new(config: &RateLimitConfig) -> (r: RateLimiter)
        ensures
            r.wf(),
            r@.table == Map::<Seq<char>, Bucket>::empty(),
            r@.capacity == config.nano_burst as u128 * UNITS_PER_NANO_TOKEN,
            r@.rate == config.nano_requests_per_second,
            r@.enabled == config.enabled,
            r.latest_reading() == 0,
    {
        let capacity: u128 = config.nano_burst as u128 * UNITS_PER_NANO_TOKEN;
        RateLimiter {
            buckets: new_bucket_map(),
            capacity,
            refill_rate: config.nano_requests_per_second,
            enabled: config.enabled,
            clock: clock_start(),
            latest: 0,
        }
    }

    /// Reads the limiter's monotonic clock: nanoseconds since the limiter was
    /// made, never less than an earlier reading. The buckets are untouched.
    pub fn clock_reading(&mut self) -> (now: u128)
        ensures
            now >= old(self).latest_reading(),
            final(self).latest_reading() == now,
            final(self)@ == old(self)@,
    {
        let t = nanos_since(&self.clock);
        let now = if t > self.latest {
            t
        } else {
            self.latest
        };
        self.latest = now;
        now
    }

    /// One request from `client_ip` to `server_name` at `now` nanoseconds on
    /// the limiter's clock.
    pub fn check_at(&mut self, client_ip: &str, server_name: &str, now: u128) -> (r: RateLimitResult)
        ensures
            old(self).wf() ==> final(self).wf(),
            (final(self)@, r) == limiter_check(old(self)@, bucket_key(client_ip@, server_name@), now),
            final(self).latest_reading() == old(self).latest_reading(),
    {
        proof {
            if self@.wf() {
                lemma_check_keeps_wf(self@, bucket_key(client_ip@, server_name@), now);
            }
        }
        if !self.enabled {
            return RateLimitResult::Allowed;
        }
        let mut key = client_ip.to_owned();
        push_char(&mut key, ':');
        key.append(server_name);
        let ghost k = key@;
        assert(k == bucket_key(client_ip@, server_name@));
        let b = match lookup_bucket(&self.buckets, &key) {
            Some(b) => b,
            None => Bucket { tokens: self.capacity, last_refill: now },
        };
        assert(b == self@.bucket_at(k, now));
        let t = refill(b, now, self.capacity, self.refill_rate);
        let ghost old_table = bucket_table(self.buckets);
        if t >= TOKEN {
            let nb = Bucket { tokens: t - TOKEN, last_refill: now };
            store_bucket(&mut self.buckets, key, nb);
            assert(bucket_table(self.buckets) == old_table.insert(k, nb));
            RateLimitResult::Allowed
        } else {
            let nb = Bucket { tokens: t, last_refill: now };
            store_bucket(&mut self.buckets, key, nb);
            assert(bucket_table(self.buckets) == old_table.insert(k, nb));
            RateLimitResult::Denied { retry_after_nanos: wait_for_token(t, self.refill_rate) }
        }
    }

    /// One request from `client_ip` to `server_name` now, by the limiter's
    /// monotonic clock: as `check_at` at a reading no earlier than the last.
    pub fn check(&mut self, client_ip: &str, server_name: &str) -> (r: RateLimitResult)
        ensures
            old(self).wf() ==> final(self).wf(),
            exists|now: u128|
                {
                    &&& now >= old(self).latest_reading()
                    &&& final(self).latest_reading() == now
                    &&& (final(self)@, r) == limiter_check(
                        old(self)@,
                        bucket_key(client_ip@, server_name@),
                        now,
                    )
                },
    {
        let now = self.clock_reading();
        self.check_at(client_ip, server_name, now)
    }
}

} // verus!
