//! Time-stamped caches. Time is a monotonic clock reading in milliseconds, passed in
//! by the caller.
use vstd::prelude::*;

verus! {

/// Milliseconds from `from` to `to`, zero when `to` lies before `from`.
pub open spec fn elapsed_ms(from: u64, to: u64) -> int {
    if to >= from {
        to - from
    } else {
        0
    }
}

/// A value written in the background and read by the status path.
pub struct Cache<T> {
    ts_ms: u64,
    payload: Option<T>,
}

impl<T> Cache<T> {
    /// The cached value, if any.
    pub closed spec fn content(&self) -> Option<T> {
        self.payload
    }

    /// When the value was stored.
    pub closed spec fn stamp(&self) -> u64 {
        self.ts_ms
    }

    /// Whether the cache holds a value younger than `ttl_ms` at time `now_ms`.
    pub open spec fn is_fresh(&self, now_ms: u64, ttl_ms: u64) -> bool {
        self.content() is Some && elapsed_ms(self.stamp(), now_ms) < ttl_ms
    }

    /// An empty cache.
    pub fn new() -> (r: Cache<T>)
        ensures
            r.content() is None,
    {
        Cache { ts_ms: 0, payload: None }
    }

    /// The cached value, if any.
    pub fn get(&self) -> (r: Option<&T>)
        ensures
            match r {
                Some(v) => self.content() == Some(*v),
                None => self.content() is None,
            },
    {
        match &self.payload {
            Some(v) => Some(v),
            None => None,
        }
    }

    /// Whether the cached value is younger than `ttl_ms`.
    pub fn fresh(&self, now_ms: u64, ttl_ms: u64) -> (r: bool)
        ensures
            r == self.is_fresh(now_ms, ttl_ms),
    {
        let age: u64 = if now_ms >= self.ts_ms {
            now_ms - self.ts_ms
        } else {
            0
        };
        self.payload.is_some() && age < ttl_ms
    }

    /// The cache holds `v`, stored at `t`.
    pub open spec fn stored(&self, v: T, t: u64) -> bool {
        self.content() == Some(v) && self.stamp() == t
    }

    /// Stores `v` as of `now_ms`, replacing what was there.
    pub fn set(&mut self, v: T, now_ms: u64)
        ensures
            final(self).stored(v, now_ms),
    {
        self.ts_ms = now_ms;
        self.payload = Some(v);
    }
}

/// A value recomputed by `loader` when it is missing or older than the time to live.
#[verifier::reject_recursive_types(T)]
pub struct TtlMemo<T, F: Fn() -> T> {
    ts_ms: u64,
    val: Option<T>,
    ttl_ms: u64,
    loader: F,
}

impl<T: Clone, F: Fn() -> T> TtlMemo<T, F> {
    /// The memoised value, if any.
    pub closed spec fn content(&self) -> Option<T> {
        self.val
    }

    /// When the value was computed.
    pub closed spec fn stamp(&self) -> u64 {
        self.ts_ms
    }

    /// The time to live.
    pub closed spec fn ttl(&self) -> u64 {
        self.ttl_ms
    }

    /// The function that computes the value.
    pub closed spec fn load_fn(&self) -> F {
        self.loader
    }

    /// Whether a read at `now_ms` recomputes the value.
    pub open spec fn stale(&self, now_ms: u64) -> bool {
        self.content() is None || elapsed_ms(self.stamp(), now_ms) >= self.ttl()
    }

    /// An empty memo around `f`.
    pub fn new(ttl_ms: u64, f: F) -> (r: Self)
        ensures
            r.content() is None,
            r.ttl() == ttl_ms,
            r.load_fn() == f,
    {
        TtlMemo { ts_ms: 0, val: None, ttl_ms, loader: f }
    }

    /// What a read at `now_ms` does, taking the memo from `self` to `after` and giving
    /// `r`: a missing or stale value is recomputed by the loader and stamped with a
    /// reading of `clock` taken once the loader has returned; a fresh one is kept with
    /// its stamp; the read gives a clone of the value held.
    pub open spec fn read_by<C: Fn() -> u64>(&self, now_ms: u64, clock: C, after: Self, r: T) -> bool {
        &&& after.ttl() == self.ttl()
        &&& after.load_fn() == self.load_fn()
        &&& self.stale(now_ms) ==> call_ensures(clock, (), after.stamp()) && after.content() is Some
            && call_ensures(self.load_fn(), (), after.content()->0)
        &&& !self.stale(now_ms) ==> after.stamp() == self.stamp() && after.content() == self.content()
        &&& after.content() is Some
        &&& cloned(after.content()->0, r)
    }

    /// The value, recomputed first when it is missing or stale at `now_ms`; a new value
    /// is stamped with the time `clock` reads after loading (see `read_by`).
    pub fn get<C: Fn() -> u64>(&mut self, now_ms: u64, clock: C) -> (r: T)
        requires
            call_requires(old(self).load_fn(), ()),
            call_requires(clock, ()),
        ensures
            old(self).read_by(now_ms, clock, *final(self), r),
    {
        let age: u64 = if now_ms >= self.ts_ms {
            now_ms - self.ts_ms
        } else {
            0
        };
        if self.val.is_none() || age >= self.ttl_ms {
            let v = (self.loader)();
            self.val = Some(v);
            self.ts_ms = clock();
        }
        self.val.clone().unwrap()
    }
}


/// After `set(v, t)`, and until the next `set`, `get` gives `v` and `fresh(now, ttl)`
/// holds exactly while less than `ttl` has passed since `t`; a later `set(w, t2)` makes
/// reads give `w`, fresh by `t2` alone.
pub proof fn law_cache_read_after_write<T>(c1: Cache<T>, v: T, t: u64, c2: Cache<T>, w: T, t2: u64, now: u64, ttl: u64)
    requires
        c1.stored(v, t),
        c2.stored(w, t2),
    ensures
        c1.content() == Some(v),
        c1.is_fresh(now, ttl) <==> elapsed_ms(t, now) < ttl,
        c2.content() == Some(w),
        c2.is_fresh(now, ttl) <==> elapsed_ms(t2, now) < ttl,
{
}

/// The first read of a new memo runs the loader and gives (a clone of) what it
/// returned, stamped with the clock's reading after the loader returned.
pub proof fn law_memo_first_read_loads<T: Clone, F: Fn() -> T, C: Fn() -> u64>(
    m0: TtlMemo<T, F>,
    now: u64,
    clock: C,
    m1: TtlMemo<T, F>,
    r: T,
)
    requires
        m0.content() is None,
        m0.read_by(now, clock, m1, r),
    ensures
        call_ensures(clock, (), m1.stamp()),
        call_ensures(m0.load_fn(), (), m1.content()->0),
        cloned(m1.content()->0, r),
{
}

/// Once the loader has run, every read less than `ttl` after it finished gives (a clone
/// of) the value it returned, without running it again: value and stamp stay as they were.
pub proof fn law_memo_reads_within_ttl_reuse<T: Clone, F: Fn() -> T, C: Fn() -> u64>(
    m1: TtlMemo<T, F>,
    later: u64,
    clock: C,
    m2: TtlMemo<T, F>,
    r: T,
)
    requires
        m1.content() is Some,
        m1.stamp() <= later,
        later - m1.stamp() < m1.ttl(),
        m1.read_by(later, clock, m2, r),
    ensures
        m2.content() == m1.content(),
        m2.stamp() == m1.stamp(),
        cloned(m1.content()->0, r),
{
}

/// The first read `ttl` or more after the loader last finished runs it again and gives
/// (a clone of) its new value, stamped with the clock's reading after it returned.
pub proof fn law_memo_reloads_after_ttl<T: Clone, F: Fn() -> T, C: Fn() -> u64>(
    m1: TtlMemo<T, F>,
    later: u64,
    clock: C,
    m2: TtlMemo<T, F>,
    r: T,
)
    requires
        m1.stamp() <= later,
        later - m1.stamp() >= m1.ttl(),
        m1.read_by(later, clock, m2, r),
    ensures
        call_ensures(clock, (), m2.stamp()),
        call_ensures(m1.load_fn(), (), m2.content()->0),
        cloned(m2.content()->0, r),
{
}

/// A run of reads of a memo that holds a value: reads all less than `ttl` after the
/// loader last finished (the memo's stamp) never run it again; every one of them leaves
/// value and stamp as they were and gives (a clone of) that value.
pub proof fn law_memo_run_within_ttl<T: Clone, F: Fn() -> T, C: Fn() -> u64>(
    ms: Seq<TtlMemo<T, F>>,
    times: Seq<u64>,
    clock: C,
    results: Seq<T>,
)
    requires
        ms.len() == times.len() + 1,
        results.len() == times.len(),
        ms[0].content() is Some,
        forall|i: int| 0 <= i < times.len() ==> #[trigger] ms[i].read_by(times[i], clock, ms[i + 1], results[i]),
        forall|i: int| 0 <= i < times.len() ==> ms[0].stamp() <= #[trigger] times[i] && times[i] - ms[0].stamp() < ms[0].ttl(),
    ensures
        forall|i: int| 0 <= i < ms.len() ==> (#[trigger] ms[i]).content() == ms[0].content() && ms[i].stamp() == ms[0].stamp()
            && ms[i].ttl() == ms[0].ttl(),
        forall|i: int| 0 <= i < results.len() ==> cloned(ms[0].content()->0, #[trigger] results[i]),
    decreases times.len(),
{
    if times.len() > 0 {
        let n = times.len() - 1;
        let ms2 = ms.drop_last();
        let ts2 = times.drop_last();
        let rs2 = results.drop_last();
        assert forall|i: int| 0 <= i < ts2.len() implies #[trigger] ms2[i].read_by(ts2[i], clock, ms2[i + 1], rs2[i]) by {
            assert(ms[i].read_by(times[i], clock, ms[i + 1], results[i]));
        }
        assert forall|i: int| 0 <= i < ts2.len() implies ms2[0].stamp() <= #[trigger] ts2[i] && ts2[i] - ms2[0].stamp() < ms2[0].ttl() by {
            assert(ms[0].stamp() <= times[i] && times[i] - ms[0].stamp() < ms[0].ttl());
        }
        law_memo_run_within_ttl(ms2, ts2, clock, rs2);
        assert(ms2[n] == ms[n]);
        assert(ms[n].read_by(times[n], clock, ms[n + 1], results[n]));
        assert(ms[0].stamp() <= times[n] && times[n] - ms[0].stamp() < ms[0].ttl());
        assert(!ms[n].stale(times[n]));
        assert forall|i: int| 0 <= i < ms.len() implies (#[trigger] ms[i]).content() == ms[0].content() && ms[i].stamp()
            == ms[0].stamp() && ms[i].ttl() == ms[0].ttl() by {
            if i < ms.len() - 1 {
                assert(ms2[i] == ms[i]);
            }
        }
        assert forall|i: int| 0 <= i < results.len() implies cloned(ms[0].content()->0, #[trigger] results[i]) by {
            if i < n {
                assert(rs2[i] == results[i]);
            }
        }
    }
}

} // verus!
