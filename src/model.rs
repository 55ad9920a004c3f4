use rand::Rng;
use vstd::prelude::*;

verus! {

/// One open/high/low/close summary of the prices seen in a time bucket.
#[derive(Clone, Copy, Debug, PartialEq, Eq, Structural)]
pub struct Candle {
    pub open: i64,
    pub high: i64,
    pub low: i64,
    pub close: i64,
    /// Milliseconds since the Unix epoch at which the bucket starts.
    pub timestamp: u64,
    /// Position of the candle within its series.
    pub index: usize,
}

pub open spec fn max_i64(a: i64, b: i64) -> i64 {
    if a >= b { a } else { b }
}

pub open spec fn min_i64(a: i64, b: i64) -> i64 {
    if a <= b { a } else { b }
}

impl Candle {
    /// The low and high bracket both the open and the close.
    pub open spec fn wf(&self) -> bool {
        self.low <= self.open <= self.high && self.low <= self.close <= self.high
    }

    pub open spec fn spec_new(price: i64, timestamp: u64, index: usize) -> Candle {
        Candle { open: price, high: price, low: price, close: price, timestamp, index }
    }

    /// The candle after one more tick at `price`.
    pub open spec fn ticked(self, price: i64) -> Candle {
        Candle {
            high: max_i64(self.high, price),
            low: min_i64(self.low, price),
            close: price,
            ..self
        }
    }

    /// A candle whose four prices all equal `price`.
    pub fn new(price: i64, timestamp: u64, index: usize) -> (c: Candle)
        ensures
            c == Candle::spec_new(price, timestamp, index),
            c.wf(),
    {
        Candle { open: price, high: price, low: price, close: price, timestamp, index }
    }

    /// Takes one tick: the high and low widen to `price` and the close becomes it.
    pub fn update(&mut self, price: i64)
        ensures
            *final(self) == old(self).ticked(price),
            old(self).wf() ==> final(self).wf(),
    {
        if price > self.high {
            self.high = price;
        }
        if price < self.low {
            self.low = price;
        }
        self.close = price;
    }
}


/// Length of a fast-series bucket: one minute.
pub const FAST_PERIOD_MS: u64 = 60_000;
/// Length of a slow-series bucket: five minutes.
pub const SLOW_PERIOD_MS: u64 = 300_000;
/// Ticks closer than this to the last accepted one are dropped.
pub const MIN_TICK_GAP_MS: u64 = 100;
/// Default bound on the length of each finalized history.
pub const DEFAULT_WINDOW: usize = 100;

/// Start of the bucket of length `period` that holds `now`.
pub open spec fn bucket_start(now: u64, period: u64) -> u64
    recommends
        period > 0,
{
    ((now / period) * period) as u64
}

proof fn lemma_bucket_start_le(now: u64, period: u64)
    requires
        period > 0,
    ensures
        (now / period) * period <= now,
{
    vstd::arithmetic::div_mod::lemma_fundamental_div_mod(now as int, period as int);
    vstd::arithmetic::mul::lemma_mul_is_commutative((now / period) as int, period as int);
}

/// `h` with `c` appended, then its oldest entry dropped if it outgrew `window`.
pub open spec fn push_window(h: Seq<Candle>, c: Candle, window: usize) -> Seq<Candle> {
    if h.len() + 1 > window {
        h.push(c).subrange(1, h.len() + 1 as int)
    } else {
        h.push(c)
    }
}

/// The model of one timeframe: its finalized candles, oldest first, the
/// candle in progress, and the start of the bucket the latter was opened in.
pub ghost struct SeriesState {
    pub history: Seq<Candle>,
    pub current: Candle,
    pub open_time: u64,
}

impl SeriesState {
    /// Each candle is well formed, the history fits `window`, and the indices
    /// count up by one to the index of the current candle.
    pub open spec fn wf(self, window: usize) -> bool {
        &&& self.history.len() <= window
        &&& self.current.wf()
        &&& forall|i: int| 0 <= i < self.history.len() ==> (#[trigger] self.history[i]).wf()
        &&& forall|i: int|
            0 <= i < self.history.len() ==> (#[trigger] self.history[i]).index + (
            self.history.len() - i) == self.current.index
    }

    /// The series after an accepted tick at `price` sampled at `now`: the current
    /// candle takes the tick, and once `period` has passed since `open_time` it is
    /// finalized into the history and a new candle opens at `price` in the bucket
    /// of `now`, with the next index.
    pub open spec fn step(self, price: i64, now: u64, period: u64, window: usize) -> SeriesState {
        let closed = self.current.ticked(price);
        if now >= self.open_time + period {
            let t = bucket_start(now, period);
            SeriesState {
                history: push_window(self.history, closed, window),
                current: Candle::spec_new(price, t, (self.current.index + 1) as usize),
                open_time: t,
            }
        } else {
            SeriesState { current: closed, ..self }
        }
    }
}

proof fn lemma_series_step_wf(s: SeriesState, price: i64, now: u64, period: u64, window: usize)
    requires
        s.wf(window),
        s.current.index < usize::MAX,
    ensures
        s.step(price, now, period, window).wf(window),
        s.step(price, now, period, window).current.index <= s.current.index + 1,
{
    let h = s.history;
    let closed = s.current.ticked(price);
    if now >= s.open_time + period {
        let h1 = h.push(closed);
        assert forall|i: int| 0 <= i < h1.len() implies (#[trigger] h1[i]).wf() && h1[i].index + (
        h1.len() - i) == s.current.index + 1 by {
            if i < h.len() {
                assert(h1[i] == h[i]);
            }
        }
        if h.len() + 1 > window {
            let h2 = h1.subrange(1, h.len() + 1 as int);
            assert forall|i: int| 0 <= i < h2.len() implies (#[trigger] h2[i]).wf() && h2[i].index
                + (h2.len() - i) == s.current.index + 1 by {
                assert(h2[i] == h1[i + 1]);
            }
        }
    }
}

/// Rolls one series forward by an accepted tick.
fn step_series(
    history: &mut Vec<Candle>,
    current: &mut Candle,
    open_time: &mut u64,
    price: i64,
    now: u64,
    period: u64,
    window: usize,
)
    requires
        period > 0,
        old(current).index < usize::MAX,
        old(history)@.len() <= window,
    ensures
        (SeriesState { history: final(history)@, current: *final(current), open_time: *final(open_time) })
            == (SeriesState { history: old(history)@, current: *old(current), open_time: *old(open_time) }).step(
            price,
            now,
            period,
            window,
        ),
{
    current.update(price);
    if now >= *open_time && now - *open_time >= period {
        history.push(*current);
        if history.len() > window {
            history.remove(0);
        }
        proof {
            lemma_bucket_start_le(now, period);
        }
        let t = (now / period) * period;
        *current = Candle::new(price, t, current.index + 1);
        *open_time = t;
    }
}

/// The aggregator: the last accepted price and the fast (one-minute) and slow
/// (five-minute) series, both fed from the same ticks.
pub struct MarketData {
    pub price: i64,
    pub candles_1m: Vec<Candle>,
    pub candles_5m: Vec<Candle>,
    pub current_1m: Candle,
    pub current_5m: Candle,
    pub window_size: usize,
    /// Start of the bucket of the current fast candle.
    pub last_1m_time: u64,
    /// Start of the bucket of the current slow candle.
    pub last_5m_time: u64,
    /// When the last tick was accepted.
    pub last_update_time: u64,
}

pub ghost struct MarketState {
    pub price: i64,
    pub fast: SeriesState,
    pub slow: SeriesState,
    pub window_size: usize,
    pub last_update_time: u64,
}

impl MarketState {
    pub open spec fn wf(self) -> bool {
        self.fast.wf(self.window_size) && self.slow.wf(self.window_size)
    }

    /// Whether a tick sampled at `now` is let through the rate limit.
    pub open spec fn accepts(self, now: u64) -> bool {
        now >= self.last_update_time + MIN_TICK_GAP_MS
    }

    /// The state after a tick at `price` sampled once at `now`.
    pub open spec fn step(self, price: i64, now: u64) -> MarketState {
        if self.accepts(now) {
            MarketState {
                price,
                fast: self.fast.step(price, now, FAST_PERIOD_MS, self.window_size),
                slow: self.slow.step(price, now, SLOW_PERIOD_MS, self.window_size),
                last_update_time: now,
                ..self
            }
        } else {
            self
        }
    }

    /// The state after each of `ticks`, a price and its sampling time, in turn.
    pub open spec fn run(self, ticks: Seq<(i64, u64)>) -> MarketState
        decreases ticks.len(),
    {
        if ticks.len() == 0 {
            self
        } else {
            let last = ticks.last();
            self.run(ticks.drop_last()).step(last.0, last.1)
        }
    }
}

impl View for MarketData {
    type V = MarketState;

    open spec fn view(&self) -> MarketState {
        MarketState {
            price: self.price,
            fast: SeriesState {
                history: self.candles_1m@,
                current: self.current_1m,
                open_time: self.last_1m_time,
            },
            slow: SeriesState {
                history: self.candles_5m@,
                current: self.current_5m,
                open_time: self.last_5m_time,
            },
            window_size: self.window_size,
            last_update_time: self.last_update_time,
        }
    }
}

/// Relies on `SystemTime::elapsed` from the Unix epoch: the wall-clock time in
/// milliseconds, or 0 for a clock set before the epoch.
#[verifier::external_body]
fn now_millis() -> (r: u64) {
    match std::time::UNIX_EPOCH.elapsed() {
        Ok(d) => d.as_millis() as u64,
        Err(_) => 0,
    }
}

impl MarketData {
    /// Feeds a tick sampled at `now` to both series, unless it comes less than
    /// the minimum gap after the last accepted tick, in which case nothing changes.
    pub fn update_at(&mut self, new_price: i64, now: u64)
        requires
            old(self)@.wf(),
            old(self).current_1m.index < usize::MAX,
            old(self).current_5m.index < usize::MAX,
        ensures
            final(self)@ == old(self)@.step(new_price, now),
            final(self)@.wf(),
    {
        proof {
            lemma_series_step_wf(self@.fast, new_price, now, FAST_PERIOD_MS, self.window_size);
            lemma_series_step_wf(self@.slow, new_price, now, SLOW_PERIOD_MS, self.window_size);
        }
        if now < self.last_update_time || now - self.last_update_time < MIN_TICK_GAP_MS {
            return;
        }
        self.last_update_time = now;
        self.price = new_price;
        let window = self.window_size;
        step_series(
            &mut self.candles_1m,
            &mut self.current_1m,
            &mut self.last_1m_time,
            new_price,
            now,
            FAST_PERIOD_MS,
            window,
        );
        step_series(
            &mut self.candles_5m,
            &mut self.current_5m,
            &mut self.last_5m_time,
            new_price,
            now,
            SLOW_PERIOD_MS,
            window,
        );
    }

    /// Feeds a tick sampled at the current wall-clock time to both series.
    pub fn update(&mut self, new_price: i64)
        requires
            old(self)@.wf(),
            old(self).current_1m.index < usize::MAX,
            old(self).current_5m.index < usize::MAX,
        ensures
            exists|now: u64| final(self)@ == old(self)@.step(new_price, now),
            final(self)@.wf(),
    {
        let now = now_millis();
        self.update_at(new_price, now);
    }
}


proof fn lemma_run_wf(m: MarketState, ticks: Seq<(i64, u64)>)
    requires
        m.wf(),
        m.fast.current.index + ticks.len() < usize::MAX,
        m.slow.current.index + ticks.len() < usize::MAX,
    ensures
        m.run(ticks).wf(),
        m.run(ticks).window_size == m.window_size,
        m.run(ticks).fast.current.index <= m.fast.current.index + ticks.len(),
        m.run(ticks).slow.current.index <= m.slow.current.index + ticks.len(),
    decreases ticks.len(),
{
    if ticks.len() > 0 {
        let prev = m.run(ticks.drop_last());
        lemma_run_wf(m, ticks.drop_last());
        let last = ticks.last();
        lemma_series_step_wf(prev.fast, last.0, last.1, FAST_PERIOD_MS, prev.window_size);
        lemma_series_step_wf(prev.slow, last.0, last.1, SLOW_PERIOD_MS, prev.window_size);
    }
}

/// Whatever ticks arrive, in both series the current candle's low is at most
/// the lower of its open and close, and its high at least the higher of them.
pub proof fn lemma_current_candles_stay_ordered(m: MarketState, ticks: Seq<(i64, u64)>)
    requires
        m.wf(),
        m.fast.current.index + ticks.len() < usize::MAX,
        m.slow.current.index + ticks.len() < usize::MAX,
    ensures
        ({
            let f = m.run(ticks).fast.current;
            f.low <= min_i64(f.open, f.close) <= max_i64(f.open, f.close) <= f.high
        }),
        ({
            let s = m.run(ticks).slow.current;
            s.low <= min_i64(s.open, s.close) <= max_i64(s.open, s.close) <= s.high
        }),
{
    lemma_run_wf(m, ticks);
}

/// Whatever ticks arrive, neither history grows past the window size.
pub proof fn lemma_histories_stay_within_window(m: MarketState, ticks: Seq<(i64, u64)>)
    requires
        m.wf(),
        m.fast.current.index + ticks.len() < usize::MAX,
        m.slow.current.index + ticks.len() < usize::MAX,
    ensures
        m.run(ticks).fast.history.len() <= m.window_size,
        m.run(ticks).slow.history.len() <= m.window_size,
{
    lemma_run_wf(m, ticks);
}

/// Whatever ticks arrive, each history lists its candles oldest first with
/// indices that count up by one, the newest finalized candle directly below
/// the current one.
pub proof fn lemma_history_indices_count_up(m: MarketState, ticks: Seq<(i64, u64)>)
    requires
        m.wf(),
        m.fast.current.index + ticks.len() < usize::MAX,
        m.slow.current.index + ticks.len() < usize::MAX,
    ensures
        ({
            let f = m.run(ticks).fast;
            forall|i: int|
                0 <= i < f.history.len() ==> #[trigger] f.history[i].index == f.current.index - (
                f.history.len() - i)
        }),
        ({
            let s = m.run(ticks).slow;
            forall|i: int|
                0 <= i < s.history.len() ==> #[trigger] s.history[i].index == s.current.index - (
                s.history.len() - i)
        }),
{
    lemma_run_wf(m, ticks);
}

/// Ticks whose times each come at least a fast period after the one before,
/// the first both accepted by `m` and past the end of its fast bucket.
pub open spec fn rollover_ticks(m: MarketState, ticks: Seq<(i64, u64)>) -> bool {
    &&& ticks.len() > 0 ==> ticks[0].1 >= m.last_update_time + MIN_TICK_GAP_MS
    &&& ticks.len() > 0 ==> ticks[0].1 >= m.fast.open_time + FAST_PERIOD_MS
    &&& forall|i: int| 1 <= i < ticks.len() ==> #[trigger] ticks[i].1 >= ticks[i - 1].1 + FAST_PERIOD_MS
}

/// Each tick of a run of fast rollovers finalizes one candle: after `k` of
/// them the fast history holds the `k` more candles, up to the window size,
/// keeping the newest, and the current index has advanced by `k`.
pub proof fn lemma_rollovers_fill_window(m: MarketState, ticks: Seq<(i64, u64)>)
    requires
        m.wf(),
        m.fast.current.index + ticks.len() < usize::MAX,
        m.slow.current.index + ticks.len() < usize::MAX,
        rollover_ticks(m, ticks),
    ensures
        ({
            let r = m.run(ticks);
            &&& r.fast.history.len() == if m.fast.history.len() + ticks.len() < m.window_size {
                m.fast.history.len() + ticks.len() as int
            } else {
                m.window_size as int
            }
            &&& r.fast.current.index == m.fast.current.index + ticks.len()
            &&& forall|i: int|
                0 <= i < r.fast.history.len() ==> #[trigger] r.fast.history[i].index
                    == r.fast.current.index - (r.fast.history.len() - i)
            &&& ticks.len() > 0 ==> r.last_update_time == ticks.last().1
            &&& ticks.len() > 0 ==> r.fast.open_time <= ticks.last().1
        }),
    decreases ticks.len(),
{
    lemma_run_wf(m, ticks);
    if ticks.len() > 0 {
        let pre = ticks.drop_last();
        assert forall|i: int| 1 <= i < pre.len() implies #[trigger] pre[i].1 >= pre[i - 1].1
            + FAST_PERIOD_MS by {
            assert(pre[i] == ticks[i] && pre[i - 1] == ticks[i - 1]);
        }
        if pre.len() > 0 {
            assert(pre[0] == ticks[0]);
        }
        lemma_rollovers_fill_window(m, pre);
        lemma_run_wf(m, pre);
        let last = ticks.last();
        if pre.len() > 0 {
            assert(pre.last() == ticks[ticks.len() - 2]);
            assert(ticks[ticks.len() - 1].1 >= ticks[ticks.len() - 2].1 + FAST_PERIOD_MS);
        }
        lemma_bucket_start_le(last.1, FAST_PERIOD_MS);
    }
}

/// When a series rolls over, its finalized candle is appended at the end of
/// the history and, only when the history was already full, the oldest one
/// is dropped from the front.
pub proof fn lemma_rollover_evicts_oldest_first(h: Seq<Candle>, c: Candle, window: usize)
    requires
        h.len() <= window,
        window > 0,
    ensures
        push_window(h, c, window).last() == c,
        h.len() < window ==> push_window(h, c, window) == h.push(c),
        h.len() == window ==> push_window(h, c, window) == h.subrange(1, h.len() as int).push(c),
{
    if h.len() == window {
        assert(h.push(c).subrange(1, h.len() + 1 as int) =~= h.subrange(1, h.len() as int).push(c));
    }
}

/// A tick that comes less than the minimum gap after the last accepted one
/// leaves the price, both series and the time of the last accepted tick as
/// they were.
pub proof fn lemma_early_tick_is_dropped(m: MarketState, price: i64, now: u64)
    requires
        now < m.last_update_time + MIN_TICK_GAP_MS,
    ensures
        m.step(price, now) == m,
{
}

/// When an accepted tick crosses the fast bucket boundary, exactly one
/// candle, the old current candle with the tick taken, is appended to the
/// fast history (the oldest leaving if the window was full), and the new
/// current candle has all four prices equal to the tick's price and the next index.
pub proof fn lemma_fast_rollover(m: MarketState, price: i64, now: u64)
    requires
        m.wf(),
        m.accepts(now),
        now >= m.fast.open_time + FAST_PERIOD_MS,
        m.fast.current.index < usize::MAX,
    ensures
        ({
            let f = m.step(price, now).fast;
            &&& f.history == push_window(m.fast.history, m.fast.current.ticked(price), m.window_size)
            &&& m.window_size > 0 ==> f.history.last() == m.fast.current.ticked(price)
            &&& f.history.len() == if m.fast.history.len() < m.window_size {
                m.fast.history.len() + 1 as int
            } else {
                m.window_size as int
            }
            &&& f.current.open == price && f.current.close == price
            &&& f.current.high == price && f.current.low == price
            &&& f.current.index == m.fast.current.index + 1
            &&& f.open_time == bucket_start(now, FAST_PERIOD_MS)
        }),
{
}


/// Number of one-minute candles in the seeded history.
pub const SEED_CANDLES: usize = 60;
/// Number of price moves inside each seeded one-minute candle.
pub const SEED_STEPS: usize = 10;
/// Number of one-minute candles merged into each seeded five-minute candle.
pub const SEED_GROUP: usize = 5;
/// Number of seeded five-minute candles.
pub const SEED_SLOW_CANDLES: usize = 12;
/// Price, in cents, at which the seeded walk starts.
pub const START_PRICE: i64 = 10_000;
/// Largest size, in cents, of one seeded price move.
pub const MAX_MOVE: i64 = 100;

/// Every move of a seeding walk is at most `MAX_MOVE` either way, and there is
/// one for each step of each seeded candle.
pub open spec fn valid_moves(moves: Seq<i64>) -> bool {
    &&& moves.len() == SEED_CANDLES * SEED_STEPS
    &&& forall|j: int| 0 <= j < moves.len() ==> -MAX_MOVE <= #[trigger] moves[j] <= MAX_MOVE
}

/// Price of the seeding walk after its first `k` moves.
pub open spec fn price_at(moves: Seq<i64>, k: int) -> int
    decreases k,
{
    if k <= 0 {
        START_PRICE as int
    } else {
        price_at(moves, k - 1) + moves[k - 1]
    }
}

/// Highest price of the walk from step `a` through step `b`.
pub open spec fn high_between(moves: Seq<i64>, a: int, b: int) -> int
    decreases b - a,
{
    if b <= a {
        price_at(moves, a)
    } else {
        let h = high_between(moves, a, b - 1);
        let p = price_at(moves, b);
        if h >= p { h } else { p }
    }
}

/// Lowest price of the walk from step `a` through step `b`.
pub open spec fn low_between(moves: Seq<i64>, a: int, b: int) -> int
    decreases b - a,
{
    if b <= a {
        price_at(moves, a)
    } else {
        let l = low_between(moves, a, b - 1);
        let p = price_at(moves, b);
        if l <= p { l } else { p }
    }
}

/// Start of the seeded one-minute candle `i`: `SEED_CANDLES - i` minutes
/// before `now`, or the epoch if that lies before it.
pub open spec fn seed_time(now: u64, i: int) -> u64 {
    let back = (SEED_CANDLES - i) * FAST_PERIOD_MS;
    if now >= back { (now - back) as u64 } else { 0 }
}

/// Seeded one-minute candle `i`: it spans moves `SEED_STEPS * i` up to
/// `SEED_STEPS * (i + 1)` of the walk.
pub open spec fn seed_candle(now: u64, moves: Seq<i64>, i: int) -> Candle {
    let a = i * SEED_STEPS;
    let b = a + SEED_STEPS;
    Candle {
        open: price_at(moves, a) as i64,
        high: high_between(moves, a, b) as i64,
        low: low_between(moves, a, b) as i64,
        close: price_at(moves, b) as i64,
        timestamp: seed_time(now, i),
        index: i as usize,
    }
}

/// The candle covering all of `cs`, a non-empty run of consecutive candles:
/// the open, start time and index of the first, the close of the last, the
/// highest high and the lowest low.
pub open spec fn aggregate(cs: Seq<Candle>) -> Candle
    decreases cs.len(),
{
    if cs.len() <= 1 {
        cs[0]
    } else {
        let a = aggregate(cs.drop_last());
        let b = cs.last();
        Candle { high: max_i64(a.high, b.high), low: min_i64(a.low, b.low), close: b.close, ..a }
    }
}

/// Seeded five-minute candle `j`: the aggregate of one-minute candles
/// `SEED_GROUP * j` up to `SEED_GROUP * (j + 1)`, numbered `j`.
pub open spec fn seed_slow_candle(fast: Seq<Candle>, j: nat) -> Candle {
    let a = (j * SEED_GROUP) as int;
    Candle { index: j as usize, ..aggregate(fast.subrange(a, a + SEED_GROUP)) }
}

/// The aggregator seeded at `now` from the walk `moves`.
pub open spec fn seed_state(now: u64, moves: Seq<i64>) -> MarketState {
    let fast = Seq::new(SEED_CANDLES as nat, |i: int| seed_candle(now, moves, i));
    let slow = Seq::new(SEED_SLOW_CANDLES as nat, |j: int| seed_slow_candle(fast, j as nat));
    let price = price_at(moves, SEED_CANDLES * SEED_STEPS) as i64;
    let t_fast = bucket_start(now, FAST_PERIOD_MS);
    let t_slow = bucket_start(now, SLOW_PERIOD_MS);
    MarketState {
        price,
        fast: SeriesState {
            history: fast,
            current: Candle::spec_new(price, t_fast, SEED_CANDLES),
            open_time: t_fast,
        },
        slow: SeriesState {
            history: slow,
            current: Candle::spec_new(price, t_slow, SEED_SLOW_CANDLES),
            open_time: t_slow,
        },
        window_size: DEFAULT_WINDOW,
        last_update_time: now,
    }
}

proof fn lemma_price_bounds(moves: Seq<i64>, k: int)
    requires
        0 <= k <= moves.len(),
        forall|j: int| 0 <= j < moves.len() ==> -MAX_MOVE <= #[trigger] moves[j] <= MAX_MOVE,
    ensures
        START_PRICE - MAX_MOVE * k <= price_at(moves, k) <= START_PRICE + MAX_MOVE * k,
    decreases k,
{
    if k > 0 {
        lemma_price_bounds(moves, k - 1);
    }
}

proof fn lemma_aggregate_wf(cs: Seq<Candle>)
    requires
        cs.len() > 0,
        forall|i: int| 0 <= i < cs.len() ==> (#[trigger] cs[i]).wf(),
    ensures
        aggregate(cs).wf(),
    decreases cs.len(),
{
    if cs.len() > 1 {
        let p = cs.drop_last();
        assert forall|i: int| 0 <= i < p.len() implies (#[trigger] p[i]).wf() by {
            assert(p[i] == cs[i]);
        }
        lemma_aggregate_wf(p);
        assert(cs.last() == cs[cs.len() - 1]);
    }
}

/// Relies on `rand::Rng::gen_range` on the thread-local generator: a value
/// drawn from `lo` up to, but not including, `hi`.
#[verifier::external_body]
fn random_in(lo: i64, hi: i64) -> (r: i64)
    requires
        lo < hi,
    ensures
        lo <= r < hi,
{
    rand::thread_rng().gen_range(lo..hi)
}

impl MarketData {
    /// Seeds both series from a walk of `moves` starting at `START_PRICE`:
    /// `SEED_CANDLES` one-minute candles of `SEED_STEPS` moves each, ending a
    /// minute apart just before `now`, and five-minute candles that each merge
    /// `SEED_GROUP` of them. The current candles open at the walk's last price.
    pub fn seeded(now: u64, moves: &Vec<i64>) -> (m: MarketData)
        requires
            valid_moves(moves@),
        ensures
            m@ == seed_state(now, moves@),
            m@.wf(),
    {
        let ghost mv = moves@;
        let mut candles_1m: Vec<Candle> = Vec::new();
        let mut price: i64 = START_PRICE;
        let mut i: usize = 0;
        while i < SEED_CANDLES
            invariant
                valid_moves(mv),
                mv == moves@,
                i <= SEED_CANDLES,
                price == price_at(mv, i * SEED_STEPS),
                candles_1m@ =~= Seq::new(i as nat, |j: int| seed_candle(now, mv, j)),
                forall|j: int| 0 <= j < i ==> (#[trigger] candles_1m@[j]).wf(),
            decreases SEED_CANDLES - i,
        {
            let back: u64 = (SEED_CANDLES - i) as u64 * FAST_PERIOD_MS;
            let ts: u64 = if now >= back { now - back } else { 0 };
            let ghost a: int = i * SEED_STEPS;
            proof {
                lemma_price_bounds(mv, a);
            }
            let mut c = Candle::new(price, ts, i);
            let mut k: usize = 0;
            while k < SEED_STEPS
                invariant
                    valid_moves(mv),
                    mv == moves@,
                    i < SEED_CANDLES,
                    a == i * SEED_STEPS,
                    k <= SEED_STEPS,
                    c.wf(),
                    c.open == price_at(mv, a),
                    c.close == price_at(mv, a + k),
                    c.high == high_between(mv, a, a + k),
                    c.low == low_between(mv, a, a + k),
                    c.timestamp == ts,
                    c.index == i,
                decreases SEED_STEPS - k,
            {
                proof {
                    lemma_price_bounds(mv, a + k);
                    lemma_price_bounds(mv, a + k + 1);
                }
                let step = moves[i * SEED_STEPS + k];
                c.update(c.close + step);
                k += 1;
            }
            proof {
                lemma_price_bounds(mv, a + SEED_STEPS);
            }
            price = c.close;
            candles_1m.push(c);
            i += 1;
        }
        let mut candles_5m: Vec<Candle> = Vec::new();
        let mut j: usize = 0;
        while j < SEED_SLOW_CANDLES
            invariant
                j <= SEED_SLOW_CANDLES,
                candles_1m@ == Seq::new(SEED_CANDLES as nat, |i: int| seed_candle(now, mv, i)),
                forall|i: int| 0 <= i < SEED_CANDLES ==> (#[trigger] candles_1m@[i]).wf(),
                candles_5m@ =~= Seq::new(j as nat, |x: int| seed_slow_candle(candles_1m@, x as nat)),
                forall|x: int| 0 <= x < j ==> (#[trigger] candles_5m@[x]).wf(),
            decreases SEED_SLOW_CANDLES - j,
        {
            let base: usize = j * SEED_GROUP;
            let ghost group = candles_1m@.subrange(base as int, base + SEED_GROUP);
            let mut c = candles_1m[base];
            let mut k: usize = 1;
            assert(group.subrange(0, 1) =~= seq![candles_1m@[base as int]]);
            while k < SEED_GROUP
                invariant
                    base == j * SEED_GROUP,
                    j < SEED_SLOW_CANDLES,
                    1 <= k <= SEED_GROUP,
                    candles_1m@.len() == SEED_CANDLES,
                    group == candles_1m@.subrange(base as int, base + SEED_GROUP),
                    c == aggregate(group.subrange(0, k as int)),
                decreases SEED_GROUP - k,
            {
                let next = candles_1m[base + k];
                assert(group.subrange(0, k + 1 as int).drop_last() =~= group.subrange(0, k as int));
                assert(group.subrange(0, k + 1 as int).last() == next);
                if next.high > c.high {
                    c.high = next.high;
                }
                if next.low < c.low {
                    c.low = next.low;
                }
                c.close = next.close;
                k += 1;
            }
            proof {
                assert(group.subrange(0, SEED_GROUP as int) =~= group);
                assert forall|x: int| 0 <= x < group.len() implies (#[trigger] group[x]).wf() by {
                    assert(group[x] == candles_1m@[base + x]);
                }
                lemma_aggregate_wf(group);
            }
            c.index = j;
            candles_5m.push(c);
            j += 1;
        }
        proof {
            lemma_bucket_start_le(now, FAST_PERIOD_MS);
            lemma_bucket_start_le(now, SLOW_PERIOD_MS);
        }
        let t_fast = (now / FAST_PERIOD_MS) * FAST_PERIOD_MS;
        let t_slow = (now / SLOW_PERIOD_MS) * SLOW_PERIOD_MS;
        MarketData {
            price,
            candles_1m,
            candles_5m,
            current_1m: Candle::new(price, t_fast, SEED_CANDLES),
            current_5m: Candle::new(price, t_slow, SEED_SLOW_CANDLES),
            window_size: DEFAULT_WINDOW,
            last_1m_time: t_fast,
            last_5m_time: t_slow,
            last_update_time: now,
        }
    }
}

impl Default for MarketData {
    /// Seeds the aggregator from a random walk at the current wall-clock time.
    fn default() -> (m: MarketData)
        ensures
            m@.wf(),
            exists|now: u64, moves: Seq<i64>| valid_moves(moves) && m@ == seed_state(now, moves),
    {
        let now = now_millis();
        let mut moves: Vec<i64> = Vec::new();
        let n: usize = SEED_CANDLES * SEED_STEPS;
        while moves.len() < n
            invariant
                n == SEED_CANDLES * SEED_STEPS,
                moves@.len() <= n,
                forall|j: int| 0 <= j < moves@.len() ==> -MAX_MOVE <= #[trigger] moves@[j] <= MAX_MOVE,
            decreases n - moves@.len(),
        {
            let step = random_in(-MAX_MOVE, MAX_MOVE);
            moves.push(step);
        }
        let m = MarketData::seeded(now, &moves);
        assert(valid_moves(moves@) && m@ == seed_state(now, moves@));
        m
    }
}

} // verus!
