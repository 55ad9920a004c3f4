use trading_charts::model::{Candle, MarketData, DEFAULT_WINDOW, START_PRICE};

const NOW: u64 = 1_700_000_000_000;
const NOW_MINUTE: u64 = 1_699_999_980_000;
const NOW_FIVE_MINUTES: u64 = 1_699_999_800_000;

fn empty_market(price: i64, at: u64, window_size: usize) -> MarketData {
    MarketData {
        price,
        candles_1m: Vec::new(),
        candles_5m: Vec::new(),
        current_1m: Candle::new(price, at, 0),
        current_5m: Candle::new(price, at, 0),
        window_size,
        last_1m_time: at,
        last_5m_time: at,
        last_update_time: at,
    }
}

fn assert_ordered(c: &Candle) {
    assert!(c.low <= c.open.min(c.close));
    assert!(c.open.max(c.close) <= c.high);
}

#[test]
fn candle_new_has_four_equal_prices() {
    let c = Candle::new(12_345, 60_000, 7);
    assert_eq!((c.open, c.high, c.low, c.close), (12_345, 12_345, 12_345, 12_345));
    assert_eq!(c.timestamp, 60_000);
    assert_eq!(c.index, 7);
}

#[test]
fn candle_update_widens_and_tracks_close() {
    let mut c = Candle::new(100, 0, 0);
    c.update(105);
    c.update(97);
    c.update(101);
    assert_eq!((c.open, c.high, c.low, c.close), (100, 105, 97, 101));
}

#[test]
fn early_tick_is_dropped() {
    let mut m = empty_market(100, NOW, DEFAULT_WINDOW);
    m.update_at(150, NOW + 99);
    assert_eq!(m.price, 100);
    assert_eq!((m.current_1m.high, m.current_1m.low), (100, 100));
    assert_eq!((m.current_5m.high, m.current_5m.low), (100, 100));
    assert_eq!(m.last_update_time, NOW);
    m.update_at(150, NOW + 100);
    assert_eq!(m.price, 150);
    assert_eq!(m.current_1m.high, 150);
    assert_eq!(m.last_update_time, NOW + 100);
}

#[test]
fn tick_from_an_earlier_clock_is_dropped() {
    let mut m = empty_market(100, NOW, DEFAULT_WINDOW);
    m.update_at(50, NOW - 5_000);
    assert_eq!(m.price, 100);
    assert_eq!(m.current_1m.low, 100);
}

#[test]
fn fast_rollover_appends_exactly_one_candle() {
    let mut m = empty_market(100, NOW_MINUTE, DEFAULT_WINDOW);
    m.update_at(110, NOW_MINUTE + 30_000);
    assert_eq!(m.candles_1m.len(), 0);
    m.update_at(95, NOW_MINUTE + 60_500);
    assert_eq!(m.candles_1m.len(), 1);
    let closed = m.candles_1m[0];
    assert_eq!((closed.open, closed.high, closed.low, closed.close), (100, 110, 95, 95));
    assert_eq!(closed.index, 0);
    let cur = m.current_1m;
    assert_eq!((cur.open, cur.high, cur.low, cur.close), (95, 95, 95, 95));
    assert_eq!(cur.index, 1);
    assert_eq!(cur.timestamp, NOW_MINUTE + 60_000);
    assert_eq!(m.last_1m_time, NOW_MINUTE + 60_000);
    // the slow series keeps its candle until five minutes have passed
    assert_eq!(m.candles_5m.len(), 0);
    assert_eq!((m.current_5m.high, m.current_5m.low, m.current_5m.close), (110, 95, 95));
}

#[test]
fn slow_rollover_after_five_minutes() {
    let mut m = empty_market(100, NOW_FIVE_MINUTES, DEFAULT_WINDOW);
    m.update_at(120, NOW_FIVE_MINUTES + 300_000);
    assert_eq!(m.candles_5m.len(), 1);
    assert_eq!(m.candles_5m[0].high, 120);
    assert_eq!(m.current_5m.index, 1);
    assert_eq!(m.current_5m.timestamp, NOW_FIVE_MINUTES + 300_000);
    assert_eq!(m.candles_1m.len(), 1);
}

#[test]
fn history_evicts_oldest_first() {
    let mut m = empty_market(100, 0, 3);
    for k in 1..=5u64 {
        m.update_at(100 + k as i64, k * 60_000);
        assert!(m.candles_1m.len() <= 3);
    }
    let idx: Vec<usize> = m.candles_1m.iter().map(|c| c.index).collect();
    assert_eq!(idx, vec![2, 3, 4]);
    assert_eq!(m.current_1m.index, 5);
}

#[test]
fn window_of_zero_keeps_no_history() {
    let mut m = empty_market(100, 0, 0);
    m.update_at(101, 60_000);
    assert!(m.candles_1m.is_empty());
    assert_eq!(m.current_1m.index, 1);
}

#[test]
fn history_stabilizes_at_window_after_150_rollovers() {
    let mut m = empty_market(100, 0, 100);
    for k in 1..=150u64 {
        m.update_at(100 + (k % 7) as i64, k * 60_000);
    }
    assert_eq!(m.candles_1m.len(), 100);
    for (i, c) in m.candles_1m.iter().enumerate() {
        assert_eq!(c.index, 50 + i);
        assert_ordered(c);
    }
    assert_eq!(m.current_1m.index, 150);
    assert_eq!(m.candles_5m.len(), 30);
}

#[test]
fn candles_stay_ordered_through_ticks() {
    let mut m = empty_market(1_000, 0, 10);
    let prices = [1_010, 990, 1_200, 800, 1_000, 1_001, 999, 1_500];
    for (k, p) in prices.iter().enumerate() {
        m.update_at(*p, (k as u64 + 1) * 37_000);
        assert_ordered(&m.current_1m);
        assert_ordered(&m.current_5m);
    }
}

#[test]
fn seeded_flat_walk() {
    let moves = vec![0i64; 600];
    let m = MarketData::seeded(NOW, &moves);
    assert_eq!(m.candles_1m.len(), 60);
    assert_eq!(m.candles_5m.len(), 12);
    assert_eq!(m.price, START_PRICE);
    assert_eq!(m.window_size, 100);
    assert_eq!(m.current_1m.index, 60);
    assert_eq!(m.current_5m.index, 12);
    assert_eq!(m.last_1m_time, NOW_MINUTE);
    assert_eq!(m.last_5m_time, NOW_FIVE_MINUTES);
    assert_eq!(m.last_update_time, NOW);
    assert_eq!(m.candles_1m[0].timestamp, NOW - 60 * 60_000);
    assert_eq!(m.candles_1m[59].timestamp, NOW - 60_000);
}

#[test]
fn seeded_walk_and_aggregation() {
    let mut moves = vec![0i64; 600];
    moves[0] = 100;
    moves[1] = -100;
    moves[2] = -50;
    moves[15] = 30;
    moves[599] = 7;
    let m = MarketData::seeded(NOW, &moves);
    let c0 = m.candles_1m[0];
    assert_eq!((c0.open, c0.high, c0.low, c0.close), (10_000, 10_100, 9_950, 9_950));
    let c1 = m.candles_1m[1];
    assert_eq!((c1.open, c1.high, c1.low, c1.close), (9_950, 9_980, 9_950, 9_980));
    assert_eq!(c1.index, 1);
    let s0 = m.candles_5m[0];
    assert_eq!((s0.open, s0.high, s0.low, s0.close), (10_000, 10_100, 9_950, 9_980));
    assert_eq!(s0.timestamp, c0.timestamp);
    assert_eq!(s0.index, 0);
    let s1 = m.candles_5m[1];
    assert_eq!(s1.timestamp, m.candles_1m[5].timestamp);
    assert_eq!(m.price, 9_987);
    assert_eq!(m.current_1m.close, 9_987);
    assert_eq!(m.candles_5m[11].close, 9_987);
}

#[test]
fn default_seeds_a_bounded_walk() {
    let m = MarketData::default();
    assert_eq!(m.candles_1m.len(), 60);
    assert_eq!(m.candles_5m.len(), 12);
    assert!(m.last_update_time > 1_600_000_000_000);
    assert_ne!(m.price, START_PRICE - 100 * 600);
    assert_ne!(m.price, START_PRICE + 100 * 600);
    for (i, c) in m.candles_1m.iter().enumerate() {
        assert_ordered(c);
        assert_eq!(c.index, i);
        let bound = 100 * 10 * (i as i64 + 1);
        assert!(c.high <= START_PRICE + bound && c.low >= START_PRICE - bound);
    }
    for (j, c) in m.candles_5m.iter().enumerate() {
        assert_eq!(c.open, m.candles_1m[5 * j].open);
        assert_eq!(c.close, m.candles_1m[5 * j + 4].close);
        let hi = m.candles_1m[5 * j..5 * j + 5].iter().map(|x| x.high).max().unwrap();
        assert_eq!(c.high, hi);
    }
}

#[test]
fn update_reads_the_clock() {
    let mut m = empty_market(100, 0, DEFAULT_WINDOW);
    m.update(130);
    assert_eq!(m.price, 130);
    assert!(m.last_update_time > 1_600_000_000_000);
    assert_eq!(m.candles_1m.len(), 1);
    assert_eq!(m.current_1m.close, 130);
}

#[test]
fn seeded_history_keeps_newest_after_150_rollovers() {
    let moves = vec![0i64; 600];
    let mut m = MarketData::seeded(NOW, &moves);
    for k in 1..=150u64 {
        m.update_at(START_PRICE + (k % 5) as i64, NOW_MINUTE + k * 60_000);
        assert!(m.candles_1m.len() <= 100);
    }
    assert_eq!(m.candles_1m.len(), 100);
    let idx: Vec<usize> = m.candles_1m.iter().map(|c| c.index).collect();
    let expected: Vec<usize> = (110..210).collect();
    assert_eq!(idx, expected);
    assert_eq!(m.current_1m.index, 210);
}
