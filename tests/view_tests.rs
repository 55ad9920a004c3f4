use trading_charts::model::Candle;
use trading_charts::view::{ChartView, DragInput, FrameInput, ScreenRect};

const RECT: ScreenRect = ScreenRect { min_x: 0, min_y: 0, max_x: 640, max_y: 300 };

fn history(n: usize) -> Vec<Candle> {
    (0..n)
        .map(|i| Candle {
            open: 1_000,
            high: 1_000 + i as i64,
            low: 1_000 - i as i64,
            close: 1_000,
            timestamp: i as u64 * 60_000,
            index: i,
        })
        .collect()
}

fn idle() -> DragInput {
    DragInput { started: false, pointer_x: None, released: false }
}

fn frame(drag: DragInput) -> FrameInput {
    FrameInput { rect: RECT, latest_clicked: false, drag }
}

#[test]
fn new_view_follows_live_edge() {
    let v = ChartView::new("1m_chart");
    assert_eq!(v.id, "1m_chart");
    assert_eq!(v.offset, 0);
    assert!(v.auto_scroll);
    assert!(v.drag_origin.is_none());
    assert_eq!(v.visible_count, 30);
    assert_eq!(v.padding, 20);
}

#[test]
fn drag_two_slots_left_scrolls_back_two() {
    let h = history(10);
    let cur = Candle::new(1_000, 600_000, 10);
    let mut v = ChartView::new("c");
    v.show(&h, &cur, frame(idle()));
    v.show(&h, &cur, frame(DragInput { started: true, pointer_x: Some(500), released: false }));
    assert_eq!(v.drag_origin, Some((500, 0)));
    assert!(!v.auto_scroll);
    assert_eq!(v.offset, 0);
    // slot width is (640 - 2 * 20) / 30 = 20 pixels
    v.show(&h, &cur, frame(DragInput { started: false, pointer_x: Some(460), released: false }));
    assert_eq!(v.offset, 2);
    v.show(&h, &cur, frame(DragInput { started: false, pointer_x: Some(460), released: true }));
    assert!(v.drag_origin.is_none());
    assert_eq!(v.offset, 2);
}

#[test]
fn drag_is_clamped_by_history_length() {
    let h = history(1);
    let cur = Candle::new(1_000, 60_000, 1);
    let mut v = ChartView::new("c");
    v.drag_origin = Some((500, 0));
    v.handle_interactions(DragInput { started: false, pointer_x: Some(460), released: false }, RECT, h.len());
    assert_eq!(v.offset, 1);
    v.handle_interactions(DragInput { started: false, pointer_x: Some(700), released: false }, RECT, h.len());
    assert_eq!(v.offset, 0);
    let f = v.show(&h, &cur, frame(idle()));
    assert!(f.bounds.y_max > f.bounds.y_min);
}

#[test]
fn drag_rounds_half_slots_away_from_zero() {
    let mut v = ChartView::new("c");
    v.offset = 5;
    v.handle_interactions(DragInput { started: true, pointer_x: Some(300), released: false }, RECT, 50);
    assert_eq!(v.drag_origin, Some((300, 5)));
    v.handle_interactions(DragInput { started: false, pointer_x: Some(330), released: false }, RECT, 50);
    assert_eq!(v.offset, 3);
    v.handle_interactions(DragInput { started: false, pointer_x: Some(289), released: false }, RECT, 50);
    assert_eq!(v.offset, 6);
    v.handle_interactions(DragInput { started: false, pointer_x: Some(270), released: false }, RECT, 50);
    assert_eq!(v.offset, 7);
}

#[test]
fn seek_to_latest_resets_after_drag() {
    let mut v = ChartView::new("c");
    v.offset = 7;
    v.auto_scroll = false;
    v.drag_origin = Some((10, 7));
    v.seek_to_latest();
    assert_eq!(v.offset, 0);
    assert!(v.auto_scroll);
    assert!(v.drag_origin.is_none());
}

#[test]
fn latest_action_in_a_frame_seeks() {
    let h = history(40);
    let cur = Candle::new(1_000, 0, 40);
    let mut v = ChartView::new("c");
    v.show(&h, &cur, frame(idle()));
    v.offset = 9;
    v.auto_scroll = false;
    v.show(&h, &cur, FrameInput { rect: RECT, latest_clicked: true, drag: idle() });
    assert_eq!(v.offset, 0);
    assert!(v.auto_scroll);
}

#[test]
fn auto_scroll_returns_to_live_edge_on_growth() {
    let cur = Candle::new(1_000, 0, 0);
    let mut v = ChartView::new("c");
    v.show(&history(40), &cur, frame(idle()));
    assert_eq!(v.last_candle_count, 41);
    v.offset = 4;
    v.show(&history(41), &cur, frame(idle()));
    assert_eq!(v.offset, 0);
    v.offset = 4;
    v.auto_scroll = false;
    v.show(&history(42), &cur, frame(idle()));
    assert_eq!(v.offset, 4);
}

#[test]
fn visible_window_selection() {
    let h = history(100);
    let cur = Candle::new(1_000, 0, 100);
    let mut v = ChartView::new("c");
    let vis = v.visible(&h, &cur);
    assert_eq!(vis.len(), 30);
    assert_eq!(vis[0].index, 71);
    assert_eq!(vis[29].index, 100);
    v.offset = 5;
    let vis = v.visible(&h, &cur);
    assert_eq!(vis.len(), 29);
    assert_eq!(vis[0].index, 66);
    assert_eq!(vis[28].index, 94);
    v.offset = 90;
    let vis = v.visible(&h, &cur);
    assert_eq!(vis.len(), 10);
    assert_eq!(vis[0].index, 0);
    assert_eq!(vis[9].index, 9);
    v.offset = 500;
    let vis = v.visible(&h, &cur);
    assert_eq!(vis.len(), 0);
    let vis = v.visible(&history(0), &cur);
    assert_eq!(vis.len(), 0);
}

#[test]
fn bounds_pad_a_tenth_each_side() {
    let v = ChartView::new("c");
    let h = vec![Candle { open: 950, high: 1_100, low: 900, close: 1_000, timestamp: 0, index: 0 }];
    let cur = Candle::new(1_000, 60_000, 1);
    let b = v.calculate_bounds(&h, &cur);
    assert_eq!((b.y_min, b.y_max), (880, 1_120));
    assert_eq!((b.x_min, b.x_max), (0, 30));
}

#[test]
fn bounds_of_a_flat_candle_are_not_empty() {
    let v = ChartView::new("c");
    let cur = Candle::new(100, 0, 0);
    let b = v.calculate_bounds(&[], &cur);
    assert_eq!((b.y_min, b.y_max), (99, 101));
    let b = v.calculate_bounds(&[], &Candle::new(i64::MAX, 0, 0));
    assert_eq!((b.y_min, b.y_max), (i64::MAX - 1, i64::MAX));
}

#[test]
fn price_maps_linearly_and_inverted() {
    let v = ChartView::new("c");
    assert_eq!(v.price_to_screen_y(1_000, RECT, 880, 1_120), 150);
    assert_eq!(v.price_to_screen_y(880, RECT, 880, 1_120), 280);
    assert_eq!(v.price_to_screen_y(1_120, RECT, 880, 1_120), 20);
    assert_eq!(v.price_to_screen_y(5_000, RECT, 880, 1_120), -4_183);
    assert_eq!(v.price_to_screen_y(-5_000, RECT, 880, 1_120), 6_650);
    assert_eq!(v.price_to_screen_y(1_001, RECT, 880, 1_120), 149);
}

#[test]
fn show_lays_out_candles_in_slots() {
    let h = vec![
        Candle { open: 950, high: 1_100, low: 900, close: 1_000, timestamp: 0, index: 0 },
        Candle { open: 1_000, high: 1_000, low: 960, close: 970, timestamp: 60_000, index: 1 },
    ];
    let cur = Candle::new(1_000, 120_000, 2);
    let mut v = ChartView::new("c");
    let f = v.show(&h, &cur, frame(idle()));
    assert_eq!((f.bounds.y_min, f.bounds.y_max), (880, 1_120));
    assert_eq!(f.price_line_y, 150);
    assert_eq!((f.line_left, f.line_right), (20, 620));
    assert_eq!(f.candles.len(), 3);
    let s0 = f.candles[0];
    assert_eq!(s0.x_center, 30);
    assert_eq!(s0.half_body, 8);
    assert_eq!((s0.high_y, s0.low_y, s0.open_y, s0.close_y), (42, 259, 205, 150));
    assert!(s0.rising);
    assert!(!f.candles[1].rising);
    assert_eq!(f.candles[2].x_center, 70);
}

#[test]
fn scrolled_back_view_hides_live_candle() {
    let h = history(50);
    let cur = Candle::new(5_000, 0, 50);
    let mut v = ChartView::new("c");
    v.show(&h, &cur, frame(idle()));
    v.auto_scroll = false;
    v.offset = 3;
    let f = v.show(&h, &cur, frame(idle()));
    assert_eq!(f.candles.len(), 29);
    assert_eq!((f.bounds.y_min, f.bounds.y_max), (945, 1_055));
    assert_eq!(f.price_line_y, -9_304);
}

#[test]
fn scrolled_back_window_leaves_out_newer_candles() {
    let h = vec![
        Candle { open: 950, high: 1_100, low: 900, close: 1_000, timestamp: 0, index: 0 },
        Candle { open: 1_000, high: 5_500, low: 1_000, close: 1_005, timestamp: 60_000, index: 1 },
    ];
    let cur = Candle::new(1_005, 120_000, 2);
    let mut v = ChartView::new("c");
    v.offset = 1;
    let vis = v.visible(&h, &cur);
    assert_eq!(vis.len(), 1);
    assert_eq!(vis[0].index, 0);
    let b = v.calculate_bounds(&h, &cur);
    assert_eq!((b.y_min, b.y_max), (880, 1_120));
}

#[test]
fn flat_candle_alone_in_view_gets_synthetic_padding() {
    let h = vec![
        Candle::new(1_000, 0, 0),
        Candle { open: 1_000, high: 1_005, low: 1_000, close: 1_005, timestamp: 60_000, index: 1 },
    ];
    let cur = Candle::new(1_005, 120_000, 2);
    let mut v = ChartView::new("c");
    v.offset = 1;
    let b = v.calculate_bounds(&h, &cur);
    assert_eq!((b.y_min, b.y_max), (999, 1_001));
}
