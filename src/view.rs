use crate::model::Candle;
use vstd::arithmetic::div_mod::{lemma_div_by_multiple, lemma_div_is_ordered, lemma_div_pos_is_pos};
use vstd::arithmetic::div_mod::lemma_fundamental_div_mod_converse;
use vstd::arithmetic::mul::lemma_mul_inequality;
use vstd::prelude::*;

verus! {

/// Candles shown across the width of a chart.
pub const VISIBLE_CANDLES: usize = 30;
/// Margin, in pixels, kept clear on each side of the plotted area.
pub const CHART_PADDING: i32 = 20;

/// A drawing surface in whole pixels; `y` grows downwards.
#[derive(Clone, Copy, Debug, PartialEq, Eq, Structural)]
pub struct ScreenRect {
    pub min_x: i32,
    pub min_y: i32,
    pub max_x: i32,
    pub max_y: i32,
}

/// What the pointer did over the chart during one frame.
#[derive(Clone, Copy, Debug, PartialEq, Eq, Structural)]
pub struct DragInput {
    /// A drag with the primary button began this frame.
    pub started: bool,
    /// The pointer's horizontal position, when it is over the chart.
    pub pointer_x: Option<i32>,
    /// The drag ended this frame.
    pub released: bool,
}

/// Everything one frame of a chart needs from the surface it is drawn on.
#[derive(Clone, Copy, Debug, PartialEq, Eq, Structural)]
pub struct FrameInput {
    pub rect: ScreenRect,
    /// The "jump to latest" action was taken this frame.
    pub latest_clicked: bool,
    pub drag: DragInput,
}

/// Horizontal extent in candle slots and vertical extent in cents.
#[derive(Clone, Copy, Debug, PartialEq, Eq, Structural)]
pub struct ChartBounds {
    pub x_min: usize,
    pub x_max: usize,
    pub y_min: i64,
    pub y_max: i64,
}

/// Where one candle lands on the surface.
#[derive(Clone, Copy, Debug, PartialEq, Eq, Structural)]
pub struct CandleShape {
    pub x_center: i64,
    /// Half the width of the body.
    pub half_body: i64,
    pub high_y: i64,
    pub low_y: i64,
    pub open_y: i64,
    pub close_y: i64,
    /// The close is at or above the open.
    pub rising: bool,
}

/// The drawing of one frame: the guideline at the current price and one
/// shape per visible candle, oldest first.
pub struct ChartFrame {
    pub bounds: ChartBounds,
    pub price_line_y: i64,
    pub line_left: i64,
    pub line_right: i64,
    pub candles: Vec<CandleShape>,
}

/// Interaction state of one chart.
pub struct ChartView {
    pub id: String,
    pub padding: i32,
    pub visible_count: usize,
    /// How many candles the window is scrolled back from the newest.
    pub offset: usize,
    /// History length plus one, as seen by the last frame; 0 before the first.
    pub last_candle_count: usize,
    /// Pointer position and offset when the ongoing drag began.
    pub drag_origin: Option<(i32, usize)>,
    pub auto_scroll: bool,
}

/// Length of `[lo, hi]` once `padding` is taken off each end; never negative.
pub open spec fn inner_extent(lo: int, hi: int, padding: int) -> int {
    if hi - lo - 2 * padding > 0 {
        hi - lo - 2 * padding
    } else {
        0
    }
}

pub open spec fn clamp(v: int, lo: int, hi: int) -> int {
    if v < lo {
        lo
    } else if v > hi {
        hi
    } else {
        v
    }
}

/// `n / d` rounded to the nearest integer, halves away from zero.
pub open spec fn round_div(n: int, d: int) -> int {
    if n >= 0 {
        (2 * n + d) / (2 * d)
    } else {
        -((-2 * n + d) / (2 * d))
    }
}

/// Whole candle slots in a horizontal move of `dx` pixels, when `count` slots
/// share `width` pixels; none when there is no width.
pub open spec fn candle_delta(dx: int, width: int, count: int) -> int {
    if width <= 0 {
        0
    } else {
        round_div(dx * count, width)
    }
}

/// First shown entry of a history of `len`, `offset` candles back from the newest.
pub open spec fn visible_start(len: int, count: int, offset: int) -> int {
    if len - (count - 1) - offset > 0 {
        len - (count - 1) - offset
    } else {
        0
    }
}

/// One past the last shown entry of the history: `offset` entries short of
/// its end, but never before the first shown entry.
pub open spec fn visible_end(len: int, count: int, offset: int) -> int {
    clamp(len - offset, visible_start(len, count, offset), len)
}

/// The candles in view: the shown part of `history`, then the live candle
/// when the window is not scrolled back.
pub open spec fn visible_candles(history: Seq<Candle>, current: Candle, count: int, offset: int) -> Seq<Candle> {
    let shown = history.subrange(
        visible_start(history.len() as int, count, offset),
        visible_end(history.len() as int, count, offset),
    );
    if offset == 0 {
        shown.push(current)
    } else {
        shown
    }
}

/// Lowest low of a non-empty run of candles.
pub open spec fn lowest(cs: Seq<Candle>) -> int
    decreases cs.len(),
{
    if cs.len() <= 1 {
        cs[0].low as int
    } else {
        let l = lowest(cs.drop_last());
        if l <= cs.last().low {
            l
        } else {
            cs.last().low as int
        }
    }
}

/// Highest high of a non-empty run of candles.
pub open spec fn highest(cs: Seq<Candle>) -> int
    decreases cs.len(),
{
    if cs.len() <= 1 {
        cs[0].high as int
    } else {
        let h = highest(cs.drop_last());
        if h >= cs.last().high {
            h
        } else {
            cs.last().high as int
        }
    }
}

/// The price range of `cs`, from the lowest low to the highest high, widened
/// by a tenth of its span on each side, or by one cent when the span is empty;
/// `fallback` stands for the range when there are no candles. The ends stay
/// within `i64`, and are taken in order should malformed candles cross them.
pub open spec fn price_bounds(cs: Seq<Candle>, fallback: i64, count: usize) -> ChartBounds {
    let l0 = if cs.len() == 0 { fallback as int } else { lowest(cs) };
    let h0 = if cs.len() == 0 { fallback as int } else { highest(cs) };
    let lo = if l0 <= h0 { l0 } else { h0 };
    let hi = if l0 <= h0 { h0 } else { l0 };
    let pad = if hi > lo { (hi - lo) / 10 } else { 1 };
    ChartBounds {
        x_min: 0,
        x_max: count,
        y_min: clamp(lo - pad, i64::MIN as int, i64::MAX as int) as i64,
        y_max: clamp(hi + pad, i64::MIN as int, i64::MAX as int) as i64,
    }
}

/// Vertical pixel of `price` in `rect` under the linear map that puts `y_min`
/// at the bottom of the padded area and `y_max` at its top; the scaled height
/// is rounded down, and the pixel saturates only at the ends of `i64`.
pub open spec fn screen_y(rect: ScreenRect, padding: int, y_min: int, y_max: int, price: int) -> int {
    let h = inner_extent(rect.min_y as int, rect.max_y as int, padding);
    clamp(
        rect.max_y - padding - (price - y_min) * h / (y_max - y_min),
        i64::MIN as int,
        i64::MAX as int,
    )
}

impl ChartView {
    pub open spec fn wf(&self) -> bool {
        self.visible_count > 0 && self.padding >= 0
    }

    pub open spec fn content_width(&self, rect: ScreenRect) -> int {
        inner_extent(rect.min_x as int, rect.max_x as int, self.padding as int)
    }

    /// Back at the live edge, following it, with no drag under way.
    pub open spec fn seeked(self) -> ChartView {
        ChartView { offset: 0, drag_origin: None, auto_scroll: true, ..self }
    }

    /// The state once a frame has seen a history of `len` candles: the first
    /// frame seeks to the latest candle, and while following, growth of the
    /// history brings the window back to the live edge.
    pub open spec fn synced(self, len: int) -> ChartView {
        let v = if self.last_candle_count == 0 { self.seeked() } else { self };
        let v2 = if len + 1 > v.last_candle_count && v.auto_scroll {
            ChartView { offset: 0, ..v }
        } else {
            v
        };
        ChartView { last_candle_count: (len + 1) as usize, ..v2 }
    }

    /// The state after the pointer input of one frame. A drag start records
    /// the pointer and offset and stops following; during a drag the offset is
    /// the starting offset less the whole slots moved, kept within `0..=max_offset`;
    /// a release ends the drag.
    pub open spec fn dragged(self, input: DragInput, width: int, max_offset: usize) -> ChartView {
        let v1 = if input.started {
            ChartView {
                drag_origin: match input.pointer_x {
                    Some(x) => Some((x, self.offset)),
                    None => None,
                },
                auto_scroll: false,
                ..self
            }
        } else {
            self
        };
        let v2 = match (v1.drag_origin, input.pointer_x) {
            (Some((ox, oo)), Some(x)) => ChartView {
                offset: clamp(
                    oo - candle_delta(x - ox, width, v1.visible_count as int),
                    0,
                    max_offset as int,
                ) as usize,
                ..v1
            },
            _ => v1,
        };
        if input.released {
            ChartView { drag_origin: None, ..v2 }
        } else {
            v2
        }
    }

    /// The state after a whole frame over a history of `len` candles.
    pub open spec fn after_frame(self, len: int, input: FrameInput) -> ChartView {
        let v = self.synced(len);
        let v2 = if input.latest_clicked { v.seeked() } else { v };
        v2.dragged(input.drag, v2.content_width(input.rect), len as usize)
    }

    /// Where the `k`th visible candle `c` is drawn.
    pub open spec fn shape_of(self, rect: ScreenRect, b: ChartBounds, k: int, c: Candle) -> CandleShape {
        let w = self.content_width(rect);
        let n = self.visible_count as int;
        let p = self.padding as int;
        CandleShape {
            x_center: (rect.min_x + p + (2 * k + 1) * w / (2 * n)) as i64,
            half_body: (2 * w / (5 * n)) as i64,
            high_y: screen_y(rect, p, b.y_min as int, b.y_max as int, c.high as int) as i64,
            low_y: screen_y(rect, p, b.y_min as int, b.y_max as int, c.low as int) as i64,
            open_y: screen_y(rect, p, b.y_min as int, b.y_max as int, c.open as int) as i64,
            close_y: screen_y(rect, p, b.y_min as int, b.y_max as int, c.close as int) as i64,
            rising: c.close >= c.open,
        }
    }
}

proof fn lemma_scaled_within(a: int, c: int, b: int)
    requires
        0 <= a <= b,
        0 < b,
        0 <= c,
    ensures
        0 <= a * c <= b * c,
        0 <= a * c / b <= c,
{
    lemma_mul_inequality(a, b, c);
    lemma_mul_inequality(0, a, c);
    lemma_div_is_ordered(a * c, b * c, b);
    lemma_div_by_multiple(c, b);
    assert(b * c == c * b) by (nonlinear_arith);
    lemma_div_pos_is_pos(a * c, b);
}

proof fn lemma_div_shrinks(x: int, d: int)
    requires
        0 <= x,
        1 <= d,
    ensures
        0 <= x / d <= x,
{
    lemma_scaled_within(1, x, d);
    lemma_div_is_ordered(x, d * x, d);
    lemma_mul_inequality(1, d, x);
    lemma_div_by_multiple(x, d);
    assert(d * x == x * d) by (nonlinear_arith);
    lemma_div_pos_is_pos(x, d);
}

impl ChartView {
    /// A chart following the live edge, before its first frame.
    pub fn new(id: &str) -> (v: ChartView)
        ensures
            v.id@ == id@,
            v.padding == CHART_PADDING,
            v.visible_count == VISIBLE_CANDLES,
            v.offset == 0,
            v.last_candle_count == 0,
            v.drag_origin.is_none(),
            v.auto_scroll,
            v.wf(),
    {
        ChartView {
            id: id.to_string(),
            padding: CHART_PADDING,
            visible_count: VISIBLE_CANDLES,
            offset: 0,
            last_candle_count: 0,
            drag_origin: None,
            auto_scroll: true,
        }
    }

    /// Jumps back to the live edge and follows it again, ending any drag.
    pub fn seek_to_latest(&mut self)
        ensures
            *final(self) == old(self).seeked(),
            final(self).offset == 0,
            final(self).auto_scroll,
            final(self).drag_origin.is_none(),
    {
        self.offset = 0;
        self.drag_origin = None;
        self.auto_scroll = true;
    }

    /// Takes note of the history length at the start of a frame.
    fn sync_candle_count(&mut self, len: usize)
        requires
            len < usize::MAX,
        ensures
            *final(self) == old(self).synced(len as int),
    {
        if self.last_candle_count == 0 {
            self.seek_to_latest();
        }
        let total = len + 1;
        if total > self.last_candle_count && self.auto_scroll {
            self.offset = 0;
        }
        self.last_candle_count = total;
    }

    fn content_width_of(&self, rect: ScreenRect) -> (w: i64)
        requires
            self.wf(),
        ensures
            w == self.content_width(rect),
            0 <= w <= u32::MAX,
    {
        let w = rect.max_x as i64 - rect.min_x as i64 - 2 * self.padding as i64;
        if w > 0 {
            w
        } else {
            0
        }
    }

    /// Applies one frame of pointer input over a surface `rect`, with the
    /// offset kept at most `max_offset`.
    pub fn handle_interactions(&mut self, input: DragInput, rect: ScreenRect, max_offset: usize)
        requires
            old(self).wf(),
        ensures
            *final(self) == old(self).dragged(input, old(self).content_width(rect), max_offset),
            final(self).wf(),
    {
        let width = self.content_width_of(rect);
        if input.started {
            self.drag_origin = match input.pointer_x {
                Some(x) => Some((x, self.offset)),
                None => None,
            };
            self.auto_scroll = false;
        }
        if let Some((origin_x, origin_offset)) = self.drag_origin {
            if let Some(x) = input.pointer_x {
                let delta = slot_delta(x, origin_x, width, self.visible_count);
                let target: i128 = origin_offset as i128 - delta;
                self.offset = if target < 0 {
                    0
                } else if target > max_offset as i128 {
                    max_offset
                } else {
                    target as usize
                };
            }
        }
        if input.released {
            self.drag_origin = None;
        }
    }
}

/// `n / d` rounded down.
fn floor_div(n: i128, d: i128) -> (q: i128)
    requires
        0 < d <= 0x2_0000_0000_0000_0000,
        -0x4_0000_0000_0000_0000_0000_0000 <= n <= 0x4_0000_0000_0000_0000_0000_0000,
    ensures
        q == n / d,
        -0x8_0000_0000_0000_0000_0000_0000 <= q <= 0x8_0000_0000_0000_0000_0000_0000,
{
    if n >= 0 {
        proof {
            lemma_div_shrinks(n as int, d as int);
        }
        n / d
    } else {
        let m: i128 = -n;
        let t: i128 = (m + d - 1) / d;
        proof {
            lemma_div_shrinks((m + d - 1) as int, d as int);
            let s = (m + d - 1) as int % (d as int);
            vstd::arithmetic::div_mod::lemma_fundamental_div_mod((m + d - 1) as int, d as int);
            let r = d - 1 - s;
            assert(n == (-t) * d + r) by (nonlinear_arith)
                requires
                    m + d - 1 == d * t + s,
                    n == -m,
                    r == d - 1 - s,
            ;
            lemma_fundamental_div_mod_converse(n as int, d as int, -t, r);
        }
        -t
    }
}

/// Whole candle slots between pointer positions `origin_x` and `x`.
fn slot_delta(x: i32, origin_x: i32, width: i64, count: usize) -> (d: i128)
    requires
        0 <= width <= u32::MAX,
        count > 0,
    ensures
        d == candle_delta(x - origin_x, width as int, count as int),
        -0x4_0000_0000_0000_0000_0000_0000 <= d <= 0x4_0000_0000_0000_0000_0000_0000,
{
    if width == 0 {
        return 0;
    }
    let dx: i128 = x as i128 - origin_x as i128;
    let ghost adx: int = if dx >= 0 { dx as int } else { -dx };
    proof {
        lemma_mul_inequality(adx, 0x1_0000_0000, count as int);
        lemma_mul_inequality(count as int, 0x1_0000_0000_0000_0000, 0x1_0000_0000);
        assert(adx * count <= 0x1_0000_0000_0000_0000_0000_0000) by (nonlinear_arith)
            requires
                adx * count <= 0x1_0000_0000 * count,
                count * 0x1_0000_0000 <= 0x1_0000_0000_0000_0000 * 0x1_0000_0000,
        ;
        assert(dx * count == if dx >= 0 { adx * count } else { -(adx * count) }) by (nonlinear_arith)
            requires
                adx == if dx >= 0 { dx as int } else { -dx },
        ;
    }
    let n: i128 = dx * count as i128;
    let d: i128 = width as i128;
    if n >= 0 {
        proof {
            lemma_div_shrinks(2 * n + d, 2 * d);
        }
        (2 * n + d) / (2 * d)
    } else {
        proof {
            lemma_div_shrinks(-2 * n + d, 2 * d);
        }
        -((-2 * n + d) / (2 * d))
    }
}


impl ChartView {
    /// The candles in view, oldest first, copied out of `candles` and `current`.
    pub fn visible(&self, candles: &[Candle], current: &Candle) -> (r: Vec<Candle>)
        requires
            self.wf(),
        ensures
            r@ == visible_candles(candles@, *current, self.visible_count as int, self.offset as int),
            r@.len() <= self.visible_count,
    {
        let len = candles.len();
        let back: usize = if self.offset > usize::MAX - (self.visible_count - 1) {
            usize::MAX
        } else {
            self.visible_count - 1 + self.offset
        };
        let start: usize = if len > back { len - back } else { 0 };
        let end: usize = if self.offset >= len - start { start } else { len - self.offset };
        let mut r: Vec<Candle> = Vec::new();
        let mut i: usize = start;
        while i < end
            invariant
                start <= i <= end,
                end <= len,
                len == candles@.len(),
                r@ =~= candles@.subrange(start as int, i as int),
            decreases end - i,
        {
            r.push(candles[i]);
            i += 1;
        }
        if self.offset == 0 {
            r.push(*current);
        }
        r
    }

    /// The slot range and the padded price range of the candles in view; when
    /// none are, the range is taken around the close of `current`.
    pub fn calculate_bounds(&self, candles: &[Candle], current: &Candle) -> (b: ChartBounds)
        requires
            self.wf(),
        ensures
            b == price_bounds(
                visible_candles(candles@, *current, self.visible_count as int, self.offset as int),
                current.close,
                self.visible_count,
            ),
            b.y_min < b.y_max,
    {
        let vis = self.visible(candles, current);
        let ghost cs = vis@;
        let mut lo: i64 = current.close;
        let mut hi: i64 = current.close;
        if vis.len() > 0 {
            lo = vis[0].low;
            hi = vis[0].high;
            let mut i: usize = 1;
            while i < vis.len()
                invariant
                    1 <= i <= vis@.len(),
                    cs == vis@,
                    lo == lowest(cs.subrange(0, i as int)),
                    hi == highest(cs.subrange(0, i as int)),
                decreases vis@.len() - i,
            {
                proof {
                    assert(cs.subrange(0, i + 1 as int).drop_last() =~= cs.subrange(0, i as int));
                    assert(cs.subrange(0, i + 1 as int).last() == cs[i as int]);
                }
                if vis[i].low < lo {
                    lo = vis[i].low;
                }
                if vis[i].high > hi {
                    hi = vis[i].high;
                }
                i += 1;
            }
            assert(cs.subrange(0, cs.len() as int) =~= cs);
        }
        if lo > hi {
            let t = lo;
            lo = hi;
            hi = t;
        }
        let lo_w: i128 = lo as i128;
        let hi_w: i128 = hi as i128;
        let pad: i128 = if hi_w > lo_w { (hi_w - lo_w) / 10 } else { 1 };
        let y_min_w: i128 = lo_w - pad;
        let y_max_w: i128 = hi_w + pad;
        let y_min: i64 = if y_min_w < i64::MIN as i128 { i64::MIN } else { y_min_w as i64 };
        let y_max: i64 = if y_max_w > i64::MAX as i128 { i64::MAX } else { y_max_w as i64 };
        ChartBounds { x_min: 0, x_max: self.visible_count, y_min, y_max }
    }

    /// Vertical pixel of `price` on `rect` for the price range `y_min..y_max`.
    pub fn price_to_screen_y(&self, price: i64, rect: ScreenRect, y_min: i64, y_max: i64) -> (y: i64)
        requires
            self.wf(),
            y_min < y_max,
        ensures
            y == screen_y(rect, self.padding as int, y_min as int, y_max as int, price as int),
            y_min <= price <= y_max ==> rect.max_y - self.padding - u32::MAX <= y <= rect.max_y
                - self.padding,
    {
        let hw = rect.max_y as i64 - rect.min_y as i64 - 2 * self.padding as i64;
        let h: i128 = if hw > 0 { hw as i128 } else { 0 };
        let a: i128 = price as i128 - y_min as i128;
        let span: i128 = y_max as i128 - y_min as i128;
        let ghost aa: int = if a >= 0 { a as int } else { -a };
        proof {
            if y_min <= price <= y_max {
                lemma_scaled_within(a as int, h as int, span as int);
            }
            lemma_mul_inequality(aa, 0x2_0000_0000_0000_0000, h as int);
            lemma_mul_inequality(h as int, 0x1_0000_0000, 0x2_0000_0000_0000_0000);
            assert(a * h == if a >= 0 { aa * h } else { -(aa * h) }) by (nonlinear_arith)
                requires
                    aa == if a >= 0 { a as int } else { -a },
            ;
        }
        let q: i128 = floor_div(a * h, span);
        let y: i128 = rect.max_y as i128 - self.padding as i128 - q;
        if y < i64::MIN as i128 {
            i64::MIN
        } else if y > i64::MAX as i128 {
            i64::MAX
        } else {
            y as i64
        }
    }

    fn shape(&self, rect: ScreenRect, b: ChartBounds, k: usize, c: &Candle) -> (s: CandleShape)
        requires
            self.wf(),
            b.y_min < b.y_max,
            k < self.visible_count,
        ensures
            s == self.shape_of(rect, b, k as int, *c),
    {
        let w: i128 = self.content_width_of(rect) as i128;
        let n: i128 = self.visible_count as i128;
        proof {
            lemma_scaled_within(2 * k + 1, w as int, 2 * n);
            lemma_scaled_within(2, w as int, 5 * n);
            lemma_mul_inequality(2 * n, 0x2_0000_0000_0000_0000, w as int);
            lemma_mul_inequality(w as int, 0x1_0000_0000, 0x2_0000_0000_0000_0000);
        }
        let x_center: i128 = rect.min_x as i128 + self.padding as i128 + (2 * k as i128 + 1) * w / (2 * n);
        let half_body: i128 = 2 * w / (5 * n);
        CandleShape {
            x_center: x_center as i64,
            half_body: half_body as i64,
            high_y: self.price_to_screen_y(c.high, rect, b.y_min, b.y_max),
            low_y: self.price_to_screen_y(c.low, rect, b.y_min, b.y_max),
            open_y: self.price_to_screen_y(c.open, rect, b.y_min, b.y_max),
            close_y: self.price_to_screen_y(c.close, rect, b.y_min, b.y_max),
            rising: c.close >= c.open,
        }
    }

    /// Runs one frame over the history `candles` and the live candle `current`:
    /// notes the history length, follows the "jump to latest" action and the
    /// pointer input, then lays out the guideline at the live close and every
    /// candle in view, each in its own slot from the left.
    pub fn show(&mut self, candles: &[Candle], current: &Candle, input: FrameInput) -> (f: ChartFrame)
        requires
            old(self).wf(),
            candles@.len() < usize::MAX,
        ensures
            *final(self) == old(self).after_frame(candles@.len() as int, input),
            final(self).wf(),
            f.bounds == price_bounds(
                visible_candles(candles@, *current, final(self).visible_count as int, final(self).offset as int),
                current.close,
                final(self).visible_count,
            ),
            f.price_line_y == screen_y(
                input.rect,
                final(self).padding as int,
                f.bounds.y_min as int,
                f.bounds.y_max as int,
                current.close as int,
            ),
            f.line_left == input.rect.min_x + final(self).padding,
            f.line_right == input.rect.max_x - final(self).padding,
            f.candles@.len() == visible_candles(
                candles@,
                *current,
                final(self).visible_count as int,
                final(self).offset as int,
            ).len(),
            forall|k: int|
                0 <= k < f.candles@.len() ==> #[trigger] f.candles@[k] == final(self).shape_of(
                    input.rect,
                    f.bounds,
                    k,
                    visible_candles(
                        candles@,
                        *current,
                        final(self).visible_count as int,
                        final(self).offset as int,
                    )[k],
                ),
    {
        self.sync_candle_count(candles.len());
        if input.latest_clicked {
            self.seek_to_latest();
        }
        self.handle_interactions(input.drag, input.rect, candles.len());
        let bounds = self.calculate_bounds(candles, current);
        let price_line_y = self.price_to_screen_y(current.close, input.rect, bounds.y_min, bounds.y_max);
        let vis = self.visible(candles, current);
        let mut shapes: Vec<CandleShape> = Vec::new();
        let mut k: usize = 0;
        while k < vis.len()
            invariant
                self.wf(),
                bounds.y_min < bounds.y_max,
                k <= vis@.len(),
                vis@.len() <= self.visible_count,
                shapes@.len() == k,
                forall|j: int|
                    0 <= j < k ==> #[trigger] shapes@[j] == self.shape_of(input.rect, bounds, j, vis@[j]),
            decreases vis@.len() - k,
        {
            let s = self.shape(input.rect, bounds, k, &vis[k]);
            shapes.push(s);
            k += 1;
        }
        ChartFrame {
            bounds,
            price_line_y,
            line_left: input.rect.min_x as i64 + self.padding as i64,
            line_right: input.rect.max_x as i64 - self.padding as i64,
            candles: shapes,
        }
    }
}


proof fn lemma_extremes_fit(cs: Seq<Candle>)
    requires
        cs.len() > 0,
    ensures
        i64::MIN <= lowest(cs) <= i64::MAX,
        i64::MIN <= highest(cs) <= i64::MAX,
    decreases cs.len(),
{
    if cs.len() > 1 {
        lemma_extremes_fit(cs.drop_last());
    }
}

/// The price range of the candles in view is never empty: its top lies
/// strictly above its bottom, whether the span was widened by a tenth or,
/// for a flat span, by the synthetic cent.
pub proof fn lemma_price_range_not_empty(cs: Seq<Candle>, fallback: i64, count: usize)
    ensures
        price_bounds(cs, fallback, count).y_min < price_bounds(cs, fallback, count).y_max,
{
    if cs.len() > 0 {
        lemma_extremes_fit(cs);
    }
}

/// Jumping to the latest candle always leaves the offset at 0, following the
/// live edge and no drag under way, whatever the state before.
pub proof fn lemma_seek_resets_view(v: ChartView)
    ensures
        v.seeked().offset == 0,
        v.seeked().auto_scroll,
        v.seeked().drag_origin.is_none(),
{
}

/// From a drag begun at offset 0, moving the pointer two whole slot widths to
/// the left scrolls back two candles, or as far as `max_offset` allows.
pub proof fn lemma_drag_two_slots_back(v: ChartView, rect: ScreenRect, origin_x: i32, x: i32, max_offset: usize)
    requires
        v.wf(),
        v.drag_origin == Some((origin_x, 0usize)),
        v.content_width(rect) > 0,
        v.content_width(rect) % (v.visible_count as int) == 0,
        x == origin_x - 2 * (v.content_width(rect) / (v.visible_count as int)),
    ensures
        v.dragged(
            DragInput { started: false, pointer_x: Some(x), released: false },
            v.content_width(rect),
            max_offset,
        ).offset == if max_offset < 2 { max_offset } else { 2 },
{
    let w = v.content_width(rect);
    let n = v.visible_count as int;
    let slot = w / n;
    vstd::arithmetic::div_mod::lemma_fundamental_div_mod(w, n);
    assert((x - origin_x) * n == -2 * w) by (nonlinear_arith)
        requires
            x - origin_x == -2 * slot,
            w == n * slot,
    ;
    lemma_fundamental_div_mod_converse(5 * w, 2 * w, 2, w);
    assert(candle_delta(x - origin_x, w, n) == -2);
}

} // verus!
