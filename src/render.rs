use vstd::prelude::*;
use crate::value::{
    LogicBit, PointModel, ValueKind, ValueModel, WaveChangePoint, WaveValue, format_value,
    increasing_times, points_model, same_value, value_text,
};

verus! {

/// y of the high rail inside a row.
pub const HIGH_RAIL: u32 = 5;

/// y of the low rail inside a row.
pub const LOW_RAIL: u32 = 25;

/// y of the middle rail inside a row, for unknown and floating bits.
pub const MID_RAIL: u32 = 15;

/// Baseline of the text written inside a band.
pub const LABEL_BASELINE: u32 = 23;

/// The visible range of simulation time, both ends included.
#[derive(Clone, Copy, Debug, PartialEq, Eq, Structural)]
pub struct TimeWindow {
    pub start: u64,
    pub end: u64,
}

/// A drawing primitive, in pixels, relative to the top left corner of a signal row.
#[derive(Clone, Debug, PartialEq, Eq)]
pub enum Segment {
    Level { x0: u32, x1: u32, y: u32 },
    Transition { x: u32, y0: u32, y1: u32 },
    Label { x: u32, y: u32, text: String },
}

/// Mathematical form of a `Segment`.
pub enum SegmentModel {
    Level { x0: int, x1: int, y: int },
    Transition { x: int, y0: int, y1: int },
    Label { x: int, y: int, text: Seq<char> },
}

impl View for Segment {
    type V = SegmentModel;

    open spec fn view(&self) -> SegmentModel {
        match self {
            Segment::Level { x0, x1, y } => SegmentModel::Level { x0: *x0 as int, x1: *x1 as int, y: *y as int },
            Segment::Transition { x, y0, y1 } => SegmentModel::Transition {
                x: *x as int,
                y0: *y0 as int,
                y1: *y1 as int,
            },
            Segment::Label { x, y, text } => SegmentModel::Label { x: *x as int, y: *y as int, text: text@ },
        }
    }
}

pub open spec fn segments_model(s: Seq<Segment>) -> Seq<SegmentModel> {
    s.map_values(|g: Segment| g@)
}

/// Pixel column of time `t`: `(t - start) * width / (end - start + 1)`.
pub open spec fn x_of(t: int, w: TimeWindow, width: int) -> int {
    (t - w.start) * width / (w.end - w.start + 1)
}

/// The rail on which a scalar value is drawn.
pub open spec fn rail_of(v: ValueModel) -> int {
    match v {
        ValueModel::Scalar(LogicBit::V0) => LOW_RAIL as int,
        ValueModel::Scalar(LogicBit::V1) => HIGH_RAIL as int,
        _ => MID_RAIL as int,
    }
}

/// A span from `a` to `b` shows in the window.
pub open spec fn span_visible(a: PointModel, b: PointModel, w: TimeWindow) -> bool {
    a.time <= w.end && b.time >= w.start
}

pub open spec fn clip_start(a: PointModel, w: TimeWindow) -> int {
    if a.time >= w.start { a.time as int } else { w.start as int }
}

pub open spec fn clip_end(b: PointModel, w: TimeWindow) -> int {
    if b.time <= w.end { b.time as int } else { w.end as int }
}

/// What is drawn for the span from `a` to `b`.
pub open spec fn span_segments(
    a: PointModel,
    b: PointModel,
    w: TimeWindow,
    width: int,
    kind: ValueKind,
) -> Seq<SegmentModel> {
    if !span_visible(a, b, w) {
        seq![]
    } else {
        let x0 = x_of(clip_start(a, w), w, width);
        let x1 = x_of(clip_end(b, w), w, width);
        let changed = a.value != b.value;
        match kind {
            ValueKind::Scalar => {
                let level = seq![SegmentModel::Level { x0, x1, y: rail_of(a.value) }];
                if changed {
                    level.push(SegmentModel::Transition { x: x1, y0: rail_of(a.value), y1: rail_of(b.value) })
                } else {
                    level
                }
            },
            _ => {
                let band = seq![
                    SegmentModel::Level { x0, x1, y: HIGH_RAIL as int },
                    SegmentModel::Level { x0, x1, y: LOW_RAIL as int },
                ];
                let edged = if changed {
                    band.push(SegmentModel::Transition { x: x1, y0: HIGH_RAIL as int, y1: LOW_RAIL as int })
                } else {
                    band
                };
                edged.push(SegmentModel::Label { x: x0, y: LABEL_BASELINE as int, text: value_text(a.value) })
            },
        }
    }
}

/// What is drawn for the spans that start at the first `n` points.
pub open spec fn spans_upto(
    cs: Seq<PointModel>,
    w: TimeWindow,
    width: int,
    kind: ValueKind,
    n: int,
) -> Seq<SegmentModel>
    decreases n,
{
    if n <= 0 || n >= cs.len() {
        seq![]
    } else {
        spans_upto(cs, w, width, kind, n - 1) + span_segments(cs[n - 1], cs[n], w, width, kind)
    }
}

/// Everything drawn for a change sequence: nothing for an inverted window, else each span in
/// turn. Nothing is drawn before the first point nor after the last one.
pub open spec fn render_spec(cs: Seq<PointModel>, w: TimeWindow, width: int, kind: ValueKind) -> Seq<
    SegmentModel,
> {
    if w.start > w.end || cs.len() < 2 {
        seq![]
    } else {
        spans_upto(cs, w, width, kind, cs.len() - 1)
    }
}

proof fn lemma_x_in_bounds(t: int, w: TimeWindow, width: int)
    requires
        w.start <= t <= w.end,
        0 <= width,
    ensures
        0 <= x_of(t, w, width) <= width,
{
    let a = t - w.start;
    let d = w.end - w.start + 1;
    assert(0 <= a * width) by (nonlinear_arith)
        requires
            0 <= a,
            0 <= width,
    ;
    assert(a * width <= d * width) by (nonlinear_arith)
        requires
            0 <= a < d,
            0 <= width,
    ;
    vstd::arithmetic::div_mod::lemma_div_is_ordered(a * width, d * width, d);
    vstd::arithmetic::div_mod::lemma_div_by_multiple(width, d);
    assert(d * width == width * d) by (nonlinear_arith);
    vstd::arithmetic::div_mod::lemma_div_pos_is_pos(a * width, d);
}

/// Pixel column of time `t`, for `t` inside the window.
fn x_at(t: u64, w: TimeWindow, width: u32) -> (r: u32)
    requires
        w.start <= t <= w.end,
    ensures
        r as int == x_of(t as int, w, width as int),
        r <= width,
{
    proof {
        lemma_x_in_bounds(t as int, w, width as int);
    }
    let a: u128 = (t - w.start) as u128;
    let d: u128 = (w.end - w.start) as u128 + 1;
    assert(a * (width as u128) <= 0xffff_ffff_ffff_ffffu128 * 0xffff_ffffu128) by (nonlinear_arith)
        requires
            a <= 0xffff_ffff_ffff_ffffu128,
            width <= 0xffff_ffffu32,
    ;
    let p: u128 = a * (width as u128);
    let q: u128 = p / d;
    q as u32
}

fn rail(v: &WaveValue) -> (r: u32)
    ensures
        r as int == rail_of(v@),
{
    match v {
        WaveValue::Scalar(LogicBit::V0) => LOW_RAIL,
        WaveValue::Scalar(LogicBit::V1) => HIGH_RAIL,
        _ => MID_RAIL,
    }
}

/// Appends what is drawn for the span from `a` to `b`.
fn push_span(
    out: &mut Vec<Segment>,
    a: &WaveChangePoint,
    b: &WaveChangePoint,
    w: TimeWindow,
    width: u32,
    kind: ValueKind,
)
    requires
        w.start <= w.end,
    ensures
        segments_model(final(out)@) == segments_model(old(out)@) + span_segments(
            a@,
            b@,
            w,
            width as int,
            kind,
        ),
{
    let ghost before = out@;
    if !(a.time <= w.end && b.time >= w.start) {
        assert(segments_model(out@) =~= segments_model(before) + span_segments(
            a@,
            b@,
            w,
            width as int,
            kind,
        ));
        return;
    }
    let s: u64 = if a.time >= w.start { a.time } else { w.start };
    let e: u64 = if b.time <= w.end { b.time } else { w.end };
    let x0 = x_at(s, w, width);
    let x1 = x_at(e, w, width);
    let changed = !same_value(&a.value, &b.value);
    match kind {
        ValueKind::Scalar => {
            let ya = rail(&a.value);
            out.push(Segment::Level { x0, x1, y: ya });
            if changed {
                let yb = rail(&b.value);
                out.push(Segment::Transition { x: x1, y0: ya, y1: yb });
            }
        },
        _ => {
            out.push(Segment::Level { x0, x1, y: HIGH_RAIL });
            out.push(Segment::Level { x0, x1, y: LOW_RAIL });
            if changed {
                out.push(Segment::Transition { x: x1, y0: HIGH_RAIL, y1: LOW_RAIL });
            }
            let text = format_value(&a.value);
            out.push(Segment::Label { x: x0, y: LABEL_BASELINE, text });
        },
    }
    assert(segments_model(out@) =~= segments_model(before) + span_segments(
        a@,
        b@,
        w,
        width as int,
        kind,
    ));
}

/// The segments that draw a signal with the given change points in the window, on a row
/// `pixel_width` pixels wide. Each pair of consecutive points is a span; a span that does not
/// meet the window draws nothing, and one that does is clipped to it. A scalar span is a level
/// on the rail of its bit, followed by a transition where the value changes; a vector or text
/// span is a band of two levels, a transition where the value changes, and a label with its
/// value.
pub fn render(changes: &Vec<WaveChangePoint>, window: TimeWindow, pixel_width: u32, kind: ValueKind) -> (r:
    Vec<Segment>)
    ensures
        segments_model(r@) == render_spec(points_model(changes@), window, pixel_width as int, kind),
{
    let ghost cs = points_model(changes@);
    let mut out: Vec<Segment> = Vec::new();
    if window.start > window.end || changes.len() < 2 {
        assert(segments_model(out@) =~= seq![]);
        return out;
    }
    let mut i: usize = 1;
    while i < changes.len()
        invariant
            window.start <= window.end,
            1 <= i <= changes@.len(),
            cs == points_model(changes@),
            segments_model(out@) == spans_upto(cs, window, pixel_width as int, kind, i - 1),
        decreases changes@.len() - i,
    {
        push_span(&mut out, &changes[i - 1], &changes[i], window, pixel_width, kind);
        i = i + 1;
    }
    out
}


/// Every x of the segment lies between 0 and `width`.
pub open spec fn within_width(g: SegmentModel, width: int) -> bool {
    match g {
        SegmentModel::Level { x0, x1, .. } => 0 <= x0 <= width && 0 <= x1 <= width,
        SegmentModel::Transition { x, .. } => 0 <= x <= width,
        SegmentModel::Label { x, .. } => 0 <= x <= width,
    }
}

proof fn lemma_spans_within_width(
    cs: Seq<PointModel>,
    w: TimeWindow,
    width: int,
    kind: ValueKind,
    n: int,
)
    requires
        0 <= width,
        w.start <= w.end,
    ensures
        forall|k: int|
            0 <= k < spans_upto(cs, w, width, kind, n).len() ==> within_width(
                #[trigger] spans_upto(cs, w, width, kind, n)[k],
                width,
            ),
    decreases n,
{
    if n > 0 && n < cs.len() {
        lemma_spans_within_width(cs, w, width, kind, n - 1);
        let a = cs[n - 1];
        let b = cs[n];
        if span_visible(a, b, w) {
            lemma_x_in_bounds(clip_start(a, w), w, width);
            lemma_x_in_bounds(clip_end(b, w), w, width);
        }
        let prev = spans_upto(cs, w, width, kind, n - 1);
        let here = span_segments(a, b, w, width, kind);
        assert forall|k: int| 0 <= k < here.len() implies within_width(#[trigger] here[k], width) by {
        }
        assert forall|k: int| 0 <= k < (prev + here).len() implies within_width(
            #[trigger] (prev + here)[k],
            width,
        ) by {
            if k >= prev.len() {
                assert((prev + here)[k] == here[k - prev.len()]);
            }
        }
    }
}

/// No segment reaches outside the row: every x lies between 0 and the pixel width.
pub proof fn lemma_render_within_width(cs: Seq<PointModel>, w: TimeWindow, width: int, kind: ValueKind)
    requires
        0 <= width,
    ensures
        forall|k: int|
            0 <= k < render_spec(cs, w, width, kind).len() ==> within_width(
                #[trigger] render_spec(cs, w, width, kind)[k],
                width,
            ),
{
    if w.start <= w.end && cs.len() >= 2 {
        lemma_spans_within_width(cs, w, width, kind, cs.len() - 1);
    }
}

proof fn lemma_spans_empty(cs: Seq<PointModel>, w: TimeWindow, width: int, kind: ValueKind, n: int)
    requires
        increasing_times(cs),
        cs.len() > 0,
        w.end < cs[0].time || w.start > cs.last().time,
    ensures
        spans_upto(cs, w, width, kind, n) == Seq::<SegmentModel>::empty(),
    decreases n,
{
    if n > 0 && n < cs.len() {
        lemma_spans_empty(cs, w, width, kind, n - 1);
        if n - 1 > 0 {
            assert(cs[0].time < cs[n - 1].time);
        }
        if n < cs.len() - 1 {
            assert(cs[n].time < cs[cs.len() - 1].time);
        }
        assert(!span_visible(cs[n - 1], cs[n], w));
        assert(spans_upto(cs, w, width, kind, n) =~= Seq::<SegmentModel>::empty());
    }
}

/// A window that ends before the first change point, or starts after the last one, draws
/// nothing.
pub proof fn lemma_render_outside_is_empty(
    cs: Seq<PointModel>,
    w: TimeWindow,
    width: int,
    kind: ValueKind,
)
    requires
        increasing_times(cs),
        cs.len() > 0,
        w.end < cs[0].time || w.start > cs.last().time,
    ensures
        render_spec(cs, w, width, kind) == Seq::<SegmentModel>::empty(),
{
    if w.start <= w.end && cs.len() >= 2 {
        lemma_spans_empty(cs, w, width, kind, cs.len() - 1);
    }
}

/// Rendering keeps no state: two calls with the same arguments give the same segments.
pub proof fn lemma_render_repeatable(
    first: Seq<Segment>,
    second: Seq<Segment>,
    changes: Seq<WaveChangePoint>,
    window: TimeWindow,
    pixel_width: u32,
    kind: ValueKind,
)
    requires
        segments_model(first) == render_spec(points_model(changes), window, pixel_width as int, kind),
        segments_model(second) == render_spec(points_model(changes), window, pixel_width as int, kind),
    ensures
        segments_model(first) == segments_model(second),
{
}

} // verus!
