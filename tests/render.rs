use wavespy::render::{render, Segment, TimeWindow, HIGH_RAIL, LABEL_BASELINE, LOW_RAIL, MID_RAIL};
use wavespy::value::{format_value, same_value, LogicBit, ValueKind, WaveChangePoint, WaveValue};

fn scalar(time: u64, b: LogicBit) -> WaveChangePoint {
    WaveChangePoint::new(time, WaveValue::Scalar(b))
}

fn scenario_changes() -> Vec<WaveChangePoint> {
    vec![scalar(0, LogicBit::V0), scalar(100, LogicBit::V1), scalar(250, LogicBit::V0)]
}

fn xs(segs: &[Segment]) -> Vec<u32> {
    let mut out = Vec::new();
    for s in segs {
        match s {
            Segment::Level { x0, x1, .. } => {
                out.push(*x0);
                out.push(*x1);
            }
            Segment::Transition { x, .. } => out.push(*x),
            Segment::Label { x, .. } => out.push(*x),
        }
    }
    out
}

#[test]
fn scalar_spans_over_whole_window() {
    let segs = render(&scenario_changes(), TimeWindow { start: 0, end: 300 }, 300, ValueKind::Scalar);
    // x = t * 300 / 301
    assert_eq!(
        segs,
        vec![
            Segment::Level { x0: 0, x1: 99, y: LOW_RAIL },
            Segment::Transition { x: 99, y0: LOW_RAIL, y1: HIGH_RAIL },
            Segment::Level { x0: 99, x1: 249, y: HIGH_RAIL },
            Segment::Transition { x: 249, y0: HIGH_RAIL, y1: LOW_RAIL },
        ]
    );
}

#[test]
fn window_inside_one_span_gives_one_level() {
    let segs = render(&scenario_changes(), TimeWindow { start: 150, end: 200 }, 300, ValueKind::Scalar);
    let levels: Vec<&Segment> = segs.iter().filter(|s| matches!(s, Segment::Level { .. })).collect();
    assert_eq!(levels.len(), 1);
    // (200 - 150) * 300 / 51 = 294
    assert_eq!(*levels[0], Segment::Level { x0: 0, x1: 294, y: HIGH_RAIL });
    // the change at 250 lies past the window; the edge is drawn at the clipped right end
    assert_eq!(segs[1], Segment::Transition { x: 294, y0: HIGH_RAIL, y1: LOW_RAIL });
    assert_eq!(segs.len(), 2);
}

#[test]
fn window_before_first_change_draws_nothing() {
    let cs = vec![scalar(100, LogicBit::V1), scalar(200, LogicBit::V0)];
    assert!(render(&cs, TimeWindow { start: 0, end: 99 }, 500, ValueKind::Scalar).is_empty());
}

#[test]
fn window_after_last_change_draws_nothing() {
    let cs = vec![scalar(100, LogicBit::V1), scalar(200, LogicBit::V0)];
    assert!(render(&cs, TimeWindow { start: 201, end: 400 }, 500, ValueKind::Scalar).is_empty());
}

#[test]
fn empty_and_single_point_draw_nothing() {
    let w = TimeWindow { start: 0, end: 10 };
    assert!(render(&Vec::new(), w, 100, ValueKind::Scalar).is_empty());
    assert!(render(&vec![scalar(0, LogicBit::V1)], w, 100, ValueKind::Scalar).is_empty());
}

#[test]
fn inverted_window_draws_nothing() {
    let segs = render(&scenario_changes(), TimeWindow { start: 200, end: 100 }, 300, ValueKind::Scalar);
    assert!(segs.is_empty());
}

#[test]
fn every_x_stays_within_width() {
    let cs = vec![
        scalar(3, LogicBit::V0),
        scalar(17, LogicBit::X),
        scalar(18, LogicBit::Z),
        scalar(90, LogicBit::V1),
        scalar(u64::MAX, LogicBit::V0),
    ];
    for (start, end, width) in [(0u64, 20u64, 7u32), (10, 10, 1000), (0, u64::MAX, u32::MAX), (17, 95, 0), (5, 6, 3)] {
        let segs = render(&cs, TimeWindow { start, end }, width, ValueKind::Scalar);
        assert!(xs(&segs).iter().all(|x| *x <= width));
    }
}

#[test]
fn rendering_twice_gives_the_same_segments() {
    let w = TimeWindow { start: 40, end: 260 };
    let first = render(&scenario_changes(), w, 640, ValueKind::Scalar);
    let second = render(&scenario_changes(), w, 640, ValueKind::Scalar);
    assert_eq!(first, second);
}

#[test]
fn unknown_and_floating_bits_sit_on_the_middle_rail() {
    let cs = vec![scalar(0, LogicBit::X), scalar(10, LogicBit::Z), scalar(20, LogicBit::Z)];
    let segs = render(&cs, TimeWindow { start: 0, end: 19 }, 20, ValueKind::Scalar);
    assert_eq!(
        segs,
        vec![
            Segment::Level { x0: 0, x1: 10, y: MID_RAIL },
            Segment::Transition { x: 10, y0: MID_RAIL, y1: MID_RAIL },
            Segment::Level { x0: 10, x1: 19, y: MID_RAIL },
        ]
    );
}

#[test]
fn vector_span_is_a_band_with_label() {
    let cs = vec![
        WaveChangePoint::new(0, WaveValue::Vector(vec![LogicBit::V0, LogicBit::V1, LogicBit::X, LogicBit::Z])),
        WaveChangePoint::new(10, WaveValue::Vector(vec![LogicBit::V1, LogicBit::V1, LogicBit::V1, LogicBit::V1])),
    ];
    let segs = render(&cs, TimeWindow { start: 0, end: 19 }, 20, ValueKind::Vector);
    assert_eq!(
        segs,
        vec![
            Segment::Level { x0: 0, x1: 10, y: HIGH_RAIL },
            Segment::Level { x0: 0, x1: 10, y: LOW_RAIL },
            Segment::Transition { x: 10, y0: HIGH_RAIL, y1: LOW_RAIL },
            Segment::Label { x: 0, y: LABEL_BASELINE, text: "01xz".to_string() },
        ]
    );
}

#[test]
fn text_span_without_change_has_no_transition() {
    let cs = vec![
        WaveChangePoint::new(5, WaveValue::Custom("1.5".to_string())),
        WaveChangePoint::new(15, WaveValue::Custom("1.5".to_string())),
    ];
    let segs = render(&cs, TimeWindow { start: 0, end: 9 }, 10, ValueKind::Text);
    assert_eq!(
        segs,
        vec![
            Segment::Level { x0: 5, x1: 9, y: HIGH_RAIL },
            Segment::Level { x0: 5, x1: 9, y: LOW_RAIL },
            Segment::Label { x: 5, y: LABEL_BASELINE, text: "1.5".to_string() },
        ]
    );
}

#[test]
fn format_value_writes_bits_and_text() {
    assert_eq!(format_value(&WaveValue::Scalar(LogicBit::Z)), "z");
    assert_eq!(format_value(&WaveValue::Vector(vec![LogicBit::V1, LogicBit::V0])), "10");
    assert_eq!(format_value(&WaveValue::Vector(vec![])), "");
    assert_eq!(format_value(&WaveValue::Custom("idle".to_string())), "idle");
}

#[test]
fn same_value_compares_contents() {
    let a = WaveValue::Vector(vec![LogicBit::V1, LogicBit::V0]);
    let b = WaveValue::Vector(vec![LogicBit::V1, LogicBit::V0]);
    let c = WaveValue::Vector(vec![LogicBit::V1]);
    assert!(same_value(&a, &b));
    assert!(!same_value(&a, &c));
    assert!(!same_value(&WaveValue::Scalar(LogicBit::V1), &WaveValue::Custom("1".to_string())));
}
