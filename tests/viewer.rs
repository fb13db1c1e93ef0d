use vcd::IdCode;
use wavespy::hierarchy::{build, HeaderItem, HeaderScope, ResolveError, ScopeTree, Var};
use wavespy::trace::{StreamError, TraceEvent};
use wavespy::value::{LogicBit, WaveChangePoint, WaveValue};
use wavespy::viewer::{join_path, split_name, LoadError, WaveData, WaveViewer};

fn tree() -> ScopeTree {
    let v = |name: &str, code: u64| {
        HeaderItem::Var(Var { kind: "wire".to_string(), width: 1, code: IdCode::from(code), name: name.to_string() })
    };
    build(&vec![HeaderItem::Scope(HeaderScope {
        kind: "module".to_string(),
        name: "instance".to_string(),
        items: vec![v("cin", 1), v("cmd[1:0]", 2)],
    })])
}

fn stream() -> Vec<Result<TraceEvent, StreamError>> {
    vec![
        Ok(TraceEvent::Timestamp(0)),
        Ok(TraceEvent::Change(IdCode::from(1u64), WaveValue::Scalar(LogicBit::V0))),
        Ok(TraceEvent::Change(IdCode::from(2u64), WaveValue::Vector(vec![LogicBit::V0, LogicBit::V1]))),
        Ok(TraceEvent::Timestamp(5)),
        Ok(TraceEvent::Change(IdCode::from(1u64), WaveValue::Scalar(LogicBit::V1))),
    ]
}

fn path(p: &[&str]) -> Vec<String> {
    p.iter().map(|s| s.to_string()).collect()
}

#[test]
fn add_appends_a_named_signal() {
    let mut v = WaveViewer::new();
    assert_eq!(v.add(&tree(), path(&["instance", "cin"]), &stream()), Ok(()));
    let s = v.signals();
    assert_eq!(s.len(), 1);
    assert_eq!(s[0].name, "instance.cin");
    assert_eq!(s[0].path, path(&["instance", "cin"]));
    assert_eq!(
        s[0].data,
        vec![
            WaveChangePoint::new(0, WaveValue::Scalar(LogicBit::V0)),
            WaveChangePoint::new(5, WaveValue::Scalar(LogicBit::V1)),
        ]
    );
}

#[test]
fn add_of_missing_path_changes_nothing() {
    let mut v = WaveViewer::new();
    v.add(&tree(), path(&["instance", "cin"]), &stream()).unwrap();
    let r = v.add(&tree(), path(&["instance", "cout"]), &stream());
    assert_eq!(r, Err(LoadError::Resolve(ResolveError::NotFound)));
    assert_eq!(v.signals().len(), 1);
}

#[test]
fn add_with_broken_stream_changes_nothing() {
    let mut v = WaveViewer::new();
    let mut s = stream();
    s.push(Err(StreamError::Decode));
    assert_eq!(v.add(&tree(), path(&["instance", "cin"]), &s), Err(LoadError::Stream(StreamError::Decode)));
    assert!(v.signals().is_empty());
}

#[test]
fn add_all_loads_a_batch_in_order() {
    let mut v = WaveViewer::new();
    let paths = vec![path(&["instance", "cmd[1:0]"]), path(&["instance", "cin"])];
    assert_eq!(v.add_all(&tree(), &paths, &stream()), Ok(()));
    let s = v.signals();
    assert_eq!(s.len(), 2);
    assert_eq!(s[0].name, "instance.cmd[1:0]");
    assert_eq!(s[0].data, vec![WaveChangePoint::new(0, WaveValue::Vector(vec![LogicBit::V0, LogicBit::V1]))]);
    assert_eq!(s[1].name, "instance.cin");
    assert_eq!(s[1].data.len(), 2);
}

#[test]
fn add_all_is_all_or_nothing() {
    let mut v = WaveViewer::new();
    let paths = vec![path(&["instance", "cin"]), path(&["instance"]), path(&["x"])];
    assert_eq!(v.add_all(&tree(), &paths, &stream()), Err(LoadError::Resolve(ResolveError::TypeMismatch)));
    assert!(v.signals().is_empty());
}

#[test]
fn add_wave_by_name_splits_at_dots() {
    let mut v = WaveViewer::new();
    assert_eq!(v.add_wave_by_name(&tree(), "instance.cin", &stream()), Ok(()));
    assert_eq!(v.signals()[0].path, path(&["instance", "cin"]));
    assert_eq!(
        v.add_wave_by_name(&tree(), "instance.cout", &stream()),
        Err(LoadError::Resolve(ResolveError::NotFound))
    );
    assert_eq!(v.signals().len(), 1);
}

#[test]
fn remove_takes_out_one_signal() {
    let mut v = WaveViewer::new();
    v.add(&tree(), path(&["instance", "cin"]), &stream()).unwrap();
    v.add(&tree(), path(&["instance", "cmd[1:0]"]), &stream()).unwrap();
    assert!(!v.remove(2));
    assert_eq!(v.signals().len(), 2);
    assert!(v.remove(0));
    assert_eq!(v.signals().len(), 1);
    assert_eq!(v.signals()[0].name, "instance.cmd[1:0]");
}

#[test]
fn split_and_join_names() {
    assert_eq!(split_name("a.b.c"), path(&["a", "b", "c"]));
    assert_eq!(split_name("solo"), path(&["solo"]));
    assert_eq!(split_name(""), path(&[""]));
    assert_eq!(split_name("a..b."), path(&["a", "", "b", ""]));
    assert_eq!(join_path(&path(&["a", "b", "c"])), "a.b.c");
    assert_eq!(join_path(&Vec::new()), "");
}

#[test]
fn wave_data_new_keeps_fields() {
    let d = WaveData::new("n".to_string(), path(&["n"]), Vec::new());
    assert_eq!(d.name, "n");
    assert_eq!(d.path, path(&["n"]));
    assert!(d.data.is_empty());
}
