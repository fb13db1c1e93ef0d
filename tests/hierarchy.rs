use vcd::IdCode;
use wavespy::hierarchy::{
    build, get_vars, outline, resolve, resolve_by_index, HeaderItem, HeaderScope, ResolveError, ScopeItem, Var,
};

fn var(name: &str, code: u64) -> HeaderItem {
    HeaderItem::Var(Var { kind: "wire".to_string(), width: 1, code: IdCode::from(code), name: name.to_string() })
}

fn scope(name: &str, items: Vec<HeaderItem>) -> HeaderItem {
    HeaderItem::Scope(HeaderScope { kind: "module".to_string(), name: name.to_string(), items })
}

fn path(p: &[&str]) -> Vec<String> {
    p.iter().map(|s| s.to_string()).collect()
}

/// top: instance { cin, sub { q }, a, other { a } }, clk
fn sample_header() -> Vec<HeaderItem> {
    vec![
        scope(
            "instance",
            vec![
                var("cin", 1),
                HeaderItem::Comment("generated".to_string()),
                scope("sub", vec![var("q", 2)]),
                var("a", 3),
                scope("other", vec![var("a", 4)]),
            ],
        ),
        var("clk", 5),
    ]
}

fn names(items: &[ScopeItem]) -> Vec<String> {
    items
        .iter()
        .map(|i| match i {
            ScopeItem::Scope(s) => s.name.clone(),
            ScopeItem::Var(v) => v.name.clone(),
        })
        .collect()
}

#[test]
fn build_puts_one_root_over_the_items_in_order() {
    let tree = build(&sample_header());
    assert_eq!(tree.root.kind, "ROOT");
    assert_eq!(tree.root.name, "");
    assert_eq!(names(&tree.root.children), path(&["instance", "clk"]));
    match &tree.root.children[0] {
        ScopeItem::Scope(s) => {
            assert_eq!(s.kind, "module");
            assert_eq!(names(&s.children), path(&["cin", "sub", "a", "other"]));
        }
        ScopeItem::Var(_) => panic!("expected a scope"),
    }
}

#[test]
fn build_drops_comments_at_every_level() {
    let items = vec![
        HeaderItem::Comment("c".to_string()),
        scope("s", vec![HeaderItem::Comment("d".to_string())]),
    ];
    let tree = build(&items);
    assert_eq!(tree.root.children.len(), 1);
    match &tree.root.children[0] {
        ScopeItem::Scope(s) => assert!(s.children.is_empty()),
        ScopeItem::Var(_) => panic!("expected a scope"),
    }
    assert!(build(&Vec::new()).root.children.is_empty());
}

#[test]
fn resolve_finds_variables_by_name() {
    let tree = build(&sample_header());
    assert_eq!(resolve(&tree, &path(&["instance", "cin"])), Ok(IdCode::from(1u64)));
    assert_eq!(resolve(&tree, &path(&["instance", "sub", "q"])), Ok(IdCode::from(2u64)));
    assert_eq!(resolve(&tree, &path(&["instance", "other", "a"])), Ok(IdCode::from(4u64)));
    assert_eq!(resolve(&tree, &path(&["clk"])), Ok(IdCode::from(5u64)));
}

#[test]
fn resolve_reports_missing_path() {
    let tree = build(&sample_header());
    assert_eq!(resolve(&tree, &path(&["instance", "cout"])), Err(ResolveError::NotFound));
    assert_eq!(resolve(&tree, &path(&["nowhere", "cin"])), Err(ResolveError::NotFound));
    assert_eq!(resolve(&tree, &Vec::new()), Err(ResolveError::NotFound));
}

#[test]
fn resolve_reports_type_mismatch() {
    let tree = build(&sample_header());
    assert_eq!(resolve(&tree, &path(&["instance", "sub"])), Err(ResolveError::TypeMismatch));
    assert_eq!(resolve(&tree, &path(&["clk", "x"])), Err(ResolveError::TypeMismatch));
}

#[test]
fn index_and_name_resolution_agree() {
    let tree = build(&sample_header());
    // scopes counted among scopes only, the variable among variables only
    assert_eq!(resolve_by_index(&tree, &vec![0], 0), resolve(&tree, &path(&["instance", "cin"])));
    assert_eq!(resolve_by_index(&tree, &vec![0], 1), resolve(&tree, &path(&["instance", "a"])));
    assert_eq!(resolve_by_index(&tree, &vec![0, 0], 0), resolve(&tree, &path(&["instance", "sub", "q"])));
    assert_eq!(resolve_by_index(&tree, &vec![0, 1], 0), resolve(&tree, &path(&["instance", "other", "a"])));
    assert_eq!(resolve_by_index(&tree, &vec![], 0), resolve(&tree, &path(&["clk"])));
}

#[test]
fn index_resolution_reports_missing_positions() {
    let tree = build(&sample_header());
    assert_eq!(resolve_by_index(&tree, &vec![1], 0), Err(ResolveError::NotFound));
    assert_eq!(resolve_by_index(&tree, &vec![0], 2), Err(ResolveError::NotFound));
    assert_eq!(resolve_by_index(&tree, &vec![], 1), Err(ResolveError::NotFound));
}

#[test]
fn get_vars_lists_the_variables_of_the_scope_reached() {
    let tree = build(&sample_header());
    assert_eq!(get_vars(&tree, &vec![]), Ok((path(&["clk"]), Vec::new())));
    assert_eq!(get_vars(&tree, &vec![0]), Ok((path(&["cin", "a"]), path(&["instance"]))));
    assert_eq!(get_vars(&tree, &vec![0, 1]), Ok((path(&["a"]), path(&["instance", "other"]))));
    assert_eq!(get_vars(&tree, &vec![0, 2]), Err(ResolveError::NotFound));
    assert_eq!(get_vars(&tree, &vec![3]), Err(ResolveError::NotFound));
}

#[test]
fn outline_lists_items_depth_first() {
    assert_eq!(
        outline(&sample_header()),
        path(&["module instance", "-wire cin", "-module sub", "--wire q", "-wire a", "-module other", "--wire a", "wire clk"])
    );
    assert!(outline(&Vec::new()).is_empty());
}
