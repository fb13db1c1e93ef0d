use vstd::prelude::*;
use vcd::IdCode;

verus! {

/// A variable declared in a scope.
#[derive(Debug)]
pub struct Var {
    /// The declared type, as the decoder writes it (`wire`, `reg`, `real`, ...).
    pub kind: String,
    pub width: u32,
    pub code: IdCode,
    pub name: String,
}

/// A scope of the decoder's header, as the decoder hands it over.
#[derive(Debug)]
pub struct HeaderScope {
    pub kind: String,
    pub name: String,
    pub items: Vec<HeaderItem>,
}

/// An item of the decoder's header.
#[derive(Debug)]
pub enum HeaderItem {
    Scope(HeaderScope),
    Var(Var),
    /// A comment, or anything else that this library does not model.
    Comment(String),
}

/// A scope of the tree.
#[derive(Debug)]
pub struct Scope {
    pub kind: String,
    pub name: String,
    pub children: Vec<ScopeItem>,
}

/// A node of the tree below the root.
#[derive(Debug)]
pub enum ScopeItem {
    Scope(Scope),
    Var(Var),
}

/// The scope hierarchy of a trace, under one synthetic root.
#[derive(Debug)]
pub struct ScopeTree {
    pub root: Scope,
}

/// Mathematical form of a tree node.
pub enum ItemModel {
    Scope { kind: Seq<char>, name: Seq<char>, children: Seq<ItemModel> },
    Var { kind: Seq<char>, width: u32, code: IdCode, name: Seq<char> },
}

pub open spec fn var_model(v: Var) -> ItemModel {
    ItemModel::Var { kind: v.kind@, width: v.width, code: v.code, name: v.name@ }
}

/// Mathematical form of a sequence of tree nodes.
pub open spec fn items_view(s: Seq<ScopeItem>) -> Seq<ItemModel>
    decreases s,
{
    if s.len() == 0 {
        seq![]
    } else {
        let last = match s.last() {
            ScopeItem::Var(v) => var_model(v),
            ScopeItem::Scope(sc) => ItemModel::Scope {
                kind: sc.kind@,
                name: sc.name@,
                children: items_view(sc.children@),
            },
        };
        items_view(s.drop_last()).push(last)
    }
}

/// The header items as tree nodes: comments dropped, everything else kept in place and order.
pub open spec fn kept(s: Seq<HeaderItem>) -> Seq<ItemModel>
    decreases s,
{
    if s.len() == 0 {
        seq![]
    } else {
        let prev = kept(s.drop_last());
        match s.last() {
            HeaderItem::Var(v) => prev.push(var_model(v)),
            HeaderItem::Scope(sc) => prev.push(
                ItemModel::Scope { kind: sc.kind@, name: sc.name@, children: kept(sc.items@) },
            ),
            HeaderItem::Comment(_) => prev,
        }
    }
}

/// Text of the synthetic root's kind.
pub open spec fn root_kind() -> Seq<char> {
    seq!['R', 'O', 'O', 'T']
}

impl ScopeTree {
    /// The top-level nodes, the children of the synthetic root.
    pub open spec fn top(&self) -> Seq<ItemModel> {
        items_view(self.root.children@)
    }
}

fn copy_var(v: &Var) -> (r: Var)
    ensures
        var_model(r) == var_model(*v),
{
    Var { kind: v.kind.clone(), width: v.width, code: v.code, name: v.name.clone() }
}

fn convert_items(items: &Vec<HeaderItem>) -> (r: Vec<ScopeItem>)
    ensures
        items_view(r@) == kept(items@),
    decreases items,
{
    let mut out: Vec<ScopeItem> = Vec::new();
    let mut k: usize = 0;
    while k < items.len()
        invariant
            k <= items@.len(),
            items_view(out@) == kept(items@.subrange(0, k as int)),
        decreases items@.len() - k,
    {
        let ghost before = out@;
        assert(items@.subrange(0, k + 1).drop_last() =~= items@.subrange(0, k as int));
        match &items[k] {
            HeaderItem::Scope(sc) => {
                let children = convert_items(&sc.items);
                out.push(
                    ScopeItem::Scope(Scope { kind: sc.kind.clone(), name: sc.name.clone(), children }),
                );
                assert(out@.drop_last() =~= before);
            },
            HeaderItem::Var(v) => {
                out.push(ScopeItem::Var(copy_var(v)));
                assert(out@.drop_last() =~= before);
            },
            HeaderItem::Comment(_) => {},
        }
        k = k + 1;
    }
    assert(items@.subrange(0, items@.len() as int) =~= items@);
    out
}

/// Builds the tree of a header: a synthetic root scope, of kind `ROOT` and with an empty name,
/// whose children are the header's items. Comments are dropped at every level; every other
/// item keeps its place, its order among its siblings and its fields.
pub fn build(items: &Vec<HeaderItem>) -> (r: ScopeTree)
    ensures
        r.root.kind@ == root_kind(),
        r.root.name@ == Seq::<char>::empty(),
        r.top() == kept(items@),
{
    let children = convert_items(items);
    proof {
        reveal_strlit("ROOT");
        reveal_strlit("");
    }
    let kind = String::from_str("ROOT");
    let name = String::from_str("");
    assert(kind@ =~= root_kind());
    ScopeTree { root: Scope { kind, name, children } }
}


/// Why a path names no variable.
#[derive(Clone, Copy, Debug, PartialEq, Eq, Structural)]
pub enum ResolveError {
    /// Some segment names nothing, or the path is empty.
    NotFound,
    /// A segment that should name a scope names only a variable, or the last segment names
    /// only a scope.
    TypeMismatch,
}

/// Mathematical form of one tree node.
pub open spec fn item_model(i: ScopeItem) -> ItemModel {
    match i {
        ScopeItem::Var(v) => var_model(v),
        ScopeItem::Scope(sc) => ItemModel::Scope {
            kind: sc.kind@,
            name: sc.name@,
            children: items_view(sc.children@),
        },
    }
}

proof fn lemma_items_view_index(s: Seq<ScopeItem>)
    ensures
        items_view(s).len() == s.len(),
        forall|k: int| 0 <= k < s.len() ==> #[trigger] items_view(s)[k] == item_model(s[k]),
    decreases s.len(),
{
    if s.len() > 0 {
        lemma_items_view_index(s.drop_last());
    }
}

/// The node is a scope (`scope`) or a variable (`!scope`).
pub open spec fn is_kind(m: ItemModel, scope: bool) -> bool {
    if scope {
        m is Scope
    } else {
        m is Var
    }
}

pub open spec fn name_of(m: ItemModel) -> Seq<char> {
    match m {
        ItemModel::Scope { name, .. } => name,
        ItemModel::Var { name, .. } => name,
    }
}

/// Position of the first node of the kind with the name, from position `i` on; -1 if none.
pub open spec fn find_from(cs: Seq<ItemModel>, name: Seq<char>, scope: bool, i: int) -> int
    decreases cs.len() - i,
{
    if i < 0 || i >= cs.len() {
        -1
    } else if is_kind(cs[i], scope) && name_of(cs[i]) == name {
        i
    } else {
        find_from(cs, name, scope, i + 1)
    }
}

proof fn lemma_find_from(cs: Seq<ItemModel>, name: Seq<char>, scope: bool, i: int)
    requires
        0 <= i,
    ensures
        find_from(cs, name, scope, i) == -1 || (i <= find_from(cs, name, scope, i) < cs.len()
            && is_kind(cs[find_from(cs, name, scope, i)], scope) && name_of(
            cs[find_from(cs, name, scope, i)],
        ) == name),
    decreases cs.len() - i,
{
    if i < cs.len() && !(is_kind(cs[i], scope) && name_of(cs[i]) == name) {
        lemma_find_from(cs, name, scope, i + 1);
    }
}

proof fn lemma_nth_from(cs: Seq<ItemModel>, scope: bool, n: int, i: int)
    requires
        0 <= i,
    ensures
        nth_from(cs, scope, n, i) == -1 || (i <= nth_from(cs, scope, n, i) < cs.len() && is_kind(
            cs[nth_from(cs, scope, n, i)],
            scope,
        )),
    decreases cs.len() - i,
{
    if i < cs.len() {
        if is_kind(cs[i], scope) {
            if n != 0 {
                lemma_nth_from(cs, scope, n - 1, i + 1);
            }
        } else {
            lemma_nth_from(cs, scope, n, i + 1);
        }
    }
}

/// Position of the first node of the kind with the name; -1 if none.
pub open spec fn find_child(cs: Seq<ItemModel>, name: Seq<char>, scope: bool) -> int {
    find_from(cs, name, scope, 0)
}

/// The variable that a path of names reaches from the nodes `cs`: every segment but the last
/// names a scope, entered in turn, and the last names a variable in the scope reached.
pub open spec fn resolve_spec(cs: Seq<ItemModel>, path: Seq<Seq<char>>) -> Result<IdCode, ResolveError>
    decreases path.len(),
{
    if path.len() == 0 {
        Err(ResolveError::NotFound)
    } else {
        let s = find_child(cs, path[0], true);
        let v = find_child(cs, path[0], false);
        if path.len() == 1 {
            if v >= 0 {
                Ok(cs[v]->code)
            } else if s >= 0 {
                Err(ResolveError::TypeMismatch)
            } else {
                Err(ResolveError::NotFound)
            }
        } else {
            if s >= 0 {
                resolve_spec(cs[s]->children, path.drop_first())
            } else if v >= 0 {
                Err(ResolveError::TypeMismatch)
            } else {
                Err(ResolveError::NotFound)
            }
        }
    }
}

/// Position of the `n`-th node of the kind (counting from 0), from position `i` on; -1 if
/// none.
pub open spec fn nth_from(cs: Seq<ItemModel>, scope: bool, n: int, i: int) -> int
    decreases cs.len() - i,
{
    if i < 0 || i >= cs.len() {
        -1
    } else if is_kind(cs[i], scope) {
        if n == 0 {
            i
        } else {
            nth_from(cs, scope, n - 1, i + 1)
        }
    } else {
        nth_from(cs, scope, n, i + 1)
    }
}

/// The variable that a path of positions reaches from the nodes `cs`: each of `scopes` picks a
/// scope among the scopes only, entered in turn, and `var` picks a variable among the
/// variables only of the scope reached.
pub open spec fn resolve_index_spec(cs: Seq<ItemModel>, scopes: Seq<int>, var: int) -> Result<
    IdCode,
    ResolveError,
>
    decreases scopes.len(),
{
    if scopes.len() == 0 {
        let v = nth_from(cs, false, var, 0);
        if v >= 0 {
            Ok(cs[v]->code)
        } else {
            Err(ResolveError::NotFound)
        }
    } else {
        let s = nth_from(cs, true, scopes[0], 0);
        if s >= 0 {
            resolve_index_spec(cs[s]->children, scopes.drop_first(), var)
        } else {
            Err(ResolveError::NotFound)
        }
    }
}

pub open spec fn path_model(p: Seq<String>) -> Seq<Seq<char>> {
    p.map_values(|s: String| s@)
}

pub open spec fn positions_model(p: Seq<usize>) -> Seq<int> {
    p.map_values(|k: usize| k as int)
}

fn item_is_kind(item: &ScopeItem, scope: bool) -> (r: bool)
    ensures
        r == is_kind(item_model(*item), scope),
{
    match item {
        ScopeItem::Scope(_) => scope,
        ScopeItem::Var(_) => !scope,
    }
}

fn item_name(item: &ScopeItem) -> (r: &String)
    ensures
        r@ == name_of(item_model(*item)),
{
    match item {
        ScopeItem::Scope(sc) => &sc.name,
        ScopeItem::Var(v) => &v.name,
    }
}

/// Position of the first node in `cs` of the kind with the name.
fn find_named(cs: &Vec<ScopeItem>, name: &String, scope: bool) -> (r: Option<usize>)
    ensures
        match r {
            Some(k) => k as int == find_child(items_view(cs@), name@, scope) && k < cs@.len()
                && is_kind(item_model(cs@[k as int]), scope),
            None => find_child(items_view(cs@), name@, scope) == -1,
        },
{
    proof {
        lemma_items_view_index(cs@);
        lemma_find_from(items_view(cs@), name@, scope, 0);
    }
    let ghost m = items_view(cs@);
    let mut i: usize = 0;
    while i < cs.len()
        invariant
            i <= cs@.len(),
            m == items_view(cs@),
            m.len() == cs@.len(),
            forall|k: int| 0 <= k < cs@.len() ==> #[trigger] m[k] == item_model(cs@[k]),
            find_child(m, name@, scope) == find_from(m, name@, scope, i as int),
        decreases cs@.len() - i,
    {
        if item_is_kind(&cs[i], scope) && *item_name(&cs[i]) == *name {
            return Some(i);
        }
        i = i + 1;
    }
    None
}

/// Position of the `n`-th node in `cs` of the kind.
fn nth_of_kind(cs: &Vec<ScopeItem>, scope: bool, n: usize) -> (r: Option<usize>)
    ensures
        match r {
            Some(k) => k as int == nth_from(items_view(cs@), scope, n as int, 0) && k < cs@.len()
                && is_kind(item_model(cs@[k as int]), scope),
            None => nth_from(items_view(cs@), scope, n as int, 0) == -1,
        },
{
    proof {
        lemma_items_view_index(cs@);
        lemma_nth_from(items_view(cs@), scope, n as int, 0);
    }
    let ghost m = items_view(cs@);
    let mut i: usize = 0;
    let mut left: usize = n;
    while i < cs.len()
        invariant
            i <= cs@.len(),
            m == items_view(cs@),
            m.len() == cs@.len(),
            forall|k: int| 0 <= k < cs@.len() ==> #[trigger] m[k] == item_model(cs@[k]),
            nth_from(m, scope, n as int, 0) == nth_from(m, scope, left as int, i as int),
        decreases cs@.len() - i,
    {
        if item_is_kind(&cs[i], scope) {
            if left == 0 {
                return Some(i);
            }
            left = left - 1;
        }
        i = i + 1;
    }
    None
}

/// The identifier of the variable that a path of names reaches from the root: every name but
/// the last picks the first scope child of that name, and the last picks the first variable
/// child of that name.
pub fn resolve(tree: &ScopeTree, path: &Vec<String>) -> (r: Result<IdCode, ResolveError>)
    ensures
        r == resolve_spec(tree.top(), path_model(path@)),
{
    let ghost full = path_model(path@);
    if path.len() == 0 {
        return Err(ResolveError::NotFound);
    }
    let mut cur: &Vec<ScopeItem> = &tree.root.children;
    let mut i: usize = 0;
    assert(full.skip(0) =~= full);
    while i < path.len()
        invariant
            0 < path@.len(),
            i < path@.len(),
            full == path_model(path@),
            resolve_spec(tree.top(), full) == resolve_spec(items_view(cur@), full.skip(i as int)),
        decreases path@.len() - i,
    {
        proof {
            lemma_items_view_index(cur@);
        }
        let ghost rest = full.skip(i as int);
        assert(rest[0] == path@[i as int]@);
        let s = find_named(cur, &path[i], true);
        if i + 1 == path.len() {
            let v = find_named(cur, &path[i], false);
            match v {
                Some(k) => {
                    match &cur[k] {
                        ScopeItem::Var(var) => {
                            return Ok(var.code);
                        },
                        ScopeItem::Scope(_) => {
                            return Err(ResolveError::NotFound);
                        },
                    }
                },
                None => {
                    if s.is_some() {
                        return Err(ResolveError::TypeMismatch);
                    }
                    return Err(ResolveError::NotFound);
                },
            }
        }
        match s {
            Some(k) => {
                match &cur[k] {
                    ScopeItem::Scope(sc) => {
                        assert(rest.drop_first() =~= full.skip(i + 1));
                        cur = &sc.children;
                    },
                    ScopeItem::Var(_) => {
                        return Err(ResolveError::NotFound);
                    },
                }
            },
            None => {
                if find_named(cur, &path[i], false).is_some() {
                    return Err(ResolveError::TypeMismatch);
                }
                return Err(ResolveError::NotFound);
            },
        }
        i = i + 1;
    }
    Err(ResolveError::NotFound)
}

/// The identifier of the variable that a path of positions reaches from the root: each of
/// `scopes` counts among the scope children only, and `var` among the variable children only
/// of the scope reached.
pub fn resolve_by_index(tree: &ScopeTree, scopes: &Vec<usize>, var: usize) -> (r: Result<
    IdCode,
    ResolveError,
>)
    ensures
        r == resolve_index_spec(tree.top(), positions_model(scopes@), var as int),
{
    let ghost full = positions_model(scopes@);
    let mut cur: &Vec<ScopeItem> = &tree.root.children;
    let mut i: usize = 0;
    assert(full.skip(0) =~= full);
    while i < scopes.len()
        invariant
            i <= scopes@.len(),
            full == positions_model(scopes@),
            resolve_index_spec(tree.top(), full, var as int) == resolve_index_spec(
                items_view(cur@),
                full.skip(i as int),
                var as int,
            ),
        decreases scopes@.len() - i,
    {
        proof {
            lemma_items_view_index(cur@);
        }
        let ghost rest = full.skip(i as int);
        match nth_of_kind(cur, true, scopes[i]) {
            Some(k) => {
                match &cur[k] {
                    ScopeItem::Scope(sc) => {
                        assert(rest.drop_first() =~= full.skip(i + 1));
                        cur = &sc.children;
                    },
                    ScopeItem::Var(_) => {
                        return Err(ResolveError::NotFound);
                    },
                }
            },
            None => {
                return Err(ResolveError::NotFound);
            },
        }
        i = i + 1;
    }
    proof {
        lemma_items_view_index(cur@);
        assert(full.skip(i as int) =~= Seq::<int>::empty());
    }
    match nth_of_kind(cur, false, var) {
        Some(k) => {
            match &cur[k] {
                ScopeItem::Var(v) => Ok(v.code),
                ScopeItem::Scope(_) => Err(ResolveError::NotFound),
            }
        },
        None => Err(ResolveError::NotFound),
    }
}


/// How many nodes of the kind stand at positions `i` up to, not including, `k`.
pub open spec fn count_between(cs: Seq<ItemModel>, scope: bool, i: int, k: int) -> int
    decreases k - i,
{
    if i >= k {
        0
    } else {
        (if is_kind(cs[i], scope) {
            1int
        } else {
            0int
        }) + count_between(cs, scope, i + 1, k)
    }
}

/// Rank of position `k` among the nodes of its kind.
pub open spec fn rank_of(cs: Seq<ItemModel>, scope: bool, k: int) -> int {
    count_between(cs, scope, 0, k)
}

/// The scope positions, each counted among scopes only, that a path of names passes through.
pub open spec fn scope_ranks(cs: Seq<ItemModel>, path: Seq<Seq<char>>) -> Seq<int>
    decreases path.len(),
{
    if path.len() <= 1 {
        seq![]
    } else {
        let s = find_child(cs, path[0], true);
        seq![rank_of(cs, true, s)] + scope_ranks(cs[s]->children, path.drop_first())
    }
}

/// The position, counted among variables only, of the variable that a path of names ends on.
pub open spec fn var_rank(cs: Seq<ItemModel>, path: Seq<Seq<char>>) -> int
    decreases path.len(),
{
    if path.len() == 0 {
        0
    } else if path.len() == 1 {
        rank_of(cs, false, find_child(cs, path[0], false))
    } else {
        var_rank(cs[find_child(cs, path[0], true)]->children, path.drop_first())
    }
}

proof fn lemma_nth_of_rank(cs: Seq<ItemModel>, scope: bool, i: int, k: int)
    requires
        0 <= i <= k < cs.len(),
        is_kind(cs[k], scope),
    ensures
        count_between(cs, scope, i, k) >= 0,
        nth_from(cs, scope, count_between(cs, scope, i, k), i) == k,
    decreases k - i,
{
    if i < k {
        lemma_nth_of_rank(cs, scope, i + 1, k);
    }
}

/// Resolving a path by names and resolving the same path by positions, each counted among the
/// scopes or among the variables of its parent, reach the same variable.
pub proof fn lemma_name_and_index_agree(cs: Seq<ItemModel>, path: Seq<Seq<char>>)
    requires
        resolve_spec(cs, path) is Ok,
    ensures
        resolve_index_spec(cs, scope_ranks(cs, path), var_rank(cs, path)) == resolve_spec(cs, path),
    decreases path.len(),
{
    lemma_find_from(cs, path[0], true, 0);
    lemma_find_from(cs, path[0], false, 0);
    if path.len() == 1 {
        let v = find_child(cs, path[0], false);
        lemma_nth_of_rank(cs, false, 0, v);
    } else {
        let s = find_child(cs, path[0], true);
        lemma_nth_of_rank(cs, true, 0, s);
        lemma_name_and_index_agree(cs[s]->children, path.drop_first());
        let ranks = scope_ranks(cs, path);
        assert(ranks.drop_first() =~= scope_ranks(cs[s]->children, path.drop_first()));
    }
}


/// No two siblings share a name, at any level.
pub open spec fn well_named(cs: Seq<ItemModel>) -> bool
    decreases cs,
{
    &&& forall|i: int, j: int| 0 <= i < j < cs.len() ==> name_of(cs[i]) != name_of(cs[j])
    &&& forall|k: int| 0 <= k < cs.len() && cs[k] is Scope ==> well_named(#[trigger] cs[k]->children)
}

/// The names along a path of positions: those of the scopes it enters, then that of the
/// variable it ends on.
pub open spec fn index_path_names(cs: Seq<ItemModel>, scopes: Seq<int>, var: int) -> Seq<Seq<char>>
    decreases scopes.len(),
{
    if scopes.len() == 0 {
        seq![name_of(cs[nth_from(cs, false, var, 0)])]
    } else {
        let s = nth_from(cs, true, scopes[0], 0);
        seq![name_of(cs[s])] + index_path_names(cs[s]->children, scopes.drop_first(), var)
    }
}

proof fn lemma_find_unique(cs: Seq<ItemModel>, scope: bool, i: int, k: int)
    requires
        0 <= i <= k < cs.len(),
        is_kind(cs[k], scope),
        forall|a: int, b: int| 0 <= a < b < cs.len() ==> name_of(cs[a]) != name_of(cs[b]),
    ensures
        find_from(cs, name_of(cs[k]), scope, i) == k,
    decreases k - i,
{
    if i < k {
        lemma_find_unique(cs, scope, i + 1, k);
    }
}

/// Where no two siblings share a name, a path of positions that reaches a variable, spelled
/// out as the names along it, reaches the same variable by name.
pub proof fn lemma_index_and_name_agree(cs: Seq<ItemModel>, scopes: Seq<int>, var: int)
    requires
        well_named(cs),
        resolve_index_spec(cs, scopes, var) is Ok,
    ensures
        resolve_spec(cs, index_path_names(cs, scopes, var)) == resolve_index_spec(cs, scopes, var),
    decreases scopes.len(),
{
    let names = index_path_names(cs, scopes, var);
    if scopes.len() == 0 {
        let v = nth_from(cs, false, var, 0);
        lemma_nth_from(cs, false, var, 0);
        lemma_find_unique(cs, false, 0, v);
    } else {
        let s = nth_from(cs, true, scopes[0], 0);
        lemma_nth_from(cs, true, scopes[0], 0);
        lemma_find_unique(cs, true, 0, s);
        assert(well_named(cs[s]->children));
        lemma_index_and_name_agree(cs[s]->children, scopes.drop_first(), var);
        let rest = index_path_names(cs[s]->children, scopes.drop_first(), var);
        assert(names.drop_first() =~= rest);
        assert(names[0] == name_of(cs[s]));
        assert(rest.len() >= 1) by {
            lemma_index_path_names_len(cs[s]->children, scopes.drop_first(), var);
        }
    }
}

proof fn lemma_index_path_names_len(cs: Seq<ItemModel>, scopes: Seq<int>, var: int)
    ensures
        index_path_names(cs, scopes, var).len() == scopes.len() + 1,
    decreases scopes.len(),
{
    if scopes.len() > 0 {
        let s = nth_from(cs, true, scopes[0], 0);
        lemma_index_path_names_len(cs[s]->children, scopes.drop_first(), var);
    }
}

/// The names of the variables among the nodes, in order.
pub open spec fn var_names(cs: Seq<ItemModel>) -> Seq<Seq<char>>
    decreases cs.len(),
{
    if cs.len() == 0 {
        seq![]
    } else {
        let prev = var_names(cs.drop_last());
        if cs.last() is Var {
            prev.push(name_of(cs.last()))
        } else {
            prev
        }
    }
}

/// The scope that a path of positions reaches from the nodes `cs`, each position counted among
/// scopes only: its children, and the names of the scopes entered on the way.
pub open spec fn scope_at(cs: Seq<ItemModel>, scopes: Seq<int>) -> Option<(Seq<ItemModel>, Seq<Seq<char>>)>
    decreases scopes.len(),
{
    if scopes.len() == 0 {
        Some((cs, seq![]))
    } else {
        let s = nth_from(cs, true, scopes[0], 0);
        if s >= 0 {
            match scope_at(cs[s]->children, scopes.drop_first()) {
                Some((c, names)) => Some((c, seq![name_of(cs[s])] + names)),
                None => None,
            }
        } else {
            None
        }
    }
}

/// The scope that `scope_at` reaches, once the names `names` were already passed.
pub open spec fn scope_after(
    cs: Seq<ItemModel>,
    scopes: Seq<int>,
    names: Seq<Seq<char>>,
) -> Option<(Seq<ItemModel>, Seq<Seq<char>>)> {
    match scope_at(cs, scopes) {
        Some((c, n)) => Some((c, names + n)),
        None => None,
    }
}

/// The scope reached from the root by positions, each counted among scopes only: the names of
/// its variables, in order, and the names of the scopes entered on the way, from the top.
/// `NotFound` where a position is past the last scope.
pub fn get_vars(tree: &ScopeTree, scopes: &Vec<usize>) -> (r: Result<(Vec<String>, Vec<String>), ResolveError>)
    ensures
        match scope_at(tree.top(), positions_model(scopes@)) {
            Some((c, names)) => r is Ok && path_model(r->Ok_0.0@) == var_names(c) && path_model(
                r->Ok_0.1@,
            ) == names,
            None => r == Err::<(Vec<String>, Vec<String>), ResolveError>(ResolveError::NotFound),
        },
{
    let ghost full = positions_model(scopes@);
    let mut cur: &Vec<ScopeItem> = &tree.root.children;
    let mut hier: Vec<String> = Vec::new();
    let mut i: usize = 0;
    assert(full.skip(0) =~= full);
    assert(path_model(hier@) + seq![] =~= seq![]);
    while i < scopes.len()
        invariant
            i <= scopes@.len(),
            full == positions_model(scopes@),
            scope_at(tree.top(), full) == scope_after(items_view(cur@), full.skip(i as int), path_model(hier@)),
        decreases scopes@.len() - i,
    {
        proof {
            lemma_items_view_index(cur@);
        }
        let ghost rest = full.skip(i as int);
        match nth_of_kind(cur, true, scopes[i]) {
            Some(k) => {
                match &cur[k] {
                    ScopeItem::Scope(sc) => {
                        assert(rest.drop_first() =~= full.skip(i + 1));
                        let ghost before = path_model(hier@);
                        hier.push(sc.name.clone());
                        assert(path_model(hier@) =~= before.push(sc.name@));
                        proof {
                            let tail = scope_at(items_view(sc.children@), full.skip(i + 1));
                            if let Some((c, n)) = tail {
                                assert(before + (seq![sc.name@] + n) =~= path_model(hier@) + n);
                            }
                        }
                        cur = &sc.children;
                    },
                    ScopeItem::Var(_) => {
                        return Err(ResolveError::NotFound);
                    },
                }
            },
            None => {
                return Err(ResolveError::NotFound);
            },
        }
        i = i + 1;
    }
    proof {
        lemma_items_view_index(cur@);
        assert(full.skip(i as int) =~= Seq::<int>::empty());
        assert(path_model(hier@) + seq![] =~= path_model(hier@));
    }
    let ghost m = items_view(cur@);
    let mut vars: Vec<String> = Vec::new();
    let mut k: usize = 0;
    while k < cur.len()
        invariant
            k <= cur@.len(),
            m == items_view(cur@),
            m.len() == cur@.len(),
            forall|j: int| 0 <= j < cur@.len() ==> #[trigger] m[j] == item_model(cur@[j]),
            path_model(vars@) == var_names(m.take(k as int)),
        decreases cur@.len() - k,
    {
        assert(m.take(k + 1).drop_last() =~= m.take(k as int));
        match &cur[k] {
            ScopeItem::Var(v) => {
                let ghost before = path_model(vars@);
                vars.push(v.name.clone());
                assert(path_model(vars@) =~= before.push(v.name@));
            },
            ScopeItem::Scope(_) => {},
        }
        k = k + 1;
    }
    assert(m.take(cur@.len() as int) =~= m);
    Ok((vars, hier))
}


/// The lines that list the header items, one per scope or variable, depth first: each line is
/// the prefix, the kind, a space and the name; the items of a scope follow its line with one
/// more `-` in their prefix.
pub open spec fn outline_spec(s: Seq<HeaderItem>, prefix: Seq<char>) -> Seq<Seq<char>>
    decreases s,
{
    if s.len() == 0 {
        seq![]
    } else {
        let prev = outline_spec(s.drop_last(), prefix);
        match s.last() {
            HeaderItem::Scope(sc) => prev.push(prefix + sc.kind@ + seq![' '] + sc.name@) + outline_spec(
                sc.items@,
                prefix.push('-'),
            ),
            HeaderItem::Var(v) => prev.push(prefix + v.kind@ + seq![' '] + v.name@),
            HeaderItem::Comment(_) => prev,
        }
    }
}

fn line_of(prefix: &String, kind: &String, name: &String) -> (r: String)
    ensures
        r@ == prefix@ + kind@ + seq![' '] + name@,
{
    proof {
        reveal_strlit(" ");
    }
    let mut line = prefix.clone();
    line.append(kind.as_str());
    line.append(" ");
    line.append(name.as_str());
    line
}

fn outline_into(items: &Vec<HeaderItem>, prefix: &String, out: &mut Vec<String>)
    ensures
        path_model(final(out)@) == path_model(old(out)@) + outline_spec(items@, prefix@),
    decreases items,
{
    let ghost start = path_model(out@);
    let mut k: usize = 0;
    assert(items@.take(0) =~= seq![]);
    assert(start + seq![] =~= start);
    while k < items.len()
        invariant
            k <= items@.len(),
            path_model(out@) == start + outline_spec(items@.take(k as int), prefix@),
        decreases items@.len() - k,
    {
        let ghost before = path_model(out@);
        assert(items@.take(k + 1).drop_last() =~= items@.take(k as int));
        match &items[k] {
            HeaderItem::Scope(sc) => {
                let line = line_of(prefix, &sc.kind, &sc.name);
                out.push(line);
                assert(path_model(out@) =~= before.push(line@));
                let mut deeper = prefix.clone();
                proof {
                    reveal_strlit("-");
                }
                deeper.append("-");
                assert(deeper@ =~= prefix@.push('-'));
                let ghost mid = path_model(out@);
                outline_into(&sc.items, &deeper, out);
                assert(start + outline_spec(items@.take(k + 1), prefix@) =~= mid + outline_spec(
                    sc.items@,
                    deeper@,
                ));
            },
            HeaderItem::Var(v) => {
                let line = line_of(prefix, &v.kind, &v.name);
                out.push(line);
                assert(path_model(out@) =~= before.push(line@));
                assert(start + outline_spec(items@.take(k + 1), prefix@) =~= before.push(line@));
            },
            HeaderItem::Comment(_) => {},
        }
        k = k + 1;
    }
    assert(items@.take(items@.len() as int) =~= items@);
}

/// The lines that list the header items: `kind name` per scope or variable, depth first, with
/// one `-` in front per level of nesting. Comments are left out.
pub fn outline(items: &Vec<HeaderItem>) -> (r: Vec<String>)
    ensures
        path_model(r@) == outline_spec(items@, Seq::<char>::empty()),
{
    let mut out: Vec<String> = Vec::new();
    let prefix = String::new();
    outline_into(items, &prefix, &mut out);
    assert(path_model(out@) =~= path_model(Seq::<String>::empty()) + outline_spec(items@, prefix@));
    out
}

} // verus!
