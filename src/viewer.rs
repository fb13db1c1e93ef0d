use vstd::prelude::*;
use crate::hierarchy::{ResolveError, ScopeTree, path_model, resolve, resolve_spec};
use crate::trace::{
    StreamError, TraceEvent, extract, extraction, first_fault, ok_upto, stream_events, changes_of,
    waves_model,
};
use crate::value::{PointModel, WaveChangePoint, points_model};
use vcd::IdCode;

verus! {

/// A loaded signal: its display name, its path of names and its change points.
#[derive(Debug)]
pub struct WaveData {
    pub name: String,
    pub path: Vec<String>,
    pub data: Vec<WaveChangePoint>,
}

/// Mathematical form of a loaded signal.
pub struct SignalModel {
    pub name: Seq<char>,
    pub path: Seq<Seq<char>>,
    pub data: Seq<PointModel>,
}

impl View for WaveData {
    type V = SignalModel;

    open spec fn view(&self) -> SignalModel {
        SignalModel { name: self.name@, path: path_model(self.path@), data: points_model(self.data@) }
    }
}

pub open spec fn signals_model(s: Seq<WaveData>) -> Seq<SignalModel> {
    s.map_values(|w: WaveData| w@)
}

/// The names of a path joined by dots.
pub open spec fn joined(p: Seq<Seq<char>>) -> Seq<char>
    decreases p.len(),
{
    if p.len() == 0 {
        seq![]
    } else if p.len() == 1 {
        p[0]
    } else {
        joined(p.drop_last()) + seq!['.'] + p.last()
    }
}

/// The names of a dotted name, in order; an empty name between two dots, or at either end,
/// counts.
pub open spec fn split_dots(s: Seq<char>) -> Seq<Seq<char>>
    decreases s.len(),
{
    if s.len() == 0 {
        seq![seq![]]
    } else {
        let prev = split_dots(s.drop_last());
        if s.last() == '.' {
            prev.push(seq![])
        } else {
            prev.update(prev.len() - 1, prev.last().push(s.last()))
        }
    }
}

/// Why a signal could not be loaded.
#[derive(Clone, Copy, Debug, PartialEq, Eq, Structural)]
pub enum LoadError {
    Resolve(ResolveError),
    Stream(StreamError),
}

impl WaveData {
    pub fn new(name: String, path: Vec<String>, data: Vec<WaveChangePoint>) -> (r: WaveData)
        ensures
            r.name == name,
            r.path == path,
            r.data == data,
    {
        WaveData { name, path, data }
    }
}

/// The signals that loading `paths` adds, in the order of `paths`.
pub open spec fn loaded(
    top: Seq<crate::hierarchy::ItemModel>,
    evs: Seq<crate::trace::EventModel>,
    paths: Seq<Seq<Seq<char>>>,
) -> Seq<SignalModel> {
    paths.map_values(
        |p: Seq<Seq<char>>|
            SignalModel { name: joined(p), path: p, data: changes_of(evs, resolve_spec(top, p)->Ok_0) },
    )
}

pub open spec fn paths_model(ps: Seq<Vec<String>>) -> Seq<Seq<Seq<char>>> {
    ps.map_values(|p: Vec<String>| path_model(p@))
}

/// Every path resolves.
pub open spec fn all_resolve(top: Seq<crate::hierarchy::ItemModel>, ps: Seq<Seq<Seq<char>>>) -> bool {
    forall|j: int| 0 <= j < ps.len() ==> (#[trigger] resolve_spec(top, ps[j])) is Ok
}

/// `e` is the error of the first path that does not resolve.
pub open spec fn first_unresolved(
    top: Seq<crate::hierarchy::ItemModel>,
    ps: Seq<Seq<Seq<char>>>,
    e: ResolveError,
) -> bool {
    exists|j: int|
        0 <= j < ps.len() && all_resolve(top, ps.take(j)) && #[trigger] resolve_spec(top, ps[j])
            == Err::<IdCode, ResolveError>(e)
}

/// The names of a path joined by dots.
pub fn join_path(p: &Vec<String>) -> (r: String)
    ensures
        r@ == joined(path_model(p@)),
{
    let ghost pm = path_model(p@);
    let mut s = String::new();
    if p.len() == 0 {
        return s;
    }
    s.append(p[0].as_str());
    let mut i: usize = 1;
    while i < p.len()
        invariant
            1 <= i <= p@.len(),
            pm == path_model(p@),
            s@ == joined(pm.take(i as int)),
        decreases p@.len() - i,
    {
        proof {
            reveal_strlit(".");
        }
        s.append(".");
        s.append(p[i].as_str());
        assert(pm.take(i + 1).drop_last() =~= pm.take(i as int));
        i = i + 1;
    }
    assert(pm.take(p@.len() as int) =~= pm);
    s
}

fn copy_path(p: &Vec<String>) -> (r: Vec<String>)
    ensures
        path_model(r@) == path_model(p@),
{
    let mut r: Vec<String> = Vec::new();
    let mut i: usize = 0;
    while i < p.len()
        invariant
            i <= p@.len(),
            r@.len() == i,
            forall|m: int| 0 <= m < i ==> (#[trigger] r@[m])@ == p@[m]@,
        decreases p@.len() - i,
    {
        r.push(p[i].clone());
        i = i + 1;
    }
    assert(path_model(r@) =~= path_model(p@));
    r
}

/// The names of a dotted name, split at every `.`.
pub fn split_name(name: &str) -> (r: Vec<String>)
    ensures
        path_model(r@) == split_dots(name@),
{
    let n = name.unicode_len();
    let mut out: Vec<String> = Vec::new();
    let mut start: usize = 0;
    let mut i: usize = 0;
    assert(name@.take(0) =~= seq![]);
    assert(name@.subrange(0, 0) =~= seq![]);
    assert(path_model(out@) =~= seq![]);
    while i < n
        invariant
            n == name@.len(),
            start <= i <= n,
            split_dots(name@.take(i as int)) == path_model(out@).push(name@.subrange(start as int, i as int)),
        decreases n - i,
    {
        let c = name.get_char(i);
        assert(name@.take(i + 1).drop_last() =~= name@.take(i as int));
        if c == '.' {
            let piece = String::from_str(name.substring_char(start, i));
            out.push(piece);
            assert(path_model(out@) =~= path_model(out@.drop_last()).push(piece@));
            start = i + 1;
            assert(name@.subrange(start as int, start as int) =~= seq![]);
        } else {
            assert(name@.subrange(start as int, i + 1) =~= name@.subrange(start as int, i as int).push(c));
        }
        i = i + 1;
    }
    let last = String::from_str(name.substring_char(start, n));
    out.push(last);
    assert(path_model(out@) =~= path_model(out@.drop_last()).push(last@));
    assert(name@.take(n as int) =~= name@);
    out
}

/// The loaded signals, in display order.
pub struct WaveViewer {
    waves: Vec<WaveData>,
}

impl View for WaveViewer {
    type V = Seq<SignalModel>;

    closed spec fn view(&self) -> Seq<SignalModel> {
        signals_model(self.waves@)
    }
}

impl WaveViewer {
    /// A viewer with no signal.
    pub fn new() -> (r: WaveViewer)
        ensures
            r@ == Seq::<SignalModel>::empty(),
    {
        let r = WaveViewer { waves: Vec::new() };
        assert(r@ =~= Seq::<SignalModel>::empty());
        r
    }

    /// The loaded signals, in display order.
    pub fn signals(&self) -> (r: &Vec<WaveData>)
        ensures
            signals_model(r@) == self@,
    {
        &self.waves
    }

    /// Loads the signals of `paths` with one pass over the trace, and appends them in order.
    /// If a path does not resolve, or the trace holds an error, nothing is added and the error
    /// of the first such path, or the first error of the trace, is returned.
    pub fn add_all(
        &mut self,
        tree: &ScopeTree,
        paths: &Vec<Vec<String>>,
        stream: &Vec<Result<TraceEvent, StreamError>>,
    ) -> (r: Result<(), LoadError>)
        ensures
            r is Ok <==> (all_resolve(tree.top(), paths_model(paths@)) && ok_upto(
                stream@,
                stream@.len() as int,
            )),
            r is Ok ==> final(self)@ == old(self)@ + loaded(
                tree.top(),
                stream_events(stream@),
                paths_model(paths@),
            ),
            r is Err ==> final(self)@ == old(self)@,
            r matches Err(LoadError::Resolve(e)) ==> first_unresolved(
                tree.top(),
                paths_model(paths@),
                e,
            ),
            r matches Err(LoadError::Stream(e)) ==> all_resolve(tree.top(), paths_model(paths@))
                && first_fault(stream@, e),
    {
        let ghost top = tree.top();
        let ghost pm = paths_model(paths@);
        let mut ids: Vec<IdCode> = Vec::new();
        let mut j: usize = 0;
        while j < paths.len()
            invariant
                j <= paths@.len(),
                pm == paths_model(paths@),
                top == tree.top(),
                ids@.len() == j,
                forall|k: int|
                    0 <= k < j ==> #[trigger] resolve_spec(top, pm[k]) == Ok::<IdCode, ResolveError>(
                        ids@[k],
                    ),
            decreases paths@.len() - j,
        {
            match resolve(tree, &paths[j]) {
                Ok(id) => {
                    ids.push(id);
                },
                Err(e) => {
                    proof {
                        assert(all_resolve(top, pm.take(j as int)));
                        assert(resolve_spec(top, pm[j as int]) == Err::<IdCode, ResolveError>(e));
                    }
                    return Err(LoadError::Resolve(e));
                },
            }
            j = j + 1;
        }
        assert(all_resolve(top, pm));
        let mut waves = match extract(stream, &ids) {
            Ok(w) => w,
            Err(e) => {
                return Err(LoadError::Stream(e));
            },
        };
        let ghost evs = stream_events(stream@);
        let ghost added = loaded(top, evs, pm);
        let ghost start = self@;
        assert(waves_model(waves@) == extraction(evs, ids@));
        assert(waves_model(waves@).len() == waves@.len());
        assert(extraction(evs, ids@).len() == ids@.len());
        assert forall|m: int| 0 <= m < paths@.len() implies points_model((#[trigger] waves@[m])@)
            == changes_of(evs, ids@[m]) by {
            assert(waves_model(waves@)[m] == extraction(evs, ids@)[m]);
        }
        assert(added.take(0) =~= seq![]);
        assert(start + added.take(0) =~= start);
        let mut k: usize = 0;
        while k < paths.len()
            invariant
                k <= paths@.len(),
                pm == paths_model(paths@),
                top == tree.top(),
                added == loaded(top, evs, pm),
                ids@.len() == paths@.len(),
                waves@.len() == paths@.len(),
                forall|m: int|
                    0 <= m < paths@.len() ==> #[trigger] resolve_spec(top, pm[m]) == Ok::<
                        IdCode,
                        ResolveError,
                    >(ids@[m]),
                forall|m: int|
                    k <= m < paths@.len() ==> points_model((#[trigger] waves@[m])@) == changes_of(
                        evs,
                        ids@[m],
                    ),
                self@ == start + added.take(k as int),
            decreases paths@.len() - k,
        {
            let mut data: Vec<WaveChangePoint> = Vec::new();
            std::mem::swap(&mut data, &mut waves[k]);
            let w = WaveData { name: join_path(&paths[k]), path: copy_path(&paths[k]), data };
            let ghost before = self.waves@;
            assert(w@ == added[k as int]);
            self.waves.push(w);
            assert(signals_model(self.waves@) =~= signals_model(before).push(w@));
            assert(self@ =~= start + added.take(k + 1));
            k = k + 1;
        }
        assert(added.take(paths@.len() as int) =~= added);
        Ok(())
    }

    /// Loads the signal of one path and appends it; on an error nothing changes.
    pub fn add(
        &mut self,
        tree: &ScopeTree,
        path: Vec<String>,
        stream: &Vec<Result<TraceEvent, StreamError>>,
    ) -> (r: Result<(), LoadError>)
        ensures
            r is Ok <==> (resolve_spec(tree.top(), path_model(path@)) is Ok && ok_upto(
                stream@,
                stream@.len() as int,
            )),
            r is Ok ==> final(self)@ == old(self)@.push(
                SignalModel {
                    name: joined(path_model(path@)),
                    path: path_model(path@),
                    data: changes_of(
                        stream_events(stream@),
                        resolve_spec(tree.top(), path_model(path@))->Ok_0,
                    ),
                },
            ),
            r is Err ==> final(self)@ == old(self)@,
            r matches Err(LoadError::Resolve(e)) ==> resolve_spec(tree.top(), path_model(path@))
                == Err::<IdCode, ResolveError>(e),
            r matches Err(LoadError::Stream(e)) ==> resolve_spec(
                tree.top(),
                path_model(path@),
            ) is Ok && first_fault(stream@, e),
    {
        let ghost top = tree.top();
        let ghost pm = path_model(path@);
        let paths: Vec<Vec<String>> = vec![path];
        assert(paths_model(paths@) =~= seq![pm]);
        assert(all_resolve(top, seq![pm]) <==> resolve_spec(top, pm) is Ok) by {
            if all_resolve(top, seq![pm]) {
                assert(resolve_spec(top, seq![pm][0]) is Ok);
            }
        }
        let r = self.add_all(tree, &paths, stream);
        proof {
            assert(loaded(top, stream_events(stream@), seq![pm]) =~= seq![
                SignalModel {
                    name: joined(pm),
                    path: pm,
                    data: changes_of(stream_events(stream@), resolve_spec(top, pm)->Ok_0),
                },
            ]);
            if let Err(LoadError::Resolve(e)) = r {
                let j = choose|j: int|
                    0 <= j < 1 && all_resolve(top, seq![pm].take(j)) && #[trigger] resolve_spec(
                        top,
                        seq![pm][j],
                    ) == Err::<IdCode, ResolveError>(e);
                assert(j == 0);
            }
        }
        r
    }

    /// Loads the signal of a dotted name, such as `top.cpu.clk`, and appends it; on an error
    /// nothing changes.
    pub fn add_wave_by_name(
        &mut self,
        tree: &ScopeTree,
        name: &str,
        stream: &Vec<Result<TraceEvent, StreamError>>,
    ) -> (r: Result<(), LoadError>)
        ensures
            r is Ok <==> (resolve_spec(tree.top(), split_dots(name@)) is Ok && ok_upto(
                stream@,
                stream@.len() as int,
            )),
            r is Ok ==> final(self)@ == old(self)@.push(
                SignalModel {
                    name: joined(split_dots(name@)),
                    path: split_dots(name@),
                    data: changes_of(
                        stream_events(stream@),
                        resolve_spec(tree.top(), split_dots(name@))->Ok_0,
                    ),
                },
            ),
            r is Err ==> final(self)@ == old(self)@,
            r matches Err(LoadError::Resolve(e)) ==> resolve_spec(tree.top(), split_dots(name@))
                == Err::<IdCode, ResolveError>(e),
            r matches Err(LoadError::Stream(e)) ==> resolve_spec(
                tree.top(),
                split_dots(name@),
            ) is Ok && first_fault(stream@, e),
    {
        let path = split_name(name);
        self.add(tree, path, stream)
    }

    /// Removes the signal at `index`; an index past the end changes nothing.
    pub fn remove(&mut self, index: usize) -> (r: bool)
        ensures
            r == (index < old(self)@.len()),
            r ==> final(self)@ == old(self)@.remove(index as int),
            !r ==> final(self)@ == old(self)@,
    {
        if index >= self.waves.len() {
            return false;
        }
        let ghost before = self.waves@;
        let _gone = self.waves.remove(index);
        assert(signals_model(self.waves@) =~= signals_model(before).remove(index as int));
        true
    }
}

} // verus!
