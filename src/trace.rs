use vstd::prelude::*;
use crate::value::{
    PointModel, ValueModel, WaveChangePoint, WaveValue, copy_value, increasing_times, points_model,
};
use vcd::IdCode;

verus! {

/// The decoder's key for a variable; it is compared and carried, never looked into.
#[verifier::external_type_specification]
#[verifier::external_body]
pub struct ExIdCode(vcd::IdCode);

/// Relies on the `PartialEq` that vcd derives for `IdCode`: equal exactly when the wrapped
/// numbers are.
pub assume_specification[ <vcd::IdCode as core::cmp::PartialEq>::eq ](
    a: &vcd::IdCode,
    b: &vcd::IdCode,
) -> (r: bool)
    ensures
        r == (*a == *b),
;

/// One record of a decoded trace.
#[derive(Debug)]
pub enum TraceEvent {
    /// Simulation time moves to the given tick.
    Timestamp(u64),
    /// A variable takes a new value at the current time.
    Change(IdCode, WaveValue),
}

/// Mathematical form of a `TraceEvent`.
pub enum EventModel {
    Timestamp(u64),
    Change(IdCode, ValueModel),
}

impl View for TraceEvent {
    type V = EventModel;

    open spec fn view(&self) -> EventModel {
        match self {
            TraceEvent::Timestamp(t) => EventModel::Timestamp(*t),
            TraceEvent::Change(i, v) => EventModel::Change(*i, v@),
        }
    }
}

/// Why a trace could not be read to its end.
#[derive(Clone, Copy, Debug, PartialEq, Eq, Structural)]
pub enum StreamError {
    /// The file could not be opened or read.
    Io,
    /// The decoder found malformed trace data.
    Decode,
}

/// The current time after the events: the last timestamp, or 0 before any.
pub open spec fn clock(evs: Seq<EventModel>) -> u64
    decreases evs.len(),
{
    if evs.len() == 0 {
        0
    } else {
        match evs.last() {
            EventModel::Timestamp(t) => t,
            _ => clock(evs.drop_last()),
        }
    }
}

/// The change points of `id` in the events, in order, each at the time current when it came.
pub open spec fn changes_of(evs: Seq<EventModel>, id: IdCode) -> Seq<PointModel>
    decreases evs.len(),
{
    if evs.len() == 0 {
        seq![]
    } else {
        let prev = changes_of(evs.drop_last(), id);
        match evs.last() {
            EventModel::Change(i, v) => if i == id {
                prev.push(PointModel { time: clock(evs.drop_last()), value: v })
            } else {
                prev
            },
            _ => prev,
        }
    }
}

/// The change points of each requested identifier, in the order requested.
pub open spec fn extraction(evs: Seq<EventModel>, ids: Seq<IdCode>) -> Seq<Seq<PointModel>> {
    ids.map_values(|id: IdCode| changes_of(evs, id))
}

pub open spec fn waves_model(w: Seq<Vec<WaveChangePoint>>) -> Seq<Seq<PointModel>> {
    w.map_values(|v: Vec<WaveChangePoint>| points_model(v@))
}

/// Collects the change points of a set of identifiers while a trace is read once, front to
/// back.
pub struct ChangeCollector {
    ids: Vec<IdCode>,
    now: u64,
    waves: Vec<Vec<WaveChangePoint>>,
    seen: Ghost<Seq<EventModel>>,
}

impl ChangeCollector {
    /// The identifiers collected for.
    pub closed spec fn ids(&self) -> Seq<IdCode> {
        self.ids@
    }

    /// The events fed so far.
    pub closed spec fn seen(&self) -> Seq<EventModel> {
        self.seen@
    }

    pub closed spec fn wf(&self) -> bool {
        &&& self.waves@.len() == self.ids@.len()
        &&& self.now == clock(self.seen@)
        &&& waves_model(self.waves@) == extraction(self.seen@, self.ids@)
    }

    /// A collector for the given identifiers that has seen nothing yet.
    pub fn new(ids: &Vec<IdCode>) -> (r: ChangeCollector)
        ensures
            r.wf(),
            r.ids() == ids@,
            r.seen() == Seq::<EventModel>::empty(),
    {
        let mut own: Vec<IdCode> = Vec::new();
        let mut waves: Vec<Vec<WaveChangePoint>> = Vec::new();
        let mut k: usize = 0;
        while k < ids.len()
            invariant
                k <= ids@.len(),
                own@ == ids@.subrange(0, k as int),
                waves@.len() == k,
                forall|j: int| 0 <= j < k ==> (#[trigger] waves@[j])@ == Seq::<WaveChangePoint>::empty(),
            decreases ids@.len() - k,
        {
            own.push(ids[k]);
            waves.push(Vec::new());
            k = k + 1;
        }
        let r = ChangeCollector { ids: own, now: 0, waves, seen: Ghost(Seq::empty()) };
        assert(r.ids@ =~= ids@);
        assert forall|j: int| 0 <= j < r.ids@.len() implies points_model(r.waves@[j]@)
            == changes_of(Seq::empty(), r.ids@[j]) by {
            assert(points_model(r.waves@[j]@) =~= seq![]);
        }
        assert(waves_model(r.waves@) =~= extraction(Seq::empty(), r.ids@));
        r
    }

    /// Takes in the next event of the trace.
    pub fn collect(&mut self, ev: &TraceEvent)
        requires
            old(self).wf(),
        ensures
            final(self).wf(),
            final(self).ids() == old(self).ids(),
            final(self).seen() == old(self).seen().push(ev@),
    {
        let ghost before = self.seen@;
        let ghost new_seen = before.push(ev@);
        assert(new_seen.drop_last() =~= before);
        assert forall|k: int| 0 <= k < self.ids@.len() implies points_model(
            #[trigger] self.waves@[k]@,
        ) == changes_of(before, self.ids@[k]) by {
            assert(waves_model(self.waves@)[k] == extraction(before, self.ids@)[k]);
        }
        match ev {
            TraceEvent::Timestamp(t) => {
                self.now = *t;
            },
            TraceEvent::Change(id, v) => {
                let mut j: usize = 0;
                while j < self.ids.len()
                    invariant
                        j <= self.ids@.len(),
                        self.waves@.len() == self.ids@.len(),
                        self.ids@ == old(self).ids@,
                        self.now == clock(before),
                        self.seen@ == before,
                        new_seen == before.push(ev@),
                        new_seen.drop_last() == before,
                        ev@ == EventModel::Change(*id, v@),
                        forall|k: int|
                            0 <= k < j ==> points_model((#[trigger] self.waves@[k])@) == changes_of(
                                new_seen,
                                self.ids@[k],
                            ),
                        forall|k: int|
                            j <= k < self.ids@.len() ==> points_model((#[trigger] self.waves@[k])@)
                                == changes_of(before, self.ids@[k]),
                    decreases self.ids@.len() - j,
                {
                    if self.ids[j] == *id {
                        let p = WaveChangePoint { time: self.now, value: copy_value(v) };
                        self.waves[j].push(p);
                        assert(points_model(self.waves@[j as int]@) =~= changes_of(
                            before,
                            self.ids@[j as int],
                        ).push(p@));
                    }
                    j = j + 1;
                }
            },
        }
        self.seen = Ghost(new_seen);
        assert(waves_model(self.waves@) =~= extraction(self.seen@, self.ids@));
    }

    /// The change points collected, one sequence per identifier, in the order of `ids()`.
    pub fn finish(self) -> (r: Vec<Vec<WaveChangePoint>>)
        requires
            self.wf(),
        ensures
            waves_model(r@) == extraction(self.seen(), self.ids()),
    {
        self.waves
    }
}

/// The stream holds no error before position `n`.
pub open spec fn ok_upto(s: Seq<Result<TraceEvent, StreamError>>, n: int) -> bool {
    forall|k: int| 0 <= k < n ==> (#[trigger] s[k]) is Ok
}

/// `e` is the first error in the stream.
pub open spec fn first_fault(s: Seq<Result<TraceEvent, StreamError>>, e: StreamError) -> bool {
    exists|k: int|
        0 <= k < s.len() && ok_upto(s, k) && #[trigger] s[k] == Err::<TraceEvent, StreamError>(e)
}

/// The events of a stream that holds no error.
pub open spec fn stream_events(s: Seq<Result<TraceEvent, StreamError>>) -> Seq<EventModel> {
    s.map_values(|r: Result<TraceEvent, StreamError>| (r->Ok_0)@)
}

/// Reads a decoded trace once, front to back, and returns the change points of each
/// requested identifier, in the order requested. The first error in the stream ends the pass
/// and is returned.
pub fn extract(stream: &Vec<Result<TraceEvent, StreamError>>, ids: &Vec<IdCode>) -> (r: Result<
    Vec<Vec<WaveChangePoint>>,
    StreamError,
>)
    ensures
        r is Ok <==> ok_upto(stream@, stream@.len() as int),
        r is Ok ==> waves_model(r->Ok_0@) == extraction(stream_events(stream@), ids@),
        r is Err ==> first_fault(stream@, r->Err_0),
{
    let mut c = ChangeCollector::new(ids);
    let mut i: usize = 0;
    while i < stream.len()
        invariant
            i <= stream@.len(),
            c.wf(),
            c.ids() == ids@,
            ok_upto(stream@, i as int),
            c.seen() == stream_events(stream@.subrange(0, i as int)),
        decreases stream@.len() - i,
    {
        match &stream[i] {
            Ok(ev) => {
                c.collect(ev);
                assert(stream_events(stream@.subrange(0, i + 1)) =~= stream_events(
                    stream@.subrange(0, i as int),
                ).push(ev@));
            },
            Err(e) => {
                return Err(*e);
            },
        }
        i = i + 1;
    }
    assert(stream@.subrange(0, stream@.len() as int) =~= stream@);
    Ok(c.finish())
}


/// A timestamp never moves the clock back.
pub open spec fn clock_never_goes_back(evs: Seq<EventModel>) -> bool {
    forall|k: int|
        0 <= k < evs.len() && (#[trigger] evs[k]) is Timestamp ==> evs[k]->Timestamp_0 >= clock(
            evs.take(k),
        )
}

/// No identifier changes twice at one instant.
pub open spec fn one_change_per_instant(evs: Seq<EventModel>) -> bool {
    forall|i: int, j: int|
        0 <= i < j < evs.len() && (#[trigger] evs[i]) is Change && (#[trigger] evs[j]) is Change
            && evs[i]->Change_0 == evs[j]->Change_0 ==> clock(evs.take(i)) != clock(evs.take(j))
}

proof fn lemma_clock_monotone(evs: Seq<EventModel>, i: int, j: int)
    requires
        clock_never_goes_back(evs),
        0 <= i <= j <= evs.len(),
    ensures
        clock(evs.take(i)) <= clock(evs.take(j)),
    decreases j - i,
{
    if i < j {
        lemma_clock_monotone(evs, i, j - 1);
        assert(evs.take(j).drop_last() =~= evs.take(j - 1));
        if evs[j - 1] is Timestamp {
            assert(evs[j - 1]->Timestamp_0 >= clock(evs.take(j - 1)));
        }
    }
}

proof fn lemma_changes_of_prefix(evs: Seq<EventModel>, id: IdCode, n: int)
    requires
        clock_never_goes_back(evs),
        one_change_per_instant(evs),
        0 <= n <= evs.len(),
    ensures
        increasing_times(changes_of(evs.take(n), id)),
        forall|m: int|
            0 <= m < changes_of(evs.take(n), id).len() ==> exists|i: int|
                0 <= i < n && (#[trigger] evs[i]) is Change && evs[i]->Change_0 == id
                    && #[trigger] changes_of(evs.take(n), id)[m].time == clock(evs.take(i)),
    decreases n,
{
    if n > 0 {
        lemma_changes_of_prefix(evs, id, n - 1);
        let pre = evs.take(n);
        assert(pre.drop_last() =~= evs.take(n - 1));
        let prev = changes_of(evs.take(n - 1), id);
        let ev = evs[n - 1];
        if ev is Change && ev->Change_0 == id {
            let now = clock(evs.take(n - 1));
            let cur = changes_of(pre, id);
            assert(cur == prev.push(PointModel { time: now, value: ev->Change_1 }));
            assert forall|m: int| 0 <= m < prev.len() implies #[trigger] prev[m].time < now by {
                let i = choose|i: int|
                    0 <= i < n - 1 && (#[trigger] evs[i]) is Change && evs[i]->Change_0 == id
                        && prev[m].time == clock(evs.take(i));
                lemma_clock_monotone(evs, i, n - 1);
                assert(clock(evs.take(i)) != clock(evs.take(n - 1)));
            }
            assert forall|m: int| 0 <= m < cur.len() implies exists|i: int|
                0 <= i < n && (#[trigger] evs[i]) is Change && evs[i]->Change_0 == id
                    && #[trigger] cur[m].time == clock(evs.take(i)) by {
                if m == cur.len() - 1 {
                    assert(evs[n - 1] is Change && cur[m].time == clock(evs.take(n - 1)));
                } else {
                    assert(cur[m] == prev[m]);
                }
            }
        }
    }
}

/// Where the clock never goes back and no identifier changes twice at one instant, the change
/// points gathered for any identifier are strictly increasing in time.
pub proof fn lemma_changes_increase(evs: Seq<EventModel>, id: IdCode)
    requires
        clock_never_goes_back(evs),
        one_change_per_instant(evs),
    ensures
        increasing_times(changes_of(evs, id)),
{
    lemma_changes_of_prefix(evs, id, evs.len() as int);
    assert(evs.take(evs.len() as int) =~= evs);
}

/// Gathering two lists of identifiers in one pass gives what two passes, one for each list,
/// give together; in particular each identifier gets the same change points alone as in any
/// batch.
pub proof fn lemma_batch_equals_separate(evs: Seq<EventModel>, first: Seq<IdCode>, second: Seq<
    IdCode,
>)
    ensures
        extraction(evs, first + second) == extraction(evs, first) + extraction(evs, second),
        forall|j: int|
            0 <= j < first.len() ==> #[trigger] extraction(evs, first)[j] == extraction(
                evs,
                seq![first[j]],
            )[0],
{
    assert(extraction(evs, first + second) =~= extraction(evs, first) + extraction(evs, second));
}

} // verus!
