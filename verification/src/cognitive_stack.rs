use crate::concurrency::{RoundRobinScheduler, Scheduler};
use crate::cortex::MemoryCortex;
use crate::embedding::{DefaultQuaternionEmbedding, Quaternion, QuaternionEmbedding};
use crate::errors::{UorError, UorResult};
use crate::foundation_model::FoundationModel;
use crate::manifold::{Manifold, ManifoldView};
use crate::operators::{ExampleOperator, HpcOperator};
use vstd::prelude::*;

verus! {

/// One recorded stage call: which stage ran, the graph value it received,
/// and what the call returned. The embedding event additionally records the
/// cortex value the call left behind, since that call alone may write the
/// cortex.
#[allow(inconsistent_fields)]
pub ghost enum StageEvent {
    /// The domain-transform stage at the given list position.
    Transform { index: usize, input: ManifoldView, result: Result<ManifoldView, UorError> },
    /// The scheduler's dispatch call.
    Schedule { input: ManifoldView, result: Result<(), UorError> },
    /// The numeric operator's rewrite call.
    Operate { input: ManifoldView, result: Result<ManifoldView, UorError> },
    /// The embedding call.
    Embed {
        input: ManifoldView,
        cortex_after: MemoryCortex,
        result: Result<Seq<Quaternion>, UorError>,
    },
}

impl StageEvent {
    /// Whether the recorded call returned success.
    pub open spec fn succeeded(self) -> bool {
        match self {
            StageEvent::Transform { result, .. } => result is Ok,
            StageEvent::Schedule { result, .. } => result is Ok,
            StageEvent::Operate { result, .. } => result is Ok,
            StageEvent::Embed { result, .. } => result is Ok,
        }
    }

    /// The error the recorded call returned, when it failed.
    pub open spec fn error_of(self) -> Option<UorError> {
        match self {
            StageEvent::Transform { result, .. } => if result is Err {
                Some(result->Err_0)
            } else {
                None
            },
            StageEvent::Schedule { result, .. } => if result is Err {
                Some(result->Err_0)
            } else {
                None
            },
            StageEvent::Operate { result, .. } => if result is Err {
                Some(result->Err_0)
            } else {
                None
            },
            StageEvent::Embed { result, .. } => if result is Err {
                Some(result->Err_0)
            } else {
                None
            },
        }
    }

    /// The graph value the recorded call received.
    pub open spec fn input_view(self) -> ManifoldView {
        match self {
            StageEvent::Transform { input, .. } => input,
            StageEvent::Schedule { input, .. } => input,
            StageEvent::Operate { input, .. } => input,
            StageEvent::Embed { input, .. } => input,
        }
    }

    /// The working graph after the recorded call: a successful transform or
    /// operator hands on its result; scheduling and embedding leave the
    /// working graph as it was.
    pub open spec fn passes_on(self, incoming: ManifoldView) -> ManifoldView {
        match self {
            StageEvent::Transform { result: Ok(out), .. } => out,
            StageEvent::Operate { result: Ok(out), .. } => out,
            _ => incoming,
        }
    }

    /// Whether two recorded calls denote the same stage of the pipeline.
    pub open spec fn same_stage_as(self, other: StageEvent) -> bool {
        match (self, other) {
            (
                StageEvent::Transform { index: i1, .. },
                StageEvent::Transform { index: i2, .. },
            ) => i1 == i2,
            (StageEvent::Schedule { .. }, StageEvent::Schedule { .. }) => true,
            (StageEvent::Operate { .. }, StageEvent::Operate { .. }) => true,
            (StageEvent::Embed { .. }, StageEvent::Embed { .. }) => true,
            _ => false,
        }
    }

    /// Whether the recorded call behaved as the identity on the graph: a
    /// transform or operator handed back the graph value it received.
    /// Scheduling and embedding pass no graph on, so they qualify as they
    /// are.
    pub open spec fn identity_behaved(self) -> bool {
        match self {
            StageEvent::Transform { input, result, .. } => result matches Ok(out) ==> out
                == input,
            StageEvent::Operate { input, result } => result matches Ok(out) ==> out == input,
            _ => true,
        }
    }
}

/// Whether `ev` has the kind the execution protocol prescribes at position
/// `k` of a run over `n` domain-transform stages: the `n` transforms in
/// list order, then scheduling, then the operator, then the embedding.
pub open spec fn event_kind_at(n: nat, k: int, ev: StageEvent) -> bool {
    if k < n {
        ev matches StageEvent::Transform { index, .. } && index == k
    } else if k == n {
        ev is Schedule
    } else if k == n + 1 {
        ev is Operate
    } else if k == n + 2 {
        ev is Embed
    } else {
        false
    }
}

/// The working graph after the recorded calls `t`, starting from the
/// caller's graph `m0`.
pub open spec fn working_view(m0: ManifoldView, t: Seq<StageEvent>) -> ManifoldView
    decreases t.len(),
{
    if t.len() == 0 {
        m0
    } else {
        t.last().passes_on(working_view(m0, t.drop_last()))
    }
}

/// A (possibly partial) protocol run over `n` domain-transform stages,
/// started on the graph `m0`: each recorded call has its position's kind,
/// each received the working graph that the calls before it produced, every
/// call but possibly the last succeeded, and nothing ran past position
/// `n + 2`. A run that stops short of `n + 3` calls stopped at a failure.
pub open spec fn protocol_run(t: Seq<StageEvent>, n: nat, m0: ManifoldView) -> bool {
    &&& t.len() <= n + 3
    &&& forall|k: int| 0 <= k < t.len() ==> event_kind_at(n, k, #[trigger] t[k])
    &&& forall|k: int|
        0 <= k < t.len() ==> (#[trigger] t[k]).input_view() == working_view(m0, t.take(k))
    &&& forall|k: int| 0 <= k < t.len() - 1 ==> (#[trigger] t[k]).succeeded()
}

/// Law: in a complete protocol run over `n` domain-transform stages —
/// `n + 3` recorded calls — no two positions denote the same stage: every
/// transform, the scheduler, the operator and the embedding each ran
/// exactly once, in protocol order, and (by `protocol_run`) each only after
/// every earlier call had succeeded.
pub proof fn lemma_stage_sequencing(t: Seq<StageEvent>, n: nat, m0: ManifoldView)
    requires
        protocol_run(t, n, m0),
        t.len() == n + 3,
    ensures
        forall|k1: int, k2: int|
            0 <= k1 < k2 < t.len() ==> !(#[trigger] t[k1]).same_stage_as(#[trigger] t[k2]),
{
    assert forall|k1: int, k2: int| 0 <= k1 < k2 < t.len() implies !(#[trigger] t[k1]).same_stage_as(
        #[trigger] t[k2],
    ) by {
        assert(event_kind_at(n, k1, t[k1]));
        assert(event_kind_at(n, k2, t[k2]));
    }
}

/// Law (round trip): in a protocol run whose recorded transform and
/// operator calls all handed back the graph value they received, every call
/// received the caller's graph unchanged — in particular, in a complete run
/// the embedding saw a graph with the caller's node and edge mappings.
pub proof fn lemma_round_trip_on_identity_stages(t: Seq<StageEvent>, n: nat, m0: ManifoldView)
    requires
        protocol_run(t, n, m0),
        forall|k: int| 0 <= k < t.len() ==> (#[trigger] t[k]).identity_behaved(),
    ensures
        forall|k: int| 0 <= k < t.len() ==> (#[trigger] t[k]).input_view() == m0,
        working_view(m0, t) == m0,
{
    lemma_working_view_identity_prefix(t, n, m0, t.len() as int);
    assert(t.take(t.len() as int) =~= t);
    assert forall|k: int| 0 <= k < t.len() implies (#[trigger] t[k]).input_view() == m0 by {
        lemma_working_view_identity_prefix(t, n, m0, k);
    }
}

proof fn lemma_working_view_identity_prefix(t: Seq<StageEvent>, n: nat, m0: ManifoldView, j: int)
    requires
        protocol_run(t, n, m0),
        forall|k: int| 0 <= k < t.len() ==> (#[trigger] t[k]).identity_behaved(),
        0 <= j <= t.len(),
    ensures
        working_view(m0, t.take(j)) == m0,
    decreases j,
{
    if j > 0 {
        lemma_working_view_identity_prefix(t, n, m0, j - 1);
        assert(t.take(j).drop_last() =~= t.take(j - 1));
        assert(t.take(j).last() == t[j - 1]);
        assert(t[j - 1].input_view() == working_view(m0, t.take(j - 1)));
        assert(t[j - 1].identity_behaved());
    }
}

proof fn lemma_protocol_run_push(t: Seq<StageEvent>, n: nat, m0: ManifoldView, ev: StageEvent)
    requires
        protocol_run(t, n, m0),
        forall|k: int| 0 <= k < t.len() ==> (#[trigger] t[k]).succeeded(),
        t.len() < n + 3,
        event_kind_at(n, t.len() as int, ev),
        ev.input_view() == working_view(m0, t),
    ensures
        protocol_run(t.push(ev), n, m0),
        working_view(m0, t.push(ev)) == ev.passes_on(working_view(m0, t)),
        forall|k: int| 0 <= k < t.len() ==> (#[trigger] t.push(ev)[k]).succeeded(),
        t.push(ev).last() == ev,
{
    let t2 = t.push(ev);
    assert(t2.drop_last() =~= t);
    assert(t2.last() == ev);
    assert forall|k: int| 0 <= k < t2.len() implies event_kind_at(n, k, #[trigger] t2[k]) by {
        if k < t.len() {
            assert(t2[k] == t[k]);
        } else {
            assert(t2[k] == ev);
        }
    }
    assert forall|k: int| 0 <= k < t2.len() implies (#[trigger] t2[k]).input_view() == working_view(
        m0,
        t2.take(k),
    ) by {
        assert(t2.take(k) =~= t.take(k));
        if k < t.len() {
            assert(t2[k] == t[k]);
        } else {
            assert(t2[k] == ev);
            assert(t.take(k) =~= t);
        }
    }
}

proof fn lemma_prepend_skip(pre: Seq<StageEvent>, t: Seq<StageEvent>)
    ensures
        (pre + t).skip(pre.len() as int) == t,
        pre.is_prefix_of(pre + t),
{
    assert((pre + t).skip(pre.len() as int) =~= t);
    assert((pre + t).subrange(0, pre.len() as int) =~= pre);
}

/// The orchestrator: an ordered list of domain-transform stages, one
/// scheduler, one numeric operator, one embedding strategy, and the cortex
/// whose lifetime is tied to the stack's. The intended cap of twelve
/// domain-transform stages is a design intent, not an enforced invariant.
/// A ghost trace records, for the verifier, every stage call the stack has
/// made: its order, what each call received, and what it returned.
pub struct CognitiveStack<M, E, O, S> {
    pub models: Vec<M>,
    pub embedding: E,
    pub operator: O,
    pub scheduler: S,
    pub cortex: MemoryCortex,
    /// Ghost record of the stage calls made so far; written only by
    /// `process`.
    pub trace: Ghost<Seq<StageEvent>>,
}

impl<M, E, O, S> CognitiveStack<M, E, O, S> {
    /// The ordered ghost record of every stage call this stack has made.
    pub open spec fn call_trace(self) -> Seq<StageEvent> {
        self.trace@
    }
}

impl<M, E, O, S> Default for CognitiveStack<M, E, O, S> where
    M: FoundationModel + Default,
    E: QuaternionEmbedding + Default,
    O: HpcOperator + Default,
    S: Scheduler + Default,
 {
    /// A zero-configuration stack: exactly one default-constructed
    /// domain-transform stage, default strategies for the remaining
    /// components, and a freshly populated cortex.
    fn default() -> (r: Self)
        ensures
            r.models@.len() == 1,
            call_ensures(M::default, (), r.models@[0]),
            call_ensures(E::default, (), r.embedding),
            call_ensures(O::default, (), r.operator),
            call_ensures(S::default, (), r.scheduler),
            r.cortex.wf(),
            r.cortex.all_empty(),
            r.call_trace() == Seq::<StageEvent>::empty(),
    {
        let mut models: Vec<M> = Vec::new();
        models.push(M::default());
        CognitiveStack {
            models,
            embedding: E::default(),
            operator: O::default(),
            scheduler: S::default(),
            cortex: MemoryCortex::default(),
            trace: Ghost(Seq::empty()),
        }
    }
}

impl<M: FoundationModel> CognitiveStack<
    M,
    DefaultQuaternionEmbedding,
    ExampleOperator,
    RoundRobinScheduler,
> {
    /// Creates a stack with caller-supplied domain-transform stages; the
    /// remaining components are the default strategies and a fresh cortex.
    pub fn new_default(models: Vec<M>) -> (r: Self)
        ensures
            r.models == models,
            r.cortex.wf(),
            r.cortex.all_empty(),
            r.call_trace() == Seq::<StageEvent>::empty(),
    {
        CognitiveStack {
            models,
            embedding: DefaultQuaternionEmbedding::default(),
            operator: ExampleOperator::default(),
            scheduler: RoundRobinScheduler::default(),
            cortex: MemoryCortex::default(),
            trace: Ghost(Seq::empty()),
        }
    }
}

impl<M, E, O, S> CognitiveStack<M, E, O, S> where
    M: FoundationModel,
    E: QuaternionEmbedding,
    O: HpcOperator,
    S: Scheduler,
 {
    /// Creates a stack from explicitly supplied components and a fresh
    /// cortex.
    pub fn new_with_parts(models: Vec<M>, embedding: E, operator: O, scheduler: S) -> (r: Self)
        ensures
            r.models == models,
            r.embedding == embedding,
            r.operator == operator,
            r.scheduler == scheduler,
            r.cortex.wf(),
            r.cortex.all_empty(),
            r.call_trace() == Seq::<StageEvent>::empty(),
    {
        CognitiveStack {
            models,
            embedding,
            operator,
            scheduler,
            cortex: MemoryCortex::new_144(),
            trace: Ghost(Seq::empty()),
        }
    }

    /// Pushes a graph through the full pipeline: every domain-transform
    /// stage in list order, then scheduling, then the numeric operator,
    /// then the embedding. The first failing call aborts the run and its
    /// error is returned unchanged.
    ///
    /// The appended call trace is a `protocol_run`: it records, in order,
    /// which calls ran, that the first transform received the caller's
    /// graph and every later call the working graph the calls before it
    /// produced, and how each call ended. A failed call is the trace's last
    /// event and carries the returned error; the cortex is untouched unless
    /// the embedding was reached, and then holds exactly what that call
    /// left. Whether the run succeeds is decided by the pluggable stage
    /// implementations, so no clause promises `Ok`: success of a concrete
    /// stack is checked by its tests, not owed by this contract.
    pub fn process(&mut self, manifold: Manifold) -> (r: UorResult<()>)
        requires
            manifold.wf(),
        ensures
            final(self).models@.len() == old(self).models@.len(),
            final(self).cortex.references@.len() == old(self).cortex.references@.len(),
            forall|i: int|
                0 <= i < old(self).cortex.references@.len() ==> (
                #[trigger] final(self).cortex.references@[i]).prime_index == old(
                    self,
                ).cortex.references@[i].prime_index,
            old(self).call_trace().is_prefix_of(final(self).call_trace()),
            ({
                let t = final(self).call_trace().skip(old(self).call_trace().len() as int);
                let n = old(self).models@.len();
                &&& protocol_run(t, n, manifold@)
                &&& (r is Ok <==> t.len() == n + 3 && t.last().succeeded())
                &&& (r matches Err(e) ==> t.len() >= 1 && !t.last().succeeded()
                    && t.last().error_of() == Some(e))
                &&& (t.len() < n + 3 ==> final(self).cortex == old(self).cortex)
                &&& (t.len() == n + 3 ==> (t.last() matches StageEvent::Embed { cortex_after, .. }
                    && final(self).cortex == cortex_after))
            }),
    {
        let ghost pre = self.trace@;
        let ghost n: nat = self.models@.len();
        let ghost m0 = manifold@;
        let ghost mut t: Seq<StageEvent> = Seq::empty();
        let mut m = manifold;
        let mut done: Vec<M> = Vec::new();
        while self.models.len() > 0
            invariant
                m.wf(),
                n == old(self).models@.len(),
                pre == old(self).trace@,
                m0 == manifold@,
                done@.len() + self.models@.len() == n,
                t.len() == done@.len(),
                self.trace@ == pre + t,
                protocol_run(t, n, m0),
                forall|k: int| 0 <= k < t.len() ==> (#[trigger] t[k]).succeeded(),
                working_view(m0, t) == m@,
                self.cortex == old(self).cortex,
            decreases self.models.len(),
        {
            let idx = done.len();
            let ghost mv = m@;
            let mut model = self.models.remove(0);
            let res = model.process_manifold(&m);
            done.push(model);
            match res {
                Ok(m2) => {
                    let ghost ev = StageEvent::Transform {
                        index: idx,
                        input: mv,
                        result: Ok(m2@),
                    };
                    proof {
                        lemma_protocol_run_push(t, n, m0, ev);
                        t = t.push(ev);
                    }
                    self.trace = Ghost(pre + t);
                    m = m2;
                },
                Err(e) => {
                    let ghost ev = StageEvent::Transform { index: idx, input: mv, result: Err(e) };
                    proof {
                        lemma_protocol_run_push(t, n, m0, ev);
                        t = t.push(ev);
                    }
                    self.trace = Ghost(pre + t);
                    done.append(&mut self.models);
                    self.models = done;
                    proof {
                        lemma_prepend_skip(pre, t);
                    }
                    return Err(e);
                },
            }
        }
        self.models = done;
        let ghost mv = m@;
        let res = self.scheduler.schedule(&m);
        match res {
            Ok(_) => {
                let ghost ev = StageEvent::Schedule { input: mv, result: Ok(()) };
                proof {
                    lemma_protocol_run_push(t, n, m0, ev);
                    t = t.push(ev);
                }
                self.trace = Ghost(pre + t);
            },
            Err(e) => {
                let ghost ev = StageEvent::Schedule { input: mv, result: Err(e) };
                proof {
                    lemma_protocol_run_push(t, n, m0, ev);
                    t = t.push(ev);
                }
                self.trace = Ghost(pre + t);
                proof {
                    lemma_prepend_skip(pre, t);
                }
                return Err(e);
            },
        }
        let ghost mv = m@;
        let res = self.operator.apply(&m);
        match res {
            Ok(m2) => {
                let ghost ev = StageEvent::Operate { input: mv, result: Ok(m2@) };
                proof {
                    lemma_protocol_run_push(t, n, m0, ev);
                    t = t.push(ev);
                }
                self.trace = Ghost(pre + t);
                m = m2;
            },
            Err(e) => {
                let ghost ev = StageEvent::Operate { input: mv, result: Err(e) };
                proof {
                    lemma_protocol_run_push(t, n, m0, ev);
                    t = t.push(ev);
                }
                self.trace = Ghost(pre + t);
                proof {
                    lemma_prepend_skip(pre, t);
                }
                return Err(e);
            },
        }
        let ghost mv = m@;
        let res = self.embedding.embed_manifold(&m, &mut self.cortex);
        match res {
            Ok(quaternions) => {
                let ghost ev = StageEvent::Embed {
                    input: mv,
                    cortex_after: self.cortex,
                    result: Ok(quaternions@),
                };
                proof {
                    lemma_protocol_run_push(t, n, m0, ev);
                    t = t.push(ev);
                }
                self.trace = Ghost(pre + t);
                proof {
                    lemma_prepend_skip(pre, t);
                }
                Ok(())
            },
            Err(e) => {
                let ghost ev = StageEvent::Embed {
                    input: mv,
                    cortex_after: self.cortex,
                    result: Err(e),
                };
                proof {
                    lemma_protocol_run_push(t, n, m0, ev);
                    t = t.push(ev);
                }
                self.trace = Ghost(pre + t);
                proof {
                    lemma_prepend_skip(pre, t);
                }
                Err(e)
            },
        }
    }
}

} // verus!
