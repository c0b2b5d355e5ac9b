use vstd::prelude::*;

use crate::docset::{spec_terminated, terminated};

verus! {

/// Where a heap-filtering scorer stands between two answers of the
/// indexed scorer and of the heap.
#[derive(Clone, Copy, Debug, PartialEq, Eq, Structural)]
pub enum ScorerPhase {
    /// Just created; the indexed scorer's current document is awaited.
    Positioning,
    /// The indexed scorer was asked to advance; its next document is awaited.
    Advancing,
    /// The ctid of this document is awaited.
    ReadingCtid { doc: u32 },
    /// The heap filter `next` is being evaluated for this document, whose
    /// tuple is at `ctid`; all filters before it passed.
    Filtering { doc: u32, ctid: u64, next: usize },
    /// The scorer stands on its current document.
    Positioned,
}

/// What the indexed scorer and the heap report back to the scorer.
#[derive(Clone, Copy, Debug, PartialEq, Eq, Structural)]
pub enum ScorerEvent {
    /// The indexed scorer's current or next document.
    InnerDoc { doc: u32 },
    /// The ctid stored for the document under test.
    CtidRead { ctid: u64 },
    /// The verdict of the heap filter under evaluation.
    FilterEvaluated { passed: bool },
    /// The caller asks the scorer to advance.
    AdvanceRequested,
}

/// What the scorer asks for next.
#[derive(Clone, Copy, Debug, PartialEq, Eq, Structural)]
pub enum ScorerAction {
    /// Read the indexed scorer's current document.
    ReadInnerDoc,
    /// Advance the indexed scorer.
    AdvanceInner,
    /// Read the ctid fast field of this document.
    ReadCtid { doc: u32 },
    /// Evaluate the heap filter `index` against the tuple at `ctid`.
    EvaluateFilter { index: usize, ctid: u64 },
    /// The scorer now stands on `doc` (the end marker when exhausted);
    /// it is the answer of the advance.
    Yield { doc: u32 },
}

/// A scorer that keeps, of the documents of an indexed scorer, those whose
/// heap tuples pass every heap filter, in the order the indexed scorer
/// gives them.
#[derive(Debug)]
pub struct HeapFilterScorer {
    current_doc: u32,
    phase: ScorerPhase,
    filter_count: usize,
}

/// What a `HeapFilterScorer` holds, as plain values.
pub struct ScorerModel {
    pub current_doc: u32,
    pub phase: ScorerPhase,
    pub filter_count: nat,
}

impl View for HeapFilterScorer {
    type V = ScorerModel;

    closed spec fn view(&self) -> ScorerModel {
        ScorerModel {
            current_doc: self.current_doc,
            phase: self.phase,
            filter_count: self.filter_count as nat,
        }
    }
}

/// What holds of every scorer: its filter count fits in a `usize`, and the
/// filter under evaluation is one of its filters.
pub open spec fn valid_model(m: ScorerModel) -> bool {
    &&& m.filter_count <= usize::MAX
    &&& m.phase matches ScorerPhase::Filtering { next, .. } ==> next < m.filter_count
}

/// The pairs of phase and event that the scoring protocol admits.
pub open spec fn scorer_accepts(phase: ScorerPhase, event: ScorerEvent) -> bool {
    match (phase, event) {
        (ScorerPhase::Positioning, ScorerEvent::InnerDoc { .. }) => true,
        (ScorerPhase::Advancing, ScorerEvent::InnerDoc { .. }) => true,
        (ScorerPhase::ReadingCtid { .. }, ScorerEvent::CtidRead { .. }) => true,
        (ScorerPhase::Filtering { .. }, ScorerEvent::FilterEvaluated { .. }) => true,
        (ScorerPhase::Positioned, ScorerEvent::AdvanceRequested) => true,
        _ => false,
    }
}

/// The scorer standing on `doc`.
pub open spec fn positioned_on(doc: u32, filter_count: nat) -> ScorerModel {
    ScorerModel { current_doc: doc, phase: ScorerPhase::Positioned, filter_count }
}

/// What a document whose ctid is known leads to: the first filter, or,
/// when there are no filters, the document itself.
pub open spec fn start_filtering(m: ScorerModel, doc: u32, ctid: u64) -> (ScorerModel, ScorerAction) {
    if m.filter_count == 0 {
        (positioned_on(doc, m.filter_count), ScorerAction::Yield { doc })
    } else {
        (
            ScorerModel { phase: ScorerPhase::Filtering { doc, ctid, next: 0 }, ..m },
            ScorerAction::EvaluateFilter { index: 0, ctid },
        )
    }
}

/// One step of the scorer: from its state and an event, its new state and
/// its next action.
pub open spec fn scorer_transition(m: ScorerModel, event: ScorerEvent) -> (ScorerModel, ScorerAction) {
    match (m.phase, event) {
        (ScorerPhase::Positioning, ScorerEvent::InnerDoc { doc }) => if doc == spec_terminated() {
            (
                ScorerModel { current_doc: doc, phase: ScorerPhase::Advancing, ..m },
                ScorerAction::AdvanceInner,
            )
        } else {
            (
                ScorerModel { current_doc: doc, phase: ScorerPhase::ReadingCtid { doc }, ..m },
                ScorerAction::ReadCtid { doc },
            )
        },
        (ScorerPhase::Advancing, ScorerEvent::InnerDoc { doc }) => if doc == spec_terminated() {
            (positioned_on(doc, m.filter_count), ScorerAction::Yield { doc })
        } else {
            (ScorerModel { phase: ScorerPhase::ReadingCtid { doc }, ..m }, ScorerAction::ReadCtid { doc })
        },
        (ScorerPhase::ReadingCtid { doc }, ScorerEvent::CtidRead { ctid }) => start_filtering(m, doc, ctid),
        (ScorerPhase::Filtering { doc, ctid, next }, ScorerEvent::FilterEvaluated { passed }) => if !passed {
            (ScorerModel { phase: ScorerPhase::Advancing, ..m }, ScorerAction::AdvanceInner)
        } else if next + 1 < m.filter_count {
            (
                ScorerModel {
                    phase: ScorerPhase::Filtering { doc, ctid, next: (next + 1) as usize },
                    ..m
                },
                ScorerAction::EvaluateFilter { index: (next + 1) as usize, ctid },
            )
        } else {
            (positioned_on(doc, m.filter_count), ScorerAction::Yield { doc })
        },
        (ScorerPhase::Positioned, ScorerEvent::AdvanceRequested) => (
            ScorerModel { phase: ScorerPhase::Advancing, ..m },
            ScorerAction::AdvanceInner,
        ),
        _ => (m, ScorerAction::Yield { doc: m.current_doc }),
    }
}

impl HeapFilterScorer {
    #[verifier::type_invariant]
    spec fn filter_index_in_range(&self) -> bool {
        self.phase matches ScorerPhase::Filtering { next, .. } ==> next < self.filter_count
    }

    /// A scorer over `filter_count` heap filters. It starts on the end
    /// marker and first reads the indexed scorer's current document.
    pub fn new(filter_count: usize) -> (r: (Self, ScorerAction))
        ensures
            r.0@ == (ScorerModel {
                current_doc: spec_terminated(),
                phase: ScorerPhase::Positioning,
                filter_count: filter_count as nat,
            }),
            r.1 == ScorerAction::ReadInnerDoc,
            valid_model(r.0@),
    {
        (
            HeapFilterScorer { current_doc: terminated(), phase: ScorerPhase::Positioning, filter_count },
            ScorerAction::ReadInnerDoc,
        )
    }

    /// The document the scorer stands on.
    pub fn doc(&self) -> (r: u32)
        ensures
            r == self@.current_doc,
    {
        self.current_doc
    }

    /// How many heap filters each document must pass.
    pub fn filter_count(&self) -> (r: usize)
        ensures
            r == self@.filter_count,
    {
        self.filter_count
    }

    /// Take what the indexed scorer, the heap or the caller reported and
    /// say what must happen next.
    ///
    /// A document of the indexed scorer is kept when its ctid's tuple
    /// passes the heap filters, asked one after the other in their order;
    /// the first filter that fails rejects the document and the indexed
    /// scorer is advanced again. The end marker ends the search.
    pub fn step(&mut self, event: ScorerEvent) -> (r: ScorerAction)
        requires
            scorer_accepts(old(self)@.phase, event),
        ensures
            (final(self)@, r) == scorer_transition(old(self)@, event),
            valid_model(old(self)@),
            valid_model(final(self)@),
    {
        proof {
            use_type_invariant(&*self);
        }
        match event {
            ScorerEvent::InnerDoc { doc } => {
                let first = match self.phase {
                    ScorerPhase::Positioning => true,
                    _ => false,
                };
                if first {
                    self.current_doc = doc;
                }
                if doc == terminated() {
                    if first {
                        self.phase = ScorerPhase::Advancing;
                        ScorerAction::AdvanceInner
                    } else {
                        self.current_doc = doc;
                        self.phase = ScorerPhase::Positioned;
                        ScorerAction::Yield { doc }
                    }
                } else {
                    self.phase = ScorerPhase::ReadingCtid { doc };
                    ScorerAction::ReadCtid { doc }
                }
            },
            ScorerEvent::CtidRead { ctid } => {
                let doc = match self.phase {
                    ScorerPhase::ReadingCtid { doc } => doc,
                    _ => self.current_doc,
                };
                if self.filter_count == 0 {
                    self.current_doc = doc;
                    self.phase = ScorerPhase::Positioned;
                    ScorerAction::Yield { doc }
                } else {
                    self.phase = ScorerPhase::Filtering { doc, ctid, next: 0 };
                    ScorerAction::EvaluateFilter { index: 0, ctid }
                }
            },
            ScorerEvent::FilterEvaluated { passed } => {
                let (doc, ctid, next) = match self.phase {
                    ScorerPhase::Filtering { doc, ctid, next } => (doc, ctid, next),
                    _ => (self.current_doc, 0, 0),
                };
                if !passed {
                    self.phase = ScorerPhase::Advancing;
                    ScorerAction::AdvanceInner
                } else if next + 1 < self.filter_count {
                    self.phase = ScorerPhase::Filtering { doc, ctid, next: next + 1 };
                    ScorerAction::EvaluateFilter { index: next + 1, ctid }
                } else {
                    self.current_doc = doc;
                    self.phase = ScorerPhase::Positioned;
                    ScorerAction::Yield { doc }
                }
            },
            ScorerEvent::AdvanceRequested => {
                self.phase = ScorerPhase::Advancing;
                ScorerAction::AdvanceInner
            },
        }
    }
}


/// Each step keeps the heap filters in their order and never keeps a
/// rejected document: filter `0` is asked first, filter `i + 1` only after
/// filter `i` passed for the same tuple, and a failing filter ends the test
/// of the document, the indexed scorer being advanced at once. The scorer
/// yields only the end marker handed out by the indexed scorer while
/// advancing, or a document all of whose filters passed, and then stands on
/// what it yielded.
pub proof fn lemma_step_filters_in_order(m: ScorerModel, event: ScorerEvent)
    requires
        scorer_accepts(m.phase, event),
        valid_model(m),
    ensures
        ({
            let (m2, a) = scorer_transition(m, event);
            &&& a matches ScorerAction::EvaluateFilter { index, ctid } ==> {
                ||| index == 0 && m.phase is ReadingCtid && event == (ScorerEvent::CtidRead { ctid })
                ||| m.phase matches ScorerPhase::Filtering { ctid: c, next, .. } && c == ctid && index
                    == next + 1 && event == (ScorerEvent::FilterEvaluated { passed: true })
            }
            &&& (m.phase is Filtering && event == (ScorerEvent::FilterEvaluated { passed: false }))
                ==> a == ScorerAction::AdvanceInner && m2.current_doc == m.current_doc
            &&& a matches ScorerAction::Yield { doc } ==> {
                &&& m2 == positioned_on(doc, m.filter_count)
                &&& {
                    ||| m.phase is Advancing && doc == spec_terminated()
                    ||| m.phase == (ScorerPhase::ReadingCtid { doc }) && m.filter_count == 0
                    ||| m.phase matches ScorerPhase::Filtering { doc: d, next, .. } && d == doc && next
                        + 1 == m.filter_count && event == (ScorerEvent::FilterEvaluated { passed: true })
                }
            }
        }),
{
}

/// Whether the tuple at `ctid` passes the heap filters `from` to `n - 1`,
/// where `pass(ctid, i)` is the verdict of filter `i`.
pub open spec fn passes_from(pass: spec_fn(u64, int) -> bool, ctid: u64, from: int, n: nat) -> bool {
    forall|i: int| from <= i < n ==> #[trigger] pass(ctid, i)
}

/// Whether the tuple at `ctid` passes all `n` heap filters.
pub open spec fn passes_all(pass: spec_fn(u64, int) -> bool, ctid: u64, n: nat) -> bool {
    passes_from(pass, ctid, 0, n)
}

/// The first of `docs` whose tuple passes every heap filter, and how many
/// documents are consumed up to and including it; the end marker, with all
/// documents consumed, when none passes.
pub open spec fn first_passing(
    docs: Seq<u32>,
    ctid_of: spec_fn(u32) -> u64,
    pass: spec_fn(u64, int) -> bool,
    n: nat,
) -> (u32, nat)
    decreases docs.len(),
{
    if docs.len() == 0 {
        (spec_terminated(), 0)
    } else if passes_all(pass, ctid_of(docs[0]), n) {
        (docs[0], 1)
    } else {
        let (d, k) = first_passing(docs.drop_first(), ctid_of, pass, n);
        (d, k + 1)
    }
}

/// How the indexed scorer and the heap answer an action: the indexed
/// scorer hands out `docs` in order and then the end marker, the ctid of a
/// document is `ctid_of(doc)`, and filter `i` decides the tuple at `ctid`
/// as `pass(ctid, i)`. Also gives the documents still to be handed out.
pub open spec fn answer(
    action: ScorerAction,
    docs: Seq<u32>,
    ctid_of: spec_fn(u32) -> u64,
    pass: spec_fn(u64, int) -> bool,
) -> (ScorerEvent, Seq<u32>) {
    match action {
        ScorerAction::ReadInnerDoc | ScorerAction::AdvanceInner => if docs.len() == 0 {
            (ScorerEvent::InnerDoc { doc: spec_terminated() }, docs)
        } else {
            (ScorerEvent::InnerDoc { doc: docs[0] }, docs.drop_first())
        },
        ScorerAction::ReadCtid { doc } => (ScorerEvent::CtidRead { ctid: ctid_of(doc) }, docs),
        ScorerAction::EvaluateFilter { index, ctid } => (
            ScorerEvent::FilterEvaluated { passed: pass(ctid, index as int) },
            docs,
        ),
        ScorerAction::Yield { .. } => (ScorerEvent::AdvanceRequested, docs),
    }
}

/// Run the scorer against those answers from `action` on, for at most
/// `fuel` steps, until it yields: the scorer then, the yielded document
/// and the documents not yet handed out.
pub open spec fn drive(
    m: ScorerModel,
    action: ScorerAction,
    docs: Seq<u32>,
    ctid_of: spec_fn(u32) -> u64,
    pass: spec_fn(u64, int) -> bool,
    fuel: nat,
) -> Option<(ScorerModel, u32, Seq<u32>)>
    decreases fuel,
{
    match action {
        ScorerAction::Yield { doc } => Some((m, doc, docs)),
        _ => if fuel == 0 {
            None
        } else {
            let (event, rest) = answer(action, docs, ctid_of, pass);
            let (m2, a2) = scorer_transition(m, event);
            drive(m2, a2, rest, ctid_of, pass, (fuel - 1) as nat)
        },
    }
}

/// What a search over `docs` must end in: the scorer standing on the first
/// passing document, with the documents after it left.
pub open spec fn expected_outcome(
    docs: Seq<u32>,
    ctid_of: spec_fn(u32) -> u64,
    pass: spec_fn(u64, int) -> bool,
    n: nat,
) -> Option<(ScorerModel, u32, Seq<u32>)> {
    let (d, k) = first_passing(docs, ctid_of, pass, n);
    Some((positioned_on(d, n), d, docs.skip(k as int)))
}

/// How many filter steps it takes to reject a tuple, from filter `i` on.
pub open spec fn steps_to_reject(pass: spec_fn(u64, int) -> bool, ctid: u64, i: int, n: nat) -> nat
    decreases n - i,
{
    if i >= n || !pass(ctid, i) {
        1
    } else {
        1 + steps_to_reject(pass, ctid, i + 1, n)
    }
}

proof fn lemma_filters(
    m: ScorerModel,
    doc: u32,
    ctid: u64,
    i: usize,
    docs: Seq<u32>,
    ctid_of: spec_fn(u32) -> u64,
    pass: spec_fn(u64, int) -> bool,
    fuel: nat,
)
    requires
        m.phase == (ScorerPhase::Filtering { doc, ctid, next: i }),
        i < m.filter_count,
        m.filter_count <= usize::MAX,
        fuel >= m.filter_count - i,
    ensures
        passes_from(pass, ctid, i as int, m.filter_count) ==> drive(
            m,
            ScorerAction::EvaluateFilter { index: i, ctid },
            docs,
            ctid_of,
            pass,
            fuel,
        ) == Some((positioned_on(doc, m.filter_count), doc, docs)),
        !passes_from(pass, ctid, i as int, m.filter_count) ==> {
            let k = steps_to_reject(pass, ctid, i as int, m.filter_count);
            &&& 1 <= k <= m.filter_count - i
            &&& drive(m, ScorerAction::EvaluateFilter { index: i, ctid }, docs, ctid_of, pass, fuel)
                == drive(
                ScorerModel { phase: ScorerPhase::Advancing, ..m },
                ScorerAction::AdvanceInner,
                docs,
                ctid_of,
                pass,
                (fuel - k) as nat,
            )
        },
    decreases m.filter_count - i,
{
    let n = m.filter_count;
    let a = ScorerAction::EvaluateFilter { index: i, ctid };
    let (e, rest) = answer(a, docs, ctid_of, pass);
    assert(rest == docs);
    if pass(ctid, i as int) && i + 1 < n {
        let m2 = ScorerModel { phase: ScorerPhase::Filtering { doc, ctid, next: (i + 1) as usize }, ..m };
        assert(scorer_transition(m, e) == (m2, ScorerAction::EvaluateFilter { index: (i + 1) as usize, ctid }));
        lemma_filters(m2, doc, ctid, (i + 1) as usize, docs, ctid_of, pass, (fuel - 1) as nat);
        assert(passes_from(pass, ctid, i as int, n) == passes_from(pass, ctid, i + 1, n));
        assert(ScorerModel { phase: ScorerPhase::Advancing, ..m2 } == ScorerModel {
            phase: ScorerPhase::Advancing,
            ..m
        });
    } else if pass(ctid, i as int) {
        assert(i + 1 == n);
        assert(steps_to_reject(pass, ctid, i + 1, n) == 1);
        assert(e == ScorerEvent::FilterEvaluated { passed: true });
        assert(scorer_transition(m, e) == (positioned_on(doc, n), ScorerAction::Yield { doc }));
        assert(drive(positioned_on(doc, n), ScorerAction::Yield { doc }, docs, ctid_of, pass, (fuel - 1) as nat)
            == Some((positioned_on(doc, n), doc, docs)));
    } else {
        assert(e == ScorerEvent::FilterEvaluated { passed: false });
        assert(scorer_transition(m, e) == (
            ScorerModel { phase: ScorerPhase::Advancing, ..m },
            ScorerAction::AdvanceInner,
        ));
    }
}

proof fn lemma_first_passing_consumes(
    docs: Seq<u32>,
    ctid_of: spec_fn(u32) -> u64,
    pass: spec_fn(u64, int) -> bool,
    n: nat,
)
    ensures
        first_passing(docs, ctid_of, pass, n).1 <= docs.len(),
    decreases docs.len(),
{
    if docs.len() > 0 {
        lemma_first_passing_consumes(docs.drop_first(), ctid_of, pass, n);
    }
}

proof fn lemma_mul_step(l: nat, w: nat)
    ensures
        (l + 1) * w == l * w + w,
{
    assert((l + 1) * w == l * w + w) by (nonlinear_arith);
}

proof fn lemma_advancing(
    m: ScorerModel,
    docs: Seq<u32>,
    ctid_of: spec_fn(u32) -> u64,
    pass: spec_fn(u64, int) -> bool,
    fuel: nat,
)
    requires
        m.phase == ScorerPhase::Advancing,
        m.filter_count <= usize::MAX,
        forall|j: int| 0 <= j < docs.len() ==> docs[j] != spec_terminated(),
        fuel >= (docs.len() + 1) * (m.filter_count + 2),
    ensures
        drive(m, ScorerAction::AdvanceInner, docs, ctid_of, pass, fuel) == expected_outcome(
            docs,
            ctid_of,
            pass,
            m.filter_count,
        ),
    decreases docs.len(), 1nat,
{
    let n = m.filter_count;
    lemma_mul_step(docs.len(), n + 2);
    if docs.len() == 0 {
        assert(docs.skip(0) =~= docs);
        let t = spec_terminated();
        assert(answer(ScorerAction::AdvanceInner, docs, ctid_of, pass) == (ScorerEvent::InnerDoc { doc: t }, docs));
        assert(scorer_transition(m, ScorerEvent::InnerDoc { doc: t }) == (positioned_on(t, n), ScorerAction::Yield { doc: t }));
        assert(drive(positioned_on(t, n), ScorerAction::Yield { doc: t }, docs, ctid_of, pass, (fuel - 1) as nat) == Some((positioned_on(t, n), t, docs)));
    } else {
        let d = docs[0];
        let m2 = ScorerModel { phase: ScorerPhase::ReadingCtid { doc: d }, ..m };
        assert(answer(ScorerAction::AdvanceInner, docs, ctid_of, pass) == (ScorerEvent::InnerDoc { doc: d }, docs.drop_first()));
        assert(scorer_transition(m, ScorerEvent::InnerDoc { doc: d }) == (m2, ScorerAction::ReadCtid { doc: d }));
        lemma_reading(m2, docs, ctid_of, pass, (fuel - 1) as nat);
    }
}

proof fn lemma_reading(
    m: ScorerModel,
    docs: Seq<u32>,
    ctid_of: spec_fn(u32) -> u64,
    pass: spec_fn(u64, int) -> bool,
    fuel: nat,
)
    requires
        docs.len() > 0,
        m.phase == (ScorerPhase::ReadingCtid { doc: docs[0] }),
        m.filter_count <= usize::MAX,
        forall|j: int| 0 <= j < docs.len() ==> docs[j] != spec_terminated(),
        fuel >= docs.len() * (m.filter_count + 2) + m.filter_count + 1,
    ensures
        drive(m, ScorerAction::ReadCtid { doc: docs[0] }, docs.drop_first(), ctid_of, pass, fuel)
            == expected_outcome(docs, ctid_of, pass, m.filter_count),
    decreases docs.len(), 0nat,
{
    let n = m.filter_count;
    let d = docs[0];
    let c = ctid_of(d);
    let rest = docs.drop_first();
    lemma_mul_step(rest.len(), n + 2);
    assert(docs.skip(1) =~= rest);
    assert(answer(ScorerAction::ReadCtid { doc: d }, rest, ctid_of, pass) == (ScorerEvent::CtidRead { ctid: c }, rest));
    if n == 0 {
        assert(passes_all(pass, c, n));
        assert(first_passing(docs, ctid_of, pass, n) == (d, 1nat));
        assert(scorer_transition(m, ScorerEvent::CtidRead { ctid: c }) == (
            positioned_on(d, n),
            ScorerAction::Yield { doc: d },
        ));
        assert(drive(positioned_on(d, n), ScorerAction::Yield { doc: d }, rest, ctid_of, pass, (fuel - 1) as nat) == Some((positioned_on(d, n), d, rest)));
    } else {
        let m2 = ScorerModel { phase: ScorerPhase::Filtering { doc: d, ctid: c, next: 0 }, ..m };
        assert(scorer_transition(m, ScorerEvent::CtidRead { ctid: c }) == (
            m2,
            ScorerAction::EvaluateFilter { index: 0, ctid: c },
        ));
        lemma_filters(m2, d, c, 0, rest, ctid_of, pass, (fuel - 1) as nat);
        if passes_all(pass, c, n) {
            assert(first_passing(docs, ctid_of, pass, n) == (d, 1nat));
        }
        if !passes_all(pass, c, n) {
            let k = steps_to_reject(pass, c, 0, n);
            let m3 = ScorerModel { phase: ScorerPhase::Advancing, ..m2 };
            lemma_advancing(m3, rest, ctid_of, pass, (fuel - 1 - k) as nat);
            let (d2, k2) = first_passing(rest, ctid_of, pass, n);
            lemma_first_passing_consumes(rest, ctid_of, pass, n);
            assert(docs.skip(k2 + 1 as int) =~= rest.skip(k2 as int));
        }
    }
}

/// What the scorer yields on each advance is exactly the next document of
/// the indexed scorer that passes every heap filter: for any documents
/// still to come (none of them the end marker), any ctids and any filter
/// verdicts, a scorer that stands on a document and is asked to advance
/// ends, within a bounded number of steps, standing on the first of those
/// documents whose tuple passes all filters (the end marker when none
/// does), having consumed the indexed scorer's documents up to and
/// including it.
pub proof fn lemma_advance_yields_next_passing(
    m: ScorerModel,
    docs: Seq<u32>,
    ctid_of: spec_fn(u32) -> u64,
    pass: spec_fn(u64, int) -> bool,
    fuel: nat,
)
    requires
        m.phase == ScorerPhase::Positioned,
        m.filter_count <= usize::MAX,
        forall|j: int| 0 <= j < docs.len() ==> docs[j] != spec_terminated(),
        fuel >= (docs.len() + 1) * (m.filter_count + 2),
    ensures
        ({
            let (m1, a1) = scorer_transition(m, ScorerEvent::AdvanceRequested);
            drive(m1, a1, docs, ctid_of, pass, fuel) == expected_outcome(
                docs,
                ctid_of,
                pass,
                m.filter_count,
            )
        }),
{
    let m1 = ScorerModel { phase: ScorerPhase::Advancing, ..m };
    lemma_advancing(m1, docs, ctid_of, pass, fuel);
}

/// A new scorer first stands on the first document of the indexed scorer
/// whose tuple passes every heap filter (the end marker when none does),
/// having consumed the documents up to and including it.
pub proof fn lemma_new_positions_on_first_passing(
    filter_count: usize,
    docs: Seq<u32>,
    ctid_of: spec_fn(u32) -> u64,
    pass: spec_fn(u64, int) -> bool,
    fuel: nat,
)
    requires
        forall|j: int| 0 <= j < docs.len() ==> docs[j] != spec_terminated(),
        fuel >= (docs.len() + 1) * (filter_count + 2),
    ensures
        drive(
            ScorerModel {
                current_doc: spec_terminated(),
                phase: ScorerPhase::Positioning,
                filter_count: filter_count as nat,
            },
            ScorerAction::ReadInnerDoc,
            docs,
            ctid_of,
            pass,
            fuel,
        ) == expected_outcome(docs, ctid_of, pass, filter_count as nat),
{
    let n = filter_count as nat;
    let m0 = ScorerModel { current_doc: spec_terminated(), phase: ScorerPhase::Positioning, filter_count: n };
    lemma_mul_step(docs.len(), n + 2);
    let t = spec_terminated();
    if docs.len() == 0 {
        assert(docs.skip(0) =~= docs);
        let m1 = ScorerModel { phase: ScorerPhase::Advancing, ..m0 };
        assert(answer(ScorerAction::ReadInnerDoc, docs, ctid_of, pass) == (ScorerEvent::InnerDoc { doc: t }, docs));
        assert(scorer_transition(m0, ScorerEvent::InnerDoc { doc: t }) == (m1, ScorerAction::AdvanceInner));
        assert(answer(ScorerAction::AdvanceInner, docs, ctid_of, pass) == (ScorerEvent::InnerDoc { doc: t }, docs));
        assert(scorer_transition(m1, ScorerEvent::InnerDoc { doc: t }) == (positioned_on(t, n), ScorerAction::Yield { doc: t }));
        assert(drive(positioned_on(t, n), ScorerAction::Yield { doc: t }, docs, ctid_of, pass, (fuel - 2) as nat) == Some((positioned_on(t, n), t, docs)));
        assert(drive(m1, ScorerAction::AdvanceInner, docs, ctid_of, pass, (fuel - 1) as nat) == Some((positioned_on(t, n), t, docs)));
    } else {
        let d = docs[0];
        let m1 = ScorerModel { current_doc: d, phase: ScorerPhase::ReadingCtid { doc: d }, ..m0 };
        assert(answer(ScorerAction::ReadInnerDoc, docs, ctid_of, pass) == (ScorerEvent::InnerDoc { doc: d }, docs.drop_first()));
        assert(scorer_transition(m0, ScorerEvent::InnerDoc { doc: d }) == (m1, ScorerAction::ReadCtid { doc: d }));
        lemma_reading(m1, docs, ctid_of, pass, (fuel - 1) as nat);
    }
}


/// Whether a document's tuple passes all `n` heap filters.
pub open spec fn doc_passes(
    ctid_of: spec_fn(u32) -> u64,
    pass: spec_fn(u64, int) -> bool,
    n: nat,
) -> spec_fn(u32) -> bool {
    |d: u32| passes_all(pass, ctid_of(d), n)
}

/// The documents the scorer stands on, one after the other, from `action`
/// on: each time it yields, the yielded document, and then, unless that is
/// the end marker, what it yields when asked to advance, for at most
/// `rounds` yields. Each search runs with enough steps for the documents
/// still to come.
pub open spec fn positions(
    m: ScorerModel,
    action: ScorerAction,
    docs: Seq<u32>,
    ctid_of: spec_fn(u32) -> u64,
    pass: spec_fn(u64, int) -> bool,
    rounds: nat,
) -> Seq<u32>
    decreases rounds,
{
    if rounds == 0 {
        Seq::empty()
    } else {
        match drive(m, action, docs, ctid_of, pass, (docs.len() + 1) * (m.filter_count + 2)) {
            None => Seq::empty(),
            Some((m2, d, rest)) => if d == spec_terminated() {
                seq![d]
            } else {
                let (m3, a3) = scorer_transition(m2, ScorerEvent::AdvanceRequested);
                seq![d] + positions(m3, a3, rest, ctid_of, pass, (rounds - 1) as nat)
            },
        }
    }
}

proof fn lemma_first_passing_shape(
    docs: Seq<u32>,
    ctid_of: spec_fn(u32) -> u64,
    pass: spec_fn(u64, int) -> bool,
    n: nat,
)
    requires
        forall|j: int| 0 <= j < docs.len() ==> docs[j] != spec_terminated(),
    ensures
        ({
            let (d, k) = first_passing(docs, ctid_of, pass, n);
            let p = doc_passes(ctid_of, pass, n);
            &&& d == spec_terminated() ==> docs.filter(p) == Seq::<u32>::empty()
            &&& d != spec_terminated() ==> {
                &&& 1 <= k <= docs.len()
                &&& docs.filter(p) == seq![d] + docs.skip(k as int).filter(p)
            }
        }),
    decreases docs.len(),
{
    let p = doc_passes(ctid_of, pass, n);
    if docs.len() == 0 {
        reveal(Seq::filter);
    } else {
        let rest = docs.drop_first();
        assert(docs =~= seq![docs[0]] + rest);
        rest.lemma_filter_prepend(docs[0], p);
        lemma_first_passing_shape(rest, ctid_of, pass, n);
        lemma_first_passing_consumes(rest, ctid_of, pass, n);
        assert(docs.skip(1) =~= rest);
        if !p(docs[0]) {
            let (d, k) = first_passing(rest, ctid_of, pass, n);
            assert(docs.skip(k + 1 as int) =~= rest.skip(k as int));
            assert(Seq::<u32>::empty() + rest.filter(p) =~= rest.filter(p));
        }
    }
}

proof fn lemma_positions_after_advance(
    m: ScorerModel,
    docs: Seq<u32>,
    ctid_of: spec_fn(u32) -> u64,
    pass: spec_fn(u64, int) -> bool,
    rounds: nat,
)
    requires
        m.phase == ScorerPhase::Positioned,
        m.filter_count <= usize::MAX,
        forall|j: int| 0 <= j < docs.len() ==> docs[j] != spec_terminated(),
        rounds >= docs.len() + 1,
    ensures
        ({
            let (m1, a1) = scorer_transition(m, ScorerEvent::AdvanceRequested);
            positions(m1, a1, docs, ctid_of, pass, rounds) == docs.filter(
                doc_passes(ctid_of, pass, m.filter_count),
            ).push(spec_terminated())
        }),
    decreases docs.len(),
{
    let n = m.filter_count;
    let (m1, a1) = scorer_transition(m, ScorerEvent::AdvanceRequested);
    let p = doc_passes(ctid_of, pass, n);
    lemma_advance_yields_next_passing(m, docs, ctid_of, pass, (docs.len() + 1) * (n + 2));
    lemma_first_passing_shape(docs, ctid_of, pass, n);
    let (d, k) = first_passing(docs, ctid_of, pass, n);
    if d == spec_terminated() {
        assert(Seq::<u32>::empty().push(spec_terminated()) =~= seq![spec_terminated()]);
    } else {
        let rest = docs.skip(k as int);
        let m2 = positioned_on(d, n);
        assert forall|j: int| 0 <= j < rest.len() implies rest[j] != spec_terminated() by {
            assert(rest[j] == docs[j + k]);
        }
        lemma_positions_after_advance(m2, rest, ctid_of, pass, (rounds - 1) as nat);
        assert(seq![d] + rest.filter(p).push(spec_terminated()) =~= (seq![d] + rest.filter(p)).push(
            spec_terminated(),
        ));
    }
}

/// Over its whole life the scorer stands on exactly the documents of the
/// indexed scorer whose tuples pass every heap filter, in the indexed
/// scorer's order, and then on the end marker: for any documents (none of
/// them the end marker), any ctids and any filter verdicts, the position of
/// a new scorer followed by what each advance yields is those documents
/// filtered by the heap filters, then the end marker; nothing is added,
/// dropped or reordered.
pub proof fn lemma_scorer_yields_passing_docs(
    filter_count: usize,
    docs: Seq<u32>,
    ctid_of: spec_fn(u32) -> u64,
    pass: spec_fn(u64, int) -> bool,
)
    requires
        forall|j: int| 0 <= j < docs.len() ==> docs[j] != spec_terminated(),
    ensures
        positions(
            ScorerModel {
                current_doc: spec_terminated(),
                phase: ScorerPhase::Positioning,
                filter_count: filter_count as nat,
            },
            ScorerAction::ReadInnerDoc,
            docs,
            ctid_of,
            pass,
            docs.len() + 1,
        ) == docs.filter(doc_passes(ctid_of, pass, filter_count as nat)).push(spec_terminated()),
{
    let n = filter_count as nat;
    let p = doc_passes(ctid_of, pass, n);
    lemma_new_positions_on_first_passing(filter_count, docs, ctid_of, pass, (docs.len() + 1) * (n + 2));
    lemma_first_passing_shape(docs, ctid_of, pass, n);
    let (d, k) = first_passing(docs, ctid_of, pass, n);
    if d == spec_terminated() {
        assert(Seq::<u32>::empty().push(spec_terminated()) =~= seq![spec_terminated()]);
    } else {
        let rest = docs.skip(k as int);
        let m2 = positioned_on(d, n);
        assert forall|j: int| 0 <= j < rest.len() implies rest[j] != spec_terminated() by {
            assert(rest[j] == docs[j + k]);
        }
        lemma_positions_after_advance(m2, rest, ctid_of, pass, docs.len());
        assert(seq![d] + rest.filter(p).push(spec_terminated()) =~= (seq![d] + rest.filter(p)).push(
            spec_terminated(),
        ));
    }
}

} // verus!
