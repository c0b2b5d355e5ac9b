use pg_search::scorer::{HeapFilterScorer, ScorerAction, ScorerEvent};

const TERMINATED: u32 = 2147483647;

/// A scripted indexed scorer and heap: the indexed scorer hands out `docs`,
/// the ctid of a doc is `doc * 10`, and filter `i` passes ctid `c` when
/// `pass(c, i)`.
struct World<'a> {
    docs: Vec<u32>,
    pos: usize,
    pass: &'a dyn Fn(u64, usize) -> bool,
    filter_calls: Vec<(usize, u64)>,
}

impl<'a> World<'a> {
    fn answer(&mut self, action: ScorerAction) -> ScorerEvent {
        match action {
            ScorerAction::ReadInnerDoc | ScorerAction::AdvanceInner => {
                let doc = if self.pos < self.docs.len() { self.docs[self.pos] } else { TERMINATED };
                if self.pos < self.docs.len() {
                    self.pos += 1;
                }
                ScorerEvent::InnerDoc { doc }
            }
            ScorerAction::ReadCtid { doc } => ScorerEvent::CtidRead { ctid: doc as u64 * 10 },
            ScorerAction::EvaluateFilter { index, ctid } => {
                self.filter_calls.push((index, ctid));
                ScorerEvent::FilterEvaluated { passed: (self.pass)(ctid, index) }
            }
            ScorerAction::Yield { .. } => unreachable!(),
        }
    }

    fn settle(&mut self, scorer: &mut HeapFilterScorer, mut action: ScorerAction) -> u32 {
        loop {
            if let ScorerAction::Yield { doc } = action {
                assert_eq!(scorer.doc(), doc);
                return doc;
            }
            let event = self.answer(action);
            action = scorer.step(event);
        }
    }
}

fn collect(docs: Vec<u32>, n: usize, pass: &dyn Fn(u64, usize) -> bool) -> (Vec<u32>, Vec<(usize, u64)>) {
    let mut world = World { docs, pos: 0, pass, filter_calls: Vec::new() };
    let (mut scorer, action) = HeapFilterScorer::new(n);
    assert_eq!(scorer.doc(), TERMINATED);
    let mut out = vec![world.settle(&mut scorer, action)];
    while *out.last().unwrap() != TERMINATED {
        let action = scorer.step(ScorerEvent::AdvanceRequested);
        out.push(world.settle(&mut scorer, action));
    }
    (out, world.filter_calls)
}

#[test]
fn terminated_is_the_tantivy_sentinel() {
    let (scorer, _) = HeapFilterScorer::new(2);
    assert_eq!(scorer.doc(), i32::MAX as u32);
}

#[test]
fn keeps_only_passing_docs_in_order() {
    // filter 0: ctid divisible by 20 (even docs); filter 1: doc != 4
    let pass = |c: u64, i: usize| if i == 0 { c % 20 == 0 } else { c != 40 };
    let (out, _) = collect(vec![1, 2, 3, 4, 5, 6, 8], 2, &pass);
    assert_eq!(out, vec![2, 6, 8, TERMINATED]);
}

#[test]
fn without_filters_every_doc_is_kept() {
    let pass = |_c: u64, _i: usize| false;
    let (out, calls) = collect(vec![3, 7, 9], 0, &pass);
    assert_eq!(out, vec![3, 7, 9, TERMINATED]);
    assert!(calls.is_empty());
}

#[test]
fn empty_indexed_scorer_ends_at_once() {
    let pass = |_c: u64, _i: usize| true;
    let (out, _) = collect(vec![], 3, &pass);
    assert_eq!(out, vec![TERMINATED]);
}

#[test]
fn no_passing_doc_ends_with_terminated() {
    let pass = |_c: u64, _i: usize| false;
    let (out, _) = collect(vec![1, 2, 3], 1, &pass);
    assert_eq!(out, vec![TERMINATED]);
}

#[test]
fn first_failing_filter_stops_the_evaluation() {
    // filter 1 fails for doc 5; filters 0..3 otherwise pass
    let pass = |c: u64, i: usize| !(c == 50 && i == 1);
    let (out, calls) = collect(vec![5, 6], 3, &pass);
    assert_eq!(out, vec![6, TERMINATED]);
    assert_eq!(calls, vec![(0, 50), (1, 50), (0, 60), (1, 60), (2, 60)]);
}

#[test]
fn first_doc_that_fails_is_skipped_on_creation() {
    let pass = |c: u64, _i: usize| c != 10;
    let (out, _) = collect(vec![1, 2], 1, &pass);
    assert_eq!(out, vec![2, TERMINATED]);
}

#[test]
fn step_reports_positions() {
    let (mut scorer, action) = HeapFilterScorer::new(1);
    assert_eq!(action, ScorerAction::ReadInnerDoc);
    assert_eq!(scorer.filter_count(), 1);
    assert_eq!(scorer.step(ScorerEvent::InnerDoc { doc: 4 }), ScorerAction::ReadCtid { doc: 4 });
    assert_eq!(scorer.doc(), 4);
    assert_eq!(
        scorer.step(ScorerEvent::CtidRead { ctid: 99 }),
        ScorerAction::EvaluateFilter { index: 0, ctid: 99 }
    );
    assert_eq!(scorer.step(ScorerEvent::FilterEvaluated { passed: true }), ScorerAction::Yield { doc: 4 });
    assert_eq!(scorer.step(ScorerEvent::AdvanceRequested), ScorerAction::AdvanceInner);
    assert_eq!(
        scorer.step(ScorerEvent::InnerDoc { doc: TERMINATED }),
        ScorerAction::Yield { doc: TERMINATED }
    );
    assert_eq!(scorer.doc(), TERMINATED);
}
