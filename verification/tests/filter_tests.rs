use pg_search::filter::{EvalAction, EvalEvent, EvalState, HeapFieldFilter};

/// Runs one evaluation against a scripted executor and returns the actions.
fn run(
    filter: &mut HeapFieldFilter,
    found: bool,
    context_is_null: bool,
    built: usize,
    value: Option<bool>,
) -> Vec<EvalAction> {
    let mut actions = Vec::new();
    let (mut state, mut action) = filter.evaluate(EvalState::Idle, EvalEvent::Begin);
    actions.push(action);
    while !matches!(action, EvalAction::Finish { .. }) {
        let event = match action {
            EvalAction::FetchTuple => EvalEvent::TupleFetched { found },
            EvalAction::CreateContext => EvalEvent::ContextCreated { is_null: context_is_null },
            EvalAction::InitializeExpression => EvalEvent::ExpressionInitialized { expr_state: built },
            EvalAction::EvaluateExpression { .. } => EvalEvent::ValueComputed { value },
            EvalAction::Finish { .. } => unreachable!(),
        };
        let (s, a) = filter.evaluate(state, event);
        state = s;
        action = a;
        actions.push(action);
    }
    assert!(matches!(state, EvalState::Finished(_)));
    actions
}

fn verdict(actions: &[EvalAction]) -> bool {
    match actions.last() {
        Some(EvalAction::Finish { result, .. }) => *result,
        _ => panic!("evaluation did not finish"),
    }
}

#[test]
fn new_filter_keeps_node_and_description() {
    let f = HeapFieldFilter::new(0x1000, "price > 10".to_string());
    assert_eq!(f.get_expression_node(), 0x1000);
    assert_eq!(f.description, "price > 10");
    assert_eq!(f.initialized_expression(), None);
}

#[test]
fn null_expression_node_passes_without_touching_the_heap() {
    let mut f = HeapFieldFilter::new(0, "none".to_string());
    let actions = run(&mut f, false, true, 0, None);
    assert_eq!(
        actions,
        vec![EvalAction::Finish { free_context: false, release_fetch: false, result: true }]
    );
}

#[test]
fn invisible_tuple_fails_and_releases_the_fetch() {
    let mut f = HeapFieldFilter::new(0x10, "x".to_string());
    let actions = run(&mut f, false, false, 0x20, Some(true));
    assert_eq!(
        actions,
        vec![
            EvalAction::FetchTuple,
            EvalAction::Finish { free_context: false, release_fetch: true, result: false },
        ]
    );
    assert_eq!(f.initialized_expression(), None);
}

#[test]
fn missing_context_fails() {
    let mut f = HeapFieldFilter::new(0x10, "x".to_string());
    let actions = run(&mut f, true, true, 0x20, Some(true));
    assert_eq!(
        actions,
        vec![
            EvalAction::FetchTuple,
            EvalAction::CreateContext,
            EvalAction::Finish { free_context: false, release_fetch: true, result: false },
        ]
    );
}

#[test]
fn true_expression_passes_and_caches_the_state() {
    let mut f = HeapFieldFilter::new(0x10, "x".to_string());
    let actions = run(&mut f, true, false, 0x20, Some(true));
    assert_eq!(
        actions,
        vec![
            EvalAction::FetchTuple,
            EvalAction::CreateContext,
            EvalAction::InitializeExpression,
            EvalAction::EvaluateExpression { expr_state: 0x20 },
            EvalAction::Finish { free_context: true, release_fetch: true, result: true },
        ]
    );
    assert_eq!(f.initialized_expression(), Some(0x20));
}

#[test]
fn cached_state_is_reused_without_initializing_again() {
    let mut f = HeapFieldFilter::new(0x10, "x".to_string());
    run(&mut f, true, false, 0x20, Some(true));
    let actions = run(&mut f, true, false, 0x99, Some(false));
    assert_eq!(
        actions,
        vec![
            EvalAction::FetchTuple,
            EvalAction::CreateContext,
            EvalAction::EvaluateExpression { expr_state: 0x20 },
            EvalAction::Finish { free_context: true, release_fetch: true, result: false },
        ]
    );
    assert_eq!(f.initialized_expression(), Some(0x20));
}

#[test]
fn null_expression_state_fails_and_is_not_cached() {
    let mut f = HeapFieldFilter::new(0x10, "x".to_string());
    let actions = run(&mut f, true, false, 0, Some(true));
    assert_eq!(
        actions,
        vec![
            EvalAction::FetchTuple,
            EvalAction::CreateContext,
            EvalAction::InitializeExpression,
            EvalAction::Finish { free_context: true, release_fetch: true, result: false },
        ]
    );
    assert_eq!(f.initialized_expression(), None);
    // The next evaluation tries to initialize again.
    let actions = run(&mut f, true, false, 0x30, Some(true));
    assert_eq!(actions[2], EvalAction::InitializeExpression);
    assert!(verdict(&actions));
}

#[test]
fn null_or_false_value_fails() {
    let mut f = HeapFieldFilter::new(0x10, "x".to_string());
    assert!(!verdict(&run(&mut f, true, false, 0x20, None)));
    assert!(!verdict(&run(&mut f, true, false, 0x20, Some(false))));
    assert!(verdict(&run(&mut f, true, false, 0x20, Some(true))));
}

#[test]
fn every_finished_evaluation_releases_what_it_took() {
    for &found in &[false, true] {
        for &ctx_null in &[false, true] {
            for &built in &[0usize, 7] {
                for &value in &[None, Some(false), Some(true)] {
                    let mut f = HeapFieldFilter::new(0x10, "x".to_string());
                    let actions = run(&mut f, found, ctx_null, built, value);
                    let begun = actions.iter().filter(|a| **a == EvalAction::FetchTuple).count();
                    match actions.last().unwrap() {
                        EvalAction::Finish { free_context, release_fetch, .. } => {
                            assert_eq!(*release_fetch, begun == 1);
                            assert_eq!(*free_context, found && !ctx_null);
                        }
                        _ => unreachable!(),
                    }
                }
            }
        }
    }
}

#[test]
fn cloned_filter_keeps_its_cache() {
    let mut f = HeapFieldFilter::new(0x10, "x".to_string());
    run(&mut f, true, false, 0x20, Some(true));
    let g = f.clone();
    assert_eq!(g.initialized_expression(), Some(0x20));
    assert_eq!(g.get_expression_node(), 0x10);
}

#[test]
fn description_getter_and_equality() {
    let f = HeapFieldFilter::new(0x10, "a = 1".to_string());
    assert_eq!(f.description(), "a = 1");
    let g = HeapFieldFilter::new(0x10, "a = 1".to_string());
    assert_eq!(f, g);
    assert_ne!(f, HeapFieldFilter::new(0x11, "a = 1".to_string()));
    assert_ne!(f, HeapFieldFilter::new(0x10, "a = 2".to_string()));
}

#[test]
fn repeated_evaluation_gives_the_same_verdict() {
    for &found in &[false, true] {
        for &ctx_null in &[false, true] {
            for &built in &[0usize, 7] {
                for &value in &[None, Some(false), Some(true)] {
                    let mut f = HeapFieldFilter::new(0x10, "x".to_string());
                    let first = run(&mut f, found, ctx_null, built, value);
                    let second = run(&mut f, found, ctx_null, built, value);
                    assert_eq!(first.last(), second.last());
                    assert_ne!(f.initialized_expression(), Some(0));
                }
            }
        }
    }
}
