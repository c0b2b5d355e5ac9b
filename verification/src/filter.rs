use vstd::prelude::*;

verus! {

/// A filter that is decided by evaluating a stored PostgreSQL expression
/// against the heap tuple of a document.
///
/// The expression node and the expression state that the executor builds
/// from it are held by their addresses; `0` is the null pointer.
#[derive(Clone, Debug, PartialEq)]
pub struct HeapFieldFilter {
    expr_node: usize,
    /// Human-readable description of the expression.
    pub description: String,
    initialized_expression: Option<usize>,
}

/// What a `HeapFieldFilter` holds, as plain values.
pub struct FilterModel {
    pub expr_node: usize,
    pub description: Seq<char>,
    pub initialized_expression: Option<usize>,
}

impl View for HeapFieldFilter {
    type V = FilterModel;

    closed spec fn view(&self) -> FilterModel {
        FilterModel {
            expr_node: self.expr_node,
            description: self.description@,
            initialized_expression: self.initialized_expression,
        }
    }
}

/// Whether the filter's cache never holds a null expression state: it holds
/// nothing, or a state the executor built. `HeapFieldFilter::new` makes
/// well-formed filters and `HeapFieldFilter::evaluate` keeps them so.
pub open spec fn well_formed(m: FilterModel) -> bool {
    m.initialized_expression != Some(0usize)
}

/// Where one evaluation of a filter stands.
#[derive(Clone, Copy, Debug, PartialEq, Eq, Structural)]
pub enum EvalState {
    /// Nothing has been done yet.
    Idle,
    /// The heap fetch has begun; the answer of the tuple fetch is awaited.
    AwaitingTuple,
    /// The tuple is in the slot; the expression context is being created.
    AwaitingContext,
    /// The context exists; the executor is initializing the expression.
    AwaitingExpression,
    /// The expression is being evaluated against the tuple.
    AwaitingValue,
    /// The evaluation is over, with this outcome.
    Finished(bool),
}

/// What the executor reports back to the filter.
#[derive(Clone, Copy, Debug, PartialEq, Eq, Structural)]
pub enum EvalEvent {
    /// Start evaluating.
    Begin,
    /// The tuple fetch answered whether a visible tuple was found.
    TupleFetched { found: bool },
    /// The standalone expression context was created; `is_null` when the
    /// executor gave back no context.
    ContextCreated { is_null: bool },
    /// The executor initialized the expression; the address of the state
    /// it built (`0` when it built none).
    ExpressionInitialized { expr_state: usize },
    /// The expression was evaluated; its value as a boolean, `None` when
    /// it was SQL `NULL` or not a boolean.
    ValueComputed { value: Option<bool> },
}

/// What the filter asks the executor to do next.
#[derive(Clone, Copy, Debug, PartialEq, Eq, Structural)]
pub enum EvalAction {
    /// Begin an index fetch on the heap relation, make a slot in the shape
    /// of the table and fetch the tuple at the document's ctid with the
    /// active snapshot.
    FetchTuple,
    /// Create a standalone expression context whose scan tuple is the slot.
    CreateContext,
    /// Initialize the expression node in the top transaction memory context.
    InitializeExpression,
    /// Evaluate the expression state at this address in the context.
    EvaluateExpression { expr_state: usize },
    /// Free the expression context (when `free_context`), drop the slot and
    /// end the fetch (when `release_fetch`), and answer `result`.
    Finish { free_context: bool, release_fetch: bool, result: bool },
}

/// The pairs of state and event that the evaluation protocol admits.
pub open spec fn accepts(state: EvalState, event: EvalEvent) -> bool {
    match (state, event) {
        (EvalState::Idle, EvalEvent::Begin) => true,
        (EvalState::AwaitingTuple, EvalEvent::TupleFetched { .. }) => true,
        (EvalState::AwaitingContext, EvalEvent::ContextCreated { .. }) => true,
        (EvalState::AwaitingExpression, EvalEvent::ExpressionInitialized { .. }) => true,
        (EvalState::AwaitingValue, EvalEvent::ValueComputed { .. }) => true,
        _ => false,
    }
}

/// The last step of an evaluation that holds the fetch and the context
/// and fails.
pub open spec fn fail_with_context() -> EvalAction {
    EvalAction::Finish { free_context: true, release_fetch: true, result: false }
}

/// One step of the evaluation: from the cached expression state, the
/// current state and the event, the new cached expression state, the new
/// state and the action.
pub open spec fn transition(
    expr_node: usize,
    cached: Option<usize>,
    state: EvalState,
    event: EvalEvent,
) -> (Option<usize>, EvalState, EvalAction) {
    match (state, event) {
        (EvalState::Idle, EvalEvent::Begin) => if expr_node == 0 {
            (
                cached,
                EvalState::Finished(true),
                EvalAction::Finish { free_context: false, release_fetch: false, result: true },
            )
        } else {
            (cached, EvalState::AwaitingTuple, EvalAction::FetchTuple)
        },
        (EvalState::AwaitingTuple, EvalEvent::TupleFetched { found }) => if found {
            (cached, EvalState::AwaitingContext, EvalAction::CreateContext)
        } else {
            (
                cached,
                EvalState::Finished(false),
                EvalAction::Finish { free_context: false, release_fetch: true, result: false },
            )
        },
        (EvalState::AwaitingContext, EvalEvent::ContextCreated { is_null }) => if is_null {
            (
                cached,
                EvalState::Finished(false),
                EvalAction::Finish { free_context: false, release_fetch: true, result: false },
            )
        } else {
            match cached {
                None => (cached, EvalState::AwaitingExpression, EvalAction::InitializeExpression),
                Some(s) => if s == 0 {
                    (None, EvalState::Finished(false), fail_with_context())
                } else {
                    (cached, EvalState::AwaitingValue, EvalAction::EvaluateExpression { expr_state: s })
                },
            }
        },
        (EvalState::AwaitingExpression, EvalEvent::ExpressionInitialized { expr_state }) => if expr_state == 0 {
            (None, EvalState::Finished(false), fail_with_context())
        } else {
            (
                Some(expr_state),
                EvalState::AwaitingValue,
                EvalAction::EvaluateExpression { expr_state },
            )
        },
        (EvalState::AwaitingValue, EvalEvent::ValueComputed { value }) => {
            let result = value == Some(true);
            (
                cached,
                EvalState::Finished(result),
                EvalAction::Finish { free_context: true, release_fetch: true, result },
            )
        },
        _ => (cached, state, EvalAction::Finish { free_context: false, release_fetch: false, result: false }),
    }
}

impl HeapFieldFilter {
    /// Create a filter from the address of an expression node and its
    /// description. No expression state is cached yet.
    pub fn new(expr_node: usize, expr_desc: String) -> (r: Self)
        ensures
            r@.expr_node == expr_node,
            r@.description == expr_desc@,
            r@.initialized_expression is None,
            well_formed(r@),
    {
        HeapFieldFilter { expr_node, description: expr_desc, initialized_expression: None }
    }

    /// The description of the expression.
    pub fn description(&self) -> (r: &String)
        ensures
            r@ == self@.description,
    {
        &self.description
    }

    /// The address of the expression node.
    pub fn get_expression_node(&self) -> (r: usize)
        ensures
            r == self@.expr_node,
    {
        self.expr_node
    }

    /// The expression state cached by an earlier evaluation, if any.
    pub fn initialized_expression(&self) -> (r: Option<usize>)
        ensures
            r == self@.initialized_expression,
    {
        self.initialized_expression
    }

    /// Advance one evaluation of this filter against a heap tuple by one
    /// step: take what the executor reported and say what it must do next.
    ///
    /// An evaluation starts in `Idle` with `Begin` and ends when the action
    /// is `Finish`, whose `result` is the filter's verdict. A null
    /// expression node passes every tuple; a tuple that is not visible, a
    /// missing context or a missing expression state fails it; otherwise
    /// the tuple passes exactly when the expression is `true`. The
    /// expression state is initialized once and cached for later
    /// evaluations; a null one is not kept.
    pub fn evaluate(&mut self, state: EvalState, event: EvalEvent) -> (r: (EvalState, EvalAction))
        requires
            accepts(state, event),
        ensures
            final(self)@.expr_node == old(self)@.expr_node,
            final(self)@.description == old(self)@.description,
            well_formed(old(self)@) ==> well_formed(final(self)@),
            (final(self)@.initialized_expression, r.0, r.1) == transition(
                old(self)@.expr_node,
                old(self)@.initialized_expression,
                state,
                event,
            ),
    {
        match state {
            EvalState::Idle => {
                if self.expr_node == 0 {
                    (
                        EvalState::Finished(true),
                        EvalAction::Finish { free_context: false, release_fetch: false, result: true },
                    )
                } else {
                    (EvalState::AwaitingTuple, EvalAction::FetchTuple)
                }
            },
            EvalState::AwaitingTuple => {
                let found = match event {
                    EvalEvent::TupleFetched { found } => found,
                    _ => false,
                };
                if found {
                    (EvalState::AwaitingContext, EvalAction::CreateContext)
                } else {
                    (
                        EvalState::Finished(false),
                        EvalAction::Finish { free_context: false, release_fetch: true, result: false },
                    )
                }
            },
            EvalState::AwaitingContext => {
                let is_null = match event {
                    EvalEvent::ContextCreated { is_null } => is_null,
                    _ => true,
                };
                if is_null {
                    (
                        EvalState::Finished(false),
                        EvalAction::Finish { free_context: false, release_fetch: true, result: false },
                    )
                } else {
                    match self.initialized_expression {
                        None => (EvalState::AwaitingExpression, EvalAction::InitializeExpression),
                        Some(s) => {
                            if s == 0 {
                                self.initialized_expression = None;
                                (
                                    EvalState::Finished(false),
                                    EvalAction::Finish {
                                        free_context: true,
                                        release_fetch: true,
                                        result: false,
                                    },
                                )
                            } else {
                                (EvalState::AwaitingValue, EvalAction::EvaluateExpression { expr_state: s })
                            }
                        },
                    }
                }
            },
            EvalState::AwaitingExpression => {
                let expr_state = match event {
                    EvalEvent::ExpressionInitialized { expr_state } => expr_state,
                    _ => 0,
                };
                if expr_state == 0 {
                    self.initialized_expression = None;
                    (
                        EvalState::Finished(false),
                        EvalAction::Finish { free_context: true, release_fetch: true, result: false },
                    )
                } else {
                    self.initialized_expression = Some(expr_state);
                    (EvalState::AwaitingValue, EvalAction::EvaluateExpression { expr_state })
                }
            },
            EvalState::AwaitingValue => {
                let value = match event {
                    EvalEvent::ValueComputed { value } => value,
                    _ => None,
                };
                let result = match value {
                    Some(b) => b,
                    None => false,
                };
                (
                    EvalState::Finished(result),
                    EvalAction::Finish { free_context: true, release_fetch: true, result },
                )
            },
            EvalState::Finished(b) => {
                (EvalState::Finished(b), EvalAction::Finish { free_context: false, release_fetch: false, result: false })
            },
        }
    }
}


/// Whether the heap fetch (scan and slot) is held in this state.
pub open spec fn holds_fetch(state: EvalState) -> bool {
    match state {
        EvalState::AwaitingTuple | EvalState::AwaitingContext | EvalState::AwaitingExpression
        | EvalState::AwaitingValue => true,
        _ => false,
    }
}

/// Whether an expression context is held in this state.
pub open spec fn holds_context(state: EvalState) -> bool {
    match state {
        EvalState::AwaitingExpression | EvalState::AwaitingValue => true,
        _ => false,
    }
}

/// Whether the event reports a context that the executor created.
pub open spec fn creates_context(event: EvalEvent) -> bool {
    event matches EvalEvent::ContextCreated { is_null } && !is_null
}

/// Each step of an evaluation keeps what it holds in balance. A step
/// finishes exactly when its action is `Finish`; that action releases the
/// fetch exactly when the fetch is held, and frees the context exactly when
/// one is held or was just created. A step that does not finish carries
/// what is held forward, and holds the fetch from the moment it asks for it.
pub proof fn lemma_step_keeps_resources_balanced(
    expr_node: usize,
    cached: Option<usize>,
    state: EvalState,
    event: EvalEvent,
)
    requires
        accepts(state, event),
    ensures
        ({
            let (c2, s2, a) = transition(expr_node, cached, state, event);
            &&& (a is Finish) <==> (s2 is Finished)
            &&& a matches EvalAction::Finish { free_context, release_fetch, .. } ==> {
                &&& release_fetch == holds_fetch(state)
                &&& free_context == (holds_context(state) || creates_context(event))
            }
            &&& !(a is Finish) ==> {
                &&& holds_fetch(s2) == (holds_fetch(state) || a is FetchTuple)
                &&& holds_context(s2) == (holds_context(state) || creates_context(event))
            }
        }),
{
}

/// A step answers `true` only in two ways: the expression node is null, so
/// the filter passes without touching the heap, or the expression was
/// evaluated against the fetched tuple and its value was `true`. The
/// finished state carries the same answer as the `Finish` action.
pub proof fn lemma_step_verdict(
    expr_node: usize,
    cached: Option<usize>,
    state: EvalState,
    event: EvalEvent,
)
    requires
        accepts(state, event),
    ensures
        ({
            let (c2, s2, a) = transition(expr_node, cached, state, event);
            &&& a matches EvalAction::Finish { result, .. } ==> s2 == EvalState::Finished(result)
            &&& s2 == EvalState::Finished(true) <==> {
                ||| state is Idle && expr_node == 0
                ||| state is AwaitingValue && event == (EvalEvent::ValueComputed { value: Some(true) })
            }
        }),
{
}

/// The cached expression state comes only from the executor: it changes
/// only when the executor reports a state, or when a cached null state is
/// dropped; it is never set to null. The expression is initialized only
/// when nothing is cached (and the evaluation waits for it only then), and
/// a cached state is reused as it is.
pub proof fn lemma_step_caches_expression(
    expr_node: usize,
    cached: Option<usize>,
    state: EvalState,
    event: EvalEvent,
)
    requires
        accepts(state, event),
    ensures
        ({
            let (c2, s2, a) = transition(expr_node, cached, state, event);
            &&& cached != Some(0usize) ==> c2 != Some(0usize)
            &&& c2 != cached ==> {
                ||| event matches EvalEvent::ExpressionInitialized { expr_state } && (c2 == Some(
                    expr_state,
                ) || c2 is None)
                ||| cached == Some(0usize) && c2 is None
            }
            &&& a is InitializeExpression ==> cached is None
            &&& s2 is AwaitingExpression ==> c2 is None
            &&& (cached matches Some(p) && p != 0) && !(state is AwaitingExpression) ==> c2 == cached
        }),
{
}

/// The expression that is evaluated is exactly the one the filter holds:
/// a step that asks to evaluate an expression state names either the state
/// the executor has just reported building, or the non-null state already
/// in the cache, unchanged; after that step the cache holds that very state.
/// Conversely, a freshly built non-null state, or a cached non-null state
/// met with a created context, is what gets evaluated.
pub proof fn lemma_step_evaluates_the_held_state(
    expr_node: usize,
    cached: Option<usize>,
    state: EvalState,
    event: EvalEvent,
)
    requires
        accepts(state, event),
    ensures
        ({
            let (c2, s2, a) = transition(expr_node, cached, state, event);
            &&& a matches EvalAction::EvaluateExpression { expr_state } ==> {
                &&& expr_state != 0
                &&& c2 == Some(expr_state)
                &&& s2 is AwaitingValue
                &&& {
                    ||| event == (EvalEvent::ExpressionInitialized { expr_state })
                    ||| cached == Some(expr_state) && event == (EvalEvent::ContextCreated {
                        is_null: false,
                    })
                }
            }
            &&& event matches EvalEvent::ExpressionInitialized { expr_state } ==> (expr_state != 0
                ==> a == (EvalAction::EvaluateExpression { expr_state }))
            &&& cached matches Some(p) ==> ((p != 0 && state is AwaitingContext && event == (
            EvalEvent::ContextCreated { is_null: false })) ==> a == (EvalAction::EvaluateExpression {
                expr_state: p,
            }))
        }),
{
}

/// The events of a run that the protocol admits, one after the other.
pub open spec fn valid_run(
    expr_node: usize,
    cached: Option<usize>,
    state: EvalState,
    events: Seq<EvalEvent>,
) -> bool
    decreases events.len(),
{
    if events.len() == 0 {
        true
    } else {
        let (c, s, a) = transition(expr_node, cached, state, events[0]);
        accepts(state, events[0]) && valid_run(expr_node, c, s, events.drop_first())
    }
}

/// The cache, the state and the actions after a run of events.
pub open spec fn run(
    expr_node: usize,
    cached: Option<usize>,
    state: EvalState,
    events: Seq<EvalEvent>,
) -> (Option<usize>, EvalState, Seq<EvalAction>)
    decreases events.len(),
{
    if events.len() == 0 {
        (cached, state, Seq::empty())
    } else {
        let (c, s, a) = transition(expr_node, cached, state, events[0]);
        let (c2, s2, actions) = run(expr_node, c, s, events.drop_first());
        (c2, s2, seq![a] + actions)
    }
}

/// How many heap fetches the actions begin.
pub open spec fn fetches_begun(actions: Seq<EvalAction>) -> nat
    decreases actions.len(),
{
    if actions.len() == 0 {
        0
    } else {
        (if actions[0] is FetchTuple { 1nat } else { 0nat }) + fetches_begun(actions.drop_first())
    }
}

/// How many heap fetches the actions release.
pub open spec fn fetches_released(actions: Seq<EvalAction>) -> nat
    decreases actions.len(),
{
    if actions.len() == 0 {
        0
    } else {
        (if actions[0] matches EvalAction::Finish { release_fetch, .. } && release_fetch {
            1nat
        } else {
            0nat
        }) + fetches_released(actions.drop_first())
    }
}

/// How many expression contexts the events report as created.
pub open spec fn contexts_created(events: Seq<EvalEvent>) -> nat
    decreases events.len(),
{
    if events.len() == 0 {
        0
    } else {
        (if creates_context(events[0]) { 1nat } else { 0nat }) + contexts_created(events.drop_first())
    }
}

/// How many expression contexts the actions free.
pub open spec fn contexts_freed(actions: Seq<EvalAction>) -> nat
    decreases actions.len(),
{
    if actions.len() == 0 {
        0
    } else {
        (if actions[0] matches EvalAction::Finish { free_context, .. } && free_context {
            1nat
        } else {
            0nat
        }) + contexts_freed(actions.drop_first())
    }
}

proof fn lemma_run_ledger(
    expr_node: usize,
    cached: Option<usize>,
    state: EvalState,
    events: Seq<EvalEvent>,
)
    requires
        valid_run(expr_node, cached, state, events),
    ensures
        ({
            let (c2, s2, actions) = run(expr_node, cached, state, events);
            &&& actions.len() == events.len()
            &&& fetches_begun(actions) + (if holds_fetch(state) { 1nat } else { 0nat })
                == fetches_released(actions) + (if holds_fetch(s2) { 1nat } else { 0nat })
            &&& contexts_created(events) + (if holds_context(state) { 1nat } else { 0nat })
                == contexts_freed(actions) + (if holds_context(s2) { 1nat } else { 0nat })
        }),
    decreases events.len(),
{
    if events.len() > 0 {
        let (c, s, a) = transition(expr_node, cached, state, events[0]);
        lemma_step_keeps_resources_balanced(expr_node, cached, state, events[0]);
        lemma_run_ledger(expr_node, c, s, events.drop_first());
        let (c2, s2, rest) = run(expr_node, c, s, events.drop_first());
        assert((seq![a] + rest).drop_first() =~= rest);
        assert((seq![a] + rest)[0] == a);
    }
}

/// A whole evaluation gives back what it takes: once a run of admitted
/// events that starts in `Idle` has finished, it has released as many heap
/// fetches as it began, and freed as many expression contexts as the
/// executor created.
pub proof fn lemma_evaluation_releases_all(
    expr_node: usize,
    cached: Option<usize>,
    events: Seq<EvalEvent>,
)
    requires
        valid_run(expr_node, cached, EvalState::Idle, events),
        run(expr_node, cached, EvalState::Idle, events).1 is Finished,
    ensures
        ({
            let actions = run(expr_node, cached, EvalState::Idle, events).2;
            &&& fetches_begun(actions) == fetches_released(actions)
            &&& contexts_created(events) == contexts_freed(actions)
        }),
{
    lemma_run_ledger(expr_node, cached, EvalState::Idle, events);
}


/// How the executor answers an action: the fetch finds the tuple when
/// `found`, the context comes back null when `context_is_null`, the
/// initialization builds the state at `built`, and the evaluation gives
/// `value`.
pub open spec fn executor_answer(
    action: EvalAction,
    found: bool,
    context_is_null: bool,
    built: usize,
    value: Option<bool>,
) -> EvalEvent {
    match action {
        EvalAction::FetchTuple => EvalEvent::TupleFetched { found },
        EvalAction::CreateContext => EvalEvent::ContextCreated { is_null: context_is_null },
        EvalAction::InitializeExpression => EvalEvent::ExpressionInitialized { expr_state: built },
        EvalAction::EvaluateExpression { .. } => EvalEvent::ValueComputed { value },
        EvalAction::Finish { .. } => EvalEvent::Begin,
    }
}

/// Run an evaluation against those answers from `action` on, for at most
/// `fuel` steps: the cached expression state and the last action.
pub open spec fn drive_evaluation(
    expr_node: usize,
    cached: Option<usize>,
    state: EvalState,
    action: EvalAction,
    found: bool,
    context_is_null: bool,
    built: usize,
    value: Option<bool>,
    fuel: nat,
) -> (Option<usize>, EvalAction)
    decreases fuel,
{
    if action is Finish || fuel == 0 {
        (cached, action)
    } else {
        let event = executor_answer(action, found, context_is_null, built, value);
        let (c2, s2, a2) = transition(expr_node, cached, state, event);
        drive_evaluation(
            expr_node,
            c2,
            s2,
            a2,
            found,
            context_is_null,
            built,
            value,
            (fuel - 1) as nat,
        )
    }
}

/// A whole evaluation of a filter against one heap tuple, started from
/// `Idle` with `Begin` and run against the executor's answers: the cache
/// afterwards and the last action.
pub open spec fn whole_evaluation(
    expr_node: usize,
    cached: Option<usize>,
    found: bool,
    context_is_null: bool,
    built: usize,
    value: Option<bool>,
) -> (Option<usize>, EvalAction) {
    let (c1, s1, a1) = transition(expr_node, cached, EvalState::Idle, EvalEvent::Begin);
    drive_evaluation(expr_node, c1, s1, a1, found, context_is_null, built, value, 4)
}

/// The outcome of a whole evaluation of a filter against one heap tuple:
/// started from `Idle` with `Begin`, it finishes within five steps. It
/// passes the tuple exactly when the expression node is null, or when the
/// tuple is visible, a context was created, the expression state (the
/// cached one, else the one just built) is not null and the expression is
/// `true`. It releases the fetch exactly when it began one (the node is not
/// null) and frees the context exactly when one was created. Afterwards
/// the cache holds the expression state that was used, and is emptied when
/// that state is null.
pub proof fn lemma_evaluation_outcome(
    expr_node: usize,
    cached: Option<usize>,
    found: bool,
    context_is_null: bool,
    built: usize,
    value: Option<bool>,
)
    ensures
        ({
            let (c, a) = whole_evaluation(expr_node, cached, found, context_is_null, built, value);
            let reached = expr_node != 0 && found && !context_is_null;
            let expr_state = match cached {
                Some(p) => p,
                None => built,
            };
            &&& a == EvalAction::Finish {
                free_context: reached,
                release_fetch: expr_node != 0,
                result: expr_node == 0 || (reached && expr_state != 0 && value == Some(true)),
            }
            &&& c == if !reached {
                cached
            } else if expr_state == 0 {
                None
            } else {
                Some(expr_state)
            }
        }),
{
    reveal_with_fuel(drive_evaluation, 5);
}

/// A cached expression state and a freshly initialized one lead to the
/// same answer. Take any two filters whose caches hold no null state and
/// whose expression node is the same, and let the executor answer both
/// evaluations alike, any initialization yielding a state: both
/// evaluations end with the same action.
pub proof fn lemma_verdict_independent_of_cache(
    expr_node: usize,
    cached1: Option<usize>,
    cached2: Option<usize>,
    found: bool,
    context_is_null: bool,
    built: usize,
    value: Option<bool>,
)
    requires
        cached1 != Some(0usize),
        cached2 != Some(0usize),
        built != 0,
    ensures
        whole_evaluation(expr_node, cached1, found, context_is_null, built, value).1
            == whole_evaluation(expr_node, cached2, found, context_is_null, built, value).1,
{
    lemma_evaluation_outcome(expr_node, cached1, found, context_is_null, built, value);
    lemma_evaluation_outcome(expr_node, cached2, found, context_is_null, built, value);
}

/// Evaluating a well-formed filter twice against the same answers of the
/// executor (same tuple, same snapshot, nothing changed in between) gives
/// the same result both times: the second evaluation, made with the cache
/// the first one left, ends with the same action.
pub proof fn lemma_repeated_evaluation_agrees(
    expr_node: usize,
    cached: Option<usize>,
    found: bool,
    context_is_null: bool,
    built: usize,
    value: Option<bool>,
)
    requires
        cached != Some(0usize),
    ensures
        ({
            let (c, a) = whole_evaluation(expr_node, cached, found, context_is_null, built, value);
            &&& c != Some(0usize)
            &&& whole_evaluation(expr_node, c, found, context_is_null, built, value).1 == a
        }),
{
    lemma_evaluation_outcome(expr_node, cached, found, context_is_null, built, value);
    let (c, a) = whole_evaluation(expr_node, cached, found, context_is_null, built, value);
    lemma_evaluation_outcome(expr_node, c, found, context_is_null, built, value);
}
} // verus!
