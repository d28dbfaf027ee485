use crate::history::{hooks_on, lemma_hooks_on_stack, starts};
use crate::lifecycle::{lemma_state_on_stack, popped_at};
use crate::model::{lemma_call_keeps_wf, Call, Entry, StatesView};
use crate::state::{Hook, State, StateFinished};
use vstd::prelude::*;

verus! {

/// Every operation leads from a stack that holds what its log leads to, to
/// another such stack.
pub proof fn lemma_steps_keep_wf<S: State>(
    a: StatesView<S>,
    b: StatesView<S>,
    state: S,
    before: S::Io,
    after: S::Io,
    finished: StateFinished,
)
    requires
        a.wf(),
        a.push_step(state, b) || a.pop_step(b) || a.start_step(b, finished) || a.update_step(
            b,
            before,
            after,
            finished,
        ) || a.draw_step(b, before, after),
    ensures
        b.wf(),
{
    if b != a {
        lemma_call_keeps_wf(a, b.log.last(), b);
    }
}

/// A state that is pushed and popped at once is told so, in that order, and
/// nothing else is called: not `on_start`, `update` or `draw`, on it or on
/// any other state. The stack is left as it was before the push. Where the
/// state keeps a history, `on_pushed` and `on_popped` are what was added to
/// it.
pub proof fn lemma_push_then_pop<S: State>(
    a: StatesView<S>,
    state: S,
    b: StatesView<S>,
    c: StatesView<S>,
)
    requires
        a.push_step(state, b),
        b.pop_step(c),
    ensures
        c.entries == a.entries,
        c.log == a.log.push(
            Call { id: a.log.len(), hook: Hook::Pushed, before: state, after: b.top().state },
        ).push(
            Call {
                id: a.log.len(),
                hook: Hook::Popped,
                before: b.top().state,
                after: c.log.last().after,
            },
        ),
        state.keeps_history() ==> c.log.last().after.history() == state.history().push(
            Hook::Pushed,
        ).push(Hook::Popped),
{
    assert(c.entries =~= a.entries);
}

/// Starting twice in a row calls `on_start` once: the second start answers
/// `No` and changes nothing, and of the hooks called on the top state since
/// it was pushed exactly one is `on_start`.
pub proof fn lemma_start_twice<S: State>(
    a: StatesView<S>,
    b: StatesView<S>,
    c: StatesView<S>,
    first: StateFinished,
    second: StateFinished,
)
    requires
        a.wf(),
        a.start_step(b, first),
        b.start_step(c, second),
    ensures
        second == StateFinished::No,
        c == b,
        starts(hooks_on(c.log, c.top().id)) == 1,
{
    if b != a {
        lemma_call_keeps_wf(a, b.log.last(), b);
    }
    lemma_hooks_on_stack(b, b.depth() - 1);
}

/// After one state is pushed, a second is pushed and the stack is popped,
/// the first state is on top again as its `on_pushed` left it, unstarted and
/// not popped. The calls made are `on_pushed` on the first state, then
/// `on_pushed` and `on_popped` on the second.
pub proof fn lemma_push_push_pop<S: State>(
    a: StatesView<S>,
    first: S,
    b: StatesView<S>,
    second: S,
    c: StatesView<S>,
    d: StatesView<S>,
)
    requires
        a.wf(),
        a.push_step(first, b),
        b.push_step(second, c),
        c.pop_step(d),
    ensures
        d.entries == b.entries,
        d.top() == (Entry { id: a.log.len(), started: false, state: b.top().state }),
        d.log == a.log.push(
            Call { id: a.log.len(), hook: Hook::Pushed, before: first, after: b.top().state },
        ).push(
            Call {
                id: a.log.len() + 1,
                hook: Hook::Pushed,
                before: second,
                after: c.top().state,
            },
        ).push(
            Call {
                id: a.log.len() + 1,
                hook: Hook::Popped,
                before: c.top().state,
                after: d.log.last().after,
            },
        ),
        forall|k: int| !popped_at(d.log, k, a.log.len()),
        first.keeps_history() ==> d.top().state.history() == first.history().push(Hook::Pushed),
        second.keeps_history() ==> d.log.last().after.history() == second.history().push(
            Hook::Pushed,
        ).push(Hook::Popped),
{
    lemma_push_then_pop(b, second, c, d);
    lemma_call_keeps_wf(a, b.log.last(), b);
    lemma_call_keeps_wf(b, c.log.last(), c);
    lemma_call_keeps_wf(c, d.log.last(), d);
    lemma_state_on_stack(d, d.depth() - 1);
}

/// A pop of an empty stack changes nothing and calls nothing.
pub proof fn lemma_pop_of_empty<S: State>(a: StatesView<S>, b: StatesView<S>)
    requires
        a.depth() == 0,
        a.pop_step(b),
    ensures
        b == a,
{
}

/// An empty stack cannot be started, updated or drawn: there is no stack
/// that such a call would lead to.
pub proof fn lemma_empty_has_no_top<S: State>(
    a: StatesView<S>,
    b: StatesView<S>,
    before: S::Io,
    after: S::Io,
    finished: StateFinished,
)
    requires
        a.depth() == 0,
    ensures
        !a.start_step(b, finished),
        !a.update_step(b, before, after, finished),
        !a.draw_step(b, before, after),
{
}

/// Starting, updating and drawing reach the top state only: the states
/// beneath it, and what the stack remembers of them, stay as they are.
pub proof fn lemma_beneath_the_top_untouched<S: State>(
    a: StatesView<S>,
    b: StatesView<S>,
    before: S::Io,
    after: S::Io,
    finished: StateFinished,
    i: int,
)
    requires
        a.start_step(b, finished) || a.update_step(b, before, after, finished) || a.draw_step(
            b,
            before,
            after,
        ),
        0 <= i < a.depth() - 1,
    ensures
        b.depth() == a.depth(),
        b.entries[i] == a.entries[i],
{
}

} // verus!
