use crate::state::{Hook, State, StateFinished};
use vstd::prelude::*;

verus! {

/// One entry of a stack's log: hook `hook` was called on the state `id`,
/// which held the value `before` and was left holding `after`. A state's id
/// is the position of its `Pushed` call in the log.
pub struct Call<S: State> {
    pub id: nat,
    pub hook: Hook<S::Io>,
    pub before: S,
    pub after: S,
}

impl<S: State> Call<S> {
    /// The call stands in the history of the state it was made on, where
    /// that state keeps one.
    pub open spec fn recorded(self) -> bool {
        self.before.keeps_history() ==> self.after.keeps_history() && self.after.history()
            == self.before.history().push(self.hook)
    }
}

/// A state on the stack, with what the stack remembers of it.
pub struct Entry<S> {
    pub id: nat,
    pub started: bool,
    pub state: S,
}

/// `call` is made on the top state of `entries`, as that state is.
pub open spec fn on_top<S: State>(entries: Seq<Entry<S>>, call: Call<S>) -> bool {
    &&& entries.len() > 0
    &&& entries.last().id == call.id
    &&& entries.last().state == call.before
}

/// The top state of `entries` replaced by what `call` left of it.
pub open spec fn with_top<S: State>(
    entries: Seq<Entry<S>>,
    call: Call<S>,
    started: bool,
) -> Seq<Entry<S>> {
    entries.update(entries.len() - 1, Entry { id: call.id, started, state: call.after })
}

/// What a stack with these entries holds after it has made `call` as its
/// call number `at`; `None` where a stack never makes that call. A stack
/// calls `on_pushed` on a new state, which it puts on top; every other hook
/// on its top state; and `on_start` only where that state is unstarted.
pub open spec fn step<S: State>(
    entries: Seq<Entry<S>>,
    at: nat,
    call: Call<S>,
) -> Option<Seq<Entry<S>>> {
    if !call.recorded() {
        None
    } else {
        match call.hook {
            Hook::Pushed => if call.id == at {
                Some(entries.push(Entry { id: at, started: false, state: call.after }))
            } else {
                None
            },
            Hook::Started { .. } => if on_top(entries, call) && !entries.last().started {
                Some(with_top(entries, call, true))
            } else {
                None
            },
            Hook::Drawn { .. } | Hook::Updated { .. } => if on_top(entries, call) {
                Some(with_top(entries, call, entries.last().started))
            } else {
                None
            },
            Hook::Popped => if on_top(entries, call) {
                Some(entries.drop_last())
            } else {
                None
            },
        }
    }
}

/// What a stack holds that started empty and made the calls of `log` in
/// order; `None` where no stack makes these calls.
pub open spec fn replay<S: State>(log: Seq<Call<S>>) -> Option<Seq<Entry<S>>>
    decreases log.len(),
{
    if log.len() == 0 {
        Some(Seq::empty())
    } else {
        match replay(log.drop_last()) {
            Some(entries) => step(entries, (log.len() - 1) as nat, log.last()),
            None => None,
        }
    }
}

/// A stack of states as the contracts see it.
pub struct StatesView<S: State> {
    /// The states on the stack, bottom first.
    pub entries: Seq<Entry<S>>,
    /// Every hook call the stack has made since it was created, oldest first.
    pub log: Seq<Call<S>>,
}

impl<S: State> StatesView<S> {
    /// The view of a stack that has just been created.
    pub open spec fn fresh() -> Self {
        StatesView { entries: Seq::empty(), log: Seq::empty() }
    }

    /// The number of states on the stack.
    pub open spec fn depth(self) -> nat {
        self.entries.len()
    }

    /// The state on top of the stack, with what the stack remembers of it.
    pub open spec fn top(self) -> Entry<S>
        recommends
            self.depth() > 0,
    {
        self.entries.last()
    }

    /// The stack holds what the calls in its log lead to.
    pub open spec fn wf(self) -> bool {
        replay(self.log) == Some(self.entries)
    }

    /// `next` is the stack after it made `call` and nothing else.
    pub open spec fn calls(self, call: Call<S>, next: Self) -> bool {
        &&& next.log == self.log.push(call)
        &&& Some(next.entries) == step(self.entries, self.log.len(), call)
    }

    /// `next` is the stack after `state` was pushed: `on_pushed` was called
    /// on it, and it lies on top, unstarted, as the hook left it.
    pub open spec fn push_step(self, state: S, next: Self) -> bool {
        self.calls(
            Call {
                id: self.log.len(),
                hook: Hook::Pushed,
                before: state,
                after: next.top().state,
            },
            next,
        )
    }

    /// `next` is the stack after a pop. An empty stack stays as it is. Else
    /// `on_popped` was called on the top state, which is gone; the rest is
    /// as it was.
    pub open spec fn pop_step(self, next: Self) -> bool {
        if self.depth() == 0 {
            next == self
        } else {
            self.calls(
                Call {
                    id: self.top().id,
                    hook: Hook::Popped,
                    before: self.top().state,
                    after: next.log.last().after,
                },
                next,
            )
        }
    }

    /// `next` is the stack after it was started and answered `finished`. A
    /// top state that was started before is left alone and the answer is
    /// `No`. Else `on_start` was called on the top state, `finished` is its
    /// answer, and the state counts as started from now on.
    pub open spec fn start_step(self, next: Self, finished: StateFinished) -> bool {
        &&& self.depth() > 0
        &&& if self.top().started {
            &&& next == self
            &&& finished == StateFinished::No
        } else {
            self.calls(
                Call {
                    id: self.top().id,
                    hook: Hook::Started { finished },
                    before: self.top().state,
                    after: next.top().state,
                },
                next,
            )
        }
    }

    /// `next` is the stack after an update: `update` was called on the top
    /// state with the handle, which went from `before` to `after`, and
    /// `finished` is its answer.
    pub open spec fn update_step(
        self,
        next: Self,
        before: S::Io,
        after: S::Io,
        finished: StateFinished,
    ) -> bool {
        &&& self.depth() > 0
        &&& self.calls(
            Call {
                id: self.top().id,
                hook: Hook::Updated { before, after, finished },
                before: self.top().state,
                after: next.top().state,
            },
            next,
        )
    }

    /// `next` is the stack after a draw: `draw` was called on the top state
    /// with the handle, which went from `before` to `after`.
    pub open spec fn draw_step(self, next: Self, before: S::Io, after: S::Io) -> bool {
        &&& self.depth() > 0
        &&& self.calls(
            Call {
                id: self.top().id,
                hook: Hook::Drawn { before, after },
                before: self.top().state,
                after: next.top().state,
            },
            next,
        )
    }
}

/// A stack that holds what its log leads to still does after one more call.
pub proof fn lemma_call_keeps_wf<S: State>(a: StatesView<S>, call: Call<S>, b: StatesView<S>)
    requires
        a.wf(),
        a.calls(call, b),
    ensures
        b.wf(),
{
    assert(b.log.drop_last() =~= a.log);
}

} // verus!
