use crate::lifecycle::{lemma_depth_is_pushes_less_pops, pops, pushes};
use crate::model::{lemma_call_keeps_wf, with_top, Call, Entry, StatesView};
use crate::state::{Hook, State, StateFinished};
use vstd::prelude::*;

verus! {

/// A state on the stack, with what the stack remembers of it.
struct StateNode<S: State> {
    state: S,
    is_started: bool,
    id: Ghost<nat>,
}

/// The stack of states. Index 0 is the bottom, the last node is the top.
pub struct States<S: State> {
    nodes: Vec<StateNode<S>>,
    log: Ghost<Seq<Call<S>>>,
}

impl<S: State> View for States<S> {
    type V = StatesView<S>;

    closed spec fn view(&self) -> StatesView<S> {
        StatesView {
            entries: Seq::new(
                self.nodes@.len(),
                |i: int|
                    Entry {
                        id: self.nodes@[i].id@,
                        started: self.nodes@[i].is_started,
                        state: self.nodes@[i].state,
                    },
            ),
            log: self.log@,
        }
    }
}

impl<S: State> States<S> {
    /// The stack is one that `new` and the operations below can lead to.
    pub open spec fn wf(&self) -> bool {
        self@.wf()
    }

    /// An empty stack that has made no call yet.
    pub fn new() -> (states: States<S>)
        ensures
            states.wf(),
            states@ == StatesView::<S>::fresh(),
    {
        let states = States { nodes: Vec::new(), log: Ghost(Seq::empty()) };
        assert(states@.entries =~= Seq::empty());
        states
    }

    /// Whether the stack holds no state: whether as many states have been
    /// popped as were pushed.
    pub fn is_empty(&self) -> (empty: bool)
        ensures
            empty == (self@.depth() == 0),
            self.wf() ==> empty == (pushes(self@.log) == pops(self@.log)),
    {
        proof {
            if self.wf() {
                lemma_depth_is_pushes_less_pops(self@.log);
            }
        }
        self.nodes.len() == 0
    }

    fn top_idx(&self) -> (i: usize)
        requires
            self@.depth() > 0,
        ensures
            i == self@.depth() - 1,
    {
        let n: usize = self.nodes.len();
        n - 1
    }

    fn top(&mut self) -> (node: &mut StateNode<S>)
        requires
            old(self)@.depth() > 0,
        ensures
            *node == old(self).nodes@.last(),
            final(self).nodes@ == old(self).nodes@.update(
                old(self).nodes@.len() - 1,
                *final(node),
            ),
            final(self).log == old(self).log,
    {
        let i: usize = self.top_idx();
        &mut self.nodes[i]
    }

    /// Starts the top state unless it has been started before, and hands
    /// back its answer; `No` where there was nothing to start.
    pub fn start(&mut self) -> (finished: StateFinished)
        requires
            old(self)@.depth() > 0,
        ensures
            old(self).wf() ==> final(self).wf(),
            old(self)@.start_step(final(self)@, finished),
    {
        let top = self.top();
        if top.is_started {
            proof {
                assert(self.nodes@ =~= old(self).nodes@);
            }
            return StateFinished::No;
        }
        let finished = top.state.on_start();
        top.is_started = true;
        let ghost call = Call {
            id: old(self)@.top().id,
            hook: Hook::Started { finished },
            before: old(self)@.top().state,
            after: self.nodes@.last().state,
        };
        proof {
            self.log@ = self.log@.push(call);
            assert(self@.entries =~= with_top(old(self)@.entries, call, true));
            if old(self).wf() {
                lemma_call_keeps_wf(old(self)@, call, self@);
            }
        }
        finished
    }

    /// Draws the top state, and no other, through `renderer`.
    pub fn draw(&mut self, renderer: &mut S::Io)
        requires
            old(self)@.depth() > 0,
        ensures
            old(self).wf() ==> final(self).wf(),
            old(self)@.draw_step(final(self)@, *old(renderer), *final(renderer)),
    {
        self.top().state.draw(renderer);
        let ghost call = Call {
            id: old(self)@.top().id,
            hook: Hook::Drawn { before: *old(renderer), after: *renderer },
            before: old(self)@.top().state,
            after: self.nodes@.last().state,
        };
        proof {
            self.log@ = self.log@.push(call);
            assert(self@.entries =~= with_top(
                old(self)@.entries,
                call,
                old(self)@.top().started,
            ));
            if old(self).wf() {
                lemma_call_keeps_wf(old(self)@, call, self@);
            }
        }
    }

    /// Advances the top state by one tick with `input`, and hands back its
    /// answer as it is.
    pub fn update(&mut self, input: &mut S::Io) -> (finished: StateFinished)
        requires
            old(self)@.depth() > 0,
        ensures
            old(self).wf() ==> final(self).wf(),
            old(self)@.update_step(final(self)@, *old(input), *final(input), finished),
    {
        let finished = self.top().state.update(input);
        let ghost call = Call {
            id: old(self)@.top().id,
            hook: Hook::Updated { before: *old(input), after: *input, finished },
            before: old(self)@.top().state,
            after: self.nodes@.last().state,
        };
        proof {
            self.log@ = self.log@.push(call);
            assert(self@.entries =~= with_top(
                old(self)@.entries,
                call,
                old(self)@.top().started,
            ));
            if old(self).wf() {
                lemma_call_keeps_wf(old(self)@, call, self@);
            }
        }
        finished
    }

    /// Puts `state` on top of the stack and tells it so. It is not started:
    /// that waits for the next `start`.
    pub fn push(&mut self, state: S)
        ensures
            old(self).wf() ==> final(self).wf(),
            old(self)@.push_step(state, final(self)@),
    {
        let ghost id: nat = self.log@.len();
        let node = StateNode { state, is_started: false, id: Ghost(id) };
        self.nodes.push(node);
        self.top().state.on_pushed();
        let ghost call = Call {
            id,
            hook: Hook::Pushed,
            before: state,
            after: self.nodes@.last().state,
        };
        proof {
            self.log@ = self.log@.push(call);
            assert(self@.entries =~= old(self)@.entries.push(
                Entry { id, started: false, state: call.after },
            ));
            if old(self).wf() {
                lemma_call_keeps_wf(old(self)@, call, self@);
            }
        }
    }

    /// Removes the top state and tells it so. The state beneath becomes the
    /// top as it is; it is not started by this. An empty stack stays as it is.
    pub fn pop(&mut self)
        ensures
            old(self).wf() ==> final(self).wf(),
            old(self)@.pop_step(final(self)@),
            old(self)@.depth() == 0 ==> final(self)@ == old(self)@,
    {
        if self.is_empty() {
            return ;
        }
        let mut node = self.nodes.pop().unwrap();
        node.state.on_popped();
        let ghost call = Call {
            id: old(self)@.top().id,
            hook: Hook::Popped,
            before: old(self)@.top().state,
            after: node.state,
        };
        proof {
            self.log@ = self.log@.push(call);
            assert(self@.entries =~= old(self)@.entries.drop_last());
            if old(self).wf() {
                lemma_call_keeps_wf(old(self)@, call, self@);
            }
        }
    }
}

} // verus!
