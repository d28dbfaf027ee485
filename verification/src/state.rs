use vstd::prelude::*;

verus! {

/// What a state answers when it is started or updated: whether it considers
/// its current phase finished. The stack hands the answer to its caller and
/// never acts on it.
#[derive(Clone, Copy, Debug, PartialEq, Eq, Structural)]
pub enum StateFinished {
    No,
    Yes,
}

/// A hook call as a history holds it: which hook it was, in what condition
/// the handle went in and came out, and what the state answered.
pub enum Hook<Io> {
    Pushed,
    Started { finished: StateFinished },
    Drawn { before: Io, after: Io },
    Updated { before: Io, after: Io, finished: StateFinished },
    Popped,
}

/// One mode or screen of the application. The stack calls these hooks; what
/// an implementation does in them is its own business.
///
/// An implementation may keep a history of the hooks called on it. It says
/// so by defining `keeps_history` and `history`, and every hook then adds
/// itself to that history, which is all that the hooks' contracts ask for. Of
/// an implementation that leaves the two as they are here, the contracts ask
/// nothing. In the same way it may declare its name, which `name` then
/// returns.
pub trait State {
    /// The handle through which a state reads input and renders output.
    type Io;

    /// Whether this state keeps a history of the hooks called on it.
    open spec fn keeps_history(&self) -> bool {
        false
    }

    /// The hooks called on this state so far, oldest first, where it keeps
    /// a history.
    open spec fn history(&self) -> Seq<Hook<Self::Io>> {
        Seq::empty()
    }

    /// The name of this state, where it declares one.
    open spec fn declared_name(&self) -> Option<Seq<char>> {
        None
    }

    /// A descriptive name, for diagnostics only.
    fn name(&self) -> (name: &str)
        ensures
            self.declared_name() matches Some(declared) ==> name@ == declared,
    ;

    /// Called once, right after the state has been put on top of the stack.
    /// The stack does not look at the answer.
    fn on_pushed(&mut self) -> (finished: StateFinished)
        ensures
            old(self).keeps_history() ==> final(self).keeps_history() && final(self).history()
                == old(self).history().push(Hook::Pushed),
    ;

    /// Called once, the first time the stack is started with this state on top.
    fn on_start(&mut self) -> (finished: StateFinished)
        ensures
            old(self).keeps_history() ==> final(self).keeps_history() && final(self).history()
                == old(self).history().push(Hook::Started { finished }),
    ;

    /// Renders the state. Called any number of times while it is on top.
    fn draw(&mut self, renderer: &mut Self::Io)
        ensures
            old(self).keeps_history() ==> final(self).keeps_history() && final(self).history()
                == old(self).history().push(
                Hook::Drawn { before: *old(renderer), after: *final(renderer) },
            ),
    ;

    /// Advances the state by one tick.
    fn update(&mut self, input: &mut Self::Io) -> (finished: StateFinished)
        ensures
            old(self).keeps_history() ==> final(self).keeps_history() && final(self).history()
                == old(self).history().push(
                Hook::Updated { before: *old(input), after: *final(input), finished },
            ),
    ;

    /// Called once, when the state is removed from the stack.
    fn on_popped(&mut self)
        ensures
            old(self).keeps_history() ==> final(self).keeps_history() && final(self).history()
                == old(self).history().push(Hook::Popped),
    ;
}

/// A boxed state is a state, with the name and the history of the state in
/// the box, so that one stack can hold states of different types behind
/// `Box<dyn State<Io = ..>>`.
impl<T: State + ?Sized> State for Box<T> {
    type Io = T::Io;

    open spec fn keeps_history(&self) -> bool {
        (**self).keeps_history()
    }

    open spec fn history(&self) -> Seq<Hook<T::Io>> {
        (**self).history()
    }

    fn name(&self) -> &str {
        (**self).name()
    }

    open spec fn declared_name(&self) -> Option<Seq<char>> {
        (**self).declared_name()
    }

    fn on_pushed(&mut self) -> StateFinished {
        (**self).on_pushed()
    }

    fn on_start(&mut self) -> StateFinished {
        (**self).on_start()
    }

    fn draw(&mut self, renderer: &mut Self::Io) {
        (**self).draw(renderer)
    }

    fn update(&mut self, input: &mut Self::Io) -> StateFinished {
        (**self).update(input)
    }

    fn on_popped(&mut self) {
        (**self).on_popped()
    }
}

} // verus!
