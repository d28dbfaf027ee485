use crate::lifecycle::{lemma_inv, lemma_only_the_top_is_called, lemma_prefix_replays};
use crate::model::{replay, step, Call, Entry, StatesView};
use crate::state::{Hook, State};
use vstd::prelude::*;

verus! {

/// The hooks called on the state `id`, in the order of the log.
pub open spec fn hooks_on<S: State>(log: Seq<Call<S>>, id: nat) -> Seq<Hook<S::Io>>
    decreases log.len(),
{
    if log.len() == 0 {
        Seq::empty()
    } else if log.last().id == id {
        hooks_on(log.drop_last(), id).push(log.last().hook)
    } else {
        hooks_on(log.drop_last(), id)
    }
}

/// The number of `on_start` calls among `hooks`.
pub open spec fn starts<Io>(hooks: Seq<Hook<Io>>) -> nat
    decreases hooks.len(),
{
    if hooks.len() == 0 {
        0
    } else if hooks.last() is Started {
        starts(hooks.drop_last()) + 1
    } else {
        starts(hooks.drop_last())
    }
}

/// The hooks called on a state from its push until now, while it lies on
/// the stack: `on_pushed` first and never again, no `on_popped`, and
/// `on_start` once if the state counts as started, else not at all.
pub open spec fn on_stack<Io>(hooks: Seq<Hook<Io>>, started: bool) -> bool {
    &&& hooks.len() > 0
    &&& hooks[0] is Pushed
    &&& forall|j: int|
        1 <= j < hooks.len() ==> !((#[trigger] hooks[j]) is Pushed) && !(hooks[j] is Popped)
    &&& starts(hooks) == if started {
        1nat
    } else {
        0nat
    }
}

/// The state `id` as it was handed to the stack: the value on which
/// `on_pushed` was called.
pub open spec fn handed_in<S: State>(log: Seq<Call<S>>, id: nat) -> S {
    log[id as int].before
}

/// A log without a call on the state `id` shows no hook for it.
proof fn lemma_no_call_no_hook<S: State>(log: Seq<Call<S>>, id: nat)
    requires
        forall|k: int| 0 <= k < log.len() ==> (#[trigger] log[k]).id != id,
    ensures
        hooks_on(log, id) == Seq::<Hook<S::Io>>::empty(),
    decreases log.len(),
{
    if log.len() > 0 {
        let prefix = log.drop_last();
        assert forall|k: int| 0 <= k < prefix.len() implies (#[trigger] prefix[k]).id != id by {
            assert(prefix[k] == log[k]);
        }
        lemma_no_call_no_hook(prefix, id);
    }
}

/// The calls after the first `n` are made on other states than `id`, so the
/// first `n` show every hook called on it.
proof fn lemma_hooks_end<S: State>(log: Seq<Call<S>>, n: int, id: nat)
    requires
        0 <= n <= log.len(),
        forall|k: int| n <= k < log.len() ==> (#[trigger] log[k]).id != id,
    ensures
        hooks_on(log, id) == hooks_on(log.take(n), id),
    decreases log.len() - n,
{
    if n == log.len() {
        assert(log.take(n) =~= log);
    } else {
        let prefix = log.drop_last();
        assert forall|k: int| n <= k < prefix.len() implies (#[trigger] prefix[k]).id != id by {
            assert(prefix[k] == log[k]);
        }
        lemma_hooks_end(prefix, n, id);
        assert(prefix.take(n) =~= log.take(n));
    }
}

/// One more hook counts as one more start exactly if it is `on_start`.
proof fn lemma_starts_push<Io>(hooks: Seq<Hook<Io>>, hook: Hook<Io>)
    ensures
        starts(hooks.push(hook)) == starts(hooks) + if hook is Started {
            1nat
        } else {
            0nat
        },
{
    assert(hooks.push(hook).drop_last() =~= hooks);
}

/// The entry holds a state with the history that the state came with,
/// followed by the hooks that the log shows for it, and these hooks are such
/// as a stack calls on a state that lies on it.
spec fn kept<S: State>(log: Seq<Call<S>>, entry: Entry<S>) -> bool {
    let given = handed_in(log, entry.id);
    &&& on_stack(hooks_on(log, entry.id), entry.started)
    &&& given.keeps_history() ==> entry.state.keeps_history() && entry.state.history()
        == given.history() + hooks_on(log, entry.id)
}

proof fn lemma_kept<S: State>(log: Seq<Call<S>>)
    requires
        replay(log) is Some,
    ensures
        forall|i: int|
            0 <= i < replay(log).unwrap().len() ==> kept(log, #[trigger] replay(log).unwrap()[i]),
    decreases log.len(),
{
    if log.len() > 0 {
        let prefix = log.drop_last();
        let call = log.last();
        let at = prefix.len();
        let before = replay(prefix).unwrap();
        let entries = replay(log).unwrap();
        lemma_kept(prefix);
        lemma_inv(prefix);
        lemma_inv(log);
        assert(step(before, at, call) == Some(entries));
        assert forall|i: int| 0 <= i < entries.len() implies kept(log, #[trigger] entries[i]) by {
            let id = entries[i].id;
            let given = handed_in(log, id);
            if id == at {
                assert forall|k: int| 0 <= k < prefix.len() implies (#[trigger] prefix[k]).id
                    != id by {}
                lemma_no_call_no_hook(prefix, id);
                lemma_starts_push(hooks_on(prefix, id), call.hook);
                assert(given.history() + hooks_on(log, id) =~= given.history().push(call.hook));
            } else {
                assert(i < before.len() && before[i].id == id);
                assert(kept(prefix, before[i]));
                assert(prefix[id as int] == log[id as int]);
                if call.id == id {
                    assert(i == before.len() - 1);
                    lemma_starts_push(hooks_on(prefix, id), call.hook);
                    assert(given.history() + hooks_on(log, id) =~= (given.history() + hooks_on(
                        prefix,
                        id,
                    )).push(call.hook));
                }
            }
        }
    }
}

/// The life of a state on the stack, as the log shows it: `on_pushed` was
/// called on it once, before everything else; `on_popped` was not; and
/// `on_start` was called once if it counts as started, else never.
pub proof fn lemma_hooks_on_stack<S: State>(v: StatesView<S>, i: int)
    requires
        v.wf(),
        0 <= i < v.depth(),
    ensures
        on_stack(hooks_on(v.log, v.entries[i].id), v.entries[i].started),
{
    lemma_kept(v.log);
    let entries = replay(v.log).unwrap();
    assert(kept(v.log, entries[i]));
}

/// The whole life of a state that has been popped, as the log shows it:
/// what a stack calls on a state that lies on it, with at most one
/// `on_start`, and then `on_popped`, after which nothing is called on it.
pub proof fn lemma_hooks_when_popped<S: State>(log: Seq<Call<S>>, k: int)
    requires
        replay(log) is Some,
        0 <= k < log.len(),
        log[k].hook is Popped,
    ensures
        hooks_on(log, log[k].id).last() is Popped,
        starts(hooks_on(log, log[k].id).drop_last()) <= 1,
        on_stack(
            hooks_on(log, log[k].id).drop_last(),
            starts(hooks_on(log, log[k].id).drop_last()) == 1,
        ),
{
    let id = log[k].id;
    let prefix = log.take(k);
    lemma_inv(log);
    lemma_only_the_top_is_called(log, k);
    lemma_kept(prefix);
    let entries = replay(prefix).unwrap();
    assert(kept(prefix, entries[entries.len() - 1]));
    lemma_hooks_end(log, k + 1, id);
    assert(log.take(k + 1).drop_last() =~= prefix);
    assert(hooks_on(log, id).drop_last() =~= hooks_on(prefix, id));
}

/// A state on the stack that came with a history holds that history,
/// followed by the hooks that the log shows for it, and nothing else.
pub proof fn lemma_history_on_stack<S: State>(v: StatesView<S>, i: int)
    requires
        v.wf(),
        0 <= i < v.depth(),
        handed_in(v.log, v.entries[i].id).keeps_history(),
    ensures
        v.entries[i].state.keeps_history(),
        v.entries[i].state.history() == handed_in(v.log, v.entries[i].id).history() + hooks_on(
            v.log,
            v.entries[i].id,
        ),
{
    lemma_kept(v.log);
    let entries = replay(v.log).unwrap();
    assert(kept(v.log, entries[i]));
}

/// A state that came with a history and has been popped was left with that
/// history, followed by the hooks that the log shows for it.
pub proof fn lemma_history_when_popped<S: State>(log: Seq<Call<S>>, k: int)
    requires
        replay(log) is Some,
        0 <= k < log.len(),
        log[k].hook is Popped,
        handed_in(log, log[k].id).keeps_history(),
    ensures
        log[k].after.keeps_history(),
        log[k].after.history() == handed_in(log, log[k].id).history() + hooks_on(log, log[k].id),
{
    let id = log[k].id;
    let given = handed_in(log, id);
    let prefix = log.take(k);
    let upto = log.take(k + 1);
    lemma_inv(log);
    lemma_only_the_top_is_called(log, k);
    lemma_prefix_replays(log, k + 1);
    assert(upto.drop_last() =~= prefix);
    let entries = replay(prefix).unwrap();
    lemma_kept(prefix);
    assert(kept(prefix, entries[entries.len() - 1]));
    assert(prefix[id as int] == log[id as int]);
    lemma_hooks_end(log, k + 1, id);
    assert(given.history() + hooks_on(upto, id) =~= (given.history() + hooks_on(prefix, id)).push(
        log[k].hook,
    ));
}

} // verus!
