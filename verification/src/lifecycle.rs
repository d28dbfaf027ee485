use crate::model::{replay, step, Call, Entry, StatesView};
use crate::state::State;
use vstd::prelude::*;

verus! {

/// Call number `k` of `log` is `on_start` on the state `id`.
pub open spec fn started_at<S: State>(log: Seq<Call<S>>, k: int, id: nat) -> bool {
    0 <= k < log.len() && log[k].id == id && log[k].hook is Started
}

/// Call number `k` of `log` is `on_popped` on the state `id`.
pub open spec fn popped_at<S: State>(log: Seq<Call<S>>, k: int, id: nat) -> bool {
    0 <= k < log.len() && log[k].id == id && log[k].hook is Popped
}

/// The state `id` lies on a stack with these entries.
pub open spec fn live<S>(entries: Seq<Entry<S>>, id: nat) -> bool {
    exists|i: int| 0 <= i < entries.len() && #[trigger] entries[i].id == id
}

/// Call number `k` of `log` is `on_pushed` on the state `id`.
pub open spec fn pushed_at<S: State>(log: Seq<Call<S>>, k: int, id: nat) -> bool {
    0 <= k < log.len() && log[k].id == id && log[k].hook is Pushed
}

/// The state on which call number `k` was made was pushed where its id says.
pub(crate) open spec fn rooted<S: State>(log: Seq<Call<S>>, k: int) -> bool {
    pushed_at(log, log[k].id as int, log[k].id)
}

/// What holds of a log and the entries it leads to.
pub(crate) open spec fn inv<S: State>(log: Seq<Call<S>>, entries: Seq<Entry<S>>) -> bool {
    &&& forall|k: int| 0 <= k < log.len() ==> (#[trigger] log[k]).id <= k
    &&& forall|k: int|
        0 <= k < log.len() ==> ((#[trigger] log[k]).hook is Pushed <==> log[k].id == k)
    &&& forall|k: int| 0 <= k < log.len() ==> #[trigger] rooted(log, k)
    &&& forall|i: int|
        0 <= i < entries.len() ==> pushed_at(log, entries[i].id as int, (#[trigger] entries[i]).id)
    &&& forall|i: int, j: int|
        0 <= i < j < entries.len() ==> (#[trigger] entries[i]).id < (#[trigger] entries[j]).id
    &&& forall|i: int, k: int|
        0 <= i < entries.len() && 0 <= k < log.len() && (#[trigger] log[k]).id == (
        #[trigger] entries[i]).id ==> !(log[k].hook is Popped)
    &&& forall|i: int, k: int|
        0 <= i < entries.len() && 0 <= k < log.len() && (#[trigger] log[k]).id == (
        #[trigger] entries[i]).id && log[k].hook is Started ==> entries[i].started
    &&& forall|i: int|
        0 <= i < entries.len() && (#[trigger] entries[i]).started ==> exists|k: int|
            started_at(log, k, entries[i].id)
    &&& forall|k1: int, k2: int|
        0 <= k1 < k2 < log.len() && (#[trigger] log[k1]).id == (#[trigger] log[k2]).id
            && log[k1].hook is Started ==> !(log[k2].hook is Started)
    &&& forall|k1: int, k2: int|
        0 <= k1 < k2 < log.len() && (#[trigger] log[k1]).hook is Popped ==> log[k1].id != (
        #[trigger] log[k2]).id
    &&& forall|k: int|
        0 <= k < log.len() && (#[trigger] log[k]).hook is Pushed ==> live(entries, log[k].id)
            || exists|j: int| #[trigger] popped_at(log, j, log[k].id)
}

pub(crate) proof fn lemma_inv<S: State>(log: Seq<Call<S>>)
    requires
        replay(log) is Some,
    ensures
        inv(log, replay(log).unwrap()),
    decreases log.len(),
{
    if log.len() > 0 {
        let prefix = log.drop_last();
        let call = log.last();
        let at = prefix.len();
        let before = replay(prefix).unwrap();
        let entries = replay(log).unwrap();
        lemma_inv(prefix);
        assert(step(before, at, call) == Some(entries));
        assert forall|k: int| 0 <= k < at implies #[trigger] log[k] == prefix[k] by {}
        assert forall|k: int| 0 <= k < log.len() implies #[trigger] rooted(log, k) by {
            if k < at {
                assert(rooted(prefix, k));
            }
        }
        assert forall|i: int|
            0 <= i < entries.len() && (#[trigger] entries[i]).started implies exists|k: int|
            started_at(log, k, entries[i].id) by {
            if i < before.len() && before[i].started && before[i].id == entries[i].id {
                let k = choose|k: int| started_at(prefix, k, before[i].id);
                assert(started_at(log, k, entries[i].id));
            } else {
                assert(started_at(log, at as int, entries[i].id));
            }
        }
        assert forall|k: int| 0 <= k < log.len() && (#[trigger] log[k]).hook is Pushed implies live(
            entries,
            log[k].id,
        ) || exists|j: int| #[trigger] popped_at(log, j, log[k].id) by {
            let id = log[k].id;
            if k == at {
                assert(entries[entries.len() - 1].id == id);
            } else if live(before, id) {
                let i = choose|i: int| 0 <= i < before.len() && #[trigger] before[i].id == id;
                if call.hook is Popped && i == before.len() - 1 {
                    assert(popped_at(log, at as int, id));
                } else {
                    assert(entries[i].id == id);
                }
            } else {
                let j = choose|j: int| #[trigger] popped_at(prefix, j, id);
                assert(popped_at(log, j, id));
            }
        }
    }
}

/// The number of `on_pushed` calls in `log`.
pub open spec fn pushes<S: State>(log: Seq<Call<S>>) -> nat
    decreases log.len(),
{
    if log.len() == 0 {
        0
    } else if log.last().hook is Pushed {
        pushes(log.drop_last()) + 1
    } else {
        pushes(log.drop_last())
    }
}

/// The number of `on_popped` calls in `log`.
pub open spec fn pops<S: State>(log: Seq<Call<S>>) -> nat
    decreases log.len(),
{
    if log.len() == 0 {
        0
    } else if log.last().hook is Popped {
        pops(log.drop_last()) + 1
    } else {
        pops(log.drop_last())
    }
}

/// The stack holds as many states as were pushed and not popped since.
/// A pop of an empty stack calls no hook, so it does not count.
pub proof fn lemma_depth_is_pushes_less_pops<S: State>(log: Seq<Call<S>>)
    requires
        replay(log) is Some,
    ensures
        replay(log).unwrap().len() == pushes(log) - pops(log),
    decreases log.len(),
{
    if log.len() > 0 {
        lemma_depth_is_pushes_less_pops(log.drop_last());
    }
}

/// Every beginning of a log that a stack can make is such a log.
pub proof fn lemma_prefix_replays<S: State>(log: Seq<Call<S>>, n: int)
    requires
        replay(log) is Some,
        0 <= n <= log.len(),
    ensures
        replay(log.take(n)) is Some,
    decreases log.len(),
{
    if n == log.len() {
        assert(log.take(n) =~= log);
    } else {
        assert(log.drop_last().take(n) =~= log.take(n));
        lemma_prefix_replays(log.drop_last(), n);
    }
}

/// Every hook but `on_pushed` is called on the state that is on top of the
/// stack at that time, as the call before left it, and `on_start` only on one
/// that has not been started.
pub proof fn lemma_only_the_top_is_called<S: State>(log: Seq<Call<S>>, k: int)
    requires
        replay(log) is Some,
        0 <= k < log.len(),
        !(log[k].hook is Pushed),
    ensures
        replay(log.take(k)) is Some,
        replay(log.take(k)).unwrap().len() > 0,
        replay(log.take(k)).unwrap().last().id == log[k].id,
        replay(log.take(k)).unwrap().last().state == log[k].before,
        log[k].hook is Started ==> !replay(log.take(k)).unwrap().last().started,
{
    lemma_prefix_replays(log, k + 1);
    assert(log.take(k + 1).drop_last() =~= log.take(k));
}

/// `on_pushed` is the first call made on a state and is made once: the call
/// at the position that the state's id names, and no other.
pub proof fn lemma_pushed_first_and_once<S: State>(log: Seq<Call<S>>, k: int)
    requires
        replay(log) is Some,
        0 <= k < log.len(),
    ensures
        log[k].id <= k,
        pushed_at(log, log[k].id as int, log[k].id),
        log[k].hook is Pushed <==> log[k].id == k,
{
    lemma_inv(log);
    assert(rooted(log, k));
}

/// `on_start` is called at most once on a state.
pub proof fn lemma_started_at_most_once<S: State>(log: Seq<Call<S>>, id: nat, i: int, j: int)
    requires
        replay(log) is Some,
        started_at(log, i, id),
        started_at(log, j, id),
    ensures
        i == j,
{
    lemma_inv(log);
}

/// `on_popped` is the last call made on a state, so it is made at most once.
pub proof fn lemma_popped_last<S: State>(log: Seq<Call<S>>, i: int, j: int)
    requires
        replay(log) is Some,
        0 <= i < j < log.len(),
        log[i].hook is Popped,
    ensures
        log[j].id != log[i].id,
{
    lemma_inv(log);
}

/// A state that was pushed and is no longer on the stack has been popped.
pub proof fn lemma_gone_means_popped<S: State>(log: Seq<Call<S>>, k: int)
    requires
        replay(log) is Some,
        0 <= k < log.len(),
        log[k].hook is Pushed,
        !live(replay(log).unwrap(), log[k].id),
    ensures
        exists|j: int| #[trigger] popped_at(log, j, log[k].id),
{
    lemma_inv(log);
}

/// What the log says of the state at position `i` of a stack: it was pushed
/// where its id says, it has not been popped, and it counts as started
/// exactly if `on_start` has been called on it. Ids grow from the bottom of
/// the stack to its top.
pub proof fn lemma_state_on_stack<S: State>(v: StatesView<S>, i: int)
    requires
        v.wf(),
        0 <= i < v.depth(),
    ensures
        pushed_at(v.log, v.entries[i].id as int, v.entries[i].id),
        forall|k: int| !popped_at(v.log, k, v.entries[i].id),
        v.entries[i].started <==> exists|k: int| started_at(v.log, k, v.entries[i].id),
        forall|j: int| i < j < v.depth() ==> v.entries[i].id < (#[trigger] v.entries[j]).id,
{
    lemma_inv(v.log);
    let id = v.entries[i].id;
    if exists|k: int| started_at(v.log, k, id) {
        let k = choose|k: int| started_at(v.log, k, id);
        assert(v.log[k].id == v.entries[i].id);
    }
}

} // verus!
