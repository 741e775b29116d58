use vstd::prelude::*;
use crate::engine::state::GameState;
use crate::engine::world::GameData;

verus! {

/// The callback may be called on every store.
pub open spec fn accepts_all<F: Fn(GameData) -> GameData>(f: F) -> bool {
    forall|w: GameData| #[trigger] call_requires(f, (w,))
}

/// One call of `f` can take the store from `pre` to `post`.
pub open spec fn runs<F: Fn(GameData) -> GameData>(f: F, pre: GameData, post: GameData) -> bool {
    call_ensures(f, (pre,), post)
}

/// The predicate may be asked about every state.
pub open spec fn answers_all<P: Fn(&GameState) -> bool>(p: P) -> bool {
    forall|s: &GameState| #[trigger] call_requires(p, (s,))
}

/// The predicate can answer `paused` when asked about `state`.
pub open spec fn answers<P: Fn(&GameState) -> bool>(p: P, state: GameState, paused: bool) -> bool {
    call_ensures(p, (&state,), paused)
}

/// `worlds` are the stores met while `calls` are made one after the other:
/// call `k` takes the store from `worlds[k]` to `worlds[k + 1]`.
pub open spec fn threads<F: Fn(GameData) -> GameData>(calls: Seq<F>, worlds: Seq<GameData>) -> bool {
    &&& worlds.len() == calls.len() + 1
    &&& forall|k: int| 0 <= k < calls.len() ==> runs(#[trigger] calls[k], worlds[k], worlds[k + 1])
}

/// Making `calls` in order, each exactly once, can take the store from `pre` to `post`.
pub open spec fn chain<F: Fn(GameData) -> GameData>(calls: Seq<F>, pre: GameData, post: GameData) -> bool {
    exists|worlds: Seq<GameData>| #[trigger] threads(calls, worlds) && worlds[0] == pre && worlds.last() == post
}

/// No call leaves the store as it is.
pub proof fn lemma_chain_empty<F: Fn(GameData) -> GameData>(pre: GameData, post: GameData)
    ensures
        chain(Seq::<F>::empty(), pre, post) <==> post == pre,
{
    if post == pre {
        let worlds = seq![pre];
        assert(threads(Seq::<F>::empty(), worlds));
    }
}

/// One call is a chain of length one.
pub proof fn lemma_chain_single<F: Fn(GameData) -> GameData>(f: F, pre: GameData, post: GameData)
    ensures
        chain(seq![f], pre, post) <==> runs(f, pre, post),
{
    if runs(f, pre, post) {
        let worlds = seq![pre, post];
        assert(threads(seq![f], worlds));
    }
    if chain(seq![f], pre, post) {
        let worlds = choose|worlds: Seq<GameData>| #[trigger]
            threads(seq![f], worlds) && worlds[0] == pre && worlds.last() == post;
        assert(runs(seq![f][0], worlds[0], worlds[1]));
    }
}

/// Two chains that meet in `mid` make one chain.
pub proof fn lemma_chain_join<F: Fn(GameData) -> GameData>(
    first: Seq<F>,
    second: Seq<F>,
    pre: GameData,
    mid: GameData,
    post: GameData,
)
    requires
        chain(first, pre, mid),
        chain(second, mid, post),
    ensures
        chain(first + second, pre, post),
{
    let a = choose|worlds: Seq<GameData>| #[trigger] threads(first, worlds) && worlds[0] == pre && worlds.last() == mid;
    let b = choose|worlds: Seq<GameData>| #[trigger]
        threads(second, worlds) && worlds[0] == mid && worlds.last() == post;
    let joined = a + b.skip(1);
    let calls = first + second;
    assert forall|k: int| 0 <= k < calls.len() implies runs(#[trigger] calls[k], joined[k], joined[k + 1]) by {
        if k < first.len() {
            assert(runs(first[k], a[k], a[k + 1]));
            if k + 1 == first.len() {
            }
        } else {
            let j = k - first.len();
            assert(runs(second[j], b[j], b[j + 1]));
            if j == 0 {
                assert(joined[k] == a.last());
            } else {
                assert(joined[k] == b[j]);
            }
            assert(joined[k + 1] == b[j + 1]);
        }
    }
    assert(threads(calls, joined));
}

} // verus!
