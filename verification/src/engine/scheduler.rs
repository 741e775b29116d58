use vstd::prelude::*;
use crate::engine::state::GameState;
use crate::engine::system::{accepts_all, answers, answers_all, chain, runs, threads};
use crate::engine::world::GameData;

verus! {

/// A registered system: its callback and, for a pausable one, the predicate
/// that holds it back.
pub struct SystemEntry<F, P> {
    pub callback: F,
    pub pause_condition: Option<P>,
}

/// The callback may be called on every store and the predicate asked about every state.
pub open spec fn entry_ready<F: Fn(GameData) -> GameData, P: Fn(&GameState) -> bool>(
    entry: SystemEntry<F, P>,
) -> bool {
    &&& accepts_all(entry.callback)
    &&& entry.pause_condition matches Some(p) ==> answers_all(p)
}

/// What one entry does to the store. A system without a predicate runs. A
/// pausable one asks its predicate about the state as it is then: `skipped`
/// is the answer, and a skipped system leaves the store as it is.
pub open spec fn entry_step<F: Fn(GameData) -> GameData, P: Fn(&GameState) -> bool>(
    entry: SystemEntry<F, P>,
    pre: GameData,
    post: GameData,
    skipped: bool,
) -> bool {
    match entry.pause_condition {
        None => !skipped && runs(entry.callback, pre, post),
        Some(p) => answers(p, pre.state, skipped) && if skipped {
            post == pre
        } else {
            runs(entry.callback, pre, post)
        },
    }
}

/// One pass over `entries` in registration order: entry `k` takes the store
/// from `worlds[k]` to `worlds[k + 1]`, and `skipped[k]` tells whether it
/// was held back.
pub open spec fn is_run<F: Fn(GameData) -> GameData, P: Fn(&GameState) -> bool>(
    entries: Seq<SystemEntry<F, P>>,
    worlds: Seq<GameData>,
    skipped: Seq<bool>,
) -> bool {
    &&& worlds.len() == entries.len() + 1
    &&& skipped.len() == entries.len()
    &&& forall|k: int|
        0 <= k < entries.len() ==> entry_step(#[trigger] entries[k], worlds[k], worlds[k + 1], skipped[k])
}

/// One pass over `entries` can take the store from `pre` to `post`.
pub open spec fn run_of<F: Fn(GameData) -> GameData, P: Fn(&GameState) -> bool>(
    entries: Seq<SystemEntry<F, P>>,
    pre: GameData,
    post: GameData,
) -> bool {
    exists|worlds: Seq<GameData>, skipped: Seq<bool>| #[trigger]
        is_run(entries, worlds, skipped) && worlds[0] == pre && worlds.last() == post
}

/// The callbacks of `entries`, in registration order.
pub open spec fn callbacks<F, P>(entries: Seq<SystemEntry<F, P>>) -> Seq<F> {
    Seq::new(entries.len(), |k: int| entries[k].callback)
}

/// In every pass a system without a predicate runs exactly once, at its
/// place in the registration order.
pub proof fn lemma_unconditional_system_runs<F: Fn(GameData) -> GameData, P: Fn(&GameState) -> bool>(
    entries: Seq<SystemEntry<F, P>>,
    worlds: Seq<GameData>,
    skipped: Seq<bool>,
    k: int,
)
    requires
        is_run(entries, worlds, skipped),
        0 <= k < entries.len(),
        entries[k].pause_condition is None,
    ensures
        !skipped[k],
        runs(entries[k].callback, worlds[k], worlds[k + 1]),
{
    assert(entry_step(entries[k], worlds[k], worlds[k + 1], skipped[k]));
}

/// Where no system has a predicate, a pass is the chain of all callbacks in
/// registration order, each called once.
pub proof fn lemma_unconditional_systems_run_in_order<F: Fn(GameData) -> GameData, P: Fn(&GameState) -> bool>(
    entries: Seq<SystemEntry<F, P>>,
    pre: GameData,
    post: GameData,
)
    requires
        run_of(entries, pre, post),
        forall|k: int| 0 <= k < entries.len() ==> (#[trigger] entries[k]).pause_condition is None,
    ensures
        chain(callbacks(entries), pre, post),
{
    let (worlds, skipped) = choose|worlds: Seq<GameData>, skipped: Seq<bool>| #[trigger]
        is_run(entries, worlds, skipped) && worlds[0] == pre && worlds.last() == post;
    let calls = callbacks(entries);
    assert forall|k: int| 0 <= k < calls.len() implies runs(#[trigger] calls[k], worlds[k], worlds[k + 1]) by {
        assert(entry_step(entries[k], worlds[k], worlds[k + 1], skipped[k]));
    }
    assert(threads(calls, worlds));
}

/// In every pass a pausable system is held back exactly when its predicate
/// answers true for the state at its turn: then it is not called and the
/// store stays as it is; otherwise it is called once.
pub proof fn lemma_pausable_system_obeys_predicate<F: Fn(GameData) -> GameData, P: Fn(&GameState) -> bool>(
    entries: Seq<SystemEntry<F, P>>,
    worlds: Seq<GameData>,
    skipped: Seq<bool>,
    k: int,
)
    requires
        is_run(entries, worlds, skipped),
        0 <= k < entries.len(),
        entries[k].pause_condition is Some,
    ensures
        answers(entries[k].pause_condition->Some_0, worlds[k].state, skipped[k]),
        skipped[k] ==> worlds[k + 1] == worlds[k],
        !skipped[k] ==> runs(entries[k].callback, worlds[k], worlds[k + 1]),
{
    assert(entry_step(entries[k], worlds[k], worlds[k + 1], skipped[k]));
}

/// The systems of a game, in the order of their registration. Systems are
/// added and never removed.
pub struct Scheduler<F: Fn(GameData) -> GameData, P: Fn(&GameState) -> bool> {
    entries: Vec<SystemEntry<F, P>>,
}

impl<F: Fn(GameData) -> GameData, P: Fn(&GameState) -> bool> Scheduler<F, P> {
    #[verifier::type_invariant]
    spec fn inv(self) -> bool {
        forall|i: int| 0 <= i < self.entries@.len() ==> entry_ready(#[trigger] self.entries@[i])
    }

    /// The entries in registration order.
    pub closed spec fn view(&self) -> Seq<SystemEntry<F, P>> {
        self.entries@
    }

    /// A scheduler without systems.
    pub fn new() -> (s: Self)
        ensures
            s@.len() == 0,
    {
        Scheduler { entries: Vec::new() }
    }

    /// Number of registered systems.
    pub fn len(&self) -> (n: usize)
        ensures
            n == self@.len(),
    {
        self.entries.len()
    }

    /// Registers a system that runs in every pass.
    pub fn add_system(&mut self, system: F)
        requires
            accepts_all(system),
        ensures
            final(self)@ == old(self)@.push(SystemEntry { callback: system, pause_condition: None }),
    {
        proof {
            use_type_invariant(&*self);
        }
        let mut entries: Vec<SystemEntry<F, P>> = Vec::new();
        std::mem::swap(&mut self.entries, &mut entries);
        entries.push(SystemEntry { callback: system, pause_condition: None });
        std::mem::swap(&mut self.entries, &mut entries);
    }

    /// Registers a system that is held back while `pause_condition` answers true.
    pub fn add_pausable_system(&mut self, system: F, pause_condition: P)
        requires
            accepts_all(system),
            answers_all(pause_condition),
        ensures
            final(self)@ == old(self)@.push(
                SystemEntry { callback: system, pause_condition: Some(pause_condition) },
            ),
    {
        proof {
            use_type_invariant(&*self);
        }
        let mut entries: Vec<SystemEntry<F, P>> = Vec::new();
        std::mem::swap(&mut self.entries, &mut entries);
        entries.push(SystemEntry { callback: system, pause_condition: Some(pause_condition) });
        std::mem::swap(&mut self.entries, &mut entries);
    }

    /// Goes once over all systems in registration order. The scheduler never
    /// writes the state that the predicates read.
    pub fn run_once(&self, world: GameData) -> (out: GameData)
        ensures
            run_of(self@, world, out),
    {
        proof {
            use_type_invariant(self);
        }
        let ghost mut worlds: Seq<GameData> = seq![world];
        let ghost mut skipped: Seq<bool> = Seq::empty();
        let ghost first = world;
        let mut world = world;
        let mut i: usize = 0;
        while i < self.entries.len()
            invariant
                0 <= i <= self.entries@.len(),
                forall|k: int| 0 <= k < self.entries@.len() ==> entry_ready(#[trigger] self.entries@[k]),
                worlds.len() == i + 1,
                skipped.len() == i,
                worlds[0] == first,
                worlds.last() == world,
                forall|k: int|
                    0 <= k < i ==> entry_step(#[trigger] self.entries@[k], worlds[k], worlds[k + 1], skipped[k]),
            decreases self.entries@.len() - i,
        {
            let entry = &self.entries[i];
            let held = match &entry.pause_condition {
                None => false,
                Some(p) => p(&world.state),
            };
            if !held {
                world = (entry.callback)(world);
            }
            proof {
                worlds = worlds.push(world);
                skipped = skipped.push(held);
            }
            i = i + 1;
        }
        proof {
            assert(is_run(self@, worlds, skipped));
        }
        world
    }
}

} // verus!
