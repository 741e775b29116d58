use vstd::prelude::*;
use crate::engine::system::{accepts_all, chain, lemma_chain_empty, lemma_chain_join, lemma_chain_single, runs};
use crate::engine::world::GameData;

verus! {

/// What is asked of a scene or of the layers of a stack.
#[derive(Clone, Copy, Debug, PartialEq, Eq, Structural)]
pub enum SceneAction {
    Start,
    Update,
    LateUpdate,
    Stop,
}

/// A unit of game logic bound to a lifecycle: the four hooks it answers to.
pub struct Scene<F> {
    pub on_start: F,
    pub update: F,
    pub late_update: F,
    pub on_stop: F,
}

impl<F: Fn(GameData) -> GameData> Scene<F> {
    /// Each hook may be called on every store.
    pub open spec fn ready(self) -> bool {
        &&& accepts_all(self.on_start)
        &&& accepts_all(self.update)
        &&& accepts_all(self.late_update)
        &&& accepts_all(self.on_stop)
    }

    /// The hooks that `action` calls, in order, on logic that has or has not
    /// started: `Start` and `Stop` call their hook; an update of logic that
    /// has not started calls `on_start` first.
    pub open spec fn hooks_for(self, action: SceneAction, started: bool) -> Seq<F> {
        match action {
            SceneAction::Start => seq![self.on_start],
            SceneAction::Update => if started {
                seq![self.update]
            } else {
                seq![self.on_start, self.update]
            },
            SceneAction::LateUpdate => if started {
                seq![self.late_update]
            } else {
                seq![self.on_start, self.late_update]
            },
            SceneAction::Stop => seq![self.on_stop],
        }
    }

    /// Performs `action` on this logic.
    pub fn dispatch(&self, action: SceneAction, started: bool, world: GameData) -> (out: GameData)
        requires
            self.ready(),
        ensures
            chain(self.hooks_for(action, started), world, out),
    {
        match action {
            SceneAction::Start => {
                let out = (self.on_start)(world);
                proof {
                    lemma_chain_single(self.on_start, world, out);
                }
                out
            },
            SceneAction::Update => {
                if started {
                    let out = (self.update)(world);
                    proof {
                        lemma_chain_single(self.update, world, out);
                    }
                    out
                } else {
                    let mid = (self.on_start)(world);
                    let out = (self.update)(mid);
                    proof {
                        lemma_chain_single(self.on_start, world, mid);
                        lemma_chain_single(self.update, mid, out);
                        lemma_chain_join(seq![self.on_start], seq![self.update], world, mid, out);
                        assert(seq![self.on_start] + seq![self.update] =~= seq![self.on_start, self.update]);
                    }
                    out
                }
            },
            SceneAction::LateUpdate => {
                if started {
                    let out = (self.late_update)(world);
                    proof {
                        lemma_chain_single(self.late_update, world, out);
                    }
                    out
                } else {
                    let mid = (self.on_start)(world);
                    let out = (self.late_update)(mid);
                    proof {
                        lemma_chain_single(self.on_start, world, mid);
                        lemma_chain_single(self.late_update, mid, out);
                        lemma_chain_join(seq![self.on_start], seq![self.late_update], world, mid, out);
                        assert(seq![self.on_start] + seq![self.late_update] =~= seq![
                            self.on_start,
                            self.late_update,
                        ]);
                    }
                    out
                }
            },
            SceneAction::Stop => {
                let out = (self.on_stop)(world);
                proof {
                    lemma_chain_single(self.on_stop, world, out);
                }
                out
            },
        }
    }
}

/// Whether logic has started once `action` was performed on it.
pub open spec fn started_after(action: SceneAction) -> bool {
    action != SceneAction::Stop
}

/// Where the single-scene machine stands.
#[derive(Clone, Copy, Debug, PartialEq, Eq, Structural)]
pub enum SceneState {
    /// No scene has started: none is attached, or the attached one waits for its first frame.
    NoActiveScene,
    /// The attached scene is inside `on_start`.
    SceneStarting,
    /// The attached scene has started.
    SceneRunning,
}

/// Holds at most one scene and drives its lifecycle.
pub struct SceneMachine<F: Fn(GameData) -> GameData> {
    current_scene: Option<Scene<F>>,
    current_scene_started: bool,
}

impl<F: Fn(GameData) -> GameData> SceneMachine<F> {
    #[verifier::type_invariant]
    spec fn inv(self) -> bool {
        &&& self.current_scene matches Some(scene) ==> scene.ready()
        &&& self.current_scene is None ==> !self.current_scene_started
    }

    /// The attached scene.
    pub closed spec fn scene(&self) -> Option<Scene<F>> {
        self.current_scene
    }

    /// Whether the attached scene has started.
    pub closed spec fn started(&self) -> bool {
        self.current_scene_started
    }

    /// The hooks that `action` calls on this machine, in order.
    pub open spec fn plan(&self, action: SceneAction) -> Seq<F> {
        match self.scene() {
            Some(scene) => scene.hooks_for(action, self.started()),
            None => Seq::empty(),
        }
    }

    /// A machine without a scene.
    pub fn new() -> (m: Self)
        ensures
            m.scene() is None,
            !m.started(),
    {
        SceneMachine { current_scene: None, current_scene_started: false }
    }

    /// A machine with `scene` attached and not started.
    pub fn with_scene(scene: Scene<F>) -> (m: Self)
        requires
            scene.ready(),
        ensures
            m.scene() == Some(scene),
            !m.started(),
    {
        SceneMachine { current_scene: Some(scene), current_scene_started: false }
    }

    /// Where the machine stands between two calls.
    pub fn state(&self) -> (s: SceneState)
        ensures
            s == if self.started() {
                SceneState::SceneRunning
            } else {
                SceneState::NoActiveScene
            },
    {
        if self.current_scene_started {
            SceneState::SceneRunning
        } else {
            SceneState::NoActiveScene
        }
    }

    /// Performs `action` on the attached scene. Without a scene nothing happens.
    pub fn apply_scene_action(&mut self, action: SceneAction, world: GameData) -> (out: GameData)
        ensures
            chain(old(self).plan(action), world, out),
            final(self).scene() == old(self).scene(),
            final(self).started() == (old(self).scene() is Some && started_after(action)),
    {
        proof {
            use_type_invariant(&*self);
        }
        let mut held = SceneMachine::new();
        std::mem::swap(self, &mut held);
        let SceneMachine { current_scene, current_scene_started } = held;
        match current_scene {
            Some(scene) => {
                let out = scene.dispatch(action, current_scene_started, world);
                let started = match action {
                    SceneAction::Stop => false,
                    _ => true,
                };
                *self = SceneMachine { current_scene: Some(scene), current_scene_started: started };
                out
            },
            None => {
                proof {
                    lemma_chain_empty::<F>(world, world);
                }
                world
            },
        }
    }

    /// Attaches `scene` in place of the current one. A scene that was running
    /// is stopped first; the new one waits, not started, for its first frame.
    pub fn set_scene(&mut self, scene: Scene<F>, world: GameData) -> (out: GameData)
        requires
            scene.ready(),
        ensures
            final(self).scene() == Some(scene),
            !final(self).started(),
            match old(self).scene() {
                Some(previous) if old(self).started() => runs(previous.on_stop, world, out),
                _ => out == world,
            },
    {
        proof {
            use_type_invariant(&*self);
        }
        let mut held = SceneMachine::with_scene(scene);
        std::mem::swap(self, &mut held);
        let SceneMachine { current_scene, current_scene_started } = held;
        match current_scene {
            Some(previous) => {
                if current_scene_started {
                    (previous.on_stop)(world)
                } else {
                    world
                }
            },
            None => world,
        }
    }
}

} // verus!
