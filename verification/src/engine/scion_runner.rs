use vstd::prelude::*;
use crate::engine::game_layer::{all_stops, plan, settle, well_formed, LayerError, LayerModel, LayerStack};
use crate::engine::layer_controller::RequestModel;
use crate::engine::layer_machine::GameLayerMachine;
use crate::engine::scene::{started_after, Scene, SceneAction, SceneMachine};
use crate::engine::scheduler::{run_of, Scheduler};
use crate::engine::state::GameState;
use crate::engine::system::{chain, lemma_chain_empty, lemma_chain_join};
use crate::engine::world::GameData;

verus! {

/// The scene and the layers of a game as the contracts see them.
pub struct Lifecycle<F> {
    pub scene: Option<Scene<F>>,
    pub scene_started: bool,
    /// The layers from the bottom of the stack to its top.
    pub layers: Seq<LayerModel<F>>,
}

impl<F: Fn(GameData) -> GameData> Lifecycle<F> {
    /// The hooks that `action` calls, in order: those of the scene, then
    /// those of the layers from the top of the stack down.
    pub open spec fn hooks(self, action: SceneAction) -> Seq<F> {
        let of_scene = match self.scene {
            Some(scene) => scene.hooks_for(action, self.scene_started),
            None => Seq::empty(),
        };
        of_scene + plan(self.layers, action)
    }

    /// The scene and the layers once `action` was performed.
    pub open spec fn after(self, action: SceneAction) -> Lifecycle<F> {
        Lifecycle {
            scene: self.scene,
            scene_started: self.scene is Some && started_after(action),
            layers: settle(self.layers, action),
        }
    }

    /// The hooks that shutdown calls: `on_stop` of the scene, then of every
    /// layer from the top of the stack down.
    pub open spec fn stops(self) -> Seq<F> {
        let of_scene = match self.scene {
            Some(scene) => seq![scene.on_stop],
            None => Seq::empty(),
        };
        of_scene + all_stops(self.layers)
    }
}

/// The frame driver: what a game is made of while it runs.
pub struct ScionRunner<F: Fn(GameData) -> GameData, P: Fn(&GameState) -> bool> {
    pub game_data: GameData,
    pub scheduler: Scheduler<F, P>,
    pub layer_machine: SceneMachine<F>,
    pub layers: GameLayerMachine<F>,
    /// The errors of the layer requests that could not be met, oldest first.
    pub layer_errors: Vec<LayerError>,
    /// Whether the first frame has been played.
    pub started: bool,
}

/// `post` is `pre` with no layer request left in it.
pub open spec fn requests_taken(pre: GameData, post: GameData) -> bool {
    &&& post.layers@ == Seq::<RequestModel>::empty()
    &&& post.state == pre.state
    &&& post.time == pre.time
    &&& post.window == pre.window
    &&& post.events == pre.events
    &&& post.resources == pre.resources
}

/// Performs `action` on the scene, then on the layers.
pub fn propagate<F: Fn(GameData) -> GameData>(
    machine: &mut SceneMachine<F>,
    layers: &mut LayerStack<F>,
    action: SceneAction,
    world: GameData,
) -> (out: GameData)
    ensures
        chain(old(machine).plan(action) + plan(old(layers)@, action), world, out),
        final(machine).scene() == old(machine).scene(),
        final(machine).started() == (old(machine).scene() is Some && started_after(action)),
        final(layers)@ == settle(old(layers)@, action),
        well_formed(final(layers)@),
{
    let ghost scene_hooks = machine.plan(action);
    let ghost layer_hooks = plan(layers@, action);
    let mid = machine.apply_scene_action(action, world);
    let out = layers.apply_action(action, mid);
    proof {
        lemma_chain_join(scene_hooks, layer_hooks, world, mid, out);
    }
    out
}

impl<F: Fn(GameData) -> GameData, P: Fn(&GameState) -> bool> ScionRunner<F, P> {
    /// The scene and the layer stack of this runner.
    pub open spec fn lifecycle(self) -> Lifecycle<F> {
        Lifecycle {
            scene: self.layer_machine.scene(),
            scene_started: self.layer_machine.started(),
            layers: self.layers@.stack,
        }
    }

    /// The scene and the layers as a frame finds them once `Start` was
    /// propagated, which happens in the first frame only.
    pub open spec fn entered(self) -> Lifecycle<F> {
        if self.started {
            self.lifecycle()
        } else {
            self.lifecycle().after(SceneAction::Start)
        }
    }

    /// The hooks called before the systems run: in the first frame those of
    /// `Start`, then in every frame those of `Update`.
    pub open spec fn opening(self) -> Seq<F> {
        let starts = if self.started {
            Seq::empty()
        } else {
            self.lifecycle().hooks(SceneAction::Start)
        };
        starts + self.entered().hooks(SceneAction::Update)
    }

    /// The hooks called after the systems ran: those of `LateUpdate`.
    pub open spec fn closing(self) -> Seq<F> {
        self.entered().after(SceneAction::Update).hooks(SceneAction::LateUpdate)
    }

    /// The store goes through one frame that took `delta`: the opening hooks
    /// take it to `updated`; the time resource is advanced; one pass of the
    /// scheduler takes it to `scheduled`; the closing hooks take it to `out`.
    pub open spec fn frame_steps(
        self,
        delta: u64,
        updated: GameData,
        scheduled: GameData,
        out: GameData,
    ) -> bool {
        &&& chain(self.opening(), self.game_data, updated)
        &&& run_of(self.scheduler@, updated.after_frame(delta), scheduled)
        &&& chain(self.closing(), scheduled, out)
    }

    /// One frame that took `delta` can take the runner to `next`.
    pub open spec fn frame(self, delta: u64, next: Self) -> bool {
        &&& next.started
        &&& next.scheduler@ == self.scheduler@
        &&& next.layers@.shelf == self.layers@.shelf
        &&& next.layer_errors@ == self.layer_errors@
        &&& next.lifecycle() == self.entered().after(SceneAction::Update).after(SceneAction::LateUpdate)
        &&& exists|updated: GameData, scheduled: GameData| #[trigger]
            self.frame_steps(delta, updated, scheduled, next.game_data)
    }

    /// Dealing with the layer requests that wait in the store can take the
    /// runner to `next`: the requests are taken out of the store and dealt
    /// with in order, and the errors of those that cannot be met are noted.
    pub open spec fn settled(self, next: Self) -> bool {
        &&& next.started == self.started
        &&& next.scheduler@ == self.scheduler@
        &&& next.layer_machine.scene() == self.layer_machine.scene()
        &&& next.layer_machine.started() == self.layer_machine.started()
        &&& next.layers@ == self.layers@.after_all(self.game_data.layers@)
        &&& next.layer_errors@ == self.layer_errors@ + self.layers@.errors_all(self.game_data.layers@)
        &&& exists|taken: GameData| #[trigger]
            requests_taken(self.game_data, taken) && chain(
                self.layers@.stops_all(self.game_data.layers@),
                taken,
                next.game_data,
            )
    }

    /// A step is what happens from one frame to the next: the layer requests
    /// made so far are dealt with, then one frame that took `delta` is played.
    pub open spec fn stepped(self, delta: u64, next: Self) -> bool {
        exists|mid: Self| #[trigger] self.settled(mid) && mid.frame(delta, next)
    }

    /// One step for each of `deltas`, in order, can take the runner to `last`.
    pub open spec fn played(self, deltas: Seq<u64>, last: Self) -> bool
        decreases deltas.len(),
    {
        if deltas.len() == 0 {
            last == self
        } else {
            exists|mid: Self| self.played(deltas.drop_last(), mid) && #[trigger] mid.stepped(deltas.last(), last)
        }
    }

    /// Shutdown can take the runner to `last`.
    pub open spec fn stopped(self, last: Self) -> bool {
        &&& last.started == self.started
        &&& last.scheduler@ == self.scheduler@
        &&& last.layers@.shelf == self.layers@.shelf
        &&& last.layer_errors@ == self.layer_errors@
        &&& last.lifecycle() == (Lifecycle {
            scene: self.lifecycle().scene,
            scene_started: false,
            layers: Seq::new(
                self.layers@.stack.len(),
                |j: int| LayerModel { started: false, ..self.layers@.stack[j] },
            ),
        })
        &&& chain(self.lifecycle().stops(), self.game_data, last.game_data)
    }

    /// A runner that has played no frame.
    pub fn new(game_data: GameData, scheduler: Scheduler<F, P>, layer_machine: SceneMachine<F>) -> (r: Self)
        ensures
            r.game_data == game_data,
            r.scheduler == scheduler,
            r.layer_machine == layer_machine,
            r.layers@.stack.len() == 0,
            r.layers@.shelf.len() == 0,
            r.layer_errors@.len() == 0,
            !r.started,
    {
        ScionRunner {
            game_data,
            scheduler,
            layer_machine,
            layers: GameLayerMachine::new(),
            layer_errors: Vec::new(),
            started: false,
        }
    }

    /// Deals with the layer requests that wait in the store.
    pub fn settle_requests(self) -> (next: Self)
        ensures
            self.settled(next),
    {
        let ghost before = self;
        let ScionRunner { mut game_data, scheduler, layer_machine, mut layers, mut layer_errors, started } = self;
        let requests = game_data.layers.take();
        let ghost taken = game_data;
        let (mut errors, world) = layers.apply_pending(&requests, game_data);
        layer_errors.append(&mut errors);
        let next = ScionRunner { game_data: world, scheduler, layer_machine, layers, layer_errors, started };
        proof {
            assert(requests_taken(before.game_data, taken));
        }
        next
    }

    /// Deals with the layer requests made so far, then plays one frame that
    /// took `delta` nanoseconds.
    pub fn step(self, delta: u64) -> (next: Self)
        ensures
            self.stepped(delta, next),
    {
        let mid = self.settle_requests();
        let next = mid.tick(delta);
        proof {
            assert(self.settled(mid) && mid.frame(delta, next));
        }
        next
    }

    /// Plays one frame that took `delta` nanoseconds.
    pub fn tick(self, delta: u64) -> (next: Self)
        ensures
            self.frame(delta, next),
    {
        let ghost before = self;
        let ScionRunner { game_data, scheduler, mut layer_machine, mut layers, layer_errors, started } = self;
        let ghost first = game_data;
        let mut world = game_data;
        if !started {
            world = propagate(&mut layer_machine, &mut layers.stack, SceneAction::Start, world);
        } else {
            proof {
                lemma_chain_empty::<F>(first, first);
            }
        }
        let ghost entered = world;
        let ghost starts = if started {
            Seq::<F>::empty()
        } else {
            before.lifecycle().hooks(SceneAction::Start)
        };
        assert(chain(starts, first, entered));
        world = propagate(&mut layer_machine, &mut layers.stack, SceneAction::Update, world);
        let ghost updated = world;
        proof {
            lemma_chain_join(starts, before.entered().hooks(SceneAction::Update), first, entered, updated);
        }
        world.time.advance(delta);
        assert(world == updated.after_frame(delta));
        world = scheduler.run_once(world);
        let ghost scheduled = world;
        world = propagate(&mut layer_machine, &mut layers.stack, SceneAction::LateUpdate, world);
        let next = ScionRunner {
            game_data: world,
            scheduler,
            layer_machine,
            layers,
            layer_errors,
            started: true,
        };
        proof {
            assert(before.frame_steps(delta, updated, scheduled, next.game_data));
        }
        next
    }

    /// Plays one step for each of `deltas`, in order.
    pub fn run_frames(self, deltas: &Vec<u64>) -> (last: Self)
        ensures
            self.played(deltas@, last),
    {
        let ghost before = self;
        let mut runner = self;
        let mut i: usize = 0;
        proof {
            assert(deltas@.take(0).len() == 0);
        }
        while i < deltas.len()
            invariant
                0 <= i <= deltas@.len(),
                before.played(deltas@.take(i as int), runner),
            decreases deltas@.len() - i,
        {
            let ghost mid = runner;
            runner = runner.step(deltas[i]);
            proof {
                let done = deltas@.take(i + 1);
                assert(done.drop_last() =~= deltas@.take(i as int));
                assert(done.last() == deltas@[i as int]);
                assert(before.played(done.drop_last(), mid) && mid.stepped(done.last(), runner));
                assert(done.len() > 0);
                assert(before.played(done, runner));
            }
            i = i + 1;
        }
        proof {
            assert(deltas@.take(deltas@.len() as int) =~= deltas@);
        }
        runner
    }

    /// Shuts the game down: `on_stop` is called once for the scene and once
    /// for every layer of the stack.
    pub fn stop(self) -> (last: Self)
        ensures
            self.stopped(last),
    {
        let ghost before = self;
        let ScionRunner { game_data, scheduler, mut layer_machine, mut layers, layer_errors, started } = self;
        let ghost scene_hooks = layer_machine.plan(SceneAction::Stop);
        let ghost layer_hooks = all_stops(layers.stack@);
        let mid = layer_machine.apply_scene_action(SceneAction::Stop, game_data);
        let out = layers.stack.stop_all(mid);
        proof {
            lemma_chain_join(scene_hooks, layer_hooks, game_data, mid, out);
        }
        ScionRunner { game_data: out, scheduler, layer_machine, layers, layer_errors, started }
    }
}

} // verus!
