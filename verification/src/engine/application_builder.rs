use vstd::prelude::*;
use crate::application::Scion;
use crate::config::scion_config::ScionConfig;
use crate::engine::package::Package;
use crate::engine::scene::{Scene, SceneMachine};
use crate::engine::scheduler::{Scheduler, SystemEntry};
use crate::engine::scion_runner::{Lifecycle, ScionRunner};
use crate::engine::state::GameState;
use crate::engine::system::{accepts_all, answers_all};
use crate::engine::world::{GameData, WindowDimensions};

verus! {

/// The size of the window that `config` asks for, or nothing by nothing
/// where it asks for none.
pub open spec fn initial_window(config: ScionConfig) -> WindowDimensions {
    match config.window_config {
        Some(window) => match window.dimensions {
            Some(size) => WindowDimensions { width: size.0, height: size.1 },
            None => WindowDimensions { width: 0, height: 0 },
        },
        None => WindowDimensions { width: 0, height: 0 },
    }
}

/// Builder of an application: it collects the systems, the scene and the
/// store, and runs the game.
pub struct ScionBuilder<F: Fn(GameData) -> GameData, P: Fn(&GameState) -> bool> {
    config: ScionConfig,
    scheduler: Scheduler<F, P>,
    scene: Option<Scene<F>>,
    world: GameData,
}

impl<F: Fn(GameData) -> GameData, P: Fn(&GameState) -> bool> ScionBuilder<F, P> {
    #[verifier::type_invariant]
    spec fn inv(self) -> bool {
        self.scene matches Some(scene) ==> scene.ready()
    }

    /// The configuration that the application was created with.
    pub closed spec fn config(&self) -> ScionConfig {
        self.config
    }

    /// The systems registered so far, in registration order.
    pub closed spec fn systems(&self) -> Seq<SystemEntry<F, P>> {
        self.scheduler@
    }

    /// The scene set so far.
    pub closed spec fn scene(&self) -> Option<Scene<F>> {
        self.scene
    }

    /// The store as the packages prepared it.
    pub closed spec fn world(&self) -> GameData {
        self.world
    }

    /// The runner is the one that this builder launches: it has the
    /// builder's store, systems and scene, no layer, and has played no frame.
    pub open spec fn launches(&self, runner: ScionRunner<F, P>) -> bool {
        &&& runner.game_data == self.world()
        &&& runner.scheduler@ == self.systems()
        &&& runner.lifecycle() == (Lifecycle {
            scene: self.scene(),
            scene_started: false,
            layers: Seq::empty(),
        })
        &&& runner.layers@.shelf.len() == 0
        &&& runner.layer_errors@.len() == 0
        &&& !runner.started
    }

    /// A builder with no system and no scene, and a fresh store for the
    /// window that `config` asks for.
    pub fn new(config: ScionConfig) -> (b: Self)
        ensures
            b.config() == config,
            b.systems().len() == 0,
            b.scene() is None,
            b.world().is_fresh(initial_window(config)),
    {
        let window = match &config.window_config {
            Some(window) => match window.dimensions {
                Some(size) => WindowDimensions { width: size.0, height: size.1 },
                None => WindowDimensions { width: 0, height: 0 },
            },
            None => WindowDimensions { width: 0, height: 0 },
        };
        ScionBuilder { config, scheduler: Scheduler::new(), scene: None, world: GameData::new(window) }
    }

    /// Specify a system to add to the scheduler.
    pub fn with_system(self, system: F) -> (b: Self)
        requires
            accepts_all(system),
        ensures
            b.systems() == self.systems().push(SystemEntry { callback: system, pause_condition: None }),
            b.config() == self.config(),
            b.scene() == self.scene(),
            b.world() == self.world(),
    {
        proof {
            use_type_invariant(&self);
        }
        let ScionBuilder { config, mut scheduler, scene, world } = self;
        scheduler.add_system(system);
        ScionBuilder { config, scheduler, scene, world }
    }

    /// Specify a system to add to the scheduler with a conditional pausing flag function.
    pub fn with_pausable_system(self, system: F, pause_condition: P) -> (b: Self)
        requires
            accepts_all(system),
            answers_all(pause_condition),
        ensures
            b.systems() == self.systems().push(
                SystemEntry { callback: system, pause_condition: Some(pause_condition) },
            ),
            b.config() == self.config(),
            b.scene() == self.scene(),
            b.world() == self.world(),
    {
        proof {
            use_type_invariant(&self);
        }
        let ScionBuilder { config, mut scheduler, scene, world } = self;
        scheduler.add_pausable_system(system, pause_condition);
        ScionBuilder { config, scheduler, scene, world }
    }

    /// Set the scene to the given one. Only one scene can be executed at a time.
    pub fn with_scene(self, scene: Scene<F>) -> (b: Self)
        requires
            scene.ready(),
        ensures
            b.scene() == Some(scene),
            b.systems() == self.systems(),
            b.config() == self.config(),
            b.world() == self.world(),
    {
        let ScionBuilder { config, scheduler, scene: _, world } = self;
        ScionBuilder { config, scheduler, scene: Some(scene), world }
    }

    /// `handed` is this builder with `store` in the place of its store.
    pub open spec fn with_store(&self, store: GameData, handed: Self) -> bool {
        &&& handed.config() == self.config()
        &&& handed.systems() == self.systems()
        &&& handed.scene() == self.scene()
        &&& handed.world() == store
    }

    /// Lets `package` prepare the store, then register what it brings:
    /// `prepare` is called on the builder's store, `load` on the builder
    /// with the store as `prepare` left it, and what `load` hands back is
    /// the result.
    pub fn with_package<K: Package<F, P>>(self, package: K) -> (b: Self)
        ensures
            exists|store: &mut GameData, handed: ScionBuilder<F, P>|
                #![trigger call_ensures(K::prepare, (&package, store), ()), call_ensures(K::load, (package, handed), b)]
                {
                    &&& *store == self.world()
                    &&& call_ensures(K::prepare, (&package, store), ())
                    &&& self.with_store(*final(store), handed)
                    &&& call_ensures(K::load, (package, handed), b)
                },
    {
        proof {
            use_type_invariant(&self);
        }
        let ScionBuilder { config, scheduler, scene, mut world } = self;
        package.prepare(&mut world);
        let handed = ScionBuilder { config, scheduler, scene, world };
        package.load(handed)
    }

    /// Puts the application together.
    pub fn build(self) -> (app: Scion<F, P>)
        ensures
            app.config == self.config(),
            app.game_data == self.world(),
            app.scheduler@ == self.systems(),
            app.layer_machine.scene() == self.scene(),
            !app.layer_machine.started(),
    {
        proof {
            use_type_invariant(&self);
        }
        let ScionBuilder { config, scheduler, scene, world } = self;
        let layer_machine = match scene {
            Some(scene) => SceneMachine::with_scene(scene),
            None => SceneMachine::new(),
        };
        Scion { config, game_data: world, scheduler, layer_machine }
    }

    /// Builds and runs the application: one frame for each of `deltas`, the
    /// durations of the frames in nanoseconds, and then the shutdown.
    pub fn run(self, deltas: &Vec<u64>) -> (last: ScionRunner<F, P>)
        ensures
            exists|fresh: ScionRunner<F, P>, played: ScionRunner<F, P>|
                self.launches(fresh) && #[trigger] fresh.played(deltas@, played) && played.stopped(last),
    {
        let ghost before = self;
        let app = self.build();
        let last = app.run(deltas);
        proof {
            let (fresh, played) = choose|fresh: ScionRunner<F, P>, played: ScionRunner<F, P>|
                app.launches(fresh) && #[trigger] fresh.played(deltas@, played) && played.stopped(last);
            assert(before.launches(fresh));
        }
        last
    }
}

} // verus!
