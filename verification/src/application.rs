use vstd::prelude::*;
use crate::config::scion_config::ScionConfig;
use crate::engine::application_builder::{initial_window, ScionBuilder};
use crate::engine::scene::SceneMachine;
use crate::engine::scheduler::Scheduler;
use crate::engine::scion_runner::{Lifecycle, ScionRunner};
use crate::engine::state::GameState;
use crate::engine::world::GameData;

verus! {

/// `Scion` is the entry point of any application made with this library.
pub struct Scion<F: Fn(GameData) -> GameData, P: Fn(&GameState) -> bool> {
    pub config: ScionConfig,
    pub game_data: GameData,
    pub scheduler: Scheduler<F, P>,
    pub layer_machine: SceneMachine<F>,
}

impl<F: Fn(GameData) -> GameData, P: Fn(&GameState) -> bool> Scion<F, P> {
    /// Creates a new application that will use the provided configuration.
    pub fn app_with_config(app_config: ScionConfig) -> (b: ScionBuilder<F, P>)
        ensures
            b.config() == app_config,
            b.systems().len() == 0,
            b.scene() is None,
            b.world().is_fresh(initial_window(app_config)),
    {
        ScionBuilder::new(app_config)
    }

    /// The runner is the one that this application launches: it has the
    /// application's store, systems and scene, no layer, and has played no frame.
    pub open spec fn launches(&self, runner: ScionRunner<F, P>) -> bool {
        &&& runner.game_data == self.game_data
        &&& runner.scheduler@ == self.scheduler@
        &&& runner.lifecycle() == (Lifecycle {
            scene: self.layer_machine.scene(),
            scene_started: self.layer_machine.started(),
            layers: Seq::empty(),
        })
        &&& runner.layers@.shelf.len() == 0
        &&& runner.layer_errors@.len() == 0
        &&& !runner.started
    }

    /// The frame driver of this application, before its first frame.
    pub fn runner(self) -> (r: ScionRunner<F, P>)
        ensures
            self.launches(r),
    {
        let Scion { config: _, game_data, scheduler, layer_machine } = self;
        let r = ScionRunner::new(game_data, scheduler, layer_machine);
        proof {
            assert(r.lifecycle().layers =~= Seq::empty());
        }
        r
    }

    /// Runs the application: one frame for each of `deltas`, the durations
    /// of the frames in nanoseconds, and then the shutdown.
    pub fn run(self, deltas: &Vec<u64>) -> (last: ScionRunner<F, P>)
        ensures
            exists|fresh: ScionRunner<F, P>, played: ScionRunner<F, P>|
                self.launches(fresh) && #[trigger] fresh.played(deltas@, played) && played.stopped(last),
    {
        let fresh = self.runner();
        let played = fresh.run_frames(deltas);
        played.stop()
    }
}

} // verus!
