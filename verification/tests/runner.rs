use scion::application::Scion;
use scion::config::scion_config::{ScionConfig, ScionConfigBuilder};
use scion::config::window_config::WindowConfigBuilder;
use scion::engine::application_builder::ScionBuilder;
use scion::engine::events::{PollConfiguration, SubscriberId, TopicConfiguration};
use scion::engine::game_layer::GameLayer;
use scion::engine::package::Package;
use scion::engine::scene::{Scene, SceneMachine, SceneState};
use scion::engine::scheduler::Scheduler;
use scion::engine::scion_runner::ScionRunner;
use scion::engine::state::GameState;
use scion::engine::world::{GameData, Time, WindowDimensions};

type Hook = fn(GameData) -> GameData;
type Gate = fn(&GameState) -> bool;

fn mark(mut world: GameData, tag: u8) -> GameData {
    world.events.publish("trace", vec![tag]).unwrap();
    world
}

fn trace(world: &mut GameData, reader: &SubscriberId) -> Vec<u8> {
    world.events.poll(reader).unwrap().into_iter().map(|e| e[0]).collect()
}

fn scene_start(w: GameData) -> GameData { mark(w, 1) }
fn scene_update(w: GameData) -> GameData { mark(w, 2) }
fn scene_late(w: GameData) -> GameData { mark(w, 3) }
fn scene_stop(w: GameData) -> GameData { mark(w, 4) }
fn layer_start(w: GameData) -> GameData { mark(w, 11) }
fn layer_update(w: GameData) -> GameData { mark(w, 12) }
fn layer_late(w: GameData) -> GameData { mark(w, 13) }
fn layer_stop(w: GameData) -> GameData { mark(w, 14) }
fn system_one(w: GameData) -> GameData { mark(w, 51) }
fn system_two(w: GameData) -> GameData { mark(w, 52) }

// Publishes the number of frames that the time resource shows.
fn frame_counter(w: GameData) -> GameData {
    let frames = w.time.frames as u8;
    mark(w, 100 + frames)
}

fn when_paused(state: &GameState) -> bool {
    state.is_paused()
}

fn the_scene() -> Scene<Hook> {
    Scene { on_start: scene_start, update: scene_update, late_update: scene_late, on_stop: scene_stop }
}

fn the_layer() -> Scene<Hook> {
    Scene { on_start: layer_start, update: layer_update, late_update: layer_late, on_stop: layer_stop }
}

struct Tracing;

impl Package<Hook, Gate> for Tracing {
    fn prepare(&self, data: &mut GameData) {
        data.events.create_topic("trace", TopicConfiguration::default()).unwrap();
        data.events.subscribe("trace", PollConfiguration::default()).unwrap();
    }

    fn load(self, builder: ScionBuilder<Hook, Gate>) -> ScionBuilder<Hook, Gate> {
        builder.with_system(system_one)
    }
}

// The one subscription that `Tracing` makes is the first of the bus.
fn tracing_reader() -> SubscriberId {
    let mut scratch = GameData::new(WindowDimensions { width: 0, height: 0 });
    scratch.events.create_topic("trace", TopicConfiguration::default()).unwrap();
    scratch.events.subscribe("trace", PollConfiguration::default()).unwrap()
}

fn traced_runner() -> (ScionRunner<Hook, Gate>, SubscriberId) {
    let mut world = GameData::new(WindowDimensions { width: 800, height: 600 });
    world.events.create_topic("trace", TopicConfiguration::default()).unwrap();
    let reader = world.events.subscribe("trace", PollConfiguration::default()).unwrap();
    let mut scheduler: Scheduler<Hook, Gate> = Scheduler::new();
    scheduler.add_system(system_one);
    scheduler.add_pausable_system(system_two, when_paused);
    let mut runner = ScionRunner::new(world, scheduler, SceneMachine::with_scene(the_scene()));
    runner.layers.stack.push_layer(GameLayer::weak("layer", the_layer())).unwrap();
    (runner, reader)
}

#[test]
fn first_tick_starts_then_updates_runs_systems_and_late_updates() {
    let (runner, reader) = traced_runner();
    assert!(!runner.started);
    let mut runner = runner.tick(16);
    assert!(runner.started);
    assert_eq!(
        trace(&mut runner.game_data, &reader),
        vec![1, 11, 2, 12, 51, 52, 3, 13]
    );
    assert_eq!(runner.layer_machine.state(), SceneState::SceneRunning);
}

#[test]
fn later_ticks_do_not_start_again() {
    let (runner, reader) = traced_runner();
    let mut runner = runner.tick(16);
    let _ = trace(&mut runner.game_data, &reader);
    let mut runner = runner.tick(16);
    assert_eq!(trace(&mut runner.game_data, &reader), vec![2, 12, 51, 52, 3, 13]);
}

#[test]
fn paused_game_skips_pausable_systems_only() {
    let (mut runner, reader) = traced_runner();
    runner.game_data.state = GameState::Paused;
    let mut runner = runner.tick(16);
    assert_eq!(trace(&mut runner.game_data, &reader), vec![1, 11, 2, 12, 51, 3, 13]);
}

#[test]
fn time_advances_after_update_and_before_the_systems() {
    let mut world = GameData::new(WindowDimensions { width: 0, height: 0 });
    world.events.create_topic("trace", TopicConfiguration::default()).unwrap();
    let reader = world.events.subscribe("trace", PollConfiguration::default()).unwrap();
    let mut scheduler: Scheduler<Hook, Gate> = Scheduler::new();
    scheduler.add_system(frame_counter);
    let scene: Scene<Hook> = Scene {
        on_start: scene_start,
        update: frame_counter,
        late_update: frame_counter,
        on_stop: scene_stop,
    };
    let runner = ScionRunner::new(world, scheduler, SceneMachine::with_scene(scene));
    let mut runner = runner.tick(5);
    // update saw 0 frames; the system and late_update saw 1
    assert_eq!(trace(&mut runner.game_data, &reader), vec![1, 100, 101, 101]);
    assert_eq!(runner.game_data.time, Time { delta: 5, elapsed: 5, frames: 1 });
    let runner = runner.tick(7);
    assert_eq!(runner.game_data.time, Time { delta: 7, elapsed: 12, frames: 2 });
}

#[test]
fn time_stops_at_the_largest_value() {
    let mut time = Time { delta: 0, elapsed: u64::MAX - 3, frames: u64::MAX };
    time.advance(10);
    assert_eq!(time, Time { delta: 10, elapsed: u64::MAX, frames: u64::MAX });
    let mut time = Time::new();
    time.advance(0);
    assert_eq!(time, Time { delta: 0, elapsed: 0, frames: 1 });
}

#[test]
fn run_frames_plays_one_frame_per_duration() {
    let (runner, reader) = traced_runner();
    let mut runner = runner.run_frames(&vec![10, 20, 30]);
    assert_eq!(
        trace(&mut runner.game_data, &reader),
        vec![1, 11, 2, 12, 51, 52, 3, 13, 2, 12, 51, 52, 3, 13, 2, 12, 51, 52, 3, 13]
    );
    assert_eq!(runner.game_data.time, Time { delta: 30, elapsed: 60, frames: 3 });
}

#[test]
fn run_frames_without_frames_changes_nothing() {
    let (runner, reader) = traced_runner();
    let mut runner = runner.run_frames(&Vec::new());
    assert!(!runner.started);
    assert_eq!(trace(&mut runner.game_data, &reader), Vec::<u8>::new());
    assert_eq!(runner.game_data.time, Time::new());
}

#[test]
fn stop_reaches_the_scene_and_every_layer() {
    let (runner, reader) = traced_runner();
    let mut runner = runner.tick(1);
    let _ = trace(&mut runner.game_data, &reader);
    let mut runner = runner.stop();
    assert_eq!(trace(&mut runner.game_data, &reader), vec![4, 14]);
    assert_eq!(runner.layer_machine.state(), SceneState::NoActiveScene);
}

#[test]
fn builder_collects_systems_in_order_and_runs_them() {
    let config = ScionConfigBuilder::new()
        .with_window_config(WindowConfigBuilder::new().with_dimensions((768, 768)).get())
        .get();
    let builder: ScionBuilder<Hook, Gate> = Scion::app_with_config(config);
    let mut last = builder
        .with_package(Tracing)
        .with_system(system_two)
        .with_pausable_system(frame_counter, when_paused)
        .with_scene(the_scene())
        .run(&vec![4, 4]);
    let reader = tracing_reader();
    assert_eq!(
        trace(&mut last.game_data, &reader),
        vec![1, 2, 51, 52, 101, 3, 2, 51, 52, 102, 3, 4]
    );
    assert_eq!(last.game_data.window, WindowDimensions { width: 768, height: 768 });
    assert_eq!(last.game_data.time, Time { delta: 4, elapsed: 8, frames: 2 });
    assert!(last.started);
}

#[test]
fn build_hands_the_parts_over() {
    let builder: ScionBuilder<Hook, Gate> = ScionBuilder::new(ScionConfig::default());
    let app = builder.with_system(system_one).with_scene(the_scene()).build();
    assert_eq!(app.config.app_name, "Scion game");
    assert_eq!(app.scheduler.len(), 1);
    assert_eq!(app.layer_machine.state(), SceneState::NoActiveScene);
    assert_eq!(app.game_data.window, WindowDimensions { width: 0, height: 0 });
    assert_eq!(app.game_data.state, GameState::Running);
    let runner = app.runner();
    assert!(!runner.started);
    assert_eq!(runner.layers.stack.len(), 0);
}

#[test]
fn resize_changes_the_window_only() {
    let mut world = GameData::new(WindowDimensions { width: 1, height: 2 });
    world.resize(640, 480);
    assert_eq!(world.window, WindowDimensions { width: 640, height: 480 });
    assert_eq!(world.state, GameState::Running);
    assert_eq!(world.time, Time::new());
}
