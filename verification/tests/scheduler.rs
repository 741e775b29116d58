use scion::engine::events::{PollConfiguration, SubscriberId, TopicConfiguration};
use scion::engine::scheduler::Scheduler;
use scion::engine::state::GameState;
use scion::engine::world::{GameData, WindowDimensions};

type System = fn(GameData) -> GameData;
type Gate = fn(&GameState) -> bool;

fn traced_world() -> (GameData, SubscriberId) {
    let mut world = GameData::new(WindowDimensions { width: 0, height: 0 });
    world.events.create_topic("trace", TopicConfiguration::default()).unwrap();
    let reader = world.events.subscribe("trace", PollConfiguration::default()).unwrap();
    (world, reader)
}

fn mark(mut world: GameData, tag: u8) -> GameData {
    world.events.publish("trace", vec![tag]).unwrap();
    world
}

fn first(world: GameData) -> GameData {
    mark(world, 1)
}

fn second(world: GameData) -> GameData {
    mark(world, 2)
}

fn third(world: GameData) -> GameData {
    mark(world, 3)
}

fn pause_game(mut world: GameData) -> GameData {
    world.state = GameState::Paused;
    mark(world, 9)
}

fn when_paused(state: &GameState) -> bool {
    state.is_paused()
}

fn never(_state: &GameState) -> bool {
    false
}

fn always(_state: &GameState) -> bool {
    true
}

#[test]
fn empty_scheduler_leaves_the_world_alone() {
    let scheduler: Scheduler<System, Gate> = Scheduler::new();
    let (world, reader) = traced_world();
    let mut world = scheduler.run_once(world);
    assert_eq!(scheduler.len(), 0);
    assert_eq!(world.events.poll(&reader), Ok(Vec::<Vec<u8>>::new()));
    assert_eq!(world.state, GameState::Running);
}

#[test]
fn unconditional_systems_run_once_each_in_registration_order() {
    let mut scheduler: Scheduler<System, Gate> = Scheduler::new();
    scheduler.add_system(second);
    scheduler.add_system(first);
    scheduler.add_system(third);
    scheduler.add_system(first);
    assert_eq!(scheduler.len(), 4);
    let (world, reader) = traced_world();
    let mut world = scheduler.run_once(world);
    assert_eq!(world.events.poll(&reader), Ok(vec![vec![2u8], vec![1], vec![3], vec![1]]));
    let mut world = scheduler.run_once(world);
    assert_eq!(world.events.poll(&reader), Ok(vec![vec![2u8], vec![1], vec![3], vec![1]]));
}

#[test]
fn pausable_system_is_skipped_while_its_predicate_holds() {
    let mut scheduler: Scheduler<System, Gate> = Scheduler::new();
    scheduler.add_system(first);
    scheduler.add_pausable_system(second, when_paused);
    scheduler.add_system(third);
    let (mut world, reader) = traced_world();
    world.state = GameState::Paused;
    let mut world = scheduler.run_once(world);
    assert_eq!(world.events.poll(&reader), Ok(vec![vec![1u8], vec![3]]));
    assert_eq!(world.state, GameState::Paused);
}

#[test]
fn pausable_system_runs_while_its_predicate_does_not_hold() {
    let mut scheduler: Scheduler<System, Gate> = Scheduler::new();
    scheduler.add_system(first);
    scheduler.add_pausable_system(second, when_paused);
    scheduler.add_system(third);
    let (world, reader) = traced_world();
    let mut world = scheduler.run_once(world);
    assert_eq!(world.events.poll(&reader), Ok(vec![vec![1u8], vec![2], vec![3]]));
}

#[test]
fn predicates_that_ignore_the_state() {
    let mut scheduler: Scheduler<System, Gate> = Scheduler::new();
    scheduler.add_pausable_system(first, always);
    scheduler.add_pausable_system(second, never);
    let (world, reader) = traced_world();
    let mut world = scheduler.run_once(world);
    assert_eq!(world.events.poll(&reader), Ok(vec![vec![2u8]]));
}

#[test]
fn predicate_sees_the_state_as_it_is_at_its_turn() {
    let mut scheduler: Scheduler<System, Gate> = Scheduler::new();
    scheduler.add_pausable_system(first, when_paused);
    scheduler.add_system(pause_game);
    scheduler.add_pausable_system(second, when_paused);
    let (world, reader) = traced_world();
    let mut world = scheduler.run_once(world);
    assert_eq!(world.events.poll(&reader), Ok(vec![vec![1u8], vec![9]]));
    assert_eq!(world.state, GameState::Paused);
}

#[test]
fn scheduler_does_not_touch_the_game_state() {
    let mut scheduler: Scheduler<System, Gate> = Scheduler::new();
    scheduler.add_pausable_system(first, when_paused);
    let (mut world, _reader) = traced_world();
    world.state = GameState::Paused;
    let world = scheduler.run_once(world);
    assert_eq!(world.state, GameState::Paused);
    assert_eq!(world.time.frames, 0);
}
