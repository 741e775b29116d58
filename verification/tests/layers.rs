use scion::engine::events::{PollConfiguration, SubscriberId, TopicConfiguration};
use scion::engine::game_layer::{GameLayer, LayerError, LayerStack, LayerStrength};
use scion::engine::scene::{Scene, SceneAction, SceneMachine, SceneState};
use scion::engine::world::{GameData, WindowDimensions};

type Hook = fn(GameData) -> GameData;

fn traced_world() -> (GameData, SubscriberId) {
    let mut world = GameData::new(WindowDimensions { width: 0, height: 0 });
    world.events.create_topic("trace", TopicConfiguration::default()).unwrap();
    let reader = world.events.subscribe("trace", PollConfiguration::default()).unwrap();
    (world, reader)
}

fn mark(mut world: GameData, tag: u8) -> GameData {
    world.events.publish("trace", vec![tag]).unwrap();
    world
}

fn trace(world: &mut GameData, reader: &SubscriberId) -> Vec<u8> {
    world.events.poll(reader).unwrap().into_iter().map(|e| e[0]).collect()
}

// Tags: tens digit names the layer, units digit the hook
// (1 on_start, 2 update, 3 late_update, 4 on_stop).
fn a_start(w: GameData) -> GameData { mark(w, 11) }
fn a_update(w: GameData) -> GameData { mark(w, 12) }
fn a_late(w: GameData) -> GameData { mark(w, 13) }
fn a_stop(w: GameData) -> GameData { mark(w, 14) }
fn b_start(w: GameData) -> GameData { mark(w, 21) }
fn b_update(w: GameData) -> GameData { mark(w, 22) }
fn b_late(w: GameData) -> GameData { mark(w, 23) }
fn b_stop(w: GameData) -> GameData { mark(w, 24) }
fn c_start(w: GameData) -> GameData { mark(w, 31) }
fn c_update(w: GameData) -> GameData { mark(w, 32) }
fn c_late(w: GameData) -> GameData { mark(w, 33) }
fn c_stop(w: GameData) -> GameData { mark(w, 34) }
fn d_start(w: GameData) -> GameData { mark(w, 41) }
fn d_update(w: GameData) -> GameData { mark(w, 42) }
fn d_late(w: GameData) -> GameData { mark(w, 43) }
fn d_stop(w: GameData) -> GameData { mark(w, 44) }

fn logic_a() -> Scene<Hook> {
    Scene { on_start: a_start, update: a_update, late_update: a_late, on_stop: a_stop }
}

fn logic_b() -> Scene<Hook> {
    Scene { on_start: b_start, update: b_update, late_update: b_late, on_stop: b_stop }
}

fn logic_c() -> Scene<Hook> {
    Scene { on_start: c_start, update: c_update, late_update: c_late, on_stop: c_stop }
}

fn logic_d() -> Scene<Hook> {
    Scene { on_start: d_start, update: d_update, late_update: d_late, on_stop: d_stop }
}

#[test]
fn empty_stack_ignores_every_action() {
    let mut stack: LayerStack<Hook> = LayerStack::new();
    let (mut world, reader) = traced_world();
    world = stack.apply_action(SceneAction::Start, world);
    world = stack.apply_action(SceneAction::Update, world);
    world = stack.apply_action(SceneAction::LateUpdate, world);
    world = stack.apply_action(SceneAction::Stop, world);
    world = stack.stop_all(world);
    let (popped, mut world) = stack.pop_layer(world);
    assert!(popped.is_none());
    assert_eq!(trace(&mut world, &reader), Vec::<u8>::new());
    assert_eq!(stack.len(), 0);
}

#[test]
fn update_stops_at_the_first_strong_layer() {
    // bottom L3 weak, L2 strong, top L1 weak
    let mut stack: LayerStack<Hook> = LayerStack::new();
    stack.push_layer(GameLayer::weak("L3", logic_c())).unwrap();
    stack.push_layer(GameLayer::strong("L2", logic_b())).unwrap();
    stack.push_layer(GameLayer::weak("L1", logic_a())).unwrap();
    let (mut world, reader) = traced_world();
    world = stack.apply_action(SceneAction::Start, world);
    assert_eq!(trace(&mut world, &reader), vec![11, 21]);
    world = stack.apply_action(SceneAction::Update, world);
    assert_eq!(trace(&mut world, &reader), vec![12, 22]);
    world = stack.apply_action(SceneAction::LateUpdate, world);
    assert_eq!(trace(&mut world, &reader), vec![13, 23]);
    world = stack.apply_action(SceneAction::Stop, world);
    assert_eq!(trace(&mut world, &reader), vec![14, 24]);
}

#[test]
fn weak_layers_let_every_layer_act_from_the_top_down() {
    let mut stack: LayerStack<Hook> = LayerStack::new();
    stack.push_layer(GameLayer::weak("C", logic_c())).unwrap();
    stack.push_layer(GameLayer::weak("B", logic_b())).unwrap();
    stack.push_layer(GameLayer::weak("A", logic_a())).unwrap();
    let (mut world, reader) = traced_world();
    world = stack.apply_action(SceneAction::Start, world);
    world = stack.apply_action(SceneAction::Update, world);
    assert_eq!(trace(&mut world, &reader), vec![11, 21, 31, 12, 22, 32]);
}

#[test]
fn strong_layer_on_top_acts_alone() {
    let mut stack: LayerStack<Hook> = LayerStack::new();
    stack.push_layer(GameLayer::weak("B", logic_b())).unwrap();
    stack.push_layer(GameLayer::strong("A", logic_a())).unwrap();
    let (mut world, reader) = traced_world();
    world = stack.apply_action(SceneAction::Start, world);
    world = stack.apply_action(SceneAction::Update, world);
    assert_eq!(trace(&mut world, &reader), vec![11, 12]);
}

#[test]
fn update_starts_a_layer_that_has_not_started() {
    let mut stack: LayerStack<Hook> = LayerStack::new();
    stack.push_layer(GameLayer::weak("A", logic_a())).unwrap();
    let (mut world, reader) = traced_world();
    world = stack.apply_action(SceneAction::Update, world);
    world = stack.apply_action(SceneAction::Update, world);
    assert_eq!(trace(&mut world, &reader), vec![11, 12, 12]);
}

#[test]
fn late_update_starts_a_layer_that_has_not_started() {
    let mut stack: LayerStack<Hook> = LayerStack::new();
    stack.push_layer(GameLayer::weak("A", logic_a())).unwrap();
    let (mut world, reader) = traced_world();
    world = stack.apply_action(SceneAction::LateUpdate, world);
    world = stack.apply_action(SceneAction::Update, world);
    assert_eq!(trace(&mut world, &reader), vec![11, 13, 12]);
}

#[test]
fn layer_uncovered_by_a_pop_starts_at_its_first_update() {
    let mut stack: LayerStack<Hook> = LayerStack::new();
    stack.push_layer(GameLayer::weak("B", logic_b())).unwrap();
    stack.push_layer(GameLayer::strong("A", logic_a())).unwrap();
    let (mut world, reader) = traced_world();
    world = stack.apply_action(SceneAction::Start, world);
    world = stack.apply_action(SceneAction::Update, world);
    assert_eq!(trace(&mut world, &reader), vec![11, 12]);
    let (popped, world) = stack.pop_layer(world);
    assert_eq!(popped.unwrap().key, "A");
    let mut world = stack.apply_action(SceneAction::Update, world);
    assert_eq!(trace(&mut world, &reader), vec![14, 21, 22]);
    assert_eq!(stack.len(), 1);
}

#[test]
fn replace_keeps_the_position_and_starts_before_update() {
    // bottom C, B, top A, all weak
    let mut stack: LayerStack<Hook> = LayerStack::new();
    stack.push_layer(GameLayer::weak("C", logic_c())).unwrap();
    stack.push_layer(GameLayer::weak("B", logic_b())).unwrap();
    stack.push_layer(GameLayer::weak("A", logic_a())).unwrap();
    let (mut world, reader) = traced_world();
    world = stack.apply_action(SceneAction::Start, world);
    world = stack.apply_action(SceneAction::Update, world);
    assert_eq!(trace(&mut world, &reader), vec![11, 21, 31, 12, 22, 32]);
    let (r, world) = stack.replace_layer("B", GameLayer::weak("B", logic_d()), world);
    assert_eq!(r, Ok(()));
    assert_eq!(stack.len(), 3);
    let mut world = stack.apply_action(SceneAction::Update, world);
    // the old B stopped; the new one, in the same place, starts and then updates
    assert_eq!(trace(&mut world, &reader), vec![24, 12, 41, 42, 32]);
    world = stack.apply_action(SceneAction::Update, world);
    assert_eq!(trace(&mut world, &reader), vec![12, 42, 32]);
}

#[test]
fn replace_can_change_strength_and_key() {
    let mut stack: LayerStack<Hook> = LayerStack::new();
    stack.push_layer(GameLayer::weak("C", logic_c())).unwrap();
    stack.push_layer(GameLayer::weak("B", logic_b())).unwrap();
    stack.push_layer(GameLayer::weak("A", logic_a())).unwrap();
    let (world, reader) = traced_world();
    let (r, world) = stack.replace_layer("B", GameLayer::strong("D", logic_d()), world);
    assert_eq!(r, Ok(()));
    let mut world = stack.apply_action(SceneAction::Update, world);
    assert_eq!(trace(&mut world, &reader), vec![24, 11, 12, 41, 42]);
    // the key B is free again, D is taken
    assert_eq!(stack.push_layer(GameLayer::weak("D", logic_b())), Err(LayerError::DuplicateKey));
    assert_eq!(stack.push_layer(GameLayer::weak("B", logic_b())), Ok(()));
}

#[test]
fn replace_of_an_unknown_key_fails() {
    let mut stack: LayerStack<Hook> = LayerStack::new();
    stack.push_layer(GameLayer::weak("A", logic_a())).unwrap();
    let (world, reader) = traced_world();
    let (r, mut world) = stack.replace_layer("B", GameLayer::weak("B", logic_b()), world);
    assert_eq!(r, Err(LayerError::UnknownKey));
    assert_eq!(trace(&mut world, &reader), Vec::<u8>::new());
    assert_eq!(stack.len(), 1);
}

#[test]
fn replace_by_a_key_that_another_layer_has_fails() {
    let mut stack: LayerStack<Hook> = LayerStack::new();
    stack.push_layer(GameLayer::weak("A", logic_a())).unwrap();
    stack.push_layer(GameLayer::weak("B", logic_b())).unwrap();
    let (world, reader) = traced_world();
    let (r, world) = stack.replace_layer("B", GameLayer::weak("A", logic_c()), world);
    assert_eq!(r, Err(LayerError::DuplicateKey));
    let mut world = stack.apply_action(SceneAction::Update, world);
    assert_eq!(trace(&mut world, &reader), vec![21, 22, 11, 12]);
}

#[test]
fn push_of_a_duplicate_key_fails() {
    let mut stack: LayerStack<Hook> = LayerStack::new();
    assert_eq!(stack.push_layer(GameLayer::weak("A", logic_a())), Ok(()));
    assert_eq!(stack.push_layer(GameLayer::strong("A", logic_b())), Err(LayerError::DuplicateKey));
    assert_eq!(stack.len(), 1);
    let (world, reader) = traced_world();
    let mut world = stack.apply_action(SceneAction::Update, world);
    assert_eq!(trace(&mut world, &reader), vec![11, 12]);
}

#[test]
fn stop_all_reaches_the_layers_below_a_strong_one() {
    let mut stack: LayerStack<Hook> = LayerStack::new();
    stack.push_layer(GameLayer::weak("C", logic_c())).unwrap();
    stack.push_layer(GameLayer::strong("B", logic_b())).unwrap();
    stack.push_layer(GameLayer::weak("A", logic_a())).unwrap();
    let (world, reader) = traced_world();
    let mut world = stack.stop_all(world);
    assert_eq!(trace(&mut world, &reader), vec![14, 24, 34]);
    assert_eq!(stack.len(), 3);
    // stopped layers start again before they update
    world = stack.apply_action(SceneAction::Update, world);
    assert_eq!(trace(&mut world, &reader), vec![11, 12, 21, 22]);
}

#[test]
fn layer_constructors_set_key_and_strength() {
    let strong: GameLayer<Hook> = GameLayer::strong("menu", logic_a());
    let weak: GameLayer<Hook> = GameLayer::weak("hud", logic_b());
    assert_eq!(strong.key, "menu");
    assert_eq!(strong.strength, LayerStrength::Strong);
    assert_eq!(weak.key, "hud");
    assert_eq!(weak.strength, LayerStrength::Weak);
}

#[test]
fn machine_without_scene_does_nothing() {
    let mut machine: SceneMachine<Hook> = SceneMachine::new();
    assert_eq!(machine.state(), SceneState::NoActiveScene);
    let (world, reader) = traced_world();
    let world = machine.apply_scene_action(SceneAction::Start, world);
    let mut world = machine.apply_scene_action(SceneAction::Update, world);
    assert_eq!(trace(&mut world, &reader), Vec::<u8>::new());
    assert_eq!(machine.state(), SceneState::NoActiveScene);
}

#[test]
fn scene_starts_on_its_first_frame_and_then_updates() {
    let mut machine: SceneMachine<Hook> = SceneMachine::with_scene(logic_a());
    assert_eq!(machine.state(), SceneState::NoActiveScene);
    let (world, reader) = traced_world();
    let mut world = machine.apply_scene_action(SceneAction::Start, world);
    assert_eq!(machine.state(), SceneState::SceneRunning);
    assert_eq!(trace(&mut world, &reader), vec![11]);
    world = machine.apply_scene_action(SceneAction::Update, world);
    world = machine.apply_scene_action(SceneAction::LateUpdate, world);
    world = machine.apply_scene_action(SceneAction::Update, world);
    assert_eq!(trace(&mut world, &reader), vec![12, 13, 12]);
    world = machine.apply_scene_action(SceneAction::Stop, world);
    assert_eq!(trace(&mut world, &reader), vec![14]);
    assert_eq!(machine.state(), SceneState::NoActiveScene);
}

#[test]
fn scene_that_was_never_started_starts_at_its_first_update() {
    let mut machine: SceneMachine<Hook> = SceneMachine::with_scene(logic_a());
    let (world, reader) = traced_world();
    let mut world = machine.apply_scene_action(SceneAction::Update, world);
    assert_eq!(trace(&mut world, &reader), vec![11, 12]);
    assert_eq!(machine.state(), SceneState::SceneRunning);
}

#[test]
fn set_scene_stops_a_running_scene() {
    let mut machine: SceneMachine<Hook> = SceneMachine::with_scene(logic_a());
    let (world, reader) = traced_world();
    let world = machine.apply_scene_action(SceneAction::Update, world);
    let mut world = machine.set_scene(logic_b(), world);
    assert_eq!(machine.state(), SceneState::NoActiveScene);
    assert_eq!(trace(&mut world, &reader), vec![11, 12, 14]);
    world = machine.apply_scene_action(SceneAction::Update, world);
    assert_eq!(trace(&mut world, &reader), vec![21, 22]);
}

#[test]
fn set_scene_leaves_a_waiting_scene_unstopped() {
    let mut machine: SceneMachine<Hook> = SceneMachine::with_scene(logic_a());
    let (world, reader) = traced_world();
    let mut world = machine.set_scene(logic_b(), world);
    assert_eq!(trace(&mut world, &reader), Vec::<u8>::new());
    let mut fresh: SceneMachine<Hook> = SceneMachine::new();
    world = fresh.set_scene(logic_c(), world);
    assert_eq!(trace(&mut world, &reader), Vec::<u8>::new());
}
