use vstd::prelude::*;
use crate::engine::scene::{started_after, Scene, SceneAction};
use crate::engine::system::{chain, lemma_chain_empty, lemma_chain_join, lemma_chain_single, runs};
use crate::engine::world::GameData;

verus! {

/// Whether the layers below this one take part in a frame.
#[derive(Clone, Copy, Debug, PartialEq, Eq, Structural)]
pub enum LayerStrength {
    /// Nothing below a strong layer acts.
    Strong,
    /// The layers below a weak layer act after it.
    Weak,
}

#[derive(Clone, Copy, Debug, PartialEq, Eq, Structural)]
pub enum LayerError {
    /// A layer with that key is in the stack already.
    DuplicateKey,
    /// No layer of the stack has that key.
    UnknownKey,
}

/// A keyed unit of game logic for the stack.
pub struct GameLayer<F> {
    pub key: String,
    pub strength: LayerStrength,
    pub logic: Scene<F>,
}

impl<F: Fn(GameData) -> GameData> GameLayer<F> {
    /// A layer that keeps the layers below it from acting.
    pub fn strong(key: &str, logic: Scene<F>) -> (layer: Self)
        ensures
            layer.key@ == key@,
            layer.strength == LayerStrength::Strong,
            layer.logic == logic,
    {
        GameLayer { key: key.to_owned(), strength: LayerStrength::Strong, logic }
    }

    /// A layer that lets the layers below it act.
    pub fn weak(key: &str, logic: Scene<F>) -> (layer: Self)
        ensures
            layer.key@ == key@,
            layer.strength == LayerStrength::Weak,
            layer.logic == logic,
    {
        GameLayer { key: key.to_owned(), strength: LayerStrength::Weak, logic }
    }

    /// The layer as the contracts see it, given whether it has started.
    pub open spec fn model(self, started: bool) -> LayerModel<F> {
        LayerModel { key: self.key@, strength: self.strength, logic: self.logic, started }
    }
}

/// A layer of the stack as the contracts see it.
pub struct LayerModel<F> {
    pub key: Seq<char>,
    pub strength: LayerStrength,
    pub logic: Scene<F>,
    pub started: bool,
}

/// Every layer can be called and no key occurs twice.
pub open spec fn well_formed<F: Fn(GameData) -> GameData>(layers: Seq<LayerModel<F>>) -> bool {
    &&& forall|i: int| 0 <= i < layers.len() ==> (#[trigger] layers[i]).logic.ready()
    &&& forall|i: int, j: int| 0 <= i < j < layers.len() ==> #[trigger] layers[i].key != #[trigger] layers[j].key
}

/// Whether one of `layers` has `key`.
pub open spec fn has_key<F>(layers: Seq<LayerModel<F>>, key: Seq<char>) -> bool {
    exists|i: int| 0 <= i < layers.len() && (#[trigger] layers[i]).key == key
}

/// Index of the layer that has `key`.
pub open spec fn position_of<F>(layers: Seq<LayerModel<F>>, key: Seq<char>) -> int {
    choose|i: int| 0 <= i < layers.len() && (#[trigger] layers[i]).key == key
}

/// Index of the lowest layer that acts: that of the topmost strong layer,
/// or 0 where no layer is strong. The last layer of the sequence is the top.
pub open spec fn lowest_active<F>(layers: Seq<LayerModel<F>>) -> int
    decreases layers.len(),
{
    if layers.len() == 0 {
        0
    } else if layers.last().strength == LayerStrength::Strong {
        layers.len() - 1
    } else {
        lowest_active(layers.drop_last())
    }
}

/// The hooks that `action` calls, in order: those of the top layer, then,
/// unless the top layer is strong, those of the layers below it.
pub open spec fn plan<F: Fn(GameData) -> GameData>(layers: Seq<LayerModel<F>>, action: SceneAction) -> Seq<F>
    decreases layers.len(),
{
    if layers.len() == 0 {
        Seq::empty()
    } else {
        let top = layers.last();
        let below = if top.strength == LayerStrength::Strong {
            Seq::empty()
        } else {
            plan(layers.drop_last(), action)
        };
        top.logic.hooks_for(action, top.started) + below
    }
}

/// The stack once `action` was performed: the layers that acted have
/// started, or after `Stop` have not; the others are as they were.
pub open spec fn settle<F>(layers: Seq<LayerModel<F>>, action: SceneAction) -> Seq<LayerModel<F>> {
    Seq::new(
        layers.len(),
        |j: int|
            if j >= lowest_active(layers) {
                LayerModel { started: started_after(action), ..layers[j] }
            } else {
                layers[j]
            },
    )
}

/// The `on_stop` hooks of all layers, from the top layer down.
pub open spec fn all_stops<F>(layers: Seq<LayerModel<F>>) -> Seq<F> {
    Seq::new(layers.len(), |k: int| layers[layers.len() - 1 - k].logic.on_stop)
}

struct Slot<F> {
    layer: GameLayer<F>,
    started: bool,
}

spec fn models<F: Fn(GameData) -> GameData>(slots: Seq<Slot<F>>) -> Seq<LayerModel<F>> {
    Seq::new(slots.len(), |i: int| slots[i].layer.model(slots[i].started))
}

/// The layers of a game, the most recently pushed on top.
pub struct LayerStack<F: Fn(GameData) -> GameData> {
    slots: Vec<Slot<F>>,
}

fn find_layer<F: Fn(GameData) -> GameData>(slots: &Vec<Slot<F>>, key: &String) -> (found: Option<usize>)
    ensures
        match found {
            Some(i) => i < slots@.len() && slots@[i as int].layer.key@ == key@,
            None => forall|k: int| 0 <= k < slots@.len() ==> (#[trigger] slots@[k]).layer.key@ != key@,
        },
{
    let mut i: usize = 0;
    while i < slots.len()
        invariant
            0 <= i <= slots@.len(),
            forall|k: int| 0 <= k < i ==> (#[trigger] slots@[k]).layer.key@ != key@,
        decreases slots@.len() - i,
    {
        if slots[i].layer.key == *key {
            return Some(i);
        }
        i = i + 1;
    }
    None
}

/// In a well-formed stack a key belongs to one layer only.
pub proof fn lemma_position_of<F: Fn(GameData) -> GameData>(layers: Seq<LayerModel<F>>, i: int)
    requires
        well_formed(layers),
        0 <= i < layers.len(),
    ensures
        has_key(layers, layers[i].key),
        position_of(layers, layers[i].key) == i,
{
    let key = layers[i].key;
    let c = position_of(layers, key);
    assert(0 <= c < layers.len() && layers[c].key == key);
    if c < i {
        assert(layers[c].key != layers[i].key);
    } else if i < c {
        assert(layers[i].key != layers[c].key);
    }
}

impl<F: Fn(GameData) -> GameData> LayerStack<F> {
    #[verifier::type_invariant]
    spec fn inv(self) -> bool {
        well_formed(models(self.slots@))
    }

    /// The layers from the bottom of the stack to its top.
    pub closed spec fn view(&self) -> Seq<LayerModel<F>> {
        models(self.slots@)
    }

    /// An empty stack.
    pub fn new() -> (stack: Self)
        ensures
            stack@.len() == 0,
    {
        LayerStack { slots: Vec::new() }
    }

    /// Number of layers on the stack.
    pub fn len(&self) -> (n: usize)
        ensures
            n == self@.len(),
    {
        self.slots.len()
    }

    /// Puts `layer`, not started, on top of the stack.
    pub fn push_layer(&mut self, layer: GameLayer<F>) -> (r: Result<(), LayerError>)
        requires
            layer.logic.ready(),
        ensures
            well_formed(final(self)@),
            r is Ok <==> !has_key(old(self)@, layer.key@),
            r is Err ==> r == Err::<(), LayerError>(LayerError::DuplicateKey) && final(self)@ == old(self)@,
            r is Ok ==> final(self)@ == old(self)@.push(layer.model(false)),
    {
        proof {
            use_type_invariant(&*self);
        }
        let mut held = LayerStack::new();
        std::mem::swap(self, &mut held);
        let LayerStack { mut slots } = held;
        let ghost before = models(slots@);
        let ghost old_slots = slots@;
        let found = find_layer(&slots, &layer.key);
        let r = match found {
            Some(i) => {
                assert(before[i as int].key == layer.key@);
                Err(LayerError::DuplicateKey)
            },
            None => {
                slots.push(Slot { layer, started: false });
                proof {
                    let after = models(slots@);
                    assert forall|k: int| 0 <= k < before.len() implies after[k] == before[k] by {
                        assert(slots@[k] == old_slots[k]);
                    }
                    assert(after =~= before.push(layer.model(false)));
                    assert forall|k: int| 0 <= k < before.len() implies (#[trigger] before[k]).key != layer.key@ by {
                        assert(old_slots[k].layer.key@ != layer.key@);
                    }
                }
                Ok(())
            },
        };
        *self = LayerStack { slots };
        r
    }

    /// Takes the top layer off the stack and calls its `on_stop`. An empty stack is left alone.
    pub fn pop_layer(&mut self, world: GameData) -> (r: (Option<GameLayer<F>>, GameData))
        ensures
            well_formed(final(self)@),
            old(self)@.len() == 0 ==> r.0 is None && r.1 == world && final(self)@ == old(self)@,
            old(self)@.len() > 0 ==> {
                &&& final(self)@ == old(self)@.drop_last()
                &&& r.0 matches Some(layer) && layer.model(old(self)@.last().started) == old(self)@.last()
                    && layer.logic.ready()
                &&& runs(old(self)@.last().logic.on_stop, world, r.1)
            },
    {
        proof {
            use_type_invariant(&*self);
        }
        let mut held = LayerStack::new();
        std::mem::swap(self, &mut held);
        let LayerStack { mut slots } = held;
        let ghost before = models(slots@);
        let ghost old_slots = slots@;
        let r = match slots.pop() {
            Some(slot) => {
                proof {
                    let after = models(slots@);
                    assert(before.last() == old_slots.last().layer.model(old_slots.last().started));
                    assert(after =~= before.drop_last());
                }
                let out = (slot.layer.logic.on_stop)(world);
                (Some(slot.layer), out)
            },
            None => {
                proof {
                    assert(models(slots@) =~= before);
                }
                (None, world)
            },
        };
        *self = LayerStack { slots };
        r
    }

    /// Puts `layer`, not started, in the place of the layer that has `key`,
    /// and calls the `on_stop` of the layer that leaves.
    pub fn replace_layer(&mut self, key: &str, layer: GameLayer<F>, world: GameData) -> (r: (
        Result<(), LayerError>,
        GameData,
    ))
        requires
            layer.logic.ready(),
        ensures
            well_formed(final(self)@),
            r.0 == if !has_key(old(self)@, key@) {
                Err::<(), LayerError>(LayerError::UnknownKey)
            } else if layer.key@ != key@ && has_key(old(self)@, layer.key@) {
                Err::<(), LayerError>(LayerError::DuplicateKey)
            } else {
                Ok::<(), LayerError>(())
            },
            r.0 is Err ==> final(self)@ == old(self)@ && r.1 == world,
            r.0 is Ok ==> {
                &&& final(self)@ == old(self)@.update(position_of(old(self)@, key@), layer.model(false))
                &&& runs(old(self)@[position_of(old(self)@, key@)].logic.on_stop, world, r.1)
            },
    {
        proof {
            use_type_invariant(&*self);
        }
        let owned: String = key.to_owned();
        let mut held = LayerStack::new();
        std::mem::swap(self, &mut held);
        let LayerStack { mut slots } = held;
        let ghost before = models(slots@);
        let ghost old_slots = slots@;
        let r = match find_layer(&slots, &owned) {
            None => {
                assert(!has_key(before, key@)) by {
                    assert forall|k: int| 0 <= k < before.len() implies (#[trigger] before[k]).key != key@ by {
                        assert(old_slots[k].layer.key@ != key@);
                    }
                }
                (Err(LayerError::UnknownKey), world)
            },
            Some(at) => {
                proof {
                    assert(before[at as int].key == key@);
                    lemma_position_of(before, at as int);
                }
                let clash = match find_layer(&slots, &layer.key) {
                    Some(other) => {
                        proof {
                            assert(before[other as int].key == layer.key@);
                            lemma_position_of(before, other as int);
                        }
                        other != at
                    },
                    None => {
                        proof {
                            assert forall|k: int| 0 <= k < before.len() implies (#[trigger] before[k]).key
                                != layer.key@ by {
                                assert(old_slots[k].layer.key@ != layer.key@);
                            }
                        }
                        false
                    },
                };
                if clash {
                    (Err(LayerError::DuplicateKey), world)
                } else {
                    let out = (slots[at].layer.logic.on_stop)(world);
                    slots[at] = Slot { layer, started: false };
                    proof {
                        let after = models(slots@);
                        assert(after =~= before.update(at as int, layer.model(false)));
                        assert forall|i: int, j: int| 0 <= i < j < after.len() implies #[trigger] after[i].key
                            != #[trigger] after[j].key by {
                            if i != at && j != at {
                                assert(before[i].key != before[j].key);
                            } else if i == at {
                                assert(before[j].key != layer.key@) by {
                                    if before[j].key == layer.key@ {
                                        lemma_position_of(before, j);
                                    }
                                }
                            } else {
                                assert(before[i].key != layer.key@) by {
                                    if before[i].key == layer.key@ {
                                        lemma_position_of(before, i);
                                    }
                                }
                            }
                        }
                        assert forall|i: int| 0 <= i < after.len() implies (#[trigger] after[i]).logic.ready() by {
                            if i != at {
                                assert(before[i].logic.ready());
                            }
                        }
                    }
                    (Ok(()), out)
                }
            },
        };
        *self = LayerStack { slots };
        r
    }

    /// Whether a layer of the stack has `key`.
    pub fn contains(&self, key: &str) -> (present: bool)
        ensures
            present == has_key(self@, key@),
    {
        let owned: String = key.to_owned();
        let found = find_layer(&self.slots, &owned);
        proof {
            let layers = models(self.slots@);
            match found {
                Some(i) => {
                    assert(layers[i as int].key == key@);
                },
                None => {
                    assert forall|k: int| 0 <= k < layers.len() implies (#[trigger] layers[k]).key != key@ by {
                        assert(self.slots@[k].layer.key@ != key@);
                    }
                },
            }
        }
        found.is_some()
    }

    /// Puts `fresh`, not started, in the place of the layer that has `key`,
    /// calls the `on_stop` of the layer that leaves, and hands that layer back.
    pub(crate) fn swap_layer(&mut self, key: &str, fresh: GameLayer<F>, world: GameData) -> (r: (
        GameLayer<F>,
        GameData,
    ))
        requires
            fresh.logic.ready(),
            has_key(old(self)@, key@),
            fresh.key@ == key@ || !has_key(old(self)@, fresh.key@),
        ensures
            well_formed(final(self)@),
            final(self)@ == old(self)@.update(position_of(old(self)@, key@), fresh.model(false)),
            r.0.model(old(self)@[position_of(old(self)@, key@)].started) == old(self)@[position_of(
                old(self)@,
                key@,
            )],
            runs(old(self)@[position_of(old(self)@, key@)].logic.on_stop, world, r.1),
            r.0.logic.ready(),
    {
        proof {
            use_type_invariant(&*self);
        }
        let owned: String = key.to_owned();
        let mut held = LayerStack::new();
        std::mem::swap(self, &mut held);
        let LayerStack { mut slots } = held;
        let ghost before = models(slots@);
        let ghost old_slots = slots@;
        let found = find_layer(&slots, &owned);
        proof {
            if found is None {
                assert forall|k: int| 0 <= k < before.len() implies (#[trigger] before[k]).key != key@ by {
                    assert(old_slots[k].layer.key@ != key@);
                }
            }
        }
        let at = found.unwrap();
        proof {
            assert(before[at as int].key == key@);
            lemma_position_of(before, at as int);
        }
        let left = slots.remove(at);
        slots.insert(at, Slot { layer: fresh, started: false });
        let out = (left.layer.logic.on_stop)(world);
        proof {
            let after = models(slots@);
            assert(after =~= before.update(at as int, fresh.model(false)));
            assert forall|i: int, j: int| 0 <= i < j < after.len() implies #[trigger] after[i].key
                != #[trigger] after[j].key by {
                if i != at && j != at {
                    assert(before[i].key != before[j].key);
                } else if i == at {
                    if before[j].key == fresh.key@ {
                        lemma_position_of(before, j);
                    }
                } else {
                    if before[i].key == fresh.key@ {
                        lemma_position_of(before, i);
                    }
                }
            }
            assert forall|i: int| 0 <= i < after.len() implies (#[trigger] after[i]).logic.ready() by {
                if i != at {
                    assert(before[i].logic.ready());
                }
            }
        }
        *self = LayerStack { slots };
        (left.layer, out)
    }

    /// Performs `action` from the top of the stack down, and halts after
    /// the first strong layer: the layers below it do not act.
    pub fn apply_action(&mut self, action: SceneAction, world: GameData) -> (out: GameData)
        ensures
            chain(plan(old(self)@, action), world, out),
            final(self)@ == settle(old(self)@, action),
            well_formed(final(self)@),
    {
        proof {
            use_type_invariant(&*self);
        }
        let mut held = LayerStack::new();
        std::mem::swap(self, &mut held);
        let LayerStack { mut slots } = held;
        let ghost before = models(slots@);
        let ghost old_slots = slots@;
        let ghost first = world;
        let ghost mut done: Seq<F> = Seq::empty();
        let mut world = world;
        let mut i: usize = slots.len();
        let mut halted = false;
        proof {
            lemma_chain_empty::<F>(first, first);
            assert(before.take(i as int) =~= before);
            assert(done + plan(before, action) =~= plan(before, action));
        }
        while i > 0 && !halted
            invariant
                i <= slots@.len(),
                slots@.len() == old_slots.len(),
                before == models(old_slots),
                well_formed(before),
                chain(done, first, world),
                plan(before, action) == done + (if halted {
                    Seq::<F>::empty()
                } else {
                    plan(before.take(i as int), action)
                }),
                lowest_active(before) == (if halted {
                    i as int
                } else {
                    lowest_active(before.take(i as int))
                }),
                forall|j: int| 0 <= j < i ==> #[trigger] slots@[j] == old_slots[j],
                forall|j: int|
                    i <= j < slots@.len() ==> (#[trigger] slots@[j]).layer == old_slots[j].layer && slots@[j].started
                        == started_after(action),
            decreases i,
        {
            i = i - 1;
            let ghost pre = world;
            let ghost rest = before.take(i + 1);
            proof {
                assert(rest.last() == before[i as int]);
                assert(rest.drop_last() =~= before.take(i as int));
                assert(before[i as int] == old_slots[i as int].layer.model(old_slots[i as int].started));
                assert(before[i as int].logic.ready());
            }
            let started = slots[i].started;
            world = slots[i].layer.logic.dispatch(action, started, world);
            let now_started = match action {
                SceneAction::Stop => false,
                _ => true,
            };
            slots[i].started = now_started;
            halted = match slots[i].layer.strength {
                LayerStrength::Strong => true,
                LayerStrength::Weak => false,
            };
            proof {
                let hooks = before[i as int].logic.hooks_for(action, before[i as int].started);
                let below = if halted {
                    Seq::<F>::empty()
                } else {
                    plan(before.take(i as int), action)
                };
                assert(plan(rest, action) == hooks + below);
                lemma_chain_join(done, hooks, first, pre, world);
                assert(done + (hooks + below) =~= (done + hooks) + below);
                done = done + hooks;
            }
        }
        proof {
            let after = models(slots@);
            assert(done + Seq::<F>::empty() =~= done);
            if !halted {
                assert(before.take(0).len() == 0);
            }
            assert(lowest_active(before) == i);
            assert forall|j: int| 0 <= j < after.len() implies after[j] == settle(before, action)[j] by {
                assert(before[j] == old_slots[j].layer.model(old_slots[j].started));
                if j < i {
                    assert(slots@[j] == old_slots[j]);
                } else {
                    assert(slots@[j].layer == old_slots[j].layer);
                }
            }
            assert(after =~= settle(before, action));
            assert forall|j: int| 0 <= j < after.len() implies (#[trigger] after[j]).logic.ready() by {
                assert(before[j].logic.ready());
            }
            assert forall|a: int, b: int| 0 <= a < b < after.len() implies #[trigger] after[a].key
                != #[trigger] after[b].key by {
                assert(before[a].key != before[b].key);
            }
        }
        *self = LayerStack { slots };
        world
    }

    /// For shutdown: calls `on_stop` of every layer, from the top down
    /// whatever their strength, and leaves them not started.
    pub fn stop_all(&mut self, world: GameData) -> (out: GameData)
        ensures
            chain(all_stops(old(self)@), world, out),
            final(self)@ == Seq::new(
                old(self)@.len(),
                |j: int| LayerModel { started: false, ..old(self)@[j] },
            ),
            well_formed(final(self)@),
    {
        proof {
            use_type_invariant(&*self);
        }
        let mut held = LayerStack::new();
        std::mem::swap(self, &mut held);
        let LayerStack { mut slots } = held;
        let ghost before = models(slots@);
        let ghost old_slots = slots@;
        let ghost first = world;
        let ghost stops = all_stops(before);
        let mut world = world;
        let mut i: usize = slots.len();
        let n = slots.len();
        proof {
            lemma_chain_empty::<F>(first, first);
            assert(stops.take(0) =~= Seq::<F>::empty());
        }
        while i > 0
            invariant
                i <= n,
                n == slots@.len(),
                slots@.len() == old_slots.len(),
                before == models(old_slots),
                stops == all_stops(before),
                well_formed(before),
                chain(stops.take(n - i), first, world),
                forall|j: int| 0 <= j < i ==> #[trigger] slots@[j] == old_slots[j],
                forall|j: int|
                    i <= j < slots@.len() ==> (#[trigger] slots@[j]).layer == old_slots[j].layer
                        && !slots@[j].started,
            decreases i,
        {
            i = i - 1;
            let ghost pre = world;
            proof {
                assert(before[i as int] == old_slots[i as int].layer.model(old_slots[i as int].started));
                assert(before[i as int].logic.ready());
            }
            world = (slots[i].layer.logic.on_stop)(world);
            slots[i].started = false;
            proof {
                let k = n - i - 1;
                let hook = before[i as int].logic.on_stop;
                assert(stops[k as int] == hook);
                lemma_chain_single(hook, pre, world);
                lemma_chain_join(stops.take(k as int), seq![hook], first, pre, world);
                assert(stops.take(k as int) + seq![hook] =~= stops.take(k + 1));
            }
        }
        proof {
            let after = models(slots@);
            assert(stops.take(n as int) =~= stops);
            let wanted = Seq::new(before.len(), |j: int| LayerModel { started: false, ..before[j] });
            assert forall|j: int| 0 <= j < after.len() implies after[j] == wanted[j] by {
                assert(before[j] == old_slots[j].layer.model(old_slots[j].started));
                assert(slots@[j].layer == old_slots[j].layer);
            }
            assert(after =~= wanted);
            assert forall|j: int| 0 <= j < after.len() implies (#[trigger] after[j]).logic.ready() by {
                assert(before[j].logic.ready());
            }
            assert forall|a: int, b: int| 0 <= a < b < after.len() implies #[trigger] after[a].key
                != #[trigger] after[b].key by {
                assert(before[a].key != before[b].key);
            }
        }
        *self = LayerStack { slots };
        world
    }
}

} // verus!
