use vstd::prelude::*;
use crate::engine::game_layer::{
    has_key, lemma_position_of, position_of, well_formed, GameLayer, LayerError, LayerModel, LayerStack,
};
use crate::engine::layer_controller::{request_models, LayerRequest, RequestModel};
use crate::engine::system::{chain, lemma_chain_empty, lemma_chain_join, lemma_chain_single};
use crate::engine::world::GameData;

verus! {

spec fn shelf_models<F: Fn(GameData) -> GameData>(layers: Seq<GameLayer<F>>) -> Seq<LayerModel<F>> {
    Seq::new(layers.len(), |i: int| layers[i].model(false))
}

/// The registered layers that are not on the stack. No two have the same key.
pub struct LayerShelf<F: Fn(GameData) -> GameData> {
    layers: Vec<GameLayer<F>>,
}

fn find_shelved<F: Fn(GameData) -> GameData>(layers: &Vec<GameLayer<F>>, key: &String) -> (found: Option<usize>)
    ensures
        match found {
            Some(i) => i < layers@.len() && layers@[i as int].key@ == key@,
            None => forall|k: int| 0 <= k < layers@.len() ==> (#[trigger] layers@[k]).key@ != key@,
        },
{
    let mut i: usize = 0;
    while i < layers.len()
        invariant
            0 <= i <= layers@.len(),
            forall|k: int| 0 <= k < i ==> (#[trigger] layers@[k]).key@ != key@,
        decreases layers@.len() - i,
    {
        if layers[i].key == *key {
            return Some(i);
        }
        i = i + 1;
    }
    None
}

impl<F: Fn(GameData) -> GameData> LayerShelf<F> {
    #[verifier::type_invariant]
    spec fn inv(self) -> bool {
        well_formed(shelf_models(self.layers@))
    }

    /// The layers in the order in which they came; none has started.
    pub closed spec fn view(&self) -> Seq<LayerModel<F>> {
        shelf_models(self.layers@)
    }

    /// An empty shelf.
    pub fn new() -> (shelf: Self)
        ensures
            shelf@.len() == 0,
    {
        LayerShelf { layers: Vec::new() }
    }

    /// Number of layers on the shelf.
    pub fn len(&self) -> (n: usize)
        ensures
            n == self@.len(),
    {
        self.layers.len()
    }

    /// Whether a layer of the shelf has `key`.
    pub fn contains(&self, key: &str) -> (present: bool)
        ensures
            present == has_key(self@, key@),
    {
        let owned: String = key.to_owned();
        let found = find_shelved(&self.layers, &owned);
        proof {
            let shelf = shelf_models(self.layers@);
            match found {
                Some(i) => {
                    assert(shelf[i as int].key == key@);
                },
                None => {
                    assert forall|k: int| 0 <= k < shelf.len() implies (#[trigger] shelf[k]).key != key@ by {
                        assert(self.layers@[k].key@ != key@);
                    }
                },
            }
        }
        found.is_some()
    }

    /// Puts `layer` on the shelf.
    pub fn register(&mut self, layer: GameLayer<F>) -> (r: Result<(), LayerError>)
        requires
            layer.logic.ready(),
        ensures
            well_formed(final(self)@),
            r is Ok <==> !has_key(old(self)@, layer.key@),
            r is Err ==> r == Err::<(), LayerError>(LayerError::DuplicateKey) && final(self)@ == old(self)@,
            r is Ok ==> final(self)@ == old(self)@.push(layer.model(false)),
    {
        proof {
            use_type_invariant(&*self);
        }
        let mut held = LayerShelf::new();
        std::mem::swap(self, &mut held);
        let LayerShelf { mut layers } = held;
        let ghost before = shelf_models(layers@);
        let ghost old_layers = layers@;
        let r = match find_shelved(&layers, &layer.key) {
            Some(i) => {
                assert(before[i as int].key == layer.key@);
                Err(LayerError::DuplicateKey)
            },
            None => {
                layers.push(layer);
                proof {
                    let after = shelf_models(layers@);
                    assert forall|k: int| 0 <= k < before.len() implies after[k] == before[k] by {
                        assert(layers@[k] == old_layers[k]);
                    }
                    assert(after =~= before.push(layer.model(false)));
                    assert forall|k: int| 0 <= k < before.len() implies (#[trigger] before[k]).key != layer.key@ by {
                        assert(old_layers[k].key@ != layer.key@);
                    }
                }
                Ok(())
            },
        };
        *self = LayerShelf { layers };
        r
    }

    /// Takes the layer that has `key` off the shelf.
    pub fn take(&mut self, key: &str) -> (r: Option<GameLayer<F>>)
        ensures
            well_formed(final(self)@),
            r is Some <==> has_key(old(self)@, key@),
            r is None ==> final(self)@ == old(self)@,
            r matches Some(layer) ==> {
                &&& layer.model(false) == old(self)@[position_of(old(self)@, key@)]
                &&& layer.logic.ready()
                &&& final(self)@ == old(self)@.remove(position_of(old(self)@, key@))
            },
    {
        proof {
            use_type_invariant(&*self);
        }
        let owned: String = key.to_owned();
        let mut held = LayerShelf::new();
        std::mem::swap(self, &mut held);
        let LayerShelf { mut layers } = held;
        let ghost before = shelf_models(layers@);
        let ghost old_layers = layers@;
        let r = match find_shelved(&layers, &owned) {
            Some(at) => {
                proof {
                    assert(before[at as int].key == key@);
                    lemma_position_of(before, at as int);
                    assert(before[at as int].logic.ready());
                }
                let layer = layers.remove(at);
                proof {
                    let after = shelf_models(layers@);
                    assert(after =~= before.remove(at as int));
                    assert forall|i: int| 0 <= i < after.len() implies (#[trigger] after[i]).logic.ready() by {
                        if i < at {
                            assert(before[i].logic.ready());
                        } else {
                            assert(before[i + 1].logic.ready());
                        }
                    }
                    assert forall|i: int, j: int| 0 <= i < j < after.len() implies #[trigger] after[i].key
                        != #[trigger] after[j].key by {
                        let a = if i < at { i } else { i + 1 };
                        let b = if j < at { j } else { j + 1 };
                        assert(before[a].key != before[b].key);
                    }
                }
                Some(layer)
            },
            None => {
                proof {
                    assert forall|k: int| 0 <= k < before.len() implies (#[trigger] before[k]).key != key@ by {
                        assert(old_layers[k].key@ != key@);
                    }
                }
                None
            },
        };
        *self = LayerShelf { layers };
        r
    }
}

/// The shelf once `layer` went back to it. A layer whose key the shelf has
/// already is let go.
pub open spec fn shelved<F>(shelf: Seq<LayerModel<F>>, layer: LayerModel<F>) -> Seq<LayerModel<F>> {
    if has_key(shelf, layer.key) {
        shelf
    } else {
        shelf.push(LayerModel { started: false, ..layer })
    }
}

/// The stack and the shelf as the contracts see them.
pub struct MachineModel<F> {
    /// The layers from the bottom of the stack to its top.
    pub stack: Seq<LayerModel<F>>,
    pub shelf: Seq<LayerModel<F>>,
}

impl<F: Fn(GameData) -> GameData> MachineModel<F> {
    /// Whether `request` can be met. A pop can always be met: on an empty
    /// stack it does nothing.
    pub open spec fn verdict(self, request: RequestModel) -> Result<(), LayerError> {
        match request {
            RequestModel::Push(key) => if !has_key(self.shelf, key) {
                Err(LayerError::UnknownKey)
            } else if has_key(self.stack, key) {
                Err(LayerError::DuplicateKey)
            } else {
                Ok(())
            },
            RequestModel::Pop => Ok(()),
            RequestModel::Replace(key, with) => if !has_key(self.stack, key) || !has_key(self.shelf, with) {
                Err(LayerError::UnknownKey)
            } else if with != key && has_key(self.stack, with) {
                Err(LayerError::DuplicateKey)
            } else {
                Ok(())
            },
        }
    }

    /// The stack and the shelf once `request` was dealt with. A request that
    /// cannot be met changes nothing. A layer that comes from the shelf has
    /// not started; a layer that leaves the stack goes back to the shelf.
    pub open spec fn after(self, request: RequestModel) -> MachineModel<F> {
        if self.verdict(request) is Err {
            self
        } else {
            match request {
                RequestModel::Push(key) => {
                    let from = position_of(self.shelf, key);
                    MachineModel { stack: self.stack.push(self.shelf[from]), shelf: self.shelf.remove(from) }
                },
                RequestModel::Pop => if self.stack.len() == 0 {
                    self
                } else {
                    MachineModel { stack: self.stack.drop_last(), shelf: shelved(self.shelf, self.stack.last()) }
                },
                RequestModel::Replace(key, with) => {
                    let at = position_of(self.stack, key);
                    let from = position_of(self.shelf, with);
                    MachineModel {
                        stack: self.stack.update(at, self.shelf[from]),
                        shelf: shelved(self.shelf.remove(from), self.stack[at]),
                    }
                },
            }
        }
    }

    /// The hooks that dealing with `request` calls: `on_stop` of the layer
    /// that leaves the stack, where one does.
    pub open spec fn stops(self, request: RequestModel) -> Seq<F> {
        if self.verdict(request) is Err {
            Seq::empty()
        } else {
            match request {
                RequestModel::Push(_) => Seq::empty(),
                RequestModel::Pop => if self.stack.len() == 0 {
                    Seq::empty()
                } else {
                    seq![self.stack.last().logic.on_stop]
                },
                RequestModel::Replace(key, _) => seq![self.stack[position_of(self.stack, key)].logic.on_stop],
            }
        }
    }

    /// The stack and the shelf once `requests` were dealt with in order.
    pub open spec fn after_all(self, requests: Seq<RequestModel>) -> MachineModel<F>
        decreases requests.len(),
    {
        if requests.len() == 0 {
            self
        } else {
            self.after_all(requests.drop_last()).after(requests.last())
        }
    }

    /// The hooks that dealing with `requests` in order calls.
    pub open spec fn stops_all(self, requests: Seq<RequestModel>) -> Seq<F>
        decreases requests.len(),
    {
        if requests.len() == 0 {
            Seq::empty()
        } else {
            self.stops_all(requests.drop_last()) + self.after_all(requests.drop_last()).stops(requests.last())
        }
    }

    /// The errors of those of `requests` that cannot be met, in order.
    pub open spec fn errors_all(self, requests: Seq<RequestModel>) -> Seq<LayerError>
        decreases requests.len(),
    {
        if requests.len() == 0 {
            Seq::empty()
        } else {
            let earlier = self.errors_all(requests.drop_last());
            match self.after_all(requests.drop_last()).verdict(requests.last()) {
                Err(e) => earlier.push(e),
                Ok(_) => earlier,
            }
        }
    }
}

/// The layer stack together with the shelf of registered layers that
/// requests by key move to the stack and back.
pub struct GameLayerMachine<F: Fn(GameData) -> GameData> {
    pub stack: LayerStack<F>,
    pub shelf: LayerShelf<F>,
}

impl<F: Fn(GameData) -> GameData> GameLayerMachine<F> {
    /// The stack and the shelf.
    pub open spec fn view(&self) -> MachineModel<F> {
        MachineModel { stack: self.stack@, shelf: self.shelf@ }
    }

    /// A machine with an empty stack and an empty shelf.
    pub fn new() -> (m: Self)
        ensures
            m@.stack.len() == 0,
            m@.shelf.len() == 0,
    {
        GameLayerMachine { stack: LayerStack::new(), shelf: LayerShelf::new() }
    }

    /// Puts a layer that left the stack back on the shelf.
    fn shelve(&mut self, layer: GameLayer<F>)
        requires
            layer.logic.ready(),
        ensures
            final(self).stack@ == old(self).stack@,
            forall|started: bool| final(self).shelf@ == shelved(old(self).shelf@, #[trigger] layer.model(started)),
    {
        if !self.shelf.contains(layer.key.as_str()) {
            let kept = self.shelf.register(layer);
            assert(kept is Ok);
        }
    }

    /// Deals with one request.
    pub fn apply_request(&mut self, request: &LayerRequest, world: GameData) -> (r: (
        Result<(), LayerError>,
        GameData,
    ))
        ensures
            r.0 == old(self)@.verdict(request@),
            final(self)@ == old(self)@.after(request@),
            chain(old(self)@.stops(request@), world, r.1),
    {
        let ghost before = self@;
        match request {
            LayerRequest::Push(key) => {
                proof {
                    lemma_chain_empty::<F>(world, world);
                }
                if !self.shelf.contains(key.as_str()) {
                    (Err(LayerError::UnknownKey), world)
                } else if self.stack.contains(key.as_str()) {
                    (Err(LayerError::DuplicateKey), world)
                } else {
                    let taken = self.shelf.take(key.as_str());
                    let layer = taken.unwrap();
                    let pushed = self.stack.push_layer(layer);
                    assert(pushed is Ok);
                    (Ok(()), world)
                }
            },
            LayerRequest::Pop => {
                let (popped, out) = self.stack.pop_layer(world);
                match popped {
                    Some(layer) => {
                        proof {
                            lemma_chain_single(before.stack.last().logic.on_stop, world, out);
                        }
                        self.shelve(layer);
                        assert(layer.model(before.stack.last().started) == before.stack.last());
                    },
                    None => {
                        proof {
                            lemma_chain_empty::<F>(world, world);
                        }
                    },
                }
                (Ok(()), out)
            },
            LayerRequest::Replace(key, with) => {
                if !self.stack.contains(key.as_str()) || !self.shelf.contains(with.as_str()) {
                    proof {
                        lemma_chain_empty::<F>(world, world);
                    }
                    (Err(LayerError::UnknownKey), world)
                } else if *with != *key && self.stack.contains(with.as_str()) {
                    proof {
                        lemma_chain_empty::<F>(world, world);
                    }
                    (Err(LayerError::DuplicateKey), world)
                } else {
                    let taken = self.shelf.take(with.as_str());
                    let fresh = taken.unwrap();
                    let ghost at = position_of(before.stack, key@);
                    let (left, out) = self.stack.swap_layer(key.as_str(), fresh, world);
                    proof {
                        lemma_chain_single(before.stack[at].logic.on_stop, world, out);
                    }
                    self.shelve(left);
                    assert(left.model(before.stack[at].started) == before.stack[at]);
                    (Ok(()), out)
                }
            },
        }
    }

    /// Deals with `requests` in order, and hands back the errors of those
    /// that could not be met.
    pub fn apply_pending(&mut self, requests: &Vec<LayerRequest>, world: GameData) -> (r: (
        Vec<LayerError>,
        GameData,
    ))
        ensures
            final(self)@ == old(self)@.after_all(request_models(requests@)),
            r.0@ == old(self)@.errors_all(request_models(requests@)),
            chain(old(self)@.stops_all(request_models(requests@)), world, r.1),
    {
        let ghost before = self@;
        let ghost all = request_models(requests@);
        let ghost first = world;
        let mut world = world;
        let mut errors: Vec<LayerError> = Vec::new();
        let mut i: usize = 0;
        proof {
            lemma_chain_empty::<F>(first, first);
            assert(all.take(0).len() == 0);
        }
        while i < requests.len()
            invariant
                0 <= i <= requests@.len(),
                all == request_models(requests@),
                self@ == before.after_all(all.take(i as int)),
                errors@ == before.errors_all(all.take(i as int)),
                chain(before.stops_all(all.take(i as int)), first, world),
            decreases requests@.len() - i,
        {
            let ghost mid = world;
            let ghost now = self@;
            let (verdict, out) = self.apply_request(&requests[i], world);
            world = out;
            match verdict {
                Err(e) => {
                    errors.push(e);
                },
                Ok(_) => {},
            }
            proof {
                let done = all.take(i + 1);
                assert(done.drop_last() =~= all.take(i as int));
                assert(done.last() == requests@[i as int]@);
                lemma_chain_join(before.stops_all(all.take(i as int)), now.stops(done.last()), first, mid, world);
            }
            i = i + 1;
        }
        proof {
            assert(all.take(all.len() as int) =~= all);
        }
        (errors, world)
    }
}

} // verus!
