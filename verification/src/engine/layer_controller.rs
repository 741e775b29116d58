use vstd::prelude::*;

verus! {

/// What game logic may ask of the layer stack. Layers are named by key.
#[derive(Clone, Debug)]
pub enum LayerRequest {
    /// The registered layer with this key goes on top of the stack.
    Push(String),
    /// The top layer leaves the stack.
    Pop,
    /// The layer of the stack with the first key leaves; the registered
    /// layer with the second key takes its place.
    Replace(String, String),
}

/// A request as the contracts see it.
pub enum RequestModel {
    Push(Seq<char>),
    Pop,
    Replace(Seq<char>, Seq<char>),
}

impl LayerRequest {
    /// The request with its keys as sequences of characters.
    pub open spec fn view(&self) -> RequestModel {
        match self {
            LayerRequest::Push(key) => RequestModel::Push(key@),
            LayerRequest::Pop => RequestModel::Pop,
            LayerRequest::Replace(key, with) => RequestModel::Replace(key@, with@),
        }
    }
}

/// The requests of a list, as the contracts see them.
pub open spec fn request_models(requests: Seq<LayerRequest>) -> Seq<RequestModel> {
    Seq::new(requests.len(), |k: int| requests[k]@)
}

/// The resource through which game logic reaches the layer stack. Requests
/// wait here, in the order in which they were made, until the frame driver
/// takes them between two frames.
pub struct GameLayerController {
    pending: Vec<LayerRequest>,
}

impl GameLayerController {
    /// The requests that wait, oldest first.
    pub closed spec fn view(&self) -> Seq<RequestModel> {
        request_models(self.pending@)
    }

    /// A controller with no request waiting.
    pub fn new() -> (c: Self)
        ensures
            c@ == Seq::<RequestModel>::empty(),
    {
        let c = GameLayerController { pending: Vec::new() };
        assert(c@ =~= Seq::<RequestModel>::empty());
        c
    }

    /// Asks for the registered layer `key` to go on top of the stack.
    pub fn push_layer(&mut self, key: &str)
        ensures
            final(self)@ == old(self)@.push(RequestModel::Push(key@)),
    {
        self.pending.push(LayerRequest::Push(key.to_owned()));
        assert(self@ =~= old(self)@.push(RequestModel::Push(key@)));
    }

    /// Asks for the top layer to leave the stack.
    pub fn pop_layer(&mut self)
        ensures
            final(self)@ == old(self)@.push(RequestModel::Pop),
    {
        self.pending.push(LayerRequest::Pop);
        assert(self@ =~= old(self)@.push(RequestModel::Pop));
    }

    /// Asks for the registered layer `with` to take the place of the layer `key` of the stack.
    pub fn replace_layer(&mut self, key: &str, with: &str)
        ensures
            final(self)@ == old(self)@.push(RequestModel::Replace(key@, with@)),
    {
        self.pending.push(LayerRequest::Replace(key.to_owned(), with.to_owned()));
        assert(self@ =~= old(self)@.push(RequestModel::Replace(key@, with@)));
    }

    /// Hands over the requests that wait, oldest first, and forgets them.
    pub fn take(&mut self) -> (requests: Vec<LayerRequest>)
        ensures
            request_models(requests@) == old(self)@,
            final(self)@ == Seq::<RequestModel>::empty(),
    {
        let mut requests: Vec<LayerRequest> = Vec::new();
        std::mem::swap(&mut self.pending, &mut requests);
        assert(self@ =~= Seq::<RequestModel>::empty());
        requests
    }
}

} // verus!
