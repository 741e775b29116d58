use vstd::prelude::*;
use crate::engine::events::Events;
use crate::engine::layer_controller::{GameLayerController, RequestModel};
use crate::engine::resources::Resources;
use crate::engine::state::GameState;

verus! {

/// `a + b`, or the largest `u64` where the sum is larger.
pub open spec fn saturating_sum(a: u64, b: u64) -> u64 {
    if a + b > u64::MAX {
        u64::MAX
    } else {
        (a + b) as u64
    }
}

/// The time resource, in nanoseconds.
#[derive(Clone, Copy, Debug, PartialEq, Eq, Structural)]
pub struct Time {
    /// Duration of the last frame.
    pub delta: u64,
    /// Time since the first frame. It stops at the largest `u64`.
    pub elapsed: u64,
    /// Number of frames so far. It stops at the largest `u64`.
    pub frames: u64,
}

impl Time {
    /// The time before the first frame.
    pub fn new() -> (t: Self)
        ensures
            t == (Time { delta: 0, elapsed: 0, frames: 0 }),
    {
        Time { delta: 0, elapsed: 0, frames: 0 }
    }

    /// The time after one more frame that took `delta`.
    pub open spec fn after(self, delta: u64) -> Time {
        Time { delta, elapsed: saturating_sum(self.elapsed, delta), frames: saturating_sum(self.frames, 1) }
    }

    /// Records one more frame that took `delta`.
    pub fn advance(&mut self, delta: u64)
        ensures
            *final(self) == old(self).after(delta),
    {
        self.delta = delta;
        self.elapsed = self.elapsed.saturating_add(delta);
        self.frames = self.frames.saturating_add(1);
    }
}

/// Size of the window, in pixels.
#[derive(Clone, Copy, Debug, PartialEq, Eq, Structural)]
pub struct WindowDimensions {
    pub width: u32,
    pub height: u32,
}

/// The shared store. The frame driver owns it and lends it to one callback
/// at a time.
pub struct GameData {
    pub state: GameState,
    pub time: Time,
    pub window: WindowDimensions,
    pub events: Events,
    pub resources: Resources,
    pub layers: GameLayerController,
}

impl GameData {
    /// The store is as a game finds it at first: running, at time zero, for
    /// a window of the given size, with an empty bus, no resource and no
    /// layer request.
    pub open spec fn is_fresh(self, window: WindowDimensions) -> bool {
        &&& self.state == GameState::Running
        &&& self.time == (Time { delta: 0, elapsed: 0, frames: 0 })
        &&& self.window == window
        &&& self.events@.topics.len() == 0
        &&& self.events@.subscribers.len() == 0
        &&& self.resources@ == Map::<u64, Seq<u8>>::empty()
        &&& self.layers@ == Seq::<RequestModel>::empty()
    }

    /// A fresh store for a window of the given size.
    pub fn new(window: WindowDimensions) -> (data: Self)
        ensures
            data.is_fresh(window),
    {
        GameData {
            state: GameState::Running,
            time: Time::new(),
            window,
            events: Events::new(),
            resources: Resources::new(),
            layers: GameLayerController::new(),
        }
    }

    /// The store after a frame that took `delta` was recorded in its time resource.
    pub open spec fn after_frame(self, delta: u64) -> GameData {
        GameData { time: self.time.after(delta), ..self }
    }

    /// Takes note of a new window size.
    pub fn resize(&mut self, width: u32, height: u32)
        ensures
            *final(self) == (GameData { window: WindowDimensions { width, height }, ..*old(self) }),
    {
        self.window = WindowDimensions { width, height };
    }
}

} // verus!
