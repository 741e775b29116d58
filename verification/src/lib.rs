//! The per-frame core of a 2D game engine: a scheduler of systems with
//! pause predicates, a scene machine and a stack of strong and weak layers,
//! an event bus with fan-out, and the frame driver that ties them together.
//! Every function is verified against the contract it states.

pub mod application;
pub mod config;
pub mod engine;
pub mod rendering;
pub mod utils;
