pub mod application_builder;
pub mod event_laws;
pub mod events;
pub mod game_layer;
pub mod layer_controller;
pub mod layer_laws;
pub mod layer_machine;
pub mod package;
pub mod resources;
pub mod scene;
pub mod scheduler;
pub mod scion_runner;
pub mod state;
pub mod system;
pub mod world;
