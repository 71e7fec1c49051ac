pub mod actor;
pub mod conduct;
pub mod engine;
pub mod escalation;
pub mod events;
pub mod hooks;
pub mod read;
pub mod recovery;
pub mod state;
pub mod tracker_bridge;
