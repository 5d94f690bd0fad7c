//! A desktop companion that mirrors the activity of a local Kimi Code service.

pub mod json;
pub mod text;
pub mod keyed;
pub mod state;
pub mod pet;
pub mod service;
pub mod events;
pub mod board;
pub mod frames;
pub mod runner;
pub mod edge_hide;
pub mod updater;
pub mod launch_hook;
