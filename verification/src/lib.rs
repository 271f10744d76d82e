//! Decision engine for combat-arena agents.
//!
//! The crate models a per-tick observation of the arena, the closed set of
//! actions an agent may answer with, a finite-state-machine driven scripted
//! agent, a remote-inference agent with caching and graceful degradation, and
//! the manager that owns the agent population.
//!
//! All world scalars (coordinates, health, energy, distances, ranges) are
//! fixed-point integers: one world unit is `geom::MILLI` steps. Times are
//! milliseconds. Callers hand the current time in, so every decision step is
//! a deterministic, fully verified function of its inputs.

pub mod cache;
pub mod geom;
pub mod manager;
pub mod model;
pub mod remote;
pub mod scripted;
pub mod text;
pub mod trusted;
