//! A library for Lindenmayer systems: an arena of interned symbol tokens,
//! rewrite rules that expand tokens into token sequences, an engine that
//! applies the rules generation by generation, and a turtle interpreter
//! that replays the rewritten sequence into line segments and bounds.

pub mod actions;
pub mod arena;
pub mod builder;
pub mod errors;
pub mod renderer;
pub mod system;
pub mod turtle_build;
pub mod turtle;

pub use actions::{Distribution, TurtleAction, Uniform};
pub use arena::{Arena, ArenaId};
pub use builder::LSystemBuilder;
pub use errors::LSystemError;
pub use renderer::{PathStep, ResolvedStep, TurtleRenderer};
pub use system::LSystem;
pub use turtle::{BaseTurtle, Heading};
pub use turtle_build::TurtleLSystemBuilder;
