//! A grid-based laser-puzzle simulation: a player pushes blocks, toggles
//! mirrors and switches, and routes laser beams through a walled arena to
//! light statues while keeping beams away from zappers and the player.
//!
//! The crate holds the simulation core: the entity model, the level grid,
//! the beam-tracing engine, the movement resolver and the per-tick
//! win/loss evaluator, together with the level-text parser. Rendering,
//! keyboard handling, menus, persistence and networking are collaborators
//! that live outside this crate and talk to it through plain values.

use vstd::prelude::*;

pub mod controls;

pub mod direction;

pub mod level;

pub mod menu;

pub mod node;

pub mod repository;

pub mod text;

pub mod userdata;

verus! {

/// The game as a whole, as a session loop drives it: a handle the
/// surrounding program creates once and plays levels through.
pub struct L1t {}

impl L1t {
    pub fn new() -> (r: L1t)
        ensures
            r == (L1t {  }),
    {
        L1t {  }
    }
}

} // verus!
