//! The game logic of a voxel sandbox: block and chunk coordinates, chunks
//! and their light, light propagation, chunk meshing, items, stacks and the
//! player's inventory, crafting recipes, dropped items and path searches,
//! the input state, the screens of the game and chat commands.
use vstd::prelude::*;

pub mod coords;
pub mod light;
pub mod mesh;
pub mod item;
pub mod gen;
pub mod gui;
pub mod input;
pub mod state;
pub mod cmd;
pub mod player;
pub mod chunk;
pub mod component;
pub mod crafting;
pub mod vao;
pub mod content;
pub mod font;

verus! {
} // verus!
