//! Core of a grid-based production-line simulation: blocks (belts, extractors,
//! splitters, tunnels, containers, resource nodes) exchange discrete items
//! through a directional push/pull capability protocol on a fixed tick clock,
//! and the whole world round-trips through a tagged, self-validating binary
//! save format. Rendering, input and window handling are out of scope: the
//! library only exposes the data an external renderer needs.

pub mod assets;
pub mod blocks;
pub mod game;
pub mod identifier;
pub mod initialized_data;
pub mod inventory;
pub mod items;
pub mod notice_board;
pub mod registry;
pub mod scheduler;
pub mod screens;
pub mod world;
pub mod serialization;
pub mod simulation;
pub mod ui;
