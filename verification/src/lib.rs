//! Authoring and play logic of a small pixel-art RPG editor: sprites, tile
//! scenes, dialogue, project manifests and the grid runtime.

pub mod model;

pub mod text;
pub mod names;
pub mod advanced;
pub mod sprite;
pub mod world;
pub mod equality;

pub mod tilemap;
pub mod runtime;
pub mod project;
pub mod plugins;
