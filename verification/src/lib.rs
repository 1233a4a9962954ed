//! Verified core of a Minecraft mod, pack and launcher manager.

pub mod dates;
pub mod paths;
pub mod text;
pub mod words;
pub mod manifest;
pub mod arguments;
pub mod launch;
pub mod mods;
pub mod state;
