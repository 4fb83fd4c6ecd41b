//! Rules engine for resolving dice-based checks and initiative order of the
//! tabletop role-playing game "Das Schwarze Auge".

pub mod character;
pub mod character_manager;
pub mod config;
pub mod dice;
pub mod dsa;
pub mod nickname;
pub mod text;
pub mod util;
