pub mod bot;
pub mod content;
pub mod culling;
pub mod entities;
pub mod expedition;
pub mod generation;
pub mod level;
pub mod lobby;
pub mod noise;
pub mod patrol;
pub mod prefab;
pub mod protocol;
pub mod rng;
pub mod search;
pub mod sleeper;
pub mod terminal;
pub mod text;
pub mod weapons;
