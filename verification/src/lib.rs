//! Riichi mahjong hand engine: tiles, walls, calls, win detection and scoring.

pub mod action;
pub mod error;
pub mod event;
pub mod game;
pub mod hand;
pub mod state;
pub mod text;
pub mod tile;

pub use error::Error;
pub mod rules;
pub mod text_case;
pub mod wall;
pub mod scoring;
pub mod fixtures;
