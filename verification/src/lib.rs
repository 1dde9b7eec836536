//! Rule engine of a Monopoly-style board game, with the protocol types that
//! surround it. Every rule is stated in contracts and proved by Verus.

pub mod room;
pub mod text;
pub mod avatar;
pub mod board;
pub mod snapshot;
pub mod deeds;
pub mod auction;
pub mod player;
pub mod command;
pub mod event;
pub mod archive;
pub mod trade;
pub mod engine;
pub mod engine_actions;
pub mod engine_resolve;
pub mod engine_archive;
pub mod rng;
pub mod cards;
pub mod error;
pub mod server;
pub mod cli;
pub mod discover;
pub mod solvency;
pub mod rule_laws;
