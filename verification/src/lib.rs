//! The combat core of a gesture-driven lightsaber game: one command model, three
//! rulesets (solo waves, fitness, duel), and the readers for keyboard words and
//! camera messages.

pub mod combat;
pub mod command;
pub mod fitness;
pub mod game_mode;
pub mod keyboard;
pub mod laws;

pub mod multiplayer;
pub mod protocol;
pub mod rules;
pub mod simulation;
pub mod text;
