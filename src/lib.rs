//! A word-guessing game: per-letter feedback on a guess against a secret
//! word, and the session state machine that drives a round.

pub mod game;
pub mod game_logic;
