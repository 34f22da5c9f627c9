//! The lessons of the game, each solved: the functions that the exercises
//! ask the learner to write, with what they are to compute as contracts.

pub mod advanced;
pub mod intermediate;
pub mod intro;
pub mod numbers;
