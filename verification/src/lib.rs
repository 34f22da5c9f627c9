//! A learning game engine: exercise catalog, unlock order, grading rules and
//! progress tracking.

pub mod catalog;
pub mod definition;
pub mod engine;
pub mod exercise;
pub mod grader;
pub mod lessons;
pub mod path;
pub mod persistence;
pub mod quiz;
pub mod storage;
pub mod text;
pub mod unlock;

