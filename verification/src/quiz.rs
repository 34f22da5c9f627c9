//! The quiz that may go with a lesson.

use vstd::prelude::*;

verus! {

/// The quiz of a lesson: a title and its questions.
#[derive(Debug, Clone)]
pub struct QuizConfig {
    pub title: String,
    pub questions: Vec<Question>,
}

/// One question with the answers to choose from and the place of the right
/// one among them.
#[derive(Debug, Clone)]
pub struct Question {
    pub prompt: String,
    pub options: Vec<String>,
    pub answer_index: usize,
}

impl Question {
    /// Whether the option at `choice` is the right answer.
    pub fn is_correct(&self, choice: usize) -> (correct: bool)
        ensures
            correct == (choice == self.answer_index),
    {
        choice == self.answer_index
    }
}

} // verus!
