//! A branching questionnaire: questions, their answers, the conditions that
//! show or hide them, and the engine that walks through them.
pub mod answer;
pub mod condition;
pub mod engine;
pub mod locale;
pub mod question;
