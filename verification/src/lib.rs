//! The logic of `cat`: how bytes are shown, how lines are numbered and
//! squeezed, which file is opened how, and what a run answers in the end.
//!
//! The library performs no input or output itself. It says what to do next and
//! is told what came of it; see [`session::Session`].

pub mod args;
pub mod cat;
pub mod error;
pub mod input;
pub mod laws;
pub mod line;
pub mod lines;
pub mod options;
pub mod session;
pub mod text;
pub mod trace;
