//! A terminal quiz library for exam preparation.
//!
//! The crate holds the verified core of the quiz program: the question data
//! model, the duplicate classifier, the random sampler, the JSON codec for the
//! question pool, the interactive session's state machine, the feature gate,
//! and the text of everything the program shows.  File, network, clipboard and
//! database access live outside the library and hand it plain values.

pub mod text;
pub mod questions;
pub mod classify;
pub mod sample;
pub mod quiz;
pub mod feature_manager;
pub mod http;
pub mod json;
pub mod llm;
