//! A small mediation-pipeline dialect of XML: its syntax tree, the canonical
//! markup of a tree, and a single-lookahead recognizer over structural events.

pub mod ast;
pub mod event;
pub mod grammar;
pub mod parser;
pub mod render;
pub mod roundtrip;
