//! Decoding of USB HID report descriptors and of the input reports they
//! describe (USB HID 1.11).
//!
//! The engine has three layers: a short-item tokenizer over the descriptor
//! bytes (`basic`), a stateful assembler that builds a tree of collections
//! and field records (`parser`), and a bit-packed field extractor that turns
//! raw input reports into typed values (`report`).

pub mod basic;
pub mod collection;
pub mod descriptor;
pub mod errors;
pub mod input;
pub mod parser;
pub mod report;
