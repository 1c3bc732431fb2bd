//! A commit-message linter: parses a message into header, body and footer,
//! validates it against a configured rule set — a header pattern, exclude
//! patterns, a body-shape policy, and optionally the conventional-commit
//! grammar — and applies an ordered, idempotent cleanup/autofix rewrite.
//!
//! Every validator and rewrite is specified over sequences of characters and
//! verified; calls into the regex crate stand behind the trusted contracts
//! of the `rx` module.

mod autofix;
pub mod casing;
mod chars;
pub mod cli;
pub mod config;
pub mod conventional;
pub mod hooks;
pub mod lint;
pub mod parse;
pub mod presets;
mod rx;
