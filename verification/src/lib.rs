//! Processes large JSON inputs in a streaming fashion.
//!
//! The [`streamer`] splits a byte stream into tokens (the start and the end
//! of every value together with the path leading to it), [`matcher`]s decide
//! which paths are interesting, [`handler`]s do something with matched data
//! and [`strategy`] ties everything together.

pub mod error;
pub mod path;
pub mod streamer;
pub mod text;
pub mod matcher;
pub mod handler;
pub mod strategy;
pub mod generator;
pub mod extractor;
pub mod cli;
