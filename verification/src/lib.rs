//! A developer-assistant library: free-text commands are parsed into typed
//! intents, a workspace model indexes and searches source files and merges
//! new code into them, and a structural indexer enumerates and extracts
//! declarations from parsed source text.
//!
//! Every operation is specified over character sequences and verified;
//! file-system walks, file reads and writes, and toolchain processes are
//! carried out by the caller, which hands their results in as plain values.

pub mod assistant;
pub mod command;
pub mod executor;
pub mod inserter;
pub mod parser;
pub mod project;
pub mod text;
