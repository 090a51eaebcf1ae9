//! Driver logic for running the MSVC compiler in two phases: a preprocess
//! phase whose output is rewritten around the precompiled-header boundary,
//! and a compile phase whose diagnostics are cleaned up.
pub mod compiler;
pub mod postprocess;
