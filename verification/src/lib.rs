//! Core of a context switcher for a JSON settings file: the bookkeeping of the
//! current and previous context, and the engine that merges one settings
//! document into another while recording what each merge added.

pub mod clock;
pub mod completions;
pub mod context;
pub mod document;
pub mod history;
pub mod json;
pub mod laws;
pub mod lists;
pub mod merge;
pub mod paths;
pub mod roundtrip;
pub mod shape;
pub mod state;
pub mod text;
pub mod unmerge;
