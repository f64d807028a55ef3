//! `present`: a picker that asks a human to choose one of a list of options,
//! answering agents with a clean value, and a form that fills in the
//! arguments of a shelf module's command line.
pub mod ask;
pub mod cli;
pub mod error;
pub mod form;
pub mod json;
pub mod progress;
pub mod protocol;
pub mod shelf;
pub mod text;
pub mod tui;
