//! A log investigation engine: reading, parsing, indexing, filtering and presenting log rows, and
//! the state of the front-ends that show them.

// Values.
pub mod text;
pub mod time;
pub mod model;
pub mod events;

// From bytes to rows.
pub mod json;
pub mod parser;
pub mod source;
pub mod ingest;

// The engine.
pub mod filter;
pub mod query;
pub mod index;
pub mod session;
pub mod order;
pub mod summary;
pub mod timeline;
pub mod analytics;
pub mod present;
pub mod viewport;
pub mod laws;

// Programs and front-ends.
pub mod startup;
pub mod ui;
pub mod cli;
pub mod tui;
pub mod iced;
pub mod gpui;
pub mod gui;
pub mod makepad;
