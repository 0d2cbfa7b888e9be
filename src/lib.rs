//! Parser for essay outlines: a topic line, an `Outline:` marker and one or
//! more sections, each a header, its bullet queries and an optional note.
pub mod grammar;
pub mod outline;
pub mod parser;
pub mod state;
pub mod text;
pub mod laws;
pub mod layout;
