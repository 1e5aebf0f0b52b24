//! A status-line agenda: the next calendar occurrences around the current
//! instant, each rendered as a short line of text.
pub mod model;
pub mod text;
pub mod time;
pub mod extract;
pub mod agenda;
