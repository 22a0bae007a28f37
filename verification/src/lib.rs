//! Extraction of a structured exam schedule from an institution's published
//! exam-calendar page.
//!
//! The library turns the loosely structured text of that page — weekday-letter
//! codes such as `MWF`, free-form class-descriptor cells, time and date
//! literals in several formats, and per-semester tables — into a typed
//! calendar model: for each semester, a mapping from class descriptor to the
//! exam date and time slot assigned to it.
//!
//! Fetching the page and turning the HTML tree into the plain
//! [`catalog::DocModel`] values consumed here is the caller's business; every
//! function in this crate is a pure function of its arguments.

pub mod errors;
pub mod text;
pub mod weekday;
pub mod timeofday;
pub mod dates;
pub mod class;
pub mod codec;
pub mod table;
pub mod catalog;
