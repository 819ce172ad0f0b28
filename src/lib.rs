//! Core of a weather visualisation client: timestamp decoding, assembly of
//! temperature / humidity series from server responses, chart axis bounds and
//! the state that the user interface observes.

pub mod state;
pub mod datetime;
pub mod error;
pub mod json;
pub mod measure;
pub mod requests;
pub mod series;
pub mod util;
