//! Pogoda: the decision and layout logic of a terminal weather report,
//! with machine-checked contracts.

pub mod text;
pub mod style;
pub mod types;
pub mod geo;
pub mod locale;
pub mod calendar;
pub mod weather;
pub mod layout;
pub mod rows;
pub mod charts;
pub mod bars;
pub mod banner;
pub mod cli;
pub mod footer;
