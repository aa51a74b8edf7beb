//! Acquisition of chaptered series (manga and novels): source routing,
//! chapter discovery and filtering, ordinal parsing, the staging layout and
//! the bounded-concurrency download schedule.

pub mod args;
pub mod bound;
pub mod chapter;
pub mod decimal;
pub mod download;
pub mod error;
pub mod html;
pub mod info;
pub mod matcher;
pub mod ordinal;
pub mod sources;
pub mod staging;
pub mod text;
