//! Game records and the binary formats of training data.
pub mod error;
pub mod formats;
pub mod metadata;
pub mod record;
pub mod time_control;
