//! What holds of the cache as a whole.

pub mod comparison;
pub mod decisions;
pub mod editor;
pub mod fetched;
pub mod kinds;
pub mod operations;
pub mod order;
pub mod positions;
pub mod ranges;
pub mod runs;
pub mod settings;
pub mod takeover;
pub mod versions;
pub mod views;
