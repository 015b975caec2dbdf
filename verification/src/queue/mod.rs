//! The queue: its state, sorting, shuffling, and the appears-on filter.
pub mod appears_on;
pub mod natural;
pub mod shuffle;
pub mod sort;
pub mod state;
