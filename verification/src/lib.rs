use vstd::prelude::*;

pub mod action;
pub mod audio;
pub mod cache;
pub mod clock;
pub mod config;
pub mod discography;
pub mod effect;
pub mod fspath;
pub mod keymap;
pub mod lyrics;
pub mod model;
pub mod msort;
pub mod paths;
pub mod queue;
pub mod text;

verus! {
} // verus!
