use vstd::prelude::*;

pub mod text;
pub mod string_map;
pub mod models;
pub mod format;
pub mod base64;
pub mod sort;
pub mod services;
pub mod commands;

verus! {
} // verus!
