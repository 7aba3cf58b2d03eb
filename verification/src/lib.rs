use vstd::prelude::*;

pub mod bar;
pub mod cli;
pub mod color;
pub mod config;
pub mod exec;
pub mod fs;
pub mod icon;
pub mod input;
pub mod model;
pub mod modules;
pub mod search;
pub mod settings;
pub mod sort;
pub mod text;
pub mod theme;

verus! {
}
