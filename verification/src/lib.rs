use vstd::prelude::*;

pub mod class_map;
pub mod compiler;
pub mod config;
pub mod const_map;
pub mod css_map;
pub mod global_id;
pub mod id;
pub mod idmap;
pub mod laws;
pub mod paths;
pub mod text;
