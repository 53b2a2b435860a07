pub mod id;
pub mod key;
pub mod map;
pub mod parser;

pub use id::{Id, IdKind};
pub use map::{MapError, Module, ModuleIndex, ModuleMap};
