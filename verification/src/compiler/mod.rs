pub mod at_class_map;
pub mod at_extern;
pub mod emit;
pub mod error;
pub mod expect;
pub mod module;
pub mod scope;
pub mod token;
pub mod values;

pub use error::{ParserError, ParserErrorKind, ParserResult};
pub use token::{AtRule, Block, ComponentValue, Prelude, Span, Token};
pub use at_extern::ExternSymbol;
pub use emit::CompilationArtifact;
pub use module::ModuleCompiler;
