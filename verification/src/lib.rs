//! A lexical analyzer for a small scripting language, together with the
//! token taxonomy it produces and a minimal expression-tree model with a
//! generic traversal mechanism.

pub mod ast;
pub mod numeric;
pub mod scanner;
pub mod token;
pub mod util;
