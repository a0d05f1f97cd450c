//! A small functional language: name resolution of surface terms into
//! uniquely named terms, and big-step evaluation of those terms over a
//! persistent environment.

pub mod ast0;
pub mod ast1;
pub mod env;
pub mod eval;
pub mod limits;
pub mod names;
pub mod renaming;
pub mod scoping;
pub mod sugar;
pub mod trans01;
