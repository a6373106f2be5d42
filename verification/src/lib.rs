//! Language identification for source files, after the model of GitHub's
//! linguist corpus: a container indexes language definitions by name,
//! extension, filename and interpreter, and a resolver combines filename,
//! extension, shebang and content-heuristic evidence into a single vote.

pub mod codegen;
pub mod container;
pub mod embedded;
pub mod error;
pub mod github;
pub mod matcher;
pub mod resolver;
pub mod shebang;
pub mod text;
pub mod utils;
pub mod yaml;

use vstd::prelude::*;

verus! {

} // verus!
