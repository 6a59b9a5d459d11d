use vstd::prelude::*;

pub mod text;
pub mod json;
pub mod errors;
pub mod config;
pub mod path;
pub mod proxy;
pub mod rewrite;
pub mod server;
pub mod cert;
pub mod tls;

verus! {
} // verus!
