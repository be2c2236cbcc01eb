use vstd::prelude::*;

pub mod text;
pub mod update;
pub mod http;
pub mod runtime;
pub mod models;
pub mod providers;
pub mod catalog;
pub mod botid;
pub mod chat;
pub mod media;
pub mod shell;
pub mod about;
pub mod system;
pub mod color;

verus! {
} // verus!
