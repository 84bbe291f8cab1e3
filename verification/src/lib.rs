use vstd::prelude::*;

pub mod text;
pub mod paths;
pub mod labels;
pub mod http;
pub mod proxy;
pub mod snapshot;
pub mod viewport;
pub mod session;
pub mod zellij;
pub mod config;
pub mod vts;
pub mod llm;
pub mod bar;
pub mod osf;
pub mod daemon;
pub mod plugin;
pub mod launcher;

verus! {

} // verus!
