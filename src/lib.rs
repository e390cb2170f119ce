//! Resolution of the license texts of every package in a dependency graph.
use vstd::prelude::*;

pub mod chain;
pub mod codec;
pub mod config;
pub mod error;
pub mod graph;
pub mod html;
pub mod package;
pub mod remote;
pub mod retriever;
pub mod sources;
pub mod text;

pub use config::Config;
pub use error::Error;
pub use package::{Node, Package, PackageGraph, Resolve};
pub use retriever::LicenseRetriever;

verus! {

} // verus!
