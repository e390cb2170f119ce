//! The packages of a dependency graph, as the metadata of a manifest gives them.
use vstd::prelude::*;

verus! {

/// One package: its identity and what it declares about its license.
#[derive(Clone, Debug, PartialEq, Eq, Default)]
pub struct Package {
    /// Opaque identifier, unique within a graph.
    pub id: String,
    pub name: String,
    pub version: String,
    /// License expression, e.g. `MIT OR Apache-2.0`.
    pub license: Option<String>,
    /// Path of a license file that the package declares.
    pub license_file: Option<String>,
    /// URL of the package's source repository.
    pub repository: Option<String>,
    /// Path of the package's manifest file.
    pub manifest_path: String,
}

/// A package in its mathematical form.
pub struct PackageView {
    pub id: Seq<char>,
    pub name: Seq<char>,
    pub version: Seq<char>,
    pub license: Option<Seq<char>>,
    pub license_file: Option<Seq<char>>,
    pub repository: Option<Seq<char>>,
    pub manifest_path: Seq<char>,
}

impl View for Package {
    type V = PackageView;

    open spec fn view(&self) -> PackageView {
        PackageView {
            id: self.id@,
            name: self.name@,
            version: self.version@,
            license: self.license.deep_view(),
            license_file: self.license_file.deep_view(),
            repository: self.repository.deep_view(),
            manifest_path: self.manifest_path@,
        }
    }
}

/// A node of the resolution graph: a package id and the ids it depends on.
#[derive(Clone, Debug, PartialEq, Eq, Default)]
pub struct Node {
    pub id: String,
    pub deps: Vec<String>,
}

/// The resolution graph: its root, if any, and its nodes.
#[derive(Clone, Debug, PartialEq, Eq, Default)]
pub struct Resolve {
    pub root: Option<String>,
    pub nodes: Vec<Node>,
}

/// The packages of a manifest together with their resolution, if any.
#[derive(Clone, Debug, PartialEq, Eq, Default)]
pub struct PackageGraph {
    pub packages: Vec<Package>,
    pub resolve: Option<Resolve>,
}

} // verus!
