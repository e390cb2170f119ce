use license_retriever::graph::select_packages;
use license_retriever::{Node, Package, PackageGraph, Resolve};

fn pkg(id: &str) -> Package {
    Package {
        id: id.to_string(),
        name: id.to_string(),
        version: "1.0.0".to_string(),
        ..Package::default()
    }
}

fn node(id: &str, deps: &[&str]) -> Node {
    Node {
        id: id.to_string(),
        deps: deps.iter().map(|d| d.to_string()).collect(),
    }
}

#[test]
fn no_resolution_gives_all_packages_in_order() {
    let g = PackageGraph {
        packages: vec![pkg("c"), pkg("a"), pkg("b")],
        resolve: None,
    };
    assert_eq!(select_packages(&g), vec![0, 1, 2]);
}

#[test]
fn no_root_gives_all_packages_in_order() {
    let g = PackageGraph {
        packages: vec![pkg("a"), pkg("b")],
        resolve: Some(Resolve {
            root: None,
            nodes: vec![node("a", &[])],
        }),
    };
    assert_eq!(select_packages(&g), vec![0, 1]);
}

#[test]
fn cycle_and_dangling_edges_terminate_with_reachable_set() {
    // root -> a -> b -> a (cycle), b -> ghost (no package), a -> c (no node),
    // d unreachable.
    let g = PackageGraph {
        packages: vec![pkg("d"), pkg("root"), pkg("a"), pkg("b"), pkg("c")],
        resolve: Some(Resolve {
            root: Some("root".to_string()),
            nodes: vec![
                node("root", &["a"]),
                node("a", &["b", "c"]),
                node("b", &["a", "ghost"]),
                node("d", &["root"]),
            ],
        }),
    };
    let mut r = select_packages(&g);
    assert_eq!(r[0], 1);
    r.sort();
    assert_eq!(r, vec![1, 2, 3, 4]);
}

#[test]
fn missing_root_package_gives_nothing() {
    let g = PackageGraph {
        packages: vec![pkg("a")],
        resolve: Some(Resolve {
            root: Some("root".to_string()),
            nodes: vec![node("root", &["a"])],
        }),
    };
    assert!(select_packages(&g).is_empty());
}

#[test]
fn self_loop_root_is_listed_once() {
    let g = PackageGraph {
        packages: vec![pkg("root")],
        resolve: Some(Resolve {
            root: Some("root".to_string()),
            nodes: vec![node("root", &["root", "root"])],
        }),
    };
    assert_eq!(select_packages(&g), vec![0]);
}
