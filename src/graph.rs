//! Selection of the packages that need a license: those reachable from the
//! root of the resolution graph.
use vstd::prelude::*;
use crate::package::{Node, Package, PackageGraph, Resolve};

verus! {

/// `i` is the first package whose id is `id`.
pub open spec fn first_package(pkgs: Seq<Package>, id: Seq<char>, i: int) -> bool {
    &&& 0 <= i < pkgs.len()
    &&& pkgs[i].id@ == id
    &&& forall|j: int| 0 <= j < i ==> pkgs[j].id@ != id
}

/// `i` is the first node whose id is `id`.
pub open spec fn first_node(nodes: Seq<Node>, id: Seq<char>, i: int) -> bool {
    &&& 0 <= i < nodes.len()
    &&& nodes[i].id@ == id
    &&& forall|j: int| 0 <= j < i ==> nodes[j].id@ != id
}

/// Package `b` is a direct dependency of package `a`: the node of `a` lists an
/// id that resolves to `b`. Ids that resolve to no node or no package give no
/// edge.
pub open spec fn edge(pkgs: Seq<Package>, nodes: Seq<Node>, a: int, b: int) -> bool {
    &&& 0 <= a < pkgs.len()
    &&& exists|ni: int, d: int|
        #![trigger first_node(nodes, pkgs[a].id@, ni), nodes[ni].deps@[d]]
        first_node(nodes, pkgs[a].id@, ni) && 0 <= d < nodes[ni].deps@.len() && first_package(
            pkgs,
            nodes[ni].deps@[d]@,
            b,
        )
}

/// `p` is a walk along dependency edges.
pub open spec fn is_walk(pkgs: Seq<Package>, nodes: Seq<Node>, p: Seq<int>) -> bool {
    &&& p.len() >= 1
    &&& forall|k: int| 0 <= k < p.len() ==> 0 <= #[trigger] p[k] < pkgs.len()
    &&& forall|k: int| 0 <= k < p.len() - 1 ==> edge(pkgs, nodes, #[trigger] p[k], p[k + 1])
}

/// Package `i` is reachable from the root package of `res`.
pub open spec fn reachable(pkgs: Seq<Package>, res: Resolve, i: int) -> bool {
    &&& res.root is Some
    &&& exists|p: Seq<int>|
        #[trigger] is_walk(pkgs, res.nodes@, p) && first_package(pkgs, res.root->0@, p[0])
            && p.last() == i
}

/// The graph carries a resolution with a root.
pub open spec fn has_root(g: PackageGraph) -> bool {
    g.resolve matches Some(res) && res.root is Some
}

/// The indices `0..n` in order.
pub open spec fn all_indices(n: nat) -> Seq<usize> {
    Seq::new(n, |i: int| i as usize)
}

/// Index of the first package whose id is `id`.
fn find_package(pkgs: &Vec<Package>, id: &String) -> (r: Option<usize>)
    ensures
        r matches Some(i) ==> first_package(pkgs@, id@, i as int),
        r is None ==> forall|j: int| 0 <= j < pkgs@.len() ==> pkgs@[j].id@ != id@,
{
    let mut i: usize = 0;
    while i < pkgs.len()
        invariant
            i <= pkgs@.len(),
            forall|j: int| 0 <= j < i ==> pkgs@[j].id@ != id@,
        decreases pkgs@.len() - i,
    {
        if pkgs[i].id == *id {
            return Some(i);
        }
        i = i + 1;
    }
    None
}

/// Index of the first node whose id is `id`.
fn find_node(nodes: &Vec<Node>, id: &String) -> (r: Option<usize>)
    ensures
        r matches Some(i) ==> first_node(nodes@, id@, i as int),
        r is None ==> forall|j: int| 0 <= j < nodes@.len() ==> nodes@[j].id@ != id@,
{
    let mut i: usize = 0;
    while i < nodes.len()
        invariant
            i <= nodes@.len(),
            forall|j: int| 0 <= j < i ==> nodes@[j].id@ != id@,
        decreases nodes@.len() - i,
    {
        if nodes[i].id == *id {
            return Some(i);
        }
        i = i + 1;
    }
    None
}

proof fn lemma_distinct_below(s: Seq<usize>, n: int)
    requires
        s.no_duplicates(),
        forall|k: int| 0 <= k < s.len() ==> s[k] < n,
        0 <= n,
    ensures
        s.len() <= n,
{
    let a = s.to_set();
    let f = |x: usize| x as int;
    let b = a.map(f);
    s.unique_seq_to_set();
    vstd::set_lib::lemma_int_range(0, n);
    assert(b.subset_of(vstd::set_lib::set_int_range(0, n))) by {
        assert forall|x: int| b.contains(x) implies 0 <= x < n by {
            let y = choose|y: usize| a.contains(y) && f(y) == x;
            let k = choose|k: int| 0 <= k < s.len() && s[k] == y;
        }
    }
    vstd::set_lib::lemma_len_subset(b, vstd::set_lib::set_int_range(0, n));
    assert(vstd::relations::injective_on(f, a));
    vstd::set_lib::lemma_map_size(a, b, f);
}

/// Every package reachable from the root lies in a set that holds the root
/// and is closed under dependency edges.
proof fn lemma_closed_holds_reachable(
    pkgs: Seq<Package>,
    res: Resolve,
    out: Seq<usize>,
    root: int,
    i: int,
)
    requires
        res.root is Some,
        first_package(pkgs, res.root->0@, root),
        out.contains(root as usize),
        forall|a: int, b: int|
            #![trigger out.contains(a as usize), edge(pkgs, res.nodes@, a, b)]
            0 <= a < pkgs.len() && out.contains(a as usize) && edge(pkgs, res.nodes@, a, b)
                ==> out.contains(b as usize),
        reachable(pkgs, res, i),
    ensures
        out.contains(i as usize),
{
    let p = choose|p: Seq<int>|
        #[trigger] is_walk(pkgs, res.nodes@, p) && first_package(pkgs, res.root->0@, p[0])
            && p.last() == i;
    assert(p[0] == root);
    lemma_walk_prefix_held(pkgs, res.nodes@, out, p, p.len() - 1);
}

/// Each step of a walk that starts in a set closed under edges stays in it.
proof fn lemma_walk_prefix_held(
    pkgs: Seq<Package>,
    nodes: Seq<Node>,
    out: Seq<usize>,
    p: Seq<int>,
    m: int,
)
    requires
        is_walk(pkgs, nodes, p),
        0 <= m < p.len(),
        out.contains(p[0] as usize),
        forall|a: int, b: int|
            #![trigger out.contains(a as usize), edge(pkgs, nodes, a, b)]
            0 <= a < pkgs.len() && out.contains(a as usize) && edge(pkgs, nodes, a, b)
                ==> out.contains(b as usize),
    ensures
        out.contains(p[m] as usize),
    decreases m,
{
    if m > 0 {
        lemma_walk_prefix_held(pkgs, nodes, out, p, m - 1);
        assert(edge(pkgs, nodes, p[m - 1], p[m]));
    }
}

/// The packages that need a license, as indices into `g.packages`.
///
/// Without a resolution root these are all packages, in order. Otherwise they
/// are exactly the packages reachable from the root along dependency edges,
/// each once; ids that resolve to no package or no node are skipped.
pub fn select_packages(g: &PackageGraph) -> (r: Vec<usize>)
    ensures
        forall|k: int| 0 <= k < r@.len() ==> r@[k] < g.packages@.len(),
        !has_root(*g) ==> r@ == all_indices(g.packages@.len()),
        has_root(*g) && (exists|i: int| first_package(g.packages@, g.resolve->0.root->0@, i))
            ==> r@.len() > 0 && first_package(g.packages@, g.resolve->0.root->0@, r@[0] as int),
        has_root(*g) ==> r@.no_duplicates() && forall|i: int|
            0 <= i < g.packages@.len() ==> (r@.contains(i as usize) <==> reachable(
                g.packages@,
                g.resolve->0,
                i,
            )),
{
    let n = g.packages.len();
    let res = match &g.resolve {
        Some(res) => res,
        None => {
            return all_packages(n);
        },
    };
    let root = match &res.root {
        Some(root) => root,
        None => {
            return all_packages(n);
        },
    };
    let pkgs = &g.packages;
    let ghost nodes = res.nodes@;
    let mut out: Vec<usize> = Vec::new();
    let ri = match find_package(pkgs, root) {
        Some(ri) => ri,
        None => {
            assert forall|i: int| 0 <= i < n implies !reachable(pkgs@, *res, i) by {
                if reachable(pkgs@, *res, i) {
                    let p = choose|p: Seq<int>|
                        #[trigger] is_walk(pkgs@, nodes, p) && first_package(
                            pkgs@,
                            root@,
                            p[0],
                        ) && p.last() == i;
                }
            }
            return out;
        },
    };
    let mut visited: Vec<bool> = Vec::new();
    let mut j: usize = 0;
    while j < n
        invariant
            j <= n,
            visited@.len() == j,
            forall|b: int| 0 <= b < j ==> !visited@[b],
        decreases n - j,
    {
        visited.push(false);
        j = j + 1;
    }
    visited.set(ri, true);
    out.push(ri);
    proof {
        assert(out@[0] == ri);
        assert forall|b: int| 0 <= b < n implies (visited@[b] <==> out@.contains(b as usize)) by {
            if out@.contains(b as usize) {
                assert(out@[0] == b);
            }
            if b == ri {
                assert(out@[0] == b);
            }
        }
        let p = seq![ri as int];
        assert(is_walk(pkgs@, nodes, p));
        assert(reachable(pkgs@, *res, ri as int));
    }
    let mut k: usize = 0;
    while k < out.len()
        invariant
            n == pkgs@.len(),
            res.root == Some(*root),
            nodes == res.nodes@,
            first_package(pkgs@, root@, ri as int),
            visited@.len() == n,
            k <= out@.len(),
            out@.no_duplicates(),
            out@.contains(ri),
            out@.len() > 0 && out@[0] == ri,
            forall|x: int| 0 <= x < out@.len() ==> #[trigger] out@[x] < n,
            forall|b: int| 0 <= b < n ==> (visited@[b] <==> out@.contains(b as usize)),
            forall|x: int| 0 <= x < out@.len() ==> reachable(pkgs@, *res, #[trigger] out@[x] as int),
            forall|x: int, b: int|
                0 <= x < k && #[trigger] edge(pkgs@, nodes, out@[x] as int, b) ==> out@.contains(b as usize),
        decreases n - k,
    {
        proof {
            lemma_distinct_below(out@, n as int);
        }
        let a = out[k];
        if let Some(ni) = find_node(&res.nodes, &pkgs[a].id) {
            let deps = &res.nodes[ni].deps;
            let mut d: usize = 0;
            while d < deps.len()
                invariant
                    n == pkgs@.len(),
                    res.root == Some(*root),
                    nodes == res.nodes@,
                    first_package(pkgs@, root@, ri as int),
                    first_node(nodes, pkgs@[a as int].id@, ni as int),
                    deps == nodes[ni as int].deps,
                    a == out@[k as int],
                    visited@.len() == n,
                    k < out@.len(),
                    out@.len() > 0 && out@[0] == ri,
                    d <= deps@.len(),
                    out@.no_duplicates(),
                    out@.contains(ri),
                    forall|x: int| 0 <= x < out@.len() ==> #[trigger] out@[x] < n,
                    forall|b: int| 0 <= b < n ==> (visited@[b] <==> out@.contains(b as usize)),
                    forall|x: int| 0 <= x < out@.len() ==> reachable(pkgs@, *res, #[trigger] out@[x] as int),
                    forall|x: int, b: int|
                        0 <= x < k && #[trigger] edge(pkgs@, nodes, out@[x] as int, b) ==> out@.contains(b as usize),
                    forall|e: int, b: int|
                        0 <= e < d && #[trigger] first_package(pkgs@, deps@[e]@, b) ==> out@.contains(b as usize),
                decreases deps@.len() - d,
            {
                let ghost start = out@;
                let found = find_package(pkgs, &deps[d]);
                if let Some(b) = found {
                    if !visited[b] {
                        proof {
                            let p = choose|p: Seq<int>|
                                #[trigger] is_walk(pkgs@, nodes, p) && first_package(
                                    pkgs@,
                                    root@,
                                    p[0],
                                ) && p.last() == a as int;
                            assert(edge(pkgs@, nodes, a as int, b as int));
                            let q = p.push(b as int);
                            assert(is_walk(pkgs@, nodes, q));
                            assert(q[0] == p[0]);
                        }
                        let ghost before = out@;
                        assert(!before.contains(b));
                        visited.set(b, true);
                        out.push(b);
                        proof {
                            assert(out@[out@.len() - 1] == b);
                            let wi = choose|x: int| 0 <= x < before.len() && before[x] == ri;
                            assert(out@[wi] == ri);
                            assert forall|c: int| 0 <= c < n implies (visited@[c] <==> out@.contains(c as usize)) by {
                                if before.contains(c as usize) {
                                    let x = choose|x: int| 0 <= x < before.len() && before[x] == c as usize;
                                    assert(out@[x] == c as usize);
                                }
                                if out@.contains(c as usize) && c != b {
                                    let x = choose|x: int| 0 <= x < out@.len() && out@[x] == c as usize;
                                    assert(before[x] == c as usize);
                                }
                            }
                            assert forall|x: int| 0 <= x < out@.len() implies reachable(pkgs@, *res, #[trigger] out@[x] as int) by {
                                if x < out@.len() - 1 {
                                    assert(out@[x] == out@.drop_last()[x]);
                                }
                            }
                        }
                    }
                }
                proof {
                    assert(out@ == start || out@ == start.push(found->0));
                    assert forall|y: int| 0 <= y < start.len() implies out@[y] == start[y] by {
                        if out@ != start {
                            assert(out@ == start.push(found->0));
                        }
                    }
                    assert forall|x: int, c: int|
                        0 <= x < k && #[trigger] edge(pkgs@, nodes, out@[x] as int, c) implies out@.contains(c as usize) by {
                        assert(out@[x] == start[x]);
                        let y = choose|y: int| 0 <= y < start.len() && start[y] == c as usize;
                        assert(out@[y] == c as usize);
                    }
                    assert forall|e: int, c: int|
                        0 <= e <= d && #[trigger] first_package(pkgs@, deps@[e]@, c) implies out@.contains(c as usize) by {
                        if e < d {
                            let y = choose|y: int| 0 <= y < start.len() && start[y] == c as usize;
                            assert(out@[y] == c as usize);
                        } else {
                            assert(found == Some(c as usize));
                        }
                    }
                }
                d = d + 1;
            }
        }
        k = k + 1;
    }
    proof {
        assert forall|i: int| 0 <= i < n implies (out@.contains(i as usize) <==> reachable(pkgs@, *res, i)) by {
            if reachable(pkgs@, *res, i) {
                lemma_closed_holds_reachable(pkgs@, *res, out@, ri as int, i);
            }
            if out@.contains(i as usize) {
                let x = choose|x: int| 0 <= x < out@.len() && out@[x] == i as usize;
            }
        }
    }
    out
}

/// The indices `0..n` in order.
fn all_packages(n: usize) -> (r: Vec<usize>)
    ensures
        r@ == all_indices(n as nat),
{
    let mut r: Vec<usize> = Vec::new();
    let mut i: usize = 0;
    while i < n
        invariant
            i <= n,
            r@ == all_indices(i as nat),
        decreases n - i,
    {
        r.push(i);
        i = i + 1;
        assert(r@ =~= all_indices(i as nat));
    }
    r
}

} // verus!
