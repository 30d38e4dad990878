//! The tree of PID namespaces below the traced command, and the union of
//! the capabilities raised anywhere in it.

use std::collections::HashMap;
use vstd::prelude::*;
use vstd::set_lib::{lemma_len_subset, lemma_len_union};
use vstd::std_specs::hash::group_hash_axioms;
use crate::aggregate::{
    aggregate_cap_set_entries, aggregated, aggregated_with, caps_of, counted, has_key, is_first,
    key_of, raises, seen, unknown_at, CapSetEntry, Observation, UnknownCapability,
};
use crate::capset::CapSet;
use crate::symbols::{KernelSymbol, KernelSymbols};

verus! {

broadcast use group_hash_axioms;

/// Whether `child` is listed under `parent`.
pub open spec fn graph_edge(graph: Map<u32, Vec<u32>>, parent: u32, child: u32) -> bool {
    graph.contains_key(parent) && graph[parent]@.contains(child)
}

/// Whether each namespace of `path` is a child of the one before it.
pub open spec fn is_path(edge: spec_fn(u32, u32) -> bool, path: Seq<u32>) -> bool {
    &&& path.len() >= 1
    &&& forall|i: int| 0 <= i < path.len() - 1 ==> edge(#[trigger] path[i], path[i + 1])
}

/// Whether `ns` is `root` or lies below it.
pub open spec fn reachable(edge: spec_fn(u32, u32) -> bool, root: u32, ns: u32) -> bool {
    exists|path: Seq<u32>| #[trigger] is_path(edge, path) && path[0] == root && path.last() == ns
}

/// The capabilities raised in `root` or in any namespace below it, where
/// `caps` gives what is raised in each namespace.
pub open spec fn tree_union(
    edge: spec_fn(u32, u32) -> bool,
    caps: spec_fn(u32) -> Set<nat>,
    root: u32,
) -> Set<nat> {
    Set::new(|c: nat| exists|ns: u32| #[trigger] reachable(edge, root, ns) && caps(ns).contains(c))
}

/// The capabilities raised in namespace `ns`; none where the map has no
/// entry for it.
pub open spec fn caps_at(cap_graph: Map<u32, CapSet>, ns: u32) -> Set<nat> {
    if cap_graph.contains_key(ns) {
        cap_graph[ns]@
    } else {
        Set::empty()
    }
}

/// The child relation of a map from parents to lists of children.
pub open spec fn graph_edges(graph: Map<u32, Vec<u32>>) -> spec_fn(u32, u32) -> bool {
    |parent: u32, child: u32| graph_edge(graph, parent, child)
}

/// What a map from namespaces to capability sets gives for each namespace.
pub open spec fn graph_caps(cap_graph: Map<u32, CapSet>) -> spec_fn(u32) -> Set<nat> {
    |ns: u32| caps_at(cap_graph, ns)
}

/// The capabilities raised in any namespace of the list.
pub open spec fn covered(cap_graph: Map<u32, CapSet>, list: Seq<u32>) -> Set<nat> {
    Set::new(
        |c: nat|
            exists|i: int| 0 <= i < list.len() && caps_at(cap_graph, #[trigger] list[i]).contains(c),
    )
}

/// A namespace that neither map knows: nothing is raised in it and nothing
/// lies below it.
pub open spec fn is_blank(graph: Map<u32, Vec<u32>>, cap_graph: Map<u32, CapSet>, ns: u32) -> bool {
    !graph.contains_key(ns) && !cap_graph.contains_key(ns)
}

/// Every namespace is reachable from itself.
pub proof fn lemma_reach_self(edge: spec_fn(u32, u32) -> bool, root: u32)
    ensures
        reachable(edge, root, root),
{
    let path = seq![root];
    assert(is_path(edge, path));
}

/// A child of a reachable namespace is reachable.
pub proof fn lemma_reach_step(edge: spec_fn(u32, u32) -> bool, root: u32, ns: u32, child: u32)
    requires
        reachable(edge, root, ns),
        edge(ns, child),
    ensures
        reachable(edge, root, child),
{
    let path = choose|path: Seq<u32>| #[trigger]
        is_path(edge, path) && path[0] == root && path.last() == ns;
    let longer = path.push(child);
    assert forall|i: int| 0 <= i < longer.len() - 1 implies edge(
        #[trigger] longer[i],
        longer[i + 1],
    ) by {
        if i < path.len() - 1 {
            assert(longer[i] == path[i]);
            assert(edge(path[i], path[i + 1]));
        }
    }
    assert(is_path(edge, longer));
}

/// Tree containment: what is raised in a namespace of the tree below
/// `root` is part of the union over that tree.
pub proof fn lemma_tree_containment(
    edge: spec_fn(u32, u32) -> bool,
    caps: spec_fn(u32) -> Set<nat>,
    root: u32,
    ns: u32,
)
    requires
        reachable(edge, root, ns),
    ensures
        caps(ns).subset_of(tree_union(edge, caps, root)),
{
}

/// Two descriptions of one tree give one union.
pub proof fn lemma_tree_union_agrees(
    edge: spec_fn(u32, u32) -> bool,
    caps: spec_fn(u32) -> Set<nat>,
    other_edge: spec_fn(u32, u32) -> bool,
    other_caps: spec_fn(u32) -> Set<nat>,
    root: u32,
)
    requires
        forall|p: u32, c: u32| #[trigger] edge(p, c) == other_edge(p, c),
        forall|ns: u32| #[trigger] caps(ns) == other_caps(ns),
    ensures
        tree_union(edge, caps, root) == tree_union(other_edge, other_caps, root),
{
    assert forall|ns: u32| reachable(edge, root, ns) == reachable(other_edge, root, ns) by {
        if reachable(edge, root, ns) {
            let path = choose|path: Seq<u32>| #[trigger]
                is_path(edge, path) && path[0] == root && path.last() == ns;
            assert(is_path(other_edge, path));
        }
        if reachable(other_edge, root, ns) {
            let path = choose|path: Seq<u32>| #[trigger]
                is_path(other_edge, path) && path[0] == root && path.last() == ns;
            assert(is_path(edge, path));
        }
    }
    assert(tree_union(edge, caps, root) =~= tree_union(other_edge, other_caps, root));
}

/// A list that holds the root and, for each of its members, all that is
/// listed under it but blank namespaces, holds every namespace of a path
/// from the root that is not blank.
proof fn lemma_closed_list_covers(
    graph: Map<u32, Vec<u32>>,
    cap_graph: Map<u32, CapSet>,
    list: Seq<u32>,
    path: Seq<u32>,
    k: int,
)
    requires
        is_path(graph_edges(graph), path),
        0 <= k < path.len(),
        list.contains(path[0]),
        forall|i: int, c: u32|
            0 <= i < list.len() && graph_edge(graph, #[trigger] list[i], c) ==> #[trigger] list.contains(c)
                || is_blank(graph, cap_graph, c),
    ensures
        list.contains(path[k]) || is_blank(graph, cap_graph, path[k]),
    decreases k,
{
    if k > 0 {
        lemma_closed_list_covers(graph, cap_graph, list, path, k - 1);
        assert(graph_edges(graph)(path[k - 1], path[k]));
        if list.contains(path[k - 1]) {
            let i = choose|i: int| 0 <= i < list.len() && list[i] == path[k - 1];
            assert(graph_edge(graph, list[i], path[k]));
        }
    }
}

fn list_has(list: &Vec<u32>, ns: u32) -> (r: bool)
    ensures
        r == list@.contains(ns),
{
    let mut i: usize = 0;
    while i < list.len()
        invariant
            i <= list.len(),
            forall|j: int| 0 <= j < i ==> list@[j] != ns,
        decreases list.len() - i,
    {
        if list[i] == ns {
            return true;
        }
        i = i + 1;
    }
    false
}

/// The number of namespaces that a traversal can meet.
spec fn reach_bound(graph: Map<u32, Vec<u32>>, cap_graph: Map<u32, CapSet>) -> int {
    (graph.dom().len() + cap_graph.dom().len() + 1) as int
}

/// A list without repetition, of the root and of namespaces that one of the
/// maps knows, is no longer than the bound.
proof fn lemma_list_bounded(
    graph: Map<u32, Vec<u32>>,
    cap_graph: Map<u32, CapSet>,
    root: u32,
    list: Seq<u32>,
)
    requires
        graph.dom().finite(),
        cap_graph.dom().finite(),
        list.no_duplicates(),
        forall|i: int|
            0 <= i < list.len() ==> #[trigger] list[i] == root || !is_blank(graph, cap_graph, list[i]),
    ensures
        list.len() <= reach_bound(graph, cap_graph),
{
    let known = graph.dom().union(cap_graph.dom());
    let all = known.insert(root);
    lemma_len_union(graph.dom(), cap_graph.dom());
    list.unique_seq_to_set();
    assert(list.to_set().subset_of(all)) by {
        assert forall|ns: u32| list.to_set().contains(ns) implies all.contains(ns) by {
            let i = choose|i: int| 0 <= i < list.len() && list[i] == ns;
            assert(list[i] == root || !is_blank(graph, cap_graph, list[i]));
        }
    }
    lemma_len_subset(list.to_set(), all);
}

/// The union of the capabilities raised in namespace `nsinode` and in every
/// namespace below it. A namespace listed under itself, or met again on
/// another way, is taken once.
#[verifier::rlimit(50)]
pub fn union_all_childs(
    nsinode: u32,
    graph: &HashMap<u32, Vec<u32>>,
    cap_graph: &HashMap<u32, CapSet>,
) -> (r: CapSet)
    ensures
        r@ == tree_union(graph_edges(graph@), graph_caps(cap_graph@), nsinode),
{
    let mut result = match cap_graph.get(&nsinode) {
        Some(caps) => *caps,
        None => CapSet::empty(),
    };
    let mut visited: Vec<u32> = Vec::new();
    visited.push(nsinode);
    let mut next: usize = 0;
    proof {
        lemma_reach_self(graph_edges(graph@), nsinode);
        assert(visited@[0] == nsinode);
        assert(result@ =~= covered(cap_graph@, visited@)) by {
            assert forall|c: nat| result@.contains(c) implies covered(cap_graph@, visited@).contains(
                c,
            ) by {
                assert(caps_at(cap_graph@, visited@[0]).contains(c));
            }
        }
        lemma_list_bounded(graph@, cap_graph@, nsinode, visited@);
    }
    while next < visited.len()
        invariant
            next <= visited.len(),
            visited@.len() >= 1,
            visited@[0] == nsinode,
            visited@.no_duplicates(),
            visited@.len() <= reach_bound(graph@, cap_graph@),
            forall|i: int|
                0 <= i < visited@.len() ==> #[trigger] visited@[i] == nsinode || !is_blank(
                    graph@,
                    cap_graph@,
                    visited@[i],
                ),
            forall|i: int|
                0 <= i < visited@.len() ==> reachable(
                    graph_edges(graph@),
                    nsinode,
                    #[trigger] visited@[i],
                ),
            forall|i: int, c: u32|
                0 <= i < next && graph_edge(graph@, #[trigger] visited@[i], c) ==> #[trigger] visited@.contains(
                    c,
                ) || is_blank(graph@, cap_graph@, c),
            result@ == covered(cap_graph@, visited@),
        decreases reach_bound(graph@, cap_graph@) - next,
    {
        let node = visited[next];
        match graph.get(&node) {
            Some(kids) => {
                let mut k: usize = 0;
                while k < kids.len()
                    invariant
                        k <= kids.len(),
                        next < visited.len(),
                        node == visited@[next as int],
                        graph@.contains_key(node),
                        graph@[node] == *kids,
                        visited@.len() >= 1,
                        visited@[0] == nsinode,
                        visited@.no_duplicates(),
                        visited@.len() <= reach_bound(graph@, cap_graph@),
                        forall|i: int|
                            0 <= i < visited@.len() ==> #[trigger] visited@[i] == nsinode
                                || !is_blank(graph@, cap_graph@, visited@[i]),
                        forall|i: int|
                            0 <= i < visited@.len() ==> reachable(
                                graph_edges(graph@),
                                nsinode,
                                #[trigger] visited@[i],
                            ),
                        forall|i: int, c: u32|
                            0 <= i < next && graph_edge(graph@, #[trigger] visited@[i], c)
                                ==> #[trigger] visited@.contains(c) || is_blank(
                                graph@,
                                cap_graph@,
                                c,
                            ),
                        forall|j: int|
                            0 <= j < k ==> visited@.contains(#[trigger] kids@[j]) || is_blank(
                                graph@,
                                cap_graph@,
                                kids@[j],
                            ),
                        result@ == covered(cap_graph@, visited@),
                    decreases kids.len() - k,
                {
                    let child = kids[k];
                    let known = graph.contains_key(&child) || cap_graph.contains_key(&child);
                    if known && !list_has(&visited, child) {
                        let raised = match cap_graph.get(&child) {
                            Some(caps) => *caps,
                            None => CapSet::empty(),
                        };
                        let ghost before = visited@;
                        result = result.union(raised);
                        visited.push(child);
                        proof {
                            assert(graph_edge(graph@, node, child)) by {
                                assert(kids@[k as int] == child);
                            }
                            lemma_reach_step(graph_edges(graph@), nsinode, node, child);
                            assert forall|i: int| 0 <= i < before.len() implies visited@[i]
                                == before[i] by {}
                            assert forall|c: u32| before.contains(c) implies visited@.contains(
                                c,
                            ) by {
                                let i = choose|i: int| 0 <= i < before.len() && before[i] == c;
                                assert(visited@[i] == c);
                            }
                            assert(visited@.contains(child)) by {
                                assert(visited@[before.len() as int] == child);
                            }
                            assert forall|i: int, c: u32|
                                0 <= i < next && graph_edge(
                                    graph@,
                                    #[trigger] visited@[i],
                                    c,
                                ) implies #[trigger] visited@.contains(c) || is_blank(
                                graph@,
                                cap_graph@,
                                c,
                            ) by {
                                assert(graph_edge(graph@, before[i], c));
                                assert(before.contains(c) || is_blank(graph@, cap_graph@, c));
                            }
                            assert(raised@ == caps_at(cap_graph@, child));
                            assert(result@ =~= covered(cap_graph@, visited@)) by {
                                assert forall|c: nat|
                                    covered(cap_graph@, visited@).contains(c) implies result@.contains(
                                    c,
                                ) by {
                                    let i = choose|i: int|
                                        0 <= i < visited@.len() && caps_at(
                                            cap_graph@,
                                            #[trigger] visited@[i],
                                        ).contains(c);
                                    if i < before.len() {
                                        assert(caps_at(cap_graph@, before[i]).contains(c));
                                    }
                                }
                                assert forall|c: nat| result@.contains(c) implies covered(
                                    cap_graph@,
                                    visited@,
                                ).contains(c) by {
                                    if covered(cap_graph@, before).contains(c) {
                                        let i = choose|i: int|
                                            0 <= i < before.len() && caps_at(
                                                cap_graph@,
                                                #[trigger] before[i],
                                            ).contains(c);
                                        assert(caps_at(cap_graph@, visited@[i]).contains(c));
                                    } else {
                                        assert(caps_at(
                                            cap_graph@,
                                            visited@[before.len() as int],
                                        ).contains(c));
                                    }
                                }
                            }
                            lemma_list_bounded(graph@, cap_graph@, nsinode, visited@);
                        }
                    }
                    k = k + 1;
                }
                proof {
                    assert forall|c: u32| graph_edge(graph@, node, c) implies visited@.contains(c)
                        || is_blank(graph@, cap_graph@, c) by {
                        let j = choose|j: int| 0 <= j < kids@.len() && kids@[j] == c;
                        assert(visited@.contains(kids@[j]) || is_blank(graph@, cap_graph@, kids@[j]));
                    }
                }
            },
            None => {},
        }
        next = next + 1;
    }
    proof {
        let edge = graph_edges(graph@);
        let reached = tree_union(edge, graph_caps(cap_graph@), nsinode);
        assert forall|c: nat| reached.contains(c) implies result@.contains(c) by {
            let ns = choose|ns: u32| #[trigger]
                reachable(edge, nsinode, ns) && graph_caps(cap_graph@)(ns).contains(c);
            let path = choose|path: Seq<u32>| #[trigger]
                is_path(edge, path) && path[0] == nsinode && path.last() == ns;
            assert(visited@.contains(path[0]));
            lemma_closed_list_covers(graph@, cap_graph@, visited@, path, path.len() - 1);
            let i = choose|i: int| 0 <= i < visited@.len() && visited@[i] == ns;
            assert(caps_at(cap_graph@, visited@[i]).contains(c));
        }
        assert forall|c: nat| result@.contains(c) implies reached.contains(c) by {
            let i = choose|i: int|
                0 <= i < visited@.len() && caps_at(cap_graph@, #[trigger] visited@[i]).contains(c);
            assert(reachable(edge, nsinode, visited@[i]));
            assert(graph_caps(cap_graph@)(visited@[i]).contains(c));
        }
        assert(result@ =~= reached);
    }
    result
}

/// Whether some entry is of a process in namespace `child` whose parent is
/// in namespace `parent`.
pub open spec fn entry_edge(entries: Seq<CapSetEntry>, parent: u32, child: u32) -> bool {
    exists|a: int|
        0 <= a < entries.len() && (#[trigger] entries[a]).parent_ns == parent && entries[a].ns
            == child
}

/// Whether some entry is of a process in namespace `ns`.
pub open spec fn has_ns(entries: Seq<CapSetEntry>, ns: u32) -> bool {
    exists|a: int| 0 <= a < entries.len() && (#[trigger] entries[a]).ns == ns
}

/// The capabilities of the entries of the processes in namespace `ns`.
pub open spec fn entry_caps_at(entries: Seq<CapSetEntry>, ns: u32) -> Set<nat> {
    Set::new(
        |c: nat|
            exists|a: int|
                0 <= a < entries.len() && (#[trigger] entries[a]).ns == ns
                    && entries[a].capabilities@.contains(c),
    )
}

/// The child relation among the namespaces of the entries.
pub open spec fn entry_edges(entries: Seq<CapSetEntry>) -> spec_fn(u32, u32) -> bool {
    |parent: u32, child: u32| entry_edge(entries, parent, child)
}

/// What the entries raise in each namespace.
pub open spec fn entry_caps(entries: Seq<CapSetEntry>) -> spec_fn(u32) -> Set<nat> {
    |ns: u32| entry_caps_at(entries, ns)
}

/// Whether the two maps are the namespace graph of the entries: the
/// children of each namespace, and for each namespace of an entry what is
/// raised in it.
pub open spec fn is_graph_of(
    graph: Map<u32, Vec<u32>>,
    cap_graph: Map<u32, CapSet>,
    entries: Seq<CapSetEntry>,
) -> bool {
    &&& forall|p: u32, c: u32| #[trigger] graph_edge(graph, p, c) == entry_edge(entries, p, c)
    &&& forall|ns: u32| #[trigger] cap_graph.contains_key(ns) == has_ns(entries, ns)
    &&& forall|ns: u32| #[trigger] caps_at(cap_graph, ns) == entry_caps_at(entries, ns)
}

/// The namespace graph after one more entry.
#[verifier::rlimit(50)]
proof fn lemma_graph_grows(
    graph: Map<u32, Vec<u32>>,
    cap_graph: Map<u32, CapSet>,
    entries: Seq<CapSetEntry>,
    n: int,
    kids: Vec<u32>,
    merged: CapSet,
)
    requires
        0 <= n < entries.len(),
        is_graph_of(graph, cap_graph, entries.take(n)),
        kids@ == (if graph.contains_key(entries[n].parent_ns) {
            graph[entries[n].parent_ns]@
        } else {
            Seq::empty()
        }).push(entries[n].ns),
        merged@ == caps_at(cap_graph, entries[n].ns).union(entries[n].capabilities@),
    ensures
        is_graph_of(
            graph.insert(entries[n].parent_ns, kids),
            cap_graph.insert(entries[n].ns, merged),
            entries.take(n + 1),
        ),
{
    let before = entries.take(n);
    let after = entries.take(n + 1);
    let e = entries[n];
    let graph2 = graph.insert(e.parent_ns, kids);
    let caps2 = cap_graph.insert(e.ns, merged);
    let old_kids = if graph.contains_key(e.parent_ns) {
        graph[e.parent_ns]@
    } else {
        Seq::empty()
    };
    assert(after[n] == e);
    assert forall|a: int| 0 <= a < n implies #[trigger] after[a] == before[a] by {}
    assert forall|p: u32, c: u32| #[trigger] graph_edge(graph2, p, c) == entry_edge(after, p, c) by {
        if graph_edge(graph2, p, c) {
            if p == e.parent_ns {
                let i = choose|i: int| 0 <= i < kids@.len() && kids@[i] == c;
                if i < old_kids.len() {
                    assert(old_kids[i] == c);
                    assert(graph_edge(graph, p, c));
                    let a = choose|a: int|
                        0 <= a < before.len() && (#[trigger] before[a]).parent_ns == p
                            && before[a].ns == c;
                    assert(after[a].parent_ns == p && after[a].ns == c);
                } else {
                    assert(after[n].parent_ns == p && after[n].ns == c);
                }
            } else {
                assert(graph_edge(graph, p, c));
                let a = choose|a: int|
                    0 <= a < before.len() && (#[trigger] before[a]).parent_ns == p && before[a].ns
                        == c;
                assert(after[a].parent_ns == p && after[a].ns == c);
            }
        }
        if entry_edge(after, p, c) {
            let a = choose|a: int|
                0 <= a < after.len() && (#[trigger] after[a]).parent_ns == p && after[a].ns == c;
            if a < n {
                assert(before[a].parent_ns == p && before[a].ns == c);
                assert(graph_edge(graph, p, c));
                if p == e.parent_ns {
                    let i = choose|i: int| 0 <= i < old_kids.len() && old_kids[i] == c;
                    assert(kids@[i] == c);
                }
            } else {
                assert(kids@[old_kids.len() as int] == c);
            }
        }
    }
    assert forall|ns: u32| #[trigger] caps2.contains_key(ns) == has_ns(after, ns) by {
        if has_ns(after, ns) {
            let a = choose|a: int| 0 <= a < after.len() && (#[trigger] after[a]).ns == ns;
            if a < n {
                assert(before[a].ns == ns);
                assert(has_ns(before, ns));
            }
        }
        if caps2.contains_key(ns) {
            if ns == e.ns {
                assert(after[n].ns == ns);
            } else {
                assert(has_ns(before, ns));
                let a = choose|a: int| 0 <= a < before.len() && (#[trigger] before[a]).ns == ns;
                assert(after[a].ns == ns);
            }
        }
    }
    assert forall|ns: u32| #[trigger] caps_at(caps2, ns) == entry_caps_at(after, ns) by {
        assert(caps_at(cap_graph, ns) == entry_caps_at(before, ns));
        assert forall|c: nat| caps_at(caps2, ns).contains(c) == entry_caps_at(after, ns).contains(
            c,
        ) by {
            if entry_caps_at(after, ns).contains(c) {
                let a = choose|a: int|
                    0 <= a < after.len() && (#[trigger] after[a]).ns == ns
                        && after[a].capabilities@.contains(c);
                if a < n {
                    assert(before[a].ns == ns && before[a].capabilities@.contains(c));
                    assert(entry_caps_at(before, ns).contains(c));
                }
            }
            if caps_at(caps2, ns).contains(c) {
                if entry_caps_at(before, ns).contains(c) {
                    let a = choose|a: int|
                        0 <= a < before.len() && (#[trigger] before[a]).ns == ns
                            && before[a].capabilities@.contains(c);
                    assert(after[a].ns == ns && after[a].capabilities@.contains(c));
                } else {
                    assert(after[n].ns == ns && after[n].capabilities@.contains(c));
                }
            }
        }
        assert(caps_at(caps2, ns) =~= entry_caps_at(after, ns));
    }
}

/// The namespace graph of the entries: the children of each namespace, and
/// what is raised in each namespace.
pub fn namespace_graph(entries: &Vec<CapSetEntry>) -> (r: (
    HashMap<u32, Vec<u32>>,
    HashMap<u32, CapSet>,
))
    ensures
        is_graph_of(r.0@, r.1@, entries@),
{
    let mut graph: HashMap<u32, Vec<u32>> = HashMap::new();
    let mut cap_graph: HashMap<u32, CapSet> = HashMap::new();
    let mut n: usize = 0;
    proof {
        let none = entries@.take(0);
        assert forall|ns: u32| #[trigger] caps_at(cap_graph@, ns) == entry_caps_at(none, ns) by {
            assert(caps_at(cap_graph@, ns) =~= entry_caps_at(none, ns));
        }
    }
    while n < entries.len()
        invariant
            n <= entries.len(),
            is_graph_of(graph@, cap_graph@, entries@.take(n as int)),
        decreases entries.len() - n,
    {
        let entry = &entries[n];
        let merged = match cap_graph.get(&entry.ns) {
            Some(caps) => caps.union(entry.capabilities),
            None => entry.capabilities,
        };
        let ghost old_graph = graph@;
        let ghost old_caps = cap_graph@;
        let mut kids = match graph.remove(&entry.parent_ns) {
            Some(kids) => kids,
            None => Vec::new(),
        };
        kids.push(entry.ns);
        proof {
            assert(merged@ =~= caps_at(old_caps, entry.ns).union(entry.capabilities@));
            lemma_graph_grows(old_graph, old_caps, entries@, n as int, kids, merged);
            assert(old_graph.remove(entry.parent_ns).insert(entry.parent_ns, kids)
                =~= old_graph.insert(entry.parent_ns, kids));
        }
        graph.insert(entry.parent_ns, kids);
        cap_graph.insert(entry.ns, merged);
        n = n + 1;
    }
    proof {
        assert(entries@.take(n as int) =~= entries@);
    }
    (graph, cap_graph)
}

/// The union of the capabilities of the entries in namespace `nsinode` and
/// in every namespace below it.
pub fn namespace_union(nsinode: u32, entries: &Vec<CapSetEntry>) -> (r: CapSet)
    ensures
        r@ == tree_union(entry_edges(entries@), entry_caps(entries@), nsinode),
{
    let (graph, cap_graph) = namespace_graph(entries);
    let r = union_all_childs(nsinode, &graph, &cap_graph);
    proof {
        lemma_tree_union_agrees(
            graph_edges(graph@),
            graph_caps(cap_graph@),
            entry_edges(entries@),
            entry_caps(entries@),
            nsinode,
        );
    }
    r
}

/// Whether some seen observation is of a process in namespace `child`
/// whose parent is in namespace `parent`.
pub open spec fn seen_edge(obs: Seq<Observation>, parent: u32, child: u32) -> bool {
    exists|j: int|
        0 <= j < obs.len() && seen(#[trigger] obs[j]) && key_of(obs[j].request).parent_ns == parent
            && key_of(obs[j].request).ns == child
}

/// The capabilities that the observations give to the processes in
/// namespace `ns`.
pub open spec fn raised_in(obs: Seq<Observation>, table: Seq<KernelSymbol>, ns: u32) -> Set<nat> {
    Set::new(
        |c: nat|
            exists|j: int|
                0 <= j < obs.len() && counted(#[trigger] obs[j], table) && key_of(
                    obs[j].request,
                ).ns == ns && obs[j].request.capability as nat == c,
    )
}

/// The child relation among the namespaces of the seen observations.
pub open spec fn observed_edges(obs: Seq<Observation>) -> spec_fn(u32, u32) -> bool {
    |parent: u32, child: u32| seen_edge(obs, parent, child)
}

/// What the observations raise in each namespace.
pub open spec fn observed_caps(obs: Seq<Observation>, table: Seq<KernelSymbol>) -> spec_fn(u32) -> Set<
    nat,
> {
    |ns: u32| raised_in(obs, table, ns)
}

/// The entries of an aggregation describe the namespaces as the
/// observations do.
#[verifier::rlimit(50)]
proof fn lemma_entries_describe(
    obs: Seq<Observation>,
    table: Seq<KernelSymbol>,
    entries: Seq<CapSetEntry>,
)
    requires
        aggregated(obs, table, entries),
    ensures
        forall|p: u32, c: u32| #[trigger] entry_edge(entries, p, c) == seen_edge(obs, p, c),
        forall|ns: u32| #[trigger] entry_caps_at(entries, ns) == raised_in(obs, table, ns),
{
    let firsts = choose|firsts: Seq<int>| aggregated_with(obs, table, entries, firsts);
    assert forall|p: u32, c: u32| #[trigger] entry_edge(entries, p, c) == seen_edge(obs, p, c) by {
        if entry_edge(entries, p, c) {
            let a = choose|a: int|
                0 <= a < entries.len() && (#[trigger] entries[a]).parent_ns == p && entries[a].ns
                    == c;
            assert(is_first(obs, entries[a].spec_key(), firsts[a]));
            assert(seen(obs[firsts[a]]));
        }
        if seen_edge(obs, p, c) {
            let j = choose|j: int|
                0 <= j < obs.len() && seen(#[trigger] obs[j]) && key_of(obs[j].request).parent_ns
                    == p && key_of(obs[j].request).ns == c;
            assert(has_key(entries, key_of(obs[j].request)));
            let a = choose|a: int|
                0 <= a < entries.len() && (#[trigger] entries[a]).spec_key() == key_of(
                    obs[j].request,
                );
            assert(entries[a].parent_ns == p && entries[a].ns == c);
        }
    }
    assert forall|ns: u32| #[trigger] entry_caps_at(entries, ns) == raised_in(obs, table, ns) by {
        assert forall|c: nat| entry_caps_at(entries, ns).contains(c) == raised_in(
            obs,
            table,
            ns,
        ).contains(c) by {
            if entry_caps_at(entries, ns).contains(c) {
                let a = choose|a: int|
                    0 <= a < entries.len() && (#[trigger] entries[a]).ns == ns
                        && entries[a].capabilities@.contains(c);
                let key = entries[a].spec_key();
                assert(caps_of(obs, table, key).contains(c));
                let j = choose|j: int| 0 <= j < obs.len() && raises(#[trigger] obs[j], table, key, c);
                assert(counted(obs[j], table));
            }
            if raised_in(obs, table, ns).contains(c) {
                let j = choose|j: int|
                    0 <= j < obs.len() && counted(#[trigger] obs[j], table) && key_of(
                        obs[j].request,
                    ).ns == ns && obs[j].request.capability as nat == c;
                let key = key_of(obs[j].request);
                assert(seen(obs[j]));
                assert(has_key(entries, key));
                let a = choose|a: int|
                    0 <= a < entries.len() && (#[trigger] entries[a]).spec_key() == key;
                assert(raises(obs[j], table, key, c));
                assert(caps_of(obs, table, key).contains(c));
                assert(entries[a].ns == ns && entries[a].capabilities@.contains(c));
            }
        }
        assert(entry_caps_at(entries, ns) =~= raised_in(obs, table, ns));
    }
}

/// The capabilities that the traced command needs by the observations: what
/// they raise in namespace `nsinode` and in every namespace below it. An
/// observation that passes the stack filter with a capability beyond the
/// table is an error, the first such one.
pub fn program_capabilities(
    nsinode: u32,
    observations: &Vec<Observation>,
    ksyms: &KernelSymbols,
) -> (r: Result<CapSet, UnknownCapability>)
    ensures
        match r {
            Ok(set) => {
                &&& forall|j: int| !unknown_at(observations@, ksyms@, j)
                &&& set@ == tree_union(
                    observed_edges(observations@),
                    observed_caps(observations@, ksyms@),
                    nsinode,
                )
            },
            Err(e) => {
                &&& unknown_at(observations@, ksyms@, e.position as int)
                &&& e.capability == observations@[e.position as int].request.capability
                &&& forall|j: int| 0 <= j < e.position ==> !unknown_at(observations@, ksyms@, j)
            },
        },
{
    match aggregate_cap_set_entries(observations, ksyms) {
        Ok(entries) => {
            let set = namespace_union(nsinode, &entries);
            proof {
                lemma_entries_describe(observations@, ksyms@, entries@);
                lemma_tree_union_agrees(
                    entry_edges(entries@),
                    entry_caps(entries@),
                    observed_edges(observations@),
                    observed_caps(observations@, ksyms@),
                    nsinode,
                );
            }
            Ok(set)
        },
        Err(e) => Err(e),
    }
}

} // verus!
