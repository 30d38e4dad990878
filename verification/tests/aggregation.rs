use capable::aggregate::{
    aggregate_cap_set_entries, filter_request, skip_priv_sym, CapSetEntry, Observation,
    ProcessKey, UnknownCapability,
};
use capable::capset::{capset_to_vec, get_cap, CapSet};
use capable::nstree::{namespace_graph, namespace_union, program_capabilities, union_all_childs};
use capable::request::{extract_ns, pack_ns, split_uid_gid, Request};
use capable::symbols::{KernelSymbol, KernelSymbols};
use std::collections::hash_map::DefaultHasher;
use std::collections::{HashMap, HashSet};
use std::hash::{Hash, Hasher};

fn symbols() -> KernelSymbols {
    let table = vec![
        KernelSymbol { address: 0x1000, name: "cap_capable".to_string() },
        KernelSymbol { address: 0x2000, name: "may_open".to_string() },
        KernelSymbol { address: 0x3000, name: "cap_bprm_creds_from_file".to_string() },
        KernelSymbol { address: 0x4000, name: "chown_common".to_string() },
    ];
    KernelSymbols::from_sorted(table).unwrap()
}

fn request(pid: i32, uid: u32, gid: u32, parent_ns: u32, ns: u32, capability: u8) -> Request {
    Request {
        pid,
        ppid: 1,
        uid_gid: ((gid as u64) << 32) | uid as u64,
        pnsid_nsid: pack_ns(parent_ns, ns),
        capability,
        stackid: 3,
    }
}

fn seen(request: Request, frames: &[u64]) -> Observation {
    Observation { request, stack: Some(frames.to_vec()) }
}

fn caps(indices: &[u8]) -> CapSet {
    let mut set = CapSet::empty();
    for i in indices {
        set.add(get_cap(*i).unwrap());
    }
    set
}

const ROOT: u32 = 4026531836;
const CHILD: u32 = 4026532100;

#[test]
fn packing_and_unpacking_namespaces() {
    assert_eq!(pack_ns(7, 9), (7u64 << 32) | 9);
    assert_eq!(extract_ns((7u64 << 32) | 9), (9, 7));
    assert_eq!(extract_ns(pack_ns(ROOT, CHILD)), (CHILD, ROOT));
    assert_eq!(extract_ns(u64::MAX), (u32::MAX, u32::MAX));
    assert_eq!(split_uid_gid((1001u64 << 32) | 1000), (1000, 1001));
}

#[test]
fn stack_key_rejects_ids_beyond_the_table() {
    let mut r = request(1, 0, 0, ROOT, ROOT, 0);
    r.stackid = 0;
    assert_eq!(r.stack_key(), Some(0));
    r.stackid = i32::MAX as i64;
    assert_eq!(r.stack_key(), Some(i32::MAX as u32));
    r.stackid = i32::MAX as i64 + 1;
    assert_eq!(r.stack_key(), None);
    r.stackid = -14;
    assert_eq!(r.stack_key(), None);
}

#[test]
fn chown_probe_is_kept() {
    let obs = vec![seen(request(42, 1000, 1000, ROOT, ROOT, 0), &[0x4010, 0x1004])];
    let entries = aggregate_cap_set_entries(&obs, &symbols()).unwrap();
    assert_eq!(entries.len(), 1);
    assert_eq!(entries[0].uid, 1000);
    assert_eq!(capset_to_vec(&entries[0].capabilities), vec!["CAP_CHOWN"]);
}

#[test]
fn suid_exec_is_filtered() {
    let obs = vec![seen(request(42, 1000, 1000, ROOT, ROOT, 7), &[0x1004, 0x3abc])];
    let entries = aggregate_cap_set_entries(&obs, &symbols()).unwrap();
    assert_eq!(entries.len(), 1);
    assert!(entries[0].capabilities.is_empty());
    let obs = vec![seen(request(42, 1000, 1000, ROOT, ROOT, 7), &[0x1004, 0x4abc])];
    let entries = aggregate_cap_set_entries(&obs, &symbols()).unwrap();
    assert_eq!(capset_to_vec(&entries[0].capabilities), vec!["CAP_SETUID"]);
}

#[test]
fn may_open_probe_is_filtered_by_stack_alone() {
    let benign = vec![seen(request(42, 1000, 1000, ROOT, ROOT, 2), &[0x1004, 0x2f00])];
    let entries = aggregate_cap_set_entries(&benign, &symbols()).unwrap();
    assert!(entries[0].capabilities.is_empty());
    let real = vec![seen(request(42, 1000, 1000, ROOT, ROOT, 2), &[0x1004, 0x4f00])];
    let entries = aggregate_cap_set_entries(&real, &symbols()).unwrap();
    assert_eq!(capset_to_vec(&entries[0].capabilities), vec!["CAP_DAC_READ_SEARCH"]);
    let unresolved = vec![seen(request(42, 1000, 1000, ROOT, ROOT, 2), &[0x10])];
    let entries = aggregate_cap_set_entries(&unresolved, &symbols()).unwrap();
    assert_eq!(capset_to_vec(&entries[0].capabilities), vec!["CAP_DAC_READ_SEARCH"]);
}

#[test]
fn noisy_capabilities_are_always_filtered() {
    let table = symbols();
    assert!(filter_request(1, &vec![0x4000], &table));
    assert!(filter_request(19, &vec![], &table));
    assert!(!filter_request(0, &vec![0x2000, 0x3000], &table));
    assert!(!filter_request(7, &vec![0x2000], &table));
    assert!(filter_request(7, &vec![0x2000, 0x3fff], &table));
    assert!(skip_priv_sym(&vec![0x1fff, 0x2000], &table, "may_open"));
    assert!(!skip_priv_sym(&vec![0x1fff, 0x3000], &table, "may_open"));
    assert!(!skip_priv_sym(&vec![0x2000], &table, "may_ope"));
}

#[test]
fn same_request_twice_is_the_same_as_once() {
    let r = request(42, 1000, 1000, ROOT, ROOT, 21);
    let once = aggregate_cap_set_entries(&vec![seen(r, &[0x4000])], &symbols()).unwrap();
    let twice =
        aggregate_cap_set_entries(&vec![seen(r, &[0x4000]), seen(r, &[0x4000])], &symbols())
            .unwrap();
    assert_eq!(once.len(), 1);
    assert_eq!(twice.len(), 1);
    assert_eq!(once[0].capabilities, twice[0].capabilities);
    assert_eq!(once[0].capabilities, caps(&[21]));
}

#[test]
fn order_of_requests_does_not_change_the_sets() {
    let a = request(1, 0, 0, ROOT, ROOT, 0);
    let b = request(1, 0, 0, ROOT, ROOT, 12);
    let c = request(2, 0, 0, ROOT, CHILD, 10);
    let forward = vec![seen(a, &[0x4000]), seen(b, &[0x4000]), seen(c, &[0x4000])];
    let backward = vec![seen(c, &[0x4000]), seen(b, &[0x4000]), seen(a, &[0x4000])];
    let x = aggregate_cap_set_entries(&forward, &symbols()).unwrap();
    let y = aggregate_cap_set_entries(&backward, &symbols()).unwrap();
    assert_eq!(x.len(), 2);
    assert_eq!(y.len(), 2);
    for e in &x {
        let other = y.iter().find(|o| *o == e).unwrap();
        assert_eq!(other.capabilities, e.capabilities);
    }
    assert_eq!(x[0].key(), ProcessKey { pid: 1, ppid: 1, uid: 0, parent_ns: ROOT, ns: ROOT });
    assert_eq!(x[0].capabilities, caps(&[0, 12]));
    assert_eq!(y[0].pid, 2);
    assert_eq!(y[0].capabilities, caps(&[10]));
}

#[test]
fn removing_a_filtered_request_changes_nothing() {
    let a = request(1, 0, 0, ROOT, ROOT, 0);
    let noise = request(1, 0, 0, ROOT, ROOT, 1);
    let with = vec![seen(a, &[0x4000]), seen(noise, &[0x4000])];
    let without = vec![seen(a, &[0x4000])];
    let x = aggregate_cap_set_entries(&with, &symbols()).unwrap();
    let y = aggregate_cap_set_entries(&without, &symbols()).unwrap();
    assert_eq!(x.len(), 1);
    assert_eq!(x[0].capabilities, y[0].capabilities);
}

#[test]
fn group_id_is_no_part_of_the_identity() {
    let first = request(1, 1000, 50, ROOT, ROOT, 0);
    let second = request(1, 1000, 60, ROOT, ROOT, 5);
    let obs = vec![seen(first, &[0x4000]), seen(second, &[0x4000])];
    let entries = aggregate_cap_set_entries(&obs, &symbols()).unwrap();
    assert_eq!(entries.len(), 1);
    assert_eq!(entries[0].gid, 50);
    assert_eq!(entries[0].capabilities, caps(&[0, 5]));
    let a = CapSetEntry::new(1, 2, 3, 4, 5, 6);
    let mut b = CapSetEntry::new(1, 2, 3, 40, 5, 6);
    b.add(get_cap(3).unwrap());
    assert!(a == b);
    assert_eq!(a.parent_ns, 5);
    assert_eq!(a.ns, 6);
    assert!(a != CapSetEntry::new(1, 2, 3, 4, 6, 5));
}

#[test]
fn request_without_stack_is_passed_over() {
    let lost = Observation { request: request(9, 0, 0, ROOT, CHILD, 0), stack: None };
    let kept = seen(request(1, 0, 0, ROOT, ROOT, 5), &[0x4000]);
    let entries = aggregate_cap_set_entries(&vec![lost, kept], &symbols()).unwrap();
    assert_eq!(entries.len(), 1);
    assert_eq!(entries[0].pid, 1);
    let lost = Observation { request: request(9, 0, 0, ROOT, CHILD, 200), stack: None };
    assert!(aggregate_cap_set_entries(&vec![lost], &symbols()).unwrap().is_empty());
}

#[test]
fn unknown_capability_is_fatal() {
    let obs = vec![
        seen(request(1, 0, 0, ROOT, ROOT, 0), &[0x4000]),
        seen(request(1, 0, 0, ROOT, ROOT, 41), &[0x4000]),
        seen(request(1, 0, 0, ROOT, ROOT, 77), &[0x4000]),
    ];
    assert_eq!(
        aggregate_cap_set_entries(&obs, &symbols()).unwrap_err(),
        UnknownCapability { position: 1, capability: 41 }
    );
    assert_eq!(
        program_capabilities(ROOT, &obs, &symbols()).unwrap_err(),
        UnknownCapability { position: 1, capability: 41 }
    );
}

#[test]
fn nested_namespace_is_part_of_the_union() {
    let obs = vec![seen(request(100, 0, 0, ROOT, CHILD, 10), &[0x4000])];
    let set = program_capabilities(ROOT, &obs, &symbols()).unwrap();
    assert_eq!(capset_to_vec(&set), vec!["CAP_NET_BIND_SERVICE"]);
    let elsewhere = program_capabilities(CHILD + 1, &obs, &symbols()).unwrap();
    assert!(elsewhere.is_empty());
}

#[test]
fn union_covers_the_whole_subtree_and_nothing_else() {
    let mut entries = Vec::new();
    let mut add = |parent: u32, ns: u32, cap: u8| {
        let mut e = CapSetEntry::new(ns as i32, 1, 0, 0, parent, ns);
        e.add(get_cap(cap).unwrap());
        entries.push(e);
    };
    add(1, 1, 0);
    add(1, 2, 3);
    add(2, 3, 5);
    add(3, 4, 6);
    add(9, 8, 21);
    add(4, 2, 12);
    assert_eq!(namespace_union(1, &entries), caps(&[0, 3, 5, 6, 12]));
    assert_eq!(namespace_union(2, &entries), caps(&[3, 5, 6, 12]));
    assert_eq!(namespace_union(4, &entries), caps(&[3, 5, 6, 12]));
    assert_eq!(namespace_union(8, &entries), caps(&[21]));
    assert_eq!(namespace_union(9, &entries), caps(&[21]));
    assert_eq!(namespace_union(77, &entries), CapSet::empty());
    let (graph, cap_graph) = namespace_graph(&entries);
    assert_eq!(graph[&1], vec![1, 2]);
    assert_eq!(cap_graph[&2], caps(&[3, 12]));
    assert!(!cap_graph.contains_key(&9));
    assert_eq!(union_all_childs(1, &graph, &cap_graph), caps(&[0, 3, 5, 6, 12]));
}

#[test]
fn union_ends_on_a_cycle() {
    let mut graph: HashMap<u32, Vec<u32>> = HashMap::new();
    graph.insert(1, vec![1, 2, 2]);
    graph.insert(2, vec![3, 1]);
    graph.insert(3, vec![2, 5]);
    let mut cap_graph: HashMap<u32, CapSet> = HashMap::new();
    cap_graph.insert(1, caps(&[0]));
    cap_graph.insert(3, caps(&[9]));
    cap_graph.insert(6, caps(&[30]));
    assert_eq!(union_all_childs(1, &graph, &cap_graph), caps(&[0, 9]));
    assert_eq!(union_all_childs(5, &graph, &cap_graph), CapSet::empty());
    assert_eq!(union_all_childs(6, &graph, &cap_graph), caps(&[30]));
}

#[test]
fn symbols_resolve_to_the_nearest_below() {
    let table = symbols();
    assert_eq!(table.len(), 4);
    assert_eq!(table.resolve(0xfff), None);
    assert_eq!(table.resolve(0x1000).unwrap(), "cap_capable");
    assert_eq!(table.resolve(0x1fff).unwrap(), "cap_capable");
    assert_eq!(table.resolve(0x2000).unwrap(), "may_open");
    assert_eq!(table.resolve(u64::MAX).unwrap(), "chown_common");
    let empty = KernelSymbols::from_sorted(Vec::new()).unwrap();
    assert_eq!(empty.resolve(5), None);
}

#[test]
fn symbols_must_rise_strictly() {
    let unsorted = vec![
        KernelSymbol { address: 2, name: "b".to_string() },
        KernelSymbol { address: 1, name: "a".to_string() },
    ];
    assert!(KernelSymbols::from_sorted(unsorted).is_none());
    let repeated = vec![
        KernelSymbol { address: 1, name: "a".to_string() },
        KernelSymbol { address: 1, name: "b".to_string() },
    ];
    assert!(KernelSymbols::from_sorted(repeated).is_none());
}

fn hash_of(entry: &CapSetEntry) -> u64 {
    let mut hasher = DefaultHasher::new();
    entry.hash(&mut hasher);
    hasher.finish()
}

#[test]
fn hash_follows_the_identity() {
    let a = CapSetEntry::new(1, 2, 3, 4, 5, 6);
    let mut b = CapSetEntry::new(1, 2, 3, 40, 5, 6);
    b.add(get_cap(3).unwrap());
    assert_eq!(hash_of(&a), hash_of(&b));
    let mut expected = DefaultHasher::new();
    1i32.hash(&mut expected);
    2i32.hash(&mut expected);
    3u32.hash(&mut expected);
    5u32.hash(&mut expected);
    6u32.hash(&mut expected);
    assert_eq!(hash_of(&a), expected.finish());
    assert_ne!(hash_of(&a), hash_of(&CapSetEntry::new(1, 2, 3, 4, 6, 5)));
    let mut set = HashSet::new();
    assert!(set.insert(a));
    assert!(!set.insert(b));
    assert!(set.insert(CapSetEntry::new(7, 2, 3, 4, 5, 6)));
    assert_eq!(set.len(), 2);
    assert_eq!(set.get(&b).unwrap().gid, 4);
}
