use xvmlib::handler::{xvm_use, UseError};
use xvmlib::ordered::OrderedMap;
use xvmlib::resolver::{apply, prune, resolve, target_is_lib, walk, Edge, Resolution};
use xvmlib::versiondb::{VData, VersionDB};
use xvmlib::workspace::Workspace;

fn record(path: &str) -> VData {
    VData { alias: None, path: path.to_string(), icon: None, envs: None, bindings: None }
}

fn pair(a: &str, b: &str) -> (String, String) {
    (a.to_string(), b.to_string())
}

fn entries(m: &OrderedMap<String>) -> Vec<(String, String)> {
    (0..m.len()).map(|i| (m.key_at(i).clone(), m.value_at(i).clone())).collect()
}

fn edges(v: &Vec<Edge>) -> Vec<(String, String, String, String)> {
    v.iter()
        .map(|e| (e.owner.clone(), e.version.clone(), e.dep.clone(), e.dep_version.clone()))
        .collect()
}

fn edge(a: &str, b: &str, c: &str, d: &str) -> (String, String, String, String) {
    (a.to_string(), b.to_string(), c.to_string(), d.to_string())
}

fn bindings(db: &VersionDB, name: &str, version: &str) -> Option<Vec<(String, String)>> {
    db.get_bindings(name, version).map(entries)
}

fn selections(ws: &Workspace) -> Vec<(String, String)> {
    ws.all_versions().into_iter().map(|(k, v)| (k.clone(), v.clone())).collect()
}

fn cyclic() -> VersionDB {
    let mut db = VersionDB::new("f");
    db.set_vdata("A", "1", record("/a"));
    db.set_vdata("B", "1", record("/b"));
    db.add_binding("A", "1", pair("B", "1"));
    db.add_binding("B", "1", pair("A", "1"));
    db
}

#[test]
fn a_cycle_is_walked_once() {
    let db = cyclic();
    let found = resolve(&db, "A", "1");
    assert_eq!(entries(&found.resolved), vec![pair("A", "1"), pair("B", "1")]);
    assert_eq!(edges(&found.pruned), Vec::new());
}

#[test]
fn a_selection_without_bindings_resolves_itself() {
    let mut db = VersionDB::new("f");
    db.set_vdata("A", "1", record("/a"));
    let found = resolve(&db, "A", "1");
    assert_eq!(entries(&found.resolved), vec![pair("A", "1")]);
    assert!(found.pruned.is_empty());
    let found = resolve(&db, "Z", "9");
    assert_eq!(entries(&found.resolved), vec![pair("Z", "9")]);
}

#[test]
fn a_dangling_edge_is_set_aside_and_siblings_are_followed() {
    let mut db = VersionDB::new("f");
    db.set_vdata("A", "1", record("/a"));
    db.set_vdata("B", "1", record("/b"));
    db.set_vdata("C", "1", record("/c"));
    db.add_binding("A", "1", pair("B", "2"));
    db.add_binding("A", "1", pair("C", "1"));
    let found = resolve(&db, "A", "1");
    assert_eq!(entries(&found.resolved), vec![pair("A", "1"), pair("C", "1")]);
    assert_eq!(edges(&found.pruned), vec![edge("A", "1", "B", "2")]);
}

#[test]
fn propagation_is_transitive_and_depth_first() {
    let mut db = VersionDB::new("f");
    for t in ["A", "B", "C", "D"] {
        db.set_vdata(t, "1", record("/x"));
    }
    db.set_vdata("D", "2", record("/x"));
    db.add_binding("A", "1", pair("B", "1"));
    db.add_binding("A", "1", pair("D", "2"));
    db.add_binding("B", "1", pair("C", "1"));
    db.add_binding("C", "1", pair("D", "1"));
    let found = resolve(&db, "A", "1");
    assert_eq!(
        entries(&found.resolved),
        vec![pair("A", "1"), pair("B", "1"), pair("C", "1"), pair("D", "1")]
    );
    assert!(found.pruned.is_empty());
}

#[test]
fn walk_with_depth_zero_follows_no_edge_further() {
    let mut db = VersionDB::new("f");
    for t in ["A", "B", "C"] {
        db.set_vdata(t, "1", record("/x"));
    }
    db.add_binding("A", "1", pair("B", "1"));
    db.add_binding("B", "1", pair("C", "1"));
    let mut resolved: OrderedMap<String> = OrderedMap::new();
    resolved.insert("A".to_string(), "1".to_string());
    let mut st = Resolution { resolved, pruned: Vec::new() };
    walk(&db, &mut st, "A", "1", 0);
    assert_eq!(entries(&st.resolved), vec![pair("A", "1"), pair("B", "1")]);
}

#[test]
fn prune_removes_only_the_edges_given() {
    let mut db = VersionDB::new("f");
    db.set_vdata("A", "1", record("/a"));
    db.set_vdata("C", "1", record("/c"));
    db.add_binding("A", "1", pair("B", "2"));
    db.add_binding("A", "1", pair("C", "1"));
    db.add_binding("C", "1", pair("B", "2"));
    let cut = vec![Edge {
        owner: "A".to_string(),
        version: "1".to_string(),
        dep: "B".to_string(),
        dep_version: "2".to_string(),
    }];
    prune(&mut db, &cut);
    assert_eq!(bindings(&db, "A", "1"), Some(vec![pair("C", "1")]));
    assert_eq!(bindings(&db, "C", "1"), Some(vec![pair("B", "2")]));
    prune(&mut db, &Vec::new());
    assert_eq!(bindings(&db, "A", "1"), Some(vec![pair("C", "1")]));
}

#[test]
fn apply_updates_the_workspace_and_lists_libraries_to_relink() {
    let mut db = VersionDB::new("f");
    db.set_vdata("A", "1", record("/a"));
    db.set_vdata("L", "1", record("/l"));
    db.set_vdata("M", "1", record("/m"));
    db.set_type("L", "lib");
    db.set_type("M", "lib");
    assert!(target_is_lib(&db, "L"));
    assert!(!target_is_lib(&db, "A"));
    assert!(!target_is_lib(&db, "nope"));
    let mut ws = Workspace::new("w", "global");
    ws.set_version("M", "1");
    ws.set_version("A", "0");
    let mut resolved: OrderedMap<String> = OrderedMap::new();
    resolved.insert("A".to_string(), "1".to_string());
    resolved.insert("L".to_string(), "1".to_string());
    resolved.insert("M".to_string(), "1".to_string());
    let relinks = apply(&db, &mut ws, &resolved);
    assert_eq!(relinks, vec![pair("L", "1")]);
    assert_eq!(selections(&ws), vec![pair("M", "1"), pair("A", "1"), pair("L", "1")]);
}

#[test]
fn use_selects_prunes_and_propagates() {
    let mut db = VersionDB::new("f");
    db.set_vdata("A", "1.2.0", record("/a"));
    db.set_vdata("A", "1.2.9", record("/a9"));
    db.set_vdata("B", "1", record("/b"));
    db.add_binding("A", "1.2.9", pair("B", "1"));
    db.add_binding("A", "1.2.9", pair("C", "7"));
    let mut ws = Workspace::new("w", "global");
    let out = xvm_use(&mut db, &mut ws, "A", "1.2").unwrap();
    assert_eq!(out.version, "1.2.9");
    assert_eq!(edges(&out.pruned), vec![edge("A", "1.2.9", "C", "7")]);
    assert!(out.relinks.is_empty());
    assert_eq!(selections(&ws), vec![pair("A", "1.2.9"), pair("B", "1")]);
    assert_eq!(bindings(&db, "A", "1.2.9"), Some(vec![pair("B", "1")]));
}

#[test]
fn use_on_a_cycle_selects_both_targets() {
    let mut db = cyclic();
    let mut ws = Workspace::new("w", "global");
    let out = xvm_use(&mut db, &mut ws, "A", "1").unwrap();
    assert_eq!(out.version, "1");
    assert!(out.pruned.is_empty());
    assert_eq!(selections(&ws), vec![pair("A", "1"), pair("B", "1")]);
}

#[test]
fn use_reports_a_missing_target_or_version() {
    let mut db = VersionDB::new("f");
    db.set_vdata("A", "1", record("/a"));
    let mut ws = Workspace::new("w", "global");
    assert_eq!(xvm_use(&mut db, &mut ws, "Z", "1").err(), Some(UseError::TargetMissing));
    assert_eq!(xvm_use(&mut db, &mut ws, "A", "2").err(), Some(UseError::VersionMissing));
    assert!(selections(&ws).is_empty());
    assert!(db.has_version("A", "1"));
}
