use xvmlib::ordered::OrderedMap;
use xvmlib::workspace::{
    load_workspace, load_workspace_and_merge, WMetadata, Workspace, WorkspaceRoot,
};

fn all(ws: &Workspace) -> Vec<(String, String)> {
    ws.all_versions().into_iter().map(|(k, v)| (k.clone(), v.clone())).collect()
}

fn pair(a: &str, b: &str) -> (String, String) {
    (a.to_string(), b.to_string())
}

fn workspace(name: &str, active: bool, inherit: bool, versions: &[(&str, &str)]) -> Workspace {
    let mut map: OrderedMap<String> = OrderedMap::new();
    for (k, v) in versions {
        map.insert(k.to_string(), v.to_string());
    }
    Workspace::from(
        "w.yaml",
        WorkspaceRoot {
            wmetadata: WMetadata { name: name.to_string(), active, inherit },
            versions: map,
        },
    )
}

#[test]
fn a_new_workspace_is_active_inheriting_and_empty() {
    let ws = Workspace::new("ws.yaml", "global");
    assert_eq!(ws.file(), "ws.yaml");
    assert_eq!(ws.name(), "global");
    assert!(ws.active());
    assert!(ws.inherit());
    assert_eq!(all(&ws), Vec::new());
    assert_eq!(ws.version("python"), None);
    assert_eq!(ws.root().wmetadata.name, "global");
}

#[test]
fn from_takes_over_what_was_loaded() {
    let ws = workspace("proj", false, true, &[("python", "3.11")]);
    assert_eq!(ws.file(), "w.yaml");
    assert_eq!(ws.name(), "proj");
    assert!(!ws.active());
    assert!(ws.inherit());
    assert_eq!(all(&ws), vec![pair("python", "3.11")]);
}

#[test]
fn set_version_keeps_one_version_per_target() {
    let mut ws = Workspace::new("f", "w");
    ws.set_version("python", "3.11");
    ws.set_version("node", "18");
    ws.set_version("python", "3.12");
    assert_eq!(ws.version("python").map(|s| s.as_str()), Some("3.12"));
    assert_eq!(all(&ws), vec![pair("python", "3.12"), pair("node", "18")]);
}

#[test]
fn remove_drops_one_selection() {
    let mut ws = Workspace::new("f", "w");
    ws.set_version("a", "1");
    ws.set_version("b", "2");
    ws.set_version("c", "3");
    ws.remove("a");
    assert_eq!(ws.version("a"), None);
    assert_eq!(all(&ws), vec![pair("b", "2"), pair("c", "3")]);
    ws.remove("zz");
    assert_eq!(all(&ws).len(), 2);
}

#[test]
fn setters_change_one_setting_each() {
    let mut ws = Workspace::new("f", "w");
    ws.set_version("a", "1");
    ws.set_name("other");
    assert_eq!(ws.name(), "other");
    ws.set_active(&false);
    assert!(!ws.active());
    assert!(ws.inherit());
    ws.set_inherit(&false);
    assert!(!ws.inherit());
    assert!(!ws.active());
    ws.set_active(&true);
    assert!(ws.active());
    assert_eq!(ws.name(), "other");
    assert_eq!(all(&ws), vec![pair("a", "1")]);
    assert_eq!(ws.file(), "f");
}

#[test]
fn merge_lets_the_other_win() {
    let mut base = workspace("global", true, true, &[("python", "2.7"), ("node", "18")]);
    let over = workspace("local", true, true, &[("python", "3.11"), ("go", "1.22")]);
    base.merge(&over);
    assert_eq!(all(&base), vec![pair("python", "3.11"), pair("node", "18"), pair("go", "1.22")]);
    assert_eq!(base.name(), "global");
    assert_eq!(all(&over), vec![pair("python", "3.11"), pair("go", "1.22")]);
}

#[test]
fn match_by_filters_by_target_name() {
    let ws = workspace("w", true, true, &[("python", "3"), ("node", "18"), ("python3", "3.1")]);
    let found: Vec<(String, String)> =
        ws.match_by("python").into_iter().map(|(k, v)| (k.clone(), v.clone())).collect();
    assert_eq!(found, vec![pair("python", "3"), pair("python3", "3.1")]);
    assert_eq!(ws.match_by("zz").len(), 0);
    assert_eq!(ws.match_by("").len(), 3);
}

#[test]
fn merged_load_with_inherit_overlays_local_on_global() {
    let global = workspace("global", true, true, &[("python", "2.7"), ("node", "18")]);
    let local = workspace("proj", true, true, &[("python", "3.11")]);
    let merged = load_workspace_and_merge(global, Some(local));
    assert_eq!(all(&merged), vec![pair("python", "3.11"), pair("node", "18")]);
    assert_eq!(merged.name(), "proj + global");
}

#[test]
fn merged_load_without_inherit_ignores_global() {
    let global = workspace("global", true, true, &[("python", "2.7"), ("node", "18")]);
    let local = workspace("proj", true, false, &[("python", "3.11")]);
    let merged = load_workspace_and_merge(global, Some(local));
    assert_eq!(all(&merged), vec![pair("python", "3.11")]);
    assert_eq!(merged.name(), "proj");
}

#[test]
fn merged_load_ignores_an_inactive_or_missing_local() {
    let global = workspace("global", true, true, &[("python", "2.7")]);
    let local = workspace("proj", false, true, &[("python", "3.11")]);
    let merged = load_workspace_and_merge(global, Some(local));
    assert_eq!(all(&merged), vec![pair("python", "2.7")]);
    assert_eq!(merged.name(), "global");
    let global = workspace("global", true, true, &[("python", "2.7")]);
    let merged = load_workspace_and_merge(global, None);
    assert_eq!(all(&merged), vec![pair("python", "2.7")]);
}

#[test]
fn scoped_load_prefers_an_active_local() {
    let global = workspace("global", true, true, &[("python", "2.7")]);
    let local = workspace("proj", true, true, &[("python", "3.11")]);
    assert_eq!(load_workspace(global, Some(local)).name(), "proj");
    let global = workspace("global", true, true, &[("python", "2.7")]);
    let local = workspace("proj", false, true, &[("python", "3.11")]);
    assert_eq!(load_workspace(global, Some(local)).name(), "global");
    let global = workspace("global", true, true, &[("python", "2.7")]);
    assert_eq!(load_workspace(global, None).name(), "global");
}
