use xvmlib::handler::{
    load_program, parse_binding, parse_envs, select_version, selected_targets, xvm_add,
    xvm_current, xvm_info, xvm_list, xvm_remove, xvm_run, xvm_workspace, AddError, AddRequest,
    Cleanup, InfoOutcome, Listing, RemoveOutcome, RunError, ShimSweep,
};
use xvmlib::ordered::OrderedMap;
use xvmlib::platform::Platform;
use xvmlib::versiondb::{VData, VersionDB};
use xvmlib::workspace::Workspace;

fn record(path: &str) -> VData {
    VData { alias: None, path: path.to_string(), icon: None, envs: None, bindings: None }
}

fn pair(a: &str, b: &str) -> (String, String) {
    (a.to_string(), b.to_string())
}

fn entries(m: Option<&OrderedMap<String>>) -> Option<Vec<(String, String)>> {
    m.map(|m| (0..m.len()).map(|i| (m.key_at(i).clone(), m.value_at(i).clone())).collect())
}

fn selections(ws: &Workspace) -> Vec<(String, String)> {
    ws.all_versions().into_iter().map(|(k, v)| (k.clone(), v.clone())).collect()
}

fn request(target: &str, version: &str) -> AddRequest {
    AddRequest {
        target: target.to_string(),
        version: version.to_string(),
        path: None,
        alias: None,
        vtype: None,
        filename: None,
        binding: None,
        env_vars: Vec::new(),
    }
}

#[test]
fn bindings_and_declarations_are_parsed() {
    assert_eq!(parse_binding("gcc@13"), Some(pair("gcc", "13")));
    assert_eq!(parse_binding("gcc"), None);
    assert_eq!(parse_binding("a@b@c"), None);
    assert_eq!(parse_binding("@"), Some(pair("", "")));
    assert_eq!(
        parse_envs(&vec!["A=1".to_string(), "B=".to_string(), "C=x=y".to_string()]),
        Some(vec![pair("A", "1"), pair("B", ""), pair("C", "x")])
    );
    assert_eq!(parse_envs(&vec!["A=1".to_string(), "B".to_string()]), None);
    assert_eq!(parse_envs(&Vec::new()), Some(Vec::new()));
}

#[test]
fn add_of_a_first_version_makes_it_the_default() {
    let mut db = VersionDB::new("f");
    let mut ws = Workspace::new("w", "global");
    let mut req = request("python", "3.12");
    req.path = Some("/opt/py312".to_string());
    req.env_vars = vec!["PYTHONHOME=/opt/py312".to_string()];
    let out = xvm_add(&mut db, &mut ws, &req, Platform::Linux).unwrap();
    assert!(out.made_default);
    assert!(!out.link);
    assert_eq!(out.type_replaced, None);
    assert_eq!(out.filename_replaced, None);
    assert_eq!(out.program.name(), "python");
    assert_eq!(out.program.path(), "/opt/py312");
    assert_eq!(selections(&ws), vec![pair("python", "3.12")]);
    let rec = db.get_vdata("python", "3.12").unwrap();
    assert_eq!(rec.path, "/opt/py312");
    assert_eq!(
        entries(rec.envs.as_ref()),
        Some(vec![pair("PYTHONHOME", "/opt/py312"), pair("PATH", "/opt/py312")])
    );
    let mut req = request("python", "3.11");
    req.alias = Some("python3.11".to_string());
    let out = xvm_add(&mut db, &mut ws, &req, Platform::Linux).unwrap();
    assert!(!out.made_default);
    assert_eq!(selections(&ws), vec![pair("python", "3.12")]);
    assert_eq!(db.get_vdata("python", "3.11").unwrap().alias.as_deref(), Some("python3.11"));
    assert_eq!(db.get_all_version("python").unwrap(), vec!["3.12", "3.11"]);
}

#[test]
fn add_sets_kind_and_file_name_and_reports_changes() {
    let mut db = VersionDB::new("f");
    let mut ws = Workspace::new("w", "global");
    let mut req = request("ssl", "3.0");
    req.vtype = Some("lib".to_string());
    req.filename = Some("libssl.so".to_string());
    req.alias = Some("libssl.so.3".to_string());
    let out = xvm_add(&mut db, &mut ws, &req, Platform::Linux).unwrap();
    assert!(out.link);
    assert_eq!(db.get_type("ssl").map(|s| s.as_str()), Some("lib"));
    assert_eq!(db.get_filename("ssl").map(|s| s.as_str()), Some("libssl.so"));
    let mut req = request("ssl", "3.1");
    req.vtype = Some("direct".to_string());
    let out = xvm_add(&mut db, &mut ws, &req, Platform::Linux).unwrap();
    assert!(!out.link);
    assert_eq!(out.type_replaced, Some("lib".to_string()));
    assert_eq!(out.filename_replaced, None);
    assert_eq!(db.get_type("ssl").map(|s| s.as_str()), Some("direct"));
}

#[test]
fn add_with_a_binding_binds_both_ways() {
    let mut db = VersionDB::new("f");
    let mut ws = Workspace::new("w", "global");
    db.set_vdata("gcc", "13", record("/gcc"));
    let mut req = request("g++", "13");
    req.binding = Some("gcc@13".to_string());
    xvm_add(&mut db, &mut ws, &req, Platform::Linux).unwrap();
    assert_eq!(entries(db.get_bindings("gcc", "13")), Some(vec![pair("g++", "13")]));
    assert_eq!(entries(db.get_bindings("g++", "13")), Some(vec![pair("gcc", "13")]));
}

#[test]
fn add_rejects_bad_requests_and_changes_nothing() {
    let mut db = VersionDB::new("f");
    let mut ws = Workspace::new("w", "global");
    db.set_vdata("gcc", "13", record("/gcc"));
    let mut req = request("g++", "13");
    req.binding = Some("gcc".to_string());
    assert_eq!(xvm_add(&mut db, &mut ws, &req, Platform::Linux).err(), Some(AddError::BadBinding));
    req.binding = Some("gcc@14".to_string());
    assert_eq!(
        xvm_add(&mut db, &mut ws, &req, Platform::Linux).err(),
        Some(AddError::BindingNotFound)
    );
    req.binding = None;
    req.env_vars = vec!["NOVALUE".to_string()];
    assert_eq!(xvm_add(&mut db, &mut ws, &req, Platform::Linux).err(), Some(AddError::BadEnv));
    req.env_vars = Vec::new();
    req.vtype = Some("shim".to_string());
    assert_eq!(xvm_add(&mut db, &mut ws, &req, Platform::Linux).err(), Some(AddError::BadType));
    assert!(!db.has_target("g++"));
    assert!(selections(&ws).is_empty());
    assert_eq!(entries(db.get_bindings("gcc", "13")), None);
}

#[test]
fn remove_of_one_version_selects_the_first_left() {
    let mut db = VersionDB::new("f");
    let mut ws = Workspace::new("w", "global");
    db.set_vdata("t", "1", record("/1"));
    db.set_vdata("t", "2", record("/2"));
    db.set_vdata("t", "3", record("/3"));
    ws.set_version("t", "1");
    match xvm_remove(&mut db, &mut ws, "t", Some("1"), Platform::Linux, &Vec::new()) {
        RemoveOutcome::Removed(Cleanup::NewDefault { version, relink }) => {
            assert_eq!(version, "2");
            assert!(relink.is_none());
        }
        other => panic!("{:?}", other),
    }
    assert_eq!(selections(&ws), vec![pair("t", "2")]);
    assert!(!db.has_version("t", "1"));
    match xvm_remove(&mut db, &mut ws, "t", Some("3"), Platform::Linux, &Vec::new()) {
        RemoveOutcome::Removed(Cleanup::Nothing) => {}
        other => panic!("{:?}", other),
    }
    assert_eq!(selections(&ws), vec![pair("t", "2")]);
    match xvm_remove(&mut db, &mut ws, "t", Some("9"), Platform::Linux, &Vec::new()) {
        RemoveOutcome::NotFound => {}
        other => panic!("{:?}", other),
    }
    match xvm_remove(&mut db, &mut ws, "t", Some("2"), Platform::Linux, &Vec::new()) {
        RemoveOutcome::Removed(Cleanup::DeleteShim) => {}
        other => panic!("{:?}", other),
    }
    assert!(!db.has_target("t"));
    assert!(selections(&ws).is_empty());
}

#[test]
fn remove_of_a_library_asks_for_its_link_to_go_or_be_made_anew() {
    let mut db = VersionDB::new("f");
    let mut ws = Workspace::new("w", "global");
    let mut a = record("/ssl/1");
    a.alias = Some("libssl.so.1".to_string());
    let mut b = record("/ssl/2");
    b.alias = Some("libssl.so.2".to_string());
    db.set_vdata("ssl", "1", a);
    db.set_vdata("ssl", "2", b);
    db.set_type("ssl", "lib");
    db.set_filename("ssl", "libssl.so");
    ws.set_version("ssl", "1");
    match xvm_remove(&mut db, &mut ws, "ssl", Some("1"), Platform::Linux, &Vec::new()) {
        RemoveOutcome::Removed(Cleanup::NewDefault { version, relink }) => {
            assert_eq!(version, "2");
            let p = relink.unwrap();
            assert_eq!(p.name(), "ssl");
            assert_eq!(p.version(), "2");
            assert_eq!(p.path(), "/ssl/2");
            let plan = p.link_to("/ws/lib", true, true);
            assert_eq!(plan.real_path, "/ssl/2/libssl.so.2");
            assert_eq!(plan.link_path, "/ws/lib/libssl.so");
        }
        other => panic!("{:?}", other),
    }
    match xvm_remove(&mut db, &mut ws, "ssl", None, Platform::Linux, &Vec::new()) {
        RemoveOutcome::Removed(Cleanup::RemoveLink { file }) => assert_eq!(file, "libssl.so"),
        other => panic!("{:?}", other),
    }
    assert!(!db.has_target("ssl"));
    db.set_vdata("z", "1", record("/z"));
    db.set_type("z", "lib");
    match xvm_remove(&mut db, &mut ws, "z", None, Platform::Linux, &Vec::new()) {
        RemoveOutcome::Removed(Cleanup::RemoveLink { file }) => assert_eq!(file, "z.so"),
        other => panic!("{:?}", other),
    }
}

#[test]
fn run_uses_the_version_asked_for_or_selected() {
    let mut db = VersionDB::new("f");
    let mut ws = Workspace::new("w", "global");
    db.set_vdata("t", "1", record("/t1"));
    db.set_vdata("t", "2", record("/t2"));
    ws.set_version("t", "2");
    ws.set_version("gone", "1");
    let args = vec!["--help".to_string()];
    let p = xvm_run(&db, &ws, "t", None, &args, Platform::Linux, &Vec::new()).unwrap();
    assert_eq!(p.version(), "2");
    assert_eq!(p.path(), "/t2");
    let p = xvm_run(&db, &ws, "t", Some("1"), &args, Platform::Linux, &Vec::new()).unwrap();
    assert_eq!(p.version(), "1");
    assert_eq!(
        xvm_run(&db, &ws, "other", None, &args, Platform::Linux, &Vec::new()).err(),
        Some(RunError::NotSelected)
    );
    assert_eq!(
        xvm_run(&db, &ws, "t", Some("9"), &args, Platform::Linux, &Vec::new()).err(),
        Some(RunError::VersionMissing)
    );
    assert_eq!(
        xvm_run(&db, &ws, "gone", None, &args, Platform::Linux, &Vec::new()).err(),
        Some(RunError::VersionMissing)
    );
}

#[test]
fn info_finds_the_match_for_the_version() {
    let mut db = VersionDB::new("f");
    let mut ws = Workspace::new("w", "global");
    db.set_vdata("t", "1.2.0", record("/a"));
    db.set_vdata("t", "1.2.9", record("/b"));
    db.set_type("t", "direct");
    match xvm_info(&db, &ws, "t", Some("1.2"), Platform::Linux, &Vec::new()) {
        InfoOutcome::Found(p) => {
            assert_eq!(p.version(), "1.2.9");
            assert_eq!(p.path(), "/b");
        }
        other => panic!("{:?}", other),
    }
    assert!(matches!(xvm_info(&db, &ws, "t", None, Platform::Linux, &Vec::new()), InfoOutcome::NoVersion));
    assert!(matches!(
        xvm_info(&db, &ws, "t", Some("2"), Platform::Linux, &Vec::new()),
        InfoOutcome::VersionMissing
    ));
    assert!(matches!(
        xvm_info(&db, &ws, "u", Some("1"), Platform::Linux, &Vec::new()),
        InfoOutcome::TargetMissing
    ));
    ws.set_version("t", "1.2.0");
    match xvm_info(&db, &ws, "t", None, Platform::Linux, &Vec::new()) {
        InfoOutcome::Found(p) => assert_eq!(p.version(), "1.2.0"),
        other => panic!("{:?}", other),
    }
    assert_eq!(load_program(&db, "t", "1.2.0", true, Platform::Linux, &Vec::new()).unwrap().path(), "/a");
    assert!(load_program(&db, "t", "9", true, Platform::Linux, &Vec::new()).is_none());
    assert_eq!(select_version(&db, "t", "1.2.0"), Some("1.2.0".to_string()));
    assert_eq!(select_version(&db, "t", "1"), Some("1.2.9".to_string()));
    assert_eq!(select_version(&db, "t", "3"), None);
}

#[test]
fn current_lists_matching_selections_with_their_state() {
    let mut db = VersionDB::new("f");
    let mut ws = Workspace::new("w", "global");
    let mut rec = record("/p");
    rec.alias = Some("python3".to_string());
    db.set_vdata("python", "3.12", rec);
    db.set_vdata("node", "18", record("/n"));
    ws.set_version("python", "3.12");
    ws.set_version("node", "18");
    ws.set_version("python2", "2.7");
    let (rows, installed) = xvm_current(&db, &ws, "python");
    assert_eq!(installed, 1);
    assert_eq!(rows.len(), 2);
    assert_eq!(rows[0].name, "python");
    assert_eq!(rows[0].version, "3.12");
    assert!(rows[0].installed);
    assert_eq!(rows[0].alias.as_deref(), Some("python3"));
    assert_eq!(rows[1].name, "python2");
    assert!(!rows[1].installed);
    assert_eq!(rows[1].alias, None);
    let (rows, installed) = xvm_current(&db, &ws, "zz");
    assert!(rows.is_empty());
    assert_eq!(installed, 0);
}

#[test]
fn list_shows_versions_of_a_target_or_matching_targets() {
    let mut db = VersionDB::new("f");
    db.set_vdata("python", "3.12", record("/a"));
    db.set_vdata("python", "3.11", record("/b"));
    db.set_vdata("python3", "3.10", record("/c"));
    match xvm_list(&db, "python") {
        Listing::Versions(v) => assert_eq!(v, vec!["3.12", "3.11"]),
        other => panic!("{:?}", other),
    }
    match xvm_list(&db, "pyth") {
        Listing::Matches(m) => assert_eq!(
            m,
            vec![
                ("python".to_string(), vec!["3.12".to_string(), "3.11".to_string()]),
                ("python3".to_string(), vec!["3.10".to_string()]),
            ]
        ),
        other => panic!("{:?}", other),
    }
}

#[test]
fn workspace_settings_are_applied_and_shims_swept_for_global() {
    let mut ws = Workspace::new("w", "global");
    ws.set_version("a", "1");
    ws.set_version("b", "2");
    assert_eq!(selected_targets(&ws), vec!["a", "b"]);
    let (save, sweep) = xvm_workspace(&mut ws, None, None, None);
    assert!(!save);
    assert!(matches!(sweep, ShimSweep::Nothing));
    let (save, sweep) = xvm_workspace(&mut ws, None, Some(false), None);
    assert!(save);
    assert!(!ws.active());
    match sweep {
        ShimSweep::Remove(t) => assert_eq!(t, vec!["a", "b"]),
        other => panic!("{:?}", other),
    }
    let (_, sweep) = xvm_workspace(&mut ws, None, Some(true), Some(false));
    assert!(ws.active());
    assert!(!ws.inherit());
    match sweep {
        ShimSweep::Restore(t) => assert_eq!(t, vec!["a", "b"]),
        other => panic!("{:?}", other),
    }
    let (save, sweep) = xvm_workspace(&mut ws, Some("proj"), Some(false), None);
    assert!(save);
    assert_eq!(ws.name(), "proj");
    assert!(matches!(sweep, ShimSweep::Nothing));
}

#[test]
fn run_replaces_placeholders_from_the_given_names() {
    let mut db = VersionDB::new("f");
    let mut ws = Workspace::new("w", "global");
    let mut envs: OrderedMap<String> = OrderedMap::new();
    envs.insert("T_HOME".to_string(), "${HOME_DIR}/t".to_string());
    let mut rec = record("${DATA}/t/1");
    rec.envs = Some(envs);
    db.set_vdata("t", "1", rec);
    ws.set_version("t", "1");
    let vars = vec![pair("DATA", "/data"), pair("HOME_DIR", "/home/x")];
    let p = xvm_run(&db, &ws, "t", None, &Vec::new(), Platform::Linux, &vars).unwrap();
    assert_eq!(p.path(), "/data/t/1");
    assert_eq!(p.envs(), &vec![pair("T_HOME", "/home/x/t")]);
    let p = xvm_run(&db, &ws, "t", None, &Vec::new(), Platform::Linux, &Vec::new()).unwrap();
    assert_eq!(p.path(), "${DATA}/t/1");
    assert_eq!(db.get_vdata("t", "1").unwrap().path, "${DATA}/t/1");
}
