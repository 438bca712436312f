use xvmlib::ordered::OrderedMap;
use xvmlib::platform::Platform;
use xvmlib::shims::{
    after_spawn_failure, build_extended_envs, exit_code, init, link_action,
    loader_candidates, parent_dir,
    pick_executable, probe_candidates, resolve_path, shim_file, shim_script_content,
    shim_script_file, try_create, Launch, LinkAction, Program, Recovery, ShimAction, ShimDirs,
    SpawnFailure, XVM_ALIAS_WRAPPER,
};
use xvmlib::versiondb::VData;

fn pair(a: &str, b: &str) -> (String, String) {
    (a.to_string(), b.to_string())
}

fn entries(m: &Option<OrderedMap<String>>) -> Option<Vec<(String, String)>> {
    m.as_ref().map(|m| (0..m.len()).map(|i| (m.key_at(i).clone(), m.value_at(i).clone())).collect())
}

fn dirs(platform: Platform) -> ShimDirs {
    init("/ws", platform)
}

#[test]
fn init_names_the_directories() {
    let d = init("/home/x/.data", Platform::Linux);
    assert_eq!(d.workspace_dir, "/home/x/.data");
    assert_eq!(d.bindir, "/home/x/.data/bin");
    assert_eq!(d.libdir, "/home/x/.data/lib");
    assert_eq!(d.shim_bin, "/home/x/.data/bin/xvm-shim");
    assert_eq!(d.platform, Platform::Linux);
    let w = init("C:/d", Platform::Windows);
    assert_eq!(w.shim_bin, "C:/d/bin/xvm-shim.exe");
}

#[test]
fn shim_files_are_named_after_the_target() {
    assert_eq!(shim_file("python", "/bin", Platform::Linux), "/bin/python");
    assert_eq!(shim_file("python", "/bin", Platform::MacOs), "/bin/python");
    assert_eq!(shim_file("python", "C:/bin", Platform::Windows), "C:/bin/python.exe");
    assert_eq!(
        shim_script_file("xvm-alias", "/bin", Platform::Linux),
        ("/bin/xvm-alias".to_string(), "\"$@\"", "#!/bin/sh")
    );
    assert_eq!(
        shim_script_file("xvm-alias", "C:/bin", Platform::Windows),
        ("C:/bin/xvm-alias.bat".to_string(), "%*", "@echo off")
    );
    assert_eq!(shim_script_content("", Platform::Linux), "#!/bin/sh\n \"$@\"");
    assert_eq!(shim_script_content("run", Platform::Windows), "@echo off\nrun %*");
    assert_eq!(XVM_ALIAS_WRAPPER, "xvm-alias");
}

#[test]
fn try_create_is_a_no_op_once_the_shim_is_there() {
    assert_eq!(try_create(false, false), ShimAction::CreateWithDir);
    assert_eq!(try_create(false, true), ShimAction::Create);
    assert_eq!(try_create(true, true), ShimAction::Keep);
    assert_eq!(try_create(true, false), ShimAction::Keep);
}

#[test]
fn link_to_keeps_or_replaces_an_existing_link() {
    assert_eq!(link_action(true, false), LinkAction::Keep);
    assert_eq!(link_action(true, true), LinkAction::Replace);
    assert_eq!(link_action(false, false), LinkAction::Create);
    assert_eq!(link_action(false, true), LinkAction::Create);
    let mut p = Program::new("ssl", "3.0", Platform::Linux);
    p.set_path("/opt/ssl/3.0/lib");
    p.set_alias("libssl.so.3");
    assert!(p.has_alias());
    let plan = p.link_to("/ws/lib", true, true);
    assert_eq!(plan.real_path, "/opt/ssl/3.0/lib/libssl.so.3");
    assert_eq!(plan.link_path, "/ws/lib/libssl.so.3");
    assert_eq!(plan.action, LinkAction::Replace);
    p.set_filename("libssl.so");
    let plan = p.link_to("/ws/lib", false, true);
    assert_eq!(plan.link_path, "/ws/lib/libssl.so");
    assert_eq!(plan.real_path, "/opt/ssl/3.0/lib/libssl.so.3");
    assert_eq!(plan.action, LinkAction::Keep);
    assert!(!Program::new("a", "1", Platform::Linux).has_alias());
}

#[test]
fn a_new_program_has_nothing_declared() {
    let p = Program::new("python", "3.12", Platform::Linux);
    assert_eq!(p.name(), "python");
    assert_eq!(p.version(), "3.12");
    assert_eq!(p.path(), "");
    assert_eq!(p.platform(), Platform::Linux);
    let rec = p.vdata();
    assert_eq!(rec.path, "");
    assert_eq!(rec.alias, None);
    assert_eq!(rec.icon, None);
    assert_eq!(entries(&rec.envs), None);
    assert_eq!(entries(&rec.bindings), None);
}

#[test]
fn add_env_sorts_variables_into_search_paths_and_others() {
    let mut p = Program::new("t", "1", Platform::Linux);
    p.add_env("PATH", "/a");
    p.add_env("PATH", "/b");
    p.add_env("FOO", "1");
    p.add_env("LD_LIBRARY_PATH", "/l1");
    p.add_env("DYLD_LIBRARY_PATH", "/l2");
    p.add_env("BAR", "2");
    let rec = p.vdata();
    assert_eq!(
        entries(&rec.envs),
        Some(vec![
            pair("FOO", "1"),
            pair("BAR", "2"),
            pair("PATH", "/a:/b"),
            pair("LD_LIBRARY_PATH", "/l1:/l2"),
        ])
    );
    let mut w = Program::new("t", "1", Platform::Windows);
    w.add_envs(&[("PATH", "C:/a"), ("PATH", "C:/b"), ("LD_LIBRARY_PATH", "x")]);
    assert_eq!(
        entries(&w.vdata().envs),
        Some(vec![pair("PATH", "C:/a;C:/b"), pair("DYLD_LIBRARY_PATH", "x")])
    );
}

#[test]
fn vdata_collects_repeated_names_in_their_first_place() {
    let mut p = Program::new("t", "1", Platform::MacOs);
    p.add_env("A", "1");
    p.add_env("B", "2");
    p.add_env("A", "3");
    p.add_binding("x", "1");
    p.add_binding("y", "2");
    p.add_binding("x", "5");
    p.set_alias("run me");
    let rec = p.vdata();
    assert_eq!(entries(&rec.envs), Some(vec![pair("A", "3"), pair("B", "2")]));
    assert_eq!(entries(&rec.bindings), Some(vec![pair("x", "5"), pair("y", "2")]));
    assert_eq!(rec.alias.as_deref(), Some("run me"));
}

#[test]
fn set_path_also_extends_the_search_path() {
    let mut p = Program::new("t", "1", Platform::Linux);
    p.set_path("/opt/t");
    assert_eq!(p.path(), "/opt/t");
    let rec = p.vdata();
    assert_eq!(rec.path, "/opt/t");
    assert_eq!(entries(&rec.envs), Some(vec![pair("PATH", "/opt/t")]));
}

#[test]
fn set_vdata_takes_over_a_record() {
    let mut envs: OrderedMap<String> = OrderedMap::new();
    envs.insert("HOME_T".to_string(), "/h".to_string());
    envs.insert("PATH".to_string(), "/extra".to_string());
    let mut bindings: OrderedMap<String> = OrderedMap::new();
    bindings.insert("dep".to_string(), "2".to_string());
    let rec = VData {
        alias: Some("tool --fast".to_string()),
        path: "/opt/t".to_string(),
        icon: None,
        envs: Some(envs),
        bindings: Some(bindings),
    };
    let mut p = Program::new("t", "1", Platform::Linux);
    p.add_arg("left");
    p.set_vdata(&rec);
    assert_eq!(p.path(), "/opt/t");
    assert!(p.has_alias());
    let back = p.vdata();
    assert_eq!(back.alias.as_deref(), Some("tool --fast"));
    assert_eq!(entries(&back.envs), Some(vec![pair("HOME_T", "/h"), pair("PATH", "/opt/t:/extra")]));
    assert_eq!(entries(&back.bindings), Some(vec![pair("dep", "2")]));
}

#[test]
fn launch_prefers_the_alias_then_the_path_then_the_name() {
    let mut p = Program::new("py", "3", Platform::Linux);
    match p.launch("/root-dir") {
        Launch::Bare { program } => assert_eq!(program, "py"),
        other => panic!("{:?}", other),
    }
    p.set_path("rel/dir");
    match p.launch("/root-dir") {
        Launch::Probe { dir } => assert_eq!(dir, "/root-dir/rel/dir"),
        other => panic!("{:?}", other),
    }
    p.set_path("/abs/dir");
    match p.launch("/root-dir") {
        Launch::Probe { dir } => assert_eq!(dir, "/abs/dir"),
        other => panic!("{:?}", other),
    }
    p.set_alias("python3  -m venv");
    match p.launch("/root-dir") {
        Launch::Alias { program, prefix } => {
            assert_eq!(program, "xvm-alias");
            assert_eq!(prefix, vec!["python3", "-m", "venv"]);
        }
        other => panic!("{:?}", other),
    }
    let mut w = Program::new("py", "3", Platform::Windows);
    w.set_alias("x");
    match w.launch("C:/r") {
        Launch::Alias { program, prefix } => {
            assert_eq!(program, "xvm-alias.bat");
            assert_eq!(prefix, vec!["x"]);
        }
        other => panic!("{:?}", other),
    }
}

#[test]
fn resolve_path_keeps_absolute_paths() {
    assert_eq!(resolve_path("/a/b", "/r", Platform::Linux), "/a/b");
    assert_eq!(resolve_path("a/b", "/r", Platform::Linux), "/r/a/b");
    assert_eq!(resolve_path("C:\\a", "/r", Platform::Linux), "/r/C:\\a");
    assert_eq!(resolve_path("C:\\a", "D:/r", Platform::Windows), "C:\\a");
    assert_eq!(resolve_path("\\a", "D:/r", Platform::Windows), "\\a");
    assert_eq!(resolve_path("a", "D:/r", Platform::Windows), "D:/r/a");
    assert_eq!(resolve_path("", "/r", Platform::MacOs), "/r/");
}

#[test]
fn candidates_are_probed_in_order() {
    assert_eq!(
        probe_candidates("/opt/t", "tool", Platform::Linux),
        vec!["/opt/t/tool", "/opt/t/bin/tool"]
    );
    assert_eq!(
        probe_candidates("C:/t", "tool", Platform::Windows),
        vec![
            "C:/t/tool",
            "C:/t/tool.exe",
            "C:/t/tool.bat",
            "C:/t/bin/tool",
            "C:/t/bin/tool.exe",
            "C:/t/bin/tool.bat"
        ]
    );
    let looked = vec![("/opt/t/tool".to_string(), false), ("/opt/t/bin/tool".to_string(), true)];
    assert_eq!(pick_executable(&looked), Ok("/opt/t/bin/tool".to_string()));
    let looked = vec![("/opt/t/tool".to_string(), true), ("/opt/t/bin/tool".to_string(), true)];
    assert_eq!(pick_executable(&looked), Ok("/opt/t/tool".to_string()));
    let looked = vec![("/opt/t/tool".to_string(), false), ("/opt/t/bin/tool".to_string(), false)];
    assert_eq!(
        pick_executable(&looked),
        Err(vec!["/opt/t/tool".to_string(), "/opt/t/bin/tool".to_string()])
    );
    assert_eq!(pick_executable(&Vec::new()), Err(Vec::new()));
}

#[test]
fn parent_dir_is_what_stands_before_the_last_joint() {
    assert_eq!(parent_dir("/opt/t/bin/tool", Platform::Linux), Some("/opt/t/bin".to_string()));
    assert_eq!(parent_dir("/tool", Platform::Linux), Some("".to_string()));
    assert_eq!(parent_dir("tool", Platform::Linux), None);
    assert_eq!(parent_dir("C:\\t\\tool.exe", Platform::Windows), Some("C:\\t".to_string()));
    assert_eq!(parent_dir("C:\\t\\tool.exe", Platform::Linux), None);
    assert_eq!(parent_dir("a/b\\c", Platform::Windows), Some("a/b".to_string()));
}

#[test]
fn declared_path_goes_before_bin_dir_and_inherited_path() {
    let mut p = Program::new("foo", "1", Platform::Linux);
    p.add_env("PATH", "/opt/foo/bin");
    let env = vec![pair("HOME", "/h"), pair("PATH", "/usr/bin")];
    let d = dirs(Platform::Linux);
    assert_eq!(p.get_path_env(&d, None, &env), pair("PATH", "/opt/foo/bin:/ws/bin:/usr/bin"));
}

#[test]
fn path_env_inserts_the_binary_directory_and_the_windows_lib_dir() {
    let mut p = Program::new("foo", "1", Platform::Linux);
    p.set_path("/opt/foo");
    let env = vec![pair("PATH", "/usr/bin")];
    let d = dirs(Platform::Linux);
    assert_eq!(
        p.get_path_env(&d, Some("/opt/foo/bin"), &env),
        pair("PATH", "/opt/foo:/opt/foo/bin:/ws/bin:/usr/bin")
    );
    assert_eq!(
        p.get_path_env(&d, Some("/opt/foo"), &env),
        pair("PATH", "/opt/foo:/ws/bin:/usr/bin")
    );
    assert_eq!(p.get_path_env(&d, None, &Vec::new()), pair("PATH", "/opt/foo:/ws/bin"));
    let empty = Program::new("foo", "1", Platform::Linux);
    assert_eq!(empty.get_path_env(&d, None, &env), pair("PATH", "/ws/bin:/usr/bin"));
    let mut w = Program::new("foo", "1", Platform::Windows);
    w.set_path("C:/foo");
    let wd = dirs(Platform::Windows);
    assert_eq!(
        w.get_path_env(&wd, None, &vec![pair("PATH", "C:/sys")]),
        pair("PATH", "C:/foo;/ws/bin;/ws/lib;C:/sys")
    );
}

#[test]
fn library_path_is_composed_for_the_system() {
    let mut p = Program::new("foo", "1", Platform::Linux);
    let d = dirs(Platform::Linux);
    let env = vec![pair("LD_LIBRARY_PATH", "/usr/lib"), pair("DYLD_LIBRARY_PATH", "/mac")];
    assert_eq!(p.get_ld_library_path_env(&d, &env), pair("LD_LIBRARY_PATH", "/ws/lib:/usr/lib"));
    p.add_env("LD_LIBRARY_PATH", "/opt/foo/lib");
    assert_eq!(
        p.get_ld_library_path_env(&d, &env),
        pair("LD_LIBRARY_PATH", "/opt/foo/lib:/ws/lib:/usr/lib")
    );
    assert_eq!(
        p.get_ld_library_path_env(&d, &Vec::new()),
        pair("LD_LIBRARY_PATH", "/opt/foo/lib:/ws/lib")
    );
    let mut m = Program::new("foo", "1", Platform::MacOs);
    m.add_env("DYLD_LIBRARY_PATH", "/m");
    assert_eq!(
        m.get_ld_library_path_env(&dirs(Platform::MacOs), &env),
        pair("DYLD_LIBRARY_PATH", "/m:/ws/lib:/mac")
    );
    let w = Program::new("foo", "1", Platform::Windows);
    assert_eq!(w.get_ld_library_path_env(&dirs(Platform::Windows), &env), pair("XVM_ENV_NULL", ""));
}

#[test]
fn declared_variables_are_prepended_to_inherited_values() {
    let envs = vec![pair("A", "1"), pair("B", "2")];
    let env = vec![pair("B", "old"), pair("C", "x")];
    assert_eq!(
        build_extended_envs(envs.clone(), &env, Platform::Linux),
        vec![pair("A", "1"), pair("B", "2:old")]
    );
    assert_eq!(
        build_extended_envs(envs, &env, Platform::Windows),
        vec![pair("A", "1"), pair("B", "2;old")]
    );
    assert_eq!(build_extended_envs(Vec::new(), &env, Platform::Linux), Vec::new());
}

#[test]
fn the_loader_is_tried_once_on_linux_for_a_missing_file() {
    assert_eq!(
        after_spawn_failure(Platform::Linux, true, SpawnFailure::NotFound),
        Recovery::TryLoader
    );
    assert_eq!(
        after_spawn_failure(Platform::Linux, false, SpawnFailure::NotFound),
        Recovery::GiveUp
    );
    assert_eq!(after_spawn_failure(Platform::Linux, true, SpawnFailure::Other), Recovery::GiveUp);
    assert_eq!(
        after_spawn_failure(Platform::MacOs, true, SpawnFailure::NotFound),
        Recovery::GiveUp
    );
    assert_eq!(
        after_spawn_failure(Platform::Windows, true, SpawnFailure::NotFound),
        Recovery::GiveUp
    );
    assert_eq!(
        loader_candidates(),
        vec![
            "/lib64/ld-linux-x86-64.so.2",
            "/lib/ld-linux-x86-64.so.2",
            "/lib/ld-linux-aarch64.so.1",
            "/lib/ld-musl-x86_64.so.1",
            "/lib/ld-musl-aarch64.so.1"
        ]
    );
    assert_eq!(exit_code(Some(0)), 0);
    assert_eq!(exit_code(Some(3)), 3);
    assert_eq!(exit_code(None), 1);
}

#[test]
fn add_args_appends_in_order() {
    let mut p = Program::new("t", "1", Platform::Linux);
    p.add_arg("a");
    p.add_args(&vec!["b".to_string(), "c".to_string()]);
    p.set_type("direct");
    assert_eq!(p.name(), "t");
    assert_eq!(p.version(), "1");
}

#[test]
fn hydrate_replaces_placeholders_in_path_and_values() {
    let mut envs: OrderedMap<String> = OrderedMap::new();
    envs.insert("A".to_string(), "${X}/a".to_string());
    envs.insert("${X}".to_string(), "b".to_string());
    let mut bindings: OrderedMap<String> = OrderedMap::new();
    bindings.insert("dep".to_string(), "${X}".to_string());
    let rec = VData {
        alias: Some("${X} run".to_string()),
        path: "${X}/p".to_string(),
        icon: None,
        envs: Some(envs),
        bindings: Some(bindings),
    };
    let vars = vec![pair("X", "/x")];
    let mut p = Program::new("t", "1", Platform::Linux);
    p.hydrate(&rec, &vars);
    assert_eq!(p.path(), "/x/p");
    assert_eq!(p.envs(), &vec![pair("A", "/x/a"), pair("${X}", "b")]);
    let back = p.vdata();
    assert_eq!(back.alias.as_deref(), Some("${X} run"));
    assert_eq!(entries(&back.bindings), Some(vec![pair("dep", "${X}")]));
    assert_eq!(p.args(), &Vec::<String>::new());
}
