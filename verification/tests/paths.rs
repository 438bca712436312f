use xvmlib::baseinfo::{
    bindir, libdir, placeholder_vars, shimdir, versiondb_file, workspace_file, workspacedir,
    WORKSPACE_FILE,
};
use xvmlib::desktop::{
    desktop_entry, shortcut_path_format, shortcut_root_dir, shortcut_userdir, ShortcutOptions,
};
use xvmlib::helper::{
    runtime_check_and_tips, shim_arguments, shim_dispatch, CommandState, Reserved,
};
use xvmlib::platform::{xvm_datadir, xvm_homedir, Platform};

#[test]
fn base_directories_follow_the_platform() {
    assert_eq!(xvm_homedir(Platform::Linux), "/home/xlings/.xlings_data");
    assert_eq!(xvm_homedir(Platform::MacOs), "/Users/xlings/.xlings_data");
    assert_eq!(xvm_homedir(Platform::Windows), "C:\\Users\\Public\\xlings\\.xlings_data");
    assert_eq!(xvm_datadir(Platform::Linux), "/home/xlings/.xlings_data/xvm");
    assert_eq!(xvm_datadir(Platform::MacOs), "/Users/xlings/.xlings_data/xvm");
    assert_eq!(xvm_datadir(Platform::Windows), "C:/Users/Public/xlings/.xlings_data/xvm");
}

#[test]
fn files_and_directories_are_under_the_base_directories() {
    assert_eq!(versiondb_file(Platform::Linux), "/home/xlings/.xlings_data/xvm/versions.xvm.yaml");
    assert_eq!(
        workspace_file(Platform::Linux),
        "/home/xlings/.xlings_data/xvm/.workspace.xvm.yaml"
    );
    assert_eq!(WORKSPACE_FILE, ".workspace.xvm.yaml");
    assert_eq!(bindir(Platform::Linux), "/home/xlings/.xlings_data/bin");
    assert_eq!(libdir(Platform::MacOs), "/Users/xlings/.xlings_data/lib");
    assert_eq!(bindir(Platform::Windows), "C:\\Users\\Public\\xlings\\.xlings_data\\bin");
    assert_eq!(workspacedir(Platform::Linux), "/home/xlings/.xlings_data");
    assert_eq!(shimdir(Platform::Windows), "C:/Users/Public/xlings/.xlings_data/xvm/shims");
}

#[test]
fn platform_gives_separators_and_variable_names() {
    assert_eq!(Platform::Linux.separator(), ":");
    assert_eq!(Platform::MacOs.separator(), ":");
    assert_eq!(Platform::Windows.separator(), ";");
    assert_eq!(Platform::Linux.lib_path_var(), Some("LD_LIBRARY_PATH"));
    assert_eq!(Platform::MacOs.lib_path_var(), Some("DYLD_LIBRARY_PATH"));
    assert_eq!(Platform::Windows.lib_path_var(), None);
    assert_eq!(Platform::Linux.path_joint(), "/");
    assert_eq!(Platform::Windows.path_joint(), "\\");
    assert!(Platform::Linux.has_loader_fallback());
    assert!(!Platform::MacOs.has_loader_fallback());
    assert!(!Platform::Windows.has_loader_fallback());
}

#[test]
fn shortcut_files_are_named_after_the_shortcut() {
    assert_eq!(shortcut_path_format("/d", "code", Platform::Linux), "/d/code.xvm.desktop");
    assert_eq!(shortcut_path_format("C:\\d", "code", Platform::Windows), "C:\\d\\code.xvm.lnk");
    assert_eq!(
        shortcut_userdir(Platform::Linux, Some("/home/u")),
        "/home/u/.local/share/applications"
    );
    assert_eq!(shortcut_userdir(Platform::MacOs, None), "/root/.local/share/applications");
    assert_eq!(shortcut_userdir(Platform::Windows, Some("x")), "C:\\Users\\Public\\Desktop");
    assert_eq!(shortcut_root_dir(Platform::Linux), "/usr/share/applications");
    assert_eq!(
        shortcut_root_dir(Platform::Windows),
        "C:\\ProgramData\\Microsoft\\Windows\\Start Menu\\Programs"
    );
}

#[test]
fn desktop_entry_lists_the_fields() {
    let options = ShortcutOptions {
        name: "Code".to_string(),
        exec_path: "/bin/code".to_string(),
        description: None,
        icon_path: Some("/i.png".to_string()),
        working_dir: None,
        terminal: false,
    };
    assert_eq!(
        desktop_entry(&options),
        "[Desktop Entry]\nVersion=1.0\nName=Code\nExec=/bin/code\nIcon=/i.png\nType=Application\nTerminal=false\n"
    );
    let options = ShortcutOptions { icon_path: None, terminal: true, ..options };
    assert_eq!(
        desktop_entry(&options),
        "[Desktop Entry]\nVersion=1.0\nName=Code\nExec=/bin/code\nIcon=\nType=Application\nTerminal=true\n"
    );
}

#[test]
fn runtime_check_looks_for_the_bin_directory_on_the_search_path() {
    assert_eq!(runtime_check_and_tips("/x/bin:/usr/bin", "/x/bin", Platform::Linux), (true, false));
    assert_eq!(runtime_check_and_tips("/usr/bin:/x/bin", "/x/bin", Platform::Linux), (true, true));
    assert_eq!(runtime_check_and_tips("::/x/bin:/usr/bin", "/x/bin", Platform::Linux), (true, false));
    assert_eq!(runtime_check_and_tips("/usr/bin", "/x/bin", Platform::Linux), (false, true));
    assert_eq!(runtime_check_and_tips("", "/x/bin", Platform::Linux), (false, true));
    assert_eq!(runtime_check_and_tips("C:/a;C:/b", "C:/b", Platform::Windows), (true, true));
    assert_eq!(runtime_check_and_tips("C:/a;C:/b", "C:/a", Platform::Windows), (true, false));
    assert_eq!(runtime_check_and_tips("/a;/b", "/b", Platform::Linux), (false, true));
}

#[test]
fn removal_of_all_versions_is_confirmed_unless_yes() {
    assert!(CommandState { yes: false }.must_confirm_removal(false));
    assert!(!CommandState { yes: true }.must_confirm_removal(false));
    assert!(!CommandState { yes: false }.must_confirm_removal(true));
    assert!(!CommandState { yes: true }.must_confirm_removal(true));
}

#[test]
fn a_shim_forwards_all_arguments() {
    assert_eq!(
        shim_arguments("python", &vec!["-c".to_string(), "print(1)".to_string()]),
        vec!["run", "python", "--args", "-c", "print(1)"]
    );
    assert_eq!(shim_arguments("node", &Vec::new()), vec!["run", "node", "--args"]);
}

#[test]
fn a_reserved_name_stands_for_a_subcommand_of_the_front_end() {
    let table = vec![
        Reserved {
            name: "xi".to_string(),
            front_end: "front".to_string(),
            subcommand: "install".to_string(),
        },
        Reserved {
            name: "xr".to_string(),
            front_end: "front".to_string(),
            subcommand: "run".to_string(),
        },
        Reserved {
            name: "xi".to_string(),
            front_end: "late".to_string(),
            subcommand: "never".to_string(),
        },
    ];
    let args = vec!["gcc".to_string(), "-y".to_string()];
    assert_eq!(
        shim_dispatch("xi", &args, &table),
        ("front".to_string(), vec!["install".to_string(), "gcc".to_string(), "-y".to_string()])
    );
    assert_eq!(shim_dispatch("xr", &Vec::new(), &table), ("front".to_string(), vec!["run".to_string()]));
    assert_eq!(
        shim_dispatch("gcc", &args, &table),
        (
            "xvm".to_string(),
            vec![
                "run".to_string(),
                "gcc".to_string(),
                "--args".to_string(),
                "gcc".to_string(),
                "-y".to_string()
            ]
        )
    );
    assert_eq!(
        shim_dispatch("gcc", &Vec::new(), &Vec::new()),
        ("xvm".to_string(), vec!["run".to_string(), "gcc".to_string(), "--args".to_string()])
    );
}

#[test]
fn placeholders_stand_for_the_base_directories() {
    let vars = placeholder_vars(Platform::Linux);
    assert_eq!(
        vars,
        vec![
            ("XVM_HOME".to_string(), "/home/xlings/.xlings_data".to_string()),
            ("XVM_DATA".to_string(), "/home/xlings/.xlings_data/xvm".to_string()),
            ("XVM_BINDIR".to_string(), "/home/xlings/.xlings_data/bin".to_string()),
            ("XVM_LIBDIR".to_string(), "/home/xlings/.xlings_data/lib".to_string()),
        ]
    );
}
