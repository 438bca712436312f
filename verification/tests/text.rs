use xvmlib::text::{
    chars_eq, chars_of, contains, expand_placeholders, is_space_char, join3, join_nonempty,
    lookup_env, split_whitespace, str_eq,
};

#[test]
fn chars_of_gives_the_characters() {
    assert_eq!(chars_of("aé1"), vec!['a', 'é', '1']);
    assert_eq!(chars_of(""), Vec::<char>::new());
}

#[test]
fn equality_is_by_characters() {
    assert!(str_eq("abc", "abc"));
    assert!(!str_eq("abc", "abd"));
    assert!(!str_eq("abc", "ab"));
    assert!(str_eq("", ""));
    assert!(chars_eq(&vec!['a'], &vec!['a']));
    assert!(!chars_eq(&vec!['a'], &vec!['b']));
}

#[test]
fn contains_finds_a_text_anywhere() {
    assert!(contains("python", "yth"));
    assert!(contains("python", "python"));
    assert!(contains("python", ""));
    assert!(contains("", ""));
    assert!(contains("python", "on"));
    assert!(!contains("python", "java"));
    assert!(!contains("py", "python"));
    assert!(!contains("python", "pyn"));
}

#[test]
fn join3_concatenates() {
    assert_eq!(join3("a", "/", "b"), "a/b");
    assert_eq!(join3("", "", ""), "");
}

#[test]
fn white_space_is_what_std_says() {
    for c in ['\t', '\n', '\u{b}', '\u{c}', '\r', ' ', '\u{85}', '\u{a0}', '\u{1680}', '\u{2000}',
        '\u{200a}', '\u{2028}', '\u{2029}', '\u{202f}', '\u{205f}', '\u{3000}']
    {
        assert!(is_space_char(c));
        assert!(c.is_whitespace());
    }
    for c in ['a', '0', '\u{8}', '\u{e}', '\u{200b}', '\u{2001}', '\u{feff}', '-'] {
        assert_eq!(is_space_char(c), c.is_whitespace());
    }
}

#[test]
fn white_space_agrees_with_std_on_every_character() {
    let mut n: u32 = 0;
    while n <= 0x10ffff {
        if let Some(c) = char::from_u32(n) {
            assert_eq!(is_space_char(c), c.is_whitespace());
        }
        n += 1;
    }
}

#[test]
fn words_are_runs_without_white_space() {
    assert_eq!(split_whitespace("python3 -m  venv"), vec!["python3", "-m", "venv"]);
    assert_eq!(split_whitespace("  a\tb\n"), vec!["a", "b"]);
    assert_eq!(split_whitespace(""), Vec::<String>::new());
    assert_eq!(split_whitespace("   "), Vec::<String>::new());
    assert_eq!(split_whitespace("one"), vec!["one"]);
}

#[test]
fn join_nonempty_skips_empty_entries() {
    let parts = vec!["".to_string(), "a".to_string(), "".to_string(), "b".to_string()];
    assert_eq!(join_nonempty(&parts, ":"), "a:b");
    assert_eq!(join_nonempty(&Vec::new(), ":"), "");
    assert_eq!(join_nonempty(&vec!["x".to_string()], ";"), "x");
}

#[test]
fn lookup_env_takes_the_first_entry_of_a_name() {
    let env = vec![
        ("A".to_string(), "1".to_string()),
        ("B".to_string(), "2".to_string()),
        ("A".to_string(), "3".to_string()),
    ];
    assert_eq!(lookup_env(&env, "A").map(|s| s.as_str()), Some("1"));
    assert_eq!(lookup_env(&env, "B").map(|s| s.as_str()), Some("2"));
    assert_eq!(lookup_env(&env, "C"), None);
}

#[test]
fn placeholders_are_replaced_by_the_values_of_known_names() {
    let vars = vec![
        ("HOME".to_string(), "/h".to_string()),
        ("DATA".to_string(), "/d".to_string()),
        ("LOOP".to_string(), "${HOME}".to_string()),
        ("".to_string(), "empty".to_string()),
    ];
    assert_eq!(expand_placeholders("${HOME}/bin", &vars), "/h/bin");
    assert_eq!(expand_placeholders("a${HOME}b${DATA}c", &vars), "a/hb/dc");
    assert_eq!(expand_placeholders("${HOME}${HOME}", &vars), "/h/h");
    assert_eq!(expand_placeholders("${NOPE}/x", &vars), "${NOPE}/x");
    assert_eq!(expand_placeholders("${HOME", &vars), "${HOME");
    assert_eq!(expand_placeholders("$HOME}", &vars), "$HOME}");
    assert_eq!(expand_placeholders("${LOOP}", &vars), "${HOME}");
    assert_eq!(expand_placeholders("${}", &vars), "empty");
    assert_eq!(expand_placeholders("${${HOME}}", &vars), "${/h}");
    assert_eq!(expand_placeholders("", &vars), "");
    assert_eq!(expand_placeholders("plain", &vars), "plain");
    assert_eq!(expand_placeholders("${HOME}", &Vec::new()), "${HOME}");
    assert_eq!(expand_placeholders("é${DATA}ü", &vars), "é/dü");
}
