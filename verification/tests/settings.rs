use gitpeek::config::{
    parse_depth, read_command, resolve_args, same_text, CmdResult, Settings, SettingsError,
};

#[test]
fn depth_is_read_as_a_small_integer() {
    assert_eq!(parse_depth("0"), Some(0));
    assert_eq!(parse_depth("3"), Some(3));
    assert_eq!(parse_depth("127"), Some(127));
    assert_eq!(parse_depth("-128"), Some(-128));
    assert_eq!(parse_depth("+5"), Some(5));
    assert_eq!(parse_depth("-0"), Some(0));
    assert_eq!(parse_depth("0012"), Some(12));
}

#[test]
fn depth_outside_the_range_or_malformed_is_refused() {
    for s in ["128", "-129", "1000", "99999999999999999999", "", "-", "+", "1 ", " 1", "abc", "1a", "--1", "1.0", "١"] {
        assert_eq!(parse_depth(s), None, "{:?}", s);
    }
}

#[test]
fn depth_agrees_with_the_standard_parser() {
    for v in -300i32..300 {
        for s in [format!("{}", v), format!("+{}", v), format!("0{}", v), format!("{}0", v)] {
            assert_eq!(parse_depth(&s), s.parse::<i8>().ok(), "{:?}", s);
        }
    }
}

#[test]
fn default_settings() {
    let s = Settings::default();
    assert_eq!(s.max_depth, 1);
    assert!(s.ignore_list.is_empty());
}

#[test]
fn mutate_sets_the_ignore_list() {
    let mut s = Settings::default();
    assert!(s.mutate("ignore_list", "target,node_modules").is_ok());
    assert_eq!(s.ignore_list, vec!["target", "node_modules"]);
    assert_eq!(s.max_depth, 1);
    assert!(s.mutate("ignore_list", "").is_ok());
    assert_eq!(s.ignore_list, vec![""]);
}

#[test]
fn mutate_sets_the_depth() {
    let mut s = Settings { max_depth: 1, ignore_list: vec!["x".to_string()] };
    assert!(s.mutate("max_depth", "3").is_ok());
    assert_eq!(s.max_depth, 3);
    assert_eq!(s.ignore_list, vec!["x"]);
}

#[test]
fn mutate_refuses_a_bad_depth_and_changes_nothing() {
    let mut s = Settings { max_depth: 7, ignore_list: vec!["x".to_string()] };
    assert!(matches!(s.mutate("max_depth", "deep"), Err(SettingsError::DepthNotInteger)));
    assert!(matches!(s.mutate("max_depth", "128"), Err(SettingsError::DepthNotInteger)));
    assert_eq!(s.max_depth, 7);
    assert_eq!(s.ignore_list, vec!["x"]);
}

#[test]
fn mutate_refuses_an_unknown_field() {
    let mut s = Settings { max_depth: 7, ignore_list: vec![] };
    match s.mutate("depth", "3") {
        Err(SettingsError::UnknownField(name)) => assert_eq!(name, "depth"),
        _ => panic!("an unknown field was accepted"),
    }
    assert_eq!(s.max_depth, 7);
    assert!(matches!(s.mutate("Max_depth", "3"), Err(SettingsError::UnknownField(_))));
}

#[test]
fn first_word_selects_the_command() {
    assert!(matches!(read_command(Some("getconfig".to_string())), Ok(CmdResult::GetConfig)));
    assert!(matches!(read_command(Some("setconfig".to_string())), Ok(CmdResult::SetConfig)));
    assert!(read_command(Some("-d".to_string())).is_err());
    assert!(read_command(Some("-e".to_string())).is_err());
    match read_command(Some("/home/me".to_string())) {
        Ok(CmdResult::GitPeek(t)) => assert_eq!(t, "/home/me"),
        _ => panic!("a target was not taken as one"),
    }
    match read_command(Some("-x".to_string())) {
        Ok(CmdResult::GitPeek(t)) => assert_eq!(t, "-x"),
        _ => panic!("a target was not taken as one"),
    }
    match read_command(None) {
        Ok(CmdResult::GitPeek(t)) => assert_eq!(t, "."),
        _ => panic!("the default target was not taken"),
    }
}

#[test]
fn command_line_options_win_over_settings() {
    let stored = || Settings { max_depth: 4, ignore_list: vec!["target".to_string()] };
    let a = resolve_args("/w".to_string(), None, None, stored());
    assert_eq!((a.dir.as_str(), a.max_depth), ("/w", 4));
    assert_eq!(a.ignore_list, vec!["target"]);
    let a = resolve_args("/w".to_string(), Some(0), Some(vec![]), stored());
    assert_eq!(a.max_depth, 0);
    assert!(a.ignore_list.is_empty());
}

#[test]
fn same_text_compares_whole_texts() {
    assert!(same_text("abc", "abc"));
    assert!(!same_text("abc", "abd"));
    assert!(!same_text("abc", "ab"));
    assert!(same_text("", ""));
}
