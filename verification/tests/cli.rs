use gitpeek::args::{process_command, ArgsError, Parsed};
use gitpeek::config::{parse_args, CmdResult, Settings, SettingsError};
use pico_args::Arguments;

fn arguments(words: &[&str]) -> Arguments {
    Arguments::from_vec(words.iter().map(|w| (*w).into()).collect())
}

fn left(pargs: Arguments) -> Vec<String> {
    pargs.finish().iter().map(|w| w.to_str().unwrap_or("?").to_string()).collect()
}

fn stored() -> Settings {
    Settings { max_depth: 4, ignore_list: vec!["target".to_string()] }
}

#[test]
fn target_with_both_options() {
    let mut pargs = arguments(&["/w", "-d", "3", "-e", "a,b"]);
    match parse_args(&mut pargs, stored()) {
        Ok(Parsed::Search(a)) => {
            assert_eq!(a.dir, "/w");
            assert_eq!(a.max_depth, 3);
            assert_eq!(a.ignore_list, vec!["a", "b"]);
        }
        _ => panic!("a search was asked for"),
    }
    assert!(left(pargs).is_empty());
}

#[test]
fn no_word_searches_below_the_current_directory_with_stored_settings() {
    let mut pargs = arguments(&[]);
    match parse_args(&mut pargs, stored()) {
        Ok(Parsed::Search(a)) => {
            assert_eq!(a.dir, ".");
            assert_eq!(a.max_depth, 4);
            assert_eq!(a.ignore_list, vec!["target"]);
        }
        _ => panic!("a search was asked for"),
    }
}

#[test]
fn options_are_found_among_other_words() {
    let mut pargs = arguments(&["/w", "x", "-e", "", "y", "-d", "-7"]);
    match parse_args(&mut pargs, stored()) {
        Ok(Parsed::Search(a)) => {
            assert_eq!(a.max_depth, -7);
            assert_eq!(a.ignore_list, vec![""]);
        }
        _ => panic!("a search was asked for"),
    }
    assert_eq!(left(pargs), vec!["x", "y"]);
}

#[test]
fn first_of_a_repeated_option_is_taken() {
    let mut pargs = arguments(&["/w", "-d", "1", "-d", "2"]);
    match parse_args(&mut pargs, stored()) {
        Ok(Parsed::Search(a)) => assert_eq!(a.max_depth, 1),
        _ => panic!("a search was asked for"),
    }
    assert_eq!(left(pargs), vec!["-d", "2"]);
}

#[test]
fn option_in_place_of_the_target_is_refused() {
    let mut pargs = arguments(&["-d", "3"]);
    assert!(matches!(parse_args(&mut pargs, stored()), Err(ArgsError::OptionBeforeTarget)));
    let mut pargs = arguments(&["-e", "a"]);
    assert!(matches!(parse_args(&mut pargs, stored()), Err(ArgsError::OptionBeforeTarget)));
}

#[test]
fn depth_that_is_no_number_is_refused() {
    let mut pargs = arguments(&["/w", "-d", "deep"]);
    match parse_args(&mut pargs, stored()) {
        Err(ArgsError::DepthNotANumber(v)) => assert_eq!(v, "deep"),
        _ => panic!("a bad depth was accepted"),
    }
    let mut pargs = arguments(&["/w", "-d", "128"]);
    assert!(matches!(parse_args(&mut pargs, stored()), Err(ArgsError::DepthNotANumber(_))));
}

#[test]
fn option_without_a_value_is_refused() {
    let mut pargs = arguments(&["/w", "-d"]);
    assert!(matches!(parse_args(&mut pargs, stored()), Err(ArgsError::OptionValue(_))));
    let mut pargs = arguments(&["/w", "-d", "1", "-e"]);
    assert!(matches!(parse_args(&mut pargs, stored()), Err(ArgsError::OptionValue(_))));
    assert_eq!(left(pargs), vec!["-e"]);
}

#[test]
fn getconfig_hands_back_the_stored_settings() {
    let mut pargs = arguments(&["getconfig"]);
    match parse_args(&mut pargs, stored()) {
        Ok(Parsed::ShowConfig(s)) => {
            assert_eq!(s.max_depth, 4);
            assert_eq!(s.ignore_list, vec!["target"]);
        }
        _ => panic!("the settings were asked for"),
    }
}

#[test]
fn setconfig_changes_one_setting() {
    let mut pargs = arguments(&["setconfig", "max_depth", "3"]);
    match parse_args(&mut pargs, stored()) {
        Ok(Parsed::StoreConfig(s)) => {
            assert_eq!(s.max_depth, 3);
            assert_eq!(s.ignore_list, vec!["target"]);
        }
        _ => panic!("a setting was to be stored"),
    }
    let mut pargs = arguments(&["setconfig", "ignore_list", "a,b,c"]);
    match parse_args(&mut pargs, stored()) {
        Ok(Parsed::StoreConfig(s)) => {
            assert_eq!(s.max_depth, 4);
            assert_eq!(s.ignore_list, vec!["a", "b", "c"]);
        }
        _ => panic!("a setting was to be stored"),
    }
}

#[test]
fn setconfig_needs_a_field_and_a_value() {
    let mut pargs = arguments(&["setconfig", "max_depth"]);
    assert!(matches!(parse_args(&mut pargs, stored()), Err(ArgsError::Word(_))));
    let mut pargs = arguments(&["setconfig"]);
    assert!(matches!(parse_args(&mut pargs, stored()), Err(ArgsError::Word(_))));
}

#[test]
fn setconfig_refuses_what_the_settings_refuse() {
    let mut pargs = arguments(&["setconfig", "depth", "3"]);
    match parse_args(&mut pargs, stored()) {
        Err(ArgsError::Setting(SettingsError::UnknownField(f))) => assert_eq!(f, "depth"),
        _ => panic!("an unknown field was accepted"),
    }
    let mut pargs = arguments(&["setconfig", "max_depth", "x"]);
    assert!(matches!(
        parse_args(&mut pargs, stored()),
        Err(ArgsError::Setting(SettingsError::DepthNotInteger))
    ));
}

#[test]
fn command_takes_only_its_own_words() {
    let mut pargs = arguments(&["/w", "-d", "3"]);
    let mut settings = stored();
    match process_command(&mut pargs, &mut settings) {
        Ok(CmdResult::GitPeek(t)) => assert_eq!(t, "/w"),
        _ => panic!("a target was given"),
    }
    assert_eq!(left(pargs), vec!["-d", "3"]);
    assert_eq!(settings.max_depth, 4);

    let mut pargs = arguments(&["setconfig", "max_depth", "9", "more"]);
    assert!(matches!(process_command(&mut pargs, &mut settings), Ok(CmdResult::SetConfig)));
    assert_eq!(left(pargs), vec!["more"]);
    assert_eq!(settings.max_depth, 9);
}
