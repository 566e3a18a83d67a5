use tmenu::tmenu_settings::{parse_args, read_options, ArgsError, PrintHelp, TMenuSettings};

fn args(list: &[&str]) -> Vec<String> {
    let mut v = vec!["tmenu".to_string()];
    for a in list {
        v.push(a.to_string());
    }
    v
}

#[test]
fn defaults_are_all_off() {
    let s = TMenuSettings::default();
    assert!(!s.auto_accept);
    assert!(!s.case_insensitive);
    assert!(!s.allow_undefined);
    assert!(!s.filter_by_prefix);
    assert!(!s.fuzzy);
    assert!(!s.verbose);
    assert!(matches!(s.print_help, PrintHelp::No));
    assert!(s.available_options.is_empty());
    assert!(s.width.is_none());
}

#[test]
fn flags_set_their_fields() {
    let mut s = TMenuSettings::default();
    let r = parse_args(
        &args(&["-a", "--case-insensitive", "-p", "-f", "-u", "--verbose"]),
        &mut s,
    );
    assert!(matches!(r, Ok(true)));
    assert!(s.auto_accept);
    assert!(s.case_insensitive);
    assert!(s.filter_by_prefix);
    assert!(s.fuzzy);
    assert!(s.allow_undefined);
    assert!(s.verbose);
}

#[test]
fn long_and_short_flags_agree() {
    let mut short = TMenuSettings::default();
    let mut long = TMenuSettings::default();
    assert!(parse_args(&args(&["-i"]), &mut short).is_ok());
    assert!(parse_args(&args(&["--case-insensitive"]), &mut long).is_ok());
    assert_eq!(short.case_insensitive, long.case_insensitive);
}

#[test]
fn width_takes_the_next_argument() {
    let mut s = TMenuSettings::default();
    let r = parse_args(&args(&["-w", "300"]), &mut s);
    assert!(matches!(r, Ok(true)));
    assert_eq!(s.width, Some(300));
}

#[test]
fn unparsable_width_is_an_error() {
    let mut s = TMenuSettings::default();
    let r = parse_args(&args(&["--width", "wide"]), &mut s);
    assert!(matches!(r, Err(ArgsError::InvalidWidth)));
}

#[test]
fn trailing_width_flag_is_unknown() {
    let mut s = TMenuSettings::default();
    let r = parse_args(&args(&["-w"]), &mut s);
    match r {
        Err(ArgsError::UnknownOption(o)) => assert_eq!(o, "-w"),
        _ => panic!("expected an unknown-option error"),
    }
}

#[test]
fn unknown_option_is_reported() {
    let mut s = TMenuSettings::default();
    let r = parse_args(&args(&["--frobnicate"]), &mut s);
    match r {
        Err(ArgsError::UnknownOption(o)) => assert_eq!(o, "--frobnicate"),
        _ => panic!("expected an unknown-option error"),
    }
}

#[test]
fn double_dash_takes_inline_options() {
    let mut s = TMenuSettings::default();
    let r = parse_args(&args(&["-a", "--", "(x) a=b", "plain"]), &mut s);
    assert!(matches!(r, Ok(false)));
    assert!(s.auto_accept);
    assert_eq!(s.available_options.len(), 2);
    assert_eq!(s.available_options[0].mnemonic.as_deref(), Some("x"));
    assert_eq!(s.available_options[0].value.as_deref(), Some("a"));
    assert_eq!(s.available_options[0].index, 0);
    assert_eq!(s.available_options[1].text.as_str(), "plain");
    assert_eq!(s.available_options[1].index, 1);
}

#[test]
fn flags_after_double_dash_are_entries() {
    let mut s = TMenuSettings::default();
    let r = parse_args(&args(&["--", "-a"]), &mut s);
    assert!(matches!(r, Ok(false)));
    assert!(!s.auto_accept);
    assert_eq!(s.available_options.len(), 1);
    assert_eq!(s.available_options[0].text.as_str(), "-a");
}

#[test]
fn help_flags_stop_input_reading() {
    let mut s = TMenuSettings::default();
    let r = parse_args(&args(&["-h"]), &mut s);
    assert!(matches!(r, Ok(false)));
    assert!(matches!(s.print_help, PrintHelp::Short));

    let mut s2 = TMenuSettings::default();
    let r2 = parse_args(&args(&["--help"]), &mut s2);
    assert!(matches!(r2, Ok(false)));
    assert!(matches!(s2.print_help, PrintHelp::Long));
}

#[test]
fn read_options_numbers_lines_from_zero() {
    let mut s = TMenuSettings::default();
    let lines = vec!["first".to_string(), "(b) second".to_string()];
    read_options(&mut s, &lines);
    assert_eq!(s.available_options.len(), 2);
    assert_eq!(s.available_options[0].index, 0);
    assert_eq!(s.available_options[0].text.as_str(), "first");
    assert_eq!(s.available_options[1].index, 1);
    assert_eq!(s.available_options[1].mnemonic.as_deref(), Some("b"));
}
