use tmenu::filter::{
    create_filter_factory, match_mnemonic, match_mnemonic_opt, Filter, Match, MatchAllFilter,
};
use tmenu::menu_item::MenuItem;
use tmenu::text::{parse_u32, str_contains, str_eq, str_starts_with, str_trim};
use tmenu::tmenu_settings::TMenuSettings;

fn settings_with(options: &[&str], case_insensitive: bool, prefix: bool) -> TMenuSettings {
    let mut settings = TMenuSettings::default();
    settings.case_insensitive = case_insensitive;
    settings.filter_by_prefix = prefix;
    for (index, option) in options.iter().enumerate() {
        settings
            .available_options
            .push(MenuItem::create(option, index));
    }
    settings
}

fn match_against(settings: &TMenuSettings, query: &str, item_index: usize) -> Match {
    let factory = create_filter_factory(settings);
    let filter = factory.create(query);
    let acc = match &factory {
        tmenu::filter::FilterFactory::CaseInsensitive(ci) => &ci.entries,
        tmenu::filter::FilterFactory::CaseSensitive(cs) => &cs.acc,
    };
    filter.match_item(acc, &settings.available_options[item_index])
}

#[test]
fn mnemonic_typed_out_matches() {
    assert_eq!(match_mnemonic("mn", "m"), Match::Match);
    assert_eq!(match_mnemonic("mn", "mn"), Match::Match);
    assert_eq!(match_mnemonic("mn", "mno"), Match::NoMatch);
}

#[test]
fn single_char_mnemonic_overrides_with_query_length() {
    assert_eq!(match_mnemonic("a", "ab"), Match::Index(2));
    assert_eq!(match_mnemonic("a", "abc"), Match::Index(3));
    assert_eq!(match_mnemonic("a", "b"), Match::NoMatch);
}

#[test]
fn mnemonic_is_case_sensitive() {
    assert_eq!(match_mnemonic("a", "A"), Match::NoMatch);
    assert_eq!(match_mnemonic("A", "a"), Match::NoMatch);
}

#[test]
fn missing_mnemonic_never_matches() {
    assert_eq!(match_mnemonic_opt(None, "a"), Match::NoMatch);
    assert_eq!(match_mnemonic_opt(Some("a"), "a"), Match::Match);
}

#[test]
fn or_else_keeps_everything_but_no_match() {
    assert_eq!(Match::NoMatch.or_else(Match::Match), Match::Match);
    assert_eq!(Match::Match.or_else(Match::NoMatch), Match::Match);
    assert_eq!(Match::Index(3).or_else(Match::Match), Match::Index(3));
    assert_eq!(Match::NoMatch.or_else(Match::NoMatch), Match::NoMatch);
}

#[test]
fn match_from_bool() {
    assert_eq!(Match::from(true), Match::Match);
    assert_eq!(Match::from(false), Match::NoMatch);
}

#[test]
fn match_all_filter_matches_anything() {
    let filter = MatchAllFilter;
    let item = MenuItem::create("anything", 0);
    assert_eq!(filter.match_item(&item), Match::Match);
}

#[test]
fn empty_query_builds_match_all() {
    let settings = settings_with(&["ax", "by"], false, false);
    let factory = create_filter_factory(&settings);
    assert!(matches!(factory.create(""), Filter::MatchAll(_)));
    assert!(!matches!(factory.create("a"), Filter::MatchAll(_)));
}

#[test]
fn case_sensitive_substring_match() {
    let settings = settings_with(&["Apple", "Banana"], false, false);
    assert_eq!(match_against(&settings, "ppl", 0), Match::Match);
    assert_eq!(match_against(&settings, "ppl", 1), Match::NoMatch);
    assert_eq!(match_against(&settings, "apple", 0), Match::NoMatch);
}

#[test]
fn case_insensitive_values_are_lowercased_once() {
    let settings = settings_with(&["Red", "green", "Blue"], true, false);
    assert_eq!(match_against(&settings, "RE", 0), Match::Match);
    assert_eq!(match_against(&settings, "RE", 1), Match::Match);
    assert_eq!(match_against(&settings, "RE", 2), Match::NoMatch);
}

#[test]
fn prefix_mode_anchors_at_the_start() {
    let settings = settings_with(&["Apple", "Pineapple"], false, true);
    assert_eq!(match_against(&settings, "apple", 0), Match::NoMatch);
    assert_eq!(match_against(&settings, "apple", 1), Match::NoMatch);
    assert_eq!(match_against(&settings, "Apple", 0), Match::Match);
    assert_eq!(match_against(&settings, "Apple", 1), Match::NoMatch);
}

#[test]
fn substring_mode_matches_anywhere() {
    let settings = settings_with(&["Apple", "Pineapple"], false, false);
    assert_eq!(match_against(&settings, "apple", 0), Match::NoMatch);
    assert_eq!(match_against(&settings, "apple", 1), Match::Match);
}

#[test]
fn key_value_entries_match_on_the_key() {
    let settings = settings_with(&["key=Shown Text"], false, false);
    assert_eq!(match_against(&settings, "key", 0), Match::Match);
    assert_eq!(match_against(&settings, "Shown", 0), Match::NoMatch);
}

#[test]
fn str_helpers_compare_by_characters() {
    assert!(str_starts_with("hello", "he"));
    assert!(!str_starts_with("he", "hello"));
    assert!(str_starts_with("anything", ""));
    assert!(str_contains("pineapple", "app"));
    assert!(!str_contains("pine", "app"));
    assert!(str_contains("abc", ""));
    assert!(str_eq("same", "same"));
    assert!(!str_eq("same", "sane"));
}

#[test]
fn trim_removes_unicode_whitespace() {
    assert_eq!(str_trim("  x  "), "x");
    assert_eq!(str_trim("\t a b \t"), "a b");
    assert_eq!(str_trim("\u{a0}x"), "x");
    assert_eq!(str_trim(""), "");
    assert_eq!(str_trim(" \t "), "");
}

#[test]
fn parse_u32_accepts_plain_decimals() {
    assert_eq!(parse_u32("0"), Some(0));
    assert_eq!(parse_u32("1024"), Some(1024));
    assert_eq!(parse_u32("+42"), Some(42));
    assert_eq!(parse_u32("4294967295"), Some(u32::MAX));
}

#[test]
fn parse_u32_rejects_everything_else() {
    assert_eq!(parse_u32(""), None);
    assert_eq!(parse_u32("+"), None);
    assert_eq!(parse_u32("-1"), None);
    assert_eq!(parse_u32("12a"), None);
    assert_eq!(parse_u32(" 12"), None);
    assert_eq!(parse_u32("4294967296"), None);
}
