use tmenu::menu_item::{ItemState, MenuItem};
use tmenu::tmenu::{
    global_keyboard_handler, ExitState, InputEvent, Key, KeyModifiers, MainAction, TMenu,
};
use tmenu::tmenu_settings::TMenuSettings;

fn settings_with(
    options: &[&str],
    case_insensitive: bool,
    prefix: bool,
    allow_undefined: bool,
) -> TMenuSettings {
    let mut settings = TMenuSettings::default();
    settings.case_insensitive = case_insensitive;
    settings.filter_by_prefix = prefix;
    settings.allow_undefined = allow_undefined;
    for (index, option) in options.iter().enumerate() {
        settings
            .available_options
            .push(MenuItem::create(option, index));
    }
    settings
}

fn states(menu: &TMenu) -> Vec<ItemState> {
    menu.available_options.iter().map(|i| i.state).collect()
}

fn active_count(menu: &TMenu) -> usize {
    menu.available_options
        .iter()
        .filter(|i| i.state == ItemState::Active)
        .count()
}

fn active_index(menu: &TMenu) -> Option<usize> {
    menu.available_options
        .iter()
        .position(|i| i.state == ItemState::Active)
}

fn query(text: &str) -> MainAction {
    MainAction::TextChanged(text.to_string())
}

#[test]
fn new_session_activates_the_first_entry() {
    let menu = TMenu::new(settings_with(&["a", "b", "c"], false, false, false));
    assert_eq!(
        states(&menu),
        vec![ItemState::Active, ItemState::Visible, ItemState::Visible]
    );
}

#[test]
fn new_session_with_free_text_activates_nothing() {
    let menu = TMenu::new(settings_with(&["a", "b"], false, false, true));
    assert_eq!(states(&menu), vec![ItemState::Visible, ItemState::Visible]);
}

#[test]
fn at_most_one_entry_is_ever_active() {
    let mut menu = TMenu::new(settings_with(&["ax", "by", "az"], false, false, false));
    assert!(active_count(&menu) <= 1);
    menu.update(query("a"));
    assert!(active_count(&menu) <= 1);
    menu.update(MainAction::Next);
    assert!(active_count(&menu) <= 1);
    menu.update(query("zzz"));
    assert!(active_count(&menu) <= 1);
    menu.update(MainAction::Previous);
    assert!(active_count(&menu) <= 1);
    menu.update(query(""));
    assert_eq!(active_count(&menu), 1);
}

#[test]
fn cycling_wraps_around_the_visible_set() {
    let mut menu = TMenu::new(settings_with(&["a", "b", "c"], false, false, false));
    assert_eq!(active_index(&menu), Some(0));
    for expected in [1, 2, 0, 1] {
        menu.update(MainAction::Next);
        assert_eq!(active_index(&menu), Some(expected));
    }
    for expected in [0, 2, 1, 0] {
        menu.update(MainAction::Previous);
        assert_eq!(active_index(&menu), Some(expected));
    }
}

#[test]
fn cycling_skips_hidden_entries() {
    let mut menu = TMenu::new(settings_with(&["ax", "by", "az"], false, false, false));
    menu.update(query("a"));
    assert_eq!(active_index(&menu), Some(0));
    menu.update(MainAction::Next);
    assert_eq!(active_index(&menu), Some(2));
    menu.update(MainAction::Next);
    assert_eq!(active_index(&menu), Some(0));
    assert_eq!(menu.available_options[1].state, ItemState::Hidden);
}

#[test]
fn cycling_an_empty_visible_set_does_nothing() {
    let mut menu = TMenu::new(settings_with(&["ax", "ay"], false, false, false));
    menu.update(query("zzz"));
    let before = states(&menu);
    menu.update(MainAction::Next);
    assert_eq!(states(&menu), before);
}

#[test]
fn stability_active_entry_survives_refiltering() {
    let mut menu = TMenu::new(settings_with(&["A", "B", "C"], false, false, false));
    menu.update(MainAction::Next);
    assert_eq!(active_index(&menu), Some(1));
    menu.update(query(""));
    assert_eq!(active_index(&menu), Some(1));
}

#[test]
fn disappearance_falls_back_to_the_first_visible_entry() {
    let mut menu = TMenu::new(settings_with(&["ax", "by", "az"], false, false, false));
    menu.update(MainAction::Next);
    assert_eq!(active_index(&menu), Some(1));
    menu.update(query("a"));
    assert_eq!(active_index(&menu), Some(0));
    assert_eq!(
        states(&menu),
        vec![ItemState::Active, ItemState::Hidden, ItemState::Visible]
    );
}

#[test]
fn mnemonic_override_precedence() {
    let mut menu = TMenu::new(settings_with(&["(a) Apple", "Banana"], false, false, false));
    menu.update(query("a"));
    assert_eq!(active_index(&menu), Some(0));
    assert_eq!(menu.available_options[1].state, ItemState::Visible);
}

#[test]
fn mnemonic_override_beats_a_surviving_active_entry() {
    let mut menu = TMenu::new(settings_with(&["(a) Apple", "Bab"], false, false, false));
    menu.update(MainAction::Next);
    assert_eq!(active_index(&menu), Some(1));
    menu.update(query("ab"));
    assert_eq!(active_index(&menu), Some(0));
    assert_eq!(menu.available_options[1].state, ItemState::Visible);
}

#[test]
fn mnemonic_offset_is_taken_modulo_the_visible_set_size() {
    let mut menu = TMenu::new(settings_with(&["(q) one", "quay", "quux"], false, false, false));
    menu.update(query("qu"));
    assert_eq!(
        states(&menu),
        vec![ItemState::Visible, ItemState::Visible, ItemState::Active]
    );
}

#[test]
fn case_insensitive_substring_scenario() {
    let mut menu = TMenu::new(settings_with(&["Red", "green", "Blue"], true, false, false));
    menu.update(query("RE"));
    assert_eq!(
        states(&menu),
        vec![ItemState::Active, ItemState::Visible, ItemState::Hidden]
    );
}

#[test]
fn prefix_mode_scenario() {
    let mut menu = TMenu::new(settings_with(&["Apple", "Pineapple"], false, true, false));
    menu.update(query("apple"));
    assert_eq!(states(&menu), vec![ItemState::Hidden, ItemState::Hidden]);
    menu.update(query("Apple"));
    assert_eq!(states(&menu), vec![ItemState::Active, ItemState::Hidden]);
}

#[test]
fn empty_query_hides_nothing() {
    let mut menu = TMenu::new(settings_with(&["ax", "by", "cz"], false, false, false));
    menu.update(query("zzz"));
    menu.update(query(""));
    assert!(menu.available_options.iter().all(|i| i.state != ItemState::Hidden));
    assert_eq!(active_count(&menu), 1);
}

#[test]
fn exit_emits_the_active_entry_value() {
    let mut menu = TMenu::new(settings_with(&["key=Text", "other"], false, false, false));
    let out = menu.update(MainAction::Exit);
    assert_eq!(out.as_deref(), Some("key"));
    assert!(menu.should_exit());
    assert!(matches!(menu.exit_state, ExitState::Exit));
}

#[test]
fn exit_with_free_text_emits_the_query() {
    let mut menu = TMenu::new(settings_with(&["abc"], false, false, true));
    menu.update(query("typed"));
    let out = menu.update(MainAction::Exit);
    assert_eq!(out.as_deref(), Some("typed"));
    assert!(matches!(menu.exit_state, ExitState::Exit));
}

#[test]
fn exit_with_nothing_to_emit_aborts() {
    let mut menu = TMenu::new(settings_with(&["abc"], false, false, true));
    let out = menu.update(MainAction::Exit);
    assert!(out.is_none());
    assert!(matches!(menu.exit_state, ExitState::Abort));
}

#[test]
fn abort_never_emits() {
    let mut menu = TMenu::new(settings_with(&["abc"], false, false, false));
    let out = menu.update(MainAction::Abort);
    assert!(out.is_none());
    assert!(matches!(menu.exit_state, ExitState::Abort));
    assert!(menu.should_exit());
}

#[test]
fn focus_changes_nothing() {
    let mut menu = TMenu::new(settings_with(&["a", "b"], false, false, false));
    let before = states(&menu);
    let out = menu.update(MainAction::Focus);
    assert!(out.is_none());
    assert_eq!(states(&menu), before);
    assert!(!menu.should_exit());
}

#[test]
fn tab_cycles_and_copies_the_entry_text() {
    let mut menu = TMenu::new(settings_with(&["alpha", "beta"], false, false, false));
    let out = menu.update(MainAction::NextTab);
    assert!(out.is_none());
    assert_eq!(active_index(&menu), Some(1));
    assert_eq!(menu.input.as_str(), "beta");
    menu.update(MainAction::PreviousTab);
    assert_eq!(menu.input.as_str(), "alpha");
}

#[test]
fn auto_accept_fires_on_a_single_match() {
    let mut menu = TMenu::new(settings_with(&["alpha", "beta"], false, false, false));
    menu.auto_accept = true;
    let out = menu.update(query("bet"));
    assert_eq!(out.as_deref(), Some("beta"));
    assert!(matches!(menu.exit_state, ExitState::Exit));
}

#[test]
fn auto_accept_waits_while_several_match() {
    let mut menu = TMenu::new(settings_with(&["alpha", "apex"], false, false, false));
    menu.auto_accept = true;
    let out = menu.update(query("a"));
    assert!(out.is_none());
    assert!(matches!(menu.exit_state, ExitState::Continue));
}

#[test]
fn no_match_leaves_no_active_entry() {
    let mut menu = TMenu::new(settings_with(&["alpha", "beta"], false, false, false));
    menu.update(query("zzz"));
    assert_eq!(active_count(&menu), 0);
    let out = menu.update(MainAction::Exit);
    assert!(out.is_none());
    assert!(matches!(menu.exit_state, ExitState::Abort));
}

#[test]
fn title_is_fixed() {
    let menu = TMenu::new(settings_with(&["a"], false, false, false));
    assert_eq!(menu.title().as_str(), "tmenu");
}

#[test]
fn keyboard_mapping() {
    let handle = |key, mods| global_keyboard_handler(InputEvent::KeyPressed(key, mods));
    assert!(matches!(handle(Key::Escape, KeyModifiers::Empty), Some(MainAction::Abort)));
    assert!(matches!(handle(Key::Escape, KeyModifiers::Shift), Some(MainAction::Focus)));
    assert!(matches!(handle(Key::Tab, KeyModifiers::Empty), Some(MainAction::NextTab)));
    assert!(matches!(handle(Key::Tab, KeyModifiers::Shift), Some(MainAction::PreviousTab)));
    assert!(matches!(handle(Key::Tab, KeyModifiers::Other), Some(MainAction::Focus)));
    assert!(matches!(handle(Key::Right, KeyModifiers::Empty), Some(MainAction::Next)));
    assert!(matches!(handle(Key::Left, KeyModifiers::Empty), Some(MainAction::Previous)));
    assert!(matches!(handle(Key::Other, KeyModifiers::Empty), Some(MainAction::Focus)));
    assert!(matches!(
        global_keyboard_handler(InputEvent::Other),
        Some(MainAction::Focus)
    ));
}

#[test]
fn default_action_is_focus() {
    assert!(matches!(MainAction::default(), MainAction::Focus));
}

#[test]
fn view_starts_shortly_before_the_active_entry() {
    let mut menu = TMenu::new(settings_with(&["a", "b", "c", "d", "e"], false, false, false));
    assert_eq!(menu.view_start(), 0);
    for _ in 0..4 {
        menu.update(MainAction::Next);
    }
    assert_eq!(active_index(&menu), Some(4));
    assert_eq!(menu.view_start(), 2);
    menu.update(query("zzz"));
    assert_eq!(menu.view_start(), 0);
}
