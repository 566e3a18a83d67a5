use tmenu::menu_item::{ItemState, MenuItem};

fn assert_item(input: &str, text: &str, mn: Option<&str>, value: Option<&str>, index: usize) {
    let item = MenuItem::create(input, index);
    assert_eq!(item.text.as_str(), text);
    assert_eq!(item.mnemonic.as_deref(), mn);
    assert_eq!(item.value.as_deref(), value);
    assert_eq!(item.index, index);

    if let Some(value) = value {
        assert_eq!(item.value(), value);
    } else {
        assert_eq!(item.value(), text);
    }
}

#[test]
fn parse_menu_item() {
    assert_item("a", "a", None, None, 0);
    assert_item("", "", None, None, 42);
    assert_item("a=b", "b", None, Some("a"), 0);
    assert_item("a=b=c", "b=c", None, Some("a"), 1);
    assert_item("a=", "a=", None, None, 2);
    assert_item("=b", "=b", None, None, 3);
    assert_item(" ", " ", None, None, 4);
    assert_item("(x) entry", "(x) entry", Some("x"), None, 3);
    assert_item("(x) a=b", "(x) b", Some("x"), Some("a"), 1);
    assert_item("(x)entry", "(x) entry", Some("x"), None, 2);
    assert_item("()entry", "()entry", None, None, 2);
    assert_item("(x)\t entry", "(x) entry", Some("x"), None, 2);
    assert_item(
        "(mn) value=the text",
        "(mn) the text",
        Some("mn"),
        Some("value"),
        42,
    );
}

#[test]
fn created_items_start_visible() {
    let item = MenuItem::create("(a) Apple", 0);
    assert_eq!(item.state, ItemState::Visible);
    assert!(item.visible());
}

#[test]
fn hidden_items_are_not_visible() {
    let mut item = MenuItem::create("plain", 1);
    item.state = ItemState::Hidden;
    assert!(!item.visible());
    item.state = ItemState::Active;
    assert!(item.visible());
}

#[test]
fn multibyte_mnemonic_parses_by_characters() {
    let item = MenuItem::create("(\u{e9}) caf\u{e9}=Caf\u{e9}", 0);
    assert_eq!(item.mnemonic.as_deref(), Some("\u{e9}"));
    assert_eq!(item.value.as_deref(), Some("caf\u{e9}"));
    assert_eq!(item.text.as_str(), "(\u{e9}) Caf\u{e9}");
}
