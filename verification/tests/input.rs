use saba_core::http::{Header, HttpResponse};
use saba_core::input::{click_target, AddressBar, ClickTarget, InputMode, KeyAction};

#[test]
fn test_where_a_click_lands() {
    // The window starts at (30, 50) and is 600 wide and 400 high; the toolbar
    // takes the rows from 26 up to 50 of it.
    assert_eq!(click_target(29, 60), ClickTarget::Outside);
    assert_eq!(click_target(30, 49), ClickTarget::Outside);
    assert_eq!(click_target(630, 60), ClickTarget::Outside);
    assert_eq!(click_target(30, 450), ClickTarget::Outside);
    assert_eq!(click_target(i64::MIN, i64::MIN), ClickTarget::Outside);
    assert_eq!(click_target(i64::MAX, i64::MAX), ClickTarget::Outside);
    assert_eq!(click_target(30, 50), ClickTarget::Content);
    assert_eq!(click_target(30, 75), ClickTarget::Content);
    assert_eq!(click_target(30, 76), ClickTarget::Toolbar);
    assert_eq!(click_target(629, 99), ClickTarget::Toolbar);
    assert_eq!(click_target(629, 100), ClickTarget::Content);
    assert_eq!(click_target(629, 449), ClickTarget::Content);
}

#[test]
fn test_the_address_is_typed_and_sent_off() {
    let mut bar = AddressBar::new();
    assert_eq!(bar.input_mode(), InputMode::Normal);
    assert_eq!(bar.key('a'), KeyAction::Ignore);
    assert_eq!(bar.input_url(), "");
    bar.click(ClickTarget::Outside);
    assert_eq!(bar.input_mode(), InputMode::Normal);
    bar.click(ClickTarget::Toolbar);
    assert_eq!(bar.input_mode(), InputMode::Editing);
    assert_eq!(bar.key('\x7f'), KeyAction::Redraw);
    assert_eq!(bar.input_url(), "");
    for c in "http://ab".chars() {
        assert_eq!(bar.key(c), KeyAction::Redraw);
    }
    assert_eq!(bar.key('\x08'), KeyAction::Redraw);
    assert_eq!(bar.key('\x7f'), KeyAction::Redraw);
    assert_eq!(bar.key('c'), KeyAction::Redraw);
    assert_eq!(bar.input_url(), "http://c");
    bar.click(ClickTarget::Outside);
    assert_eq!(bar.input_url(), "http://c");
    assert_eq!(bar.input_mode(), InputMode::Editing);
    assert_eq!(bar.key('\n'), KeyAction::Navigate("http://c".to_string()));
    assert_eq!(bar.input_url(), "");
    assert_eq!(bar.input_mode(), InputMode::Normal);
    assert_eq!(bar.key('\n'), KeyAction::Ignore);
}

#[test]
fn test_a_click_in_the_content_ends_the_editing() {
    let mut bar = AddressBar::new();
    bar.click(ClickTarget::Toolbar);
    bar.key('x');
    bar.click(ClickTarget::Content);
    assert_eq!(bar.input_mode(), InputMode::Normal);
    assert_eq!(bar.input_url(), "x");
    bar.click(ClickTarget::Toolbar);
    assert_eq!(bar.input_url(), "");
}

#[test]
fn test_a_redirect_is_followed_for_302_only() {
    let headers = || {
        vec![
            Header::new("Date".to_string(), "x".to_string()),
            Header::new("Location".to_string(), "http://a/b".to_string()),
        ]
    };
    let found = HttpResponse::from_parts(
        "HTTP/1.1".to_string(),
        302,
        "Found".to_string(),
        headers(),
        "".to_string(),
    );
    assert_eq!(found.redirect_location(), Some("http://a/b".to_string()));
    let moved = HttpResponse::from_parts(
        "HTTP/1.1".to_string(),
        301,
        "Moved".to_string(),
        headers(),
        "".to_string(),
    );
    assert_eq!(moved.redirect_location(), None);
    let lost = HttpResponse::from_parts(
        "HTTP/1.1".to_string(),
        302,
        "Found".to_string(),
        Vec::new(),
        "".to_string(),
    );
    assert_eq!(lost.redirect_location(), None);
}
