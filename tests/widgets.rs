use chat::layout::Config;
use chat::widgets::Flow;
use chat::widgets::InputHandled;
use chat::widgets::InputWidget;
use chat::widgets::Key;
use chat::widgets::UserNameHandled;
use chat::widgets::UserNameView;
use chat::widgets::Welcome;

#[test]
fn input_widget_types_and_erases() {
    let config = Config::new(80, 24);
    let mut w = InputWidget::new("> ".to_string(), "...".to_string(), "ab".to_string(), 2, 3, config);
    assert_eq!(w.handle(Key::Char('c')), Some(InputHandled::Redraw));
    assert_eq!(w.value, "abc");
    assert_eq!(w.handle(Key::Backspace), Some(InputHandled::Redraw));
    assert_eq!(w.handle(Key::Backspace), Some(InputHandled::Redraw));
    assert_eq!(w.handle(Key::Backspace), Some(InputHandled::Redraw));
    assert_eq!(w.value, "");
    assert_eq!(w.handle(Key::Backspace), Some(InputHandled::Redraw));
    assert_eq!(w.value, "");
    assert_eq!(w.handle(Key::Other), None);
    assert_eq!(w.handle(Key::Enter), Some(InputHandled::Enter));
    assert_eq!((w.x, w.y, w.label.as_str(), w.placeholder.as_str()), (2, 3, "> ", "..."));
}

#[test]
fn user_name_view_types_a_name() {
    let mut v = UserNameView {
        config: Config::new(80, 24),
        label: "Name".to_string(),
        placeholder: "<anon>".to_string(),
        value: String::new(),
    };
    for c in "bob".chars() {
        assert_eq!(v.handle(Key::Char(c)), Some(UserNameHandled::Redraw));
    }
    assert_eq!(v.handle(Key::Enter), Some(UserNameHandled::Enter));
    assert_eq!(v.value, "bob");
}

#[test]
fn welcome_asks_for_a_name() {
    let mut w = Welcome::new(Config::new(80, 24));
    assert_eq!(w.input.label, "Name: ");
    assert_eq!(w.input.placeholder, "<anon>");
    assert_eq!(w.input.value, "");
    assert_eq!(w.handle(Key::Char('é')), Some(Flow::Redraw));
    assert_eq!(w.input.value, "é");
    assert_eq!(w.handle(Key::Enter), Some(Flow::Enter));
    assert_eq!(w.handle(Key::Other), None);
}
