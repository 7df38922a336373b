use redisish::controller::control_step;
use redisish::ControlAction;
use redisish::Event;
use redisish::Key;
use redisish::Model;

#[test]
fn default_model_selects_the_plus_entry() {
    let m = Model::default();
    assert_eq!(m.composed(), "");
    assert_eq!(m.selected_channel_name(), "+");
    assert_eq!(m.channels(), vec!["+"]);
}

#[test]
fn channels_are_deduplicated_and_sorted() {
    let mut m = Model::default();
    m.replace_emails(vec![
        "b: second".to_owned(),
        "a: first".to_owned(),
        "b: third".to_owned(),
        "no colon here".to_owned(),
    ]);
    assert_eq!(m.channels(), vec!["a", "b", "misc", "+"]);
}

#[test]
fn selected_channel_idx_finds_first_match_or_length() {
    let mut m = Model::default();
    m.replace_emails(vec!["a: x".to_owned(), "b: y".to_owned()]);
    m.select_channel("b");
    assert_eq!(m.selected_channel_idx(), 1);
    m.select_channel("zzz");
    assert_eq!(m.selected_channel_idx(), 3);
}

#[test]
fn emails_are_filtered_by_selected_channel() {
    let mut m = Model::default();
    m.replace_emails(vec![
        "a: one".to_owned(),
        "b: two".to_owned(),
        "a: three".to_owned(),
    ]);
    m.select_channel("a");
    assert_eq!(m.emails_for_selected_channel(), vec!["a: one", "a: three"]);
}

#[test]
fn composer_edits() {
    let mut m = Model::default();
    m.composed_push('h');
    m.composed_push('i');
    assert_eq!(m.composed(), "hi");
    m.composed_backspace();
    assert_eq!(m.composed(), "h");
    m.composed_backspace();
    m.composed_backspace();
    assert_eq!(m.composed(), "");
    m.composed_push('x');
    m.composed_clear();
    assert_eq!(m.composed(), "");
}

#[test]
fn channel_stepping_clamps_at_both_ends() {
    let mut m = Model::default();
    m.replace_emails(vec!["a: x".to_owned(), "b: y".to_owned()]);
    m.select_channel("a");
    m.dec_channel();
    assert_eq!(m.selected_channel_name(), "a");
    m.inc_channel();
    assert_eq!(m.selected_channel_name(), "b");
    m.inc_channel();
    assert_eq!(m.selected_channel_name(), "+");
    m.inc_channel();
    assert_eq!(m.selected_channel_name(), "+");
    m.dec_channel();
    assert_eq!(m.selected_channel_name(), "b");
}

#[test]
fn enter_on_a_channel_publishes_the_composed_email() {
    let mut m = Model::default();
    m.replace_emails(vec!["chat: old".to_owned()]);
    m.select_channel("chat");
    m.composed_push('y');
    m.composed_push('o');
    let a = control_step(&mut m, Event::Input(Key::Enter));
    match a {
        ControlAction::Send(line) => assert_eq!(line, "PUBLISH chat: yo\n"),
        _ => panic!("expected a line to send"),
    }
    assert_eq!(m.composed(), "");
    assert_eq!(m.selected_channel_name(), "chat");
}

#[test]
fn enter_on_plus_creates_the_channel() {
    let mut m = Model::default();
    m.composed_push('n');
    m.composed_push('e');
    m.composed_push('w');
    let a = control_step(&mut m, Event::Input(Key::Enter));
    match a {
        ControlAction::Send(line) => assert_eq!(line, "PUBLISH new: Created the channel\n"),
        _ => panic!("expected a line to send"),
    }
    assert_eq!(m.selected_channel_name(), "new");
    assert_eq!(m.composed(), "");
}

#[test]
fn escape_exits_and_keys_edit() {
    let mut m = Model::default();
    let a = control_step(&mut m, Event::Input(Key::Esc));
    assert!(matches!(a, ControlAction::Exit));
    let a = control_step(&mut m, Event::Input(Key::Char('q')));
    assert!(matches!(a, ControlAction::Idle));
    assert_eq!(m.composed(), "q");
    let a = control_step(&mut m, Event::Input(Key::Backspace));
    assert!(matches!(a, ControlAction::Idle));
    assert_eq!(m.composed(), "");
    let a = control_step(&mut m, Event::Tick);
    assert!(matches!(a, ControlAction::Idle));
}
