use redisish::handler::handler_step;
use redisish::handler::ConnEvent;
use redisish::handler::HandlerAction;
use redisish::mailbox::snapshot_entries;
use redisish::mailbox::split_tokens;
use redisish::Error;
use redisish::Mailbox;

#[test]
fn snapshot_is_newest_first_with_trailing_delimiter() {
    let mut m = Mailbox::new();
    m.append("a");
    m.append("b");
    m.append("c");
    assert_eq!(m.snapshot(), "c;b;a;");
}

#[test]
fn snapshot_of_fresh_mailbox_is_empty() {
    let m = Mailbox::new();
    assert_eq!(m.snapshot(), "");
}

#[test]
fn snapshot_keeps_every_append_exactly_once() {
    let mut m = Mailbox::new();
    let messages = ["one", "two", "three", "four"];
    for msg in messages {
        m.append(msg);
    }
    let toks = split_tokens(&m.snapshot());
    assert_eq!(toks, vec!["four", "three", "two", "one", ""]);
}

#[test]
fn split_tokens_keeps_empty_tokens() {
    assert_eq!(split_tokens("a;;b"), vec!["a", "", "b"]);
    assert_eq!(split_tokens(""), vec![""]);
    assert_eq!(split_tokens(";"), vec!["", ""]);
}

#[test]
fn snapshot_entries_reverses_and_chomps() {
    assert_eq!(snapshot_entries("a;b;\n"), vec!["", "b", "a"]);
    assert_eq!(snapshot_entries("\n"), vec![""]);
}

#[test]
fn publish_then_retrieve_on_two_connections() {
    let mut shared = Mailbox::new();
    let step = handler_step(&mut shared, ConnEvent::Line("PUBLISH hello\n".to_owned()));
    assert!(matches!(step, HandlerAction::Continue));
    let step = handler_step(&mut shared, ConnEvent::Line("RETRIEVE\n".to_owned()));
    match step {
        HandlerAction::Reply(text) => assert_eq!(text, "hello;\n"),
        _ => panic!("expected a reply"),
    }
}

#[test]
fn two_publishes_then_retrieve_on_one_connection() {
    let mut shared = Mailbox::new();
    let step = handler_step(&mut shared, ConnEvent::Line("PUBLISH a\n".to_owned()));
    assert!(matches!(step, HandlerAction::Continue));
    let step = handler_step(&mut shared, ConnEvent::Line("PUBLISH b\n".to_owned()));
    assert!(matches!(step, HandlerAction::Continue));
    let step = handler_step(&mut shared, ConnEvent::Line("RETRIEVE\n".to_owned()));
    match step {
        HandlerAction::Reply(text) => assert_eq!(text, "b;a;\n"),
        _ => panic!("expected a reply"),
    }
}

#[test]
fn malformed_line_closes_the_connection() {
    let mut shared = Mailbox::new();
    let step = handler_step(&mut shared, ConnEvent::Line("PUBLISH broken".to_owned()));
    match step {
        HandlerAction::Close(Some(err)) => assert_eq!(err, Error::MissingNewline),
        _ => panic!("expected the connection to close with an error"),
    }
    assert_eq!(shared.snapshot(), "");
}

#[test]
fn disconnect_closes_quietly() {
    let mut shared = Mailbox::new();
    let step = handler_step(&mut shared, ConnEvent::Disconnect);
    assert!(matches!(step, HandlerAction::Close(None)));
}
