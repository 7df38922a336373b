use redisish::parse;
use redisish::Command;
use redisish::Error;

#[test]
fn test_publish_missing_newline() {
    let line = "PUBLISH TestMessage";
    let result: Result<Command, Error> = parse(line);
    let expected = Err(Error::MissingNewline);
    assert_eq!(result, expected);
}

#[test]
fn test_publish_newline_in_the_message() {
    let line = "PUBLISH Test\nMessage\n";
    let result: Result<Command, Error> = parse(line);
    let expected = Err(Error::NewlineInMessage);
    assert_eq!(result, expected);
}

#[test]
fn test_publish_ok() {
    let line = "PUBLISH TestMessage\n";
    let result: Result<Command, Error> = parse(line);
    let expected = Ok(Command::Publish("TestMessage".into()));
    assert_eq!(result, expected);
}

#[test]
fn test_publish_with_spaces_ok() {
    let line = "PUBLISH Test Mess age\n";
    let result: Result<Command, Error> = parse(line);
    let expected = Ok(Command::Publish("Test Mess age".into()));
    assert_eq!(result, expected);
}

#[test]
fn test_publish_with_spaces_at_the_end_ok() {
    let line = "PUBLISH TestMessage \n";
    let result: Result<Command, Error> = parse(line);
    let expected = Ok(Command::Publish("TestMessage ".into()));
    assert_eq!(result, expected);
}

#[test]
fn test_publish_empty_ok() {
    let line = "PUBLISH \n";
    let result: Result<Command, Error> = parse(line);
    let expected = Ok(Command::Publish("".to_owned()));
    assert_eq!(result, expected);
}

#[test]
fn test_retrieve_ok() {
    let line = "RETRIEVE\n";
    let result: Result<Command, Error> = parse(line);
    let expected = Ok(Command::Retrieve);
    assert_eq!(result, expected);
}

#[test]
fn test_retrieve_with_space_errors_with_malformed() {
    let line = "RETRIEVE \n";
    let result: Result<Command, Error> = parse(line);
    let expected = Err(Error::Malformed("Malformed: RETRIEVE \n".into()));
    assert_eq!(result, expected);
}

#[test]
fn test_retrieve_with_payload_errors_with_malformed() {
    let line = "RETRIEVE not allowed\n";
    let result: Result<Command, Error> = parse(line);
    let expected = Err(Error::Malformed("Malformed: RETRIEVE not allowed\n".into()));
    assert_eq!(result, expected);
}

#[test]
fn unknown_command_errors_with_unknown_verb() {
    let line = "FOOBAR TestMessage\n";
    let result: Result<Command, Error> = parse(line);
    assert!(result.is_err());
    assert_eq!(result, Err(Error::UnknownVerb));
}

#[test]
fn display_error_test() {
    assert_eq!(Error::UnknownVerb.message(), "verb is unknown");
    assert_eq!(
        Error::Malformed("oops".to_owned()).message(),
        "malformed string: oops"
    );
    assert_eq!(
        Error::NewlineInMessage.message(),
        "newline is not at the end of the string"
    );
    assert_eq!(
        Error::MissingNewline.message(),
        "missing newline at the end of the string"
    );
}

#[test]
fn serialize_publish_exact_text() {
    assert_eq!(Command::Publish("hi".to_owned()).as_string(), "PUBLISH hi\n");
    assert_eq!(Command::Publish("".to_owned()).as_string(), "PUBLISH \n");
}

#[test]
fn serialize_retrieve_exact_text() {
    assert_eq!(Command::Retrieve.as_string(), "RETRIEVE\n");
}

#[test]
fn round_trip_publish() {
    let c = Command::Publish("a message with spaces ".to_owned());
    let wire = c.as_string();
    assert_eq!(parse(&wire), Ok(c));
}

#[test]
fn round_trip_retrieve() {
    let wire = Command::Retrieve.as_string();
    assert_eq!(parse(&wire), Ok(Command::Retrieve));
}

#[test]
fn retrieve_verb_with_suffix_is_unknown() {
    let result = parse("RETRIEVEx\n");
    assert_eq!(result, Err(Error::UnknownVerb));
}

#[test]
fn lone_newline_is_unknown_verb() {
    assert_eq!(parse("\n"), Err(Error::UnknownVerb));
}
