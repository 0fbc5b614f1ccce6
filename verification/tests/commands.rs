use respkv::codec::decode;
use respkv::codec::Frame;
use respkv::command::parse;
use respkv::command::Command;
use respkv::command::CommandError;
use respkv::command::RedisCommands;

fn frame_of(elems: &[&[u8]]) -> Frame {
    Frame { elems: elems.iter().map(|e| e.to_vec()).collect() }
}

#[test]
fn as_command_names() {
    assert_eq!(RedisCommands::Ping.as_command(), "PING");
    assert_eq!(RedisCommands::Echo.as_command(), "ECHO");
    assert_eq!(RedisCommands::SetValue.as_command(), "SET");
    assert_eq!(RedisCommands::Get.as_command(), "GET");
    assert_eq!(RedisCommands::Config.as_command(), "CONFIG");
}

#[test]
fn parse_ping() {
    let r = parse(&frame_of(&[b"PING"]));
    assert!(matches!(r, Ok(Command::Ping)));
}

#[test]
fn parse_ping_lower_case() {
    let r = parse(&frame_of(&[b"ping"]));
    assert!(matches!(r, Ok(Command::Ping)));
}

#[test]
fn parse_ping_ignores_extra_args() {
    let r = parse(&frame_of(&[b"PING", b"whatever", b"else"]));
    assert!(matches!(r, Ok(Command::Ping)));
}

#[test]
fn parse_echo() {
    match parse(&frame_of(&[b"ECHO", b"hello"])) {
        Ok(Command::Echo { message }) => assert_eq!(message, b"hello".to_vec()),
        other => panic!("unexpected: {:?}", other.err()),
    }
}

#[test]
fn parse_echo_empty_message() {
    match parse(&frame_of(&[b"ECHO", b""])) {
        Ok(Command::Echo { message }) => assert_eq!(message, Vec::<u8>::new()),
        other => panic!("unexpected: {:?}", other.err()),
    }
}

#[test]
fn parse_echo_wrong_arity() {
    assert_eq!(parse(&frame_of(&[b"ECHO"])).err(), Some(CommandError::ArityError));
    assert_eq!(parse(&frame_of(&[b"ECHO", b"a", b"b"])).err(), Some(CommandError::ArityError));
}

#[test]
fn parse_set_without_ttl() {
    match parse(&frame_of(&[b"SET", b"foo", b"bar"])) {
        Ok(Command::SetValue { key, value, ttl_ms }) => {
            assert_eq!(key, b"foo".to_vec());
            assert_eq!(value, b"bar".to_vec());
            assert_eq!(ttl_ms, None);
        },
        other => panic!("unexpected: {:?}", other.err()),
    }
}

#[test]
fn parse_set_with_px_ttl() {
    match parse(&frame_of(&[b"set", b"k", b"v", b"px", b"1500"])) {
        Ok(Command::SetValue { key, value, ttl_ms }) => {
            assert_eq!(key, b"k".to_vec());
            assert_eq!(value, b"v".to_vec());
            assert_eq!(ttl_ms, Some(1500));
        },
        other => panic!("unexpected: {:?}", other.err()),
    }
}

#[test]
fn parse_set_bad_label() {
    let r = parse(&frame_of(&[b"SET", b"k", b"v", b"ex", b"15"]));
    assert_eq!(r.err(), Some(CommandError::ArgumentError));
}

#[test]
fn parse_set_nonnumeric_ttl() {
    let r = parse(&frame_of(&[b"SET", b"k", b"v", b"px", b"soon"]));
    assert_eq!(r.err(), Some(CommandError::ArgumentError));
}

#[test]
fn parse_set_empty_ttl() {
    let r = parse(&frame_of(&[b"SET", b"k", b"v", b"px", b""]));
    assert_eq!(r.err(), Some(CommandError::ArgumentError));
}

#[test]
fn parse_set_wrong_arity() {
    assert_eq!(parse(&frame_of(&[b"SET", b"k"])).err(), Some(CommandError::ArityError));
    assert_eq!(parse(&frame_of(&[b"SET", b"k", b"v", b"px"])).err(), Some(CommandError::ArityError));
    assert_eq!(
        parse(&frame_of(&[b"SET", b"k", b"v", b"px", b"5", b"x"])).err(),
        Some(CommandError::ArityError)
    );
}

#[test]
fn parse_get() {
    match parse(&frame_of(&[b"GET", b"foo"])) {
        Ok(Command::Get { key }) => assert_eq!(key, b"foo".to_vec()),
        other => panic!("unexpected: {:?}", other.err()),
    }
}

#[test]
fn parse_get_wrong_arity() {
    assert_eq!(parse(&frame_of(&[b"GET"])).err(), Some(CommandError::ArityError));
    assert_eq!(parse(&frame_of(&[b"GET", b"a", b"b"])).err(), Some(CommandError::ArityError));
}

#[test]
fn parse_config_get() {
    match parse(&frame_of(&[b"CONFIG", b"GET", b"dir"])) {
        Ok(Command::ConfigGet { parameter }) => assert_eq!(parameter, b"dir".to_vec()),
        other => panic!("unexpected: {:?}", other.err()),
    }
}

#[test]
fn parse_config_get_lower_case_subcommand() {
    match parse(&frame_of(&[b"config", b"get", b"dbfilename"])) {
        Ok(Command::ConfigGet { parameter }) => assert_eq!(parameter, b"dbfilename".to_vec()),
        other => panic!("unexpected: {:?}", other.err()),
    }
}

#[test]
fn parse_config_unknown_subcommand() {
    let r = parse(&frame_of(&[b"CONFIG", b"SET", b"dir"]));
    assert_eq!(r.err(), Some(CommandError::UnknownCommand));
}

#[test]
fn parse_config_wrong_arity() {
    assert_eq!(parse(&frame_of(&[b"CONFIG", b"GET"])).err(), Some(CommandError::ArityError));
}

#[test]
fn parse_unknown_command() {
    let r = parse(&frame_of(&[b"FLUSHALL"]));
    assert_eq!(r.err(), Some(CommandError::UnknownCommand));
}

#[test]
fn parse_empty_frame() {
    let r = parse(&Frame { elems: Vec::new() });
    assert_eq!(r.err(), Some(CommandError::ArityError));
}

#[test]
fn parse_decoded_frame() {
    let buf = b"*3\r\n$3\r\nSET\r\n$3\r\nfoo\r\n$3\r\nbar\r\n".to_vec();
    let (frame, _) = decode(&buf).unwrap();
    assert!(matches!(parse(&frame), Ok(Command::SetValue { .. })));
}
