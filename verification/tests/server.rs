//! End-to-end scenarios: raw request bytes in, raw reply bytes out, through
//! one session step per frame, with an explicit millisecond clock.
use respkv::config::Config;
use respkv::session::session_step;
use respkv::session::StepOutcome;
use respkv::store::Store;

/// Runs one step and expects a reply, returning it with the consumed count.
fn step(buf: &[u8], store: &mut Store, cfg: &Config, now_ms: u64) -> (Vec<u8>, usize) {
    match session_step(&buf.to_vec(), store, cfg, now_ms) {
        StepOutcome::Respond { reply, consumed } => (reply, consumed),
        StepOutcome::NeedMore => panic!("expected a reply, got a request for more bytes"),
    }
}

#[test]
fn ping_returns_pong() {
    let mut store = Store::new();
    let cfg = Config::new();
    let (reply, consumed) = step(b"*1\r\n$4\r\nPING\r\n", &mut store, &cfg, 0);
    assert_eq!(reply, b"+PONG\r\n".to_vec());
    assert_eq!(consumed, 14);
}

#[test]
fn ping_with_extra_args_still_returns_pong() {
    let mut store = Store::new();
    let cfg = Config::new();
    let (reply, _) = step(b"*2\r\n$4\r\nPING\r\n$5\r\nextra\r\n", &mut store, &cfg, 0);
    assert_eq!(reply, b"+PONG\r\n".to_vec());
}

#[test]
fn set_then_get_serves_value_over_wire() {
    let mut store = Store::new();
    let cfg = Config::new();
    let (reply, _) = step(b"*3\r\n$3\r\nSET\r\n$3\r\nfoo\r\n$3\r\nbar\r\n", &mut store, &cfg, 0);
    assert_eq!(reply, b"+OK\r\n".to_vec());
    let (reply, _) = step(b"*2\r\n$3\r\nGET\r\n$3\r\nfoo\r\n", &mut store, &cfg, 1);
    assert_eq!(reply, b"$3\r\nbar\r\n".to_vec());
}

#[test]
fn get_missing_returns_null_bulk() {
    let mut store = Store::new();
    let cfg = Config::new();
    let (reply, _) = step(b"*2\r\n$3\r\nGET\r\n$7\r\nmissing\r\n", &mut store, &cfg, 0);
    assert_eq!(reply, b"$-1\r\n".to_vec());
}

#[test]
fn set_with_ttl_expires() {
    let mut store = Store::new();
    let cfg = Config::new();
    let set = b"*5\r\n$3\r\nSET\r\n$1\r\nk\r\n$1\r\nv\r\n$2\r\npx\r\n$2\r\n50\r\n";
    let (reply, _) = step(set, &mut store, &cfg, 0);
    assert_eq!(reply, b"+OK\r\n".to_vec());
    // Within the time-to-live the value is served.
    let (reply, _) = step(b"*2\r\n$3\r\nGET\r\n$1\r\nk\r\n", &mut store, &cfg, 30);
    assert_eq!(reply, b"$1\r\nv\r\n".to_vec());
    // 100 ms after the write, 50 ms past the time-to-live, it is gone.
    let (reply, _) = step(b"*2\r\n$3\r\nGET\r\n$1\r\nk\r\n", &mut store, &cfg, 100);
    assert_eq!(reply, b"$-1\r\n".to_vec());
}

#[test]
fn echo_returns_message() {
    let mut store = Store::new();
    let cfg = Config::new();
    let (reply, _) = step(b"*2\r\n$4\r\nECHO\r\n$5\r\nhello\r\n", &mut store, &cfg, 0);
    assert_eq!(reply, b"$5\r\nhello\r\n".to_vec());
}

#[test]
fn echo_empty_message() {
    let mut store = Store::new();
    let cfg = Config::new();
    let (reply, _) = step(b"*2\r\n$4\r\nECHO\r\n$0\r\n\r\n", &mut store, &cfg, 0);
    assert_eq!(reply, b"$0\r\n\r\n".to_vec());
}

#[test]
fn malformed_frame_gets_error_then_ping_is_served() {
    let mut store = Store::new();
    let cfg = Config::new();
    // Declared count 3, but the third element never comes: the next frame's
    // header appears where an element should start.
    let bad = b"*3\r\n$3\r\nfoo\r\n$3\r\nbar\r\n*1\r\n$4\r\nPING\r\n";
    let (reply, consumed) = step(bad, &mut store, &cfg, 0);
    assert_eq!(reply, b"-ERR protocol error\r\n".to_vec());
    assert_eq!(consumed, bad.len());
    // The same connection goes on being served.
    let (reply, _) = step(b"*1\r\n$4\r\nPING\r\n", &mut store, &cfg, 1);
    assert_eq!(reply, b"+PONG\r\n".to_vec());
}

#[test]
fn unknown_command_gets_error_then_connection_continues() {
    let mut store = Store::new();
    let cfg = Config::new();
    let (reply, _) = step(b"*1\r\n$8\r\nFLUSHALL\r\n", &mut store, &cfg, 0);
    assert_eq!(reply, b"-ERR unknown command\r\n".to_vec());
    let (reply, _) = step(b"*1\r\n$4\r\nPING\r\n", &mut store, &cfg, 1);
    assert_eq!(reply, b"+PONG\r\n".to_vec());
}

#[test]
fn wrong_arity_gets_error() {
    let mut store = Store::new();
    let cfg = Config::new();
    let (reply, _) = step(b"*1\r\n$4\r\nECHO\r\n", &mut store, &cfg, 0);
    assert_eq!(reply, b"-ERR wrong number of arguments\r\n".to_vec());
}

#[test]
fn bad_ttl_gets_error_and_stores_nothing() {
    let mut store = Store::new();
    let cfg = Config::new();
    let set = b"*5\r\n$3\r\nSET\r\n$1\r\nk\r\n$1\r\nv\r\n$2\r\npx\r\n$4\r\nsoon\r\n";
    let (reply, _) = step(set, &mut store, &cfg, 0);
    assert_eq!(reply, b"-ERR invalid argument\r\n".to_vec());
    let (reply, _) = step(b"*2\r\n$3\r\nGET\r\n$1\r\nk\r\n", &mut store, &cfg, 1);
    assert_eq!(reply, b"$-1\r\n".to_vec());
}

#[test]
fn partial_frame_needs_more_bytes() {
    let mut store = Store::new();
    let cfg = Config::new();
    let r = session_step(&b"*2\r\n$4\r\nEC".to_vec(), &mut store, &cfg, 0);
    assert!(matches!(r, StepOutcome::NeedMore));
}

#[test]
fn pipelined_frames_are_served_in_order() {
    let mut store = Store::new();
    let cfg = Config::new();
    let mut buf = b"*3\r\n$3\r\nSET\r\n$1\r\na\r\n$1\r\n1\r\n*2\r\n$3\r\nGET\r\n$1\r\na\r\n".to_vec();
    let (reply, consumed) = step(&buf, &mut store, &cfg, 0);
    assert_eq!(reply, b"+OK\r\n".to_vec());
    buf.drain(..consumed);
    let (reply, consumed) = step(&buf, &mut store, &cfg, 1);
    assert_eq!(reply, b"$1\r\n1\r\n".to_vec());
    buf.drain(..consumed);
    assert!(buf.is_empty());
}

#[test]
fn config_get_configured_parameter() {
    let mut store = Store::new();
    let mut cfg = Config::new();
    cfg.insert(b"dir".to_vec(), b"/data".to_vec());
    let (reply, _) = step(b"*3\r\n$6\r\nCONFIG\r\n$3\r\nGET\r\n$3\r\ndir\r\n", &mut store, &cfg, 0);
    assert_eq!(reply, b"*2\r\n$3\r\ndir\r\n$5\r\n/data\r\n".to_vec());
}

#[test]
fn config_get_unconfigured_parameter_is_empty_array() {
    let mut store = Store::new();
    let cfg = Config::new();
    let (reply, _) = step(b"*3\r\n$6\r\nCONFIG\r\n$3\r\nGET\r\n$3\r\ndir\r\n", &mut store, &cfg, 0);
    assert_eq!(reply, b"*0\r\n".to_vec());
}
