//! Unit tests for the text helpers, the record codec, the protocol parser
//! and response framing, and argument scanning.

use sessiond::args::parse_args;
use sessiond::manager::SessionManager;
use sessiond::protocol::{parse_command, response_err, response_ok, response_ok_arg, Command};
use sessiond::text::{
    bytes_to_string, i64_to_string, parse_i64_or_zero, parse_u64_or_zero, u64_to_string,
};
use sessiond::tokens::split_tokens;
use sessiond::user::User;

#[test]
fn hex_encodes_uppercase_pairs() {
    assert_eq!(bytes_to_string(&[]), "");
    assert_eq!(bytes_to_string(&[0x00]), "00");
    assert_eq!(bytes_to_string(&[0x1a, 0xff, 0x09]), "1AFF09");
}

#[test]
fn u64_renders_decimal() {
    assert_eq!(u64_to_string(0), "0");
    assert_eq!(u64_to_string(7), "7");
    assert_eq!(u64_to_string(1234567890), "1234567890");
    assert_eq!(u64_to_string(u64::MAX), "18446744073709551615");
}

#[test]
fn i64_renders_decimal_with_sign() {
    assert_eq!(i64_to_string(0), "0");
    assert_eq!(i64_to_string(-1), "-1");
    assert_eq!(i64_to_string(987), "987");
    assert_eq!(i64_to_string(i64::MIN), "-9223372036854775808");
    assert_eq!(i64_to_string(i64::MAX), "9223372036854775807");
}

#[test]
fn i64_parsing_is_permissive() {
    assert_eq!(parse_i64_or_zero("42"), 42);
    assert_eq!(parse_i64_or_zero("-42"), -42);
    assert_eq!(parse_i64_or_zero("+7"), 7);
    assert_eq!(parse_i64_or_zero(""), 0);
    assert_eq!(parse_i64_or_zero("abc"), 0);
    assert_eq!(parse_i64_or_zero("12x"), 0);
    assert_eq!(parse_i64_or_zero("-"), 0);
    assert_eq!(parse_i64_or_zero("-9223372036854775808"), i64::MIN);
    assert_eq!(parse_i64_or_zero("9223372036854775807"), i64::MAX);
    assert_eq!(parse_i64_or_zero("9223372036854775808"), 0);
    assert_eq!(parse_i64_or_zero("-9223372036854775809"), 0);
}

#[test]
fn u64_parsing_is_permissive() {
    assert_eq!(parse_u64_or_zero("0"), 0);
    assert_eq!(parse_u64_or_zero("18446744073709551615"), u64::MAX);
    assert_eq!(parse_u64_or_zero("18446744073709551616"), 0);
    assert_eq!(parse_u64_or_zero("-1"), 0);
    assert_eq!(parse_u64_or_zero("+5"), 5);
    assert_eq!(parse_u64_or_zero("+"), 0);
}

#[test]
fn round_trip_i64_rendering() {
    for v in [0i64, 1, -1, 999, -1000, i64::MIN, i64::MAX] {
        assert_eq!(parse_i64_or_zero(&i64_to_string(v)), v);
    }
}

#[test]
fn tokens_split_on_whitespace_runs() {
    let ts = split_tokens("  alice\t hunter2  x ");
    let ts: Vec<&str> = ts.iter().map(|s| s.as_str()).collect();
    assert_eq!(ts, vec!["alice", "hunter2", "x"]);
    assert!(split_tokens("").is_empty());
    assert!(split_tokens(" \t\r\n").is_empty());
}

#[test]
fn user_line_round_trips() {
    let u = User::new("bob", "pw", 123);
    let line = u.to_string();
    assert_eq!(line, "bob pw 123 0 0 0 0 0 0");
    let rest = &line[line.find(' ').unwrap() + 1..];
    let v = User::parse("bob", rest);
    assert_eq!(v.name, "bob");
    assert_eq!(v.password, "pw");
    assert_eq!(v.created, 123);
    assert_eq!(v.updated, 0);
    assert_eq!(v.deleted, 0);
    assert_eq!(v.last_loggedin, 0);
    assert_eq!(v.failed, 0);
    assert_eq!(v.fail_count, 0);
    assert_eq!(v.locked, 0);
}

#[test]
fn user_parse_defaults_missing_and_malformed_fields() {
    let u = User::parse("carol", "secret 10 xx");
    assert_eq!(u.name, "carol");
    assert_eq!(u.password, "secret");
    assert_eq!(u.created, 10);
    assert_eq!(u.updated, 0);
    assert_eq!(u.deleted, 0);
    assert_eq!(u.fail_count, 0);
    let e = User::parse("dave", "");
    assert_eq!(e.password, "");
    assert_eq!(e.created, 0);
}

#[test]
fn user_flags_follow_timestamps() {
    let mut u = User::new("erin", "pw", 5);
    assert!(!u.is_deleted());
    assert!(!u.is_locked());
    u.deleted = 9;
    u.locked = 11;
    assert!(u.is_deleted());
    assert!(u.is_locked());
}

#[test]
fn command_lines_parse() {
    match parse_command("AUTH alice pw\r\n") {
        Some(Command::Auth { name, pass }) => {
            assert_eq!(name, "alice");
            assert_eq!(pass, "pw");
        }
        _ => panic!("expected AUTH"),
    }
    match parse_command("LOGIN bob") {
        Some(Command::Login { name, pass }) => {
            assert_eq!(name, "bob");
            assert_eq!(pass, "");
        }
        _ => panic!("expected LOGIN"),
    }
    match parse_command("SESSION T1") {
        Some(Command::Session { token }) => assert_eq!(token, "T1"),
        _ => panic!("expected SESSION"),
    }
    match parse_command("SAVE") {
        Some(Command::Save) => {}
        _ => panic!("expected SAVE"),
    }
    match parse_command("FROB x") {
        Some(Command::Unknown) => {}
        _ => panic!("expected Unknown"),
    }
    assert!(parse_command("").is_none());
    assert!(parse_command("   \r\n").is_none());
}

#[test]
fn responses_are_framed_with_crlf() {
    assert_eq!(response_ok(), "OK\r\n");
    assert_eq!(response_ok_arg("alice"), "OK alice\r\n");
    assert_eq!(response_err("User not found."), "NG User not found.\r\n");
    assert_eq!(sessiond::protocol::response_error(), "ERROR\r\n");
}

#[test]
fn args_scan_finds_both_flags() {
    let args: Vec<String> = ["prog", "-sock", "/tmp/s.sock", "-dir", "/data"]
        .iter()
        .map(|s| s.to_string())
        .collect();
    let (sock, dir) = parse_args(&args);
    assert_eq!(sock, "/tmp/s.sock");
    assert_eq!(dir, "/data");
}

#[test]
fn args_scan_ignores_unknown_and_defaults_empty() {
    let args: Vec<String> = ["prog", "-verbose", "x"].iter().map(|s| s.to_string()).collect();
    let (sock, dir) = parse_args(&args);
    assert_eq!(sock, "");
    assert_eq!(dir, "");
    let args2: Vec<String> = ["prog", "-sock"].iter().map(|s| s.to_string()).collect();
    let (sock2, dir2) = parse_args(&args2);
    assert_eq!(sock2, "");
    assert_eq!(dir2, "");
    let args3: Vec<String> =
        ["p", "-sock", "a", "-sock", "b"].iter().map(|s| s.to_string()).collect();
    let (sock3, _) = parse_args(&args3);
    assert_eq!(sock3, "b");
}

#[test]
fn store_paths_follow_the_directory() {
    let m = SessionManager::new(String::from("/data"));
    assert_eq!(m.path_users_cdb, "/data/users.cdb");
    assert_eq!(m.path_users_old(), "/data/users.old");
    assert_eq!(m.path_users_new(), "/data/users.new");
    assert_eq!(m.path_users_tmp(), "/data/users.tmp");
    let bare = SessionManager::new(String::new());
    assert_eq!(bare.path_users_cdb, "users.cdb");
}
