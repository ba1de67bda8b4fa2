use pueue_bridge::launch::{parse_health_status, parse_launch_args};
use pueue_bridge::text::{i64_to_string, parse_u64, str_le, trim_str, u64_to_string};

#[test]
fn decimal_rendering_is_exact() {
    assert_eq!(u64_to_string(0), "0");
    assert_eq!(u64_to_string(12345), "12345");
    assert_eq!(u64_to_string(u64::MAX), "18446744073709551615");
    assert_eq!(i64_to_string(-42), "-42");
    assert_eq!(i64_to_string(7), "7");
    assert_eq!(i64_to_string(i64::MIN), "-9223372036854775808");
}

#[test]
fn parsing_accepts_what_std_accepts() {
    assert_eq!(parse_u64("25"), Some(25));
    assert_eq!(parse_u64("+7"), Some(7));
    assert_eq!(parse_u64(""), None);
    assert_eq!(parse_u64("+"), None);
    assert_eq!(parse_u64("12a"), None);
    assert_eq!(parse_u64("18446744073709551615"), Some(u64::MAX));
    assert_eq!(parse_u64("18446744073709551616"), None);
    assert_eq!("25".parse::<u64>().ok(), parse_u64("25"));
    assert_eq!("+7".parse::<u64>().ok(), parse_u64("+7"));
}

#[test]
fn trimming_matches_std() {
    assert_eq!(trim_str("  spaced out \t\n"), "spaced out");
    assert_eq!(trim_str("solid"), "solid");
    assert_eq!(trim_str(" \u{a0} \u{3000} "), "");
    assert_eq!(trim_str("  x "), "  x ".trim());
}

#[test]
fn byte_order_matches_string_order() {
    assert!(str_le("10", "2"));
    assert!(!str_le("2", "10"));
    assert!(str_le("abc", "abc"));
    assert!(str_le("ab", "abc"));
    assert_eq!(str_le("10", "2"), "10" <= "2");
}

#[test]
fn health_status_reads_the_second_word() {
    assert_eq!(parse_health_status("HTTP/1.1 200 OK\r\nServer: x\r\n"), Some(200));
    assert_eq!(parse_health_status("HTTP/1.1 404 Not Found"), Some(404));
    assert_eq!(parse_health_status("HTTP/1.1 70000 Strange"), None);
    assert_eq!(parse_health_status("garbage"), None);
    assert_eq!(parse_health_status(""), None);
}

#[test]
fn launch_arguments_fold_left_to_right() {
    let words = vec![
        "--daemonize".to_string(),
        "--host".to_string(),
        "0.0.0.0:9000".to_string(),
        "--pid-file".to_string(),
        "/tmp/bridge.pid".to_string(),
        "stray".to_string(),
    ];
    let parsed = parse_launch_args(&words);
    assert!(parsed.daemonize);
    assert_eq!(parsed.host, Some("0.0.0.0:9000".to_string()));
    assert_eq!(parsed.pid_file, Some("/tmp/bridge.pid".to_string()));
}

#[test]
fn trailing_flag_without_value_is_ignored() {
    let words = vec!["--host".to_string()];
    let parsed = parse_launch_args(&words);
    assert!(!parsed.daemonize);
    assert_eq!(parsed.host, None);
}
