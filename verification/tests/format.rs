use bot_core::codec::parse_config;
use bot_core::codec::render_config;
use bot_core::config::ConfigData;
use bot_core::text::unescape_newlines;

#[test]
fn parse_empty_object() {
    let c = parse_config(b"{}").unwrap();
    assert_eq!(c.log_channel, None);
    assert_eq!(c.boost_channel, None);
}

#[test]
fn parse_single_log_member() {
    let c = parse_config(b"{\"log_channel\":5}").unwrap();
    assert_eq!(c.log_channel, Some(5));
    assert_eq!(c.boost_channel, None);
}

#[test]
fn parse_single_boost_member() {
    let c = parse_config(b"{\"boost_channel\":6}").unwrap();
    assert_eq!(c.log_channel, None);
    assert_eq!(c.boost_channel, Some(6));
}

#[test]
fn parse_null_values() {
    let c = parse_config(b"{\"log_channel\":null,\"boost_channel\":null}").unwrap();
    assert_eq!(c.log_channel, None);
    assert_eq!(c.boost_channel, None);
}

#[test]
fn parse_whitespace_and_reversed_order() {
    let c = parse_config(b" {\t\"boost_channel\" : 7 ,\n \"log_channel\" : 42 } ").unwrap();
    assert_eq!(c.log_channel, Some(42));
    assert_eq!(c.boost_channel, Some(7));
}

#[test]
fn parse_pretty_printed_document() {
    let bytes = b"{\n  \"log_channel\": 123456789012345678,\n  \"boost_channel\": null\n}";
    let c = parse_config(bytes).unwrap();
    assert_eq!(c.log_channel, Some(123456789012345678));
    assert_eq!(c.boost_channel, None);
}

#[test]
fn reject_duplicate_member() {
    assert!(parse_config(b"{\"log_channel\":1,\"log_channel\":2}").is_none());
}

#[test]
fn reject_unknown_member() {
    assert!(parse_config(b"{\"other\":1}").is_none());
}

#[test]
fn reject_trailing_garbage() {
    assert!(parse_config(b"{} x").is_none());
    assert!(parse_config(b"{\"log_channel\":1}{}").is_none());
}

#[test]
fn reject_leading_zero() {
    assert!(parse_config(b"{\"log_channel\":042}").is_none());
    let c = parse_config(b"{\"log_channel\":0}").unwrap();
    assert_eq!(c.log_channel, Some(0));
}

#[test]
fn reject_number_overflow() {
    assert!(parse_config(b"{\"log_channel\":18446744073709551616}").is_none());
}

#[test]
fn accept_u64_max() {
    let c = parse_config(b"{\"log_channel\":18446744073709551615}").unwrap();
    assert_eq!(c.log_channel, Some(u64::MAX));
}

#[test]
fn reject_negative_number() {
    assert!(parse_config(b"{\"log_channel\":-1}").is_none());
}

#[test]
fn reject_empty_and_bare_values() {
    assert!(parse_config(b"").is_none());
    assert!(parse_config(b"   ").is_none());
    assert!(parse_config(b"null").is_none());
    assert!(parse_config(b"42").is_none());
}

#[test]
fn reject_missing_brace() {
    assert!(parse_config(b"{\"log_channel\":1").is_none());
    assert!(parse_config(b"\"log_channel\":1}").is_none());
}

#[test]
fn render_both_members_always() {
    let c = ConfigData { log_channel: None, boost_channel: Some(3) };
    assert_eq!(render_config(&c), b"{\"log_channel\":null,\"boost_channel\":3}".to_vec());
}

#[test]
fn unescape_expands_pairs() {
    let out = unescape_newlines(b"line one\\nline two");
    assert_eq!(out, b"line one\nline two".to_vec());
}

#[test]
fn unescape_leaves_plain_text() {
    let out = unescape_newlines(b"no escapes here");
    assert_eq!(out, b"no escapes here".to_vec());
}

#[test]
fn unescape_scans_left_to_right() {
    let out = unescape_newlines(b"a\\\\nb");
    assert_eq!(out, b"a\\\nb".to_vec());
    let out2 = unescape_newlines(b"\\n\\n");
    assert_eq!(out2, b"\n\n".to_vec());
    let out3 = unescape_newlines(b"\\");
    assert_eq!(out3, b"\\".to_vec());
}
