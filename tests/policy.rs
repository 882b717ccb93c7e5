use latchkey::policy::{is_tool_allowed, parse_allowlist, parse_tokens, ConfigError};
use latchkey::BuildInfo;

#[test]
fn tokens_are_trimmed_and_keyed_by_token() {
    let t = parse_tokens(" agent-1 = tok-A ,, agent-2=tok-B, ").unwrap();
    assert_eq!(t.resolve("tok-A"), Some("agent-1".to_string()));
    assert_eq!(t.resolve("tok-B"), Some("agent-2".to_string()));
    assert_eq!(t.resolve("agent-1"), None);
    assert_eq!(t.resolve(" tok-A"), None);
}

#[test]
fn later_token_entry_wins() {
    let t = parse_tokens("a=tok,b=tok").unwrap();
    assert_eq!(t.resolve("tok"), Some("b".to_string()));
}

#[test]
fn token_value_keeps_later_equals_signs() {
    let t = parse_tokens("a=x=y").unwrap();
    assert_eq!(t.resolve("x=y"), Some("a".to_string()));
}

#[test]
fn token_entry_without_equals_is_rejected() {
    assert_eq!(parse_tokens("a=t,broken").err(), Some(ConfigError::MalformedTokenEntry));
    assert!(parse_tokens("").is_ok());
    assert!(parse_tokens(" , ,").is_ok());
}

#[test]
fn allowlist_membership_is_exact() {
    let a = parse_allowlist("agent-1=echo| demo.echo |,agent-2=").unwrap();
    assert!(is_tool_allowed(&a, "agent-1", "echo"));
    assert!(is_tool_allowed(&a, "agent-1", "demo.echo"));
    assert!(!is_tool_allowed(&a, "agent-1", "Echo"));
    assert!(!is_tool_allowed(&a, "agent-1", ""));
    assert!(!is_tool_allowed(&a, "agent-1", "demo"));
    assert!(!is_tool_allowed(&a, "agent-2", "echo"));
    assert!(!is_tool_allowed(&a, "agent-3", "echo"));
    assert!(!is_tool_allowed(&a, "agent-3", ""));
}

#[test]
fn later_allowlist_entry_replaces_earlier() {
    let a = parse_allowlist("p=x,p=y").unwrap();
    assert!(!a.is_allowed("p", "x"));
    assert!(a.is_allowed("p", "y"));
}

#[test]
fn allowlist_entry_without_equals_is_rejected() {
    assert_eq!(parse_allowlist("p=x,q").err(), Some(ConfigError::MalformedAllowlistEntry));
    assert!(parse_allowlist("").is_ok());
}

#[test]
fn unicode_white_space_is_trimmed() {
    let t = parse_tokens("\u{3000}a\u{a0}=\ttok\n").unwrap();
    assert_eq!(t.resolve("tok"), Some("a".to_string()));
}

#[test]
fn build_info_keeps_fields() {
    let b = BuildInfo::new("gateway", "0.1.0");
    assert_eq!(b.service, "gateway");
    assert_eq!(b.version, "0.1.0");
}
