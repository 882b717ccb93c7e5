use latchkey::forward::{classify, ForwardOutcome, UpstreamReply};
use latchkey::gateway::{
    bearer_token, principal_id_from_authorization, request_id_from_header, Admission, Decision,
    Failure, Gateway, Outcome, Pending, Reply, ReplyBody,
};
use latchkey::policy::{parse_allowlist, parse_tokens};
use serde_json::Value;

fn demo_gateway(limit: usize) -> Gateway {
    let tokens = parse_tokens("agent-1=tok-A").unwrap();
    let allowlist = parse_allowlist("agent-1=echo").unwrap();
    Gateway::new(tokens, allowlist, limit)
}

fn ok_body() -> Vec<u8> {
    b"{\"echo\":\"hi\"}".to_vec()
}

fn forwarded(a: Admission) -> Pending {
    match a {
        Admission::Forward(p) => p,
        Admission::Rejected(r) => panic!("rejected with status {}", r.status),
    }
}

fn rejected(a: Admission) -> Reply {
    match a {
        Admission::Rejected(r) => r,
        Admission::Forward(_) => panic!("request was forwarded"),
    }
}

fn error_of(r: &Reply) -> (&'static str, String) {
    match &r.body {
        ReplyBody::Failed { error, request_id } => (error.error_kind(), request_id.clone()),
        ReplyBody::Done { .. } => panic!("reply carries a result"),
    }
}

fn succeed(p: Pending) -> Reply {
    let outcome = classify(UpstreamReply::Responded { status: 200, body: ok_body() });
    p.complete(outcome, 3)
}

#[test]
fn rate_limit_scenario() {
    let mut g = demo_gateway(2);
    let auth = Some("Bearer tok-A");

    let r1 = succeed(forwarded(g.screen("r1".to_string(), auth, "echo".to_string(), 0, 1)));
    assert_eq!(r1.status, 200);
    assert_eq!(g.window_len("agent-1"), 1);

    let r2 = succeed(forwarded(g.screen("r2".to_string(), auth, "echo".to_string(), 1_000, 1)));
    assert_eq!(r2.status, 200);
    assert_eq!(g.window_len("agent-1"), 2);

    let r3 = rejected(g.screen("r3".to_string(), auth, "echo".to_string(), 2_000, 1));
    assert_eq!(r3.status, 429);
    assert_eq!(error_of(&r3), ("rate_limited", "r3".to_string()));
    assert_eq!(r3.audit.deny_reason.unwrap().deny_reason(), "rate_limited");
    assert_eq!(g.window_len("agent-1"), 2);

    let r4 = succeed(forwarded(g.screen("r4".to_string(), auth, "echo".to_string(), 62_000, 1)));
    assert_eq!(r4.status, 200);
    assert_eq!(g.window_len("agent-1"), 1);
}

#[test]
fn forbidden_tool_leaves_window_alone() {
    let mut g = demo_gateway(2);
    let r = rejected(g.screen("r1".to_string(), Some("Bearer tok-A"), "other".to_string(), 0, 4));
    assert_eq!(r.status, 403);
    assert_eq!(error_of(&r), ("forbidden", "r1".to_string()));
    assert_eq!(g.window_len("agent-1"), 0);
    assert_eq!(r.audit.principal_id, "agent-1");
    assert_eq!(r.audit.decision, Decision::Deny);
    assert_eq!(r.audit.deny_reason, Some(Failure::Forbidden));
    assert_eq!(r.audit.deny_reason.unwrap().deny_reason(), "tool_not_allowed");
    assert_eq!(r.audit.latency_ms, 4);
}

#[test]
fn missing_authorization_is_unauthorized() {
    let mut g = demo_gateway(2);
    let r = rejected(g.screen("r1".to_string(), None, "echo".to_string(), 0, 0));
    assert_eq!(r.status, 401);
    assert_eq!(error_of(&r), ("unauthorized", "r1".to_string()));
    assert_eq!(r.audit.principal_id, "anonymous");
    assert_eq!(r.audit.status, 401);
    assert_eq!(r.audit.deny_reason.unwrap().deny_reason(), "missing_or_invalid_token");
}

#[test]
fn unknown_or_malformed_credentials_are_unauthorized() {
    let mut g = demo_gateway(2);
    for auth in ["Bearer tok-B", "tok-A", "bearer tok-A", "Basic tok-A", "Bearer  tok-A"] {
        let r = rejected(g.screen("r".to_string(), Some(auth), "echo".to_string(), 0, 0));
        assert_eq!(r.status, 401);
        assert_eq!(r.audit.principal_id, "anonymous");
    }
    assert_eq!(g.window_len("agent-1"), 0);
}

#[test]
fn upstream_error_is_bad_gateway() {
    let mut g = demo_gateway(2);
    let p = forwarded(g.screen("r1".to_string(), Some("Bearer tok-A"), "echo".to_string(), 0, 0));
    let outcome = classify(UpstreamReply::Responded { status: 500, body: ok_body() });
    assert!(matches!(outcome, ForwardOutcome::UpstreamError(500)));
    let r = p.complete(outcome, 9);
    assert_eq!(r.status, 502);
    assert_eq!(error_of(&r), ("tool_server_error", "r1".to_string()));
    assert_eq!(r.audit.decision, Decision::Allow);
    assert_eq!(r.audit.outcome, Outcome::Error);
    assert_eq!(r.audit.latency_ms, 9);
}

#[test]
fn unreachable_upstream_is_bad_gateway() {
    let mut g = demo_gateway(2);
    let p = forwarded(g.screen("r1".to_string(), Some("Bearer tok-A"), "echo".to_string(), 0, 0));
    let r = p.complete(classify(UpstreamReply::Unreachable), 0);
    assert_eq!(r.status, 502);
    assert_eq!(error_of(&r), ("tool_server_unreachable", "r1".to_string()));
    assert_eq!(r.audit.deny_reason, Some(Failure::ToolServerUnreachable));
}

#[test]
fn deadline_gives_request_timeout() {
    let mut g = demo_gateway(2);
    let p = forwarded(g.screen("r1".to_string(), Some("Bearer tok-A"), "echo".to_string(), 0, 0));
    let r = p.expire(5_000);
    assert_eq!(r.status, 408);
    assert_eq!(error_of(&r), ("request_timeout", "r1".to_string()));
    assert_eq!(r.audit.status, 408);
}

#[test]
fn success_carries_parsed_result() {
    let mut g = demo_gateway(2);
    let p = forwarded(g.screen("r1".to_string(), Some("Bearer tok-A"), "echo".to_string(), 0, 0));
    let r = succeed(p);
    let expected: Value = serde_json::from_str("{\"echo\":\"hi\"}").unwrap();
    match &r.body {
        ReplyBody::Done { request_id, tool_name, result } => {
            assert_eq!(request_id, "r1");
            assert_eq!(tool_name, "echo");
            assert_eq!(result, &expected);
        }
        ReplyBody::Failed { .. } => panic!("expected a result"),
    }
    assert_eq!(r.audit.outcome, Outcome::Success);
    assert_eq!(r.audit.deny_reason, None);
    assert_eq!(r.audit.tool_name, "echo");
}

#[test]
fn unparseable_success_body_gets_placeholder() {
    let outcome = classify(UpstreamReply::Responded { status: 204, body: b"not json".to_vec() });
    let expected: Value = serde_json::from_str("{\"status\":\"ok\"}").unwrap();
    match outcome {
        ForwardOutcome::Success { result, parsed } => {
            assert!(!parsed);
            assert_eq!(result, expected);
        }
        _ => panic!("expected success"),
    }
}

#[test]
fn redirect_status_is_an_upstream_error() {
    let outcome = classify(UpstreamReply::Responded { status: 302, body: Vec::new() });
    assert!(matches!(outcome, ForwardOutcome::UpstreamError(302)));
    let outcome = classify(UpstreamReply::Responded { status: 299, body: b"[1, 2]".to_vec() });
    assert!(matches!(outcome, ForwardOutcome::Success { parsed: true, .. }));
}

#[test]
fn bearer_prefix_is_exact() {
    assert_eq!(bearer_token("Bearer abc"), Some("abc".to_string()));
    assert_eq!(bearer_token("Bearer "), Some(String::new()));
    assert_eq!(bearer_token("Bearer"), None);
    assert_eq!(bearer_token("bearer abc"), None);
}

#[test]
fn principal_lookup_is_exact() {
    let tokens = parse_tokens("agent-1=tok-A,agent-2=tok-b").unwrap();
    assert_eq!(
        principal_id_from_authorization(&tokens, Some("Bearer tok-A")),
        Some("agent-1".to_string())
    );
    assert_eq!(principal_id_from_authorization(&tokens, Some("Bearer tok-a")), None);
    assert_eq!(principal_id_from_authorization(&tokens, Some("Bearer tok-B")), None);
    assert_eq!(principal_id_from_authorization(&tokens, None), None);
}

#[test]
fn request_id_is_propagated_or_fresh() {
    assert_eq!(request_id_from_header(Some("abc-1"), "fresh"), "abc-1");
    assert_eq!(request_id_from_header(None, "fresh"), "fresh");
}

#[test]
fn failure_statuses() {
    assert_eq!(Failure::Unauthorized.status(), 401);
    assert_eq!(Failure::Forbidden.status(), 403);
    assert_eq!(Failure::RateLimited.status(), 429);
    assert_eq!(Failure::ToolServerError.status(), 502);
    assert_eq!(Failure::ToolServerUnreachable.status(), 502);
    assert_eq!(Failure::Timeout.status(), 408);
}

#[test]
fn principals_do_not_share_windows() {
    let tokens = parse_tokens("a=ta,b=tb").unwrap();
    let allowlist = parse_allowlist("a=echo,b=echo").unwrap();
    let mut g = Gateway::new(tokens, allowlist, 1);
    forwarded(g.screen("1".to_string(), Some("Bearer ta"), "echo".to_string(), 0, 0));
    forwarded(g.screen("2".to_string(), Some("Bearer tb"), "echo".to_string(), 0, 0));
    rejected(g.screen("3".to_string(), Some("Bearer ta"), "echo".to_string(), 10, 0));
    assert_eq!(g.window_len("a"), 1);
    assert_eq!(g.window_len("b"), 1);
}
