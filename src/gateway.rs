use vstd::prelude::*;

use serde_json::Value;

use crate::forward::ForwardOutcome;
use crate::limiter::{admit_step, RateLimiter};
use crate::policy::{Allowlist, Credentials};

verus! {

/// Why a request ended without a tool result.
#[derive(Debug, Clone, Copy, PartialEq, Eq)]
pub enum Failure {
    /// No credential, or one that names no principal.
    Unauthorized,
    /// The principal may not invoke the tool.
    Forbidden,
    /// The principal's window is full.
    RateLimited,
    /// The tool service answered with a non-success status.
    ToolServerError,
    /// The tool service could not be reached.
    ToolServerUnreachable,
    /// The gateway's own deadline passed first.
    Timeout,
}

pub open spec fn status_of(f: Failure) -> u16 {
    match f {
        Failure::Unauthorized => 401,
        Failure::Forbidden => 403,
        Failure::RateLimited => 429,
        Failure::ToolServerError => 502,
        Failure::ToolServerUnreachable => 502,
        Failure::Timeout => 408,
    }
}

/// The gates refuse a request; the later failures come after it was allowed.
pub open spec fn decision_of(f: Failure) -> Decision {
    match f {
        Failure::Unauthorized | Failure::Forbidden | Failure::RateLimited => Decision::Deny,
        _ => Decision::Allow,
    }
}

impl Failure {
    /// HTTP status returned to the caller.
    pub fn status(&self) -> (r: u16)
        ensures
            r == status_of(*self),
    {
        match self {
            Failure::Unauthorized => 401,
            Failure::Forbidden => 403,
            Failure::RateLimited => 429,
            Failure::ToolServerError => 502,
            Failure::ToolServerUnreachable => 502,
            Failure::Timeout => 408,
        }
    }

    /// The coarse error kind shown to the caller.
    pub fn error_kind(&self) -> (r: &'static str)
        ensures
            *self == Failure::Unauthorized ==> r@ == "unauthorized"@,
            *self == Failure::Forbidden ==> r@ == "forbidden"@,
            *self == Failure::RateLimited ==> r@ == "rate_limited"@,
            *self == Failure::ToolServerError ==> r@ == "tool_server_error"@,
            *self == Failure::ToolServerUnreachable ==> r@ == "tool_server_unreachable"@,
            *self == Failure::Timeout ==> r@ == "request_timeout"@,
    {
        match self {
            Failure::Unauthorized => "unauthorized",
            Failure::Forbidden => "forbidden",
            Failure::RateLimited => "rate_limited",
            Failure::ToolServerError => "tool_server_error",
            Failure::ToolServerUnreachable => "tool_server_unreachable",
            Failure::Timeout => "request_timeout",
        }
    }

    /// The reason written to the audit record.
    pub fn deny_reason(&self) -> (r: &'static str)
        ensures
            *self == Failure::Unauthorized ==> r@ == "missing_or_invalid_token"@,
            *self == Failure::Forbidden ==> r@ == "tool_not_allowed"@,
            *self == Failure::RateLimited ==> r@ == "rate_limited"@,
            *self == Failure::ToolServerError ==> r@ == "tool_server_error"@,
            *self == Failure::ToolServerUnreachable ==> r@ == "tool_server_unreachable"@,
            *self == Failure::Timeout ==> r@ == "request_timeout"@,
    {
        match self {
            Failure::Unauthorized => "missing_or_invalid_token",
            Failure::Forbidden => "tool_not_allowed",
            Failure::RateLimited => "rate_limited",
            Failure::ToolServerError => "tool_server_error",
            Failure::ToolServerUnreachable => "tool_server_unreachable",
            Failure::Timeout => "request_timeout",
        }
    }
}

#[derive(Debug, Clone, Copy, PartialEq, Eq)]
pub enum Decision {
    Allow,
    Deny,
}

#[derive(Debug, Clone, Copy, PartialEq, Eq)]
pub enum Outcome {
    Success,
    Error,
}

/// The one record written for each request, once its disposition is known.
pub struct AuditRecord {
    pub request_id: String,
    /// The resolved principal, or `anonymous`.
    pub principal_id: String,
    pub tool_name: String,
    pub decision: Decision,
    pub outcome: Outcome,
    pub deny_reason: Option<Failure>,
    pub status: u16,
    pub latency_ms: u64,
}

/// Body of the caller-facing response.
pub enum ReplyBody {
    Failed { error: Failure, request_id: String },
    Done { request_id: String, tool_name: String, result: Value },
}

/// Response to one request together with its audit record.
pub struct Reply {
    pub status: u16,
    pub body: ReplyBody,
    pub audit: AuditRecord,
}

/// `r` answers a request with `f`, and its audit record says so.
pub open spec fn is_failure(
    r: Reply,
    f: Failure,
    request_id: Seq<char>,
    principal_id: Seq<char>,
    tool_name: Seq<char>,
    latency_ms: u64,
) -> bool {
    &&& r.status == status_of(f)
    &&& r.body matches ReplyBody::Failed { error, request_id: id } && error == f && id@
        == request_id
    &&& r.audit.request_id@ == request_id
    &&& r.audit.principal_id@ == principal_id
    &&& r.audit.tool_name@ == tool_name
    &&& r.audit.decision == decision_of(f)
    &&& r.audit.outcome == Outcome::Error
    &&& r.audit.deny_reason == Some(f)
    &&& r.audit.status == status_of(f)
    &&& r.audit.latency_ms == latency_ms
}

/// `r` hands the caller `result`, and its audit record says so.
pub open spec fn is_success(
    r: Reply,
    result: Value,
    request_id: Seq<char>,
    principal_id: Seq<char>,
    tool_name: Seq<char>,
    latency_ms: u64,
) -> bool {
    &&& r.status == 200
    &&& r.body matches ReplyBody::Done { request_id: id, tool_name: t, result: v } && id@
        == request_id && t@ == tool_name && v == result
    &&& r.audit.request_id@ == request_id
    &&& r.audit.principal_id@ == principal_id
    &&& r.audit.tool_name@ == tool_name
    &&& r.audit.decision == Decision::Allow
    &&& r.audit.outcome == Outcome::Success
    &&& r.audit.deny_reason.is_none()
    &&& r.audit.status == 200
    &&& r.audit.latency_ms == latency_ms
}

fn fail(
    f: Failure,
    request_id: String,
    principal_id: String,
    tool_name: String,
    latency_ms: u64,
) -> (r: Reply)
    ensures
        is_failure(r, f, request_id@, principal_id@, tool_name@, latency_ms),
{
    let decision = match f {
        Failure::Unauthorized | Failure::Forbidden | Failure::RateLimited => Decision::Deny,
        _ => Decision::Allow,
    };
    let audit = AuditRecord {
        request_id: request_id.clone(),
        principal_id,
        tool_name,
        decision,
        outcome: Outcome::Error,
        deny_reason: Some(f),
        status: f.status(),
        latency_ms,
    };
    Reply { status: f.status(), body: ReplyBody::Failed { error: f, request_id }, audit }
}

/// A request that passed every gate and awaits the tool service.
pub struct Pending {
    pub request_id: String,
    pub principal_id: String,
    pub tool_name: String,
}

impl Pending {
    /// The response, and its audit record, for what the tool service did.
    pub fn complete(self, outcome: ForwardOutcome, latency_ms: u64) -> (r: Reply)
        ensures
            match outcome {
                ForwardOutcome::Success { result, parsed: _ } => is_success(
                    r,
                    result,
                    self.request_id@,
                    self.principal_id@,
                    self.tool_name@,
                    latency_ms,
                ),
                ForwardOutcome::UpstreamError(_) => is_failure(
                    r,
                    Failure::ToolServerError,
                    self.request_id@,
                    self.principal_id@,
                    self.tool_name@,
                    latency_ms,
                ),
                ForwardOutcome::UpstreamUnreachable => is_failure(
                    r,
                    Failure::ToolServerUnreachable,
                    self.request_id@,
                    self.principal_id@,
                    self.tool_name@,
                    latency_ms,
                ),
            },
    {
        match outcome {
            ForwardOutcome::Success { result, parsed: _ } => {
                let audit = AuditRecord {
                    request_id: self.request_id.clone(),
                    principal_id: self.principal_id,
                    tool_name: self.tool_name.clone(),
                    decision: Decision::Allow,
                    outcome: Outcome::Success,
                    deny_reason: None,
                    status: 200,
                    latency_ms,
                };
                Reply {
                    status: 200,
                    body: ReplyBody::Done {
                        request_id: self.request_id,
                        tool_name: self.tool_name,
                        result,
                    },
                    audit,
                }
            },
            ForwardOutcome::UpstreamError(_) => fail(
                Failure::ToolServerError,
                self.request_id,
                self.principal_id,
                self.tool_name,
                latency_ms,
            ),
            ForwardOutcome::UpstreamUnreachable => fail(
                Failure::ToolServerUnreachable,
                self.request_id,
                self.principal_id,
                self.tool_name,
                latency_ms,
            ),
        }
    }

    /// The response, and its audit record, when the gateway's deadline passed
    /// before the tool service answered.
    pub fn expire(self, latency_ms: u64) -> (r: Reply)
        ensures
            is_failure(
                r,
                Failure::Timeout,
                self.request_id@,
                self.principal_id@,
                self.tool_name@,
                latency_ms,
            ),
    {
        fail(Failure::Timeout, self.request_id, self.principal_id, self.tool_name, latency_ms)
    }
}

/// What the gates decided for a request.
pub enum Admission {
    /// Refused at a gate; the reply is final.
    Rejected(Reply),
    /// Passed every gate; forward it, then complete it.
    Forward(Pending),
}

/// The credential that an `Authorization` header value carries after `Bearer `.
pub open spec fn bearer(header: Seq<char>) -> Option<Seq<char>> {
    if header.len() >= 7 && header.subrange(0, 7) == "Bearer "@ {
        Some(header.subrange(7, header.len() as int))
    } else {
        None
    }
}

/// The principal that an `Authorization` header value identifies in `tokens`.
pub open spec fn principal_for(
    tokens: Map<Seq<char>, Seq<char>>,
    authorization: Option<Seq<char>>,
) -> Option<Seq<char>> {
    match authorization {
        None => None,
        Some(h) => match bearer(h) {
            None => None,
            Some(t) => if tokens.contains_key(t) {
                Some(tokens[t])
            } else {
                None
            },
        },
    }
}

pub open spec fn view_opt(s: Option<&str>) -> Option<Seq<char>> {
    match s {
        None => None,
        Some(v) => Some(v@),
    }
}

/// The credential after `Bearer ` in an `Authorization` header value.
pub fn bearer_token(header: &str) -> (r: Option<String>)
    ensures
        match r {
            Some(t) => bearer(header@) == Some(t@),
            None => bearer(header@) is None,
        },
{
    let prefix = "Bearer ";
    proof {
        reveal_strlit("Bearer ");
    }
    let n = header.unicode_len();
    if n < 7 {
        return None;
    }
    let mut i: usize = 0;
    while i < 7
        invariant
            n == header@.len(),
            7 <= n,
            i <= 7,
            prefix@ == "Bearer "@,
            prefix@.len() == 7,
            forall|j: int| 0 <= j < i ==> header@[j] == prefix@[j],
        decreases 7 - i,
    {
        if header.get_char(i) != prefix.get_char(i) {
            assert(header@.subrange(0, 7)[i as int] != "Bearer "@[i as int]);
            return None;
        }
        i = i + 1;
    }
    assert(header@.subrange(0, 7) =~= "Bearer "@);
    Some(header.substring_char(7, n).to_owned())
}

/// Resolves the principal named by an `Authorization` header value. A missing
/// header, one without the `Bearer ` scheme and an unknown credential all give
/// `None`.
pub fn principal_id_from_authorization(credentials: &Credentials, authorization: Option<&str>) -> (r:
    Option<String>)
    ensures
        match r {
            Some(p) => principal_for(credentials@, view_opt(authorization)) == Some(p@),
            None => principal_for(credentials@, view_opt(authorization)) is None,
        },
{
    match authorization {
        None => None,
        Some(h) => match bearer_token(h) {
            None => None,
            Some(t) => credentials.resolve(t.as_str()),
        },
    }
}

/// The correlation identifier: the inbound `x-request-id` value when there is
/// one, else `fresh`.
pub fn request_id_from_header(header: Option<&str>, fresh: &str) -> (r: String)
    ensures
        r@ == match header {
            Some(h) => h@,
            None => fresh@,
        },
{
    match header {
        Some(h) => h.to_owned(),
        None => fresh.to_owned(),
    }
}

/// The gateway's decision pipeline: credential lookup, tool allowlist and
/// per-principal rate limit, in that order.
pub struct Gateway {
    credentials: Credentials,
    allowlist: Allowlist,
    limiter: RateLimiter,
}

impl Gateway {
    pub closed spec fn wf(&self) -> bool {
        self.limiter.wf()
    }

    pub closed spec fn tokens(&self) -> Map<Seq<char>, Seq<char>> {
        self.credentials@
    }

    pub closed spec fn allowed(&self) -> Map<Seq<char>, Set<Seq<char>>> {
        self.allowlist@
    }

    pub closed spec fn limit(&self) -> nat {
        self.limiter.limit()
    }

    pub closed spec fn window(&self, p: Seq<char>) -> Seq<u64> {
        self.limiter.window(p)
    }

    pub fn new(credentials: Credentials, allowlist: Allowlist, rate_limit_per_minute: usize) -> (r:
        Self)
        ensures
            r.wf(),
            r.tokens() == credentials@,
            r.allowed() == allowlist@,
            r.limit() == rate_limit_per_minute,
            forall|p: Seq<char>| r.window(p) == Seq::<u64>::empty(),
    {
        Gateway { credentials, allowlist, limiter: RateLimiter::new(rate_limit_per_minute) }
    }

    /// Number of calls held in `principal`'s window.
    pub fn window_len(&self, principal: &str) -> (r: usize)
        requires
            self.wf(),
        ensures
            r == self.window(principal@).len(),
    {
        self.limiter.window_len(principal)
    }

    /// Runs a request through the gates at time `now_ms`. A request refused at
    /// a gate gets its final reply; one that passes all three is to be
    /// forwarded. Only the rate-limit gate changes state, and only the window
    /// of the resolved principal.
    pub fn screen(
        &mut self,
        request_id: String,
        authorization: Option<&str>,
        tool_name: String,
        now_ms: u64,
        latency_ms: u64,
    ) -> (r: Admission)
        requires
            old(self).wf(),
        ensures
            final(self).wf(),
            final(self).tokens() == old(self).tokens(),
            final(self).allowed() == old(self).allowed(),
            final(self).limit() == old(self).limit(),
            match principal_for(old(self).tokens(), view_opt(authorization)) {
                None => {
                    &&& r matches Admission::Rejected(reply) && is_failure(
                        reply,
                        Failure::Unauthorized,
                        request_id@,
                        "anonymous"@,
                        tool_name@,
                        latency_ms,
                    )
                    &&& forall|q: Seq<char>| final(self).window(q) == old(self).window(q)
                },
                Some(p) => if !(old(self).allowed().contains_key(p) && old(self).allowed()[p].contains(
                    tool_name@,
                )) {
                    &&& r matches Admission::Rejected(reply) && is_failure(
                        reply,
                        Failure::Forbidden,
                        request_id@,
                        p,
                        tool_name@,
                        latency_ms,
                    )
                    &&& forall|q: Seq<char>| final(self).window(q) == old(self).window(q)
                } else {
                    let (w, admitted) = admit_step(old(self).window(p), now_ms, old(self).limit());
                    &&& final(self).window(p) == w
                    &&& forall|q: Seq<char>| q != p ==> final(self).window(q) == old(self).window(q)
                    &&& admitted ==> (r matches Admission::Forward(pending)
                        && pending.request_id@ == request_id@ && pending.principal_id@ == p
                        && pending.tool_name@ == tool_name@)
                    &&& !admitted ==> (r matches Admission::Rejected(reply) && is_failure(
                        reply,
                        Failure::RateLimited,
                        request_id@,
                        p,
                        tool_name@,
                        latency_ms,
                    ))
                }
            },
    {
        let principal = principal_id_from_authorization(&self.credentials, authorization);
        match principal {
            None => {
                let anonymous = "anonymous";
                proof {
                    reveal_strlit("anonymous");
                }
                Admission::Rejected(
                    fail(
                        Failure::Unauthorized,
                        request_id,
                        anonymous.to_owned(),
                        tool_name,
                        latency_ms,
                    ),
                )
            },
            Some(principal_id) => {
                if !self.allowlist.is_allowed(principal_id.as_str(), tool_name.as_str()) {
                    return Admission::Rejected(
                        fail(Failure::Forbidden, request_id, principal_id, tool_name, latency_ms),
                    );
                }
                if !self.limiter.try_admit(principal_id.as_str(), now_ms) {
                    return Admission::Rejected(
                        fail(Failure::RateLimited, request_id, principal_id, tool_name, latency_ms),
                    );
                }
                Admission::Forward(Pending { request_id, principal_id, tool_name })
            },
        }
    }
}

} // verus!
