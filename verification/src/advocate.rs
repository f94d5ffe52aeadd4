//! The opt-in rewrite advocate: redacted rewrite requests, the prompt, the
//! deterministic stub provider, and the request/reply handling of the live providers.
//!
//! A request carries only an evidence id, the evidence text and the requirement — no
//! personal data. A provider's rewrite must cite the evidence id it was given; the
//! evidence-ledger guard re-checks every cited id. The live providers' HTTP exchange
//! happens outside the library, which builds their request bodies and reads their
//! replies.

use crate::cvimport::mine_json::{lc_get_spec, JsonValue};
use crate::text::{chars_of, eq_ignore_ascii_case, eq_ignore_ascii_case_spec, trim, trim_string};
use crate::types::Achievement;
use vstd::prelude::*;

verus! {

/// What a rewrite is for.
#[derive(Debug, Clone, Copy, PartialEq, Eq, Structural)]
pub enum RewriteKind {
    CvBullet,
    CoverLetterStrength,
}

/// A redacted rewrite request.
#[derive(Debug, Clone, PartialEq, Eq)]
pub struct RewriteRequest {
    pub evidence_id: String,
    pub evidence_text: String,
    pub requirement: String,
    pub kind: RewriteKind,
}

/// A provider's rewrite, citing the evidence id it rewrote.
#[derive(Debug, Clone, PartialEq, Eq)]
pub struct RewriteResponse {
    pub rewritten_text: String,
    pub cited_evidence_id: String,
}

/// The errors of a rewrite.
#[derive(Debug, PartialEq, Eq)]
pub enum AdvocateError {
    Unreachable(String),
    Malformed(String),
    InsecureEndpoint(String),
}

/// The display text of an advocate error.
pub open spec fn advocate_error_message(e: AdvocateError) -> Seq<char> {
    match e {
        AdvocateError::Unreachable(d) => "advocate provider unreachable: "@ + d@,
        AdvocateError::Malformed(d) => "advocate provider returned a malformed response: "@ + d@,
        AdvocateError::InsecureEndpoint(d) => "advocate endpoint must use https (got: "@ + d@ + ")"@,
    }
}

impl AdvocateError {
    /// The human-readable message of this error.
    pub fn message(&self) -> (r: String)
        ensures
            r@ == advocate_error_message(*self),
    {
        match self {
            AdvocateError::Unreachable(d) => {
                let mut s = String::from_str("advocate provider unreachable: ");
                s.append(d.as_str());
                s
            },
            AdvocateError::Malformed(d) => {
                let mut s = String::from_str("advocate provider returned a malformed response: ");
                s.append(d.as_str());
                s
            },
            AdvocateError::InsecureEndpoint(d) => {
                let mut s = String::from_str("advocate endpoint must use https (got: ");
                s.append(d.as_str());
                s.append(")");
                s
            },
        }
    }
}

/// A rewrite provider.
pub trait AdvocateProvider {
    /// Rewrite the evidence of `req` toward its requirement.
    fn rewrite(&self, req: &RewriteRequest) -> Result<RewriteResponse, AdvocateError>;

    /// The provider's name.
    fn name(&self) -> &'static str;
}

/// Whether the advocate is switched on (off by default).
#[derive(Debug, Clone, PartialEq, Eq)]
pub struct AdvocateConfig {
    pub enabled: bool,
}

impl Default for AdvocateConfig {
    fn default() -> (r: AdvocateConfig)
        ensures
            !r.enabled,
    {
        AdvocateConfig { enabled: false }
    }
}

// ── the prompt ───────────────────────────────────────────────────────────────────

pub open spec fn kind_label(k: RewriteKind) -> Seq<char> {
    match k {
        RewriteKind::CvBullet => "CV bullet point"@,
        RewriteKind::CoverLetterStrength => "cover-letter strength paragraph"@,
    }
}

/// The rewrite prompt: the instruction, then the requirement and the evidence.
pub open spec fn prompt_spec(req: RewriteRequest) -> Seq<char> {
    "Rewrite the following "@ + kind_label(req.kind)
        + " to better address the requirement, using ONLY the facts present in the evidence. Do not invent achievements, metrics, employers, or dates. Keep it truthful and concise.\nRequirement: "@
        + req.requirement@ + "\nEvidence: "@ + req.evidence_text@ + "\n"@
}

/// The prompt for a request: only the evidence text and the requirement go out.
pub fn build_prompt(req: &RewriteRequest) -> (r: String)
    ensures
        r@ == prompt_spec(*req),
{
    let kind = match req.kind {
        RewriteKind::CvBullet => "CV bullet point",
        RewriteKind::CoverLetterStrength => "cover-letter strength paragraph",
    };
    let mut s = String::from_str("Rewrite the following ");
    s.append(kind);
    s.append(
        " to better address the requirement, using ONLY the facts present in the evidence. Do not invent achievements, metrics, employers, or dates. Keep it truthful and concise.\nRequirement: ",
    );
    s.append(req.requirement.as_str());
    s.append("\nEvidence: ");
    s.append(req.evidence_text.as_str());
    s.append("\n");
    s
}

/// The JSON body a live provider posts: the model, the prompt, and for Ollama the
/// `stream` flag (absent from the keyed provider's body).
#[derive(Debug, Clone)]
pub struct GenerateRequest {
    pub model: String,
    pub prompt: String,
    pub stream: Option<bool>,
}

/// The redacted request for rewriting an achievement as a CV bullet.
pub fn redact(achievement: &Achievement, requirement: &str) -> (r: RewriteRequest)
    ensures
        r.evidence_id@ == achievement.id@,
        r.evidence_text@ == achievement.description@,
        r.requirement@ == requirement@,
        r.kind == RewriteKind::CvBullet,
{
    redact_kind(achievement, requirement, RewriteKind::CvBullet)
}

/// The redacted request for rewriting an achievement: its id and description only.
pub fn redact_kind(achievement: &Achievement, requirement: &str, kind: RewriteKind) -> (r: RewriteRequest)
    ensures
        r.evidence_id@ == achievement.id@,
        r.evidence_text@ == achievement.description@,
        r.requirement@ == requirement@,
        r.kind == kind,
{
    RewriteRequest {
        evidence_id: achievement.id.clone(),
        evidence_text: achievement.description.clone(),
        requirement: String::from_str(requirement),
        kind,
    }
}

// ── the stub provider ────────────────────────────────────────────────────────────

/// The deterministic offline provider; the fabricating one cites an id that resolves
/// nowhere, to exercise the guard.
#[derive(Debug, Clone)]
pub struct StubProvider {
    fabricated_id: Option<String>,
}

impl StubProvider {
    pub closed spec fn spec_fabricated(&self) -> Option<Seq<char>> {
        match self.fabricated_id {
            Some(s) => Some(s@),
            None => None,
        }
    }

    /// The honest stub: cites the id it was given.
    pub fn new() -> (r: StubProvider)
        ensures
            r.spec_fabricated() is None,
    {
        StubProvider { fabricated_id: None }
    }

    /// The fabricating stub: cites `FABRICATED_evidence_id`.
    pub fn fabricating() -> (r: StubProvider)
        ensures
            r.spec_fabricated() == Some("FABRICATED_evidence_id"@),
    {
        StubProvider { fabricated_id: Some(String::from_str("FABRICATED_evidence_id")) }
    }

    /// The stub's rewrite: `Demonstrated impact: <evidence>`, citing the request's id
    /// (or the fabricated one).
    pub fn stub_rewrite(&self, req: &RewriteRequest) -> (r: RewriteResponse)
        ensures
            r.rewritten_text@ == "Demonstrated impact: "@ + req.evidence_text@,
            r.cited_evidence_id@ == match self.spec_fabricated() {
                Some(f) => f,
                None => req.evidence_id@,
            },
    {
        let cited = match &self.fabricated_id {
            Some(f) => f.clone(),
            None => req.evidence_id.clone(),
        };
        let mut text = String::from_str("Demonstrated impact: ");
        text.append(req.evidence_text.as_str());
        RewriteResponse { rewritten_text: text, cited_evidence_id: cited }
    }
}

impl AdvocateProvider for StubProvider {
    /// Always succeeds with the stub's rewrite of the request.
    fn rewrite(&self, req: &RewriteRequest) -> (r: Result<RewriteResponse, AdvocateError>)
        ensures
            r matches Ok(resp) && resp.rewritten_text@ == "Demonstrated impact: "@ + req.evidence_text@
                && resp.cited_evidence_id@ == match self.spec_fabricated() {
                Some(f) => f,
                None => req.evidence_id@,
            },
    {
        Ok(self.stub_rewrite(req))
    }

    /// The name `stub`.
    fn name(&self) -> (r: &'static str)
        ensures
            r@ == "stub"@,
    {
        "stub"
    }
}

// ── the live providers ───────────────────────────────────────────────────────────

/// The scheme of an endpoint is `https` (any case).
pub open spec fn is_https_spec(endpoint: Seq<char>) -> bool {
    match crate::jobparse::find_from(endpoint, "://"@, 0) {
        Some(i) => eq_ignore_ascii_case_spec(endpoint.take(i as int), "https"@),
        None => false,
    }
}

/// Whether an endpoint uses https.
pub fn is_https(endpoint: &str) -> (r: bool)
    ensures
        r == is_https_spec(endpoint@),
{
    let v = chars_of(endpoint);
    let sep = chars_of("://");
    let https = chars_of("https");
    proof {
        crate::jobparse::lemma_find_from_bounds(v@, sep@, 0);
    }
    match crate::jobparse::find_at(&v, &sep, 0) {
        Some(i) => {
            let scheme = crate::text::slice_vec(&v, 0, i);
            assert(v@.subrange(0, i as int) =~= v@.take(i as int));
            eq_ignore_ascii_case(&scheme, &https)
        },
        None => false,
    }
}

/// The local Ollama provider.
#[derive(Debug, Clone)]
pub struct OllamaProvider {
    model: String,
}

impl OllamaProvider {
    pub closed spec fn spec_model(&self) -> Seq<char> {
        self.model@
    }

    /// A provider for this model.
    pub fn new(model: &str) -> (r: OllamaProvider)
        ensures
            r.spec_model() == model@,
    {
        OllamaProvider { model: String::from_str(model) }
    }

    /// The model name.
    pub fn model(&self) -> (r: &String)
        ensures
            r@ == self.spec_model(),
    {
        &self.model
    }

    /// The loopback endpoint.
    pub fn endpoint() -> (r: &'static str)
        ensures
            r@ == "http://localhost:11434/api/generate"@,
    {
        "http://localhost:11434/api/generate"
    }

    /// The body posted for a request: this model, the request's prompt, and streaming
    /// off.
    pub fn request(&self, req: &RewriteRequest) -> (r: GenerateRequest)
        ensures
            r.model@ == self.spec_model(),
            r.prompt@ == prompt_spec(*req),
            r.stream == Some(false),
    {
        GenerateRequest { model: self.model.clone(), prompt: build_prompt(req), stream: Some(false) }
    }

    /// The provider's name.
    pub fn name(&self) -> (r: &'static str)
        ensures
            r@ == "ollama"@,
    {
        "ollama"
    }
}

/// A keyed HTTPS provider. Its key never appears in its debug rendering.
#[derive(Clone)]
pub struct HttpKeyProvider {
    endpoint: String,
    api_key: String,
    model: String,
}

impl HttpKeyProvider {
    pub closed spec fn spec_endpoint(&self) -> Seq<char> {
        self.endpoint@
    }

    pub closed spec fn spec_api_key(&self) -> Seq<char> {
        self.api_key@
    }

    pub closed spec fn spec_model(&self) -> Seq<char> {
        self.model@
    }

    /// A provider for an https endpoint; any other endpoint is `InsecureEndpoint`.
    pub fn new(endpoint: &str, api_key: &str, model: &str) -> (r: Result<HttpKeyProvider, AdvocateError>)
        ensures
            match r {
                Ok(p) => is_https_spec(endpoint@) && p.spec_endpoint() == endpoint@ && p.spec_api_key() == api_key@
                    && p.spec_model() == model@,
                Err(e) => !is_https_spec(endpoint@) && (e matches AdvocateError::InsecureEndpoint(d) && d@ == endpoint@),
            },
    {
        if !is_https(endpoint) {
            return Err(AdvocateError::InsecureEndpoint(String::from_str(endpoint)));
        }
        Ok(HttpKeyProvider {
            endpoint: String::from_str(endpoint),
            api_key: String::from_str(api_key),
            model: String::from_str(model),
        })
    }

    /// The endpoint.
    pub fn endpoint(&self) -> (r: &String)
        ensures
            r@ == self.spec_endpoint(),
    {
        &self.endpoint
    }

    /// The model name.
    pub fn model(&self) -> (r: &String)
        ensures
            r@ == self.spec_model(),
    {
        &self.model
    }

    /// The `Authorization` header value: `Bearer <key>`.
    pub fn authorization(&self) -> (r: String)
        ensures
            r@ == "Bearer "@ + self.spec_api_key(),
    {
        let mut s = String::from_str("Bearer ");
        s.append(self.api_key.as_str());
        s
    }

    /// The body posted for a request: this model and the request's prompt, nothing
    /// else (no key: that travels in the `Authorization` header).
    pub fn request(&self, req: &RewriteRequest) -> (r: GenerateRequest)
        ensures
            r.model@ == self.spec_model(),
            r.prompt@ == prompt_spec(*req),
            r.stream is None,
    {
        GenerateRequest { model: self.model.clone(), prompt: build_prompt(req), stream: None }
    }

    /// The provider's name.
    pub fn name(&self) -> (r: &'static str)
        ensures
            r@ == "http-key"@,
    {
        "http-key"
    }

    /// The debug rendering: endpoint and model shown, the key as `<redacted>`.
    pub fn debug_repr(&self) -> (r: String)
        ensures
            r@ == "HttpKeyProvider { endpoint: "@ + debug_quoted(self.spec_endpoint()) + ", api_key: "@ + debug_quoted(
                "<redacted>"@,
            ) + ", model: "@ + debug_quoted(self.spec_model()) + " }"@,
    {
        let mut s = String::from_str("HttpKeyProvider { endpoint: ");
        s.append(debug_string(self.endpoint.as_str()).as_str());
        s.append(", api_key: ");
        s.append(debug_string("<redacted>").as_str());
        s.append(", model: ");
        s.append(debug_string(self.model.as_str()).as_str());
        s.append(" }");
        s
    }
}

/// What `{:?}` renders for a string: quoted, with escapes.
pub uninterp spec fn debug_quoted(s: Seq<char>) -> Seq<char>;

/// `<str as Debug>::fmt` through `format!("{:?}")`: the quoted, escaped rendering.
#[verifier::external_body]
fn debug_string(s: &str) -> (r: String)
    ensures
        r@ == debug_quoted(s@),
{
    format!("{:?}", s)
}

// ── replies ──────────────────────────────────────────────────────────────────────

/// The member of an object with exactly this key (a JSON object's keys are unique).
pub open spec fn get_spec(v: JsonValue, key: Seq<char>) -> Option<JsonValue> {
    match v {
        JsonValue::Object(es) => exact_from(es@, key, 0),
        _ => None,
    }
}

pub open spec fn exact_from(es: Seq<(String, JsonValue)>, key: Seq<char>, from: nat) -> Option<JsonValue>
    decreases es.len() - from,
{
    if from >= es.len() {
        None
    } else if es[from as int].0@ == key {
        Some(es[from as int].1)
    } else {
        exact_from(es, key, from + 1)
    }
}

fn get_key<'a>(v: &'a JsonValue, key: &str) -> (r: Option<&'a JsonValue>)
    ensures
        match r {
            Some(x) => get_spec(*v, key@) == Some(*x),
            None => get_spec(*v, key@) is None,
        },
{
    match v {
        JsonValue::Object(es) => {
            let mut i: usize = 0;
            while i < es.len()
                invariant
                    i <= es@.len(),
                    get_spec(*v, key@) == exact_from(es@, key@, 0),
                    exact_from(es@, key@, 0) == exact_from(es@, key@, i as nat),
                decreases es@.len() - i,
            {
                if crate::text::str_eq(es[i].0.as_str(), key) {
                    return Some(&es[i].1);
                }
                i += 1;
            }
            None
        },
        _ => None,
    }
}

/// The `text` of the first of `choices`.
pub open spec fn choices_text(reply: JsonValue) -> Option<Seq<char>> {
    match get_spec(reply, "choices"@) {
        Some(JsonValue::Array(items)) => if items@.len() > 0 {
            match get_spec(items@[0], "text"@) {
                Some(JsonValue::String(s)) => Some(s@),
                _ => None,
            }
        } else {
            None
        },
        _ => None,
    }
}

/// The rewritten text of a provider reply: the `response` string or, when choices are
/// allowed (the keyed provider), the `text` of the first of `choices`; trimmed.
pub open spec fn reply_text(reply: JsonValue, allow_choices: bool) -> Option<Seq<char>> {
    match get_spec(reply, "response"@) {
        Some(JsonValue::String(s)) => Some(trim(s@)),
        _ => if allow_choices {
            match choices_text(reply) {
                Some(t) => Some(trim(t)),
                None => None,
            }
        } else {
            None
        },
    }
}

/// The response a provider reply yields for a request: its text, citing the request's
/// evidence id; `Malformed` when the reply holds no text.
pub fn response_from_reply(reply: &JsonValue, req: &RewriteRequest, allow_choices: bool) -> (r: Result<RewriteResponse, AdvocateError>)
    ensures
        match r {
            Ok(resp) => reply_text(*reply, allow_choices) == Some(resp.rewritten_text@) && resp.cited_evidence_id@
                == req.evidence_id@,
            Err(e) => reply_text(*reply, allow_choices) is None && e is Malformed,
        },
{
    match get_key(reply, "response") {
        Some(JsonValue::String(s)) => {
            return Ok(RewriteResponse { rewritten_text: trim_string(s.as_str()), cited_evidence_id: req.evidence_id.clone() });
        },
        _ => {},
    }
    if allow_choices {
        match get_key(reply, "choices") {
            Some(JsonValue::Array(items)) => {
                if items.len() > 0 {
                    match get_key(&items[0], "text") {
                        Some(JsonValue::String(s)) => {
                            return Ok(
                                RewriteResponse {
                                    rewritten_text: trim_string(s.as_str()),
                                    cited_evidence_id: req.evidence_id.clone(),
                                },
                            );
                        },
                        _ => {},
                    }
                }
            },
            _ => {},
        }
        Err(AdvocateError::Malformed(String::from_str("no response/choices text")))
    } else {
        Err(AdvocateError::Malformed(String::from_str("missing `response` field")))
    }
}

} // verus!
