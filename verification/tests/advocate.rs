use applicant_advocate::advocate::{
    build_prompt, is_https, redact, redact_kind, response_from_reply, AdvocateConfig, AdvocateError,
    AdvocateProvider, HttpKeyProvider, OllamaProvider, RewriteKind, StubProvider,
};
use applicant_advocate::cvimport::mine_json::JsonValue;
use applicant_advocate::ledger::resolvable_ids;
use applicant_advocate::types::{Achievement, Experience, MasterCv, Person};

fn achievement() -> Achievement {
    Achievement {
        id: "exp_1_0_b0".into(),
        description: "Cut p99 API latency by 38% via a read-through cache".into(),
        emphasise: None,
        tags: vec![],
        metrics: vec!["38%".into()],
        evidence_strength_milli: None,
    }
}

fn achievement_with(id: &str, desc: &str) -> Achievement {
    Achievement {
        id: id.into(),
        description: desc.into(),
        emphasise: None,
        tags: vec![],
        metrics: vec![],
        evidence_strength_milli: None,
    }
}

fn blank_person() -> Person {
    Person {
        name: None,
        professional_title: None,
        professional_description: None,
        location: None,
        email: None,
        phone: None,
        linkedin: None,
        github: None,
        website: None,
        image: None,
    }
}

#[test]
fn redact_strips_all_person_pii() {
    let person = Person {
        name: Some("Devin Voss".into()),
        professional_title: Some("Staff Engineer".into()),
        professional_description: None,
        location: Some("Melbourne".into()),
        email: Some("devin@example.com".into()),
        phone: Some("+61 400 000 000".into()),
        linkedin: Some("linkedin.example/in/devinvoss".into()),
        github: Some("github.example/devinvoss".into()),
        website: None,
        image: None,
    };
    let req = redact(&achievement(), "caching");
    let payload = format!("{}|{}|{}", req.evidence_id, req.evidence_text, req.requirement);
    for pii in [
        person.name.as_deref().unwrap(),
        person.email.as_deref().unwrap(),
        person.phone.as_deref().unwrap(),
        person.linkedin.as_deref().unwrap(),
        person.github.as_deref().unwrap(),
    ] {
        assert!(!payload.contains(pii), "outbound request leaked {pii}");
    }
    assert!(payload.contains("p99 API latency"));
    assert!(payload.contains("caching"));
    assert_eq!(req.kind, RewriteKind::CvBullet);
}

#[test]
fn build_prompt_contains_only_evidence_and_requirement() {
    let req = redact(&achievement(), "distributed caching");
    let prompt = build_prompt(&req);
    assert!(prompt.contains("Cut p99 API latency by 38%"));
    assert!(prompt.contains("distributed caching"));
    assert!(prompt.contains("Do not invent"));
    assert!(!prompt.contains("Devin Voss"));
    assert!(prompt.contains("CV bullet point"));
}

#[test]
fn build_prompt_for_cover_letter_strength_kind() {
    let req = redact_kind(&achievement(), "leadership", RewriteKind::CoverLetterStrength);
    let prompt = build_prompt(&req);
    assert!(prompt.contains("cover-letter strength paragraph"));
    assert!(prompt.contains("leadership"));
    assert!(prompt.contains("Cut p99 API latency by 38%"));
}

#[test]
fn build_prompt_exact_shape() {
    let req = redact(&achievement_with("e", "E"), "R");
    assert_eq!(
        build_prompt(&req),
        "Rewrite the following CV bullet point to better address the requirement, using ONLY the facts present in the evidence. Do not invent achievements, metrics, employers, or dates. Keep it truthful and concise.\nRequirement: R\nEvidence: E\n"
    );
}

#[test]
fn stub_returns_deterministic_response() {
    let req = redact(&achievement(), "caching");
    let a = StubProvider::new().rewrite(&req).unwrap();
    let b = StubProvider::new().rewrite(&req).unwrap();
    assert_eq!(a, b);
    assert_eq!(a.cited_evidence_id, "exp_1_0_b0");
    assert!(a.rewritten_text.contains("p99 API latency"));
}

#[test]
fn stub_fabricating_cites_absent_id() {
    let req = redact(&achievement(), "caching");
    let resp = StubProvider::fabricating().rewrite(&req).unwrap();
    assert_ne!(resp.cited_evidence_id, req.evidence_id);
    let cv = MasterCv {
        schema_version: "1.0.0".into(),
        person: blank_person(),
        headline: None,
        summary_variants: vec![],
        programming_languages: vec![],
        skills: vec![],
        tools_technologies: vec![],
        as_a_services: vec![],
        experience: vec![Experience {
            id: "e0".into(),
            job_title: "T".into(),
            business_name: "B".into(),
            consultancy: None,
            location: None,
            employment_type: None,
            start_date: "Jan 2020".into(),
            end_date: None,
            domain: None,
            hide: None,
            contact: None,
            tags: vec![],
            achievements_tasks: vec![achievement_with("exp_1_0_b0", "x")],
        }],
        projects: vec![],
        education: vec![],
        certifications: vec![],
        awards: vec![],
        preferences: None,
    };
    assert!(!resolvable_ids(&cv).contains(&resp.cited_evidence_id));
}

#[test]
fn rewrite_response_carries_cited_evidence_id() {
    let req = redact_kind(&achievement(), "caching", RewriteKind::CoverLetterStrength);
    let resp = StubProvider::new().rewrite(&req).unwrap();
    assert_eq!(resp.cited_evidence_id, req.evidence_id);
}

#[test]
fn lib_config_disabled_is_default() {
    assert!(!AdvocateConfig::default().enabled);
}

#[test]
fn provider_names_itself() {
    assert_eq!(StubProvider::new().name(), "stub");
}

#[test]
fn lib_error_display_variants() {
    assert!(AdvocateError::Unreachable("connection refused".into()).message().contains("unreachable"));
    assert!(AdvocateError::Malformed("no json".into()).message().contains("malformed"));
    assert!(AdvocateError::InsecureEndpoint("http://evil".into()).message().contains("https"));
}

#[test]
fn stub_rewrites_a_cv_bullet() {
    let req = redact(&achievement_with("e0_b0", "Led a migration to event sourcing"), "events");
    let resp = StubProvider::new().rewrite(&req).unwrap();
    assert_eq!(resp.cited_evidence_id, "e0_b0");
    assert!(resp.rewritten_text.contains("event sourcing"));
}

#[test]
fn stub_rewrites_a_cover_letter_strength() {
    let req = redact_kind(
        &achievement_with("e1_b2", "Mentored five engineers to senior"),
        "mentoring",
        RewriteKind::CoverLetterStrength,
    );
    let resp = StubProvider::new().rewrite(&req).unwrap();
    assert_eq!(resp.cited_evidence_id, "e1_b2");
    assert!(resp.rewritten_text.contains("Mentored five engineers"));
    assert_eq!(req.kind, RewriteKind::CoverLetterStrength);
}

#[test]
fn provider_name_is_surfaced() {
    assert_eq!(StubProvider::new().name(), "stub");
    assert_eq!(StubProvider::fabricating().name(), "stub");
}

#[test]
fn http_key_provider_rejects_insecure_endpoint() {
    let err = HttpKeyProvider::new("http://api.example.com/v1", "sk-secret", "gpt")
        .err()
        .expect("an http:// endpoint must be rejected");
    assert_eq!(err, AdvocateError::InsecureEndpoint("http://api.example.com/v1".to_string()));
}

#[test]
fn http_key_provider_accepts_https_endpoint() {
    let p = HttpKeyProvider::new("HTTPS://api.example.com/v1", "sk-secret", "gpt")
        .ok()
        .expect("an https:// endpoint must be accepted");
    assert_eq!(p.name(), "http-key");
}

#[test]
fn http_key_provider_rejects_schemeless_endpoint() {
    let err = HttpKeyProvider::new("api.example.com", "sk-secret", "gpt")
        .err()
        .expect("a scheme-less endpoint must be rejected");
    assert_eq!(err, AdvocateError::InsecureEndpoint("api.example.com".to_string()));
}

#[test]
fn http_key_provider_debug_redacts_api_key() {
    let p = HttpKeyProvider::new("https://api.example.com", "sk-super-secret", "gpt").ok().expect("https accepted");
    let dbg = p.debug_repr();
    assert!(!dbg.contains("sk-super-secret"), "{dbg}");
    assert!(dbg.contains("<redacted>"), "{dbg}");
    assert!(dbg.contains("api.example.com"), "{dbg}");
    assert!(dbg.contains("gpt"), "{dbg}");
}

#[test]
fn ollama_provider_names_itself_and_is_loopback() {
    let p = OllamaProvider::new("llama3");
    assert_eq!(p.name(), "ollama");
    assert!(OllamaProvider::endpoint().starts_with("http://localhost"));
    assert!(format!("{p:?}").contains("llama3"));
}

#[test]
fn http_key_provider_keeps_its_settings() {
    let p = HttpKeyProvider::new("https://api.example.com", "sk-1", "gpt").ok().unwrap();
    assert_eq!(p.endpoint(), "https://api.example.com");
    assert_eq!(p.model(), "gpt");
    assert_eq!(p.authorization(), "Bearer sk-1");
}

#[test]
fn is_https_checks_the_scheme_only() {
    assert!(is_https("https://x"));
    assert!(is_https("HtTpS://x"));
    assert!(!is_https("http://x"));
    assert!(!is_https("https:/x"));
    assert!(!is_https("x"));
}

fn obj(members: Vec<(&str, JsonValue)>) -> JsonValue {
    JsonValue::Object(members.into_iter().map(|(k, v)| (k.to_string(), v)).collect())
}

#[test]
fn reply_response_field_is_trimmed_and_cites_the_request() {
    let req = redact(&achievement(), "caching");
    let reply = obj(vec![("response", JsonValue::String("  Sharper bullet \n".into()))]);
    let resp = response_from_reply(&reply, &req, false).unwrap();
    assert_eq!(resp.rewritten_text, "Sharper bullet");
    assert_eq!(resp.cited_evidence_id, "exp_1_0_b0");
}

#[test]
fn reply_choices_only_when_allowed() {
    let req = redact(&achievement(), "caching");
    let reply = obj(vec![("choices", JsonValue::Array(vec![obj(vec![("text", JsonValue::String(" From choices ".into()))])]))]);
    assert_eq!(response_from_reply(&reply, &req, true).unwrap().rewritten_text, "From choices");
    match response_from_reply(&reply, &req, false) {
        Err(AdvocateError::Malformed(_)) => {},
        other => panic!("expected malformed, got {other:?}"),
    }
}

#[test]
fn reply_without_text_is_malformed() {
    let req = redact(&achievement(), "caching");
    let reply = obj(vec![("response", JsonValue::Bool(true)), ("choices", JsonValue::Array(vec![]))]);
    assert!(matches!(response_from_reply(&reply, &req, true), Err(AdvocateError::Malformed(_))));
}

#[test]
fn http_key_provider_debug_repr_is_exact() {
    let p = HttpKeyProvider::new("https://api.example.com", "sk-super-secret", "gpt").ok().unwrap();
    assert_eq!(
        p.debug_repr(),
        "HttpKeyProvider { endpoint: \"https://api.example.com\", api_key: \"<redacted>\", model: \"gpt\" }"
    );
}

#[test]
fn ollama_request_body_is_model_prompt_and_stream_off() {
    let p = OllamaProvider::new("llama3");
    let req = redact(&achievement(), "Improve latency");
    let body = p.request(&req);
    assert_eq!(body.model, "llama3");
    assert_eq!(body.prompt, build_prompt(&req));
    assert_eq!(body.stream, Some(false));
}

#[test]
fn keyed_request_body_is_model_and_prompt_only() {
    let p = HttpKeyProvider::new("https://api.example.com/v1", "SECRET-REDACTED", "gpt").unwrap();
    let req = redact(&achievement(), "Improve latency");
    let body = p.request(&req);
    assert_eq!(body.model, "gpt");
    assert_eq!(body.prompt, build_prompt(&req));
    assert_eq!(body.stream, None);
    assert!(!body.prompt.contains("SECRET-REDACTED"));
}
