use applicant_advocate::matching::{Candidate, EvidenceKind};
use applicant_advocate::types::{Achievement, Experience, MasterCv, Person, Skill};

fn s(x: &str) -> String {
    x.to_string()
}

fn strings(xs: &[&str]) -> Vec<String> {
    xs.iter().map(|t| s(t)).collect()
}

fn blank_person() -> Person {
    Person {
        name: None,
        professional_title: None,
        professional_description: None,
        location: None,
        email: None,
        phone: None,
        linkedin: None,
        github: None,
        website: None,
        image: None,
    }
}

fn ach(id: &str, desc: &str, tags: &[&str]) -> Achievement {
    Achievement {
        id: s(id),
        description: s(desc),
        emphasise: None,
        tags: strings(tags),
        metrics: vec![],
        evidence_strength_milli: Some(500),
    }
}

fn exp(id: &str, tags: &[&str], achs: Vec<Achievement>) -> Experience {
    Experience {
        id: s(id),
        job_title: s("T"),
        business_name: s("B"),
        consultancy: None,
        location: None,
        employment_type: None,
        start_date: s("Jan 2020"),
        end_date: None,
        domain: None,
        hide: None,
        contact: None,
        tags: strings(tags),
        achievements_tasks: achs,
    }
}

fn skill(name: &str, aliases: &[&str], evidence: &[&str]) -> Skill {
    Skill { name: s(name), proficiency: 3, aliases: strings(aliases), evidence_ids: strings(evidence) }
}

fn empty_cv() -> MasterCv {
    MasterCv {
        schema_version: s("1.0.0"),
        person: blank_person(),
        headline: None,
        summary_variants: vec![],
        programming_languages: vec![],
        skills: vec![],
        tools_technologies: vec![],
        as_a_services: vec![],
        experience: vec![],
        projects: vec![],
        education: vec![],
        certifications: vec![],
        awards: vec![],
        preferences: None,
    }
}

fn persona() -> MasterCv {
    let mut cv = empty_cv();
    cv.programming_languages = vec![skill("Python", &[], &["exp_1_0_b1"]), skill("TypeScript", &[], &[])];
    cv.skills = vec![skill("PostgreSQL", &[], &[])];
    cv.experience = vec![exp(
        "exp_1_0",
        &["Redis"],
        vec![ach("exp_1_0_b0", "Added a caching layer", &[]), ach("exp_1_0_b1", "Wrote billing services", &[])],
    )];
    cv
}

#[test]
fn matches_via_skill() {
    let c = Candidate::from_master(&persona());
    assert!(c.matches("Python"));
    assert!(c.matches("PostgreSQL"));
}

#[test]
fn matches_case_insensitive() {
    assert!(Candidate::from_master(&persona()).matches("pYThOn"));
}

#[test]
fn matches_via_experience_tag() {
    assert!(Candidate::from_master(&persona()).matches("Redis"));
}

#[test]
fn matches_via_achievement_description() {
    assert!(Candidate::from_master(&persona()).matches("caching"));
}

#[test]
fn alias_only_match_via_seed() {
    assert!(Candidate::from_master(&persona()).matches("ts"));
}

#[test]
fn no_match_returns_false() {
    let c = Candidate::from_master(&persona());
    assert!(!c.matches("Cobol"));
    assert!(!c.matches("Stakeholder management"));
}

#[test]
fn skill_declared_alias_participates() {
    let mut cv = empty_cv();
    cv.programming_languages = vec![skill("JavaScript", &["ECMAScript"], &["exp_x"])];
    assert!(Candidate::from_master(&cv).matches("ecmascript"));
}

#[test]
fn matching_evidence_ids_collects_achievement_and_experience() {
    let cv = persona();
    let c = Candidate::from_master(&cv);
    assert_eq!(c.matching_evidence_ids(&cv, "caching"), strings(&["exp_1_0", "exp_1_0_b0"]));
}

#[test]
fn matching_evidence_ids_collects_skill_evidence() {
    let mut cv = empty_cv();
    cv.skills = vec![skill("Rust", &[], &["exp_z_b1"])];
    let c = Candidate::from_master(&cv);
    assert_eq!(c.matching_evidence_ids(&cv, "Rust"), vec!["exp_z_b1".to_string()]);
}

#[test]
fn kinded_classifies_each_namespace() {
    let mut cv = empty_cv();
    cv.skills = vec![skill("Caching", &[], &["skill_ev"])];
    cv.experience = vec![exp("e0", &[], vec![ach("e0_b0", "built a caching layer", &[])])];
    let c = Candidate::from_master(&cv);
    let kinded = c.matching_evidence_ids_kinded(&cv, "caching");
    let kind_of = |id: &str| kinded.iter().find(|e| e.id == id).map(|e| e.kind);
    assert_eq!(kind_of("skill_ev"), Some(EvidenceKind::Skill));
    assert_eq!(kind_of("e0"), Some(EvidenceKind::Experience));
    assert_eq!(kind_of("e0_b0"), Some(EvidenceKind::Achievement));
    let plain: Vec<String> = kinded.iter().map(|e| e.id.clone()).collect();
    assert_eq!(plain, c.matching_evidence_ids(&cv, "caching"));
    assert_eq!(plain, strings(&["e0", "e0_b0", "skill_ev"]));
}

#[test]
fn empty_requirement_no_match() {
    let cv = persona();
    let c = Candidate::from_master(&cv);
    assert!(!c.matches(""));
    assert!(c.matching_evidence_ids(&cv, "").is_empty());
}

#[test]
fn matches_and_collects_via_achievement_tags_and_skill_aliases() {
    let mut cv = empty_cv();
    cv.skills = vec![skill("Observability", &["o11y"], &["skill_ev_1"])];
    cv.experience = vec![exp("e0", &["Platform"], vec![ach("e0_b0", "built dashboards", &["grafana", "alerting"])])];
    let c = Candidate::from_master(&cv);
    assert!(c.matches("grafana"));
    assert!(c.matches("o11y"));
    let ids = c.matching_evidence_ids(&cv, "alerting");
    assert!(ids.contains(&"e0_b0".to_string()));
    assert!(ids.contains(&"e0".to_string()));
    let sids = c.matching_evidence_ids(&cv, "o11y");
    assert!(sids.contains(&"skill_ev_1".to_string()));
}

#[test]
fn evidence_ids_are_deduped_across_skills() {
    let mut cv = empty_cv();
    cv.skills = vec![skill("Rust", &[], &["ev_1", "ev_1"]), skill("rust", &[], &["ev_1", "ev_0"])];
    let c = Candidate::from_master(&cv);
    assert_eq!(c.matching_evidence_ids(&cv, "rust"), strings(&["ev_0", "ev_1"]));
}

#[test]
fn every_own_phrase_of_the_cv_matches_and_the_empty_phrase_does_not() {
    let cv = persona();
    let c = Candidate::from_master(&cv);
    for p in ["Python", "TypeScript", "PostgreSQL", "Redis", "Added a caching layer", "Wrote billing services"] {
        assert!(c.matches(p), "{p}");
    }
    assert!(!c.matches(""));
    assert!(!c.matches("  ;, "));
    assert!(c.matching_evidence_ids_kinded(&cv, "").is_empty());
}

#[test]
fn kinded_evidence_ids_are_strictly_increasing_and_of_their_records() {
    let cv = persona();
    let c = Candidate::from_master(&cv);
    let k = c.matching_evidence_ids_kinded(&cv, "Python billing caching Redis");
    let ids: Vec<String> = k.iter().map(|e| e.id.clone()).collect();
    assert_eq!(ids, vec!["exp_1_0".to_string(), "exp_1_0_b0".to_string(), "exp_1_0_b1".to_string()]);
    for w in ids.windows(2) {
        assert!(w[0] < w[1]);
    }
    assert_eq!(k[0].kind, EvidenceKind::Experience);
    assert_eq!(k[1].kind, EvidenceKind::Achievement);
    assert_eq!(c.matching_evidence_ids(&cv, "Python billing caching Redis"), ids);
}

#[test]
fn ascii_case_does_not_change_a_match() {
    let c = Candidate::from_master(&persona());
    for r in ["python", "Redis cluster", "caching layer", "golang", "Billing"] {
        let m = c.matches(r);
        assert_eq!(m, c.matches(&r.to_ascii_uppercase()), "{r}");
        assert_eq!(m, c.matches(&r.to_ascii_lowercase()), "{r}");
    }
}
