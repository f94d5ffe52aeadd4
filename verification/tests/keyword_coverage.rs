use applicant_advocate::job::{NormalizedJob, Requirements};
use applicant_advocate::keyword_coverage::{keyword_coverage, KeywordClass, KeywordCoverage, KeywordHit};
use applicant_advocate::tailor::tailor;
use applicant_advocate::types::{Achievement, Experience, MasterCv, Person, Skill};

fn s(x: &str) -> String {
    x.to_string()
}

fn blank_person() -> Person {
    Person {
        name: None,
        professional_title: None,
        professional_description: None,
        location: None,
        email: None,
        phone: None,
        linkedin: None,
        github: None,
        website: None,
        image: None,
    }
}

fn ach(id: &str, desc: &str, metrics: &[&str], strength: Option<i64>) -> Achievement {
    Achievement {
        id: s(id),
        description: s(desc),
        emphasise: None,
        tags: vec![],
        metrics: metrics.iter().map(|m| s(m)).collect(),
        evidence_strength_milli: strength,
    }
}

fn exp(id: &str, start: &str, tags: &[&str], achs: Vec<Achievement>) -> Experience {
    Experience {
        id: s(id),
        job_title: s("T"),
        business_name: s("B"),
        consultancy: None,
        location: None,
        employment_type: None,
        start_date: s(start),
        end_date: None,
        domain: None,
        hide: None,
        contact: None,
        tags: tags.iter().map(|t| s(t)).collect(),
        achievements_tasks: achs,
    }
}

fn cv_with(skills: Vec<Skill>, experience: Vec<Experience>) -> MasterCv {
    MasterCv {
        schema_version: s("1.0.0"),
        person: blank_person(),
        headline: None,
        summary_variants: vec![],
        programming_languages: vec![],
        skills,
        tools_technologies: vec![],
        as_a_services: vec![],
        experience,
        projects: vec![],
        education: vec![],
        certifications: vec![],
        awards: vec![],
        preferences: None,
    }
}

fn master() -> MasterCv {
    let python = Skill { name: s("Python"), proficiency: 4, aliases: vec![], evidence_ids: vec![s("exp_1_0")] };
    cv_with(
        vec![python],
        vec![
            exp(
                "exp_1_0",
                "Present",
                &["python"],
                vec![
                    ach("exp_1_0_b0", "Added a caching layer", &["40%"], Some(900)),
                    ach("exp_1_0_b1", "Mentored two engineers", &[], Some(400)),
                ],
            ),
            exp(
                "exp_1_1",
                "Mar 2018",
                &["PostgreSQL"],
                vec![
                    ach("exp_1_1_b0", "Scaled the read path", &["2x"], Some(800)),
                    ach("exp_1_1_b2", "Tuned caching for reports", &[], Some(300)),
                ],
            ),
        ],
    )
}

fn job_with(must: Vec<&str>, nice: Vec<&str>) -> NormalizedJob {
    NormalizedJob {
        title: s("Senior Backend Engineer"),
        company: s("Acme"),
        location: String::new(),
        responsibilities: vec![],
        requirements: Requirements {
            must_have: must.into_iter().map(String::from).collect(),
            nice_to_have: nice.into_iter().map(String::from).collect(),
        },
        keywords: vec![],
    }
}

fn found_kw<'a>(c: &'a KeywordCoverage, kw: &str) -> Option<&'a KeywordHit> {
    c.found.iter().find(|h| h.keyword == kw)
}

fn missing_kw<'a>(c: &'a KeywordCoverage, kw: &str) -> Option<&'a KeywordHit> {
    c.missing.iter().find(|h| h.keyword == kw)
}

#[test]
fn must_have_found_with_non_empty_surfaced_evidence() {
    let job = job_with(vec!["caching"], vec![]);
    let view = tailor(&master(), &job, 3);
    let cov = keyword_coverage(&view, &job);
    let hit = found_kw(&cov, "caching").expect("caching is found");
    assert_eq!(hit.class, KeywordClass::MustHave);
    assert!(hit.evidence_ids.iter().any(|i| i == "exp_1_0_b0"));
}

#[test]
fn absent_must_have_is_missing_with_empty_evidence() {
    let job = job_with(vec!["Cobol"], vec![]);
    let view = tailor(&master(), &job, 3);
    let cov = keyword_coverage(&view, &job);
    let hit = missing_kw(&cov, "Cobol").expect("Cobol is missing");
    assert_eq!(hit.class, KeywordClass::MustHave);
    assert!(hit.evidence_ids.is_empty());
    assert!(found_kw(&cov, "Cobol").is_none());
}

#[test]
fn nice_to_have_class_is_distinguished() {
    let job = job_with(vec![], vec!["Mentored"]);
    let view = tailor(&master(), &job, 3);
    let cov = keyword_coverage(&view, &job);
    let hit = found_kw(&cov, "Mentored").expect("Mentored found");
    assert_eq!(hit.class, KeywordClass::NiceToHave);
    assert!(!hit.evidence_ids.is_empty());
}

#[test]
fn multi_section_keyword_dedupes_and_orders_evidence() {
    let job = job_with(vec!["caching"], vec![]);
    let view = tailor(&master(), &job, 100);
    let cov = keyword_coverage(&view, &job);
    let hit = found_kw(&cov, "caching").unwrap();
    let mut sorted = hit.evidence_ids.clone();
    sorted.sort();
    sorted.dedup();
    assert_eq!(hit.evidence_ids, sorted);
    let bullet_ids: Vec<&String> = hit.evidence_ids.iter().filter(|i| i.contains("_b")).collect();
    assert!(bullet_ids.len() >= 2);
}

#[test]
fn must_have_via_declared_skill_name_is_found() {
    let job = job_with(vec!["Python"], vec![]);
    let view = tailor(&master(), &job, 1);
    let cov = keyword_coverage(&view, &job);
    let hit = found_kw(&cov, "Python").expect("Python is a declared skill");
    assert_eq!(hit.class, KeywordClass::MustHave);
    assert!(!hit.evidence_ids.is_empty());
}

#[test]
fn skill_evidence_id_is_always_surfaced() {
    let rust = Skill { name: s("Rust"), proficiency: 3, aliases: vec![], evidence_ids: vec![s("skill_ev_rust")] };
    let cv = cv_with(vec![rust], vec![exp("e0", "Jan 2020", &[], vec![ach("e0_b0", "unrelated bullet", &["1"], Some(900))])]);
    let job = job_with(vec!["Rust"], vec![]);
    let view = tailor(&cv, &job, 1);
    assert_eq!(view.selected_ids, vec!["e0_b0".to_string()]);
    let cov = keyword_coverage(&view, &job);
    let hit = found_kw(&cov, "Rust").expect("declared skill with evidence ids");
    assert!(hit.evidence_ids.contains(&"skill_ev_rust".to_string()));
}

#[test]
fn must_have_via_experience_token_is_found() {
    let job = job_with(vec!["PostgreSQL"], vec![]);
    let view = tailor(&master(), &job, 1);
    let cov = keyword_coverage(&view, &job);
    let hit = found_kw(&cov, "PostgreSQL").expect("experience-tag keyword");
    assert!(hit.evidence_ids.iter().any(|i| !i.contains("_b")));
}

#[test]
fn keyword_found_only_in_dropped_bullet_is_not_surfaced() {
    let cv = cv_with(
        vec![],
        vec![exp(
            "e0",
            "Jan 2020",
            &[],
            vec![
                ach("e0_b0", "top ranked", &["1"], Some(900)),
                ach("e0_b1", "mentions obscuretoken here", &[], Some(100)),
            ],
        )],
    );
    let view = tailor(&cv, &job_with(vec![], vec![]), 1);
    assert_eq!(view.selected_ids, vec!["e0_b0".to_string()]);
    let query_job = job_with(vec!["obscuretoken"], vec![]);
    let cov = keyword_coverage(&view, &query_job);
    let hit = missing_kw(&cov, "obscuretoken").expect("dropped means missing");
    assert!(hit.evidence_ids.is_empty());
}

#[test]
fn coverage_is_deterministic() {
    let job = job_with(vec!["caching", "Python"], vec!["Mentoring"]);
    let view = tailor(&master(), &job, 3);
    assert_eq!(keyword_coverage(&view, &job), keyword_coverage(&view, &job));
}

#[test]
fn coverage_is_read_only() {
    let job = job_with(vec!["caching"], vec![]);
    let view = tailor(&master(), &job, 3);
    let before = view.cv.clone();
    let _ = keyword_coverage(&view, &job);
    assert_eq!(view.cv, before);
}

#[test]
fn empty_job_yields_empty_report() {
    let job = job_with(vec![], vec![]);
    let view = tailor(&master(), &job, 3);
    let cov = keyword_coverage(&view, &job);
    assert!(cov.found.is_empty() && cov.missing.is_empty());
}

#[test]
fn found_and_missing_partition_the_requirements_in_order() {
    let job = job_with(vec!["caching", "Cobol"], vec!["Mentored", "Fortran"]);
    let view = tailor(&master(), &job, 3);
    let cov = keyword_coverage(&view, &job);
    let found: Vec<&str> = cov.found.iter().map(|h| h.keyword.as_str()).collect();
    let missing: Vec<&str> = cov.missing.iter().map(|h| h.keyword.as_str()).collect();
    assert_eq!(found, vec!["caching", "Mentored"]);
    assert_eq!(missing, vec!["Cobol", "Fortran"]);
}
