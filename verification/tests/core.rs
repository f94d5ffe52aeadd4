use applicant_advocate::application::{build_cover_letter, prepare_application, truncate_ellipsis};
use applicant_advocate::coverage::{coverage_report, CoverageReport, Ratio};
use applicant_advocate::job::{NormalizedJob, Requirements};
use applicant_advocate::ledger::{cv_ledger, guard, resolvable_ids, LedgerNode};
use applicant_advocate::tailor::{pick_summary, recency_key, requirement_for, tailor, DEFAULT_TOP_N};
use applicant_advocate::types::{Achievement, CoreError, Experience, MasterCv, Person, Skill};

fn s(x: &str) -> String {
    x.to_string()
}

fn person(name: Option<&str>) -> Person {
    Person {
        name: name.map(s),
        professional_title: Some(s("Backend Engineer")),
        professional_description: None,
        location: None,
        email: Some(s("alex@example.test")),
        phone: None,
        linkedin: None,
        github: None,
        website: None,
        image: None,
    }
}

fn ach(id: &str, desc: &str, tags: &[&str], metrics: &[&str], strength: Option<i64>) -> Achievement {
    Achievement {
        id: s(id),
        description: s(desc),
        emphasise: None,
        tags: tags.iter().map(|t| s(t)).collect(),
        metrics: metrics.iter().map(|t| s(t)).collect(),
        evidence_strength_milli: strength,
    }
}

fn exp(id: &str, title: &str, start: &str, tags: &[&str], achs: Vec<Achievement>) -> Experience {
    Experience {
        id: s(id),
        job_title: s(title),
        business_name: s("Acme"),
        consultancy: None,
        location: None,
        employment_type: None,
        start_date: s(start),
        end_date: None,
        domain: None,
        hide: None,
        contact: None,
        tags: tags.iter().map(|t| s(t)).collect(),
        achievements_tasks: achs,
    }
}

fn skill(name: &str, evidence: &[&str]) -> Skill {
    Skill { name: s(name), proficiency: 4, aliases: vec![], evidence_ids: evidence.iter().map(|t| s(t)).collect() }
}

fn empty_cv() -> MasterCv {
    MasterCv {
        schema_version: s("1.0.0"),
        person: person(None),
        headline: None,
        summary_variants: vec![],
        programming_languages: vec![],
        skills: vec![],
        tools_technologies: vec![],
        as_a_services: vec![],
        experience: vec![],
        projects: vec![],
        education: vec![],
        certifications: vec![],
        awards: vec![],
        preferences: None,
    }
}

fn master() -> MasterCv {
    let mut cv = empty_cv();
    cv.person = person(Some("Alex Sample"));
    cv.summary_variants = vec![s("Backend engineer with Python and caching expertise")];
    cv.programming_languages = vec![skill("Python", &["exp_1_0_b1"]), skill("Go", &[])];
    cv.skills = vec![skill("PostgreSQL", &["exp_1_1_b0"])];
    cv.experience = vec![
        exp(
            "exp_1_1",
            "Backend Engineer",
            "Mar 2018",
            &[],
            vec![
                ach("exp_1_1_b0", "Migrated PostgreSQL schemas without downtime", &[], &[], Some(600)),
                ach("exp_1_1_b1", "Wrote onboarding documentation", &[], &[], None),
            ],
        ),
        exp(
            "exp_1_0",
            "Senior Backend Engineer",
            "Present",
            &["python"],
            vec![
                ach("exp_1_0_b2", "Mentored two junior engineers", &[], &[], Some(500)),
                ach("exp_1_0_b0", "Added a Redis caching layer cutting p99 latency", &[], &["40%"], Some(800)),
                ach("exp_1_0_b1", "Built Python billing services", &[], &[], Some(500)),
            ],
        ),
    ];
    cv
}

fn job(must: &[&str], nice: &[&str]) -> NormalizedJob {
    NormalizedJob {
        title: s("Senior Backend Engineer"),
        company: s("Acme"),
        location: String::new(),
        responsibilities: vec![],
        requirements: Requirements {
            must_have: must.iter().map(|t| s(t)).collect(),
            nice_to_have: nice.iter().map(|t| s(t)).collect(),
        },
        keywords: vec![],
    }
}

fn ratio_value(r: Ratio) -> f64 {
    r.num as f64 / r.den as f64
}

fn fit_score(r: &CoverageReport) -> f64 {
    0.6 * ratio_value(r.must_have_coverage) + 0.4 * ratio_value(r.nice_have_coverage)
}

// ── truncation ──────────────────────────────────────────────────────────────────

#[test]
fn empty_is_unchanged() {
    assert_eq!(truncate_ellipsis("", 200), "");
}

#[test]
fn short_is_unchanged_without_ellipsis() {
    let t = "a short strength sentence";
    assert_eq!(truncate_ellipsis(t, 200), t);
    assert!(!truncate_ellipsis(t, 200).ends_with('…'));
}

#[test]
fn exactly_at_max_is_unchanged() {
    let t = "a".repeat(200);
    assert_eq!(truncate_ellipsis(&t, 200), t);
    assert!(!truncate_ellipsis(&t, 200).ends_with('…'));
}

#[test]
fn over_max_truncates_with_ellipsis_on_word_boundary() {
    let t = "word ".repeat(60);
    let out = truncate_ellipsis(&t, 200);
    assert!(out.chars().count() <= 200);
    assert!(out.ends_with('…'));
    let body = out.trim_end_matches('…');
    assert!(body.ends_with("word"), "cut on a word boundary, got: {body:?}");
}

#[test]
fn unicode_counts_chars_not_bytes_and_never_breaks_a_char() {
    let t = "é".repeat(500);
    let out = truncate_ellipsis(&t, 200);
    assert!(out.chars().count() <= 200);
    assert!(out.ends_with('…'));
    let body = out.trim_end_matches('…');
    assert!(body.chars().all(|c| c == 'é'));
}

#[test]
fn no_whitespace_long_string_is_hard_cut() {
    let t = "a".repeat(500);
    let out = truncate_ellipsis(&t, 200);
    assert_eq!(out.chars().count(), 200);
    assert!(out.ends_with('…'));
    assert!(out.trim_end_matches('…').chars().all(|c| c == 'a'));
}

#[test]
fn result_char_count_never_exceeds_max() {
    for max in [1usize, 2, 5, 10, 200, 300] {
        for t in ["", "x", "hello world", &"y".repeat(1000), &"z z ".repeat(400)] {
            assert!(truncate_ellipsis(t, max).chars().count() <= max, "max={max} s.len={}", t.len());
        }
    }
}

#[test]
fn truncation_exact_value_on_word_boundary() {
    assert_eq!(truncate_ellipsis("hello brave world", 12), "hello…");
    assert_eq!(truncate_ellipsis("hello brave world", 13), "hello brave…");
    assert_eq!(truncate_ellipsis("abcdef", 4), "abc…");
}

// ── errors ──────────────────────────────────────────────────────────────────────

#[test]
fn types_error_display_variants() {
    assert!(CoreError::NormalizedJobParse("x".into()).message().contains("normalized job"));
    assert!(CoreError::LedgerBlocked("n".into()).message().contains("blocked export"));
    assert!(CoreError::Render("r".into()).message().contains("render failed"));
}

#[test]
fn core_error_message_is_prefix_then_detail() {
    assert_eq!(CoreError::MasterCvParse("bad".into()).message(), "failed to parse master CV: bad");
}

// ── tailoring ───────────────────────────────────────────────────────────────────

#[test]
fn recency_present_is_max() {
    assert!(recency_key("Present") > recency_key("Jan 2025"));
    assert!(recency_key("Jul 2023") > recency_key("Feb 2021"));
    assert_eq!(recency_key("garbage"), (0, 0));
}

#[test]
fn recency_key_exact_values() {
    assert_eq!(recency_key("Jul 2023"), (2023, 7));
    assert_eq!(recency_key("2019"), (2019, 0));
}

#[test]
fn must_match_ranks_first() {
    let v = tailor(&master(), &job(&["caching", "Python"], &[]), DEFAULT_TOP_N);
    let first = &v.cv.experience[0];
    assert_eq!(first.id, "exp_1_0");
    assert_eq!(first.achievements_tasks[0].id, "exp_1_0_b0");
}

#[test]
fn ranking_is_total_order_stable() {
    let j = job(&["caching", "Python"], &[]);
    let v1 = tailor(&master(), &j, DEFAULT_TOP_N);
    let v2 = tailor(&master(), &j, DEFAULT_TOP_N);
    assert_eq!(v1.selected_ids, v2.selected_ids);
}

#[test]
fn metrics_break_tie_before_no_metrics() {
    let mut cv = empty_cv();
    cv.experience = vec![exp(
        "e0",
        "T",
        "Jan 2020",
        &[],
        vec![ach("e0_b0", "alpha", &[], &[], Some(500)), ach("e0_b1", "beta", &[], &["10%"], Some(500))],
    )];
    let v = tailor(&cv, &job(&[], &[]), DEFAULT_TOP_N);
    assert_eq!(v.cv.experience[0].achievements_tasks[0].id, "e0_b1");
}

#[test]
fn id_tie_break_deterministic() {
    let mut cv = empty_cv();
    cv.experience = vec![exp(
        "e0",
        "T",
        "Jan 2020",
        &[],
        vec![ach("e0_b9", "same", &[], &[], Some(500)), ach("e0_b1", "same", &[], &[], Some(500))],
    )];
    let v = tailor(&cv, &job(&[], &[]), DEFAULT_TOP_N);
    assert_eq!(v.cv.experience[0].achievements_tasks[0].id, "e0_b1");
}

#[test]
fn top_n_caps_per_role() {
    let v = tailor(&master(), &job(&["caching", "Python"], &[]), 1);
    assert!(v.cv.experience.iter().all(|e| e.achievements_tasks.len() <= 1));
    assert_eq!(v.selected_ids, vec![s("exp_1_0_b0"), s("exp_1_1_b0")]);
}

#[test]
fn hidden_experience_excluded() {
    let mut cv = empty_cv();
    let mut e = exp("e0", "T", "Jan 2020", &[], vec![ach("e0_b0", "x", &[], &[], None)]);
    e.hide = Some(true);
    cv.experience = vec![e];
    let v = tailor(&cv, &job(&[], &[]), DEFAULT_TOP_N);
    assert!(v.cv.experience.is_empty());
}

#[test]
fn must_match_via_achievement_and_experience_tags() {
    let mut cv = empty_cv();
    cv.experience = vec![exp(
        "e0",
        "T",
        "Jan 2020",
        &["Kafka"],
        vec![ach("e0_b0", "x", &["streaming"], &[], Some(500)), ach("e0_b1", "y", &[], &[], Some(500))],
    )];
    let v = tailor(&cv, &job(&["streaming"], &[]), DEFAULT_TOP_N);
    assert_eq!(v.cv.experience[0].achievements_tasks[0].id, "e0_b0");
    let v2 = tailor(&cv, &job(&["Kafka"], &[]), DEFAULT_TOP_N);
    assert_eq!(v2.cv.experience[0].achievements_tasks.len(), 2);
}

#[test]
fn summary_pick_verbatim_with_provenance() {
    let (text, prov) = pick_summary(&master(), &job(&["caching", "Python"], &[])).unwrap();
    assert_eq!(prov, "summary:0");
    assert!(text.starts_with("Backend engineer"));
}

#[test]
fn summary_pick_chooses_max_overlap() {
    let mut cv = empty_cv();
    cv.summary_variants = vec![s("nothing relevant here"), s("python and caching expert")];
    let (text, prov) = pick_summary(&cv, &job(&["caching", "Python"], &[])).unwrap();
    assert_eq!(prov, "summary:1");
    assert!(text.contains("python"));
}

#[test]
fn summary_none_when_no_variants() {
    assert!(pick_summary(&empty_cv(), &job(&["caching"], &[])).is_none());
}

#[test]
fn view_is_schema_conformant_master_cv() {
    let v = tailor(&master(), &job(&["caching", "Python"], &[]), DEFAULT_TOP_N);
    assert_eq!(v.cv.schema_version, "1.0.0");
    assert!(v.summary_provenance.is_some());
    assert_eq!(v.cv.summary_variants.len(), 1);
    assert_eq!(v.cv.person.professional_description, Some(v.cv.summary_variants[0].clone()));
}

#[test]
fn requirement_for_returns_top_match() {
    assert_eq!(requirement_for(&master(), &job(&["caching", "Python"], &[]), "exp_1_0_b0"), "caching");
}

#[test]
fn requirement_for_falls_back_to_joined_must() {
    let mut cv = empty_cv();
    cv.experience = vec![exp("e0", "T", "Jan 2020", &[], vec![ach("e0_b0", "organised the office party", &[], &[], None)])];
    assert_eq!(requirement_for(&cv, &job(&["Rust", "Kubernetes"], &[]), "e0_b0"), "Rust, Kubernetes");
}

#[test]
fn requirement_for_unknown_id_falls_back() {
    assert_eq!(requirement_for(&master(), &job(&["caching", "Python"], &[]), "GHOST_id"), "caching, Python");
}

#[test]
fn requirement_for_empty_job_is_empty() {
    assert_eq!(requirement_for(&master(), &job(&[], &[]), "exp_1_0_b0"), "");
}

// ── coverage ────────────────────────────────────────────────────────────────────

#[test]
fn all_covered_gives_full_coverage() {
    let r = coverage_report(&master(), &job(&["Python", "PostgreSQL"], &[]));
    assert_eq!(ratio_value(r.must_have_coverage), 1.0);
    assert!(r.must_have.iter().all(|c| c.covered));
}

#[test]
fn none_covered_gives_zero() {
    let r = coverage_report(&master(), &job(&["Cobol", "Fortran"], &[]));
    assert_eq!(ratio_value(r.must_have_coverage), 0.0);
}

#[test]
fn mixed_coverage() {
    let r = coverage_report(&master(), &job(&["Python", "Cobol"], &[]));
    assert_eq!(r.must_have_coverage, Ratio { num: 1, den: 2 });
}

#[test]
fn empty_must_bucket_sentinel_is_one() {
    let r = coverage_report(&master(), &job(&[], &["Python"]));
    assert_eq!(r.must_have_coverage, Ratio { num: 1, den: 1 });
}

#[test]
fn empty_nice_bucket_sentinel_is_one() {
    let r = coverage_report(&master(), &job(&["Python"], &[]));
    assert_eq!(ratio_value(r.nice_have_coverage), 1.0);
}

#[test]
fn evidence_ids_listed_for_covered() {
    let r = coverage_report(&master(), &job(&["caching"], &[]));
    assert_eq!(r.must_have[0].evidence_ids, vec![s("exp_1_0"), s("exp_1_0_b0")]);
}

#[test]
fn evidence_ids_empty_for_uncovered() {
    let r = coverage_report(&master(), &job(&["Cobol"], &[]));
    assert!(r.must_have[0].evidence_ids.is_empty());
}

#[test]
fn fit_score_zero() {
    assert_eq!(fit_score(&coverage_report(&master(), &job(&["Cobol"], &["Fortran"]))), 0.0);
}

#[test]
fn fit_score_one() {
    assert_eq!(fit_score(&coverage_report(&master(), &job(&["Python"], &["Go"]))), 1.0);
}

#[test]
fn fit_score_blend_exact() {
    let r = coverage_report(&master(), &job(&["Python"], &["Cobol"]));
    assert!((fit_score(&r) - 0.6).abs() < 1e-9);
}

#[test]
fn both_empty_buckets_fit_is_one() {
    assert_eq!(fit_score(&coverage_report(&master(), &job(&[], &[]))), 1.0);
}

// ── ledger ──────────────────────────────────────────────────────────────────────

#[test]
fn all_resolvable_passes() {
    let view = tailor(&master(), &job(&["Python"], &[]), 3);
    let nodes = cv_ledger(&view);
    assert!(!nodes.is_empty());
    assert!(guard(&nodes, &master()).is_ok());
}

#[test]
fn scaffold_node_is_exempt() {
    assert!(guard(&[LedgerNode::scaffold("letter.greeting")], &master()).is_ok());
}

#[test]
fn dangling_source_evidence_id_is_blocked_and_named() {
    let mut view = tailor(&master(), &job(&["Python"], &[]), 3);
    view.cv.experience[0]
        .achievements_tasks
        .push(ach("FABRICATED_b999", "Single-handedly increased revenue 1000% (unsupported)", &[], &[], None));
    view.summary_provenance = Some(s("summary:99"));
    let err = guard(&cv_ledger(&view), &master()).expect_err("guard must block the dangling node");
    let msg = err.message();
    assert!(msg.contains("FABRICATED_b999"), "{msg}");
    assert!(msg.contains("summary:99"), "{msg}");
}

#[test]
fn non_vacuous_proof_clean_then_dirty() {
    let view = tailor(&master(), &job(&["Python"], &[]), 3);
    let mut nodes = cv_ledger(&view);
    assert!(guard(&nodes, &master()).is_ok());
    nodes.push(LedgerNode::claim("cv.bullet[ghost]", "ghost_id_not_in_cv"));
    assert!(guard(&nodes, &master()).is_err());
}

#[test]
fn missing_source_evidence_id_blocked() {
    let nodes = vec![LedgerNode { node: s("cv.bullet[x]"), source_evidence_id: None, scaffold: false }];
    let err = guard(&nodes, &master()).unwrap_err();
    assert!(err.message().contains("missing sourceEvidenceId"));
}

#[test]
fn summary_provenance_resolves() {
    assert!(guard(&[LedgerNode::claim("cv.summary", "summary:0")], &master()).is_ok());
}

#[test]
fn resolvable_ids_includes_achievements_and_summaries() {
    let ids = resolvable_ids(&master());
    assert!(ids.contains(&s("exp_1_0_b0")));
    assert!(ids.contains(&s("summary:0")));
}

#[test]
fn guard_names_every_offender_in_order() {
    let nodes = vec![LedgerNode::claim("a", "nope1"), LedgerNode::scaffold("b"), LedgerNode::claim("c", "nope2")];
    match guard(&nodes, &master()) {
        Err(CoreError::LedgerBlocked(d)) => {
            assert_eq!(d, "a (dangling sourceEvidenceId 'nope1'); c (dangling sourceEvidenceId 'nope2')")
        },
        other => panic!("expected a blocked ledger, got {other:?}"),
    }
}

#[test]
fn assemble_blocks_on_injected_unsupported_claim() {
    let m = master();
    let j = job(&["caching", "Python"], &["Mentored"]);
    let mut view = tailor(&m, &j, DEFAULT_TOP_N);
    view.cv.experience[0].achievements_tasks.push(ach("GHOST_b1", "Unsupported fabricated claim", &[], &[], None));
    let err = guard(&cv_ledger(&view), &m).unwrap_err();
    assert!(err.message().contains("GHOST_b1"));
}

#[test]
fn every_rendered_bullet_maps_to_evidence_id() {
    let m = master();
    let view = tailor(&m, &job(&["caching", "Python"], &[]), DEFAULT_TOP_N);
    let universe = resolvable_ids(&m);
    for e in &view.cv.experience {
        for a in &e.achievements_tasks {
            assert!(universe.contains(&a.id));
        }
    }
}

// ── the cover letter and the prepared application ───────────────────────────────

#[test]
fn cover_letter_scaffold_defaults_for_empty_job_fields() {
    let m = master();
    let mut empty_job = job(&[], &[]);
    empty_job.title = String::new();
    empty_job.company = String::new();
    let view = tailor(&m, &empty_job, DEFAULT_TOP_N);
    let letter = build_cover_letter(&view, &empty_job, &m);
    assert!(letter.why_role.contains("this role"));
    assert!(letter.why_role.contains("your team"));
}

#[test]
fn cover_letter_strengths_carry_evidence() {
    let m = master();
    let j = job(&["caching", "Python"], &["Mentored"]);
    let view = tailor(&m, &j, DEFAULT_TOP_N);
    let letter = build_cover_letter(&view, &j, &m);
    assert!(!letter.strengths.is_empty() && letter.strengths.len() <= 3);
    for st in &letter.strengths {
        assert!(!st.source_evidence_id.is_empty());
    }
    assert_eq!(letter.greeting, "Dear Hiring Team,");
    assert_eq!(letter.candidate_name, "Alex Sample");
}

#[test]
fn cover_letter_strengths_are_truncated_to_budget() {
    let long = "word ".repeat(80);
    let mut m = empty_cv();
    m.person = person(Some("X"));
    m.experience = vec![exp("e0", "T", "Jan 2020", &["caching"], vec![ach("e0_b0", &long, &[], &[], None)])];
    let j = job(&["caching"], &[]);
    let view = tailor(&m, &j, DEFAULT_TOP_N);
    let letter = build_cover_letter(&view, &j, &m);
    assert!(!letter.strengths.is_empty());
    for st in &letter.strengths {
        assert!(st.text.chars().count() <= 200);
        assert!(st.text.ends_with('…'));
        assert!(!st.source_evidence_id.is_empty());
    }
}

#[test]
fn cover_letter_why_role_is_bounded() {
    let m = master();
    let mut j = job(&[], &[]);
    j.title = "Z".repeat(5000);
    j.company = "Z".repeat(5000);
    let view = tailor(&m, &j, DEFAULT_TOP_N);
    let letter = build_cover_letter(&view, &j, &m);
    assert!(letter.why_role.chars().count() <= 300);
}

#[test]
fn prepared_application_passes_its_guards() {
    let m = master();
    let j = job(&["caching", "Python"], &["Mentored"]);
    let p = prepare_application(&m, &j).expect("a view tailored from the master passes");
    assert!(!p.coverage.must_have.is_empty());
    assert_eq!(p.view.selected_ids, tailor(&m, &j, DEFAULT_TOP_N).selected_ids);
    assert!(p.letter.strengths.len() <= 3);
}

#[test]
fn all_achievements_flattens() {
    let mut cv = empty_cv();
    cv.experience = vec![
        exp("e0", "T", "Jan 2020", &[], vec![ach("e0_b0", "d0", &[], &[], None), ach("e0_b1", "d1", &[], &[], None)]),
        exp("e1", "T", "Jan 2021", &[], vec![ach("e1_b0", "d2", &[], &[], None)]),
    ];
    let all = cv.all_achievements();
    assert_eq!(all.len(), 3);
    assert_eq!(all[0].1.id, "e0_b0");
    assert_eq!(all[2].0.id, "e1");
}
