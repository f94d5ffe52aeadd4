use applicant_advocate::ats::{
    ats_report, description_bearing_count, non_standard_headings_check, standard_headings, AtsCheckId, AtsReport,
    AtsStatus, OVERLY_LONG_ACHIEVEMENTS,
};
use applicant_advocate::job::{NormalizedJob, Requirements};
use applicant_advocate::render::{is_valid_pdf, CvTemplate};
use applicant_advocate::tailor::{tailor, TailoredView};
use applicant_advocate::types::{Achievement, Experience, MasterCv, Person};

fn s(x: &str) -> String {
    x.to_string()
}

fn person(name: Option<&str>) -> Person {
    Person {
        name: name.map(s),
        professional_title: None,
        professional_description: None,
        location: None,
        email: None,
        phone: None,
        linkedin: None,
        github: None,
        website: None,
        image: None,
    }
}

fn ach(id: &str, desc: &str) -> Achievement {
    Achievement { id: s(id), description: s(desc), emphasise: None, tags: vec![], metrics: vec![], evidence_strength_milli: None }
}

fn exp(id: &str, start: &str, achs: Vec<Achievement>) -> Experience {
    Experience {
        id: s(id),
        job_title: s("T"),
        business_name: s("B"),
        consultancy: None,
        location: None,
        employment_type: None,
        start_date: s(start),
        end_date: None,
        domain: None,
        hide: None,
        contact: None,
        tags: vec![],
        achievements_tasks: achs,
    }
}

fn cv_with(experience: Vec<Experience>) -> MasterCv {
    MasterCv {
        schema_version: s("1.0.0"),
        person: person(Some("X")),
        headline: None,
        summary_variants: vec![],
        programming_languages: vec![],
        skills: vec![],
        tools_technologies: vec![],
        as_a_services: vec![],
        experience,
        projects: vec![],
        education: vec![],
        certifications: vec![],
        awards: vec![],
        preferences: None,
    }
}

fn master() -> MasterCv {
    cv_with(vec![
        exp(
            "exp_1_0",
            "Jan 2022",
            vec![
                ach("exp_1_0_b0", "Added a Redis caching layer"),
                ach("exp_1_0_b1", "Built Python services"),
                ach("exp_1_0_b2", "Mentored engineers"),
                ach("exp_1_0_b3", "Ran incident reviews"),
            ],
        ),
        exp("exp_1_1", "Mar 2018", vec![ach("exp_1_1_b0", "Migrated PostgreSQL schemas")]),
    ])
}

fn job() -> NormalizedJob {
    NormalizedJob {
        title: s("Senior Backend Engineer"),
        company: s("Acme"),
        location: String::new(),
        responsibilities: vec![],
        requirements: Requirements { must_have: vec![s("caching"), s("Python")], nice_to_have: vec![] },
        keywords: vec![],
    }
}

fn view() -> TailoredView {
    tailor(&master(), &job(), 3)
}

fn status_of(template: CvTemplate, v: &TailoredView, id: AtsCheckId) -> AtsStatus {
    ats_report(template, v).check(id).unwrap().status
}

#[test]
fn column_reliance_warns_for_classic_passes_for_compact() {
    let v = view();
    assert_eq!(status_of(CvTemplate::Classic, &v, AtsCheckId::ColumnReliance), AtsStatus::Warn);
    assert_eq!(status_of(CvTemplate::Compact, &v, AtsCheckId::ColumnReliance), AtsStatus::Pass);
}

#[test]
fn overly_long_passes_under_threshold() {
    let v = view();
    assert_eq!(description_bearing_count(&v), 4);
    assert_eq!(status_of(CvTemplate::Compact, &v, AtsCheckId::OverlyLong), AtsStatus::Pass);
}

#[test]
fn overly_long_warns_when_over_threshold() {
    let bullets: Vec<Achievement> = (0..(OVERLY_LONG_ACHIEVEMENTS + 1))
        .map(|i| ach(&format!("e0_b{i}"), &format!("achievement number {i}")))
        .collect();
    let cv = cv_with(vec![exp("e0", "Jan 2020", bullets)]);
    let v = tailor(&cv, &job(), 1000);
    let count = description_bearing_count(&v);
    assert!(count > OVERLY_LONG_ACHIEVEMENTS as u128);
    assert_eq!(status_of(CvTemplate::Compact, &v, AtsCheckId::OverlyLong), AtsStatus::Warn);
}

#[test]
fn non_standard_headings_check_warns_on_odd_vocabulary() {
    let warn = non_standard_headings_check(&["Experience", "My Cool Section"]);
    assert_eq!(warn.status, AtsStatus::Warn);
    assert!(warn.message.contains("My Cool Section"));
    let pass = non_standard_headings_check(&["Experience", "Skills"]);
    assert_eq!(pass.status, AtsStatus::Pass);
}

#[test]
fn non_standard_headings_pass_for_both_shipped_templates() {
    let v = view();
    assert_eq!(status_of(CvTemplate::Classic, &v, AtsCheckId::NonStandardHeadings), AtsStatus::Pass);
    assert_eq!(status_of(CvTemplate::Compact, &v, AtsCheckId::NonStandardHeadings), AtsStatus::Pass);
}

#[test]
fn missing_extractable_text_warns_on_empty_doc() {
    let v = tailor(&cv_with(vec![]), &job(), 3);
    assert_eq!(status_of(CvTemplate::Compact, &v, AtsCheckId::MissingExtractableText), AtsStatus::Warn);
}

#[test]
fn missing_extractable_text_warns_when_only_blank_descriptions() {
    let cv = cv_with(vec![exp("e0", "Jan 2020", vec![ach("e0_b0", "   ")])]);
    let v = tailor(&cv, &job(), 3);
    assert_eq!(status_of(CvTemplate::Compact, &v, AtsCheckId::MissingExtractableText), AtsStatus::Warn);
}

#[test]
fn missing_extractable_text_passes_with_real_content() {
    assert_eq!(status_of(CvTemplate::Compact, &view(), AtsCheckId::MissingExtractableText), AtsStatus::Pass);
}

#[test]
fn unusual_font_always_passes() {
    let v = view();
    for t in [CvTemplate::Classic, CvTemplate::Compact] {
        assert_eq!(status_of(t, &v, AtsCheckId::UnusualFont), AtsStatus::Pass);
    }
}

#[test]
fn report_is_deterministic_in_order_and_content() {
    let v = view();
    let a = ats_report(CvTemplate::Compact, &v);
    let b = ats_report(CvTemplate::Compact, &v);
    assert_eq!(a, b);
    let ids: Vec<AtsCheckId> = a.checks.iter().map(|c| c.id).collect();
    assert_eq!(
        ids,
        vec![
            AtsCheckId::ColumnReliance,
            AtsCheckId::OverlyLong,
            AtsCheckId::NonStandardHeadings,
            AtsCheckId::MissingExtractableText,
            AtsCheckId::UnusualFont,
        ]
    );
}

#[test]
fn ats_report_is_read_only() {
    let v = view();
    let before = v.cv.clone();
    let _ = ats_report(CvTemplate::Classic, &v);
    assert_eq!(v.cv, before);
}

#[test]
fn check_lookup_returns_none_for_absent() {
    let empty = AtsReport { checks: vec![] };
    assert!(empty.check(AtsCheckId::UnusualFont).is_none());
}

#[test]
fn standard_headings_cover_the_template_vocabulary() {
    let std_headings = standard_headings();
    for t in [CvTemplate::Classic, CvTemplate::Compact] {
        for h in t.heading_vocabulary() {
            assert!(std_headings.contains(&h));
        }
    }
}

#[test]
fn template_parse_accepts_known_names_and_names_unknown_ones() {
    assert_eq!(CvTemplate::parse(" Classic ").unwrap(), CvTemplate::Classic);
    assert_eq!(CvTemplate::parse("COMPACT").unwrap(), CvTemplate::Compact);
    let err = CvTemplate::parse("fancy").unwrap_err();
    assert!(err.message().contains("fancy"));
    assert!(CvTemplate::Classic.is_multi_column());
    assert!(!CvTemplate::Compact.is_multi_column());
}

#[test]
fn is_valid_pdf_rejects_garbage() {
    assert!(!is_valid_pdf(b"not a pdf"));
    assert!(!is_valid_pdf(&[]));
    assert!(!is_valid_pdf(&[0u8; 200]));
}

#[test]
fn is_valid_pdf_accepts_header_and_trailer() {
    let mut b = b"%PDF-1.7\n".to_vec();
    b.extend(std::iter::repeat(b' ').take(120));
    b.extend_from_slice(b"%%EOF\n");
    assert!(is_valid_pdf(&b));
    let short = b"%PDF-1.7 %%EOF".to_vec();
    assert!(!is_valid_pdf(&short));
}
