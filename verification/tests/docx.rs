use applicant_advocate::application::build_cover_letter;
use applicant_advocate::cvimport::extract::extract_docx;
use applicant_advocate::cvimport::import_docx;
use applicant_advocate::docx::{build_docx, cover_letter_docx, cover_letter_paragraphs, cv_docx, cv_paragraphs};
use applicant_advocate::job::{NormalizedJob, Requirements};
use applicant_advocate::render::CvTemplate;
use applicant_advocate::samples::SAMPLE_WATERMARK;
use applicant_advocate::tailor::{tailor, TailoredView};
use applicant_advocate::types::{Achievement, Experience, MasterCv, Person, Skill};
use std::io::{Cursor, Read};

fn s(x: &str) -> String {
    x.to_string()
}

fn person(name: Option<&str>) -> Person {
    Person {
        name: name.map(s),
        professional_title: Some(s("Staff Engineer")),
        professional_description: None,
        location: Some(s("Melbourne")),
        email: None,
        phone: None,
        linkedin: None,
        github: Some(s("gh/devin")),
        website: None,
        image: None,
    }
}

fn ach(id: &str, desc: &str) -> Achievement {
    Achievement { id: s(id), description: s(desc), emphasise: None, tags: vec![], metrics: vec![], evidence_strength_milli: None }
}

fn exp(id: &str, title: &str, start: &str, end: Option<&str>, location: Option<&str>, achs: Vec<Achievement>) -> Experience {
    Experience {
        id: s(id),
        job_title: s(title),
        business_name: s("Acme"),
        consultancy: None,
        location: location.map(s),
        employment_type: None,
        start_date: s(start),
        end_date: end.map(s),
        domain: None,
        hide: None,
        contact: None,
        tags: vec![],
        achievements_tasks: achs,
    }
}

fn skill(name: &str) -> Skill {
    Skill { name: s(name), proficiency: 4, aliases: vec![], evidence_ids: vec![] }
}

fn cv_with(p: Person, experience: Vec<Experience>) -> MasterCv {
    MasterCv {
        schema_version: s("1.0.0"),
        person: p,
        headline: None,
        summary_variants: vec![],
        programming_languages: vec![],
        skills: vec![],
        tools_technologies: vec![],
        as_a_services: vec![],
        experience,
        projects: vec![],
        education: vec![],
        certifications: vec![],
        awards: vec![],
        preferences: None,
    }
}

fn master() -> MasterCv {
    let mut cv = cv_with(
        person(Some("Devin Voss")),
        vec![
            exp(
                "exp_1_0",
                "Backend Engineer",
                "Nov 2022",
                None,
                Some("Sydney"),
                vec![ach("exp_1_0_b0", "Added a caching layer"), ach("exp_1_0_b1", "Built Python services")],
            ),
            exp("exp_1_1", "Platform Engineer", "Jan 2019", Some("Oct 2022"), None, vec![ach("exp_1_1_b0", "Ran the on-call rota")]),
        ],
    );
    cv.programming_languages = vec![skill("Python"), skill("Go")];
    cv.skills = vec![skill("Mentoring")];
    cv.tools_technologies = vec![skill("Docker")];
    cv.as_a_services = vec![skill("AWS")];
    cv
}

fn job() -> NormalizedJob {
    NormalizedJob {
        title: s("Senior Backend Engineer"),
        company: s("Acme"),
        location: String::new(),
        responsibilities: vec![],
        requirements: Requirements { must_have: vec![s("caching"), s("Python")], nice_to_have: vec![] },
        keywords: vec![],
    }
}

fn view() -> TailoredView {
    tailor(&master(), &job(), 3)
}

fn document_text(bytes: &[u8]) -> String {
    let mut zip = zip::ZipArchive::new(Cursor::new(bytes.to_vec())).expect("authored bytes are a zip");
    let mut xml = String::new();
    zip.by_name("word/document.xml").expect("word/document.xml present").read_to_string(&mut xml).expect("utf-8");
    let mut out = String::new();
    let mut in_tag = false;
    for c in xml.chars() {
        match c {
            '<' => in_tag = true,
            '>' => {
                in_tag = false;
                out.push(' ');
            },
            _ if !in_tag => out.push(c),
            _ => {},
        }
    }
    out
}

#[test]
fn every_skill_label_is_in_the_heading_vocabulary() {
    let paragraphs = cv_paragraphs(&view(), false);
    for template in [CvTemplate::Classic, CvTemplate::Compact] {
        let vocab = template.heading_vocabulary();
        for label in ["Languages", "Skills", "Tools & Technologies", "Platforms & Services"] {
            assert!(paragraphs.iter().any(|p| p == label), "{label:?} is emitted");
            assert!(vocab.contains(&label), "{label:?} not in {template:?} vocabulary");
        }
        assert!(vocab.contains(&"Experience"));
    }
}

#[test]
fn cv_paragraphs_are_the_linear_flow() {
    let p = cv_paragraphs(&view(), false);
    assert_eq!(
        p,
        vec![
            s("Devin Voss"),
            s("Staff Engineer"),
            s("Melbourne  ·  gh/devin"),
            s("Languages"),
            s("Python, Go"),
            s("Skills"),
            s("Mentoring"),
            s("Tools & Technologies"),
            s("Docker"),
            s("Platforms & Services"),
            s("AWS"),
            s("Experience"),
            s("Backend Engineer  Nov 2022"),
            s("Acme · Sydney"),
            s("Added a caching layer"),
            s("Built Python services"),
            s("Platform Engineer  Jan 2019 – Oct 2022"),
            s("Acme"),
            s("Ran the on-call rota"),
        ]
    );
}

#[test]
fn cv_docx_authors_non_empty_bytes() {
    let bytes = cv_docx(&view(), CvTemplate::Classic, false).ok().unwrap();
    assert!(!bytes.is_empty());
    assert!(bytes.starts_with(b"PK"));
}

#[test]
fn cv_docx_handles_person_without_contact_or_title() {
    let mut p = person(Some("Solo"));
    p.professional_title = None;
    p.location = None;
    p.github = None;
    let v = tailor(&cv_with(p, vec![]), &job(), 3);
    assert_eq!(cv_paragraphs(&v, false), vec![s("Solo"), s("Experience")]);
    assert!(cv_docx(&v, CvTemplate::Compact, false).ok().unwrap().starts_with(b"PK"));
}

#[test]
fn cv_docx_skips_an_empty_professional_title() {
    let mut p = person(Some("Solo"));
    p.professional_title = Some(s(""));
    p.location = None;
    p.github = None;
    let v = tailor(&cv_with(p, vec![]), &job(), 3);
    assert_eq!(v.cv.person.professional_title.as_deref(), Some(""));
    assert_eq!(cv_paragraphs(&v, false), vec![s("Solo"), s("Experience")]);
    assert!(cv_docx(&v, CvTemplate::Classic, false).ok().unwrap().starts_with(b"PK"));
}

#[test]
fn contact_line_joins_present_nonempty_fields() {
    let mut p = person(Some("Has Contact"));
    p.location = Some(s("Berlin"));
    p.email = Some(s(""));
    p.github = Some(s("gh/x"));
    let v = tailor(&cv_with(p, vec![]), &job(), 3);
    let line = cv_paragraphs(&v, false)[2].clone();
    assert_eq!(line, "Berlin  ·  gh/x");
}

#[test]
fn cv_docx_handles_no_name_end_date_location_and_hidden() {
    let mut hidden = exp("e1", "Hidden", "2019", None, None, vec![ach("e1_b0", "unseen")]);
    hidden.hide = Some(true);
    let cv = cv_with(
        person(None),
        vec![exp("e0", "Engineer", "Jan 2020", Some("Dec 2022"), Some("Remote"), vec![ach("e0_b0", "Did a thing")]), hidden],
    );
    let v = tailor(&cv, &job(), 3);
    assert!(v.cv.person.name.is_none());
    let bytes = cv_docx(&v, CvTemplate::Classic, false).ok().unwrap();
    assert!(bytes.starts_with(b"PK"));
    let text = document_text(&bytes);
    assert!(text.contains("Engineer  Jan 2020 – Dec 2022"));
    assert!(text.contains("Acme · Remote"));
    assert!(!text.contains("Hidden"));
}

#[test]
fn cv_docx_skips_an_injected_hidden_experience() {
    let mut v = view();
    let mut hidden = exp("hidden0", "ZZZHiddenTitle", "2018", Some("2019"), Some("Nowhere"), vec![ach("hidden0_b0", "unseen work")]);
    hidden.hide = Some(true);
    v.cv.experience.push(hidden);
    let bytes = cv_docx(&v, CvTemplate::Classic, false).ok().unwrap();
    assert!(bytes.starts_with(b"PK"));
    assert!(!document_text(&bytes).contains("ZZZHiddenTitle"));
}

#[test]
fn cv_docx_handles_missing_end_date_and_location() {
    let cv = cv_with(person(Some("Cur")), vec![exp("e0", "Cur", "2021", None, None, vec![ach("e0_b0", "ongoing")])]);
    let mut v = tailor(&cv, &job(), 3);
    v.cv.person.location = None;
    v.cv.person.github = None;
    let e = &v.cv.experience[0];
    assert!(e.end_date.is_none());
    assert!(e.location.is_none());
    let text = document_text(&cv_docx(&v, CvTemplate::Classic, false).ok().unwrap());
    assert!(text.contains("Cur"));
    assert!(!text.contains(" – "));
    assert!(!text.contains(" · "));
}

#[test]
fn cv_docx_handles_empty_end_date_and_location() {
    let cv = cv_with(person(Some("Cur")), vec![exp("e0", "Cur", "2021", Some(""), Some(""), vec![ach("e0_b0", "ongoing")])]);
    let mut v = tailor(&cv, &job(), 3);
    v.cv.person.location = None;
    v.cv.person.github = None;
    let e = &v.cv.experience[0];
    assert_eq!(e.end_date.as_deref(), Some(""));
    assert_eq!(e.location.as_deref(), Some(""));
    let text = document_text(&cv_docx(&v, CvTemplate::Classic, false).ok().unwrap());
    assert!(!text.contains(" – "));
    assert!(!text.contains(" · "));
}

#[test]
fn cover_letter_docx_authors_non_empty_bytes_and_handles_empty_name() {
    let letter = build_cover_letter(&view(), &job(), &master());
    assert!(cover_letter_docx(&letter, false).ok().unwrap().starts_with(b"PK"));
    let mut bare = letter.clone();
    bare.candidate_name = String::new();
    bare.strengths.clear();
    assert!(cover_letter_docx(&bare, true).ok().unwrap().starts_with(b"PK"));
    let p = cover_letter_paragraphs(&bare, true);
    assert_eq!(p[0], SAMPLE_WATERMARK);
    assert_eq!(p[1], "Dear Hiring Team,");
    assert_eq!(p.len(), 4);
}

#[test]
fn cv_docx_is_a_valid_zip_with_document_xml() {
    let bytes = cv_docx(&view(), CvTemplate::Classic, false).ok().unwrap();
    let mut zip = zip::ZipArchive::new(Cursor::new(bytes)).expect("output must be a valid zip");
    assert!(zip.by_name("word/document.xml").is_ok());
}

#[test]
fn cv_docx_round_trips_through_cvimport_with_name_and_job_titles() {
    let bytes = cv_docx(&view(), CvTemplate::Classic, false).ok().unwrap();
    let recovered = import_docx(&bytes).expect("the importer reads our docx");
    let text = document_text(&bytes);
    assert!(text.contains("Devin Voss"));
    for e in &view().cv.experience {
        assert!(text.contains(&e.job_title));
    }
    assert_eq!(recovered.schema_version, "1.0.0");
    assert_eq!(recovered.person.name.as_deref(), Some("Devin Voss"));
}

#[test]
fn every_cv_heading_is_in_the_shared_vocabulary() {
    for template in [CvTemplate::Classic, CvTemplate::Compact] {
        let text = document_text(&cv_docx(&view(), template, false).ok().unwrap());
        let allowed = template.heading_vocabulary();
        for label in ["Languages", "Skills", "Tools & Technologies", "Platforms & Services"] {
            if text.contains(label) {
                assert!(allowed.contains(&label));
            }
        }
        assert!(text.contains("Experience"));
        assert!(allowed.contains(&"Experience"));
    }
}

#[test]
fn every_selected_achievement_description_is_present() {
    let v = view();
    let text = document_text(&cv_docx(&v, CvTemplate::Classic, false).ok().unwrap());
    for e in &v.cv.experience {
        for a in &e.achievements_tasks {
            assert!(text.contains(&a.description), "missing {:?}", a.description);
        }
    }
}

#[test]
fn cover_letter_docx_carries_strengths_evidence_greeting_and_closing() {
    let letter = build_cover_letter(&view(), &job(), &master());
    assert!(!letter.strengths.is_empty());
    let text = document_text(&cover_letter_docx(&letter, false).ok().unwrap());
    assert!(text.contains(&letter.greeting));
    assert!(text.contains(letter.closing.lines().next().unwrap()));
    for st in &letter.strengths {
        assert!(text.contains(&st.text));
        assert!(text.contains(&format!("[evidence: {}]", st.source_evidence_id)));
    }
}

#[test]
fn watermark_true_emits_sentinel_false_does_not_cv() {
    let on = cv_docx(&view(), CvTemplate::Classic, true).ok().unwrap();
    let off = cv_docx(&view(), CvTemplate::Classic, false).ok().unwrap();
    assert!(document_text(&on).contains(SAMPLE_WATERMARK));
    assert!(!document_text(&off).contains(SAMPLE_WATERMARK));
}

#[test]
fn watermark_true_emits_sentinel_false_does_not_cover_letter() {
    let letter = build_cover_letter(&view(), &job(), &master());
    let on = cover_letter_docx(&letter, true).ok().unwrap();
    let off = cover_letter_docx(&letter, false).ok().unwrap();
    assert!(document_text(&on).contains(SAMPLE_WATERMARK));
    assert!(!document_text(&off).contains(SAMPLE_WATERMARK));
}

#[test]
fn empty_experience_persona_authors_valid_docx() {
    let v = tailor(&cv_with(person(Some("X")), vec![]), &job(), 3);
    let bytes = cv_docx(&v, CvTemplate::Classic, false).ok().unwrap();
    let mut zip = zip::ZipArchive::new(Cursor::new(bytes)).expect("valid zip");
    assert!(zip.by_name("word/document.xml").is_ok());
}

#[test]
fn unicode_name_persona_authors_valid_docx() {
    let v = tailor(&cv_with(person(Some("Café Ünïcøde")), vec![]), &job(), 3);
    let bytes = cv_docx(&v, CvTemplate::Compact, true).ok().unwrap();
    assert!(document_text(&bytes).contains("Café Ünïcøde"));
}

#[test]
fn both_templates_author_valid_docx() {
    for template in [CvTemplate::Classic, CvTemplate::Compact] {
        let bytes = cv_docx(&view(), template, false).ok().unwrap();
        let mut zip = zip::ZipArchive::new(Cursor::new(bytes)).expect("valid zip");
        assert!(zip.by_name("word/document.xml").is_ok());
    }
}

#[test]
fn cv_docx_is_length_deterministic() {
    let v = view();
    let a = cv_docx(&v, CvTemplate::Classic, false).ok().unwrap();
    let b = cv_docx(&v, CvTemplate::Classic, false).ok().unwrap();
    assert_eq!(a.len(), b.len());
}

#[test]
fn cover_letter_docx_is_length_deterministic() {
    let letter = build_cover_letter(&view(), &job(), &master());
    let a = cover_letter_docx(&letter, true).ok().unwrap();
    let b = cover_letter_docx(&letter, true).ok().unwrap();
    assert_eq!(a.len(), b.len());
}

#[test]
fn build_docx_makes_one_paragraph_per_text_without_line_feeds() {
    let doc = build_docx(&vec!["Devin\nVoss".to_string(), "".to_string(), "Engineer".to_string()]);
    let mut buf = Cursor::new(Vec::new());
    doc.build().pack(&mut buf).unwrap();
    let t = extract_docx(&buf.into_inner()).unwrap();
    assert_eq!(t.lines, vec!["DevinVoss".to_string(), "".to_string(), "Engineer".to_string()]);
}

/// A paragraph as the importer reads it back: line feeds gone, characters written as
/// entity references dropped, trailing whitespace trimmed.
fn unescaped_text(p: &str) -> String {
    p.replace(['\n', '&', '<', '>', '"', '\''], "").trim_end().to_string()
}

#[test]
fn cv_docx_reads_back_as_its_paragraphs_trimmed() {
    let v = view();
    let bytes = cv_docx(&v, CvTemplate::Classic, false).ok().unwrap();
    let lines = extract_docx(&bytes).unwrap().lines;
    let expected: Vec<String> = cv_paragraphs(&v, false).iter().map(|p| unescaped_text(p)).collect();
    assert_eq!(lines, expected);
    let cv = import_docx(&bytes).unwrap();
    assert_eq!(cv.person.name, v.cv.person.name);
}

#[test]
fn cover_letter_docx_reads_back_as_its_paragraphs_trimmed() {
    let letter = build_cover_letter(&view(), &job(), &master());
    let bytes = cover_letter_docx(&letter, true).ok().unwrap();
    let lines = extract_docx(&bytes).unwrap().lines;
    let expected: Vec<String> =
        cover_letter_paragraphs(&letter, true).iter().map(|p| unescaped_text(p)).collect();
    assert_eq!(lines, expected);
    assert_eq!(lines[0], SAMPLE_WATERMARK);
}
