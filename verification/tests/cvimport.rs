use applicant_advocate::cvimport::extract::{extract_docx, extract_pdf, from_flat};
use applicant_advocate::cvimport::segment::{segment, ExperienceBlock, Segments, SkillBucket};
use applicant_advocate::cvimport::map::to_master_cv;
use applicant_advocate::cvimport::{import_docx, import_extracted, import_pdf, ExtractedText, ImportError, ResumeKind};
use docx_rs::{Docx, Paragraph, Run};
use std::io::{Cursor, Write};
use zip::write::SimpleFileOptions;

fn docx_of(paragraphs: &[&str]) -> Vec<u8> {
    let mut doc = Docx::new();
    for p in paragraphs {
        doc = doc.add_paragraph(Paragraph::new().add_run(Run::new().add_text(*p)));
    }
    let mut buf = Cursor::new(Vec::new());
    doc.build().pack(&mut buf).unwrap();
    buf.into_inner()
}

fn zip_with(name: &str, content: &[u8]) -> Vec<u8> {
    let mut buf = Cursor::new(Vec::new());
    {
        let mut w = zip::ZipWriter::new(&mut buf);
        w.start_file(name, SimpleFileOptions::default()).unwrap();
        w.write_all(content).unwrap();
        w.finish().unwrap();
    }
    buf.into_inner()
}

fn docx_with_job_title_prefix(prefix: &str) -> Vec<u8> {
    let line = format!("{prefix}Engineer Jan 2020 – Present");
    docx_of(&["Devin Voss", "Engineer", "Experience", &line, "Acme Co · Sydney", "Did a thing"])
}

fn persona_lines() -> Vec<&'static str> {
    vec![
        "Devin Voss",
        "Senior Backend Engineer",
        "Languages",
        "Python, Go",
        "Skills",
        "Docker",
        "Experience",
        "Backend Engineer Nov 2022 – Present",
        "Acme Co · Sydney",
        "Cut p99 latency by 38%",
        "Platform Engineer Jan 2019 – Oct 2022",
        "Beta · Perth",
        "Ran the on-call rota",
    ]
}

#[test]
fn unsupported_kind_is_a_typed_error() {
    let err = ResumeKind::parse("xlsx").unwrap_err();
    assert!(matches!(err, ImportError::UnsupportedKind(ref k) if k == "xlsx"));
    assert!(err.message().contains("unsupported résumé kind"));
}

#[test]
fn resume_kind_parse_accepts_known_kinds_case_insensitively() {
    assert_eq!(ResumeKind::parse("PDF").unwrap(), ResumeKind::Pdf);
    assert_eq!(ResumeKind::parse(" docx ").unwrap(), ResumeKind::Docx);
}

#[test]
fn docx_path_recovers_a_master_cv() {
    let bytes = docx_of(&persona_lines());
    let cv = import_docx(&bytes).expect("docx imports");
    assert_eq!(cv.person.name.as_deref(), Some("Devin Voss"));
    assert_eq!(cv.person.professional_title.as_deref(), Some("Senior Backend Engineer"));
    assert_eq!(cv.experience.len(), 2);
    assert_eq!(cv.experience[0].job_title, "Backend Engineer");
    assert_eq!(cv.experience[1].business_name, "Beta");
    assert_eq!(cv.programming_languages.len(), 2);
    assert_eq!(cv.skills[0].name, "Docker");
}

#[test]
fn garbage_pdf_bytes_return_extract_error_not_panic() {
    let extracted = pdf_extract::extract_text_from_mem(b"this is definitely not a pdf file").map_err(|e| e.to_string());
    let result = import_pdf(extracted);
    assert!(matches!(result, Err(ImportError::Extract(_))), "got {result:?}");
}

#[test]
fn truncated_docx_zip_returns_decode_error() {
    let err = import_docx(b"PK\x03\x04 truncated garbage").unwrap_err();
    assert!(matches!(err, ImportError::Decode(_)), "got {err:?}");
    assert!(err.message().contains("could not decode"));
}

#[test]
fn structureless_docx_returns_empty_error() {
    let err = import_docx(&docx_of(&["   "])).unwrap_err();
    assert!(matches!(err, ImportError::Empty), "got {err:?}");
    assert!(err.message().contains("no recognisable content"));
}

#[test]
fn valid_zip_missing_document_part_returns_decode_error() {
    let err = import_docx(&zip_with("notes.txt", b"not a docx")).unwrap_err();
    assert!(matches!(err, ImportError::Decode(_)), "got {err:?}");
    assert!(err.message().contains("word/document.xml"));
}

#[test]
fn malformed_document_xml_returns_decode_error() {
    let bytes = zip_with("word/document.xml", b"<w:document></w:body></w:document>");
    let err = import_docx(&bytes).unwrap_err();
    assert!(matches!(err, ImportError::Decode(_)), "got {err:?}");
}

#[test]
fn invalid_utf8_document_xml_returns_decode_error() {
    let bytes = zip_with("word/document.xml", b"<w:document>\xFF</w:document>");
    let err = import_docx(&bytes).unwrap_err();
    assert!(matches!(err, ImportError::Decode(_)), "got {err:?}");
}

#[test]
fn oversized_document_xml_returns_decode_error_without_oom() {
    const PAYLOAD_LEN: usize = 33 * 1024 * 1024;
    let mut buf = Cursor::new(Vec::new());
    {
        let mut w = zip::ZipWriter::new(&mut buf);
        w.start_file(
            "word/document.xml",
            SimpleFileOptions::default().compression_method(zip::CompressionMethod::Deflated),
        )
        .unwrap();
        w.write_all(b"<w:document><w:body>").unwrap();
        w.write_all(&vec![b'a'; PAYLOAD_LEN]).unwrap();
        w.finish().unwrap();
    }
    let bytes = buf.into_inner();
    assert!(bytes.len() < 1024 * 1024);
    let err = import_docx(&bytes).unwrap_err();
    assert!(matches!(err, ImportError::Decode(_)), "got {err:?}");
    assert!(err.message().contains("exceeds size limit"), "got {}", err.message());
}

#[test]
fn import_resume_does_not_panic_on_expanding_lowercase_title_chars() {
    for prefix in ["ẞé ", "İ "] {
        let bytes = docx_with_job_title_prefix(prefix);
        let cv = import_docx(&bytes)
            .unwrap_or_else(|e| panic!("import must succeed for {prefix:?}, got {e:?}"));
        assert_eq!(cv.person.name.as_deref(), Some("Devin Voss"));
        assert_eq!(cv.experience.len(), 1);
    }
}

#[test]
fn import_resume_ascii_title_still_parses_correctly_regression() {
    let cv = import_docx(&docx_with_job_title_prefix("Backend ")).expect("ascii imports");
    let e = &cv.experience[0];
    assert_eq!(e.job_title, "Backend Engineer");
    assert_eq!(e.start_date, "Jan 2020");
    assert_eq!(e.end_date, None);
}

#[test]
fn import_is_deterministic_same_bytes_same_output() {
    let bytes = docx_of(&persona_lines());
    let a = import_docx(&bytes).unwrap();
    let b = import_docx(&bytes).unwrap();
    assert_eq!(a, b);
}

#[test]
fn docx_extraction_keeps_one_line_per_paragraph() {
    let t = extract_docx(&docx_of(&["a", "", "b  "])).unwrap();
    assert_eq!(t.lines, vec!["a".to_string(), "".to_string(), "b".to_string()]);
}

#[test]
fn flat_text_splits_into_trimmed_lines() {
    let t = from_flat("Name  \nTitle\t\n\nSkills");
    assert_eq!(t.lines, vec!["Name".to_string(), "Title".to_string(), "".to_string(), "Skills".to_string()]);
}

#[test]
fn import_extracted_gates_on_empty_structure() {
    let blank = ExtractedText { lines: vec!["".to_string(), "  ".to_string()] };
    assert!(matches!(import_extracted(&blank), Err(ImportError::Empty)));
    let named = ExtractedText { lines: vec!["Devin Voss".to_string()] };
    let cv = import_extracted(&named).unwrap();
    assert_eq!(cv.person.name.as_deref(), Some("Devin Voss"));
}

// ── mapping ─────────────────────────────────────────────────────────────────────

fn seg() -> Segments {
    Segments {
        name: Some("Devin Voss".into()),
        title: Some("Senior Backend Engineer".into()),
        skills: vec![
            (SkillBucket::ProgrammingLanguages, vec!["Python".into(), "Go".into()]),
            (SkillBucket::AsAServices, vec!["AWS".into()]),
        ],
        experience: vec![ExperienceBlock {
            job_title: "Backend Engineer".into(),
            business_name: "Acme Co".into(),
            start_date: "Nov 2022".into(),
            end_date: None,
            location: Some("Sydney".into()),
            bullets: vec!["Cut latency".into(), "Added tests".into()],
        }],
    }
}

#[test]
fn maps_person_and_headline() {
    let cv = to_master_cv(seg());
    assert_eq!(cv.person.name.as_deref(), Some("Devin Voss"));
    assert_eq!(cv.person.professional_title.as_deref(), Some("Senior Backend Engineer"));
    assert_eq!(cv.headline.as_deref(), Some("Senior Backend Engineer"));
    assert_eq!(cv.schema_version, "1.0.0");
}

#[test]
fn maps_skills_into_correct_lists_with_default_proficiency() {
    let cv = to_master_cv(seg());
    assert_eq!(cv.programming_languages.len(), 2);
    assert_eq!(cv.programming_languages[0].name, "Python");
    assert_eq!(cv.programming_languages[0].proficiency, 3);
    assert_eq!(cv.as_a_services.len(), 1);
    assert_eq!(cv.as_a_services[0].name, "AWS");
    assert!(cv.skills.is_empty());
    assert!(cv.tools_technologies.is_empty());
}

#[test]
fn maps_experience_and_achievements() {
    let cv = to_master_cv(seg());
    assert_eq!(cv.experience.len(), 1);
    let e = &cv.experience[0];
    assert_eq!(e.job_title, "Backend Engineer");
    assert_eq!(e.business_name, "Acme Co");
    assert_eq!(e.start_date, "Nov 2022");
    assert_eq!(e.location.as_deref(), Some("Sydney"));
    assert_eq!(e.achievements_tasks.len(), 2);
    assert_eq!(e.achievements_tasks[0].description, "Cut latency");
}

#[test]
fn assigns_deterministic_synthetic_ids() {
    let mut s = seg();
    s.experience.push(ExperienceBlock {
        job_title: "Earlier".into(),
        business_name: "Beta".into(),
        start_date: "Jan 2019".into(),
        end_date: Some("Dec 2020".into()),
        location: None,
        bullets: vec!["did x".into()],
    });
    let cv = to_master_cv(s);
    assert_eq!(cv.experience[0].id, "imp_exp_0");
    assert_eq!(cv.experience[0].achievements_tasks[0].id, "imp_exp_0_b0");
    assert_eq!(cv.experience[0].achievements_tasks[1].id, "imp_exp_0_b1");
    assert_eq!(cv.experience[1].id, "imp_exp_1");
    assert_eq!(cv.experience[1].achievements_tasks[0].id, "imp_exp_1_b0");
}

#[test]
fn id_assignment_is_deterministic_across_runs() {
    assert_eq!(to_master_cv(seg()), to_master_cv(seg()));
}

#[test]
fn sparse_segments_still_yield_required_fields() {
    let cv = to_master_cv(Segments { name: Some("Solo".into()), ..Default::default() });
    assert_eq!(cv.schema_version, "1.0.0");
    assert_eq!(cv.person.name.as_deref(), Some("Solo"));
    assert!(cv.experience.is_empty());
    assert_eq!(cv.headline, None);
}

#[test]
fn unknown_start_date_is_empty_not_invented() {
    let cv = to_master_cv(Segments {
        name: Some("N".into()),
        experience: vec![ExperienceBlock {
            job_title: "Eng".into(),
            business_name: "Biz".into(),
            start_date: String::new(),
            end_date: None,
            location: None,
            bullets: vec![],
        }],
        ..Default::default()
    });
    assert_eq!(cv.experience[0].start_date, "");
}

#[test]
fn segment_then_map_round_trip_of_a_small_resume() {
    let t = ExtractedText { lines: persona_lines().iter().map(|l| l.to_string()).collect() };
    let seg = segment(&t);
    assert_eq!(seg.experience.len(), 2);
    let cv = to_master_cv(seg);
    assert_eq!(cv.experience[1].achievements_tasks[0].description, "Ran the on-call rota");
}

#[test]
fn pdf_text_splits_into_lines_and_extractor_errors_become_extract() {
    let t = extract_pdf(Ok("Devin Voss  \nEngineer\n".to_string())).unwrap();
    assert_eq!(t.lines, vec!["Devin Voss".to_string(), "Engineer".to_string()]);
    let err = extract_pdf(Err("bad xref".to_string())).unwrap_err();
    assert!(matches!(&err, ImportError::Extract(m) if m == "bad xref"), "got {err:?}");
    assert!(matches!(import_pdf(Err("bad xref".to_string())), Err(ImportError::Extract(_))));
}
