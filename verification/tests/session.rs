use applicant_advocate::jobparse::parse;
use applicant_advocate::ledger::{cv_ledger, guard};
use applicant_advocate::session::{CommandError, Session};
use applicant_advocate::types::{Achievement, CoreError, Experience, MasterCv, Person, Skill};

const JD: &str = "We are hiring a Senior Backend Engineer at Acme Group. You will own delivery end to end. Required: Strong TypeScript or Python; Stakeholder management; AWS or GCP experience. Nice to have: GraphQL; Fintech domain knowledge.";

fn s(x: &str) -> String {
    x.to_string()
}

fn ach(id: &str, desc: &str) -> Achievement {
    Achievement { id: s(id), description: s(desc), emphasise: None, tags: vec![], metrics: vec![], evidence_strength_milli: Some(500) }
}

fn persona() -> MasterCv {
    MasterCv {
        schema_version: s("1.0.0"),
        person: Person {
            name: Some(s("Devin Voss")),
            professional_title: Some(s("Backend Engineer")),
            professional_description: None,
            location: None,
            email: None,
            phone: None,
            linkedin: None,
            github: None,
            website: None,
            image: None,
        },
        headline: None,
        summary_variants: vec![s("Backend engineer shipping Python services on AWS")],
        programming_languages: vec![Skill { name: s("Python"), proficiency: 4, aliases: vec![], evidence_ids: vec![] }],
        skills: vec![],
        tools_technologies: vec![],
        as_a_services: vec![Skill { name: s("AWS"), proficiency: 4, aliases: vec![], evidence_ids: vec![] }],
        experience: vec![Experience {
            id: s("exp_1_0"),
            job_title: s("Backend Engineer"),
            business_name: s("Acme"),
            consultancy: None,
            location: None,
            employment_type: None,
            start_date: s("Jan 2021"),
            end_date: None,
            domain: None,
            hide: None,
            contact: None,
            tags: vec![],
            achievements_tasks: vec![
                ach("exp_1_0_b0", "Built Python services on AWS"),
                ach("exp_1_0_b1", "Ran stakeholder management reviews"),
            ],
        }],
        projects: vec![],
        education: vec![],
        certifications: vec![],
        awards: vec![],
        preferences: None,
    }
}

#[test]
fn coverage_requires_cv_and_job() {
    let sess = Session::new();
    assert!(matches!(sess.compute_coverage(), Err(CommandError::NoMasterCv)));
}

#[test]
fn parse_job_requires_cv_for_coverage() {
    let mut sess = Session::new();
    sess.set_master_cv(persona());
    assert!(matches!(sess.compute_coverage(), Err(CommandError::NoJob)));
}

#[test]
fn full_command_journey() {
    let mut sess = Session::new();
    sess.set_master_cv(persona());
    sess.parse_job(JD).unwrap();
    let cov = sess.compute_coverage().unwrap();
    assert_eq!(cov.must_have.len(), 3);
    let view = sess.tailored_view().unwrap();
    assert!(!view.cv.experience.is_empty());
    let (pruned, letter, coverage) = sess.prepare_export().unwrap();
    assert_eq!(pruned.selected_ids, view.selected_ids);
    assert_eq!(letter.candidate_name, "Devin Voss");
    assert_eq!(coverage, cov);
}

#[test]
fn reject_removes_bullet_from_export() {
    let mut sess = Session::new();
    sess.set_master_cv(persona());
    sess.parse_job(JD).unwrap();
    let view = sess.tailored_view().unwrap();
    let first_id = view.cv.experience[0].achievements_tasks[0].id.clone();
    sess.set_decision(&first_id, false);
    let pruned = sess.apply_decisions(sess.tailored_view().unwrap());
    assert!(!pruned.cv.experience.iter().flat_map(|e| e.achievements_tasks.iter()).any(|a| a.id == first_id));
    assert!(!pruned.selected_ids.contains(&first_id));
    assert!(guard(&cv_ledger(&pruned), &persona()).is_ok());
}

#[test]
fn approve_keeps_bullet() {
    let mut sess = Session::new();
    sess.set_master_cv(persona());
    sess.parse_job(JD).unwrap();
    let view = sess.tailored_view().unwrap();
    let first_id = view.cv.experience[0].achievements_tasks[0].id.clone();
    sess.set_decision(&first_id, true);
    let kept = sess.apply_decisions(sess.tailored_view().unwrap());
    assert!(kept.cv.experience.iter().flat_map(|e| e.achievements_tasks.iter()).any(|a| a.id == first_id));
}

#[test]
fn latest_decision_wins() {
    let mut sess = Session::new();
    sess.set_master_cv(persona());
    sess.parse_job(JD).unwrap();
    sess.set_decision("exp_1_0_b0", false);
    sess.set_decision("exp_1_0_b0", true);
    let kept = sess.apply_decisions(sess.tailored_view().unwrap());
    assert!(kept.selected_ids.contains(&s("exp_1_0_b0")));
}

#[test]
fn seam_roundtrips_jobparse_to_core() {
    let parsed = parse(JD);
    assert_eq!(parsed.requirements.must_have.len(), 3);
    assert_eq!(parsed.requirements.nice_to_have.len(), 2);
    assert_eq!(parsed.title, "Senior Backend Engineer");
    assert_eq!(parsed.company, "Acme Group");
}

#[test]
fn export_requires_state() {
    assert!(Session::new().prepare_export().is_err());
}

#[test]
fn command_error_display() {
    assert!(CommandError::NoMasterCv.message().contains("no master CV"));
    assert!(CommandError::NoJob.message().contains("no job"));
    assert!(CommandError::ExportBlocked("x".into()).message().contains("export blocked"));
    assert!(CommandError::Render("x".into()).message().contains("render failed"));
    assert!(matches!(CommandError::from_core(CoreError::LedgerBlocked("z".into())), CommandError::ExportBlocked(_)));
    assert!(matches!(CommandError::from_core(CoreError::Render("z".into())), CommandError::Render(_)));
    assert!(matches!(CommandError::from_core(CoreError::MasterCvParse("z".into())), CommandError::Import(_)));
}

#[test]
fn parse_job_accepts_text_whose_lowercase_changes_length() {
    let mut sess = Session::new();
    sess.parse_job("Required: \u{130}stanbul.").unwrap();
    assert!(sess.job().is_some());
}
