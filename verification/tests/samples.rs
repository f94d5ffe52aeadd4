use applicant_advocate::samples::{
    cover_letter_filename, cover_letter_filename_ext, cv_filename, cv_filename_ext, decide, empty_person,
    fill_with_samples, ExportDecision, MissingFields, BLOCKED_MESSAGE, SAMPLE_WATERMARK,
};
use applicant_advocate::types::{Experience, MasterCv};

#[test]
fn decide_no_samples_renders_normal_regardless_of_flag() {
    assert_eq!(decide(false, false), ExportDecision::RenderNormal);
    assert_eq!(decide(false, true), ExportDecision::RenderNormal);
}

#[test]
fn decide_samples_without_allow_is_blocked() {
    assert_eq!(decide(true, false), ExportDecision::Blocked);
}

#[test]
fn decide_samples_with_allow_renders_watermarked() {
    assert_eq!(decide(true, true), ExportDecision::RenderWithWatermark);
}

#[test]
fn export_decision_predicates() {
    assert!(ExportDecision::RenderNormal.renders());
    assert!(!ExportDecision::RenderNormal.is_sample());
    assert!(ExportDecision::RenderWithWatermark.renders());
    assert!(ExportDecision::RenderWithWatermark.is_sample());
    assert!(!ExportDecision::Blocked.renders());
    assert!(!ExportDecision::Blocked.is_sample());
}

#[test]
fn filenames_switch_on_sampleness() {
    assert_eq!(cv_filename(false), "cv.pdf");
    assert_eq!(cv_filename(true), "cv.SAMPLE.pdf");
    assert_eq!(cover_letter_filename(false), "cover-letter.pdf");
    assert_eq!(cover_letter_filename(true), "cover-letter.SAMPLE.pdf");
}

#[test]
fn cv_filename_ext_switches_on_sampleness_and_extension() {
    assert_eq!(cv_filename_ext(false, "pdf"), "cv.pdf");
    assert_eq!(cv_filename_ext(true, "pdf"), "cv.SAMPLE.pdf");
    assert_eq!(cv_filename_ext(false, "docx"), "cv.docx");
    assert_eq!(cv_filename_ext(true, "docx"), "cv.SAMPLE.docx");
}

#[test]
fn cover_letter_filename_ext_switches_on_sampleness_and_extension() {
    assert_eq!(cover_letter_filename_ext(false, "pdf"), "cover-letter.pdf");
    assert_eq!(cover_letter_filename_ext(true, "pdf"), "cover-letter.SAMPLE.pdf");
    assert_eq!(cover_letter_filename_ext(false, "docx"), "cover-letter.docx");
    assert_eq!(cover_letter_filename_ext(true, "docx"), "cover-letter.SAMPLE.docx");
}

#[test]
fn static_pdf_helpers_agree_with_ext_helpers() {
    assert_eq!(cv_filename(false), cv_filename_ext(false, "pdf"));
    assert_eq!(cv_filename(true), cv_filename_ext(true, "pdf"));
    assert_eq!(cover_letter_filename(false), cover_letter_filename_ext(false, "pdf"));
    assert_eq!(cover_letter_filename(true), cover_letter_filename_ext(true, "pdf"));
}

#[test]
fn missing_fields_any() {
    assert!(!MissingFields::new(false, false, false, false).any());
    assert!(MissingFields::new(true, false, false, false).any());
    assert!(MissingFields::new(false, false, false, true).any());
}

fn empty_cv() -> MasterCv {
    MasterCv {
        schema_version: "1.0.0".to_string(),
        person: empty_person(),
        headline: None,
        summary_variants: Vec::new(),
        programming_languages: Vec::new(),
        skills: Vec::new(),
        tools_technologies: Vec::new(),
        as_a_services: Vec::new(),
        experience: Vec::new(),
        projects: Vec::new(),
        education: Vec::new(),
        certifications: Vec::new(),
        awards: Vec::new(),
        preferences: None,
    }
}

#[test]
fn fill_nothing_missing_is_noop() {
    let mut cv = empty_cv();
    let used = fill_with_samples(&mut cv, MissingFields::new(false, false, false, false));
    assert!(!used);
    assert!(cv.person.name.is_none());
    assert!(cv.experience.is_empty());
    assert!(cv.skills.is_empty());
    assert_eq!(cv, empty_cv());
}

#[test]
fn fill_name_inserts_obviously_synthetic_name() {
    let mut cv = empty_cv();
    assert!(fill_with_samples(&mut cv, MissingFields::new(true, false, false, false)));
    assert_eq!(cv.person.name.as_deref(), Some("Alex Sample"));
}

#[test]
fn fill_experience_synthesises_role_with_real_ids() {
    let mut cv = empty_cv();
    assert!(fill_with_samples(&mut cv, MissingFields::new(false, true, false, false)));
    assert_eq!(cv.experience.len(), 1);
    let e = &cv.experience[0];
    assert_eq!(e.id, "imp_exp_0");
    assert_eq!(e.job_title, "Sample Role");
    assert_eq!(e.business_name, "Sample Company");
    assert_eq!(e.achievements_tasks.len(), 1);
    assert_eq!(e.achievements_tasks[0].id, "imp_exp_0_b0");
}

#[test]
fn fill_achievement_attaches_to_existing_experience() {
    let mut cv = empty_cv();
    cv.experience.push(Experience {
        id: "imp_exp_0".to_string(),
        job_title: "Engineer".to_string(),
        business_name: "Acme".to_string(),
        consultancy: None,
        location: None,
        employment_type: None,
        start_date: "2019".to_string(),
        end_date: None,
        domain: None,
        hide: None,
        contact: None,
        tags: Vec::new(),
        achievements_tasks: Vec::new(),
    });
    assert!(fill_with_samples(&mut cv, MissingFields::new(false, false, true, false)));
    assert_eq!(cv.experience[0].achievements_tasks.len(), 1);
    assert_eq!(cv.experience[0].achievements_tasks[0].id, "imp_exp_0_b0");
}

#[test]
fn fill_achievement_with_no_experience_present_is_noop_for_that_class() {
    let mut cv = empty_cv();
    assert!(!fill_with_samples(&mut cv, MissingFields::new(false, false, true, false)));
    assert!(cv.experience.is_empty());
}

#[test]
fn fill_skill_inserts_synthetic_skill() {
    let mut cv = empty_cv();
    assert!(fill_with_samples(&mut cv, MissingFields::new(false, false, false, true)));
    assert_eq!(cv.skills.len(), 1);
    assert_eq!(cv.skills[0].name, "Sample Skill");
    assert_eq!(cv.skills[0].proficiency, 3);
}

#[test]
fn fill_all_classes_sets_used_and_is_ledger_shaped() {
    let mut cv = empty_cv();
    assert!(fill_with_samples(&mut cv, MissingFields::new(true, true, true, true)));
    assert_eq!(cv.person.name.as_deref(), Some("Alex Sample"));
    assert_eq!(cv.experience.len(), 1);
    assert_eq!(cv.experience[0].achievements_tasks.len(), 1);
    assert_eq!(cv.skills.len(), 1);
}

#[test]
fn watermark_and_blocked_message_are_the_pinned_wording() {
    assert_eq!(SAMPLE_WATERMARK, "[SAMPLE — REPLACE BEFORE SENDING]");
    assert!(BLOCKED_MESSAGE.contains("--allow-samples"));
}

#[test]
fn empty_person_is_all_none() {
    let p = empty_person();
    assert!(p.name.is_none() && p.email.is_none() && p.phone.is_none());
}

#[test]
fn samples_never_export_under_normal_names() {
    for allow in [false, true] {
        let d = decide(true, allow);
        assert!(d != ExportDecision::RenderNormal);
        if d.renders() {
            assert!(d.is_sample());
        }
    }
}
