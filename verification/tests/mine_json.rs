use applicant_advocate::cvimport::mine_json::{completeness, ignored_role_arrays, import_cv_json, JsonNumber, JsonValue};
use applicant_advocate::cvimport::ImportError;
use applicant_advocate::types::{MasterCv, Skill};

fn convert(v: &serde_json::Value) -> JsonValue {
    match v {
        serde_json::Value::Null => JsonValue::Null,
        serde_json::Value::Bool(b) => JsonValue::Bool(*b),
        serde_json::Value::Number(n) => {
            if let Some(u) = n.as_u64() {
                JsonValue::Number(JsonNumber::PosInt(u))
            } else if let Some(i) = n.as_i64() {
                JsonValue::Number(JsonNumber::NegInt(i))
            } else {
                JsonValue::Number(JsonNumber::Float(n.as_f64().unwrap_or(0.0).trunc() as i64))
            }
        },
        serde_json::Value::String(s) => JsonValue::String(s.clone()),
        serde_json::Value::Array(items) => JsonValue::Array(items.iter().map(convert).collect()),
        serde_json::Value::Object(m) => JsonValue::Object(m.iter().map(|(k, x)| (k.clone(), convert(x))).collect()),
    }
}

fn jv(text: &str) -> JsonValue {
    convert(&serde_json::from_str::<serde_json::Value>(text).expect("test JSON parses"))
}

fn mine(text: &str) -> MasterCv {
    import_cv_json(&jv(text)).unwrap()
}

fn names(v: &[Skill]) -> Vec<String> {
    v.iter().map(|s| s.name.clone()).collect()
}

#[test]
fn person_name_synonym_order() {
    assert_eq!(mine(r#"{"name": "A", "fullName": "B"}"#).person.name.as_deref(), Some("A"));
    assert_eq!(mine(r#"{"fullName": "B", "candidateName": "C"}"#).person.name.as_deref(), Some("B"));
    assert_eq!(mine(r#"{"candidateName": "C"}"#).person.name.as_deref(), Some("C"));
}

#[test]
fn person_title_and_description_synonym_order() {
    let cv = mine(r#"{"name": "N", "role": "Eng", "about": "does things"}"#);
    assert_eq!(cv.person.professional_title.as_deref(), Some("Eng"));
    assert_eq!(cv.person.professional_description.as_deref(), Some("does things"));
    assert_eq!(cv.headline.as_deref(), Some("Eng"));
    let cv2 = mine(r#"{"name":"N","title":"T","role":"R","label":"L"}"#);
    assert_eq!(cv2.person.professional_title.as_deref(), Some("T"));
}

#[test]
fn person_website_url_synonym() {
    assert_eq!(mine(r#"{"name":"N","url":"https://x.example"}"#).person.website.as_deref(), Some("https://x.example"));
    assert_eq!(
        mine(r#"{"name":"N","website":"https://w.example","url":"https://u.example"}"#).person.website.as_deref(),
        Some("https://w.example")
    );
}

#[test]
fn person_keys_are_case_insensitive() {
    let cv = mine(r#"{"Name":"Dana","Email":"d@example.com","LinkedIn":"https://l.example"}"#);
    assert_eq!(cv.person.name.as_deref(), Some("Dana"));
    assert_eq!(cv.person.email.as_deref(), Some("d@example.com"));
    assert_eq!(cv.person.linkedin.as_deref(), Some("https://l.example"));
}

#[test]
fn blank_person_field_becomes_none() {
    let cv = mine(r#"{"name":"N","email":"   ","phone":""}"#);
    assert_eq!(cv.person.email, None);
    assert_eq!(cv.person.phone, None);
}

#[test]
fn dedicated_person_object_preference_and_fallback() {
    let cv = mine(r#"{"basics": {"name": "Rowan", "label": "Staff Eng"}, "email": "rowan@example.com"}"#);
    assert_eq!(cv.person.name.as_deref(), Some("Rowan"));
    assert_eq!(cv.person.professional_title.as_deref(), Some("Staff Eng"));
    assert_eq!(cv.person.email.as_deref(), Some("rowan@example.com"));
}

#[test]
fn person_object_priority_person_then_basics_then_profile() {
    let cv = mine(r#"{"person": {"name": "P"}, "basics": {"name": "B"}, "profile": {"name": "Pr"}}"#);
    assert_eq!(cv.person.name.as_deref(), Some("P"));
    let cv2 = mine(r#"{"basics": {"name": "B"}, "profile": {"name": "Pr"}}"#);
    assert_eq!(cv2.person.name.as_deref(), Some("B"));
    let cv3 = mine(r#"{"profile": {"name": "Pr"}}"#);
    assert_eq!(cv3.person.name.as_deref(), Some("Pr"));
}

#[test]
fn experience_synonym_mapping() {
    let cv = mine(r#"{"experience": [{"position": "Eng", "company": "Acme", "from": "2020", "to": "2023"}]}"#);
    assert_eq!(cv.experience.len(), 1);
    let e = &cv.experience[0];
    assert_eq!(e.job_title, "Eng");
    assert_eq!(e.business_name, "Acme");
    assert_eq!(e.start_date, "2020");
    assert_eq!(e.end_date.as_deref(), Some("2023"));
}

#[test]
fn experience_business_name_from_lowest_priority_name_key() {
    let cv = mine(r#"{"work": [{"position": "Eng", "name": "JsonResume Co"}]}"#);
    assert_eq!(cv.experience[0].business_name, "JsonResume Co");
    let cv2 = mine(r#"{"experience": [{"jobTitle": "Eng", "company": "Acme", "name": "Ignored"}]}"#);
    assert_eq!(cv2.experience[0].business_name, "Acme");
}

#[test]
fn multi_role_array_disambiguation_names_ignored() {
    let v = jv(
        r#"{"experience": [{"jobTitle": "Lead", "businessName": "N"}],
            "work": [{"position": "Junior", "name": "Old"}],
            "positions": [{"title": "Intern", "company": "Tiny"}]}"#,
    );
    let cv = import_cv_json(&v).unwrap();
    assert_eq!(cv.experience.len(), 1);
    assert_eq!(cv.experience[0].job_title, "Lead");
    let ignored = ignored_role_arrays(&v);
    assert!(ignored.contains(&"work".to_string()));
    assert!(ignored.contains(&"positions".to_string()));
    assert!(!ignored.contains(&"experience".to_string()));
}

#[test]
fn empty_role_array_is_skipped_for_next_priority() {
    let v = jv(r#"{"experience": [], "work": [{"position": "Eng", "name": "Co"}]}"#);
    let cv = import_cv_json(&v).unwrap();
    assert_eq!(cv.experience.len(), 1);
    assert_eq!(cv.experience[0].job_title, "Eng");
    assert!(!ignored_role_arrays(&v).contains(&"experience".to_string()));
}

#[test]
fn achievement_newline_split_and_object_form() {
    let cv = mine(
        r#"{"experience": [
            {"jobTitle": "T", "businessName": "B", "achievements": "line one\nline two\n\n  line three  "},
            {"jobTitle": "T2", "businessName": "B2", "achievements": "single line"},
            {"jobTitle": "T3", "businessName": "B3",
             "highlights": [{"description": "obj one"}, {"text": "obj two"}, {"name": "obj three"}, "plain"]}
        ]}"#,
    );
    assert_eq!(cv.experience[0].achievements_tasks.len(), 3);
    assert_eq!(cv.experience[0].achievements_tasks[0].description, "line one");
    assert_eq!(cv.experience[0].achievements_tasks[2].description, "line three");
    assert_eq!(cv.experience[1].achievements_tasks.len(), 1);
    assert_eq!(cv.experience[1].achievements_tasks[0].description, "single line");
    let third = &cv.experience[2].achievements_tasks;
    assert_eq!(third.len(), 4);
    assert_eq!(third[0].description, "obj one");
    assert_eq!(third[1].description, "obj two");
    assert_eq!(third[2].description, "obj three");
    assert_eq!(third[3].description, "plain");
}

#[test]
fn achievement_array_of_strings_keeps_each() {
    let cv = mine(r#"{"experience": [{"jobTitle":"T","businessName":"B","achievements":["a\nb","c"]}]}"#);
    assert_eq!(cv.experience[0].achievements_tasks.len(), 3);
}

#[test]
fn numeric_date_coerced_string_verbatim() {
    let cv = mine(r#"{"experience": [{"jobTitle":"T","businessName":"B","startDate": 2019, "endDate": 2022}]}"#);
    assert_eq!(cv.experience[0].start_date, "2019");
    assert_eq!(cv.experience[0].end_date.as_deref(), Some("2022"));
    let cv2 = mine(r#"{"experience": [{"jobTitle":"T","businessName":"B","startDate": "Jan 2019"}]}"#);
    assert_eq!(cv2.experience[0].start_date, "Jan 2019");
}

#[test]
fn skill_bucketing_by_source_key() {
    let cv = mine(
        r#"{"name":"N", "programmingLanguages": ["Rust"], "skills": ["Leadership"], "languages": ["English"],
            "tools": ["Docker"], "technologies": ["Kafka"], "toolsTechnologies": ["Terraform"],
            "asAServices": ["AWS"], "services": ["GCP"]}"#,
    );
    assert_eq!(names(&cv.programming_languages), vec!["Rust"]);
    assert!(names(&cv.skills).contains(&"Leadership".to_string()));
    assert!(names(&cv.skills).contains(&"English".to_string()));
    let tools = names(&cv.tools_technologies);
    assert!(tools.contains(&"Docker".to_string()));
    assert!(tools.contains(&"Kafka".to_string()));
    assert!(tools.contains(&"Terraform".to_string()));
    let svcs = names(&cv.as_a_services);
    assert!(svcs.contains(&"AWS".to_string()));
    assert!(svcs.contains(&"GCP".to_string()));
}

#[test]
fn skill_proficiency_honesty() {
    let cv = mine(
        r#"{"name":"N", "skills": [
            {"name":"In4","proficiency":4}, {"name":"In1","level":1}, {"name":"In5","rating":5},
            {"name":"Zero","proficiency":0}, {"name":"Seven","level":7}, {"name":"Float","rating":4.5},
            {"name":"Word","proficiency":"expert"}, {"name":"Bare"}, "PlainString"]}"#,
    );
    let p = |n: &str| cv.skills.iter().find(|s| s.name == n).unwrap().proficiency;
    assert_eq!(p("In4"), 4);
    assert_eq!(p("In1"), 1);
    assert_eq!(p("In5"), 5);
    assert_eq!(p("Zero"), 3);
    assert_eq!(p("Seven"), 3);
    assert_eq!(p("Float"), 3);
    assert_eq!(p("Word"), 3);
    assert_eq!(p("Bare"), 3);
    assert_eq!(p("PlainString"), 3);
}

#[test]
fn skill_proficiency_priority_order() {
    let cv = mine(r#"{"name":"N", "skills": [{"name":"S","proficiency":2,"level":5,"rating":1}]}"#);
    assert_eq!(cv.skills[0].proficiency, 2);
}

#[test]
fn skill_object_without_name_is_dropped() {
    let cv = mine(r#"{"name":"N","skills":[{"proficiency":4}, {"name":""}, "Keep"]}"#);
    assert_eq!(names(&cv.skills), vec!["Keep".to_string()]);
}

#[test]
fn synthetic_id_synthesis() {
    let cv = mine(
        r#"{"experience": [{"jobTitle":"A","businessName":"X","achievements":"b0\nb1"},
                            {"jobTitle":"B","businessName":"Y","achievements":"c0"}]}"#,
    );
    assert_eq!(cv.experience[0].id, "imp_exp_0");
    assert_eq!(cv.experience[0].achievements_tasks[0].id, "imp_exp_0_b0");
    assert_eq!(cv.experience[0].achievements_tasks[1].id, "imp_exp_0_b1");
    assert_eq!(cv.experience[1].id, "imp_exp_1");
    assert_eq!(cv.experience[1].achievements_tasks[0].id, "imp_exp_1_b0");
}

#[test]
fn import_is_deterministic() {
    let v = jv(r#"{"name":"N","experience":[{"jobTitle":"T","businessName":"B"}]}"#);
    assert_eq!(import_cv_json(&v).unwrap(), import_cv_json(&v).unwrap());
}

#[test]
fn input_value_not_mutated() {
    let v = jv(r#"{"name":"N","skills":["Rust"]}"#);
    let before = format!("{v:?}");
    let _ = import_cv_json(&v).unwrap();
    assert_eq!(format!("{v:?}"), before);
}

#[test]
fn experience_emitted_iff_nonempty_jobtitle() {
    let cv = mine(
        r#"{"experience": [{"jobTitle":"Has Title"}, {"businessName":"No Title Co"},
                            {"jobTitle":"", "businessName":"Blank"}, {"jobTitle":"Second"}]}"#,
    );
    assert_eq!(cv.experience.len(), 2);
    assert_eq!(cv.experience[0].job_title, "Has Title");
    assert_eq!(cv.experience[0].business_name, "");
    assert_eq!(cv.experience[0].start_date, "");
    assert_eq!(cv.experience[1].job_title, "Second");
    assert_eq!(cv.experience[0].id, "imp_exp_0");
    assert_eq!(cv.experience[1].id, "imp_exp_1");
}

#[test]
fn completeness_flags_each_class() {
    let full = mine(r#"{"name":"N", "skills":["Rust"], "experience":[{"jobTitle":"T","businessName":"B","achievements":"did x"}]}"#);
    let r = completeness(&full, &vec![]);
    assert!(!r.missing_person_name);
    assert!(!r.missing_experience);
    assert!(!r.missing_achievement);
    assert!(!r.missing_skill);
    assert!(r.is_complete());
    let part = mine(r#"{"name":"N","skills":["Rust"],"experience":[{"jobTitle":"T"}]}"#);
    let r2 = completeness(&part, &vec![]);
    assert!(r2.missing_experience);
    assert!(r2.missing_achievement);
    assert!(!r2.is_complete());
    let none = mine(r#"{"experience":[{"jobTitle":"T","businessName":"B"}]}"#);
    let r3 = completeness(&none, &vec![]);
    assert!(r3.missing_person_name);
    assert!(r3.missing_skill);
    assert!(!r3.missing_experience);
}

#[test]
fn completeness_lists_ignored_role_arrays() {
    let cv = mine(r#"{"name":"N","skills":["X"], "experience":[{"jobTitle":"T","businessName":"B","achievements":"a"}]}"#);
    let r = completeness(&cv, &vec!["work".to_string(), "positions".to_string()]);
    assert_eq!(r.ignored_role_arrays, vec!["work".to_string(), "positions".to_string()]);
    assert!(r.is_complete());
}

#[test]
fn empty_gate_and_abuse_never_panics() {
    let empty_err = |text: &str| matches!(import_cv_json(&jv(text)), Err(ImportError::Empty));
    assert!(empty_err("{}"));
    assert!(empty_err(r#"{"notes": "hi"}"#));
    for text in [
        "[1, 2, 3]",
        r#""a bare string""#,
        "42",
        "null",
        r#"{"experience": "not-an-array"}"#,
        r#"{"experience": [42, "x", {"jobTitle": "T"}]}"#,
        r#"{"skills": {"name": "wrong-shape"}}"#,
        r#"{"name": "   "}"#,
    ] {
        let _ = import_cv_json(&jv(text));
    }
    let cv = import_cv_json(&jv(r#"{"experience": [42, "x", {"jobTitle": "T"}]}"#)).unwrap();
    assert_eq!(cv.experience.len(), 1);
    assert_eq!(cv.experience[0].job_title, "T");
}

#[test]
fn whitespace_name_alone_is_empty() {
    let err = import_cv_json(&jv(r#"{"name": "   "}"#)).unwrap_err();
    assert_eq!(err.message(), "résumé produced no recognisable content");
}

#[test]
fn achievement_array_skips_unusable_elements() {
    let cv = mine(
        r#"{"experience": [{"jobTitle": "T", "businessName": "B",
            "achievements": [{"unrelated": "x"}, 42, true, null, "kept"]}]}"#,
    );
    assert_eq!(cv.experience[0].achievements_tasks.len(), 1);
    assert_eq!(cv.experience[0].achievements_tasks[0].description, "kept");
}

#[test]
fn coerce_date_handles_float_and_huge() {
    let cv = mine(
        r#"{"experience": [{"jobTitle": "T", "businessName": "B", "startDate": 2019.5, "endDate": 9223372036854775808}]}"#,
    );
    assert_eq!(cv.experience[0].start_date, "2019");
    assert_eq!(cv.experience[0].end_date.as_deref(), Some("9223372036854775808"));
}

#[test]
fn skill_blank_string_and_non_object_elements_dropped() {
    let cv = mine(r#"{"name": "N", "skills": ["  ", 7, true, null, "Keep"]}"#);
    assert_eq!(names(&cv.skills), vec!["Keep".to_string()]);
}

#[test]
fn negative_numeric_date_is_rendered_with_its_sign() {
    let cv = mine(r#"{"experience": [{"jobTitle": "T", "startDate": -5}]}"#);
    assert_eq!(cv.experience[0].start_date, "-5");
}
