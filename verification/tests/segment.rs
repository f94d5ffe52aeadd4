use applicant_advocate::cvimport::segment::{
    parse_business_line, parse_date_range, parse_job_line, segment, skill_bucket_for, split_glued_bullets,
    split_on_date_range, split_skills, SkillBucket,
};
use applicant_advocate::cvimport::ExtractedText;

fn et(lines: &[&str]) -> ExtractedText {
    ExtractedText {
        lines: lines.iter().map(|s| s.to_string()).collect(),
    }
}

#[test]
fn header_maps_name_and_title() {
    let seg = segment(&et(&["Devin Voss", "Senior Backend Engineer", ""]));
    assert_eq!(seg.name.as_deref(), Some("Devin Voss"));
    assert_eq!(seg.title.as_deref(), Some("Senior Backend Engineer"));
}

#[test]
fn header_skips_leading_blanks() {
    let seg = segment(&et(&["", "", "Devin Voss", "Engineer"]));
    assert_eq!(seg.name.as_deref(), Some("Devin Voss"));
    assert_eq!(seg.title.as_deref(), Some("Engineer"));
}

#[test]
fn title_not_taken_when_next_line_is_a_section_label() {
    let seg = segment(&et(&["Devin Voss", "Skills", "Python, Go"]));
    assert_eq!(seg.name.as_deref(), Some("Devin Voss"));
    assert_eq!(seg.title, None);
    assert_eq!(seg.skills.len(), 1);
}

#[test]
fn skills_segments_route_to_correct_buckets() {
    let seg = segment(&et(&[
        "Devin Voss",
        "Engineer",
        "Languages",
        "Python, Go, Rust",
        "Skills",
        "System Design, Mentoring",
        "Tools & Technologies",
        "Docker, Kubernetes",
        "Platforms & Services",
        "AWS, GCP",
    ]));
    let buckets: Vec<SkillBucket> = seg.skills.iter().map(|(b, _)| *b).collect();
    assert_eq!(
        buckets,
        vec![
            SkillBucket::ProgrammingLanguages,
            SkillBucket::Skills,
            SkillBucket::ToolsTechnologies,
            SkillBucket::AsAServices,
        ]
    );
    assert_eq!(seg.skills[0].1, vec!["Python", "Go", "Rust"]);
    assert_eq!(seg.skills[3].1, vec!["AWS", "GCP"]);
}

#[test]
fn skill_label_is_case_insensitive() {
    let seg = segment(&et(&["N", "T", "LANGUAGES", "Python"]));
    assert_eq!(seg.skills[0].0, SkillBucket::ProgrammingLanguages);
}

#[test]
fn experience_block_maps_title_business_dates_and_bullets() {
    let seg = segment(&et(&[
        "Devin Voss",
        "Engineer",
        "Experience",
        "Backend Engineer Nov 2022 – Present",
        "Acme Co · Sydney, Australia",
        "Cut p99 latency by 38%",
        "Introduced contract tests",
    ]));
    assert_eq!(seg.experience.len(), 1);
    let e = &seg.experience[0];
    assert_eq!(e.job_title, "Backend Engineer");
    assert_eq!(e.business_name, "Acme Co");
    assert_eq!(e.location.as_deref(), Some("Sydney, Australia"));
    assert_eq!(e.start_date, "Nov 2022");
    assert_eq!(e.end_date, None);
    assert_eq!(
        e.bullets,
        vec!["Cut p99 latency by 38%", "Introduced contract tests"]
    );
}

#[test]
fn experience_end_date_recovered_when_not_present() {
    let seg = segment(&et(&[
        "N",
        "T",
        "Experience",
        "Engineer Feb 2021 – Mar 2022",
        "Meridian · Melbourne",
        "Did a thing",
    ]));
    let e = &seg.experience[0];
    assert_eq!(e.start_date, "Feb 2021");
    assert_eq!(e.end_date.as_deref(), Some("Mar 2022"));
}

#[test]
fn glued_pdf_bullets_split_on_triangle_marker() {
    let seg = segment(&et(&[
        "N",
        "T",
        "Experience",
        "Engineer Jan 2020 – Jan 2021",
        "Biz · City",
        "First bullet glued\u{25B9}   Second bullet\u{25B9}   Third bullet",
    ]));
    assert_eq!(
        seg.experience[0].bullets,
        vec!["First bullet glued", "Second bullet", "Third bullet"]
    );
}

#[test]
fn business_line_without_location_is_tolerated() {
    let seg = segment(&et(&[
        "N",
        "T",
        "Experience",
        "Engineer Jan 2020 – Present",
        "SoloCorp",
        "A bullet",
    ]));
    assert_eq!(seg.experience[0].business_name, "SoloCorp");
    assert_eq!(seg.experience[0].location, None);
}

#[test]
fn multiple_experience_blocks_are_separated() {
    let seg = segment(&et(&[
        "N",
        "T",
        "Experience",
        "Engineer A Jan 2022 – Present",
        "Acme · Sydney",
        "bullet a",
        "Engineer B Jan 2019 – Dec 2021",
        "Beta · Perth",
        "bullet b",
    ]));
    assert_eq!(seg.experience.len(), 2);
    assert_eq!(seg.experience[0].job_title, "Engineer A");
    assert_eq!(seg.experience[1].job_title, "Engineer B");
    assert_eq!(seg.experience[1].bullets, vec!["bullet b"]);
}

#[test]
fn consecutive_job_lines_do_not_drop_a_block() {
    let seg = segment(&et(&[
        "N",
        "T",
        "Experience",
        "Engineer A Jan 2022 – Present",
        "Engineer B Jan 2019 – Dec 2021",
        "Beta · Perth",
        "bullet b",
    ]));
    assert_eq!(seg.experience.len(), 2, "both experiences recovered");
    assert_eq!(seg.experience[0].job_title, "Engineer A");
    assert_eq!(seg.experience[1].job_title, "Engineer B");
    assert_eq!(seg.experience[0].business_name, "");
    assert_eq!(seg.experience[1].business_name, "Beta");
    for e in &seg.experience {
        assert!(
            !e.business_name.to_lowercase().contains("jan") && !e.business_name.contains("20"),
            "business_name must not contain a date: {:?}",
            e.business_name
        );
    }
}

#[test]
fn structureless_text_segments_to_empty() {
    let seg = segment(&et(&["", "   ", ""]));
    assert!(seg.is_empty());
}

#[test]
fn split_skills_handles_separatorless_pdf_run() {
    let one = split_skills("PythonGoTypeScriptSQLRust");
    assert_eq!(one, vec!["PythonGoTypeScriptSQLRust"]);
}

#[test]
fn parse_job_line_rejects_a_line_with_no_date_tail() {
    assert!(parse_job_line("Just a heading with no dates").is_none());
}

#[test]
fn parse_job_line_rejects_empty_title() {
    assert!(parse_job_line("Jan 2020 – Jan 2021").is_none());
}


#[test]
fn parse_date_range_rejects_empty_start() {
    assert!(parse_date_range("- Mar 2022").is_none());
}

#[test]
fn parse_date_range_none_on_bare_dash() {
    assert!(parse_date_range("-").is_none());
}

#[test]
fn header_with_blank_between_name_and_title() {
    let seg = segment(&et(&["Devin Voss", "", "Engineer"]));
    assert_eq!(seg.name.as_deref(), Some("Devin Voss"));
    assert_eq!(seg.title.as_deref(), Some("Engineer"));
}

#[test]
fn skills_label_with_blank_then_list() {
    let seg = segment(&et(&["N", "T", "Languages", "", "Python, Go"]));
    assert_eq!(seg.skills.len(), 1);
    assert_eq!(seg.skills[0].1, vec!["Python", "Go"]);
}

#[test]
fn skills_label_followed_by_separators_only_pushes_no_bucket() {
    let seg = segment(&et(&["Devin Voss", "Engineer", "Skills", ",,,"]));
    assert!(
        seg.skills.is_empty(),
        "a separators-only line must not create an empty skill bucket"
    );
    assert_eq!(seg.name.as_deref(), Some("Devin Voss"));
}

#[test]
fn skills_label_at_end_of_document_yields_no_list() {
    let seg = segment(&et(&["N", "T", "Languages"]));
    assert!(seg.skills.is_empty());
}

#[test]
fn skills_label_followed_only_by_blank_then_eof() {
    let seg = segment(&et(&["N", "T", "Skills", "   ", ""]));
    assert!(seg.skills.is_empty());
}

#[test]
fn job_line_at_end_of_document_has_no_business_line() {
    let seg = segment(&et(&[
        "N",
        "T",
        "Experience",
        "Engineer Jan 2020 – Present",
    ]));
    assert_eq!(seg.experience.len(), 1);
    assert_eq!(seg.experience[0].job_title, "Engineer");
    assert_eq!(seg.experience[0].business_name, "");
}

#[test]
fn bullets_before_any_job_line_are_ignored() {
    let seg = segment(&et(&[
        "N",
        "T",
        "Experience",
        "a stray bullet with no job line",
    ]));
    assert!(seg.experience.is_empty());
}

#[test]
fn split_on_date_range_handles_expanding_lowercase_title_without_panic() {
    let r = split_on_date_range("ẞé Jan 2020 – Present");
    assert_eq!(
        r,
        Some(("ẞé ".to_string(), "Jan 2020 – Present".to_string()))
    );
    let r2 = split_on_date_range("ẞéJan 2020 – Present");
    assert_eq!(
        r2,
        Some(("ẞé".to_string(), "Jan 2020 – Present".to_string()))
    );
}

#[test]
fn parse_job_line_recovers_title_and_date_for_expanding_lowercase_initial() {
    let parsed = parse_job_line("İ Engineer Jan 2020 – Present");
    assert_eq!(
        parsed,
        Some(("İ Engineer".to_string(), "Jan 2020".to_string(), None))
    );
}

#[test]
fn parse_job_line_ascii_title_unchanged_regression() {
    let parsed = parse_job_line("Backend Engineer Nov 2022 – Present");
    assert_eq!(
        parsed,
        Some(("Backend Engineer".to_string(), "Nov 2022".to_string(), None))
    );
}

#[test]
fn split_on_date_range_none_when_month_present_but_too_few_digits() {
    assert!(split_on_date_range("Engineer May day 12").is_none());
}

#[test]
fn skills_label_immediately_followed_by_eof_hits_no_list_arm() {
    let seg = segment(&et(&["Name", "Title", "Skills"]));
    assert!(seg.skills.is_empty());
    assert_eq!(seg.name.as_deref(), Some("Name"));
}

#[test]
fn skill_bucket_for_names_each_bucket() {
    assert_eq!(skill_bucket_for("  languages "), Some(SkillBucket::ProgrammingLanguages));
    assert_eq!(skill_bucket_for("Skills"), Some(SkillBucket::Skills));
    assert_eq!(skill_bucket_for("tools & technologies"), Some(SkillBucket::ToolsTechnologies));
    assert_eq!(skill_bucket_for("Platforms & Services"), Some(SkillBucket::AsAServices));
    assert_eq!(skill_bucket_for("Hobbies"), None);
}

#[test]
fn business_line_splits_on_the_middle_dot() {
    assert_eq!(parse_business_line("Acme Co · Sydney, Australia"), ("Acme Co".to_string(), Some("Sydney, Australia".to_string())));
    assert_eq!(parse_business_line("  SoloCorp  "), ("SoloCorp".to_string(), None));
}

#[test]
fn glued_bullets_drop_empty_pieces() {
    assert_eq!(split_glued_bullets("\u{25B9}a\u{25B9}\u{25B9} b "), vec!["a".to_string(), "b".to_string()]);
}

#[test]
fn date_range_with_end_date() {
    assert_eq!(parse_date_range("Feb 2021 – Mar 2022"), Some(("Feb 2021".to_string(), Some("Mar 2022".to_string()))));
    assert_eq!(parse_date_range("Feb 2021 – Present"), Some(("Feb 2021".to_string(), None)));
}

#[test]
fn split_skills_on_commas_and_pipes() {
    assert_eq!(split_skills("Python, Go | Rust"), vec!["Python".to_string(), "Go".to_string(), "Rust".to_string()]);
}
