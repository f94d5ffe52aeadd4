use applicant_advocate::jobparse::parse;

const MUST_CUES: &[&str] = &["required", "must have", "essential", "you will need", "minimum", "mandatory"];
const NICE_CUES: &[&str] = &["preferred", "desirable", "bonus", "nice to have", "advantageous", "ideally"];

#[test]
fn classifies_required_and_nice_cues() {
    let j = parse("Required: A; B. Nice to have: C; D.");
    assert_eq!(j.requirements.must_have, vec!["A", "B"]);
    assert_eq!(j.requirements.nice_to_have, vec!["C", "D"]);
}

#[test]
fn each_must_cue_phrase() {
    for cue in MUST_CUES {
        let j = parse(&format!("{cue}: Thing."));
        assert_eq!(j.requirements.must_have, vec!["Thing"], "cue {cue}");
    }
}

#[test]
fn each_nice_cue_phrase() {
    for cue in NICE_CUES {
        let j = parse(&format!("{cue}: Thing."));
        assert_eq!(j.requirements.nice_to_have, vec!["Thing"], "cue {cue}");
    }
}

#[test]
fn parses_title_and_company() {
    let j = parse("We are hiring a Senior Backend Engineer at Acme Group. Required: X.");
    assert_eq!(j.title, "Senior Backend Engineer");
    assert_eq!(j.company, "Acme Group");
}

#[test]
fn empty_input_yields_empty_buckets() {
    let j = parse("");
    assert!(j.requirements.must_have.is_empty());
    assert!(j.requirements.nice_to_have.is_empty());
}

#[test]
fn no_cue_garbage_no_panic_empty_requirements() {
    let j = parse("lorem ipsum dolor sit amet without any structure at all");
    assert!(j.requirements.must_have.is_empty());
    assert!(j.requirements.nice_to_have.is_empty());
}

#[test]
fn unicode_does_not_panic() {
    let j = parse("Required: café ☕ skills; 日本語.");
    assert_eq!(j.requirements.must_have.len(), 2);
}

#[test]
fn multi_line_headings() {
    let j = parse("Required:\n  TypeScript;\n  Python.\nNice to have:\n  GraphQL.");
    assert!(j.requirements.must_have.contains(&"TypeScript".to_string()));
    assert!(j.requirements.nice_to_have.contains(&"GraphQL".to_string()));
}

#[test]
fn title_marker_hiring_an_and_no_at() {
    let j = parse("We are hiring an Engineer without a company clause. Required: X.");
    assert_eq!(j.title, "");
    assert_eq!(j.company, "");
    assert_eq!(j.requirements.must_have, vec!["X"]);
}

#[test]
fn title_marker_hiring_an_with_at() {
    let j = parse("We are hiring an Architect at Globex. Required: Y.");
    assert_eq!(j.title, "Architect");
    assert_eq!(j.company, "Globex");
}

#[test]
fn parse_is_deterministic() {
    let raw = "Required: A. Nice to have: B.";
    assert_eq!(parse(raw), parse(raw));
}

#[test]
fn cues_are_case_insensitive_and_items_keep_their_case() {
    let j = parse("MUST HAVE: Kubernetes; Go. BONUS: Terraform.");
    assert_eq!(j.requirements.must_have, vec!["Kubernetes", "Go"]);
    assert_eq!(j.requirements.nice_to_have, vec!["Terraform"]);
}

#[test]
fn parse_reads_cues_after_chars_whose_lowercase_is_longer() {
    let j = parse("\u{130}\u{130} required:\u{e9}");
    assert_eq!(j.requirements.must_have, vec!["\u{e9}"]);
    assert!(j.requirements.nice_to_have.is_empty());
}

#[test]
fn parse_keeps_non_ascii_items_as_written() {
    let j = parse("Required: \u{130}stanbul office.");
    assert_eq!(j.requirements.must_have, vec!["\u{130}stanbul office"]);
}
