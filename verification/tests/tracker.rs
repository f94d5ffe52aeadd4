use applicant_advocate::tracker::{join_path, resolve_default_path, tmp_file_name, user_tag_from, StoreError};

fn s(x: &str) -> String {
    x.to_string()
}

#[test]
fn resolve_prefers_xdg_data_home() {
    let p = resolve_default_path(Some(s("/data/xdg")), Some(s("/home/u")), s("/tmp"), s("u"));
    assert_eq!(p, "/data/xdg/job-hunter/tracker.json");
}

#[test]
fn resolve_falls_back_to_home_local_share_when_xdg_absent_or_empty() {
    let p = resolve_default_path(None, Some(s("/home/u")), s("/tmp"), s("u"));
    assert_eq!(p, "/home/u/.local/share/job-hunter/tracker.json");
    let p2 = resolve_default_path(Some(s("")), Some(s("/home/u")), s("/tmp"), s("u"));
    assert_eq!(p2, p);
}

#[test]
fn resolve_falls_back_to_per_user_temp_when_no_home() {
    let p = resolve_default_path(None, None, s("/tmp"), s("alice"));
    assert_eq!(p, "/tmp/aa-tracker-alice/job-hunter/tracker.json");
    let p2 = resolve_default_path(None, Some(s("")), s("/tmp"), s("alice"));
    assert_eq!(p2, p);
}

#[test]
fn user_tag_prefers_user_then_username_then_shared() {
    assert_eq!(user_tag_from(Some("alice".into()), Some("bob".into())), "alice");
    assert_eq!(user_tag_from(Some("".into()), Some("bob".into())), "bob");
    assert_eq!(user_tag_from(None, None), "shared");
    assert_eq!(user_tag_from(None, Some("".into())), "shared");
}

#[test]
fn tmp_path_handles_path_without_a_filename() {
    let name = tmp_file_name(None, 42, 7);
    assert!(name.starts_with(".tracker.") && name.ends_with(".tmp"));
    assert_eq!(name, ".tracker.42.7.tmp");
}

#[test]
fn tmp_name_keeps_the_file_name() {
    assert_eq!(tmp_file_name(Some("tracker.json"), 0, 1234567890123), ".tracker.json.0.1234567890123.tmp");
}

#[test]
fn join_path_inserts_one_separator() {
    assert_eq!(join_path(&s("/a"), "b"), "/a/b");
    assert_eq!(join_path(&s("/a/"), "b"), "/a/b");
    assert_eq!(join_path(&s(""), "b"), "b");
}

#[test]
fn store_error_messages() {
    assert!(StoreError::Io(s("disk full")).message().contains("disk full"));
}
