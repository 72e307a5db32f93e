//! The `/export` success echo.
use crew_app::message::success_note;

#[test]
fn success_note_reports_the_message_count_pluralized() {
    let path = "/tmp/crew-transcript-20260702-000000.md";
    let one = success_note(1, path);
    assert!(one.contains("exported (1 message)"), "got: {one}");
    assert!(!one.contains("(1 messages)"), "no plural for one: {one}");
    let two = success_note(2, path);
    assert!(two.contains("exported (2 messages)"), "got: {two}");
}

#[test]
fn success_note_names_the_file() {
    assert_eq!(
        success_note(3, "/tmp/t.md"),
        "transcript exported (3 messages) \u{2192} /tmp/t.md"
    );
}
