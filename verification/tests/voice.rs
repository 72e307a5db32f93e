//! Who is speaking decides how a card is drawn.
use crew_app::message::{gutter_for, is_splash, is_system_voice, is_tool_card, Message, GUTTER, QUIET_GUTTER};

fn msg(sender: &str, text: &str) -> Message {
    Message {
        sender: sender.into(),
        text: text.into(),
        ..Message::default()
    }
}

#[test]
fn the_system_voice_is_a_closed_set() {
    for s in ["agent smith", "crew", "system", "broker"] {
        assert!(is_system_voice(s), "{s}");
    }
    for s in ["coder", "user", "Crew", "crew ", ""] {
        assert!(!is_system_voice(s), "{s}");
    }
}

#[test]
fn a_tool_line_from_an_agent_is_a_tool_card_but_not_from_the_system_voice() {
    assert!(is_tool_card(&msg("coder", "[tool] sys:run \u{2713} 1.2s")));
    assert!(!is_tool_card(&msg("crew", "[tool] sys:run")));
    assert!(!is_tool_card(&msg("coder", "quoting [tool] mid-line")));
}

#[test]
fn only_what_was_said_gets_the_solid_gutter() {
    assert_eq!(gutter_for(&msg("coder", "hello")), GUTTER);
    assert_eq!(gutter_for(&msg("user", "hi")), GUTTER);
    assert_eq!(gutter_for(&msg("broker", "turn summary")), QUIET_GUTTER);
    assert_eq!(gutter_for(&msg("coder", "[tool] x")), QUIET_GUTTER);
}

#[test]
fn the_splash_is_box_art_in_the_system_voice() {
    assert!(is_splash(&msg("crew", "\u{2554}\u{2550}\u{2557}")));
    assert!(!is_splash(&msg("coder", "\u{2554}\u{2550}\u{2557}")));
    assert!(!is_splash(&msg("crew", "")));
    assert!(!is_splash(&msg("crew", " \u{2554}")));
}

#[test]
fn the_tool_predicate_does_not_capture_an_agent_quoting_the_marker() {
    // Mid-sentence, not a tool line.
    assert!(!is_tool_card(&msg("coder", "I would write [tool] here")));
    // The system voice has its own treatment already; it must not be
    // reclassified, or the splash and turn summaries change fold depth.
    assert!(!is_tool_card(&msg("agent smith", "[tool] sys:run x")));
    assert!(is_tool_card(&msg("coder", "[tool] sys:run x")));
}
