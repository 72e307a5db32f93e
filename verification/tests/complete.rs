//! Tab-completion of agent names and constructs.
use crew_app::complete::{complete, describe, extend, fuzzy_unique, is_subsequence, AgentInfo, CONSTRUCTS, PANE_WORDS};

fn agents(names: &[&str]) -> Vec<AgentInfo> {
    names
        .iter()
        .map(|n| AgentInfo {
            name: (*n).into(),
            role: String::new(),
            model: String::new(),
        })
        .collect()
}

#[test]
fn completes_a_unique_agent_with_trailing_space() {
    let a = agents(&["planner", "coder", "auditor"]);
    assert_eq!(complete("@pl", &a).unwrap(), "@planner ");
    assert_eq!(complete("@CO", &a).unwrap(), "@coder ");
}

#[test]
fn completes_the_segment_after_a_plus() {
    let a = agents(&["planner", "coder", "auditor"]);
    assert_eq!(complete("@planner+co", &a).unwrap(), "@planner+coder");
}

#[test]
fn ambiguous_prefix_extends_to_common_prefix() {
    let a = agents(&["planner", "plotter"]);
    assert_eq!(complete("@p", &a).unwrap(), "@pl");
    // Already at the common prefix → nothing to add.
    assert_eq!(complete("@pl", &a), None);
}

#[test]
fn completes_constructs() {
    assert_eq!(complete("/go", &[]).unwrap(), "/logout ");
    assert_eq!(complete("/lo", &[]).unwrap(), "/log");
    assert_eq!(complete("/st", &[]).unwrap(), "/stop ");
    assert_eq!(complete("/sta", &[]), None);
    assert_eq!(complete("/m", &[]).unwrap(), "/model ");
}

#[test]
fn pane_words_only_override_offered_constructs() {
    for (c, _) in PANE_WORDS {
        assert!(CONSTRUCTS.contains(&c), "{c} is overridden but not offered");
    }
}

#[test]
fn deleted_constructs_do_not_complete() {
    for gone in [
        "/cwd",
        "/agents",
        "/tasks",
        "/status",
        "/checkpoint",
        "/approve",
        "/reject",
        "/commit",
        "/review",
        "/standup",
        "/resume",
        "/goal",
        "/plan",
        "/skill",
        "/memory",
        "/mcp",
    ] {
        assert!(!CONSTRUCTS.contains(&gone), "{gone} still listed");
        assert_eq!(describe(gone, Some("a summary")), "", "{gone} still described");
    }
    assert_eq!(complete("/cw", &[]), None);
}

#[test]
fn ignores_mid_sentence_and_plain_text() {
    let a = agents(&["planner"]);
    assert_eq!(complete("@planner do the", &a), None);
    assert_eq!(complete("hello", &a), None);
    assert_eq!(complete("", &a), None);
    assert_eq!(complete("@ghost", &a), None);
}

#[test]
fn fuzzy_fallback_completes_a_unique_subsequence_match() {
    assert_eq!(complete("/hp", &[]).unwrap(), "/help ");
    let a = agents(&["planner", "coder", "auditor"]);
    assert_eq!(complete("@pnr", &a).unwrap(), "@planner ");
}

#[test]
fn fuzzy_fallback_is_none_when_ambiguous() {
    let a = agents(&["planner", "cleaner"]);
    // "an" is a subsequence of both "planner" and "cleaner".
    assert_eq!(complete("@an", &a), None);
}

#[test]
fn prefix_match_still_wins_over_fuzzy() {
    assert_eq!(complete("/re", &[]), None);
}

#[test]
fn is_subsequence_cases() {
    assert!(is_subsequence("hp", "help"));
    assert!(is_subsequence("pnr", "planner"));
    assert!(is_subsequence("", "anything"));
    assert!(!is_subsequence("xyz", "goal"));
    assert!(!is_subsequence("lg", "goal")); // wrong order
}

#[test]
fn the_pane_writes_its_own_hints_and_the_broker_writes_the_rest() {
    assert_eq!(describe("/export", None), "export the transcript");
    assert_eq!(describe("/exit", Some("ignored")), "close this pane");
    assert_eq!(
        describe("/diff", Some("everything different from the last commit, new files included")),
        "everything different from the last commit, new files included"
    );
    assert_eq!(describe("/doctor", None), "");
}

#[test]
fn extend_and_fuzzy_unique_report_what_they_found() {
    assert_eq!(extend("pl", &["planner", "plotter"]), None);
    assert_eq!(extend("p", &["planner", "plotter"]), Some(("pl".to_string(), false)));
    assert_eq!(extend("Co", &["coder"]), Some(("coder".to_string(), true)));
    assert_eq!(extend("z", &["coder"]), None);
    assert_eq!(fuzzy_unique("cdr", &["coder", "planner"]), Some("coder"));
    assert_eq!(fuzzy_unique("er", &["coder", "planner"]), None);
    assert_eq!(fuzzy_unique("q", &["coder"]), None);
}

#[test]
fn a_selector_segment_never_gets_a_trailing_space() {
    let a = agents(&["planner", "coder"]);
    assert_eq!(complete("@coder+pnr", &a).unwrap(), "@coder+planner");
    assert_eq!(complete("@planner+", &a), None, "an empty segment is ambiguous");
}
