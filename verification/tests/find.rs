//! Find-in-conversation: the query, the matches, and stepping through them.
use crew_app::find::{card_rows, filter_lowered, jump_pick, jump_scroll, filter, popup_key, scroll_for, target_line, title, ChatFind, ChatInput, FindKey};
use crew_app::message::Message;

fn msg(sender: &str, text: &str) -> Message {
    Message {
        sender: sender.into(),
        text: text.into(),
        ts: String::new(),
        meta: String::new(),
        usage: None,
        expanded: false,
    }
}

#[test]
fn filter_matches_case_insensitively_newest_first() {
    let msgs = [
        msg("coder", "Alpha Beta"),
        msg("user", "gamma"),
        msg("crew", "an ALPHA again"),
    ];
    let refs: Vec<&Message> = msgs.iter().collect();
    assert_eq!(filter(&refs, "alpha"), vec![2, 0], "newest match first");
    assert_eq!(filter(&refs, "zzz"), Vec::<usize>::new());
    assert_eq!(
        filter(&refs, ""),
        Vec::<usize>::new(),
        "an empty query matches nothing (no jumping before typing)"
    );
}

#[test]
fn scroll_for_puts_the_target_inside_the_window() {
    for (total, budget, target) in [
        (100usize, 10usize, 0usize), // very first line
        (100, 10, 99),               // very last line
        (100, 10, 50),               // mid-transcript
        (5, 10, 3),                  // everything fits
        (100, 1, 42),                // one-row window
    ] {
        let scroll = scroll_for(total, budget, target);
        let max_start = total.saturating_sub(budget);
        assert!(scroll <= max_start, "clamped to the scrollback");
        let start = max_start - scroll;
        assert!(
            (start..start + budget.max(1)).contains(&target),
            "target {target} outside window [{start}, {})",
            start + budget
        );
    }
    assert_eq!(scroll_for(100, 0, 5), 0, "a zero-row window never scrolls");
}

#[test]
fn typing_edits_the_query_and_esc_closes() {
    let msgs = [msg("coder", "hello world")];
    let refs: Vec<&Message> = msgs.iter().collect();
    let mut state: Option<ChatFind> = None;
    assert_eq!(popup_key(&mut state, &refs, &ChatInput::Char('h')), FindKey::Forward);
    assert!(state.is_none(), "closed: keys pass through");
    assert_eq!(popup_key(&mut state, &refs, &ChatInput::FindNext), FindKey::Consumed);
    for c in "hello".chars() {
        assert_eq!(popup_key(&mut state, &refs, &ChatInput::Char(c)), FindKey::Jump);
    }
    let f = state.as_ref().unwrap();
    assert_eq!(f.query, "hello");
    assert_eq!(f.matches, vec![0]);
    assert_eq!(popup_key(&mut state, &refs, &ChatInput::Backspace), FindKey::Jump);
    assert_eq!(state.as_ref().unwrap().query, "hell");
    assert_eq!(popup_key(&mut state, &refs, &ChatInput::HistSearch), FindKey::Forward);
    assert!(state.is_some(), "Ctrl+R is forwarded, the popup stays");
    assert_eq!(popup_key(&mut state, &refs, &ChatInput::Other), FindKey::Consumed);
    assert_eq!(popup_key(&mut state, &refs, &ChatInput::Close), FindKey::Consumed);
    assert!(state.is_none(), "Esc closes the popup");
}

#[test]
fn enter_steps_older_up_steps_newer_both_wrap_and_the_title_counts() {
    let msgs = [
        msg("coder", "needle a"),
        msg("user", "nothing"),
        msg("coder", "needle b"),
        msg("crew", "needle c"),
    ];
    let refs: Vec<&Message> = msgs.iter().collect();
    let mut state = None;
    popup_key(&mut state, &refs, &ChatInput::FindNext);
    for c in "needle".chars() {
        popup_key(&mut state, &refs, &ChatInput::Char(c));
    }
    let sel = |s: &Option<ChatFind>| {
        let f = s.as_ref().unwrap();
        f.matches[f.sel]
    };
    assert_eq!(sel(&state), 3, "starts on the newest match");
    assert_eq!(title(state.as_ref().unwrap()), "find: needle (1/3)");
    assert_eq!(popup_key(&mut state, &refs, &ChatInput::Enter), FindKey::Jump);
    assert_eq!(sel(&state), 2, "Enter steps to the next older match");
    assert_eq!(title(state.as_ref().unwrap()), "find: needle (2/3)");
    popup_key(&mut state, &refs, &ChatInput::FindNext);
    assert_eq!(sel(&state), 0, "Ctrl+F steps older again");
    popup_key(&mut state, &refs, &ChatInput::Down);
    assert_eq!(sel(&state), 3, "Down wraps from the oldest back to the newest");
    popup_key(&mut state, &refs, &ChatInput::Up);
    assert_eq!(sel(&state), 0, "Up (newer) wraps from the newest to the oldest");
    popup_key(&mut state, &refs, &ChatInput::Up);
    assert_eq!(sel(&state), 2, "Up steps to the next newer match");
}

#[test]
fn a_shrinking_transcript_clamps_the_selection() {
    let msgs = [msg("coder", "needle one"), msg("coder", "needle two")];
    let refs: Vec<&Message> = msgs.iter().collect();
    let mut f = ChatFind::new();
    f.edit(Some('n'), &refs);
    f.step(true, &refs);
    assert_eq!(f.sel, 1);
    let fewer: Vec<&Message> = refs[..1].to_vec();
    f.rescan(&fewer);
    assert_eq!((f.matches.clone(), f.sel), (vec![0], 0));
    let none: Vec<&Message> = Vec::new();
    f.step(true, &none);
    assert!(f.matches.is_empty());
    assert_eq!(f.sel, 0);
    assert_eq!(title(&f), "find: n (0/0)");
}

#[test]
fn stepping_older_then_newer_returns_to_the_same_match() {
    let msgs = [msg("a", "x"), msg("b", "x"), msg("c", "x")];
    let refs: Vec<&Message> = msgs.iter().collect();
    let mut f = ChatFind::new();
    f.edit(Some('x'), &refs);
    for start in 0..3 {
        f.sel = start;
        f.step(true, &refs);
        f.step(false, &refs);
        assert_eq!(f.sel, start);
    }
}

#[test]
fn the_popup_lists_matches_on_one_line_each_and_says_when_there_are_none() {
    let msgs = [msg("coder", "line one\nline two"), msg("user", "other")];
    let refs: Vec<&Message> = msgs.iter().collect();
    let f = ChatFind {
        query: "line".into(),
        matches: vec![0, 7],
        sel: 0,
    };
    let rows = card_rows(&f, &refs);
    assert_eq!(rows.len(), 1, "a stale index is skipped, not dereferenced");
    assert_eq!(rows[0].label, "coder: line one \u{23ce} line two");
    assert!(!rows[0].header);
    let none = card_rows(&ChatFind::new(), &refs);
    assert_eq!(none.len(), 1);
    assert_eq!(none[0].label, "no matches");
    assert!(none[0].header);
}

#[test]
fn the_jump_target_is_the_first_line_holding_the_query() {
    let lines: Vec<Vec<char>> = ["\u{258d}coder", " the NEEDLE", " needle again"]
        .iter()
        .map(|l| l.chars().collect())
        .collect();
    assert_eq!(target_line(&lines, 0, 3, "needle"), 1);
    assert_eq!(target_line(&lines, 2, 3, "needle"), 2);
    assert_eq!(target_line(&lines, 0, 3, "nee dle"), 0, "a split phrase falls back to the header");
    assert_eq!(target_line(&lines, 1, 9, "absent"), 1);
}

#[test]
fn a_jump_picks_the_selected_match_and_scrolls_its_line_into_the_window() {
    let msgs = [msg("crew", "one\ntwo\nneedle"), msg("user", "chatter")];
    let refs: Vec<&Message> = msgs.iter().collect();
    let mut f = ChatFind::new();
    f.query = "needle".into();
    f.sel = 4;
    assert_eq!(jump_pick(&mut f, &refs, &[true, false]), Some((0, true)), "the folded card is opened first");
    assert_eq!(f.sel, 0, "a stale selection is clamped");
    let lines: Vec<Vec<char>> = ["\u{2506}crew", " one", " two", " needle", "", "\u{258d}user", " chatter"]
        .iter()
        .map(|l| l.chars().collect())
        .collect();
    let spans = [(0usize, 4usize), (5, 7)];
    assert_eq!(jump_scroll(&lines, &spans, 0, 2, "needle"), Some(scroll_for(7, 2, 3)));
    assert_eq!(jump_scroll(&lines, &spans, 9, 2, "needle"), None, "the card moved away");
    let mut none = ChatFind::new();
    none.query = "absent".into();
    assert_eq!(jump_pick(&mut none, &refs, &[true, false]), None);
}

#[test]
fn the_title_counts_nothing_at_the_largest_selection() {
    let f = ChatFind {
        query: "q".into(),
        matches: Vec::new(),
        sel: usize::MAX,
    };
    assert_eq!(title(&f), "find: q (0/0)");
}

#[test]
fn the_search_over_lowered_texts_is_newest_first() {
    let lowered: Vec<Vec<char>> = ["alpha beta", "gamma", "an alpha again"]
        .iter()
        .map(|t| t.chars().collect())
        .collect();
    let q: Vec<char> = "alpha".chars().collect();
    assert_eq!(filter_lowered(&lowered, &q), vec![2, 0]);
}
