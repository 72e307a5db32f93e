//! Which cards fold, and where a click lands in the transcript window.
use crew_app::fold::{
    fold_release, fold_threshold, foldable, folded, line_index_at, toggle_fold_at, toggle_target, top_pad, FOLD_LINES,
};
use crew_app::message::Message;

const LONG: &str = "one\ntwo\nthree\nfour\nfive";

fn msg(sender: &str, text: &str) -> Message {
    Message {
        sender: sender.into(),
        text: text.into(),
        ts: String::new(),
        meta: String::new(),
        usage: None,
        expanded: false,
    }
}

#[test]
fn line_index_at_mirrors_the_bottom_anchored_window() {
    // 10 lines in 4 rows starting at row 1: rows 1..5 show lines 6..10.
    assert_eq!(line_index_at(10, 4, 1, 0, 1), Some(6));
    assert_eq!(line_index_at(10, 4, 1, 0, 4), Some(9));
    assert_eq!(line_index_at(10, 4, 1, 0, 0), None, "the header row");
    assert_eq!(line_index_at(10, 4, 1, 0, 5), None, "below the window");
    // Scrolled 2 up: the window slides back to lines 4..8.
    assert_eq!(line_index_at(10, 4, 1, 2, 1), Some(4));
    // Fewer lines than rows: the three lines sit on the BOTTOM of the ten,
    // so rows 2..9 are the slack above them and row 9 is the last line.
    assert_eq!(line_index_at(3, 10, 2, 0, 2), None, "slack above the cards");
    assert_eq!(line_index_at(3, 10, 2, 0, 9), Some(0));
    assert_eq!(line_index_at(3, 10, 2, 0, 11), Some(2));
    assert_eq!(line_index_at(3, 10, 2, 0, 12), None, "past the last line");
    // An overshooting scroll clamps like `window` does.
    assert_eq!(line_index_at(10, 4, 1, 100, 1), Some(0));
}

const SHORT: &str = "one\ntwo\nthree";

/// The full body's line count, as the card layout gives it for plain lines.
fn body_len(text: &str) -> usize {
    text.lines().count()
}

#[test]
fn folded_and_foldable_gate_on_voice_length_and_expansion() {
    assert!(folded(&msg("crew", LONG), 5) && foldable(&msg("crew", LONG), body_len(LONG)));
    assert!(!folded(&msg("coder", LONG), 5), "agents never fold");
    assert!(!foldable(&msg("coder", LONG), body_len(LONG)));
    assert!(!folded(&msg("crew", SHORT), 3), "3 lines is not long");
    assert!(!foldable(&msg("crew", SHORT), body_len(SHORT)));
    let mut open = msg("crew", LONG);
    open.expanded = true;
    assert!(!folded(&open, 5), "clicked open renders full");
    assert!(foldable(&open, body_len(LONG)), "but stays toggleable");
}

#[test]
fn a_click_on_a_folded_card_opens_it_and_only_its_header_refolds_it() {
    // Two cards: lines 0..2 (folded, foldable) and 2..5 (open, foldable),
    // 5 lines in a 10-row window from row 1: rows 6..11 show lines 0..5.
    let spans = [(0usize, 2usize), (2, 5)];
    let foldable_cards = [true, true];
    let expanded = [false, true];
    let at = |row: u16, popup: bool, compact: bool| {
        toggle_target(5, &spans, &foldable_cards, &expanded, 40, 12, 10, 1, 0, row, popup, compact)
    };
    assert_eq!(at(7, false, false), Some(0), "anywhere on a folded card");
    assert_eq!(at(8, false, false), Some(1), "the open card's header");
    assert_eq!(at(9, false, false), None, "the open card's body stays free for selection");
    assert_eq!(at(5, false, false), None, "slack above the cards");
    assert_eq!(at(7, true, false), None, "a popup owns the click");
    assert_eq!(at(7, false, true), None, "the compact view wins outright");
    assert_eq!(
        toggle_target(5, &spans, &[false, true], &expanded, 40, 12, 10, 1, 0, 7, false, false),
        None,
        "a card that cannot fold is inert"
    );
    assert_eq!(
        toggle_target(5, &spans, &foldable_cards, &expanded, 40, 12, 10, 0, 0, 7, false, false),
        None,
        "a tiny pane has no cards"
    );
}

#[test]
fn each_kind_of_card_has_its_own_threshold() {
    assert_eq!(fold_threshold(&msg("crew", LONG)), Some(FOLD_LINES));
    assert_eq!(fold_threshold(&msg("coder", "[tool] sys:run \u{2713}\n{}")), Some(1));
    assert_eq!(fold_threshold(&msg("coder", LONG)), None);
    assert_eq!(fold_threshold(&msg("crew", "\u{2554}aa\n\u{2551}bb")), None, "the splash never folds");
    assert!(folded(&msg("coder", "[tool] x\ny"), 2), "a tool card folds past its outcome line");
}

#[test]
fn a_short_transcript_sits_on_the_bottom_of_its_window() {
    assert_eq!(top_pad(3, 10), 7);
    assert_eq!(top_pad(10, 10), 0);
    assert_eq!(top_pad(30, 10), 0);
}

#[test]
fn every_shown_row_maps_to_its_own_line() {
    let (total, rows, top, scroll) = (25usize, 6u16, 2u16, 4usize);
    let lines: Vec<usize> = (0..40u16)
        .filter_map(|r| line_index_at(total, rows, top, scroll, r))
        .collect();
    assert_eq!(lines, (15..21).collect::<Vec<_>>());
}

#[test]
fn a_stationary_release_fires_the_armed_toggle_and_a_drag_consumes_it() {
    let mut click = Some((0usize, 7u16));
    assert_eq!(fold_release(&mut click, false), Some((0, 7)));
    assert!(click.is_none());
    let mut click = Some((0usize, 7u16));
    assert_eq!(fold_release(&mut click, true), None, "a drag never toggles");
    assert!(click.is_none(), "and the candidate is consumed");
    assert_eq!(fold_release(&mut click, false), None);
}

#[test]
fn a_stationary_release_on_a_folded_card_opens_it() {
    let spans = [(0usize, 2usize), (2, 5)];
    let foldable_cards = [true, true];
    let mut expanded = vec![false, true];
    let mut click = Some((0usize, 7u16));
    let (_, row) = fold_release(&mut click, false).expect("a stationary release fires");
    assert!(toggle_fold_at(5, &spans, &foldable_cards, &mut expanded, 40, 12, 10, 1, 0, row, false, false));
    assert_eq!(expanded, vec![true, true], "the folded card opens");
    assert!(toggle_fold_at(5, &spans, &foldable_cards, &mut expanded, 40, 12, 10, 1, 0, 6, false, false));
    assert_eq!(expanded, vec![false, true], "its header folds it again");
    assert!(!toggle_fold_at(5, &spans, &foldable_cards, &mut expanded, 40, 12, 10, 1, 0, 9, false, false));
    assert_eq!(expanded, vec![false, true], "the open card's body toggles nothing");
}
