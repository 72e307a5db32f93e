//! Which canvas an event belongs to, and what a second one shares with the first.
use crew_app::canvas::{split_windows, CloseOutcome, Crew, CrewApp, PaneInfo, SavedPane};

fn crew() -> Crew {
    Crew::new(CrewApp::default())
}

fn pane() -> PaneInfo {
    PaneInfo { name: None }
}

#[test]
fn a_canvas_without_a_window_owns_nothing() {
    let app = CrewApp::default();
    assert!(app.window.is_none());
    assert!(app.docs.is_empty());
}

#[test]
fn cmd_n_asks_for_a_canvas_rather_than_making_one() {
    let mut app = CrewApp::default();
    assert!(!app.want_window);
    app.handle_super_chord("n");
    assert!(app.want_window, "the ask is recorded");
}

#[test]
fn closing_a_canvas_is_a_flag_not_an_exit() {
    let mut app = CrewApp::default();
    assert!(!app.closing);
    // With no panes open the quit guard does not ask twice.
    assert!(app.confirm_quit());
}

#[test]
fn sharing_does_nothing_when_nothing_changed() {
    let mut c = crew();
    c.canvases.push(CrewApp::default());
    let before = c.canvases[1].config.copy();
    c.share_config();
    assert!(c.canvases[1].config.same(&before));
}

#[test]
fn panes_belong_to_their_own_canvas() {
    let mut c = crew();
    c.canvases.push(CrewApp::default());
    c.canvases[0].panes.push(pane());
    assert_eq!(c.canvases[0].panes.len(), 1);
    assert!(
        c.canvases[1].panes.is_empty(),
        "a second canvas started with somebody else's panes"
    );
}

#[test]
fn focus_and_zoom_belong_to_their_own_canvas() {
    let mut c = crew();
    c.canvases.push(CrewApp::default());
    for _ in 0..2 {
        c.canvases[0].panes.push(pane());
        c.canvases[1].panes.push(pane());
    }
    c.canvases[0].focused = 1;
    c.canvases[0].zoomed = true;
    assert_eq!(c.canvases[1].focused, 0);
    assert!(!c.canvases[1].zoomed);
}

#[test]
fn a_saved_session_is_split_into_the_windows_it_was_in() {
    let at = |w: usize, dir: &str| SavedPane {
        window: w,
        ..SavedPane::shell(dir.into())
    };
    let (first, rest) = split_windows(vec![at(0, "a"), at(2, "b"), at(0, "c"), at(2, "d")]);
    assert_eq!(first.len(), 2, "the first window's panes");
    assert_eq!(rest.len(), 1, "one further window, not two");
    assert_eq!(rest[0].len(), 2);
}

#[test]
fn a_session_from_before_windows_restores_into_one() {
    let old = vec![SavedPane::shell("a".into()), SavedPane::shell("b".into())];
    let (first, rest) = split_windows(old);
    assert_eq!(first.len(), 2);
    assert!(rest.is_empty());
}

#[test]
fn an_empty_session_asks_for_no_windows() {
    let (first, rest) = split_windows(Vec::new());
    assert!(first.is_empty() && rest.is_empty());
}

#[test]
fn saving_stamps_each_canvas_onto_its_own_window() {
    let mut c = crew();
    c.canvases.push(CrewApp::default());
    c.canvases[0].panes.push(pane());
    c.canvases[1].panes.push(pane());
    c.canvases[1].panes.push(pane());
    let saved: Vec<usize> = c
        .canvases
        .iter()
        .enumerate()
        .flat_map(|(i, canvas)| canvas.panes.iter().map(move |_| i))
        .collect();
    assert_eq!(saved, vec![0, 1, 1], "three panes across two windows");
}

#[test]
fn split_windows_keeps_every_pane_in_file_order_within_its_window() {
    let at = |w: usize, dir: &str| SavedPane {
        window: w,
        ..SavedPane::shell(dir.into())
    };
    let (first, rest) = split_windows(vec![
        at(3, "x"),
        at(0, "a"),
        at(3, "y"),
        at(1, "b"),
    ]);
    let dirs = |v: &[SavedPane]| v.iter().map(|p| p.dir.clone()).collect::<Vec<_>>();
    assert_eq!(dirs(&first), ["x", "y"], "the first group is whichever window came first");
    assert_eq!(rest.len(), 2);
    assert_eq!(dirs(&rest[0]), ["a"]);
    assert_eq!(dirs(&rest[1]), ["b"]);
}

#[test]
fn closing_every_window_quits_rather_than_leaving_none() {
    let mut c = crew();
    c.canvases.push(CrewApp::default());
    c.canvases[0].closing = true;
    c.canvases[1].closing = true;
    assert_eq!(c.close_asked(), CloseOutcome::Quit);
    assert_eq!(c.canvases.len(), 2, "the canvases stay to be saved");
    let mut c = crew();
    c.canvases.push(CrewApp::default());
    c.canvases.push(CrewApp::default());
    c.active = 2;
    c.canvases[2].closing = true;
    assert_eq!(c.close_asked(), CloseOutcome::Closed);
    assert_eq!((c.canvases.len(), c.active), (2, 1));
    assert_eq!(c.close_asked(), CloseOutcome::Nothing);
}

#[test]
fn restored_groups_come_back_in_canvas_order_and_one_window_ask_per_round() {
    let mut c = crew();
    c.canvases.push(CrewApp::default());
    c.canvases.push(CrewApp::default());
    c.canvases[0].pending_windows = vec![vec![SavedPane::shell("a".into())]];
    c.canvases[2].pending_windows = vec![
        vec![SavedPane::shell("b".into())],
        vec![SavedPane::shell("c".into()), SavedPane::shell("d".into())],
    ];
    c.canvases[1].want_window = true;
    c.canvases[2].want_window = true;
    let (groups, asked) = c.take_window_asks();
    let dirs: Vec<Vec<String>> = groups
        .iter()
        .map(|g| g.iter().map(|p| p.dir.clone()).collect())
        .collect();
    assert_eq!(dirs, vec![vec!["a"], vec!["b"], vec!["c", "d"]]);
    assert!(asked);
    assert!(c.canvases.iter().all(|k| k.pending_windows.is_empty()));
    assert!(!c.canvases[1].want_window, "the first ask is answered");
    assert!(c.canvases[2].want_window, "a later ask waits for the next round");
    let (groups, asked) = c.take_window_asks();
    assert!(groups.is_empty() && asked);
    assert!(!c.canvases[2].want_window);
}
