//! Addressing across windows: a pane nobody can name is a pane nobody can ask.
use crew_app::canvas::{pane_id, split_window, take_settled, CastAnswer, CastMode, Crew, CrewApp, Merge, PaneCard, PaneInfo, Request, Route};

fn pane(name: &str) -> PaneInfo {
    PaneInfo {
        name: (!name.is_empty()).then(|| name.to_string()),
    }
}

/// Two windows, the second holding a pane called `schema`.
fn two_windows() -> Crew {
    let mut first = CrewApp::default();
    first.panes.push(pane("shell"));
    let mut crew = Crew::new(first);
    let mut second = CrewApp::default();
    second.panes.push(pane("schema"));
    crew.canvases.push(second);
    crew
}

fn roster(crew: &mut Crew) -> Vec<PaneCard> {
    match crew.route_request(&Request::Panes) {
        Route::Roster(panes) => panes,
        other => panic!("expected a roster, got {other:?}"),
    }
}

/// Which canvas would answer an ask for `to`.
fn canvas_of(crew: &Crew, to: &str) -> Option<usize> {
    crew.canvas_for(to)
}

#[test]
fn a_second_windows_panes_are_addressable_by_id() {
    assert_eq!(pane_id(0, 3), "p3");
    assert_eq!(
        pane_id(1, 0),
        "w1p0",
        "the first window keeps the spelling every script already knows"
    );
}

#[test]
fn a_window_prefix_is_read_off_an_address() {
    assert_eq!(split_window("p0"), (None, "p0"));
    assert_eq!(split_window("w1p0"), (Some(1), "p0"));
    assert_eq!(split_window("w12p3"), (Some(12), "p3"));
}

#[test]
fn a_pane_name_that_starts_with_w_is_not_a_window_prefix() {
    // `worker`, `web`, and a pane somebody actually called `w1p0` — a prefix rule that eats
    // names makes those panes unreachable.
    assert_eq!(split_window("worker"), (None, "worker"));
    assert_eq!(split_window("web"), (None, "web"));
    assert_eq!(split_window("w1"), (None, "w1"));
    assert_eq!(split_window("w1pane"), (None, "w1pane"));
}

#[test]
fn the_roster_lists_every_window_with_the_id_that_reaches_it() {
    let mut crew = two_windows();
    let ids: Vec<String> = roster(&mut crew).into_iter().map(|c| c.id).collect();
    assert_eq!(ids, ["p0", "w1p0"]);
}

#[test]
fn an_ask_reaches_the_window_its_address_names() {
    let crew = two_windows();
    assert_eq!(canvas_of(&crew, "p0"), Some(0));
    assert_eq!(canvas_of(&crew, "w1p0"), Some(1));
}

#[test]
fn a_pane_addressed_by_name_is_found_in_whichever_window_holds_it() {
    let crew = two_windows();
    assert_eq!(canvas_of(&crew, "schema"), Some(1));
    assert_eq!(canvas_of(&crew, "shell"), Some(0));
}

#[test]
fn an_address_that_names_nothing_reaches_no_window() {
    let crew = two_windows();
    assert_eq!(canvas_of(&crew, "nobody"), None);
    assert_eq!(canvas_of(&crew, "w9p0"), None, "no ninth window");
    assert_eq!(canvas_of(&crew, "w1p7"), None, "no eighth pane in it");
}

#[test]
fn an_ask_routes_to_its_canvas_and_a_stray_address_is_unreachable() {
    let crew = two_windows();
    assert_eq!(
        crew.route_request(&Request::Ask { to: "schema".into() }),
        Route::Ask(1)
    );
    assert_eq!(
        crew.route_request(&Request::Ask { to: "w3p0".into() }),
        Route::Unreachable
    );
    assert_eq!(crew.route_request(&Request::Other), Route::Ignore);
}

#[test]
fn every_listed_pane_is_reachable_by_the_id_the_roster_gives_it() {
    let mut crew = two_windows();
    crew.canvases[1].panes.push(pane(""));
    for card in roster(&mut crew) {
        assert!(
            canvas_of(&crew, &card.id).is_some(),
            "{} is listed but unreachable",
            card.id
        );
    }
    assert_eq!(canvas_of(&crew, "w1p1"), Some(1));
}

#[test]
fn settled_broadcasts_leave_with_their_merged_replies() {
    let ans = |pane: &str, text: Option<&str>| CastAnswer {
        pane: pane.into(),
        text: text.map(|t| t.to_string()),
    };
    let mut any = Merge::new(CastMode::Any, 2);
    any.receive(vec![ans("p0", None), ans("p1", Some("yes")), ans("p2", Some("also"))]);
    let mut all = Merge::new(CastMode::All, 2);
    all.receive(vec![ans("p0", Some("a"))]);
    let mut closed = Merge::new(CastMode::All, 2);
    closed.receive(vec![ans("w1p0", Some("b"))]);
    closed.part_closed();
    let mut casts = vec![any, all, closed];
    let done = take_settled(&mut casts);
    assert_eq!(done.len(), 2);
    assert_eq!(done[0].0, 0);
    assert_eq!(done[0].1, vec![ans("p1", Some("yes"))], "Any: the first real answer only");
    assert_eq!(done[1].0, 2);
    assert_eq!(done[1].1, vec![ans("w1p0", Some("b"))], "a closed part ends the wait");
    assert_eq!(casts.len(), 1, "the one still waiting stays");
    assert_eq!(casts[0].waiting, 1);
}

#[test]
fn a_broadcast_fans_to_the_canvases_with_panes_and_waits_on_each() {
    let mut crew = two_windows();
    crew.canvases.push(CrewApp::default());
    let mut casts: Vec<Merge> = Vec::new();
    let targets = crew.fan_broadcast(CastMode::All, &mut casts);
    assert_eq!(targets, vec![0, 1], "the empty third canvas is not asked");
    assert_eq!(casts.len(), 1);
    assert_eq!(casts[0].waiting, 2);
    assert_eq!(casts[0].mode, CastMode::All);
    assert!(casts[0].answers.is_empty());
}

#[test]
fn a_broadcast_with_no_panes_anywhere_is_answered_at_once() {
    let crew = Crew::new(CrewApp::default());
    let mut casts: Vec<Merge> = Vec::new();
    assert!(crew.fan_broadcast(CastMode::Any, &mut casts).is_empty());
    assert!(casts.is_empty(), "nothing is left waiting");
}
