//! Which agents are thinking, and what the pulse is told.
use crew_app::flow::{absorb_activity, active_status, flush_active_hops, note_reply, ActiveAgent, PulseOp};
use crew_app::message::Message;

fn agent(name: &str, since: u64) -> ActiveAgent {
    ActiveAgent { name: name.into(), from: "user".into(), since, tool: String::new() }
}

/// A pane's live activity: who is thinking, and its provisional cards.
#[derive(Default)]
struct Pane {
    active: Vec<ActiveAgent>,
    streaming: Vec<Message>,
}

impl Pane {
    fn absorb_activity(&mut self, agent: String, state: &str, from: String) -> Vec<PulseOp> {
        absorb_activity(&mut self.active, &mut self.streaming, agent, state, from, 1_000)
    }
    fn active_status(&self) -> Option<(String, u64)> {
        active_status(&self.active, 1_000)
    }
    fn active_names(&self) -> Vec<&str> {
        self.active.iter().map(|a| a.name.as_str()).collect()
    }
}

#[test]
fn an_agent_on_a_tool_says_which_one_and_then_stops_saying_it() {
    let mut p = Pane::default();
    p.absorb_activity("api-consumer".into(), "thinking", "hive".into());
    assert_eq!(p.active_status().unwrap().0, "api-consumer");

    p.absorb_activity("api-consumer".into(), "tool sys:run", "hive".into());
    assert_eq!(
        p.active_status().unwrap().0,
        "api-consumer \u{22ef} sys:run"
    );

    // The bare form clears it: the model is thinking again.
    p.absorb_activity("api-consumer".into(), "tool", String::new());
    assert_eq!(p.active_status().unwrap().0, "api-consumer");
}

#[test]
fn a_tool_round_does_not_begin_a_second_hop() {
    let mut p = Pane::default();
    p.absorb_activity("coder".into(), "thinking", "user".into());
    let before = p.active.len();
    assert!(p.absorb_activity("coder".into(), "tool sys:run", "hive".into()).is_empty());
    assert!(p.absorb_activity("coder".into(), "tool", String::new()).is_empty());
    assert_eq!(p.active.len(), before, "the agent was counted twice");
    assert_eq!(p.active_names(), vec!["coder"]);
}

#[test]
fn a_tool_state_for_an_unknown_agent_is_ignored() {
    let mut p = Pane::default();
    p.absorb_activity("ghost".into(), "tool sys:run", "hive".into());
    assert!(p.active_names().is_empty());
}

#[test]
fn turn_end_clears_a_stranded_provisional_card() {
    let mut p = Pane::default();
    p.streaming.push(Message {
        sender: "coder".into(),
        text: "half a reply".into(),
        ..Message::default()
    });
    // The empty-agent idle: the turn is over and no Message ever arrived.
    p.absorb_activity(String::new(), "idle", String::new());
    assert!(
        p.streaming.is_empty(),
        "an interrupted hop leaves no stranded card"
    );
    assert!(p.active_names().is_empty());
}

#[test]
fn thinking_starts_a_clock_once_and_idle_records_the_hop() {
    let mut active = Vec::new();
    assert_eq!(absorb_activity(&mut active, &mut Vec::new(), "coder".into(), "thinking", "user".into(), 1_000), vec![PulseOp::BeginHop]);
    assert_eq!(absorb_activity(&mut active, &mut Vec::new(), "coder".into(), "thinking", "user".into(), 1_500), vec![PulseOp::BeginHop]);
    assert_eq!(active.len(), 1, "an agent already thinking keeps its clock");
    assert_eq!(active[0].since, 1_000);
    assert_eq!(
        absorb_activity(&mut active, &mut Vec::new(), "coder".into(), "idle", String::new(), 3_000),
        vec![PulseOp::Hop { name: "coder".into(), ms: 2_000 }]
    );
    assert!(active.is_empty());
    assert!(absorb_activity(&mut active, &mut Vec::new(), "ghost".into(), "idle", String::new(), 3_000).is_empty());
}

#[test]
fn the_turn_ending_flushes_everyone_still_running() {
    let mut active = vec![agent("a", 100), agent("b", 400)];
    let ops = absorb_activity(&mut active, &mut Vec::new(), String::new(), "idle", String::new(), 1_000);
    assert_eq!(
        ops,
        vec![
            PulseOp::Hop { name: "a".into(), ms: 900 },
            PulseOp::Hop { name: "b".into(), ms: 600 },
            PulseOp::EndTurn,
        ]
    );
    assert!(active.is_empty());
    assert_eq!(flush_active_hops(&mut active, 5), vec![PulseOp::EndTurn]);
}

#[test]
fn a_relayed_reply_ends_the_sending_agents_hop() {
    let mut active = vec![agent("planner", 0), agent("coder", 10)];
    assert_eq!(
        note_reply(&mut active, "coder \u{2192} planner", 110),
        Some(PulseOp::Hop { name: "coder".into(), ms: 100 })
    );
    assert_eq!(active.len(), 1);
    assert_eq!(note_reply(&mut active, "nobody", 200), None);
}

#[test]
fn the_status_names_one_agent_or_counts_a_fan() {
    assert_eq!(active_status(&Vec::new(), 0), None);
    assert_eq!(active_status(&vec![agent("coder", 1_000)], 4_500), Some(("coder".to_string(), 3)));
    assert_eq!(
        active_status(&vec![agent("a", 1_000), agent("b", 0)], 2_000),
        Some(("2 working".to_string(), 2))
    );
}
