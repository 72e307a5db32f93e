//! Draining the broker: the decisions the per-frame poll makes as each
//! plugin event arrives — which events are host actions the app performs,
//! what a broker arriving or going away says and resets — and the one
//! queued message sent once the pane is connected and idle.
use vstd::prelude::*;
use crate::text::str_eq;

verus! {

/// What a pane holds of the broker process serving it.
pub struct DrainState {
    /// A broker has said it is ready and has not been lost since.
    pub connected: bool,
    /// The channel the pane talks on; empty until a broker names one.
    pub channel: String,
    /// Tasks the broker reported running.
    pub running_tasks: Vec<u64>,
    /// The broker holds a plan waiting for an answer.
    pub plan_pending: bool,
    /// Usage of a reply still in flight: `(tokens in, tokens out, cost)`.
    pub pending_reply_usage: Option<(u64, u64, u64)>,
    /// Messages typed while the pane was busy, oldest first.
    pub queued: Vec<String>,
}

/// A plugin event, as far as the drain decides on it.
pub enum Event {
    /// The handshake: which provider answered and the channels it offers.
    Ready { provider: String, channels: Vec<String> },
    /// The broker is (or stops) holding a plan for an answer.
    Plan { pending: bool },
    /// The broker connection died.
    Error,
    /// The broker asks the app for a pane running `command`.
    SpawnPane { command: String, args: Vec<String>, label: String },
    /// The broker asks the app to type `text` into the pane labelled `label`.
    SendPane { label: String, text: String },
    /// An event the pane folds into its own transcript and tallies.
    Other,
}

/// What the drain hands on.
#[derive(Debug, PartialEq, Eq)]
pub enum Action {
    /// For the app: open a pane.
    SpawnPane { command: String, args: Vec<String>, label: String },
    /// For the app: type into a pane.
    SendPane { label: String, text: String },
    /// A status line for the log, red when `error`.
    Status { error: bool, message: String },
    /// For the pane: fold the swarm run the lost broker was driving.
    FoldSwarm,
    /// For the pane: record every still-running agent's hop and end the turn.
    FlushActiveHops,
}

/// The status line a broker's handshake is announced with.
pub open spec fn connected_text(provider: Seq<char>) -> Seq<char> {
    if provider == "crew"@ {
        "agent smith broker connected"@
    } else {
        provider + " plugin connected"@
    }
}

/// The status line for a lost broker.
pub open spec fn lost_text() -> Seq<char> {
    "broker connection lost"@
}

/// Nothing that belonged to one broker process survives it: no running
/// tasks, no plan waiting, no reply usage in flight. Everything else stays.
pub open spec fn reset_of(before: DrainState, after: DrainState) -> bool {
    &&& after.running_tasks@.len() == 0
    &&& !after.plan_pending
    &&& after.pending_reply_usage is None
    &&& after.queued == before.queued
}

impl DrainState {
    /// Drop everything that belonged to one broker process.
    pub fn reset_broker_state(&mut self)
        ensures
            reset_of(*old(self), *final(self)),
            final(self).connected == old(self).connected,
            final(self).channel == old(self).channel,
    {
        self.running_tasks = Vec::new();
        self.plan_pending = false;
        self.pending_reply_usage = None;
    }
}

/// What folding event `ev` into `s0` does: `s1` is the state after, and
/// `acts` what is handed on.
pub open spec fn step_rel(s0: DrainState, ev: Event, s1: DrainState, acts: Seq<Action>) -> bool {
        match ev {
            Event::SpawnPane { command, args, label } => {
                &&& acts.len() == 1
                &&& acts[0] matches Action::SpawnPane { command: c, args: a, label: l } && c == command
                    && a@ == args@ && l == label
                &&& s1 == s0
            },
            Event::SendPane { label, text } => acts == seq![Action::SendPane { label, text }]
                && s1 == s0,
            Event::Ready { provider, channels } => {
                &&& acts.len() == 1
                &&& acts[0] matches Action::Status { error, message } && !error && message@
                    == connected_text(provider@)
                &&& s1.connected
                &&& reset_of(s0, s1)
                &&& s1.channel@ == (if s0.channel@.len() == 0 && channels@.len() > 0 {
                    channels@[0]@
                } else {
                    s0.channel@
                })
            },
            Event::Error => {
                &&& acts.len() == 3
                &&& acts[0] matches Action::Status { error, message } && error && message@
                    == lost_text()
                &&& acts[1] == Action::FoldSwarm
                &&& acts[2] == Action::FlushActiveHops
                &&& !s1.connected
                &&& reset_of(s0, s1)
                &&& s1.channel == s0.channel
            },
            Event::Plan { pending } => acts.len() == 0 && s1 == (DrainState {
                plan_pending: pending,
                ..s0
            }),
            Event::Other => acts.len() == 0 && s1 == s0,
        }
}

/// Fold one event in. Host requests pass on to the app unchanged. A broker's
/// handshake connects the pane, says so, resets what an earlier broker left
/// and — if the pane has no channel yet — takes the first one offered. A
/// lost broker says so, folds its swarm, records its running hops,
/// disconnects and resets. A plan flag is taken as it comes; anything else
/// is the pane's own to fold and decides nothing here.
pub fn drain_step(s: &mut DrainState, ev: &Event) -> (r: Vec<Action>)
    ensures
        step_rel(*old(s), *ev, *final(s), r@),
{
    let mut out: Vec<Action> = Vec::new();
    match ev {
        Event::SpawnPane { command, args, label } => {
            let a = args.clone();
            assert forall|i: int| 0 <= i < a@.len() implies a@[i] == args@[i] by {
                assert(cloned::<String>(args@[i], a@[i]));
            }
            assert(a@ =~= args@);
            out.push(Action::SpawnPane { command: command.clone(), args: a, label: label.clone() });
        },
        Event::SendPane { label, text } => {
            out.push(Action::SendPane { label: label.clone(), text: text.clone() });
        },
        Event::Ready { provider, channels } => {
            s.connected = true;
            let message = if str_eq(provider.as_str(), "crew") {
                "agent smith broker connected".to_owned()
            } else {
                let mut m = provider.clone();
                m.append(" plugin connected");
                m
            };
            out.push(Action::Status { error: false, message });
            s.reset_broker_state();
            if s.channel.unicode_len() == 0 && channels.len() > 0 {
                s.channel = channels[0].clone();
            }
        },
        Event::Error => {
            out.push(Action::Status { error: true, message: "broker connection lost".to_owned() });
            out.push(Action::FoldSwarm);
            out.push(Action::FlushActiveHops);
            s.connected = false;
            s.reset_broker_state();
        },
        Event::Plan { pending } => {
            s.plan_pending = *pending;
        },
        Event::Other => {},
    }
    out
}

/// What the flush after a drain does to `s0`: the oldest queued message
/// goes out (`r`) when the pane is connected and not `busy`, leaving `s1`.
pub open spec fn flush_rel(s0: DrainState, busy: bool, r: Option<String>, s1: DrainState) -> bool {
    &&& s0.connected && !busy && s0.queued@.len() > 0 ==> r == Some(s0.queued@[0])
        && s1 == (DrainState { queued: s1.queued, ..s0 })
        && s1.queued@ == s0.queued@.drop_first()
    &&& !(s0.connected && !busy && s0.queued@.len() > 0) ==> r is None && s1 == s0
}

/// A run of the events `evs` from `s0`: `states[i]` is the state before
/// event `i` (and the last, after them all), and event `i` handed on
/// `acts[cuts[i]..cuts[i + 1]]` — each event's actions in turn.
pub open spec fn run_of(
    s0: DrainState,
    evs: Seq<Event>,
    states: Seq<DrainState>,
    cuts: Seq<int>,
    acts: Seq<Action>,
) -> bool {
    &&& states.len() == evs.len() + 1
    &&& cuts.len() == evs.len() + 1
    &&& states[0] == s0
    &&& cuts[0] == 0
    &&& cuts[evs.len() as int] == acts.len()
    &&& forall|i: int, j: int|
        #![trigger cuts[i], cuts[j]]
        0 <= i <= j <= evs.len() ==> 0 <= cuts[i] <= cuts[j] <= acts.len()
    &&& forall|i: int|
        #![trigger evs[i]]
        0 <= i < evs.len() ==> step_rel(
            states[i],
            evs[i],
            states[i + 1],
            acts.subrange(cuts[i], cuts[i + 1]),
        )
}

/// A run extends by one more event: the state it ends in steps on.
proof fn lemma_run_extends(
    s0: DrainState,
    evs: Seq<Event>,
    states: Seq<DrainState>,
    cuts: Seq<int>,
    acts: Seq<Action>,
    ev: Event,
    s1: DrainState,
    more: Seq<Action>,
)
    requires
        run_of(s0, evs, states, cuts, acts),
        step_rel(states.last(), ev, s1, more),
    ensures
        run_of(s0, evs.push(ev), states.push(s1), cuts.push((acts.len() + more.len()) as int), acts + more),
{
    let e = evs.push(ev);
    let st = states.push(s1);
    let ct = cuts.push((acts.len() + more.len()) as int);
    let all = acts + more;
    assert forall|a: int, b: int| #![trigger ct[a], ct[b]] 0 <= a <= b <= e.len() implies 0 <= ct[a]
        <= ct[b] <= all.len() by {
        if b == e.len() && a < e.len() {
            assert(0 <= cuts[a] <= cuts[evs.len() as int] <= acts.len());
        }
    }
    assert forall|k: int| #![trigger e[k]] 0 <= k < e.len() implies step_rel(
        st[k],
        e[k],
        st[k + 1],
        all.subrange(ct[k], ct[k + 1]),
    ) by {
        if k < evs.len() {
            assert(e[k] == evs[k]);
            assert(0 <= cuts[k] <= cuts[k + 1] <= acts.len());
            assert(all.subrange(ct[k], ct[k + 1]) =~= acts.subrange(cuts[k], cuts[k + 1]));
        } else {
            assert(all.subrange(ct[k], ct[k + 1]) =~= more);
        }
    }
}

/// One frame's drain: nothing at all for an empty batch (nothing changes,
/// nothing is flushed); otherwise every event folded in, in order, then the
/// flush — `busy` being whether the pane is still busy once they are in.
/// Returns whether anything changed, the actions, and the message sent.
pub fn drain(s: &mut DrainState, events: &[Event], busy: bool) -> (r: (bool, Vec<Action>, Option<String>))
    ensures
        events@.len() == 0 ==> !r.0 && r.1@.len() == 0 && r.2 is None && *final(s) == *old(s),
        events@.len() > 0 ==> r.0 && exists|states: Seq<DrainState>, cuts: Seq<int>|
            #![trigger run_of(*old(s), events@, states, cuts, r.1@)]
            run_of(*old(s), events@, states, cuts, r.1@) && flush_rel(
                states.last(),
                busy,
                r.2,
                *final(s),
            ),
{
    if events.len() == 0 {
        return (false, Vec::new(), None);
    }
    let ghost s0 = *s;
    let mut out: Vec<Action> = Vec::new();
    let ghost mut states: Seq<DrainState> = seq![s0];
    let ghost mut cuts: Seq<int> = seq![0int];
    let mut i: usize = 0;
    while i < events.len()
        invariant
            i <= events@.len(),
            run_of(s0, events@.subrange(0, i as int), states, cuts, out@),
            states.last() == *s,
        decreases events@.len() - i,
    {
        let ghost before = out@;
        let mut got = drain_step(s, &events[i]);
        let ghost g = got@;
        out.append(&mut got);
        proof {
            lemma_run_extends(s0, events@.subrange(0, i as int), states, cuts, before, events@[i as int], *s, g);
            assert(events@.subrange(0, i as int).push(events@[i as int]) =~= events@.subrange(0, i + 1));
            assert(before + g =~= out@);
            states = states.push(*s);
            cuts = cuts.push(out@.len() as int);
        }
        i = i + 1;
    }
    assert(events@.subrange(0, i as int) =~= events@);
    assert(run_of(s0, events@, states, cuts, out@));
    let sent = flush(s, busy);
    let r = (true, out, sent);
    assert(run_of(*old(s), events@, states, cuts, r.1@) && flush_rel(states.last(), busy, r.2, *s));
    r
}

/// After a drain: one queued message goes out, oldest first, only while
/// the pane is connected and not `busy` — never to a broker that has just
/// died, and one per turn.
pub fn flush(s: &mut DrainState, busy: bool) -> (r: Option<String>)
    ensures
        flush_rel(*old(s), busy, r, *final(s)),
{
    if s.connected && !busy && s.queued.len() > 0 {
        let t = s.queued.remove(0);
        assert(s.queued@ =~= old(s).queued@.drop_first());
        Some(t)
    } else {
        None
    }
}

} // verus!
