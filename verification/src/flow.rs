//! The chat pane's live activity: which agents are thinking right now, who
//! handed each the work and since when, and the hop records the pane's
//! pulse is fed as agents start, finish and the turn ends. Times are epoch
//! milliseconds read by the caller.
use vstd::prelude::*;
use crate::num::{nat_text, u64_text};
use crate::message::Message;
use crate::text::{has_prefix, str_eq, string_of};

verus! {

/// One currently-thinking agent.
pub struct ActiveAgent {
    /// The agent doing the work.
    pub name: String,
    /// Who handed it the work (`user`, a peer agent, …; may be empty).
    pub from: String,
    /// When it started thinking.
    pub since: u64,
    /// The tool it is waiting on, empty while it is thinking.
    pub tool: String,
}

/// What the pulse (hop history) is told.
#[derive(Debug, PartialEq, Eq)]
pub enum PulseOp {
    /// An agent started thinking: a fresh hop (and a fresh waterfall when the
    /// previous turn had settled).
    BeginHop,
    /// `name` finished a hop that took `ms`.
    Hop { name: String, ms: u64 },
    /// The turn is over: freeze the waterfall.
    EndTurn,
}

/// Milliseconds from `since` to `now`, never negative.
pub open spec fn elapsed(since: u64, now: u64) -> u64 {
    if now > since {
        (now - since) as u64
    } else {
        0
    }
}

/// The first agent in `active` called `name`.
pub open spec fn position_of(active: Seq<ActiveAgent>, name: Seq<char>) -> Option<int>
    decreases active.len(),
{
    if active.len() == 0 {
        None
    } else {
        match position_of(active.drop_last(), name) {
            Some(i) => Some(i),
            None => if active.last().name@ == name {
                Some(active.len() - 1)
            } else {
                None
            },
        }
    }
}

/// The hop each of `active` finishes at `now`, in order.
pub open spec fn hops_of(active: Seq<ActiveAgent>, now: u64) -> Seq<(Seq<char>, u64)> {
    active.map_values(|a: ActiveAgent| (a.name@, elapsed(a.since, now)))
}

/// A pulse op as plain values: `None` for the markers, the hop otherwise.
pub open spec fn op_view(op: PulseOp) -> (int, Seq<char>, u64) {
    match op {
        PulseOp::BeginHop => (0, Seq::empty(), 0),
        PulseOp::Hop { name, ms } => (1, name@, ms),
        PulseOp::EndTurn => (2, Seq::empty(), 0),
    }
}

/// The ops of a flush at `now`: a hop per agent still thinking, then the
/// end of the turn.
pub open spec fn flush_ops(active: Seq<ActiveAgent>, now: u64) -> Seq<(int, Seq<char>, u64)> {
    hops_of(active, now).map_values(|h: (Seq<char>, u64)| (1int, h.0, h.1)) + seq![
        (2int, Seq::<char>::empty(), 0u64),
    ]
}

fn find_agent(active: &Vec<ActiveAgent>, name: &str) -> (r: Option<usize>)
    ensures
        match position_of(active@, name@) {
            Some(i) => r matches Some(k) && k == i,
            None => r is None,
        },
{
    let mut i: usize = 0;
    while i < active.len()
        invariant
            i <= active@.len(),
            position_of(active@.subrange(0, i as int), name@) is None,
        decreases active@.len() - i,
    {
        assert(active@.subrange(0, i + 1).drop_last() =~= active@.subrange(0, i as int));
        if str_eq(active[i].name.as_str(), name) {
            proof {
                lemma_position_prefix(active@, name@, i + 1);
            }
            return Some(i);
        }
        i = i + 1;
    }
    assert(active@.subrange(0, i as int) =~= active@);
    None
}

proof fn lemma_position_prefix(active: Seq<ActiveAgent>, name: Seq<char>, k: int)
    requires
        0 <= k <= active.len(),
        position_of(active.subrange(0, k), name) is Some,
    ensures
        position_of(active, name) == position_of(active.subrange(0, k), name),
    decreases active.len() - k,
{
    if k < active.len() {
        assert(active.subrange(0, k + 1).drop_last() =~= active.subrange(0, k));
        lemma_position_prefix(active, name, k + 1);
    } else {
        assert(active.subrange(0, k) =~= active);
    }
}

proof fn lemma_position_in_range(active: Seq<ActiveAgent>, name: Seq<char>)
    ensures
        position_of(active, name) matches Some(i) ==> 0 <= i < active.len() && active[i].name@
            == name,
    decreases active.len(),
{
    if active.len() > 0 {
        lemma_position_in_range(active.drop_last(), name);
    }
}

fn elapsed_ms(since: u64, now: u64) -> (r: u64)
    ensures
        r == elapsed(since, now),
{
    if now > since {
        now - since
    } else {
        0
    }
}

/// Stop `active[i]`'s clock: take it out and say how long its hop took.
fn finish(active: &mut Vec<ActiveAgent>, i: usize, now: u64) -> (r: PulseOp)
    requires
        i < old(active)@.len(),
    ensures
        final(active)@ == old(active)@.remove(i as int),
        op_view(r) == (1int, old(active)@[i as int].name@, elapsed(old(active)@[i as int].since, now)),
{
    let a = active.remove(i);
    PulseOp::Hop { ms: elapsed_ms(a.since, now), name: a.name }
}

/// The turn is over (or the broker gone): every still-running agent's hop
/// is recorded, so a cancelled turn's waterfall stays truthful, then the
/// turn ends and nobody is thinking.
pub fn flush_active_hops(active: &mut Vec<ActiveAgent>, now: u64) -> (r: Vec<PulseOp>)
    ensures
        final(active)@.len() == 0,
        r@.map_values(|op: PulseOp| op_view(op)) == flush_ops(old(active)@, now),
{
    let ghost all = active@;
    let mut out: Vec<PulseOp> = Vec::new();
    let mut rest: Vec<ActiveAgent> = Vec::new();
    std::mem::swap(&mut rest, active);
    let n = rest.len();
    let mut i: usize = 0;
    while rest.len() > 0
        invariant
            i + rest@.len() == all.len(),
            all.len() == n,
            rest@ == all.subrange(i as int, all.len() as int),
            out@.map_values(|op: PulseOp| op_view(op)) == hops_of(all.subrange(0, i as int), now).map_values(
                |h: (Seq<char>, u64)| (1int, h.0, h.1),
            ),
        decreases rest@.len(),
    {
        let ghost before = out@;
        let ghost h = (1int, all[i as int].name@, elapsed(all[i as int].since, now));
        assert(rest@[0] == all[i as int]);
        let op = finish(&mut rest, 0, now);
        assert(op_view(op) == h);
        assert(rest@ =~= all.subrange(i + 1, all.len() as int));
        out.push(op);
        assert(out@.map_values(|op: PulseOp| op_view(op)) =~= before.map_values(|op: PulseOp| op_view(op)).push(h));
        assert(all.subrange(0, i + 1) =~= all.subrange(0, i as int).push(all[i as int]));
        assert(hops_of(all.subrange(0, i + 1), now).map_values(|h: (Seq<char>, u64)| (1int, h.0, h.1))
            =~= hops_of(all.subrange(0, i as int), now).map_values(|h: (Seq<char>, u64)| (1int, h.0, h.1)).push(h));
        i = i + 1;
    }
    assert(all.subrange(0, i as int) =~= all);
    let ghost hops = out@;
    out.push(PulseOp::EndTurn);
    assert(out@.map_values(|op: PulseOp| op_view(op)) =~= hops.map_values(|op: PulseOp| op_view(op)).push(
        (2int, Seq::<char>::empty(), 0u64),
    ));
    out
}

/// The tool a `tool …` activity state names: `tool sys:run` waits on
/// `sys:run`, and the bare `tool` clears the label (the model is thinking
/// again). `None` for any other state.
pub open spec fn tool_label(state: Seq<char>) -> Option<Seq<char>> {
    if state == "tool"@ {
        Some(Seq::empty())
    } else if has_prefix(state, "tool "@) {
        Some(state.subrange(5, state.len() as int))
    } else {
        None
    }
}

fn tool_of(state: &str) -> (r: Option<String>)
    ensures
        match tool_label(state@) {
            Some(t) => r matches Some(x) && x@ == t,
            None => r is None,
        },
{
    proof {
        reveal_strlit("tool");
        reveal_strlit("tool ");
    }
    let cs = crate::text::chars_of(state);
    let bare = crate::text::chars_of("tool");
    if cs.len() == 4 && crate::text::starts_with(cs.as_slice(), bare.as_slice()) {
        assert(cs@ =~= "tool"@);
        return Some(String::new());
    }
    proof {
        if state@ == "tool"@ {
            assert(cs@.subrange(0, 4) =~= cs@);
        }
    }
    let pre = crate::text::chars_of("tool ");
    if !crate::text::starts_with(cs.as_slice(), pre.as_slice()) {
        return None;
    }
    let mut out: Vec<char> = Vec::new();
    let mut i: usize = 5;
    while i < cs.len()
        invariant
            5 <= i <= cs@.len(),
            out@ == cs@.subrange(5, i as int),
        decreases cs@.len() - i,
    {
        out.push(cs[i]);
        assert(cs@.subrange(5, i + 1) =~= cs@.subrange(5, i as int).push(cs@[i as int]));
        i = i + 1;
    }
    Some(string_of(out.as_slice()))
}

/// Fold one `Activity` event in at `now`. `thinking` from an agent starts a
/// hop and its clock (once: an agent already thinking keeps its start);
/// `idle` from an agent stops its clock and records its hop; `tool …` from
/// an active agent labels (or, bare, unlabels) the tool it
/// waits on — a tool round is inside a hop, so no hop begins or ends, and a
/// tool state for an agent nobody started is ignored; anything else — the
/// empty-agent idle that ends a turn — flushes everyone, and the turn's
/// provisional cards (`streaming`) go with it, so an interrupted hop leaves
/// none stranded.
pub fn absorb_activity(
    active: &mut Vec<ActiveAgent>,
    streaming: &mut Vec<Message>,
    agent: String,
    state: &str,
    from: String,
    now: u64,
) -> (r: Vec<PulseOp>)
    ensures
        agent@.len() > 0 && tool_label(state@) is Some ==> {
            let t = tool_label(state@)->0;
            &&& r@.len() == 0
            &&& final(streaming)@ == old(streaming)@
            &&& final(active)@.len() == old(active)@.len()
            &&& match position_of(old(active)@, agent@) {
                Some(i) => {
                    &&& forall|j: int| 0 <= j < old(active)@.len() && j != i ==> #[trigger] final(active)@[j] == old(active)@[j]
                    &&& final(active)@[i].name == old(active)@[i].name
                    &&& final(active)@[i].from == old(active)@[i].from
                    &&& final(active)@[i].since == old(active)@[i].since
                    &&& final(active)@[i].tool@ == t
                },
                None => final(active)@ == old(active)@,
            }
        },
        state@ == "thinking"@ && agent@.len() > 0 ==> {
            &&& r@.map_values(|op: PulseOp| op_view(op)) == seq![(0int, Seq::<char>::empty(), 0u64)]
            &&& position_of(old(active)@, agent@) is Some ==> final(active)@ == old(active)@
            &&& position_of(old(active)@, agent@) is None ==> final(active)@.len() == old(active)@.len() + 1
                && final(active)@.drop_last() == old(active)@ && final(active)@.last().name == agent
                && final(active)@.last().from == from && final(active)@.last().since == now
                && final(active)@.last().tool@.len() == 0
            &&& final(streaming)@ == old(streaming)@
        },
        state@ == "idle"@ && agent@.len() > 0 ==> match position_of(old(active)@, agent@) {
            Some(i) => final(active)@ == old(active)@.remove(i) && r@.map_values(|op: PulseOp| op_view(op))
                == seq![(1int, agent@, elapsed(old(active)@[i].since, now))],
            None => final(active)@ == old(active)@ && r@.len() == 0,
        } && final(streaming)@ == old(streaming)@,
        !((state@ == "thinking"@ || state@ == "idle"@ || tool_label(state@) is Some) && agent@.len() > 0)
            ==> final(active)@.len() == 0 && final(streaming)@.len() == 0
            && r@.map_values(|op: PulseOp| op_view(op)) == flush_ops(old(active)@, now),
{
    let named = agent.unicode_len() > 0;
    proof {
        reveal_strlit("thinking");
        reveal_strlit("idle");
        reveal_strlit("tool");
        reveal_strlit("tool ");
        assert("thinking"@.len() != "idle"@.len());
        if state@ == "thinking"@ || state@ == "idle"@ {
            assert(tool_label(state@) is None) by {
                if state@ == "thinking"@ {
                    assert(state@.len() != "tool"@.len());
                    assert(state@.subrange(0, 5)[1] != "tool "@[1]);
                } else {
                    assert(state@[0] != "tool"@[0]);
                    assert(state@.len() < "tool "@.len());
                }
            }
        }
    }
    if named && str_eq(state, "thinking") {
        let mut out: Vec<PulseOp> = Vec::new();
        out.push(PulseOp::BeginHop);
        assert(out@.map_values(|op: PulseOp| op_view(op)) =~= seq![(0int, Seq::<char>::empty(), 0u64)]);
        if find_agent(active, agent.as_str()).is_none() {
            active.push(ActiveAgent { name: agent, from, since: now, tool: String::new() });
        }
        return out;
    }
    if named && str_eq(state, "idle") {
        let mut out: Vec<PulseOp> = Vec::new();
        proof {
            lemma_position_in_range(active@, agent@);
        }
        let found = find_agent(active, agent.as_str());
        assert(position_of(old(active)@, agent@) == position_of(active@, agent@));
        if let Some(i) = found {
            assert(position_of(active@, agent@) == Some(i as int));
            assert(active@[i as int].name@ == agent@);
            let op = finish(active, i, now);
            assert(op_view(op) == (1int, agent@, elapsed(old(active)@[i as int].since, now)));
            out.push(op);
            assert(out@.len() == 1 && out@[0] == op);
            assert(out@.map_values(|op: PulseOp| op_view(op))[0] == op_view(op));
            assert(out@.map_values(|op: PulseOp| op_view(op)) =~= seq![(1int, agent@, elapsed(old(active)@[i as int].since, now))]);
        }
        return out;
    }
    if named {
        if let Some(t) = tool_of(state) {
            proof {
                lemma_position_in_range(active@, agent@);
            }
            if let Some(i) = find_agent(active, agent.as_str()) {
                let mut a = active.remove(i);
                a.tool = t;
                active.insert(i, a);
            }
            return Vec::new();
        }
    }
    *streaming = Vec::new();
    flush_active_hops(active, now)
}

/// The name a reply's sender leads with: `a → b` is `a`'s reply.
pub open spec fn lead_name(sender: Seq<char>) -> Seq<char> {
    match arrow_at(sender) {
        Some(i) => sender.subrange(0, i),
        None => sender,
    }
}

/// Where the first ` → ` in `s` starts.
pub open spec fn arrow_at(s: Seq<char>) -> Option<int> {
    if exists|i: int| 0 <= i && i + 3 <= s.len() && is_arrow(s, i) {
        Some(choose|i: int| 0 <= i && i + 3 <= s.len() && is_arrow(s, i) && forall|j: int|
            0 <= j < i ==> !is_arrow(s, j))
    } else {
        None
    }
}

/// Whether ` → ` starts at `i` of `s`.
pub open spec fn is_arrow(s: Seq<char>, i: int) -> bool {
    0 <= i && i + 3 <= s.len() && s[i] == ' ' && s[i + 1] == '\u{2192}' && s[i + 2] == ' '
}

proof fn lemma_arrow_at(s: Seq<char>, i: int)
    requires
        is_arrow(s, i),
        forall|j: int| 0 <= j < i ==> !is_arrow(s, j),
    ensures
        arrow_at(s) == Some(i),
{
    let k = choose|k: int| 0 <= k && k + 3 <= s.len() && is_arrow(s, k) && forall|j: int|
        0 <= j < k ==> !is_arrow(s, j);
    assert(0 <= i && i + 3 <= s.len() && is_arrow(s, i) && forall|j: int| 0 <= j < i ==> !is_arrow(s, j));
    if k < i {
        assert(!is_arrow(s, k));
    }
    if k > i {
        assert(!is_arrow(s, i));
    }
}

fn lead_of(sender: &str) -> (r: String)
    ensures
        r@ == lead_name(sender@),
{
    let cs = crate::text::chars_of(sender);
    let n = cs.len();
    let mut i: usize = 0;
    while i < n && n - i >= 3
        invariant
            cs@ == sender@,
            n == cs@.len(),
            i <= n,
            forall|j: int| 0 <= j < i ==> !is_arrow(sender@, j),
        decreases n - i,
    {
        if cs[i] == ' ' && cs[i + 1] == '\u{2192}' && cs[i + 2] == ' ' {
            proof {
                lemma_arrow_at(sender@, i as int);
            }
            let mut out: Vec<char> = Vec::new();
            let mut j: usize = 0;
            while j < i
                invariant
                    j <= i,
                    i <= cs@.len(),
                    out@ == cs@.subrange(0, j as int),
                decreases i - j,
            {
                out.push(cs[j]);
                assert(cs@.subrange(0, j + 1) =~= cs@.subrange(0, j as int).push(cs@[j as int]));
                j = j + 1;
            }
            return string_of(out.as_slice());
        }
        i = i + 1;
    }
    assert(!(exists|j: int| 0 <= j && j + 3 <= sender@.len() && is_arrow(sender@, j))) by {
        assert forall|j: int| 0 <= j && j + 3 <= sender@.len() implies !is_arrow(sender@, j) by {
            if j >= i {
                assert(j + 3 <= n);
            }
        }
    }
    string_of(cs.as_slice())
}

/// A reply landed at `now`: in a relay no per-agent idle comes, so the
/// message itself (sender `agent → to`) ends that agent's hop.
pub fn note_reply(active: &mut Vec<ActiveAgent>, sender: &str, now: u64) -> (r: Option<PulseOp>)
    ensures
        match position_of(old(active)@, lead_name(sender@)) {
            Some(i) => final(active)@ == old(active)@.remove(i) && (r matches Some(op) && op_view(op)
                == (1int, lead_name(sender@), elapsed(old(active)@[i].since, now))),
            None => final(active)@ == old(active)@ && r is None,
        },
{
    let name = lead_of(sender);
    proof {
        lemma_position_in_range(active@, name@);
    }
    match find_agent(active, name.as_str()) {
        Some(i) => Some(finish(active, i, now)),
        None => None,
    }
}

/// The oldest running clock among `active` at `now`, in whole seconds.
pub open spec fn max_secs(active: Seq<ActiveAgent>, now: u64) -> u64
    decreases active.len(),
{
    if active.len() == 0 {
        0
    } else {
        let s = (elapsed(active.last().since, now) / 1000) as u64;
        let m = max_secs(active.drop_last(), now);
        if s > m {
            s
        } else {
            m
        }
    }
}

/// The status clock is the oldest running one: at least every active
/// agent's elapsed whole seconds, and exactly one of them.
pub proof fn law_status_clock_is_the_oldest(active: Seq<ActiveAgent>, now: u64)
    ensures
        forall|k: int| 0 <= k < active.len() ==> max_secs(active, now) >= elapsed(#[trigger] active[k].since, now) / 1000,
        active.len() > 0 ==> exists|k: int| 0 <= k < active.len() && max_secs(active, now) == elapsed(#[trigger] active[k].since, now) / 1000,
        active.len() == 0 ==> max_secs(active, now) == 0,
    decreases active.len(),
{
    if active.len() > 0 {
        let rest = active.drop_last();
        law_status_clock_is_the_oldest(rest, now);
        assert forall|k: int| 0 <= k < active.len() implies max_secs(active, now) >= elapsed(#[trigger] active[k].since, now) / 1000 by {
            if k < rest.len() {
                assert(active[k] == rest[k]);
            }
        }
        let last = active.len() - 1;
        if max_secs(active, now) != elapsed(active[last].since, now) / 1000 {
            let k = choose|k: int| 0 <= k < rest.len() && max_secs(rest, now) == elapsed(#[trigger] rest[k].since, now) / 1000;
            assert(active[k] == rest[k]);
        }
    }
}

/// How one thinking agent reads in the status: its name, and the tool it
/// waits on when it is on one (`coder ⋯ sys:run`).
pub open spec fn status_name(a: ActiveAgent) -> Seq<char> {
    if a.tool@.len() > 0 {
        a.name@ + " \u{22ef} "@ + a.tool@
    } else {
        a.name@
    }
}

/// The live status label: the thinking agent's name (one active) or a
/// `N working` count (a parallel fan), with the oldest elapsed seconds;
/// `None` when nobody is thinking.
pub fn active_status(active: &Vec<ActiveAgent>, now: u64) -> (r: Option<(String, u64)>)
    ensures
        active@.len() == 0 ==> r is None,
        active@.len() == 1 ==> (r matches Some((name, secs)) && name@ == status_name(active@[0])
            && secs == max_secs(active@, now)),
        active@.len() > 1 ==> (r matches Some((label, secs)) && label@ == nat_text(
            active@.len() as nat,
        ) + " working"@ && secs == max_secs(active@, now)),
        r matches Some((_, secs)) ==> (forall|k: int| 0 <= k < active@.len() ==> secs >= elapsed(
            #[trigger] active@[k].since,
            now,
        ) / 1000) && exists|k: int| 0 <= k < active@.len() && secs == elapsed(#[trigger] active@[k].since, now) / 1000,
{
    proof {
        law_status_clock_is_the_oldest(active@, now);
    }
    if active.len() == 0 {
        return None;
    }
    let mut secs: u64 = 0;
    let mut i: usize = 0;
    while i < active.len()
        invariant
            i <= active@.len(),
            secs == max_secs(active@.subrange(0, i as int), now),
        decreases active@.len() - i,
    {
        assert(active@.subrange(0, i + 1).drop_last() =~= active@.subrange(0, i as int));
        let s = elapsed_ms(active[i].since, now) / 1000;
        if s > secs {
            secs = s;
        }
        i = i + 1;
    }
    assert(active@.subrange(0, i as int) =~= active@);
    if active.len() == 1 {
        let mut label = active[0].name.clone();
        if active[0].tool.unicode_len() > 0 {
            label.append(" \u{22ef} ");
            label.append(active[0].tool.as_str());
        }
        Some((label, secs))
    } else {
        let mut label = string_of(u64_text(active.len() as u64).as_slice());
        label.append(" working");
        Some((label, secs))
    }
}

} // verus!
