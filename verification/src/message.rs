//! Transcript messages: who said what, and the predicates that decide how a
//! card speaks — the system voice, a tool talking on an agent's behalf, the
//! startup splash — plus folding a long history behind a marker.
use vstd::prelude::*;
use crate::num::{nat_text, u64_text};
use crate::text::{chars_of, has_prefix, starts_with, str_eq, string_of};

verus! {

/// One transcript message.
#[derive(Debug, Clone, PartialEq, Eq, Default)]
pub struct Message {
    pub sender: String,
    pub text: String,
    /// Epoch milliseconds, as text; empty when unstamped.
    pub ts: String,
    /// Latency and task tag, as the broker wrote them.
    pub meta: String,
    /// `(tokens in, tokens out, cost in micro-USD)` of the reply, when known.
    pub usage: Option<(u64, u64, u64)>,
    /// Clicked open past its fold.
    pub expanded: bool,
}

/// The broker/system voice: the telemetry senders that share the dotted
/// gutter, the muted ink and the auto-fold. ONE predicate so the surfaces
/// can never drift on the sender set.
pub open spec fn system_voice(sender: Seq<char>) -> bool {
    sender == "agent smith"@ || sender == "crew"@ || sender == "system"@ || sender == "broker"@
}

pub fn is_system_voice(sender: &str) -> (b: bool)
    ensures
        b == system_voice(sender@),
{
    str_eq(sender, "agent smith") || str_eq(sender, "crew") || str_eq(sender, "system") || str_eq(
        sender,
        "broker",
    )
}

/// The prefix both engines stamp on a tool line.
pub open spec fn tool_prefix() -> Seq<char> {
    "[tool] "@
}

/// A tool call or its result, rather than something an agent SAID. It keeps
/// the agent's name — you need to know who reached for the tool — but is not
/// a reply.
pub open spec fn tool_card(m: Message) -> bool {
    !system_voice(m.sender@) && has_prefix(m.text@, tool_prefix())
}

pub fn is_tool_card(m: &Message) -> (b: bool)
    ensures
        b == tool_card(*m),
{
    if is_system_voice(m.sender.as_str()) {
        return false;
    }
    let t = chars_of(m.text.as_str());
    let p = chars_of("[tool] ");
    starts_with(t.as_slice(), p.as_slice())
}

/// The card header's solid gutter glyph (`▍`).
pub const GUTTER: char = '\u{258d}';

/// The quieter dotted gutter (`┆`).
pub const QUIET_GUTTER: char = '\u{2506}';

/// A lighter bar for the system voice and for machine chatter, the solid bar
/// for what an agent or the user actually said.
pub open spec fn gutter_spec(m: Message) -> char {
    if system_voice(m.sender@) || tool_card(m) {
        QUIET_GUTTER
    } else {
        GUTTER
    }
}

pub fn gutter_for(m: &Message) -> (c: char)
    ensures
        c == gutter_spec(*m),
{
    if is_system_voice(m.sender.as_str()) || is_tool_card(m) {
        QUIET_GUTTER
    } else {
        GUTTER
    }
}

/// The broker's startup splash — boxed nameplate art, spotted by its `╔`
/// top-left corner in the system voice.
pub open spec fn splash(m: Message) -> bool {
    system_voice(m.sender@) && m.text@.len() > 0 && m.text@[0] == '\u{2554}'
}

pub fn is_splash(m: &Message) -> (b: bool)
    ensures
        b == splash(*m),
{
    if !is_system_voice(m.sender.as_str()) {
        return false;
    }
    let n = m.text.as_str().unicode_len();
    n > 0 && m.text.as_str().get_char(0) == '\u{2554}'
}

/// The text of the note standing in for `total` folded messages.
pub open spec fn marker_text(total: nat) -> Seq<char> {
    "(compacted "@ + nat_text(total) + " earlier message"@ + (if total == 1 {
        Seq::<char>::empty()
    } else {
        "s"@
    }) + ")"@
}

/// The dim note standing in for everything folded away.
pub fn marker(total: usize) -> (m: Message)
    ensures
        m.sender@ == "agent smith"@,
        m.text@ == marker_text(total as nat),
        m.ts@.len() == 0,
        m.meta@.len() == 0,
        m.usage is None,
        !m.expanded,
{
    let mut text = "(compacted ".to_owned();
    let n = string_of(u64_text(total as u64).as_slice());
    text.append(n.as_str());
    text.append(" earlier message");
    if total != 1 {
        text.append("s");
    }
    text.append(")");
    proof {
        reveal_strlit("s");
        if total == 1 {
            assert(text@ =~= marker_text(total as nat));
        }
    }
    Message {
        sender: "agent smith".to_owned(),
        text,
        ts: String::new(),
        meta: String::new(),
        usage: None,
        expanded: false,
    }
}

/// The running count of folded messages after folding `len` messages down to
/// `keep`, when `already` had been folded before.
pub open spec fn folded_count(len: nat, keep: nat, already: nat) -> nat {
    if len <= keep {
        already
    } else {
        already + (len - keep) as nat
    }
}

/// How many messages stay on show after folding `len` down to `keep`.
pub open spec fn kept_count(len: nat, keep: nat) -> nat {
    if len <= keep {
        len
    } else {
        keep
    }
}

/// Collapse `msgs` to the last `keep`, behind a marker naming how many have
/// been folded away IN TOTAL — `already` is the running count from earlier
/// folds, and the returned count includes this one. `msgs` holds no marker:
/// the caller strips it, because a marker is not one of the messages counted.
pub fn compact_messages(msgs: Vec<Message>, keep: usize, already: usize) -> (r: (Vec<Message>, usize))
    requires
        msgs@.len() > keep ==> already + (msgs@.len() - keep) <= usize::MAX,
    ensures
        r.1 == folded_count(msgs@.len(), keep as nat, already as nat),
        msgs@.len() <= keep ==> r.0@ == msgs@,
        msgs@.len() > keep ==> {
            &&& r.0@.len() == keep + 1
            &&& r.0@[0].sender@ == "agent smith"@
            &&& r.0@[0].text@ == marker_text(r.1 as nat)
            &&& r.0@[0].ts@.len() == 0
            &&& r.0@[0].meta@.len() == 0
            &&& r.0@[0].usage is None
            &&& !r.0@[0].expanded
            &&& r.0@.drop_first() == msgs@.subrange(msgs@.len() - keep, msgs@.len() as int)
        },
{
    if msgs.len() <= keep {
        return (msgs, already);
    }
    let dropped = msgs.len() - keep;
    let total = already + dropped;
    let mut out: Vec<Message> = Vec::new();
    out.push(marker(total));
    let mut rest = msgs;
    let mut i: usize = 0;
    let ghost orig = rest@;
    while i < dropped
        invariant
            i <= dropped,
            dropped == orig.len() - keep,
            rest@ == orig.subrange(i as int, orig.len() as int),
        decreases dropped - i,
    {
        rest.remove(0);
        i = i + 1;
    }
    out.append(&mut rest);
    assert(out@.drop_first() =~= orig.subrange(orig.len() - keep, orig.len() as int));
    (out, total)
}

/// Every message is either still on show or counted by the marker, however
/// many folds it took: fold `len1` messages, strip the marker, let `extra`
/// more arrive and fold again — what is shown plus what the marker counts is
/// everything that ever arrived, plus whatever was folded before.
pub proof fn law_every_message_is_shown_or_counted(len1: nat, extra: nat, keep: nat, already: nat)
    ensures
        ({
            let t1 = folded_count(len1, keep, already);
            let len2 = kept_count(len1, keep) + extra;
            &&& kept_count(len1, keep) + t1 == already + len1
            &&& kept_count(len2, keep) + folded_count(len2, keep, t1) == already + len1 + extra
            &&& folded_count(len2, keep, t1) >= t1
        }),
{
}

/// The argument of a `/font` composer submission (empty for the bare
/// command), or `None` when `text` is not a `/font` command at all.
pub open spec fn font_arg(text: Seq<char>) -> Option<Seq<char>> {
    let t = crate::text::trim(text);
    if t == "/font"@ {
        Some(Seq::empty())
    } else if has_prefix(t, "/font "@) {
        Some(crate::text::trim(t.subrange(6, t.len() as int)))
    } else {
        None
    }
}

/// `/font` typed in a chat pane's composer, recognized so it can go to the
/// app's font path instead of to the broker.
pub fn parse(text: &str) -> (r: Option<String>)
    ensures
        match r {
            Some(a) => font_arg(text@) == Some(a@),
            None => font_arg(text@) is None,
        },
{
    let chars = chars_of(text);
    let t = crate::text::trim_chars(chars.as_slice());
    let bare = chars_of("/font");
    if t.len() == bare.len() && starts_with(t.as_slice(), bare.as_slice()) {
        assert(t@ =~= "/font"@);
        return Some(String::new());
    }
    proof {
        if t@ == "/font"@ {
            assert(t@.subrange(0, t@.len() as int) =~= t@);
        }
    }
    let pre = chars_of("/font ");
    if !starts_with(t.as_slice(), pre.as_slice()) {
        return None;
    }
    proof {
        reveal_strlit("/font ");
    }
    let mut tail: Vec<char> = Vec::new();
    let mut i: usize = 6;
    while i < t.len()
        invariant
            6 <= i <= t@.len(),
            tail@ == t@.subrange(6, i as int),
        decreases t@.len() - i,
    {
        tail.push(t[i]);
        assert(t@.subrange(6, i + 1) == t@.subrange(6, i as int).push(t@[i as int]));
        i = i + 1;
    }
    let arg = crate::text::trim_chars(tail.as_slice());
    Some(string_of(arg.as_slice()))
}

/// The `/export` success echo: the message count (pluralized) and the file.
pub open spec fn success_note_text(n: nat, path: Seq<char>) -> Seq<char> {
    "transcript exported ("@ + nat_text(n) + " message"@ + (if n == 1 {
        Seq::<char>::empty()
    } else {
        "s"@
    }) + ") \u{2192} "@ + path
}

pub fn success_note(n: usize, path: &str) -> (r: String)
    ensures
        r@ == success_note_text(n as nat, path@),
{
    let mut out = "transcript exported (".to_owned();
    let d = string_of(u64_text(n as u64).as_slice());
    out.append(d.as_str());
    out.append(" message");
    if n != 1 {
        out.append("s");
    }
    out.append(") \u{2192} ");
    out.append(path);
    proof {
        if n == 1 {
            assert(out@ =~= success_note_text(n as nat, path@));
        }
    }
    out
}

} // verus!
