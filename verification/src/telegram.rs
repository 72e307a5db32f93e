//! Telegram: the first way into crew that is not this machine's keyboard.
//!
//! The channel is inert without an API: it registers, reports it is not
//! ready, and never reaches out. With one, each poll cycle ([`pump`]) turns
//! the Bot API's updates into addressed messages from the chats on the
//! allowlist, and reports every other chat that knocked.
use std::collections::BTreeSet;
use vstd::prelude::*;
use vstd::std_specs::iter::IteratorSpec;
use crate::channel::{address_split, Channel, Inbound};
use crate::num::{i64_text, int_text, parse_i64, parse_i64_spec};
use crate::text::{all_ws, debug_quoted, is_blank, quote, string_of, str_eq, trim, trim_chars};

verus! {

/// Whether `c` separates the ids in `CREW_TELEGRAM_CHATS`.
pub open spec fn is_id_sep(c: char) -> bool {
    c == ',' || c == ' ' || c == '\t'
}

/// The pieces `str::split` cuts `s` into at every separator — one more than
/// there are separators, empty ones included.
pub open spec fn id_fields(s: Seq<char>) -> Seq<Seq<char>>
    decreases s.len(),
{
    if s.len() == 0 {
        seq![Seq::empty()]
    } else if is_id_sep(s.last()) {
        id_fields(s.drop_last()).push(Seq::empty())
    } else {
        let f = id_fields(s.drop_last());
        f.update(f.len() - 1, f.last().push(s.last()))
    }
}

pub proof fn lemma_id_fields_nonempty(s: Seq<char>)
    ensures
        id_fields(s).len() >= 1,
    decreases s.len(),
{
    if s.len() > 0 {
        lemma_id_fields_nonempty(s.drop_last());
    }
}

/// The ids the trimmed fields of `fs` parse to.
pub open spec fn parsed_ids(fs: Seq<Seq<char>>) -> Set<i64>
    decreases fs.len(),
{
    if fs.len() == 0 {
        Set::empty()
    } else {
        match parse_i64_spec(trim(fs.last())) {
            Some(v) => parsed_ids(fs.drop_last()).insert(v),
            None => parsed_ids(fs.drop_last()),
        }
    }
}

/// The chats an allowlist written as `raw` admits.
pub open spec fn allow_set(raw: Seq<char>) -> Set<i64> {
    parsed_ids(id_fields(raw))
}

/// Who crew will listen to. An empty allowlist accepts NOBODY rather than
/// everybody: an assistant with a public address is an assistant anyone can
/// drive, so silence toward strangers is the default.
#[derive(Debug, Default)]
pub struct Allowlist {
    ids: BTreeSet<i64>,
}

impl View for Allowlist {
    type V = Set<i64>;

    closed spec fn view(&self) -> Set<i64> {
        self.ids@
    }
}

impl Allowlist {
    /// Parse `CREW_TELEGRAM_CHATS`: chat ids separated by commas, spaces or
    /// tabs; anything that does not read as an id is ignored.
    pub fn parse(raw: &str) -> (a: Self)
        ensures
            a@ == allow_set(raw@),
    {
        let n = raw.unicode_len();
        let mut ids: BTreeSet<i64> = BTreeSet::new();
        let mut cur: Vec<char> = Vec::new();
        let mut i: usize = 0;
        proof {
            assert(raw@.subrange(0, 0) =~= Seq::<char>::empty());
        }
        while i < n
            invariant
                n == raw@.len(),
                i <= n,
                id_fields(raw@.subrange(0, i as int)).len() >= 1,
                cur@ == id_fields(raw@.subrange(0, i as int)).last(),
                ids@ == parsed_ids(id_fields(raw@.subrange(0, i as int)).drop_last()),
            decreases n - i,
        {
            let c = raw.get_char(i);
            let ghost pre = raw@.subrange(0, i as int);
            let ghost nxt = raw@.subrange(0, i + 1);
            assert(nxt.drop_last() == pre);
            assert(nxt.last() == c);
            proof {
                lemma_id_fields_nonempty(pre);
            }
            if c == ',' || c == ' ' || c == '\t' {
                let ghost fs = id_fields(pre);
                assert(id_fields(nxt) == fs.push(Seq::empty()));
                assert(id_fields(nxt).drop_last() == fs);
                assert(fs.drop_last().push(fs.last()) == fs);
                Self::take_field(&mut ids, &cur);
                cur = Vec::new();
            } else {
                let ghost fs = id_fields(pre);
                cur.push(c);
                assert(id_fields(nxt).drop_last() == fs.drop_last());
            }
            i = i + 1;
        }
        assert(raw@.subrange(0, n as int) == raw@);
        proof {
            let fs = id_fields(raw@);
            assert(fs.drop_last().push(fs.last()) == fs);
        }
        Self::take_field(&mut ids, &cur);
        Allowlist { ids }
    }

    /// Fold one field into `ids`: its trimmed text, when it reads as an id.
    fn take_field(ids: &mut BTreeSet<i64>, field: &Vec<char>)
        ensures
            final(ids)@ == match parse_i64_spec(trim(field@)) {
                Some(v) => old(ids)@.insert(v),
                None => old(ids)@,
            },
    {
        let t = trim_chars(field.as_slice());
        match parse_i64(t.as_slice()) {
            Some(v) => {
                ids.insert(v);
            },
            None => {},
        }
    }

    pub fn allows(&self, chat_id: i64) -> (b: bool)
        ensures
            b == self@.contains(chat_id),
    {
        self.ids.contains(&chat_id)
    }

    pub fn is_empty(&self) -> (b: bool)
        ensures
            b == (self@ == Set::<i64>::empty()),
    {
        let b = self.ids.is_empty();
        proof {
            if !b {
                assert(self.ids@ != Set::<i64>::empty());
            }
        }
        b
    }

    /// The only chat on the list, when there is exactly one.
    pub fn sole(&self) -> (r: Option<i64>)
        ensures
            r matches Some(x) ==> self@ == set![x],
            r is None ==> forall|x: i64| self@ != set![x],
    {
        if self.ids.len() == 1 {
            let mut first: i64 = 0;
            let mut n: usize = 0;
            for x in it: self.ids.iter()
                invariant
                    n == it.index(),
                    it.seq().len() == 1,
                    it.seq().unref().to_set() == self@,
                    n > 0 ==> self@ == set![first],
            {
                if n == 0 {
                    first = *x;
                    proof {
                        assert(it.seq().unref() =~= seq![first]);
                        assert(seq![first].to_set() =~= set![first]) by {
                            assert(seq![first][0] == first);
                        }
                    }
                }
                n = n + 1;
            }
            assert(n == 1);
            Some(first)
        } else {
            proof {
                assert forall|x: i64| self@ != set![x] by {
                    assert(set![x].len() == 1) by {
                        assert(set![x] =~= Set::<i64>::empty().insert(x));
                    }
                }
            }
            None
        }
    }
}

impl Clone for Allowlist {
    fn clone(&self) -> (r: Self)
        ensures
            r@ == self@,
    {
        Allowlist { ids: self.ids.clone() }
    }
}

} // verus!

verus! {

/// One message as the Bot API reports it, reduced to what a channel needs.
#[derive(Debug, Clone, PartialEq, Eq)]
pub struct Update {
    /// Monotonic id; the next poll must ask for `update_id + 1` or the same
    /// message arrives forever.
    pub update_id: i64,
    pub chat_id: i64,
    pub text: String,
}

/// What one poll produced: the messages to act on, the new offset, and the
/// chats turned away.
#[derive(Debug, Default, PartialEq, Eq)]
pub struct Pumped {
    pub inbound: Vec<Inbound>,
    pub offset: i64,
    /// Chat ids refused by the allowlist — how the owner learns their own
    /// chat id, and how they notice a stranger knocking.
    pub refused: Vec<i64>,
}

impl View for Pumped {
    type V = (Seq<(Seq<char>, Seq<char>)>, int, Seq<i64>);

    open spec fn view(&self) -> (Seq<(Seq<char>, Seq<char>)>, int, Seq<i64>) {
        (self.inbound@.map_values(|m: Inbound| m@), self.offset as int, self.refused@)
    }
}

/// The reply address of a chat.
pub open spec fn telegram_address(chat: i64) -> Seq<char> {
    "telegram:"@ + int_text(chat as int)
}

/// One poll cycle over the updates `us`, starting from `offset`: the
/// offset moves one past every update seen — refused and blank ones
/// included — while only non-blank messages from allowed chats become
/// inbound, and every other chat is reported as refused.
pub open spec fn pump_spec(us: Seq<Update>, offset: int, allow: Set<i64>) -> (
    Seq<(Seq<char>, Seq<char>)>,
    int,
    Seq<i64>,
)
    decreases us.len(),
{
    if us.len() == 0 {
        (Seq::empty(), offset, Seq::empty())
    } else {
        let (ib, off, rf) = pump_spec(us.drop_last(), offset, allow);
        let u = us.last();
        let next = if off >= u.update_id + 1 {
            off
        } else {
            u.update_id + 1
        };
        if !allow.contains(u.chat_id) {
            (ib, next, rf.push(u.chat_id))
        } else if all_ws(u.text@) {
            (ib, next, rf)
        } else {
            (ib.push((telegram_address(u.chat_id), u.text@)), next, rf)
        }
    }
}

/// Every update id leaves room for the offset past it.
pub open spec fn ids_in_range(us: Seq<Update>) -> bool {
    forall|i: int| 0 <= i < us.len() ==> (#[trigger] us[i]).update_id < i64::MAX
}

/// The address crew answers `chat` at.
fn address_of(chat: i64) -> (r: String)
    ensures
        r@ == telegram_address(chat),
{
    let mut r = "telegram:".to_owned();
    let digits = string_of(i64_text(chat).as_slice());
    r.append(digits.as_str());
    r
}

/// One poll cycle over updates already fetched. `offset` in, `offset` out.
pub fn pump_updates(updates: &Vec<Update>, offset: i64, allow: &Allowlist) -> (p: Pumped)
    requires
        ids_in_range(updates@),
    ensures
        p@ == pump_spec(updates@, offset as int, allow@),
{
    let mut out = Pumped { inbound: Vec::new(), offset, refused: Vec::new() };
    let mut i: usize = 0;
    while i < updates.len()
        invariant
            i <= updates@.len(),
            ids_in_range(updates@),
            out@ == pump_spec(updates@.subrange(0, i as int), offset as int, allow@),
        decreases updates@.len() - i,
    {
        let u = &updates[i];
        let ghost pre = updates@.subrange(0, i as int);
        let ghost nxt = updates@.subrange(0, i + 1);
        assert(nxt.drop_last() == pre);
        assert(nxt.last() == *u);
        assert(u.update_id < i64::MAX);
        let ghost before = out.inbound@;
        if out.offset < u.update_id + 1 {
            out.offset = u.update_id + 1;
        }
        if !allow.allows(u.chat_id) {
            out.refused.push(u.chat_id);
        } else if is_blank(u.text.as_str()) {
        } else {
            let m = Inbound { from: address_of(u.chat_id), text: u.text.clone() };
            out.inbound.push(m);
            assert(out.inbound@.map_values(|m: Inbound| m@) =~= before.map_values(|m: Inbound| m@).push(m@));
        }
        i = i + 1;
    }
    assert(updates@.subrange(0, updates@.len() as int) == updates@);
    out
}

/// The offset only moves forward, and lands past every update seen.
pub proof fn law_offset_advances_past_everything_seen(us: Seq<Update>, offset: int, allow: Set<i64>)
    ensures
        pump_spec(us, offset, allow).1 >= offset,
        forall|i: int| 0 <= i < us.len() ==> pump_spec(us, offset, allow).1 >= (#[trigger] us[i]).update_id + 1,
    decreases us.len(),
{
    if us.len() > 0 {
        law_offset_advances_past_everything_seen(us.drop_last(), offset, allow);
        assert forall|i: int| 0 <= i < us.len() implies pump_spec(us, offset, allow).1 >= (#[trigger] us[i]).update_id + 1 by {
            if i < us.len() - 1 {
                assert(us[i] == us.drop_last()[i]);
            }
        }
    }
}

/// `m` is the message of some non-blank update in `us` from an allowed chat.
pub open spec fn heard_from(us: Seq<Update>, allow: Set<i64>, m: (Seq<char>, Seq<char>)) -> bool {
    exists|i: int|
        0 <= i < us.len() && allow.contains((#[trigger] us[i]).chat_id) && !all_ws(us[i].text@)
            && m == (telegram_address(us[i].chat_id), us[i].text@)
}

/// Only allowed chats are acted on, and every chat turned away is reported:
/// each inbound answers to an allowed chat, each refusal names a chat off the
/// list, and no update is counted twice.
pub proof fn law_only_the_allowlist_is_heard(us: Seq<Update>, offset: int, allow: Set<i64>)
    ensures
        forall|k: int| 0 <= k < pump_spec(us, offset, allow).0.len() ==> heard_from(us, allow,
            #[trigger] pump_spec(us, offset, allow).0[k]),
        forall|k: int| 0 <= k < pump_spec(us, offset, allow).2.len() ==> !allow.contains(
            #[trigger] pump_spec(us, offset, allow).2[k],
        ),
        pump_spec(us, offset, allow).0.len() + pump_spec(us, offset, allow).2.len() <= us.len(),
    decreases us.len(),
{
    if us.len() > 0 {
        let d = us.drop_last();
        law_only_the_allowlist_is_heard(d, offset, allow);
        let (ib, off, rf) = pump_spec(d, offset, allow);
        let r = pump_spec(us, offset, allow);
        assert forall|k: int| 0 <= k < r.0.len() implies heard_from(us, allow, #[trigger] r.0[k]) by {
            if k < ib.len() {
                assert(r.0[k] == ib[k]);
                assert(heard_from(d, allow, ib[k]));
                let i = choose|i: int|
                    0 <= i < d.len() && allow.contains((#[trigger] d[i]).chat_id) && !all_ws(d[i].text@)
                        && ib[k] == (telegram_address(d[i].chat_id), d[i].text@);
                assert(us[i] == d[i]);
            } else {
                let i = us.len() - 1;
                assert(us[i] == us.last());
            }
        }
        assert forall|k: int| 0 <= k < r.2.len() implies !allow.contains(#[trigger] r.2[k]) by {
            if k < rf.len() {
                assert(r.2[k] == rf[k]);
            }
        }
    }
}

/// The Bot API calls this channel makes. A trait so the pump runs the same
/// against the real HTTPS client and against a canned one.
pub trait TelegramApi {
    /// Long-poll for messages newer than `offset`.
    fn get_updates(&self, offset: i64) -> Result<Vec<Update>, String>;
    /// Send one message to a chat.
    fn send_message(&self, chat_id: i64, text: &str) -> Result<(), String>;
}

/// What a poll errs with when the API hands back an update id no offset can
/// move past.
pub open spec fn id_range_error() -> Seq<char> {
    "telegram: an update id has no successor"@
}

/// One poll cycle over the updates the API handed back: [`pump_updates`],
/// unless an update id is the largest there is, which no offset can move
/// past — that is an error rather than an offset that wraps around.
pub fn pump_checked(updates: &Vec<Update>, offset: i64, allow: &Allowlist) -> (r: Result<Pumped, String>)
    ensures
        ids_in_range(updates@) ==> (r matches Ok(p) && p@ == pump_spec(updates@, offset as int, allow@)),
        !ids_in_range(updates@) ==> (r matches Err(e) && e@ == id_range_error()),
{
    let mut i: usize = 0;
    while i < updates.len()
        invariant
            i <= updates@.len(),
            forall|j: int| 0 <= j < i ==> (#[trigger] updates@[j]).update_id < i64::MAX,
        decreases updates@.len() - i,
    {
        if updates[i].update_id == i64::MAX {
            proof {
                reveal_strlit("telegram: an update id has no successor");
            }
            return Err("telegram: an update id has no successor".to_owned());
        }
        i = i + 1;
    }
    Ok(pump_updates(updates, offset, allow))
}

/// One poll cycle: fetch what is newer than `offset`, then
/// [`pump_checked`]. A transport error is passed on, not swallowed. Whatever
/// the API returned, a success is exactly one cycle over some run of
/// updates.
pub fn pump<A: TelegramApi>(api: &A, offset: i64, allow: &Allowlist) -> (r: Result<Pumped, String>)
    ensures
        exists|f: Result<Vec<Update>, String>|
            #![trigger fetched(api, offset, f)]
            fetched(api, offset, f) && cycle_of(f, offset as int, allow@, r),
{
    let fetch = api.get_updates(offset);
    let ghost f = fetch;
    let r = match fetch {
        Err(e) => Err(e),
        Ok(updates) => pump_checked(&updates, offset, allow),
    };
    assert(fetched(api, offset, f) && cycle_of(f, offset as int, allow@, r));
    r
}

/// What the API may answer a fetch for updates after `offset` with.
pub open spec fn fetched<A: TelegramApi>(api: &A, offset: i64, f: Result<Vec<Update>, String>) -> bool {
    call_ensures(A::get_updates, (api, offset), f)
}

/// What a poll cycle makes of the fetch's answer `f`: a fetch error is
/// passed on unchanged; fetched updates are pumped from `offset`, unless an
/// update id has no successor.
pub open spec fn cycle_of(f: Result<Vec<Update>, String>, offset: int, allow: Set<i64>, r: Result<Pumped, String>) -> bool {
    match f {
        Err(e) => r == Err::<Pumped, String>(e),
        Ok(us) => if ids_in_range(us@) {
            r matches Ok(p) && p@ == pump_spec(us@, offset, allow)
        } else {
            r matches Err(e) && e@ == id_range_error()
        },
    }
}

/// The chat id a `telegram:<id>` address names: a telegram address whose
/// rest reads as an `i64`.
pub open spec fn chat_id_spec(addr: Seq<char>) -> Option<i64> {
    match address_split(addr) {
        Some((kind, rest)) => if kind == "telegram"@ {
            parse_i64_spec(rest)
        } else {
            None
        },
        None => None,
    }
}

/// The chat id in a `telegram:<id>` address.
pub fn chat_id_of(addr: &str) -> (r: Option<i64>)
    ensures
        r == chat_id_spec(addr@),
{
    let (kind, rest) = match crate::channel::split_address(addr) {
        Some(p) => p,
        None => return None,
    };
    if !str_eq(kind, "telegram") {
        return None;
    }
    let chars = crate::text::chars_of(rest);
    parse_i64(chars.as_slice())
}

/// Every chat's reply address reads back as that chat.
pub proof fn law_address_round_trips_through_the_chat_id(chat: i64)
    ensures
        chat_id_spec(telegram_address(chat)) == Some(chat),
{
    reveal_strlit("telegram:");
    reveal_strlit("telegram");
    let kind = "telegram"@;
    let rest = int_text(chat as int);
    crate::num::lemma_int_text_round_trip(chat);
    assert(rest.len() > 0) by {
        if chat < 0 {
        } else {
            crate::num::lemma_nat_text(chat as nat);
        }
    }
    assert(!kind.contains(':')) by {
        if kind.contains(':') {
            let j = choose|j: int| 0 <= j < kind.len() && kind[j] == ':';
        }
    }
    assert(telegram_address(chat) =~= kind + seq![':'] + rest);
    crate::channel::law_address_round_trip(kind + seq![':'] + rest, kind, rest);
}

/// What the poll loop and the channel share: what has arrived, who was turned
/// away, where the next poll starts, and the last transport error.
#[derive(Debug, Default)]
pub struct Shared {
    pub inbox: Vec<Inbound>,
    pub refused: Vec<i64>,
    pub offset: i64,
    pub error: Option<String>,
}

/// Seconds a poll loop waits after a failed poll before it tries again,
/// rather than hammering a server that is refusing it.
pub const BACKOFF_SECS: u64 = 5;

impl Shared {
    /// Fold one poll's outcome in: a success moves the offset, queues its
    /// messages and refusals and clears the error; a failure is recorded,
    /// so a channel that stopped receiving can say so. Returns how many
    /// seconds the loop waits before the next poll: none after a success,
    /// [`BACKOFF_SECS`] after a failure.
    pub fn absorb(&mut self, r: Result<Pumped, String>) -> (wait: u64)
        ensures
            wait == (if r is Err { BACKOFF_SECS } else { 0 }),
            match r {
                Ok(p) => {
                    &&& final(self).offset == p.offset
                    &&& final(self).inbox@ == old(self).inbox@ + p.inbound@
                    &&& final(self).refused@ == old(self).refused@ + p.refused@
                    &&& final(self).error is None
                },
                Err(e) => {
                    &&& final(self).error == Some(e)
                    &&& final(self).offset == old(self).offset
                    &&& final(self).inbox@ == old(self).inbox@
                    &&& final(self).refused@ == old(self).refused@
                },
            },
    {
        match r {
            Ok(p) => {
                let Pumped { mut inbound, offset, mut refused } = p;
                self.offset = offset;
                self.inbox.append(&mut inbound);
                self.refused.append(&mut refused);
                self.error = None;
            },
            Err(e) => {
                self.error = Some(e);
                return BACKOFF_SECS;
            },
        }
        0
    }

    /// Hand what a poll loop collected over to the channel's own state: the
    /// loop's offset, its messages and refusals appended in order, and its
    /// error when it has one (an earlier one stays otherwise). The loop's
    /// state keeps its offset and is emptied of the rest, so nothing is
    /// delivered twice.
    pub fn deliver(&mut self, from: &mut Shared)
        ensures
            final(self).offset == old(from).offset,
            final(self).inbox@ == old(self).inbox@ + old(from).inbox@,
            final(self).refused@ == old(self).refused@ + old(from).refused@,
            final(self).error == (if old(from).error is Some { old(from).error } else { old(self).error }),
            final(from).offset == old(from).offset,
            final(from).inbox@.len() == 0,
            final(from).refused@.len() == 0,
            final(from).error is None,
    {
        self.offset = from.offset;
        self.inbox.append(&mut from.inbox);
        self.refused.append(&mut from.refused);
        if let Some(e) = from.error.take() {
            self.error = Some(e);
        }
    }
}

/// What the channel reports: a notice per refused chat, in order, then the
/// last transport error, if any.
pub open spec fn telegram_notices(refused: Seq<i64>, error: Option<String>) -> Seq<Seq<char>> {
    refused.map_values(|c: i64| refused_notice(c)) + match error {
        Some(e) => seq!["telegram: "@ + e@],
        None => Seq::empty(),
    }
}

/// The notice for a chat the allowlist turned away.
pub open spec fn refused_notice(chat: i64) -> Seq<char> {
    "telegram: ignored a message from chat "@ + int_text(chat as int)
        + " \u{2014} add it to CREW_TELEGRAM_CHATS to let it through"@
}

/// What `send` errs with when there is no API at all.
pub open spec fn no_token_error() -> Seq<char> {
    "no Telegram token configured (CREW_TELEGRAM_TOKEN)"@
}

/// What `send` errs with for an address that names no chat.
pub open spec fn not_telegram_error(to: Seq<char>) -> Seq<char> {
    debug_quoted(to) + " is not a telegram address"@
}

/// What `send` errs with for a chat crew would not listen to.
pub open spec fn not_allowed_error(chat: i64) -> Seq<char> {
    "chat "@ + int_text(chat as int) + " is not in CREW_TELEGRAM_CHATS"@
}

/// The Telegram channel. It holds no thread of its own: whoever drives it
/// calls [`Telegram::tick`] (or folds a poll in through [`Shared::absorb`]).
pub struct Telegram<A: TelegramApi> {
    pub api: Option<A>,
    pub allow: Allowlist,
    pub shared: Shared,
}

impl<A: TelegramApi> Telegram<A> {
    /// A channel over `api` (none: present, listed, and inert).
    pub fn from_parts(api: Option<A>, allow: Allowlist) -> (t: Self)
        ensures
            t.api == api,
            t.allow == allow,
            t.shared.inbox@.len() == 0,
            t.shared.refused@.len() == 0,
            t.shared.offset == 0,
            t.shared.error is None,
    {
        Telegram {
            api,
            allow,
            shared: Shared { inbox: Vec::new(), refused: Vec::new(), offset: 0, error: None },
        }
    }

    /// A channel over `api`, listening to `allow`.
    pub fn with_api(api: A, allow: Allowlist) -> (t: Self)
        ensures
            t.api == Some(api),
            t.allow == allow,
            t.shared.inbox@.len() == 0,
            t.shared.refused@.len() == 0,
            t.shared.offset == 0,
            t.shared.error is None,
    {
        Self::from_parts(Some(api), allow)
    }

    /// Everything waiting, taken in one go: messages, refused chats, and the
    /// last transport error.
    pub fn drain_notices(&mut self) -> (r: (Vec<Inbound>, Vec<i64>, Option<String>))
        ensures
            r.0@ == old(self).shared.inbox@,
            r.1@ == old(self).shared.refused@,
            r.2 == old(self).shared.error,
            final(self).shared.inbox@.len() == 0,
            final(self).shared.refused@.len() == 0,
            final(self).shared.error is None,
            final(self).shared.offset == old(self).shared.offset,
            final(self).api == old(self).api,
            final(self).allow == old(self).allow,
    {
        let mut inbox = Vec::new();
        std::mem::swap(&mut inbox, &mut self.shared.inbox);
        let mut refused = Vec::new();
        std::mem::swap(&mut refused, &mut self.shared.refused);
        let error = self.shared.error.take();
        (inbox, refused, error)
    }

    /// One poll cycle, on the calling thread. Without an API it is a no-op,
    /// not an error; a transport failure is reported and changes nothing.
    pub fn tick(&mut self) -> (r: Result<(), String>)
        ensures
            final(self).api == old(self).api,
            final(self).allow == old(self).allow,
            final(self).shared.error == old(self).shared.error,
            old(self).api is None ==> r is Ok && final(self).shared == old(self).shared,
            old(self).api matches Some(api) ==> exists|f: Result<Vec<Update>, String>|
                #![trigger fetched(&api, old(self).shared.offset, f)]
                fetched(&api, old(self).shared.offset, f) && match f {
                    Err(e) => r == Err::<(), String>(e) && final(self).shared == old(self).shared,
                    Ok(us) => if ids_in_range(us@) {
                        let (ib, off, rf) = pump_spec(us@, old(self).shared.offset as int, old(self).allow@);
                        &&& r is Ok
                        &&& final(self).shared.offset == off
                        &&& final(self).shared.inbox@.map_values(|m: Inbound| m@)
                            == old(self).shared.inbox@.map_values(|m: Inbound| m@) + ib
                        &&& final(self).shared.refused@ == old(self).shared.refused@ + rf
                    } else {
                        r matches Err(e) && e@ == id_range_error() && final(self).shared == old(self).shared
                    },
                },
    {
        let pr = match &self.api {
            None => return Ok(()),
            Some(api) => pump(api, self.shared.offset, &self.allow),
        };
        let p = match pr {
            Err(e) => return Err(e),
            Ok(p) => p,
        };
        let ghost old_inbox = self.shared.inbox@;
        let Pumped { mut inbound, offset, mut refused } = p;
        let ghost added = inbound@;
        self.shared.offset = offset;
        self.shared.inbox.append(&mut inbound);
        self.shared.refused.append(&mut refused);
        assert(self.shared.inbox@.map_values(|m: Inbound| m@) =~= old_inbox.map_values(|m: Inbound| m@)
            + added.map_values(|m: Inbound| m@));
        Ok(())
    }
}

impl<A: TelegramApi> Channel for Telegram<A> {
    open spec fn kind_spec(&self) -> Seq<char> {
        "telegram"@
    }

    /// Configured means an API AND somebody to talk to: a bot with an empty
    /// allowlist can neither be addressed nor answer.
    open spec fn ready_spec(&self) -> bool {
        self.api is Some && self.allow@ != Set::<i64>::empty()
    }

    open spec fn arrived(&self) -> Seq<Inbound> {
        self.shared.inbox@
    }

    /// Without an API: the missing token. A non-telegram address, or a chat
    /// outside the allowlist: refused before anything is sent. Otherwise the
    /// message goes to the API for that chat, and its answer is the result.
    /// The channel itself is left as it was.
    open spec fn sends(&self, to: &str, text: &str, r: Result<(), String>, after: Self) -> bool {
        &&& after == *self
        &&& match self.api {
            None => r matches Err(e) && e@ == no_token_error(),
            Some(api) => match chat_id_spec(to@) {
                None => r matches Err(e) && e@ == not_telegram_error(to@),
                Some(c) => if !self.allow@.contains(c) {
                    r matches Err(e) && e@ == not_allowed_error(c)
                } else {
                    call_ensures(A::send_message, (&api, c, text), r)
                },
            },
        }
    }

    /// One notice per refused chat, then the last transport error.
    open spec fn pending(&self) -> Seq<Seq<char>> {
        telegram_notices(self.shared.refused@, self.shared.error)
    }

    fn kind(&self) -> (k: &str) {
        "telegram"
    }

    fn poll(&mut self) -> (r: Vec<Inbound>) {
        let mut inbox = Vec::new();
        std::mem::swap(&mut inbox, &mut self.shared.inbox);
        inbox
    }

    /// A refused chat id is the owner's own id the first time they message
    /// their bot — so it is reported, not dropped — followed by the last
    /// transport error, if any.
    fn notices(&mut self) -> (r: Vec<String>)
        ensures
            r@.len() == old(self).shared.refused@.len() + (if old(self).shared.error is Some { 1int } else { 0 }),
            forall|k: int| 0 <= k < old(self).shared.refused@.len() ==> (#[trigger] r@[k])@ == refused_notice(
                old(self).shared.refused@[k],
            ),
            old(self).shared.error matches Some(e) ==> r@.last()@ == "telegram: "@ + e@,
            final(self).shared.refused@.len() == 0,
            final(self).shared.error is None,
            final(self).shared.offset == old(self).shared.offset,
    {
        let (refused, error) = self.take_refusals();
        let mut out: Vec<String> = Vec::new();
        let mut i: usize = 0;
        while i < refused.len()
            invariant
                i <= refused@.len(),
                out@.len() == i,
                forall|k: int| 0 <= k < i ==> (#[trigger] out@[k])@ == refused_notice(refused@[k]),
            decreases refused@.len() - i,
        {
            let mut n = "telegram: ignored a message from chat ".to_owned();
            let id = string_of(i64_text(refused[i]).as_slice());
            n.append(id.as_str());
            n.append(" \u{2014} add it to CREW_TELEGRAM_CHATS to let it through");
            out.push(n);
            i = i + 1;
        }
        let ghost base = out@;
        assert(base.map_values(|n: String| n@) =~= refused@.map_values(|c: i64| refused_notice(c)));
        if let Some(e) = error {
            let mut n = "telegram: ".to_owned();
            n.append(e.as_str());
            out.push(n);
            assert(out@.map_values(|n: String| n@) =~= base.map_values(|n: String| n@).push(
                "telegram: "@ + e@,
            ));
        }
        assert(out@.map_values(|n: String| n@) =~= telegram_notices(
            old(self).shared.refused@,
            old(self).shared.error,
        ));
        out
    }

    /// Crew must not answer a chat it would refuse to listen to: a reply is
    /// itself an outbound message to a stranger.
    fn send(&mut self, to: &str, text: &str) -> (r: Result<(), String>) {
        let api = match &self.api {
            None => return Err("no Telegram token configured (CREW_TELEGRAM_TOKEN)".to_owned()),
            Some(api) => api,
        };
        let chat = match chat_id_of(to) {
            None => {
                let mut e = quote(to);
                e.append(" is not a telegram address");
                return Err(e);
            },
            Some(c) => c,
        };
        if !self.allow.allows(chat) {
            let mut e = "chat ".to_owned();
            let id = string_of(i64_text(chat).as_slice());
            e.append(id.as_str());
            e.append(" is not in CREW_TELEGRAM_CHATS");
            return Err(e);
        }
        api.send_message(chat, text)
    }

    fn ready(&self) -> (b: bool) {
        self.api.is_some() && !self.allow.is_empty()
    }

    /// A bot allowed to talk to exactly one chat has exactly one address.
    fn default_address(&self) -> (r: Option<String>)
        ensures
            r matches Some(a) ==> exists|x: i64| self.allow@ == set![x] && a@ == telegram_address(x),
            r is None ==> forall|x: i64| self.allow@ != set![x],
    {
        match self.allow.sole() {
            Some(id) => Some(address_of(id)),
            None => None,
        }
    }
}

impl<A: TelegramApi> Telegram<A> {
    /// The refusals and error waiting, taken; the inbox stays.
    fn take_refusals(&mut self) -> (r: (Vec<i64>, Option<String>))
        ensures
            r.0@ == old(self).shared.refused@,
            r.1 == old(self).shared.error,
            final(self).shared.refused@.len() == 0,
            final(self).shared.error is None,
            final(self).shared.inbox == old(self).shared.inbox,
            final(self).shared.offset == old(self).shared.offset,
            final(self).api == old(self).api,
            final(self).allow == old(self).allow,
    {
        let mut refused = Vec::new();
        std::mem::swap(&mut refused, &mut self.shared.refused);
        let error = self.shared.error.take();
        (refused, error)
    }
}

/// Either kind of channel this crate has, so a loopback and a Telegram
/// channel can be registered with one router.
pub enum AnyChannel<A: TelegramApi> {
    Loopback(crate::channel::Loopback),
    Telegram(Telegram<A>),
}

impl<A: TelegramApi> Channel for AnyChannel<A> {
    open spec fn kind_spec(&self) -> Seq<char> {
        match self {
            AnyChannel::Loopback(c) => c.kind_spec(),
            AnyChannel::Telegram(c) => c.kind_spec(),
        }
    }

    open spec fn ready_spec(&self) -> bool {
        match self {
            AnyChannel::Loopback(c) => c.ready_spec(),
            AnyChannel::Telegram(c) => c.ready_spec(),
        }
    }

    open spec fn arrived(&self) -> Seq<Inbound> {
        match self {
            AnyChannel::Loopback(c) => c.arrived(),
            AnyChannel::Telegram(c) => c.arrived(),
        }
    }

    open spec fn pending(&self) -> Seq<Seq<char>> {
        match self {
            AnyChannel::Loopback(c) => c.pending(),
            AnyChannel::Telegram(c) => c.pending(),
        }
    }

    /// Whatever the channel inside does with the message.
    open spec fn sends(&self, to: &str, text: &str, r: Result<(), String>, after: Self) -> bool {
        match (self, after) {
            (AnyChannel::Loopback(c), AnyChannel::Loopback(d)) => c.sends(to, text, r, d),
            (AnyChannel::Telegram(c), AnyChannel::Telegram(d)) => c.sends(to, text, r, d),
            _ => false,
        }
    }

    fn kind(&self) -> (k: &str) {
        match self {
            AnyChannel::Loopback(c) => c.kind(),
            AnyChannel::Telegram(c) => c.kind(),
        }
    }

    fn poll(&mut self) -> (r: Vec<Inbound>) {
        match self {
            AnyChannel::Loopback(c) => c.poll(),
            AnyChannel::Telegram(c) => c.poll(),
        }
    }

    fn send(&mut self, to: &str, text: &str) -> (r: Result<(), String>) {
        match self {
            AnyChannel::Loopback(c) => c.send(to, text),
            AnyChannel::Telegram(c) => c.send(to, text),
        }
    }

    fn notices(&mut self) -> (r: Vec<String>) {
        match self {
            AnyChannel::Loopback(c) => c.notices(),
            AnyChannel::Telegram(c) => c.notices(),
        }
    }

    fn ready(&self) -> (b: bool) {
        match self {
            AnyChannel::Loopback(c) => c.ready(),
            AnyChannel::Telegram(c) => c.ready(),
        }
    }

    fn default_address(&self) -> (r: Option<String>)
        ensures
            self matches AnyChannel::Loopback(_) ==> r is None,
            self matches AnyChannel::Telegram(t) ==> (r matches Some(a) ==> exists|x: i64|
                t.allow@ == set![x] && a@ == telegram_address(x)) && (r is None ==> forall|x: i64|
                t.allow@ != set![x]),
    {
        match self {
            AnyChannel::Loopback(c) => c.default_address(),
            AnyChannel::Telegram(c) => c.default_address(),
        }
    }
}

} // verus!
