//! Channels: the ways a request reaches crew and an answer gets back.
//!
//! An address is `kind:rest`, opaque to everything except the channel that
//! owns `kind`. The router keeps one channel per kind, in kind order, and
//! sends every reply to the channel its address names — or refuses it out
//! loud, never dropping it in silence.
use vstd::prelude::*;
use crate::text::{
    debug_quoted, find_char, first_index, lemma_first_index, lemma_seq_lt_irreflexive, lemma_seq_lt_total,
    lemma_seq_lt_transitive, quote, seq_lt, str_eq, str_lt,
};

verus! {

/// One message that arrived from the outside world.
#[derive(Debug, Clone, PartialEq, Eq)]
pub struct Inbound {
    /// Full address of the sender, `kind:rest` — the address a reply goes back to.
    pub from: String,
    /// What they said.
    pub text: String,
}

impl View for Inbound {
    type V = (Seq<char>, Seq<char>);

    open spec fn view(&self) -> (Seq<char>, Seq<char>) {
        (self.from@, self.text@)
    }
}

/// `kind:rest` split at its first `:`, when both halves are non-empty.
pub open spec fn address_split(a: Seq<char>) -> Option<(Seq<char>, Seq<char>)> {
    match first_index(a, ':') {
        Some(i) => if i > 0 && i + 1 < a.len() {
            Some((a.subrange(0, i), a.subrange(i + 1, a.len() as int)))
        } else {
            None
        },
        None => None,
    }
}

/// Split `kind:rest`. `None` when there is no kind (or nobody after it) — an
/// address with no channel cannot be delivered to, and guessing a default
/// would send someone's reply to a stranger.
pub fn split_address(addr: &str) -> (r: Option<(&str, &str)>)
    ensures
        match r {
            Some((k, rest)) => address_split(addr@) == Some((k@, rest@)),
            None => address_split(addr@) is None,
        },
{
    proof {
        lemma_first_index(addr@, ':');
    }
    let i = match find_char(addr, ':') {
        Some(i) => i,
        None => return None,
    };
    let n = addr.unicode_len();
    if i == 0 || i + 1 >= n {
        return None;
    }
    Some((addr.substring_char(0, i), addr.substring_char(i + 1, n)))
}

/// An address is its kind, a colon and its rest: splitting never loses or
/// invents a character, the kind it yields never holds a colon, and every
/// usable kind joined to a non-empty rest splits back into exactly those
/// two — so the rest may carry colons of its own.
pub proof fn law_address_round_trip(addr: Seq<char>, kind: Seq<char>, rest: Seq<char>)
    ensures
        address_split(addr) matches Some((k, r)) ==> addr == k + seq![':'] + r && usable_kind(k)
            && r.len() > 0,
        usable_kind(kind) && rest.len() > 0 ==> address_split(kind + seq![':'] + rest) == Some(
            (kind, rest),
        ),
{
    lemma_first_index(addr, ':');
    if let Some((k, r)) = address_split(addr) {
        let i = first_index(addr, ':')->0;
        assert(addr =~= k + seq![':'] + r);
        assert(!k.contains(':')) by {
            if k.contains(':') {
                let j = choose|j: int| 0 <= j < k.len() && k[j] == ':';
                assert(addr[j] == ':');
            }
        }
    }
    if usable_kind(kind) && rest.len() > 0 {
        let a = kind + seq![':'] + rest;
        lemma_first_index(a, ':');
        let n = kind.len() as int;
        assert(a[n] == ':');
        match first_index(a, ':') {
            Some(i) => {
                if i < n {
                    assert(a[i] == kind[i]);
                    assert(kind.contains(':'));
                }
                assert(i == n);
                assert(a.subrange(0, n) =~= kind);
                assert(a.subrange(n + 1, a.len() as int) =~= rest);
            },
            None => {
                assert(false);
            },
        }
    }
}

/// A kind a router can own: non-empty, and without the `:` that would make
/// its own addresses unsplittable.
pub open spec fn usable_kind(k: Seq<char>) -> bool {
    k.len() > 0 && !k.contains(':')
}

/// A way in and a way out. Implementations own their transport and nothing
/// else: no sessions, no policy.
pub trait Channel: Sized {
    /// The address kind this channel owns — the part before the first `:`.
    spec fn kind_spec(&self) -> Seq<char>;

    /// Whether the channel is usable right now.
    spec fn ready_spec(&self) -> bool;

    /// What has arrived and not been taken yet.
    spec fn arrived(&self) -> Seq<Inbound>;

    /// The notices waiting to be reported, in order.
    spec fn pending(&self) -> Seq<Seq<char>>;

    /// Whether sending `text` to `to` from this state may answer `r` and
    /// leave the channel as `after`: what a channel does with a message.
    spec fn sends(&self, to: &str, text: &str, r: Result<(), String>, after: Self) -> bool;

    fn kind(&self) -> (k: &str)
        ensures
            k@ == self.kind_spec(),
    ;

    /// Take everything that has arrived since the last call. Never blocks.
    fn poll(&mut self) -> (r: Vec<Inbound>)
        ensures
            r@ == old(self).arrived(),
            final(self).arrived() == Seq::<Inbound>::empty(),
            final(self).kind_spec() == old(self).kind_spec(),
            final(self).ready_spec() == old(self).ready_spec(),
    ;

    /// Send `text` to a full `kind:rest` address on this channel.
    fn send(&mut self, to: &str, text: &str) -> (r: Result<(), String>)
        ensures
            old(self).sends(to, text, r, *final(self)),
            final(self).kind_spec() == old(self).kind_spec(),
            final(self).ready_spec() == old(self).ready_spec(),
            final(self).arrived() == old(self).arrived(),
    ;

    /// Anything the operator should see: a refused sender, a transport
    /// error. Drained, so each notice is reported once.
    fn notices(&mut self) -> (r: Vec<String>)
        ensures
            r@.map_values(|n: String| n@) == old(self).pending(),
            final(self).pending() == Seq::<Seq<char>>::empty(),
            final(self).kind_spec() == old(self).kind_spec(),
            final(self).ready_spec() == old(self).ready_spec(),
            final(self).arrived() == old(self).arrived(),
    ;

    /// Is this channel usable right now? A channel with no credential is
    /// present but inert.
    fn ready(&self) -> (b: bool)
        ensures
            b == self.ready_spec(),
    ;

    /// The one address this channel can answer without being told, if any.
    fn default_address(&self) -> (r: Option<String>)
        default_ensures
            r is None,
    {
        None
    }
}

/// What the router errs with when `addr` has no kind.
pub open spec fn no_kind_error(addr: Seq<char>) -> Seq<char> {
    debug_quoted(addr) + " has no channel \u{2014} an address is kind:rest, like telegram:12345"@
}

/// What the router errs with when no channel owns `kind`.
pub open spec fn unregistered_error(kind: Seq<char>) -> Seq<char> {
    "no channel is registered for "@ + debug_quoted(kind)
}

/// What the router errs with when the owning channel is not configured.
pub open spec fn unconfigured_error(kind: Seq<char>) -> Seq<char> {
    "the "@ + debug_quoted(kind) + " channel is not configured"@
}

/// What `add` errs with for a kind no address could carry.
pub open spec fn unusable_error(kind: Seq<char>) -> Seq<char> {
    debug_quoted(kind) + " is not a usable address kind"@
}

/// What `add` errs with for a kind already owned.
pub open spec fn taken_error(kind: Seq<char>) -> Seq<char> {
    "a channel already owns the address kind "@ + debug_quoted(kind)
}

/// Every registered channel, in kind order, and the routing between them.
pub struct Router<C: Channel> {
    channels: Vec<C>,
}

/// The kinds of `cs`, in order.
pub open spec fn kinds_of<C: Channel>(cs: Seq<C>) -> Seq<Seq<char>> {
    Seq::new(cs.len(), |i: int| cs[i].kind_spec())
}

/// The kinds of the ready channels of `cs`, in order.
pub open spec fn ready_kinds_of<C: Channel>(cs: Seq<C>) -> Seq<Seq<char>>
    decreases cs.len(),
{
    if cs.len() == 0 {
        Seq::empty()
    } else if cs.last().ready_spec() {
        ready_kinds_of(cs.drop_last()).push(cs.last().kind_spec())
    } else {
        ready_kinds_of(cs.drop_last())
    }
}

/// Everything waiting in `cs`, channel by channel.
pub open spec fn arrived_of<C: Channel>(cs: Seq<C>) -> Seq<Inbound>
    decreases cs.len(),
{
    if cs.len() == 0 {
        Seq::empty()
    } else {
        arrived_of(cs.drop_last()) + cs.last().arrived()
    }
}

/// Every notice waiting in `cs`, channel by channel.
pub open spec fn pending_of<C: Channel>(cs: Seq<C>) -> Seq<Seq<char>>
    decreases cs.len(),
{
    if cs.len() == 0 {
        Seq::empty()
    } else {
        pending_of(cs.drop_last()) + cs.last().pending()
    }
}

/// The channels are strictly ordered by kind (so no kind has two owners) and
/// every kind is usable.
pub open spec fn channels_wf<C: Channel>(cs: Seq<C>) -> bool {
    &&& forall|i: int, j: int|
        0 <= i < j < cs.len() ==> seq_lt(#[trigger] cs[i].kind_spec(), #[trigger] cs[j].kind_spec())
    &&& forall|i: int| 0 <= i < cs.len() ==> usable_kind(#[trigger] cs[i].kind_spec())
}

/// The index of the channel owning `kind` in `cs`.
pub open spec fn owner_of<C: Channel>(cs: Seq<C>, kind: Seq<char>) -> Option<int> {
    if exists|i: int| 0 <= i < cs.len() && cs[i].kind_spec() == kind {
        Some(choose|i: int| 0 <= i < cs.len() && cs[i].kind_spec() == kind)
    } else {
        None
    }
}

impl<C: Channel> Router<C> {
    /// The registered channels, in kind order.
    pub closed spec fn channels(&self) -> Seq<C> {
        self.channels@
    }

    pub open spec fn wf(&self) -> bool {
        channels_wf(self.channels())
    }

    pub fn new() -> (r: Self)
        ensures
            r.channels() == Seq::<C>::empty(),
            r.wf(),
    {
        Router { channels: Vec::new() }
    }

    /// Register a channel. Refuses a kind that could not be addressed, and a
    /// second channel claiming a kind already owned: two owners of
    /// `telegram:` would make every reply a coin flip.
    pub fn add(&mut self, c: C) -> (r: Result<(), String>)
        requires
            old(self).wf(),
        ensures
            final(self).wf(),
            !usable_kind(c.kind_spec()) ==> (r matches Err(e) && e@ == unusable_error(c.kind_spec())
                && final(self).channels() == old(self).channels()),
            usable_kind(c.kind_spec()) && kinds_of(old(self).channels()).contains(c.kind_spec())
                ==> (r matches Err(e) && e@ == taken_error(c.kind_spec())
                && final(self).channels() == old(self).channels()),
            usable_kind(c.kind_spec()) && !kinds_of(old(self).channels()).contains(c.kind_spec())
                ==> r is Ok && exists|p: int|
                0 <= p <= old(self).channels().len() && final(self).channels()
                    == old(self).channels().insert(p, c),
    {
        let kind = c.kind();
        let n = kind.unicode_len();
        let colon = find_char(kind, ':');
        proof {
            lemma_first_index(kind@, ':');
        }
        if n == 0 || colon.is_some() {
            let mut e = quote(kind);
            e.append(" is not a usable address kind");
            proof {
                if colon.is_none() {
                    assert(!kind@.contains(':'));
                } else {
                    assert(kind@.contains(':'));
                }
            }
            return Err(e);
        }
        proof {
            assert(!kind@.contains(':'));
        }
        let ghost old_cs = self.channels@;
        let len = self.channels.len();
        let mut p: usize = 0;
        while p < len && str_lt(self.channels[p].kind(), kind)
            invariant
                self.channels@ == old_cs,
                len == old_cs.len(),
                p <= len,
                forall|i: int| 0 <= i < p ==> seq_lt(#[trigger] old_cs[i].kind_spec(), kind@),
            decreases len - p,
        {
            p = p + 1;
        }
        if p < len && str_eq(self.channels[p].kind(), kind) {
            let mut e = "a channel already owns the address kind ".to_owned();
            let q = quote(kind);
            e.append(q.as_str());
            proof {
                assert(kinds_of(old_cs)[p as int] == kind@);
            }
            return Err(e);
        }
        proof {
            assert forall|i: int| 0 <= i < len implies old_cs[i].kind_spec() != kind@ by {
                if i < p {
                    lemma_seq_lt_irreflexive(kind@);
                } else {
                    lemma_seq_lt_total(old_cs[p as int].kind_spec(), kind@);
                    if i > p {
                        assert(seq_lt(old_cs[p as int].kind_spec(), old_cs[i].kind_spec()));
                        if old_cs[i].kind_spec() == kind@ {
                            lemma_seq_lt_total(old_cs[p as int].kind_spec(), kind@);
                        }
                    }
                }
            }
            assert(!kinds_of(old_cs).contains(kind@)) by {
                if kinds_of(old_cs).contains(kind@) {
                    let k = choose|k: int| 0 <= k < kinds_of(old_cs).len() && kinds_of(old_cs)[k] == kind@;
                    assert(old_cs[k].kind_spec() == kind@);
                }
            }
            // Everything from `p` on sorts after the new kind.
            assert forall|j: int| p <= j < len implies seq_lt(kind@, #[trigger] old_cs[j].kind_spec()) by {
                lemma_seq_lt_total(old_cs[p as int].kind_spec(), kind@);
                if j > p {
                    lemma_seq_lt_transitive(kind@, old_cs[p as int].kind_spec(), old_cs[j].kind_spec());
                }
            }
        }
        let ghost ck = c.kind_spec();
        self.channels.insert(p, c);
        proof {
            let cs = self.channels@;
            assert(cs == old_cs.insert(p as int, c));
            assert forall|i: int, j: int| 0 <= i < j < cs.len() implies seq_lt(
                #[trigger] cs[i].kind_spec(),
                #[trigger] cs[j].kind_spec(),
            ) by {
                if j < p {
                } else if j == p {
                    assert(cs[i] == old_cs[i]);
                } else if i < p {
                    assert(cs[j] == old_cs[j - 1]);
                    assert(cs[i] == old_cs[i]);
                    lemma_seq_lt_transitive(old_cs[i].kind_spec(), ck, old_cs[j - 1].kind_spec());
                } else if i == p {
                    assert(cs[j] == old_cs[j - 1]);
                } else {
                    assert(cs[j] == old_cs[j - 1]);
                    assert(cs[i] == old_cs[i - 1]);
                }
            }
            assert forall|i: int| 0 <= i < cs.len() implies usable_kind(#[trigger] cs[i].kind_spec()) by {
                if i < p {
                    assert(cs[i] == old_cs[i]);
                } else if i > p {
                    assert(cs[i] == old_cs[i - 1]);
                }
            }
        }
        Ok(())
    }

    /// The registered kinds, in a stable (sorted) order.
    pub fn kinds(&self) -> (r: Vec<&str>)
        ensures
            r@.len() == self.channels().len(),
            forall|i: int| 0 <= i < r@.len() ==> #[trigger] r@[i]@ == kinds_of(self.channels())[i],
    {
        let mut r: Vec<&str> = Vec::new();
        let mut i: usize = 0;
        while i < self.channels.len()
            invariant
                i <= self.channels@.len(),
                r@.len() == i,
                forall|j: int| 0 <= j < i ==> #[trigger] r@[j]@ == self.channels@[j].kind_spec(),
            decreases self.channels@.len() - i,
        {
            r.push(self.channels[i].kind());
            i = i + 1;
        }
        r
    }

    /// The kinds that are actually usable — configured, credential present.
    pub fn ready_kinds(&self) -> (r: Vec<&str>)
        ensures
            r@.len() == ready_kinds_of(self.channels()).len(),
            forall|i: int| 0 <= i < r@.len() ==> #[trigger] r@[i]@ == ready_kinds_of(self.channels())[i],
    {
        let mut r: Vec<&str> = Vec::new();
        let mut i: usize = 0;
        while i < self.channels.len()
            invariant
                i <= self.channels@.len(),
                r@.len() == ready_kinds_of(self.channels@.subrange(0, i as int)).len(),
                forall|j: int| 0 <= j < r@.len() ==> #[trigger] r@[j]@ == ready_kinds_of(
                    self.channels@.subrange(0, i as int),
                )[j],
            decreases self.channels@.len() - i,
        {
            let ghost pre = self.channels@.subrange(0, i as int);
            let ghost nxt = self.channels@.subrange(0, i + 1);
            assert(nxt.drop_last() == pre);
            assert(nxt.last() == self.channels@[i as int]);
            if self.channels[i].ready() {
                r.push(self.channels[i].kind());
            }
            i = i + 1;
        }
        assert(self.channels@.subrange(0, self.channels@.len() as int) == self.channels@);
        r
    }

    /// Drain every channel. Each message keeps its full `from` address, so a
    /// reply always has somewhere to go.
    pub fn poll(&mut self) -> (r: Vec<Inbound>)
        requires
            old(self).wf(),
        ensures
            final(self).wf(),
            r@ == arrived_of(old(self).channels()),
            final(self).channels().len() == old(self).channels().len(),
            forall|i: int| 0 <= i < final(self).channels().len() ==> {
                &&& (#[trigger] final(self).channels()[i]).arrived() == Seq::<Inbound>::empty()
                &&& final(self).channels()[i].kind_spec() == old(self).channels()[i].kind_spec()
                &&& final(self).channels()[i].ready_spec() == old(self).channels()[i].ready_spec()
            },
    {
        let ghost old_cs = self.channels@;
        let mut out: Vec<Inbound> = Vec::new();
        let mut i: usize = 0;
        let len = self.channels.len();
        while i < len
            invariant
                len == old_cs.len(),
                self.channels@.len() == len,
                i <= len,
                out@ == arrived_of(old_cs.subrange(0, i as int)),
                forall|j: int| 0 <= j < len ==> (#[trigger] self.channels@[j]).kind_spec() == old_cs[j].kind_spec(),
                forall|j: int| 0 <= j < len ==> (#[trigger] self.channels@[j]).ready_spec() == old_cs[j].ready_spec(),
                forall|j: int| 0 <= j < i ==> (#[trigger] self.channels@[j]).arrived() == Seq::<Inbound>::empty(),
                forall|j: int| i <= j < len ==> #[trigger] self.channels@[j] == old_cs[j],
            decreases len - i,
        {
            let ghost pre = old_cs.subrange(0, i as int);
            let ghost nxt = old_cs.subrange(0, i + 1);
            assert(nxt.drop_last() == pre);
            let mut got = self.channels[i].poll();
            out.append(&mut got);
            i = i + 1;
        }
        assert(old_cs.subrange(0, len as int) == old_cs);
        proof {
            let cs = self.channels@;
            assert forall|a: int, b: int| 0 <= a < b < cs.len() implies seq_lt(
                #[trigger] cs[a].kind_spec(),
                #[trigger] cs[b].kind_spec(),
            ) by {
                assert(seq_lt(old_cs[a].kind_spec(), old_cs[b].kind_spec()));
            }
            assert forall|a: int| 0 <= a < cs.len() implies usable_kind(#[trigger] cs[a].kind_spec()) by {
                assert(usable_kind(old_cs[a].kind_spec()));
            }
        }
        out
    }

    /// Every channel's notices, drained: all that was waiting, channel by
    /// channel in kind order, each reported once.
    pub fn notices(&mut self) -> (r: Vec<String>)
        requires
            old(self).wf(),
        ensures
            final(self).wf(),
            r@.map_values(|n: String| n@) == pending_of(old(self).channels()),
            final(self).channels().len() == old(self).channels().len(),
            forall|i: int| 0 <= i < final(self).channels().len() ==> {
                &&& (#[trigger] final(self).channels()[i]).arrived() == old(self).channels()[i].arrived()
                &&& final(self).channels()[i].pending() == Seq::<Seq<char>>::empty()
                &&& final(self).channels()[i].kind_spec() == old(self).channels()[i].kind_spec()
                &&& final(self).channels()[i].ready_spec() == old(self).channels()[i].ready_spec()
            },
    {
        let ghost old_cs = self.channels@;
        let mut out: Vec<String> = Vec::new();
        let mut i: usize = 0;
        let len = self.channels.len();
        while i < len
            invariant
                len == old_cs.len(),
                self.channels@.len() == len,
                i <= len,
                forall|j: int| 0 <= j < len ==> (#[trigger] self.channels@[j]).kind_spec() == old_cs[j].kind_spec(),
                forall|j: int| 0 <= j < len ==> (#[trigger] self.channels@[j]).ready_spec() == old_cs[j].ready_spec(),
                forall|j: int| 0 <= j < len ==> (#[trigger] self.channels@[j]).arrived() == old_cs[j].arrived(),
                forall|j: int| 0 <= j < i ==> (#[trigger] self.channels@[j]).pending() == Seq::<Seq<char>>::empty(),
                forall|j: int| i <= j < len ==> #[trigger] self.channels@[j] == old_cs[j],
                out@.map_values(|n: String| n@) == pending_of(old_cs.subrange(0, i as int)),
            decreases len - i,
        {
            let ghost pre = old_cs.subrange(0, i as int);
            let ghost nxt = old_cs.subrange(0, i + 1);
            assert(nxt.drop_last() == pre);
            let ghost before = out@;
            let mut got = self.channels[i].notices();
            let ghost g = got@;
            out.append(&mut got);
            assert(out@.map_values(|n: String| n@) =~= before.map_values(|n: String| n@) + g.map_values(
                |n: String| n@,
            ));
            i = i + 1;
        }
        assert(old_cs.subrange(0, len as int) == old_cs);
        proof {
            let cs = self.channels@;
            assert forall|a: int, b: int| 0 <= a < b < cs.len() implies seq_lt(
                #[trigger] cs[a].kind_spec(),
                #[trigger] cs[b].kind_spec(),
            ) by {
                assert(seq_lt(old_cs[a].kind_spec(), old_cs[b].kind_spec()));
            }
            assert forall|a: int| 0 <= a < cs.len() implies usable_kind(#[trigger] cs[a].kind_spec()) by {
                assert(usable_kind(old_cs[a].kind_spec()));
            }
        }
        out
    }

    /// The channel at position `i`, to drive directly. The router stays
    /// well-formed as long as the channel keeps its kind.
    pub fn channel_mut(&mut self, i: usize) -> (c: &mut C)
        requires
            i < old(self).channels().len(),
        ensures
            *c == old(self).channels()[i as int],
            final(self).channels() == old(self).channels().update(i as int, *final(c)),
    {
        &mut self.channels[i]
    }

    /// Send `text` to `addr`. An unroutable address is an error, never a
    /// silent drop: a reply nobody receives looks exactly like a reply that
    /// was never written.
    pub fn send(&mut self, addr: &str, text: &str) -> (r: Result<(), String>)
        requires
            old(self).wf(),
        ensures
            final(self).wf(),
            match address_split(addr@) {
                None => r matches Err(e) && e@ == no_kind_error(addr@)
                    && final(self).channels() == old(self).channels(),
                Some((k, _)) => match owner_of(old(self).channels(), k) {
                    None => r matches Err(e) && e@ == unregistered_error(k)
                        && final(self).channels() == old(self).channels(),
                    Some(i) => if old(self).channels()[i].ready_spec() {
                        &&& routed_to(old(self).channels(), final(self).channels(), i)
                        &&& old(self).channels()[i].sends(addr, text, r, final(self).channels()[i])
                    } else {
                        r matches Err(e) && e@ == unconfigured_error(k)
                            && final(self).channels() == old(self).channels()
                    },
                },
            },
    {
        let (kind, _) = match split_address(addr) {
            Some(p) => p,
            None => {
                let mut e = quote(addr);
                e.append(" has no channel \u{2014} an address is kind:rest, like telegram:12345");
                return Err(e);
            },
        };
        let ghost cs = self.channels@;
        let len = self.channels.len();
        let mut i: usize = 0;
        while i < len && !str_eq(self.channels[i].kind(), kind)
            invariant
                self.channels@ == cs,
                len == cs.len(),
                i <= len,
                forall|j: int| 0 <= j < i ==> (#[trigger] cs[j]).kind_spec() != kind@,
            decreases len - i,
        {
            i = i + 1;
        }
        if i == len {
            let mut e = "no channel is registered for ".to_owned();
            let q = quote(kind);
            e.append(q.as_str());
            return Err(e);
        }
        proof {
            lemma_owner_of(cs, kind@, i as int);
        }
        if !self.channels[i].ready() {
            let mut e = "the ".to_owned();
            let q = quote(kind);
            e.append(q.as_str());
            e.append(" channel is not configured");
            return Err(e);
        }
        let r = self.channels[i].send(addr, text);
        proof {
            let fs = self.channels@;
            assert forall|a: int, b: int| 0 <= a < b < fs.len() implies seq_lt(
                #[trigger] fs[a].kind_spec(),
                #[trigger] fs[b].kind_spec(),
            ) by {
                assert(seq_lt(cs[a].kind_spec(), cs[b].kind_spec()));
            }
            assert forall|a: int| 0 <= a < fs.len() implies usable_kind(#[trigger] fs[a].kind_spec()) by {
                assert(usable_kind(cs[a].kind_spec()));
            }
        }
        r
    }
}

/// The channels after a send routed to position `i`: that one may have
/// changed, but kept its kind, readiness and mail; every other is untouched.
pub open spec fn routed_to<C: Channel>(before: Seq<C>, after: Seq<C>, i: int) -> bool {
    &&& after.len() == before.len()
    &&& forall|j: int| 0 <= j < before.len() && j != i ==> #[trigger] after[j] == before[j]
    &&& after[i].kind_spec() == before[i].kind_spec()
    &&& after[i].ready_spec() == before[i].ready_spec()
    &&& after[i].arrived() == before[i].arrived()
}

/// In well-formed channels, the owner of a kind is the one channel carrying it.
pub proof fn lemma_owner_of<C: Channel>(cs: Seq<C>, kind: Seq<char>, i: int)
    requires
        channels_wf(cs),
        0 <= i < cs.len(),
        cs[i].kind_spec() == kind,
    ensures
        owner_of(cs, kind) == Some(i),
{
    assert forall|j: int| 0 <= j < cs.len() && cs[j].kind_spec() == kind implies j == i by {
        if j != i {
            lemma_seq_lt_irreflexive(kind);
            if j < i {
                assert(seq_lt(cs[j].kind_spec(), cs[i].kind_spec()));
            } else {
                assert(seq_lt(cs[i].kind_spec(), cs[j].kind_spec()));
            }
        }
    }
    assert(exists|j: int| 0 <= j < cs.len() && cs[j].kind_spec() == kind);
}

/// A mailbox both ends of a [`Loopback`] share: what arrived, what was sent,
/// and whether the channel says it is configured.
#[derive(Debug, Default)]
pub struct Wire {
    pub inbox: Vec<Inbound>,
    pub outbox: Vec<(String, String)>,
    pub ready: bool,
}

/// A channel that goes nowhere: messages are pushed in by hand and sent
/// messages pile up in an outbox. How the router is exercised without a
/// network, a token or a microphone.
pub struct Loopback {
    pub kind: String,
    pub wire: Wire,
}

impl Loopback {
    /// A ready loopback channel owning `kind`, with an empty wire.
    pub fn pair(kind: &str) -> (l: Self)
        ensures
            l.kind_spec() == kind@,
            l.wire.ready,
            l.wire.inbox@.len() == 0,
            l.wire.outbox@.len() == 0,
    {
        Loopback {
            kind: kind.to_owned(),
            wire: Wire { inbox: Vec::new(), outbox: Vec::new(), ready: true },
        }
    }
}

impl Channel for Loopback {
    open spec fn kind_spec(&self) -> Seq<char> {
        self.kind@
    }

    open spec fn ready_spec(&self) -> bool {
        self.wire.ready
    }

    open spec fn arrived(&self) -> Seq<Inbound> {
        self.wire.inbox@
    }

    /// A loopback has nothing to report.
    open spec fn pending(&self) -> Seq<Seq<char>> {
        Seq::empty()
    }

    /// A loopback records `(to, text)` in its outbox and never fails.
    open spec fn sends(&self, to: &str, text: &str, r: Result<(), String>, after: Self) -> bool {
        &&& r is Ok
        &&& after.kind == self.kind
        &&& after.wire.inbox == self.wire.inbox
        &&& after.wire.ready == self.wire.ready
        &&& after.wire.outbox@.len() == self.wire.outbox@.len() + 1
        &&& after.wire.outbox@.drop_last() == self.wire.outbox@
        &&& after.wire.outbox@.last().0@ == to@
        &&& after.wire.outbox@.last().1@ == text@
    }

    fn kind(&self) -> (k: &str) {
        self.kind.as_str()
    }

    fn poll(&mut self) -> (r: Vec<Inbound>) {
        let mut r = Vec::new();
        std::mem::swap(&mut r, &mut self.wire.inbox);
        r
    }

    /// Records `(to, text)` in the outbox; a loopback never fails.
    fn send(&mut self, to: &str, text: &str) -> (r: Result<(), String>) {
        let ghost before = self.wire.outbox@;
        self.wire.outbox.push((to.to_owned(), text.to_owned()));
        assert(self.wire.outbox@.drop_last() =~= before);
        Ok(())
    }

    fn notices(&mut self) -> (r: Vec<String>) {
        Vec::new()
    }

    fn ready(&self) -> (b: bool) {
        self.wire.ready
    }
}

} // verus!
