//! Find-in-conversation for the chat transcript: typed characters build a
//! query, the matches are the messages whose text holds it (newest first),
//! and stepping walks them older or newer, wrapping at either end.
use vstd::prelude::*;
use vstd::arithmetic::div_mod::{lemma_mod_add_multiples_vanish, lemma_mod_self_0, lemma_small_mod};
use crate::message::Message;
use crate::num::{nat_text, u64_text};
use crate::text::{contains_infix, has_infix, lowercase, pop_char, push_char, string_of, to_lowercase};

verus! {

/// The texts of `msgs`, in order.
pub open spec fn texts_of(msgs: Seq<&Message>) -> Seq<Seq<char>> {
    msgs.map_values(|m: &Message| m.text@)
}

/// Whether a message text holds the (already lowercased) query `q`,
/// ignoring case.
pub open spec fn hit(text: Seq<char>, q: Seq<char>) -> bool {
    has_infix(lowercase(text), q)
}

/// The indices `lo..` of `texts` that hold `q`, highest first.
pub open spec fn hits_from(texts: Seq<Seq<char>>, q: Seq<char>, lo: int) -> Seq<usize>
    decreases texts.len() - lo,
{
    if lo < 0 || lo >= texts.len() {
        Seq::empty()
    } else {
        let rest = hits_from(texts, q, lo + 1);
        if hit(texts[lo], q) {
            rest.push(lo as usize)
        } else {
            rest
        }
    }
}

/// What a search for `query` matches: nothing for the empty query, else
/// every message holding it, case-insensitively, newest first.
pub open spec fn filter_spec(texts: Seq<Seq<char>>, query: Seq<char>) -> Seq<usize> {
    if query.len() == 0 {
        Seq::empty()
    } else {
        hits_from(texts, lowercase(query), 0)
    }
}

/// Visible-message indices whose text contains `query`, newest first.
/// Case-insensitive; an empty query matches nothing (nothing to jump to).
pub fn filter(msgs: &[&Message], query: &str) -> (r: Vec<usize>)
    ensures
        r@ == filter_spec(texts_of(msgs@), query@),
{
    if query.unicode_len() == 0 {
        return Vec::new();
    }
    let q = to_lowercase(query);
    let ghost texts = texts_of(msgs@);
    let mut lowered: Vec<Vec<char>> = Vec::new();
    let mut i: usize = 0;
    while i < msgs.len()
        invariant
            i <= msgs@.len(),
            texts == texts_of(msgs@),
            lowered@.len() == i,
            forall|k: int| 0 <= k < i ==> (#[trigger] lowered@[k])@ == lowercase(texts[k]),
        decreases msgs@.len() - i,
    {
        let t = to_lowercase(msgs[i].text.as_str());
        assert(texts[i as int] == msgs@[i as int].text@);
        lowered.push(t);
        i = i + 1;
    }
    let r = filter_lowered(lowered.as_slice(), q.as_slice());
    proof {
        lemma_lowered_hits(texts, crate::complete::char_views(lowered@), q@, 0);
    }
    r
}

/// The indices `lo..` of `lowered` that hold `q`, highest first — the
/// search over texts already lowercased.
pub open spec fn lowered_hits_from(lowered: Seq<Seq<char>>, q: Seq<char>, lo: int) -> Seq<usize>
    decreases lowered.len() - lo,
{
    if lo < 0 || lo >= lowered.len() {
        Seq::empty()
    } else {
        let rest = lowered_hits_from(lowered, q, lo + 1);
        if has_infix(lowered[lo], q) {
            rest.push(lo as usize)
        } else {
            rest
        }
    }
}

/// The indices of `lowered` (texts already lowercased) that hold `q` (a
/// query already lowercased), newest first.
pub fn filter_lowered(lowered: &[Vec<char>], q: &[char]) -> (r: Vec<usize>)
    ensures
        r@ == lowered_hits_from(crate::complete::char_views(lowered@), q@, 0),
{
    let ghost ls = crate::complete::char_views(lowered@);
    let mut out: Vec<usize> = Vec::new();
    let mut i: usize = lowered.len();
    while i > 0
        invariant
            i <= lowered@.len(),
            ls == crate::complete::char_views(lowered@),
            out@ == lowered_hits_from(ls, q@, i as int),
        decreases i,
    {
        i = i - 1;
        assert(ls[i as int] == lowered@[i as int]@);
        if contains_infix(lowered[i].as_slice(), q) {
            out.push(i);
        }
    }
    out
}

proof fn lemma_lowered_hits(texts: Seq<Seq<char>>, lowered: Seq<Seq<char>>, q: Seq<char>, lo: int)
    requires
        lowered.len() == texts.len(),
        forall|k: int| 0 <= k < texts.len() ==> lowered[k] == lowercase(texts[k]),
    ensures
        lowered_hits_from(lowered, q, lo) == hits_from(texts, q, lo),
    decreases texts.len() - lo,
{
    if 0 <= lo < texts.len() {
        lemma_lowered_hits(texts, lowered, q, lo + 1);
    }
}

proof fn lemma_hits_from(texts: Seq<Seq<char>>, q: Seq<char>, lo: int)
    requires
        0 <= lo <= texts.len(),
        texts.len() <= usize::MAX,
    ensures
        forall|k: int|
            #![trigger hits_from(texts, q, lo).contains(k as usize)]
            0 <= k < texts.len() ==> (hits_from(texts, q, lo).contains(k as usize) <==> (lo <= k
                && hit(texts[k], q))),
        forall|j: int|
            0 <= j < hits_from(texts, q, lo).len() ==> lo <= #[trigger] hits_from(texts, q, lo)[j]
                < texts.len(),
        forall|i: int, j: int|
            0 <= i < j < hits_from(texts, q, lo).len() ==> #[trigger] hits_from(texts, q, lo)[i]
                > #[trigger] hits_from(texts, q, lo)[j],
    decreases texts.len() - lo,
{
    if lo < texts.len() {
        lemma_hits_from(texts, q, lo + 1);
        let rest = hits_from(texts, q, lo + 1);
        if hit(texts[lo], q) {
            let r = rest.push(lo as usize);
            assert forall|k: int| 0 <= k < texts.len() implies (r.contains(k as usize) <==> (lo
                <= k && hit(texts[k], q))) by {
                if r.contains(k as usize) {
                    let j = choose|j: int| 0 <= j < r.len() && r[j] == k as usize;
                    if j < rest.len() {
                        assert(rest.contains(k as usize));
                    }
                }
                if lo < k && hit(texts[k], q) {
                    assert(rest.contains(k as usize));
                    let j = choose|j: int| 0 <= j < rest.len() && rest[j] == k as usize;
                    assert(r[j] == k as usize);
                }
                if k == lo && hit(texts[k], q) {
                    assert(r[rest.len() as int] == k as usize);
                }
            }
        } else {
            assert forall|k: int| 0 <= k < texts.len() implies (rest.contains(k as usize) <==> (lo
                <= k && hit(texts[k], q))) by {}
        }
    }
}

/// A search lists every message that holds the query exactly once, and
/// lists them newest first: an index appears in the result if and only if
/// its message matches, and the indices strictly decrease.
pub proof fn law_find_lists_the_matches_newest_first(texts: Seq<Seq<char>>, query: Seq<char>)
    requires
        query.len() > 0,
        texts.len() <= usize::MAX,
    ensures
        forall|k: int|
            0 <= k < texts.len() ==> (filter_spec(texts, query).contains(k as usize) <==> hit(
                texts[k],
                lowercase(query),
            )),
        forall|j: int|
            0 <= j < filter_spec(texts, query).len() ==> #[trigger] filter_spec(texts, query)[j]
                < texts.len(),
        forall|i: int, j: int|
            0 <= i < j < filter_spec(texts, query).len() ==> #[trigger] filter_spec(texts, query)[i]
                > #[trigger] filter_spec(texts, query)[j],
{
    lemma_hits_from(texts, lowercase(query), 0);
}

/// The open find popup: the query, the matched visible-message indices
/// (newest first) and the selected match.
pub struct ChatFind {
    pub query: String,
    pub matches: Vec<usize>,
    pub sel: usize,
}

/// The selection after a rescan found `n` matches: kept where it was, but
/// never past the last match (and 0 when there are none).
pub open spec fn clamped(sel: int, n: int) -> int {
    if n == 0 {
        0
    } else if sel < n - 1 {
        sel
    } else {
        n - 1
    }
}

/// One step `older` (or newer) from `sel` among `n` matches, wrapping.
pub open spec fn stepped(sel: int, n: int, older: bool) -> int {
    if older {
        (sel + 1) % n
    } else {
        (sel + n - 1) % n
    }
}

/// The query after an edit: a typed character appended, or the last one
/// taken back.
pub open spec fn edited(query: Seq<char>, c: Option<char>) -> Seq<char> {
    match c {
        Some(c) => query.push(c),
        None => if query.len() > 0 {
            query.drop_last()
        } else {
            query
        },
    }
}

impl ChatFind {
    /// A fresh popup: empty query, nothing matched.
    pub fn new() -> (f: Self)
        ensures
            f.query@.len() == 0,
            f.matches@.len() == 0,
            f.sel == 0,
    {
        ChatFind { query: String::new(), matches: Vec::new(), sel: 0 }
    }

    /// The selection points at a match, or is 0 when nothing matches.
    pub open spec fn sel_ok(self) -> bool {
        if self.matches@.len() == 0 {
            self.sel == 0
        } else {
            self.sel < self.matches@.len()
        }
    }

    /// Re-derive matches from the live transcript, clamping the selection:
    /// indices never outlive their messages.
    pub fn rescan(&mut self, msgs: &[&Message])
        ensures
            final(self).query@ == old(self).query@,
            final(self).matches@ == filter_spec(texts_of(msgs@), old(self).query@),
            final(self).sel == clamped(old(self).sel as int, final(self).matches@.len() as int),
            final(self).sel_ok(),
    {
        self.matches = filter(msgs, self.query.as_str());
        let n = self.matches.len();
        if n == 0 {
            self.sel = 0;
        } else if self.sel >= n - 1 {
            self.sel = n - 1;
        }
    }

    /// A query edit (`Some` types a character, `None` takes one back):
    /// refilter and restart at the newest match.
    pub fn edit(&mut self, c: Option<char>, msgs: &[&Message])
        ensures
            final(self).query@ == edited(old(self).query@, c),
            final(self).matches@ == filter_spec(texts_of(msgs@), final(self).query@),
            final(self).sel == 0,
            final(self).sel_ok(),
    {
        match c {
            Some(ch) => push_char(&mut self.query, ch),
            None => {
                let _ = pop_char(&mut self.query);
            },
        }
        self.rescan(msgs);
        self.sel = 0;
    }

    /// Step the selection one match `older` (or newer), wrapping.
    pub fn step(&mut self, older: bool, msgs: &[&Message])
        ensures
            final(self).query@ == old(self).query@,
            final(self).matches@ == filter_spec(texts_of(msgs@), old(self).query@),
            final(self).matches@.len() == 0 ==> final(self).sel == 0,
            final(self).matches@.len() > 0 ==> final(self).sel == stepped(
                clamped(old(self).sel as int, final(self).matches@.len() as int),
                final(self).matches@.len() as int,
                older,
            ),
            final(self).sel_ok(),
    {
        self.rescan(msgs);
        let n = self.matches.len();
        if n > 0 {
            if older {
                if self.sel + 1 == n {
                    self.sel = 0;
                } else {
                    self.sel = self.sel + 1;
                }
            } else {
                if self.sel == 0 {
                    self.sel = n - 1;
                } else {
                    self.sel = self.sel - 1;
                }
            }
            proof {
                lemma_wrap(clamped(old(self).sel as int, n as int), n as int);
            }
        }
    }
}

proof fn lemma_wrap(s: int, n: int)
    requires
        0 <= s < n,
    ensures
        (s + 1) % n == (if s + 1 < n {
            s + 1
        } else {
            0
        }),
        (s + n - 1) % n == (if s == 0 {
            n - 1
        } else {
            s - 1
        }),
{
    if s + 1 < n {
        lemma_small_mod((s + 1) as nat, n as nat);
    } else {
        lemma_mod_self_0(n);
    }
    if s == 0 {
        lemma_small_mod((n - 1) as nat, n as nat);
    } else {
        lemma_mod_add_multiples_vanish(s - 1, n);
        lemma_small_mod((s - 1) as nat, n as nat);
    }
}

/// Stepping one match older and then one newer lands back on the match you
/// started from (and the other way round), for any selection among any
/// number of matches.
pub proof fn law_a_step_back_undoes_a_step(sel: int, n: int, older: bool)
    requires
        0 <= sel < n,
    ensures
        stepped(stepped(sel, n, older), n, !older) == sel,
        0 <= stepped(sel, n, older) < n,
{
    lemma_wrap(sel, n);
    lemma_wrap(stepped(sel, n, older), n);
}

/// The keys the find popup reads.
pub enum ChatInput {
    /// A typed character.
    Char(char),
    Backspace,
    Enter,
    Up,
    Down,
    /// Ctrl+F (Cmd+F arrives through the app chord).
    FindNext,
    /// Ctrl+R: the history search.
    HistSearch,
    /// Esc.
    Close,
    /// Any other composer key.
    Other,
}

/// Consumed a key, consumed it AND moved the match target (the app should
/// re-scroll), or wasn't open at all.
#[derive(PartialEq, Eq, Debug)]
pub enum FindKey {
    Consumed,
    Jump,
    Forward,
}

/// Popup-first key routing: Ctrl+F opens, typed characters edit the query,
/// Enter/Ctrl+F/Down step older, Up newer, Esc closes. Modal while open —
/// except Ctrl+R, forwarded so the history search can open.
pub fn popup_key(state: &mut Option<ChatFind>, msgs: &[&Message], key: &ChatInput) -> (r: FindKey)
    ensures
        match *old(state) {
            None => match *key {
                ChatInput::FindNext => r == FindKey::Consumed && final(state).is_some()
                    && final(state).unwrap().query@.len() == 0
                    && final(state).unwrap().matches@.len() == 0 && final(state).unwrap().sel
                    == 0,
                _ => r == FindKey::Forward && *final(state) == *old(state),
            },
            Some(f) => match *key {
                ChatInput::HistSearch => r == FindKey::Forward && *final(state) == *old(state),
                ChatInput::Close => r == FindKey::Consumed && final(state).is_none(),
                ChatInput::Other => r == FindKey::Consumed && *final(state) == *old(state),
                ChatInput::Char(c) => r == FindKey::Jump && final(state).is_some() && {
                    let g = final(state).unwrap();
                    &&& g.query@ == f.query@.push(c)
                    &&& g.matches@ == filter_spec(texts_of(msgs@), g.query@)
                    &&& g.sel == 0
                },
                ChatInput::Backspace => r == FindKey::Jump && final(state).is_some() && {
                    let g = final(state).unwrap();
                    &&& g.query@ == edited(f.query@, None)
                    &&& g.matches@ == filter_spec(texts_of(msgs@), g.query@)
                    &&& g.sel == 0
                },
                ChatInput::Up => r == FindKey::Jump && final(state).is_some() && {
                    let g = final(state).unwrap();
                    &&& g.query@ == f.query@
                    &&& g.matches@ == filter_spec(texts_of(msgs@), f.query@)
                    &&& g.matches@.len() > 0 ==> g.sel == stepped(
                        clamped(f.sel as int, g.matches@.len() as int),
                        g.matches@.len() as int,
                        false,
                    )
                    &&& g.sel_ok()
                },
                _ => r == FindKey::Jump && final(state).is_some() && {
                    let g = final(state).unwrap();
                    &&& g.query@ == f.query@
                    &&& g.matches@ == filter_spec(texts_of(msgs@), f.query@)
                    &&& g.matches@.len() > 0 ==> g.sel == stepped(
                        clamped(f.sel as int, g.matches@.len() as int),
                        g.matches@.len() as int,
                        true,
                    )
                    &&& g.sel_ok()
                },
            },
        },
{
    let taken = state.take();
    match taken {
        None => {
            match key {
                ChatInput::FindNext => {
                    *state = Some(ChatFind::new());
                    FindKey::Consumed
                },
                _ => FindKey::Forward,
            }
        },
        Some(mut f) => {
            match key {
                ChatInput::HistSearch => {
                    *state = Some(f);
                    FindKey::Forward
                },
                ChatInput::Close => FindKey::Consumed,
                ChatInput::Other => {
                    *state = Some(f);
                    FindKey::Consumed
                },
                ChatInput::Char(c) => {
                    f.edit(Some(*c), msgs);
                    *state = Some(f);
                    FindKey::Jump
                },
                ChatInput::Backspace => {
                    f.edit(None, msgs);
                    *state = Some(f);
                    FindKey::Jump
                },
                ChatInput::Up => {
                    f.step(false, msgs);
                    *state = Some(f);
                    FindKey::Jump
                },
                _ => {
                    f.step(true, msgs);
                    *state = Some(f);
                    FindKey::Jump
                },
            }
        },
    }
}

/// The `scroll` (lines up from the live bottom) that puts absolute line
/// `target` inside a `budget`-row window over `total` lines — roughly
/// centered, clamped to the scrollback.
pub open spec fn scroll_spec(total: int, budget: int, target: int) -> int {
    if budget == 0 {
        0
    } else {
        let max_start = if total > budget {
            total - budget
        } else {
            0
        };
        let want = if target > budget / 2 {
            target - budget / 2
        } else {
            0
        };
        max_start - (if want < max_start {
            want
        } else {
            max_start
        })
    }
}

pub fn scroll_for(total: usize, budget: usize, target: usize) -> (r: usize)
    ensures
        r == scroll_spec(total as int, budget as int, target as int),
{
    if budget == 0 {
        return 0;
    }
    let max_start = total.saturating_sub(budget);
    let want = target.saturating_sub(budget / 2);
    let lift = if want < max_start {
        want
    } else {
        max_start
    };
    max_start - lift
}

/// Whatever line of the transcript is asked for, the scroll that finds it
/// stays within the scrollback, and the window it opens (starting
/// `max_start - scroll` lines in) shows that line.
pub proof fn law_scroll_for_puts_the_target_inside_the_window(total: int, budget: int, target: int)
    requires
        0 < budget,
        0 <= target < total,
    ensures
        ({
            let max_start = if total > budget {
                total - budget
            } else {
                0
            };
            let s = scroll_spec(total, budget, target);
            &&& 0 <= s <= max_start
            &&& max_start - s <= target < max_start - s + budget
        }),
{
}

/// The popup's legend: `find: <query> (k/N)`, k counted from the newest
/// match (0 when nothing matches).
pub open spec fn title_text(query: Seq<char>, sel: nat, n: nat) -> Seq<char> {
    let k: nat = if n == 0 {
        0
    } else {
        sel + 1
    };
    "find: "@ + query + " ("@ + nat_text(k) + "/"@ + nat_text(n) + ")"@
}

pub fn title(f: &ChatFind) -> (r: String)
    requires
        f.matches@.len() > 0 ==> f.sel < usize::MAX,
    ensures
        r@ == title_text(f.query@, f.sel as nat, f.matches@.len()),
{
    let n = f.matches.len();
    let k: usize = if n == 0 {
        0
    } else {
        f.sel + 1
    };
    let mut out = "find: ".to_owned();
    out.append(f.query.as_str());
    out.append(" (");
    let ks = string_of(u64_text(k as u64).as_slice());
    out.append(ks.as_str());
    out.append("/");
    let ns = string_of(u64_text(n as u64).as_slice());
    out.append(ns.as_str());
    out.append(")");
    out
}

/// `s` with each newline shown as ` ⏎ `, so a message fits one row.
pub open spec fn flatten(s: Seq<char>) -> Seq<char>
    decreases s.len(),
{
    if s.len() == 0 {
        Seq::empty()
    } else {
        flatten(s.drop_last()) + (if s.last() == '\n' {
            " \u{23ce} "@
        } else {
            seq![s.last()]
        })
    }
}

fn flatten_text(s: &str) -> (r: String)
    ensures
        r@ == flatten(s@),
{
    let chars = crate::text::chars_of(s);
    let mut out = String::new();
    let mut i: usize = 0;
    while i < chars.len()
        invariant
            i <= chars@.len(),
            chars@ == s@,
            out@ == flatten(s@.subrange(0, i as int)),
        decreases chars@.len() - i,
    {
        let ghost pre = s@.subrange(0, i as int);
        assert(s@.subrange(0, i + 1).drop_last() =~= pre);
        if chars[i] == '\n' {
            push_char(&mut out, ' ');
            push_char(&mut out, '\u{23ce}');
            push_char(&mut out, ' ');
            proof {
                reveal_strlit(" \u{23ce} ");
            }
            assert(out@ =~= flatten(pre) + " \u{23ce} "@);
        } else {
            push_char(&mut out, chars[i]);
            assert(out@ =~= flatten(pre) + seq![chars@[i as int]]);
        }
        i = i + 1;
    }
    assert(s@.subrange(0, chars@.len() as int) =~= s@);
    out
}

/// One row of the popup's list: its text, and whether it is a dim header
/// rather than a pickable match.
pub struct MenuRow {
    pub label: String,
    pub header: bool,
}

/// The row a matched message becomes: `sender: text`, on one line.
pub open spec fn match_label(m: Message) -> Seq<char> {
    m.sender@ + ": "@ + flatten(m.text@)
}

/// The labels of the matches among `ids` that still name a message of
/// `msgs` (the transcript may have shifted since the last key), in order.
pub open spec fn match_labels(ids: Seq<usize>, msgs: Seq<&Message>) -> Seq<Seq<char>>
    decreases ids.len(),
{
    if ids.len() == 0 {
        Seq::empty()
    } else {
        let r = match_labels(ids.drop_last(), msgs);
        let i = ids.last();
        if i < msgs.len() {
            r.push(match_label(*msgs[i as int]))
        } else {
            r
        }
    }
}

/// The popup's rows: one per match still in the transcript, newest first,
/// or a single dim `no matches` header when there are none.
pub fn card_rows(f: &ChatFind, msgs: &[&Message]) -> (r: Vec<MenuRow>)
    ensures
        match_labels(f.matches@, msgs@).len() > 0 ==> {
            &&& r@.len() == match_labels(f.matches@, msgs@).len()
            &&& forall|k: int|
                0 <= k < r@.len() ==> (#[trigger] r@[k]).label@ == match_labels(f.matches@, msgs@)[k]
                    && !r@[k].header
        },
        match_labels(f.matches@, msgs@).len() == 0 ==> r@.len() == 1 && r@[0].label@ == "no matches"@
            && r@[0].header,
{
    let mut rows: Vec<MenuRow> = Vec::new();
    let mut j: usize = 0;
    while j < f.matches.len()
        invariant
            j <= f.matches@.len(),
            rows@.len() == match_labels(f.matches@.subrange(0, j as int), msgs@).len(),
            forall|k: int|
                0 <= k < rows@.len() ==> (#[trigger] rows@[k]).label@ == match_labels(
                    f.matches@.subrange(0, j as int),
                    msgs@,
                )[k] && !rows@[k].header,
        decreases f.matches@.len() - j,
    {
        let ghost pre = f.matches@.subrange(0, j as int);
        assert(f.matches@.subrange(0, j + 1).drop_last() =~= pre);
        let i = f.matches[j];
        if i < msgs.len() {
            let m = msgs[i];
            let mut label = m.sender.clone();
            label.append(": ");
            let flat = flatten_text(m.text.as_str());
            label.append(flat.as_str());
            proof {
                reveal_strlit(": ");
            }
            rows.push(MenuRow { label, header: false });
        }
        j = j + 1;
    }
    assert(f.matches@.subrange(0, f.matches@.len() as int) =~= f.matches@);
    if rows.len() == 0 {
        rows.push(MenuRow { label: "no matches".to_owned(), header: true });
    }
    rows
}

/// The first line of `lines[start..end]` whose text holds the (lowercased)
/// query `q`, ignoring case.
pub open spec fn first_hit(lines: Seq<Seq<char>>, start: int, end: int, q: Seq<char>) -> Option<int>
    decreases end - start,
{
    if start >= end {
        None
    } else if 0 <= start < lines.len() && hit(lines[start], q) {
        Some(start)
    } else {
        first_hit(lines, start + 1, end, q)
    }
}

/// The views of a list of character lines.
pub open spec fn line_views(lines: Seq<Vec<char>>) -> Seq<Seq<char>> {
    lines.map_values(|l: Vec<char>| l@)
}

/// The line a jump scrolls to: the first of `lines[start..end]` holding
/// `query` (ignoring case), falling back to `start` when wrapping split the
/// phrase across lines.
pub fn target_line(lines: &[Vec<char>], start: usize, end: usize, query: &str) -> (r: usize)
    ensures
        r == (match first_hit(line_views(lines@), start as int, end as int, lowercase(query@)) {
            Some(i) => i,
            None => start as int,
        }),
{
    let q = to_lowercase(query);
    let ghost ls = line_views(lines@);
    let mut i: usize = start;
    while i < end
        invariant
            start <= i,
            q@ == lowercase(query@),
            ls == line_views(lines@),
            first_hit(ls, start as int, end as int, q@) == first_hit(ls, i as int, end as int, q@),
        decreases end - i,
    {
        if i < lines.len() {
            let text = string_of(lines[i].as_slice());
            let low = to_lowercase(text.as_str());
            assert(ls[i as int] == lines@[i as int]@);
            if contains_infix(low.as_slice(), q.as_slice()) {
                return i;
            }
        }
        i = i + 1;
    }
    start
}

/// The first step of a jump: rescan against the live transcript (a stale
/// index is never used) and pick the selected match, with whether its card
/// must be clicked open first so the matching line exists — true exactly
/// when the card can fold (`foldable`, one flag per visible message). `None`
/// when nothing matches.
pub fn jump_pick(find: &mut ChatFind, msgs: &[&Message], foldable: &[bool]) -> (r: Option<(usize, bool)>)
    requires
        foldable@.len() == msgs@.len(),
    ensures
        final(find).query@ == old(find).query@,
        final(find).matches@ == filter_spec(texts_of(msgs@), old(find).query@),
        final(find).sel == clamped(old(find).sel as int, final(find).matches@.len() as int),
        final(find).matches@.len() == 0 ==> r is None,
        final(find).matches@.len() > 0 ==> ({
            let mi = final(find).matches@[final(find).sel as int];
            &&& mi < msgs@.len()
            &&& r == Some((mi, foldable@[mi as int]))
        }),
{
    find.rescan(msgs);
    if find.matches.len() == 0 {
        return None;
    }
    let mi = find.matches[find.sel];
    let n = msgs.len();
    proof {
        assert(n == msgs@.len());
        assert(texts_of(msgs@).len() == msgs@.len());
        lemma_hits_from(texts_of(msgs@), lowercase(find.query@), 0);
        assert(find.matches@.len() > 0 ==> find.query@.len() > 0);
        assert(filter_spec(texts_of(msgs@), find.query@)[find.sel as int] < texts_of(msgs@).len());
    }
    Some((mi, foldable[mi]))
}

/// The second step of a jump, once the picked card is laid out: the scroll
/// that puts the first line of its span (`spans[mi]`, over `lines`) holding
/// the query inside a `budget`-row window, or `None` when the card has no
/// span (the transcript moved).
pub fn jump_scroll(lines: &[Vec<char>], spans: &[(usize, usize)], mi: usize, budget: usize, query: &str) -> (r: Option<usize>)
    ensures
        mi >= spans@.len() ==> r is None,
        mi < spans@.len() ==> ({
            let (start, end) = spans@[mi as int];
            let target = match first_hit(line_views(lines@), start as int, end as int, lowercase(query@)) {
                Some(i) => i,
                None => start as int,
            };
            r == Some(scroll_spec(lines@.len() as int, budget as int, target) as usize)
        }),
{
    if mi >= spans.len() {
        return None;
    }
    let (start, end) = spans[mi];
    let target = target_line(lines, start, end, query);
    Some(scroll_for(lines.len(), budget, target))
}

} // verus!
