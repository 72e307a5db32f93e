//! Crew's windows, and which one a request or an event belongs to.
//!
//! A crew window is a whole **canvas**: a grid of panes, its own focus and
//! its own zoom. [`Crew`] owns however many exist and routes each request to
//! the one that can answer it. Addressing keeps the spelling it always had:
//! the first window's panes are `p0`, `p1`; a second window's are `w1p0`.
//! A pane addressed by NAME is searched for in every window, because a name
//! belongs to the pane rather than to the window it happens to be in.
use vstd::prelude::*;
use crate::num::{all_digits, digits_value, index_spec, nat_text, parse_index, u64_text};
use crate::text::{chars_of, find_char, first_index, lemma_first_index, str_eq, string_of};

verus! {

/// An optional index, as a mathematical number.
pub open spec fn opt_nat(o: Option<usize>) -> Option<nat> {
    match o {
        Some(v) => Some(v as nat),
        None => None,
    }
}

/// An optional index, as an integer.
pub open spec fn opt_int(o: Option<usize>) -> Option<int> {
    match o {
        Some(v) => Some(v as int),
        None => None,
    }
}

/// A pane's index read off `p<digits>`.
pub open spec fn pane_index_spec(s: Seq<char>) -> Option<nat> {
    if s.len() > 0 && s[0] == 'p' {
        index_spec(s.drop_first())
    } else {
        None
    }
}

/// `p` and at least one digit.
pub open spec fn pane_id_shaped(s: Seq<char>) -> bool {
    s.len() > 1 && s[0] == 'p' && all_digits(s.drop_first())
}

pub fn is_pane_id_shaped(s: &[char]) -> (b: bool)
    ensures
        b == pane_id_shaped(s@),
{
    if s.len() < 2 || s[0] != 'p' {
        return false;
    }
    let mut i: usize = 1;
    while i < s.len()
        invariant
            1 <= i <= s@.len(),
            forall|j: int| 1 <= j < i ==> crate::num::is_digit(#[trigger] s@[j]),
        decreases s@.len() - i,
    {
        if !('0' <= s[i] && s[i] <= '9') {
            assert(s@.drop_first()[i - 1] == s@[i as int]);
            return false;
        }
        i = i + 1;
    }
    assert forall|j: int| 0 <= j < s@.drop_first().len() implies crate::num::is_digit(#[trigger] s@.drop_first()[j]) by {
        assert(s@.drop_first()[j] == s@[j + 1]);
    }
    true
}

/// `w<digits>` in front of a pane id names a window; anything else — a name
/// that merely starts with `w`, a window with no pane after it — is the
/// address itself, with no window.
pub open spec fn split_window_spec(s: Seq<char>) -> (Option<nat>, Seq<char>) {
    if s.len() > 0 && s[0] == 'w' {
        let t = s.drop_first();
        match first_index(t, 'p') {
            Some(k) => {
                let w = t.subrange(0, k);
                let rest = t.subrange(k, t.len() as int);
                if k > 0 && all_digits(w) && digits_value(w) <= usize::MAX && pane_id_shaped(rest) {
                    (Some(digits_value(w)), rest)
                } else {
                    (None, s)
                }
            },
            None => (None, s),
        }
    } else {
        (None, s)
    }
}

/// Read a window prefix off an address: `w1p0` is pane `p0` of window 1,
/// while `worker`, `w1` and `w1pane` are plain names.
pub fn split_window(addr: &str) -> (r: (Option<usize>, &str))
    ensures
        opt_nat(r.0) == split_window_spec(addr@).0,
        r.1@ == split_window_spec(addr@).1,
{
    let n = addr.unicode_len();
    if n == 0 || addr.get_char(0) != 'w' {
        return (None, addr);
    }
    let tail = addr.substring_char(1, n);
    assert(tail@ == addr@.drop_first());
    proof {
        lemma_first_index(tail@, 'p');
    }
    let k = match find_char(tail, 'p') {
        Some(k) => k,
        None => return (None, addr),
    };
    let t = chars_of(tail);
    let digits = slice_of(&t, 0, k);
    let rest_chars = slice_of(&t, k, t.len());
    assert(t@ == tail@);
    let w = match parse_index(digits.as_slice()) {
        Some(w) => w,
        None => {
            assert(split_window_spec(addr@) == (None::<nat>, addr@));
            return (None, addr);
        },
    };
    if k == 0 || !is_pane_id_shaped(rest_chars.as_slice()) {
        return (None, addr);
    }
    (Some(w), tail.substring_char(k, tail.unicode_len()))
}

/// Characters `from..to` of `v`.
pub fn slice_of(v: &Vec<char>, from: usize, to: usize) -> (r: Vec<char>)
    requires
        from <= to <= v@.len(),
    ensures
        r@ == v@.subrange(from as int, to as int),
{
    let mut r: Vec<char> = Vec::new();
    let mut i = from;
    while i < to
        invariant
            from <= i <= to,
            to <= v@.len(),
            r@ == v@.subrange(from as int, i as int),
        decreases to - i,
    {
        r.push(v[i]);
        assert(v@.subrange(from as int, i + 1) == v@.subrange(from as int, i as int).push(v@[i as int]));
        i = i + 1;
    }
    r
}

/// The index in a `p<digits>` pane id.
pub fn parse_pane_index(s: &[char]) -> (r: Option<usize>)
    ensures
        match r {
            Some(v) => pane_index_spec(s@) == Some(v as nat),
            None => pane_index_spec(s@) is None || pane_index_spec(s@)->0 > usize::MAX,
        },
{
    if s.len() == 0 || s[0] != 'p' {
        return None;
    }
    let mut tail: Vec<char> = Vec::new();
    let mut i: usize = 1;
    while i < s.len()
        invariant
            1 <= i <= s@.len(),
            tail@ == s@.subrange(1, i as int),
        decreases s@.len() - i,
    {
        tail.push(s[i]);
        assert(s@.subrange(1, i + 1) == s@.subrange(1, i as int).push(s@[i as int]));
        i = i + 1;
    }
    assert(tail@ == s@.drop_first());
    parse_index(tail.as_slice())
}

/// The id that reaches pane `i` of window `w`: `p3` in the first window,
/// `w1p0` in the others — the first window keeps the spelling every script
/// already knows.
pub open spec fn pane_id_spec(w: nat, i: nat) -> Seq<char> {
    if w == 0 {
        seq!['p'] + nat_text(i)
    } else {
        seq!['w'] + nat_text(w) + seq!['p'] + nat_text(i)
    }
}

pub fn pane_id(w: usize, i: usize) -> (r: String)
    ensures
        r@ == pane_id_spec(w as nat, i as nat),
{
    let mut out: Vec<char> = Vec::new();
    if w != 0 {
        out.push('w');
        let mut wd = u64_text(w as u64);
        out.append(&mut wd);
    }
    out.push('p');
    let mut id = u64_text(i as u64);
    out.append(&mut id);
    string_of(out.as_slice())
}

/// What a canvas knows of one of its panes for addressing: its name, if it
/// was given one.
#[derive(Debug, Clone, PartialEq, Eq, Default)]
pub struct PaneInfo {
    pub name: Option<String>,
}

/// The pane an address (with any window prefix already taken off) names in
/// `panes`: a `p<digits>` id that exists, else the first pane with that
/// name.
pub open spec fn resolve_spec(panes: Seq<PaneInfo>, rest: Seq<char>) -> Option<int> {
    match pane_index_spec(rest) {
        Some(i) if i < panes.len() => Some(i as int),
        _ => first_named(panes, rest),
    }
}

/// Whether pane `p` is called `name`.
pub open spec fn named(p: PaneInfo, name: Seq<char>) -> bool {
    p.name matches Some(n) && n@ == name
}

/// The first pane in `panes` called `name`.
pub open spec fn first_named(panes: Seq<PaneInfo>, name: Seq<char>) -> Option<int>
    decreases panes.len(),
{
    if panes.len() == 0 {
        None
    } else {
        match first_named(panes.drop_last(), name) {
            Some(i) => Some(i),
            None => if named(panes.last(), name) {
                Some(panes.len() - 1)
            } else {
                None
            },
        }
    }
}

pub proof fn lemma_first_named(panes: Seq<PaneInfo>, name: Seq<char>)
    ensures
        match first_named(panes, name) {
            Some(i) => 0 <= i < panes.len() && named(panes[i], name),
            None => forall|i: int| 0 <= i < panes.len() ==> !named(#[trigger] panes[i], name),
        },
    decreases panes.len(),
{
    if panes.len() > 0 {
        lemma_first_named(panes.drop_last(), name);
        assert forall|i: int| 0 <= i < panes.len() - 1 implies panes[i] == panes.drop_last()[i] by {}
    }
}

/// Which pane of `panes` an address names.
pub fn resolve(panes: &Vec<PaneInfo>, rest: &str) -> (r: Option<usize>)
    ensures
        opt_int(r) == resolve_spec(panes@, rest@),
{
    let chars = chars_of(rest);
    let idx = parse_pane_index(chars.as_slice());
    if let Some(i) = idx {
        if i < panes.len() {
            return Some(i);
        }
    }
    assert(panes@.len() == panes.len());
    let mut k: usize = 0;
    while k < panes.len()
        invariant
            k <= panes@.len(),
            first_named(panes@.subrange(0, k as int), rest@) is None,
            match pane_index_spec(rest@) {
                Some(i) => i >= panes@.len(),
                None => true,
            },
        decreases panes@.len() - k,
    {
        let ghost pre = panes@.subrange(0, k as int);
        let ghost nxt = panes@.subrange(0, k + 1);
        assert(nxt.drop_last() == pre);
        let hit = match &panes[k].name {
            Some(n) => str_eq(n.as_str(), rest),
            None => false,
        };
        if hit {
            assert(first_named(nxt, rest@) == Some(k as int));
            proof {
                lemma_first_named_prefix(panes@, rest@, k as int + 1);
            }
            return Some(k);
        }
        proof {
            lemma_first_named_none_step(nxt, rest@);
        }
        k = k + 1;
    }
    assert(panes@.subrange(0, panes@.len() as int) == panes@);
    None
}

proof fn lemma_first_named_none_step(nxt: Seq<PaneInfo>, name: Seq<char>)
    requires
        nxt.len() > 0,
        first_named(nxt.drop_last(), name) is None,
        !named(nxt.last(), name),
    ensures
        first_named(nxt, name) is None,
{
}

/// A name found in a prefix is found at the same place in the whole.
pub proof fn lemma_first_named_prefix(panes: Seq<PaneInfo>, name: Seq<char>, k: int)
    requires
        0 <= k <= panes.len(),
        first_named(panes.subrange(0, k), name) is Some,
    ensures
        first_named(panes, name) == first_named(panes.subrange(0, k), name),
    decreases panes.len() - k,
{
    if k < panes.len() {
        let nxt = panes.subrange(0, k + 1);
        assert(nxt.drop_last() == panes.subrange(0, k));
        lemma_first_named_prefix(panes, name, k + 1);
    } else {
        assert(panes.subrange(0, k) == panes);
    }
}

} // verus!

verus! {

/// One pane of a saved session, stamped with the window it was in.
#[derive(Debug, PartialEq, Eq)]
pub struct SavedPane {
    /// The window it was saved from; sessions from before there could be a
    /// second window say nothing, which reads as the first.
    pub window: usize,
    /// The shell's working directory.
    pub dir: String,
}

impl SavedPane {
    /// A shell pane in `dir`, in the first window.
    pub fn shell(dir: String) -> (p: Self)
        ensures
            p.window == 0,
            p.dir == dir,
    {
        SavedPane { window: 0, dir }
    }

    /// The same pane.
    pub fn copy(&self) -> (p: Self)
        ensures
            p == *self,
    {
        SavedPane { window: self.window, dir: self.dir.clone() }
    }
}

/// Where a window's group sits in `gs`.
pub open spec fn group_at(gs: Seq<(usize, Seq<SavedPane>)>, w: usize) -> Option<int>
    decreases gs.len(),
{
    if gs.len() == 0 {
        None
    } else {
        match group_at(gs.drop_last(), w) {
            Some(j) => Some(j),
            None => if gs.last().0 == w {
                Some(gs.len() - 1)
            } else {
                None
            },
        }
    }
}

/// The panes of `ps` grouped by window, the groups in the order their
/// windows first appear, each group in file order.
pub open spec fn group_windows(ps: Seq<SavedPane>) -> Seq<(usize, Seq<SavedPane>)>
    decreases ps.len(),
{
    if ps.len() == 0 {
        Seq::empty()
    } else {
        let g = group_windows(ps.drop_last());
        let p = ps.last();
        match group_at(g, p.window) {
            Some(j) => g.update(j, (g[j].0, g[j].1.push(p))),
            None => g.push((p.window, seq![p])),
        }
    }
}

pub proof fn lemma_group_at(gs: Seq<(usize, Seq<SavedPane>)>, w: usize)
    ensures
        match group_at(gs, w) {
            Some(j) => 0 <= j < gs.len() && gs[j].0 == w && forall|k: int| 0 <= k < j ==> gs[k].0 != w,
            None => forall|k: int| 0 <= k < gs.len() ==> (#[trigger] gs[k]).0 != w,
        },
    decreases gs.len(),
{
    if gs.len() > 0 {
        lemma_group_at(gs.drop_last(), w);
        assert forall|k: int| 0 <= k < gs.len() - 1 implies gs[k] == gs.drop_last()[k] by {}
    }
}

/// A session can have been more than one window, and it comes back as more
/// than one: the first window's panes, then every further window's, grouped
/// by where the windows appear in the file rather than by their saved number.
pub fn split_windows(panes: Vec<SavedPane>) -> (r: (Vec<SavedPane>, Vec<Vec<SavedPane>>))
    ensures
        group_windows(panes@).len() == 0 ==> r.0@.len() == 0 && r.1@.len() == 0,
        group_windows(panes@).len() > 0 ==> {
            &&& r.0@ == group_windows(panes@)[0].1
            &&& r.1@.len() == group_windows(panes@).len() - 1
            &&& forall|k: int| 0 <= k < r.1@.len() ==> (#[trigger] r.1@[k])@ == group_windows(panes@)[k + 1].1
        },
{
    let mut keys: Vec<usize> = Vec::new();
    let mut groups: Vec<Vec<SavedPane>> = Vec::new();
    let mut i: usize = 0;
    while i < panes.len()
        invariant
            i <= panes@.len(),
            keys@.len() == groups@.len(),
            keys@.len() == group_windows(panes@.subrange(0, i as int)).len(),
            forall|k: int| 0 <= k < keys@.len() ==> #[trigger] keys@[k] == group_windows(panes@.subrange(0, i as int))[k].0,
            forall|k: int| 0 <= k < groups@.len() ==> (#[trigger] groups@[k])@ == group_windows(panes@.subrange(0, i as int))[k].1,
        decreases panes@.len() - i,
    {
        let ghost pre = panes@.subrange(0, i as int);
        let ghost nxt = panes@.subrange(0, i + 1);
        let ghost g = group_windows(pre);
        assert(nxt.drop_last() == pre);
        assert(nxt.last() == panes@[i as int]);
        let p = panes[i].copy();
        let w = p.window;
        let mut j: usize = 0;
        proof {
            lemma_group_at(g, w);
        }
        while j < keys.len() && keys[j] != w
            invariant
                j <= keys@.len(),
                keys@.len() == g.len(),
                forall|k: int| 0 <= k < keys@.len() ==> #[trigger] keys@[k] == g[k].0,
                forall|k: int| 0 <= k < j ==> g[k].0 != w,
            decreases keys@.len() - j,
        {
            j = j + 1;
        }
        if j < keys.len() {
            assert(group_at(g, w) == Some(j as int));
            let ghost old_groups = groups@;
            let mut grp = Vec::new();
            std::mem::swap(&mut grp, &mut groups[j]);
            grp.push(p);
            groups.set(j, grp);
            assert(group_windows(nxt) == g.update(j as int, (g[j as int].0, g[j as int].1.push(panes@[i as int]))));
            assert forall|k: int| 0 <= k < groups@.len() implies (#[trigger] groups@[k])@ == group_windows(nxt)[k].1 by {
                if k != j {
                    assert(groups@[k] == old_groups[k]);
                }
            }
        } else {
            assert(group_at(g, w) is None);
            keys.push(w);
            let mut grp = Vec::new();
            grp.push(p);
            groups.push(grp);
            assert(group_windows(nxt) == g.push((w, seq![panes@[i as int]])));
            assert(groups@[groups@.len() - 1]@ =~= seq![panes@[i as int]]);
        }
        i = i + 1;
    }
    assert(panes@.subrange(0, panes@.len() as int) == panes@);
    if groups.len() == 0 {
        return (Vec::new(), Vec::new());
    }
    let first = groups.remove(0);
    (first, groups)
}

} // verus!

verus! {

/// The user's settings, as name/value pairs. One thing about the USER, not
/// about a window: a change made in one canvas has to reach the others.
#[derive(Debug, Default, PartialEq, Eq)]
pub struct CrewConfig {
    pub entries: Vec<(String, String)>,
}

impl View for CrewConfig {
    type V = Seq<(Seq<char>, Seq<char>)>;

    open spec fn view(&self) -> Seq<(Seq<char>, Seq<char>)> {
        self.entries@.map_values(|e: (String, String)| (e.0@, e.1@))
    }
}

impl CrewConfig {
    /// The same settings.
    pub fn copy(&self) -> (r: Self)
        ensures
            r@ == self@,
    {
        let mut entries: Vec<(String, String)> = Vec::new();
        let mut i: usize = 0;
        while i < self.entries.len()
            invariant
                i <= self.entries@.len(),
                entries@.len() == i,
                forall|k: int| 0 <= k < i ==> (#[trigger] entries@[k]).0@ == self.entries@[k].0@
                    && entries@[k].1@ == self.entries@[k].1@,
            decreases self.entries@.len() - i,
        {
            let e = &self.entries[i];
            entries.push((e.0.clone(), e.1.clone()));
            i = i + 1;
        }
        let r = CrewConfig { entries };
        assert(r@ =~= self@);
        r
    }

    /// Whether two configs hold the same settings in the same order.
    pub fn same(&self, other: &Self) -> (b: bool)
        ensures
            b == (self@ == other@),
    {
        if self.entries.len() != other.entries.len() {
            proof {
                if self@ == other@ {
                    assert(self@.len() == other@.len());
                }
            }
            return false;
        }
        let mut i: usize = 0;
        while i < self.entries.len()
            invariant
                i <= self.entries@.len(),
                self.entries@.len() == other.entries@.len(),
                forall|k: int| 0 <= k < i ==> #[trigger] self@[k] == other@[k],
            decreases self.entries@.len() - i,
        {
            let a = &self.entries[i];
            let b = &other.entries[i];
            if !str_eq(a.0.as_str(), b.0.as_str()) || !str_eq(a.1.as_str(), b.1.as_str()) {
                assert(self@[i as int] != other@[i as int]);
                return false;
            }
            assert(self@[i as int] == other@[i as int]);
            i = i + 1;
        }
        assert(self@ =~= other@);
        true
    }
}

/// One canvas: a window's panes, its own focus and zoom, and what it asked
/// its owner for. What is per-process (the config) is shared through
/// [`Crew::share_config`].
#[derive(Debug, Default)]
pub struct CrewApp {
    pub panes: Vec<PaneInfo>,
    /// The window it draws in; `None` until one is opened for it.
    pub window: Option<u64>,
    /// Document windows it owns.
    pub docs: Vec<u64>,
    /// The canvas asked for another window (`Cmd+N`).
    pub want_window: bool,
    /// The canvas asked to be closed.
    pub closing: bool,
    pub focused: usize,
    pub zoomed: bool,
    /// Panes in every OTHER canvas — what the quit guard speaks for.
    pub other_panes: usize,
    /// Groups of restored panes, each wanting a window of its own.
    pub pending_windows: Vec<Vec<SavedPane>>,
    /// What saving this canvas writes.
    pub session: Vec<SavedPane>,
    /// Whether it was restored from a session worth keeping.
    pub had_restorable: bool,
    pub config: CrewConfig,
    pub cwd: String,
    /// Only the launch canvas replays the launch notes.
    pub first: bool,
    /// The quit guard has asked once already.
    pub quit_armed: bool,
}

impl CrewApp {
    /// Whether window `id` is this canvas's own.
    pub open spec fn owns_spec(&self, id: u64) -> bool {
        self.window == Some(id) || self.docs@.contains(id)
    }

    /// Whether an event from window `id` is this canvas's.
    pub fn owns(&self, id: u64) -> (b: bool)
        ensures
            b == self.owns_spec(id),
    {
        if let Some(w) = self.window {
            if w == id {
                return true;
            }
        }
        let mut i: usize = 0;
        while i < self.docs.len()
            invariant
                i <= self.docs@.len(),
                forall|k: int| 0 <= k < i ==> self.docs@[k] != id,
            decreases self.docs@.len() - i,
        {
            if self.docs[i] == id {
                assert(self.docs@.contains(id));
                return true;
            }
            i = i + 1;
        }
        false
    }

    /// A `Cmd`-chord this canvas answers itself. `n` cannot make a window
    /// where it is pressed — only the owner holding the event loop can — so
    /// it records the ask. `true` when the chord was this canvas's.
    pub fn handle_super_chord(&mut self, key: &str) -> (b: bool)
        ensures
            b == (key@ == "n"@),
            final(self).want_window == (old(self).want_window || b),
            final(self).closing == old(self).closing,
            final(self).panes == old(self).panes,
    {
        if str_eq(key, "n") {
            self.want_window = true;
            true
        } else {
            false
        }
    }

    /// The quit guard: quitting takes every pane in every window, so with
    /// any open it asks once first; with none it does not ask at all.
    pub fn confirm_quit(&mut self) -> (b: bool)
        ensures
            b == (old(self).panes@.len() + old(self).other_panes == 0 || old(self).quit_armed),
            final(self).quit_armed == !b,
            final(self).panes == old(self).panes,
            final(self).closing == old(self).closing,
    {
        if (self.panes.len() == 0 && self.other_panes == 0) || self.quit_armed {
            self.quit_armed = false;
            true
        } else {
            self.quit_armed = true;
            false
        }
    }
}

} // verus!

verus! {

/// Every open canvas, and what must not be duplicated across them.
pub struct Crew {
    pub canvases: Vec<CrewApp>,
    /// The canvas whose window last had an event — where a canvas-less
    /// action is answered from.
    pub active: usize,
    /// The config as it was after the last event, to notice a canvas
    /// changing it.
    pub config: CrewConfig,
}

/// One line of the pane roster: the id that reaches a pane, and its name.
#[derive(Debug, PartialEq, Eq)]
pub struct PaneCard {
    pub id: String,
    pub name: Option<String>,
}

/// Panes in every canvas of `cs`.
pub open spec fn panes_total(cs: Seq<CrewApp>) -> nat
    decreases cs.len(),
{
    if cs.len() == 0 {
        0
    } else {
        panes_total(cs.drop_last()) + cs.last().panes@.len()
    }
}

/// The roster of `cs`: every window's panes, in window order, each with the
/// id that reaches it.
pub open spec fn roster_spec(cs: Seq<CrewApp>) -> Seq<(Seq<char>, Option<String>)>
    decreases cs.len(),
{
    if cs.len() == 0 {
        Seq::empty()
    } else {
        let w = (cs.len() - 1) as nat;
        roster_spec(cs.drop_last()) + Seq::new(
            cs.last().panes@.len(),
            |i: int| (pane_id_spec(w, i as nat), cs.last().panes@[i].name),
        )
    }
}

/// Which canvas an ask for `to` goes to: the window its address names, else
/// the first whose panes resolve the address at all.
pub open spec fn canvas_for_spec(cs: Seq<CrewApp>, to: Seq<char>) -> Option<int> {
    let (window, rest) = split_window_spec(to);
    match window {
        Some(w) => if w < cs.len() && resolve_spec(cs[w as int].panes@, rest) is Some {
            Some(w as int)
        } else {
            None
        },
        None => first_resolving(cs, rest),
    }
}

/// The first canvas of `cs` that resolves `rest`.
pub open spec fn first_resolving(cs: Seq<CrewApp>, rest: Seq<char>) -> Option<int>
    decreases cs.len(),
{
    if cs.len() == 0 {
        None
    } else {
        match first_resolving(cs.drop_last(), rest) {
            Some(i) => Some(i),
            None => if resolve_spec(cs.last().panes@, rest) is Some {
                Some(cs.len() - 1)
            } else {
                None
            },
        }
    }
}

/// What closing asked-for canvases comes to.
#[derive(Debug, PartialEq, Eq)]
pub enum CloseOutcome {
    /// Nobody asked to close.
    Nothing,
    /// The last canvas is going: there is no crew without a window, so save
    /// every canvas and quit.
    Quit,
    /// The canvases that asked were closed; the rest stay.
    Closed,
}

impl Crew {
    pub fn new(first: CrewApp) -> (c: Self)
        ensures
            c.canvases@.len() == 1,
            c.canvases@[0] == first,
            c.active == 0,
            c.config@ == first.config@,
    {
        let config = first.config.copy();
        let mut canvases = Vec::new();
        canvases.push(first);
        Crew { canvases, active: 0, config }
    }

    /// The canvas an event from window `id` was for — made the active one,
    /// and told how many panes the other canvases hold (the quit guard
    /// speaks for every pane in every window).
    pub fn at(&mut self, id: u64) -> (r: Option<usize>)
        requires
            panes_total(old(self).canvases@) <= usize::MAX,
        ensures
            match r {
                Some(i) => {
                    &&& i < old(self).canvases@.len()
                    &&& old(self).canvases@[i as int].owns_spec(id)
                    &&& forall|k: int| 0 <= k < i ==> !(#[trigger] old(self).canvases@[k]).owns_spec(id)
                    &&& final(self).active == i
                    &&& final(self).canvases@ == old(self).canvases@.update(
                        i as int,
                        (CrewApp {
                            other_panes: (panes_total(old(self).canvases@) - old(self).canvases@[i as int].panes@.len()) as usize,
                            ..old(self).canvases@[i as int]
                        }),
                    )
                },
                None => {
                    &&& forall|k: int| 0 <= k < old(self).canvases@.len() ==> !(#[trigger] old(self).canvases@[k]).owns_spec(id)
                    &&& final(self).canvases@ == old(self).canvases@
                    &&& final(self).active == old(self).active
                },
            },
            final(self).config == old(self).config,
    {
        let mut i: usize = 0;
        while i < self.canvases.len() && !self.canvases[i].owns(id)
            invariant
                i <= self.canvases@.len(),
                forall|k: int| 0 <= k < i ==> !(#[trigger] self.canvases@[k]).owns_spec(id),
            decreases self.canvases@.len() - i,
        {
            i = i + 1;
        }
        if i == self.canvases.len() {
            return None;
        }
        self.active = i;
        let total = self.count_panes();
        let own = self.canvases[i].panes.len();
        proof {
            lemma_panes_total_member(self.canvases@, i as int);
        }
        let mut c = self.canvases.remove(i);
        c.other_panes = total - own;
        self.canvases.insert(i, c);
        Some(i)
    }

    /// Panes across every canvas.
    fn count_panes(&self) -> (n: usize)
        requires
            panes_total(self.canvases@) <= usize::MAX,
        ensures
            n == panes_total(self.canvases@),
    {
        let mut n: usize = 0;
        let mut i: usize = 0;
        while i < self.canvases.len()
            invariant
                i <= self.canvases@.len(),
                panes_total(self.canvases@) <= usize::MAX,
                n == panes_total(self.canvases@.subrange(0, i as int)),
            decreases self.canvases@.len() - i,
        {
            let ghost pre = self.canvases@.subrange(0, i as int);
            let ghost nxt = self.canvases@.subrange(0, i + 1);
            assert(nxt.drop_last() == pre);
            proof {
                lemma_panes_total_prefix(self.canvases@, i + 1);
            }
            n = n + self.canvases[i].panes.len();
            i = i + 1;
        }
        assert(self.canvases@.subrange(0, self.canvases@.len() as int) == self.canvases@);
        n
    }

    /// The roster: every window's panes, in window order, each with the id
    /// that reaches it. A pane you cannot see listed is a pane nobody asks.
    pub fn roster(&self) -> (r: Vec<PaneCard>)
        ensures
            r@.map_values(|c: PaneCard| (c.id@, c.name)) == roster_spec(self.canvases@),
    {
        let mut out: Vec<PaneCard> = Vec::new();
        let mut w: usize = 0;
        while w < self.canvases.len()
            invariant
                w <= self.canvases@.len(),
                out@.map_values(|c: PaneCard| (c.id@, c.name)) == roster_spec(self.canvases@.subrange(0, w as int)),
            decreases self.canvases@.len() - w,
        {
            let ghost pre = self.canvases@.subrange(0, w as int);
            let ghost nxt = self.canvases@.subrange(0, w + 1);
            assert(nxt.drop_last() == pre);
            let ghost start = out@.map_values(|c: PaneCard| (c.id@, c.name));
            let panes = &self.canvases[w].panes;
            let mut i: usize = 0;
            while i < panes.len()
                invariant
                    i <= panes@.len(),
                    w < self.canvases@.len(),
                    panes == self.canvases@[w as int].panes,
                    out@.map_values(|c: PaneCard| (c.id@, c.name)) == start + Seq::new(
                        i as nat,
                        |k: int| (pane_id_spec(w as nat, k as nat), panes@[k].name),
                    ),
                decreases panes@.len() - i,
            {
                let name = match &panes[i].name {
                    Some(n) => Some(n.clone()),
                    None => None,
                };
                let card = PaneCard { id: pane_id(w, i), name };
                let ghost before = out@;
                let ghost cv = (card.id@, card.name);
                out.push(card);
                assert(out@ == before.push(card));
                assert(out@.map_values(|c: PaneCard| (c.id@, c.name)) =~= before.map_values(
                    |c: PaneCard| (c.id@, c.name),
                ).push(cv));
                assert(out@.map_values(|c: PaneCard| (c.id@, c.name)) =~= start + Seq::new(
                    (i + 1) as nat,
                    |k: int| (pane_id_spec(w as nat, k as nat), panes@[k].name),
                ));
                i = i + 1;
            }
            w = w + 1;
        }
        assert(self.canvases@.subrange(0, self.canvases@.len() as int) == self.canvases@);
        out
    }

    /// Which canvas an ask for `to` is for.
    pub fn canvas_for(&self, to: &str) -> (r: Option<usize>)
        ensures
            opt_int(r) == canvas_for_spec(self.canvases@, to@),
    {
        let (window, rest) = split_window(to);
        if let Some(w) = window {
            if w < self.canvases.len() && resolve(&self.canvases[w].panes, rest).is_some() {
                return Some(w);
            }
            return None;
        }
        let mut i: usize = 0;
        while i < self.canvases.len()
            invariant
                i <= self.canvases@.len(),
                first_resolving(self.canvases@.subrange(0, i as int), rest@) is None,
                split_window_spec(to@).0 is None,
                split_window_spec(to@).1 == rest@,
            decreases self.canvases@.len() - i,
        {
            let ghost pre = self.canvases@.subrange(0, i as int);
            let ghost nxt = self.canvases@.subrange(0, i + 1);
            assert(nxt.drop_last() == pre);
            if resolve(&self.canvases[i].panes, rest).is_some() {
                assert(nxt.last() == self.canvases@[i as int]);
                assert(first_resolving(nxt, rest@) == Some(i as int));
                proof {
                    lemma_first_resolving_prefix(self.canvases@, rest@, i + 1);
                }
                return Some(i);
            }
            i = i + 1;
        }
        assert(self.canvases@.subrange(0, self.canvases@.len() as int) == self.canvases@);
        None
    }

    /// A new canvas: the shared config and the active canvas's directory,
    /// and nothing else — no panes, its own focus, its own everything. It is
    /// not the first, so the launch notes are not repeated.
    pub fn fresh(&self) -> (c: CrewApp)
        ensures
            c.config@ == self.config@,
            self.active < self.canvases@.len() ==> c.cwd@ == self.canvases@[self.active as int].cwd@,
            self.active >= self.canvases@.len() ==> c.cwd@.len() == 0,
            c.panes@.len() == 0,
            c.window is None,
            !c.first,
            !c.want_window,
            !c.closing,
    {
        let cwd = if self.active < self.canvases.len() {
            self.canvases[self.active].cwd.clone()
        } else {
            String::new()
        };
        CrewApp {
            panes: Vec::new(),
            window: None,
            docs: Vec::new(),
            want_window: false,
            closing: false,
            focused: 0,
            zoomed: false,
            other_panes: 0,
            pending_windows: Vec::new(),
            session: Vec::new(),
            had_restorable: false,
            config: self.config.copy(),
            cwd,
            first: false,
            quit_armed: false,
        }
    }

    /// Close the canvases that asked to go. Closing the LAST one quits —
    /// there is no crew without a window — and closing any other does not.
    pub fn close_asked(&mut self) -> (r: CloseOutcome)
        ensures
            !(exists|k: int| 0 <= k < old(self).canvases@.len() && (#[trigger] old(self).canvases@[k]).closing)
                ==> r == CloseOutcome::Nothing && final(self).canvases@ == old(self).canvases@
                && final(self).active == old(self).active,
            (exists|k: int| 0 <= k < old(self).canvases@.len() && (#[trigger] old(self).canvases@[k]).closing)
                && (forall|k: int| 0 <= k < old(self).canvases@.len() ==> (#[trigger] old(self).canvases@[k]).closing)
                ==> r == CloseOutcome::Quit
                && final(self).canvases@ == old(self).canvases@ && final(self).active == old(self).active,
            (exists|k: int| 0 <= k < old(self).canvases@.len() && (#[trigger] old(self).canvases@[k]).closing)
                && (exists|k: int| 0 <= k < old(self).canvases@.len() && !(#[trigger] old(self).canvases@[k]).closing)
                ==> r == CloseOutcome::Closed
                && final(self).canvases@ == old(self).canvases@.filter(|c: CrewApp| !c.closing)
                && (final(self).canvases@.len() > 0 ==> final(self).active == if old(self).active
                < final(self).canvases@.len() {
                old(self).active
            } else {
                (final(self).canvases@.len() - 1) as usize
            }),
            final(self).config == old(self).config,
    {
        let mut any = false;
        let mut open = false;
        let mut i: usize = 0;
        while i < self.canvases.len()
            invariant
                i <= self.canvases@.len(),
                !any ==> forall|k: int| 0 <= k < i ==> !(#[trigger] self.canvases@[k]).closing,
                any ==> exists|k: int| 0 <= k < self.canvases@.len() && (#[trigger] self.canvases@[k]).closing,
                !open ==> forall|k: int| 0 <= k < i ==> (#[trigger] self.canvases@[k]).closing,
                open ==> exists|k: int| 0 <= k < self.canvases@.len() && !(#[trigger] self.canvases@[k]).closing,
            decreases self.canvases@.len() - i,
        {
            if self.canvases[i].closing {
                any = true;
            } else {
                open = true;
            }
            i = i + 1;
        }
        if !any {
            return CloseOutcome::Nothing;
        }
        if !open {
            // Every window is going: there is no crew without one.
            return CloseOutcome::Quit;
        }
        let ghost before = self.canvases@;
        let mut kept: Vec<CrewApp> = Vec::new();
        let mut rest: Vec<CrewApp> = Vec::new();
        std::mem::swap(&mut rest, &mut self.canvases);
        assert(rest@.subrange(0, 0) =~= Seq::<CrewApp>::empty());
        assert(before.subrange(0, 0).filter(|c: CrewApp| !c.closing) =~= Seq::<CrewApp>::empty()) by {
            reveal(Seq::filter);
        }
        assert(before.subrange(0, before.len() as int) == before);
        while rest.len() > 0
            invariant
                rest@.len() <= before.len(),
                rest@ == before.subrange(before.len() - rest@.len(), before.len() as int),
                kept@ == before.subrange(0, before.len() - rest@.len()).filter(|c: CrewApp| !c.closing),
            decreases rest@.len(),
        {
            let ghost k = before.len() - rest@.len();
            let c = rest.remove(0);
            let ghost pre = before.subrange(0, k);
            let ghost nxt = before.subrange(0, k + 1);
            assert(c == before[k]);
            assert(nxt.drop_last() == pre);
            assert(nxt.last() == c);
            assert(rest@ =~= before.subrange(k + 1, before.len() as int));
            proof {
                reveal(Seq::filter);
                assert(nxt.filter(|c: CrewApp| !c.closing) == if !c.closing {
                    pre.filter(|c: CrewApp| !c.closing).push(c)
                } else {
                    pre.filter(|c: CrewApp| !c.closing)
                });
            }
            if !c.closing {
                kept.push(c);
            }
        }
        assert(before.subrange(0, before.len() as int) == before);
        self.canvases = kept;
        if self.canvases.len() > 0 && self.active >= self.canvases.len() {
            self.active = self.canvases.len() - 1;
        }
        CloseOutcome::Closed
    }

    /// Publish a config the active canvas changed to every other canvas.
    /// Compared rather than subscribed to, because every path that writes
    /// it already exists and none of them knows there is more than one
    /// canvas. `true` when there was a change to publish.
    pub fn share_config(&mut self) -> (changed: bool)
        ensures
            old(self).active >= old(self).canvases@.len() ==> !changed && final(self).config == old(self).config
                && final(self).canvases@ == old(self).canvases@,
            old(self).active < old(self).canvases@.len() ==> {
                let a = old(self).canvases@[old(self).active as int].config@;
                &&& changed == (a != old(self).config@)
                &&& !changed ==> final(self).config == old(self).config && final(self).canvases@ == old(self).canvases@
                &&& changed ==> {
                    &&& final(self).config@ == a
                    &&& final(self).canvases@.len() == old(self).canvases@.len()
                    &&& forall|i: int| 0 <= i < old(self).canvases@.len() ==> (#[trigger] final(self).canvases@[i]).config@ == a
                    &&& forall|i: int| 0 <= i < old(self).canvases@.len() ==> final(self).canvases@[i] == (CrewApp {
                        config: final(self).canvases@[i].config,
                        ..old(self).canvases@[i]
                    })
                }
            },
            final(self).active == old(self).active,
    {
        if self.active >= self.canvases.len() {
            return false;
        }
        if self.canvases[self.active].config.same(&self.config) {
            return false;
        }
        self.config = self.canvases[self.active].config.copy();
        let ghost before = self.canvases@;
        let ghost a = self.config@;
        let ghost act = self.active;
        let mut i: usize = 0;
        while i < self.canvases.len()
            invariant
                i <= self.canvases@.len(),
                self.canvases@.len() == before.len(),
                self.config@ == a,
                self.active == act,
                self.active < before.len(),
                before[self.active as int].config@ == a,
                forall|k: int| 0 <= k < i ==> (#[trigger] self.canvases@[k]).config@ == a,
                forall|k: int| 0 <= k < before.len() ==> self.canvases@[k] == (CrewApp {
                    config: self.canvases@[k].config,
                    ..before[k]
                }),
                forall|k: int| i <= k < before.len() ==> #[trigger] self.canvases@[k] == before[k],
            decreases before.len() - i,
        {
            if i != self.active {
                let shared = self.config.copy();
                let mut c = self.canvases.remove(i);
                c.config = shared;
                self.canvases.insert(i, c);
            }
            i = i + 1;
        }
        true
    }

    /// Every canvas's panes as one session, each stamped with the window it
    /// was in — `None` when there is nothing to save and nothing restorable
    /// to overwrite.
    pub fn save_all(&self) -> (r: Option<Vec<SavedPane>>)
        ensures
            r matches Some(all) ==> all@ == stamped(self.canvases@),
            r is None <==> stamped(self.canvases@).len() == 0 && !any_restorable(self.canvases@),
            (exists|k: int| 0 <= k < self.canvases@.len() && (#[trigger] self.canvases@[k]).had_restorable) ==> r is Some,
            (exists|k: int| 0 <= k < self.canvases@.len() && (#[trigger] self.canvases@[k]).session@.len() > 0) ==> r is Some,
    {
        proof {
            law_restorable_means_some_canvas_was(self.canvases@);
            law_saved_session_has_every_pane(self.canvases@);
        }
        let mut all: Vec<SavedPane> = Vec::new();
        let mut restorable = false;
        let mut w: usize = 0;
        while w < self.canvases.len()
            invariant
                w <= self.canvases@.len(),
                all@ == stamped(self.canvases@.subrange(0, w as int)),
                restorable == any_restorable(self.canvases@.subrange(0, w as int)),
            decreases self.canvases@.len() - w,
        {
            let ghost pre = self.canvases@.subrange(0, w as int);
            let ghost nxt = self.canvases@.subrange(0, w + 1);
            assert(nxt.drop_last() == pre);
            let c = &self.canvases[w];
            restorable = restorable || c.had_restorable;
            let ghost start = all@;
            let mut i: usize = 0;
            while i < c.session.len()
                invariant
                    i <= c.session@.len(),
                    c == &self.canvases@[w as int],
                    all@ == start + Seq::new(i as nat, |k: int| (SavedPane { window: w, ..c.session@[k] })),
                decreases c.session@.len() - i,
            {
                let p = SavedPane { window: w, dir: c.session[i].dir.clone() };
                all.push(p);
                assert(all@ =~= start + Seq::new((i + 1) as nat, |k: int| (SavedPane { window: w, ..c.session@[k] })));
                i = i + 1;
            }
            w = w + 1;
        }
        assert(self.canvases@.subrange(0, self.canvases@.len() as int) == self.canvases@);
        if all.len() > 0 || restorable {
            Some(all)
        } else {
            None
        }
    }
}

/// Every canvas's session panes, each stamped with its canvas's index.
pub open spec fn stamped(cs: Seq<CrewApp>) -> Seq<SavedPane>
    decreases cs.len(),
{
    if cs.len() == 0 {
        Seq::empty()
    } else {
        let w = (cs.len() - 1) as usize;
        stamped(cs.drop_last()) + Seq::new(
            cs.last().session@.len(),
            |k: int| (SavedPane { window: w, ..cs.last().session@[k] }),
        )
    }
}

/// Whether any canvas of `cs` was restored from a session worth keeping.
pub open spec fn any_restorable(cs: Seq<CrewApp>) -> bool
    decreases cs.len(),
{
    if cs.len() == 0 {
        false
    } else {
        any_restorable(cs.drop_last()) || cs.last().had_restorable
    }
}

/// A crew has something restorable exactly when one of its canvases was
/// restored from a session.
pub proof fn law_restorable_means_some_canvas_was(cs: Seq<CrewApp>)
    ensures
        any_restorable(cs) <==> exists|k: int| 0 <= k < cs.len() && (#[trigger] cs[k]).had_restorable,
    decreases cs.len(),
{
    if cs.len() > 0 {
        let rest = cs.drop_last();
        law_restorable_means_some_canvas_was(rest);
        if any_restorable(rest) {
            let k = choose|k: int| 0 <= k < rest.len() && (#[trigger] rest[k]).had_restorable;
            assert(cs[k] == rest[k]);
        }
        if exists|k: int| 0 <= k < cs.len() && (#[trigger] cs[k]).had_restorable {
            let k = choose|k: int| 0 <= k < cs.len() && (#[trigger] cs[k]).had_restorable;
            if k < rest.len() {
                assert(cs[k] == rest[k]);
            }
        }
    }
}

/// The saved session holds as many panes as the canvases' sessions do, so
/// it is empty only when every canvas's session is.
pub proof fn law_saved_session_has_every_pane(cs: Seq<CrewApp>)
    ensures
        stamped(cs).len() == 0 <==> forall|k: int| 0 <= k < cs.len() ==> (#[trigger] cs[k]).session@.len() == 0,
    decreases cs.len(),
{
    if cs.len() > 0 {
        let rest = cs.drop_last();
        law_saved_session_has_every_pane(rest);
        assert forall|k: int| 0 <= k < rest.len() implies cs[k] == #[trigger] rest[k] by {}
        if stamped(cs).len() == 0 {
            assert forall|k: int| 0 <= k < cs.len() implies (#[trigger] cs[k]).session@.len() == 0 by {
                if k < rest.len() {
                    assert(cs[k] == rest[k]);
                }
            }
        }
        if forall|k: int| 0 <= k < cs.len() ==> (#[trigger] cs[k]).session@.len() == 0 {
            assert(cs[cs.len() - 1].session@.len() == 0);
            assert forall|k: int| 0 <= k < rest.len() implies (#[trigger] rest[k]).session@.len() == 0 by {
                assert(cs[k] == rest[k]);
            }
        }
    }
}

pub proof fn lemma_panes_total_prefix(cs: Seq<CrewApp>, k: int)
    requires
        0 <= k <= cs.len(),
    ensures
        panes_total(cs.subrange(0, k)) <= panes_total(cs),
    decreases cs.len() - k,
{
    if k < cs.len() {
        let nxt = cs.subrange(0, k + 1);
        assert(nxt.drop_last() == cs.subrange(0, k));
        lemma_panes_total_prefix(cs, k + 1);
    } else {
        assert(cs.subrange(0, k) == cs);
    }
}

pub proof fn lemma_panes_total_member(cs: Seq<CrewApp>, i: int)
    requires
        0 <= i < cs.len(),
    ensures
        cs[i].panes@.len() <= panes_total(cs),
    decreases cs.len(),
{
    if i < cs.len() - 1 {
        assert(cs.drop_last()[i] == cs[i]);
        lemma_panes_total_member(cs.drop_last(), i);
    }
}

pub proof fn lemma_first_resolving_prefix(cs: Seq<CrewApp>, rest: Seq<char>, k: int)
    requires
        0 <= k <= cs.len(),
        first_resolving(cs.subrange(0, k), rest) is Some,
    ensures
        first_resolving(cs, rest) == first_resolving(cs.subrange(0, k), rest),
    decreases cs.len() - k,
{
    if k < cs.len() {
        let nxt = cs.subrange(0, k + 1);
        assert(nxt.drop_last() == cs.subrange(0, k));
        lemma_first_resolving_prefix(cs, rest, k + 1);
    } else {
        assert(cs.subrange(0, k) == cs);
    }
}

} // verus!

verus! {

/// How a broadcast's answers are merged: the first real answer, or all.
#[derive(Debug, Clone, Copy, PartialEq, Eq)]
pub enum CastMode {
    Any,
    All,
}

/// One pane's answer to a broadcast; `text` is `None` when it had nothing.
#[derive(Debug, PartialEq, Eq)]
pub struct CastAnswer {
    pub pane: String,
    pub text: Option<String>,
}

/// One broadcast in flight across the canvases: each answers in its own time,
/// and the client hears one merged reply when they all have.
pub struct Merge {
    pub mode: CastMode,
    /// Canvases that have neither answered nor gone away.
    pub waiting: usize,
    pub answers: Vec<CastAnswer>,
}

/// The answers of `s` that say something.
pub open spec fn real_answers(s: Seq<CastAnswer>) -> Seq<CastAnswer> {
    s.filter(|a: CastAnswer| a.text is Some)
}

impl Merge {
    /// A broadcast waiting on `parts` canvases.
    pub fn new(mode: CastMode, parts: usize) -> (m: Self)
        ensures
            m.mode == mode,
            m.waiting == parts,
            m.answers@.len() == 0,
    {
        Merge { mode, waiting: parts, answers: Vec::new() }
    }

    /// One canvas answered.
    pub fn receive(&mut self, answers: Vec<CastAnswer>)
        requires
            old(self).waiting > 0,
        ensures
            final(self).waiting == old(self).waiting - 1,
            final(self).answers@ == old(self).answers@ + answers@,
            final(self).mode == old(self).mode,
    {
        let mut answers = answers;
        self.answers.append(&mut answers);
        self.waiting = self.waiting - 1;
    }

    /// One canvas closed mid-broadcast: it answers nothing, and must end its
    /// share of the wait rather than hang the client forever.
    pub fn part_closed(&mut self)
        requires
            old(self).waiting > 0,
        ensures
            final(self).waiting == old(self).waiting - 1,
            final(self).answers@ == old(self).answers@,
            final(self).mode == old(self).mode,
    {
        self.waiting = self.waiting - 1;
    }

    /// Whether the client can be answered: everyone has been heard from, or
    /// — for `Any` — somebody already said something.
    pub fn settled(&self) -> (b: bool)
        ensures
            b == (self.waiting == 0 || (self.mode is Any && real_answers(self.answers@).len() > 0)),
    {
        if self.waiting == 0 {
            return true;
        }
        match &self.mode {
            CastMode::All => false,
            CastMode::Any => first_real(&self.answers).is_some(),
        }
    }

    /// The merged reply: `All` hears every answer; `Any` hears only the
    /// first real one (the others were asked anyway, and are dropped).
    pub fn reply(self) -> (r: Vec<CastAnswer>)
        ensures
            self.mode is All ==> r@ == self.answers@,
            self.mode is Any ==> r@ == real_answers(self.answers@).take(
                if real_answers(self.answers@).len() > 0 { 1int } else { 0 },
            ),
    {
        let Merge { mode, waiting: _, mut answers } = self;
        match mode {
            CastMode::All => answers,
            CastMode::Any => {
                let ghost all = answers@;
                let mut out = Vec::new();
                match first_real(&answers) {
                    Some(i) => {
                        let a = answers.remove(i);
                        out.push(a);
                        proof {
                            lemma_first_real(all, i as int);
                        }
                        assert(out@ =~= real_answers(all).take(1));
                    },
                    None => {
                        assert(out@ =~= real_answers(all).take(0));
                    },
                }
                out
            },
        }
    }
}

/// Whether broadcast `m` can be answered: every part heard from, or — for
/// `Any` — a real answer already in.
pub open spec fn settled_spec(m: Merge) -> bool {
    m.waiting == 0 || (m.mode is Any && real_answers(m.answers@).len() > 0)
}

/// The merged reply of `m`: every answer for `All`, the first real one for
/// `Any`.
pub open spec fn reply_spec(m: Merge) -> Seq<CastAnswer> {
    if m.mode is All {
        m.answers@
    } else {
        real_answers(m.answers@).take(if real_answers(m.answers@).len() > 0 { 1int } else { 0 })
    }
}

/// The broadcasts among `ms[..n]` still waiting, in order.
pub open spec fn unsettled_upto(ms: Seq<Merge>, n: int) -> Seq<Merge>
    decreases n,
{
    if n <= 0 || n > ms.len() {
        Seq::empty()
    } else if settled_spec(ms[n - 1]) {
        unsettled_upto(ms, n - 1)
    } else {
        unsettled_upto(ms, n - 1).push(ms[n - 1])
    }
}

/// The position and merged reply of each settled broadcast among `ms[..n]`,
/// in order.
pub open spec fn replies_upto(ms: Seq<Merge>, n: int) -> Seq<(usize, Seq<CastAnswer>)>
    decreases n,
{
    if n <= 0 || n > ms.len() {
        Seq::empty()
    } else if settled_spec(ms[n - 1]) {
        replies_upto(ms, n - 1).push(((n - 1) as usize, reply_spec(ms[n - 1])))
    } else {
        replies_upto(ms, n - 1)
    }
}

/// The broadcasts in flight, once each has taken what its parts answered:
/// every settled one leaves the list and yields its merged reply, with the
/// position it had (so its client can be answered); the rest keep waiting,
/// in order.
pub fn take_settled(casts: &mut Vec<Merge>) -> (r: Vec<(usize, Vec<CastAnswer>)>)
    ensures
        final(casts)@ == unsettled_upto(old(casts)@, old(casts)@.len() as int),
        r@.map_values(|x: (usize, Vec<CastAnswer>)| (x.0, x.1@)) == replies_upto(
            old(casts)@,
            old(casts)@.len() as int,
        ),
{
    let mut rest: Vec<Merge> = Vec::new();
    std::mem::swap(&mut rest, casts);
    let ghost all = rest@;
    let n = rest.len();
    let mut kept: Vec<Merge> = Vec::new();
    let mut out: Vec<(usize, Vec<CastAnswer>)> = Vec::new();
    let mut i: usize = 0;
    while rest.len() > 0
        invariant
            i + rest@.len() == all.len(),
            all.len() == n,
            rest@ == all.subrange(i as int, all.len() as int),
            kept@ == unsettled_upto(all, i as int),
            out@.map_values(|x: (usize, Vec<CastAnswer>)| (x.0, x.1@)) == replies_upto(all, i as int),
        decreases rest@.len(),
    {
        let m = rest.remove(0);
        assert(m == all[i as int]);
        assert(rest@ =~= all.subrange(i + 1, all.len() as int));
        if m.settled() {
            let ghost before = out@;
            let ghost rs = reply_spec(m);
            let answers = m.reply();
            out.push((i, answers));
            assert(out@.map_values(|x: (usize, Vec<CastAnswer>)| (x.0, x.1@)) =~= before.map_values(
                |x: (usize, Vec<CastAnswer>)| (x.0, x.1@),
            ).push((i, rs)));
        } else {
            kept.push(m);
        }
        i = i + 1;
    }
    *casts = kept;
    out
}

/// Where the first real answer of `s` sits.
fn first_real(s: &Vec<CastAnswer>) -> (r: Option<usize>)
    ensures
        match r {
            Some(i) => i < s@.len() && s@[i as int].text is Some && (forall|k: int| 0 <= k < i ==> s@[k].text is None)
                && real_answers(s@).len() > 0,
            None => real_answers(s@).len() == 0,
        },
{
    let mut i: usize = 0;
    while i < s.len()
        invariant
            i <= s@.len(),
            forall|k: int| 0 <= k < i ==> s@[k].text is None,
        decreases s@.len() - i,
    {
        if s[i].text.is_some() {
            proof {
                lemma_first_real(s@, i as int);
            }
            return Some(i);
        }
        i = i + 1;
    }
    proof {
        lemma_no_real(s@);
    }
    None
}

proof fn lemma_no_real(s: Seq<CastAnswer>)
    requires
        forall|k: int| 0 <= k < s.len() ==> s[k].text is None,
    ensures
        real_answers(s).len() == 0,
    decreases s.len(),
{
    reveal(Seq::filter);
    if s.len() > 0 {
        lemma_no_real(s.drop_last());
    }
}

proof fn lemma_first_real(s: Seq<CastAnswer>, i: int)
    requires
        0 <= i < s.len(),
        s[i].text is Some,
        forall|k: int| 0 <= k < i ==> s[k].text is None,
    ensures
        real_answers(s).len() > 0,
        real_answers(s)[0] == s[i],
    decreases s.len(),
{
    reveal(Seq::filter);
    if i < s.len() - 1 {
        lemma_first_real(s.drop_last(), i);
        assert(s.drop_last()[i] == s[i]);
        let f = s.drop_last().filter(|a: CastAnswer| a.text is Some);
        assert(real_answers(s) == if s.last().text is Some { f.push(s.last()) } else { f });
    } else {
        lemma_no_real(s.drop_last());
        assert(s.drop_last().filter(|a: CastAnswer| a.text is Some).len() == 0);
    }
}

/// The requests the `crew ask` endpoint routes.
#[derive(Debug, PartialEq, Eq)]
pub enum Request {
    /// List every pane.
    Panes,
    /// Ask one pane, by id or name.
    Ask { to: String },
    /// Ask every pane.
    Broadcast { mode: CastMode },
    /// Anything else — daemon ops belong to another endpoint.
    Other,
}

/// Where a request goes.
#[derive(Debug, PartialEq, Eq)]
pub enum Route {
    /// Answer with this roster.
    Roster(Vec<PaneCard>),
    /// The canvas that services the ask.
    Ask(usize),
    /// Nothing can answer: the address names no pane in any window.
    Unreachable,
    /// Fan out to these canvases and merge their answers; none means the
    /// client is answered at once with an empty cast.
    Broadcast(Vec<usize>),
    /// Not this endpoint's.
    Ignore,
}

/// The canvases of `cs` that have panes to ask.
pub open spec fn cast_targets(cs: Seq<CrewApp>) -> Seq<usize>
    decreases cs.len(),
{
    if cs.len() == 0 {
        Seq::empty()
    } else if cs.last().panes@.len() > 0 {
        cast_targets(cs.drop_last()).push((cs.len() - 1) as usize)
    } else {
        cast_targets(cs.drop_last())
    }
}

impl Crew {
    /// Every canvas that has panes, in order — each is asked a broadcast.
    pub fn broadcast_targets(&self) -> (r: Vec<usize>)
        ensures
            r@ == cast_targets(self.canvases@),
    {
        let mut out: Vec<usize> = Vec::new();
        let mut i: usize = 0;
        while i < self.canvases.len()
            invariant
                i <= self.canvases@.len(),
                out@ == cast_targets(self.canvases@.subrange(0, i as int)),
            decreases self.canvases@.len() - i,
        {
            let ghost pre = self.canvases@.subrange(0, i as int);
            let ghost nxt = self.canvases@.subrange(0, i + 1);
            assert(nxt.drop_last() == pre);
            if self.canvases[i].panes.len() > 0 {
                out.push(i);
            }
            i = i + 1;
        }
        assert(self.canvases@.subrange(0, self.canvases@.len() as int) == self.canvases@);
        out
    }

    /// Fan one broadcast across every canvas that has panes: returns them,
    /// each to be asked in turn, and remembers one merge waiting on all of
    /// them. With no such canvas nothing is remembered, and the empty result
    /// says the client is answered at once with an empty cast.
    pub fn fan_broadcast(&self, mode: CastMode, casts: &mut Vec<Merge>) -> (r: Vec<usize>)
        ensures
            r@ == cast_targets(self.canvases@),
            r@.len() == 0 ==> final(casts)@ == old(casts)@,
            r@.len() > 0 ==> final(casts)@.len() == old(casts)@.len() + 1
                && final(casts)@.drop_last() == old(casts)@
                && final(casts)@.last().mode == mode
                && final(casts)@.last().waiting == r@.len()
                && final(casts)@.last().answers@.len() == 0,
    {
        let targets = self.broadcast_targets();
        if targets.len() > 0 {
            casts.push(Merge::new(mode, targets.len()));
            assert(casts@.drop_last() =~= old(casts)@);
        }
        targets
    }

    /// Send one request to where its answer is.
    pub fn route_request(&self, req: &Request) -> (r: Route)
        ensures
            match req {
                Request::Panes => r matches Route::Roster(cards)
                    && cards@.map_values(|c: PaneCard| (c.id@, c.name)) == roster_spec(self.canvases@),
                Request::Ask { to } => match canvas_for_spec(self.canvases@, to@) {
                    Some(i) => r == Route::Ask(i as usize),
                    None => r == Route::Unreachable,
                },
                Request::Broadcast { .. } => r matches Route::Broadcast(ts) && ts@ == cast_targets(self.canvases@),
                Request::Other => r == Route::Ignore,
            },
    {
        match req {
            Request::Panes => Route::Roster(self.roster()),
            Request::Ask { to } => match self.canvas_for(to.as_str()) {
                Some(i) => Route::Ask(i),
                None => Route::Unreachable,
            },
            Request::Broadcast { .. } => Route::Broadcast(self.broadcast_targets()),
            Request::Other => Route::Ignore,
        }
    }

    /// What the canvases asked their owner for since the last look: the
    /// restored groups that each want a window, and whether anyone pressed
    /// for a fresh one. The asks are taken, so each is answered once.
    pub fn take_window_asks(&mut self) -> (r: (Vec<Vec<SavedPane>>, bool))
        ensures
            r.1 == exists|k: int| 0 <= k < old(self).canvases@.len() && (#[trigger] old(self).canvases@[k]).want_window,
            r.0@ == pending_of_all(old(self).canvases@),
            final(self).canvases@.len() == old(self).canvases@.len(),
            forall|k: int| 0 <= k < old(self).canvases@.len() ==> final(self).canvases@[k] == (CrewApp {
                want_window: old(self).canvases@[k].want_window && asked_before(old(self).canvases@, k),
                pending_windows: final(self).canvases@[k].pending_windows,
                ..old(self).canvases@[k]
            }),
            forall|k: int| 0 <= k < old(self).canvases@.len() ==> (#[trigger] final(self).canvases@[k]).pending_windows@.len() == 0,
            final(self).active == old(self).active,
            final(self).config == old(self).config,
    {
        let ghost before = self.canvases@;
        let ghost act = self.active;
        let ghost cfg = self.config;
        let mut groups: Vec<Vec<SavedPane>> = Vec::new();
        let mut asked = false;
        let mut i: usize = 0;
        while i < self.canvases.len()
            invariant
                i <= self.canvases@.len(),
                self.canvases@.len() == before.len(),
                self.active == act,
                self.config == cfg,
                asked == asked_before(before, i as int),
                groups@ == pending_of_all(before.subrange(0, i as int)),
                forall|k: int| 0 <= k < before.len() ==> self.canvases@[k] == (CrewApp {
                    want_window: self.canvases@[k].want_window,
                    pending_windows: self.canvases@[k].pending_windows,
                    ..before[k]
                }),
                forall|k: int| 0 <= k < i ==> (#[trigger] self.canvases@[k]).want_window == (before[k].want_window
                    && asked_before(before, k)) && self.canvases@[k].pending_windows@.len() == 0,
                forall|k: int| i <= k < before.len() ==> #[trigger] self.canvases@[k] == before[k],
            decreases before.len() - i,
        {
            let ghost pre = before.subrange(0, i as int);
            let ghost nxt = before.subrange(0, i + 1);
            assert(nxt.drop_last() == pre);
            let mut c = self.canvases.remove(i);
            if !asked {
                asked = c.want_window;
                c.want_window = false;
            }
            let mut taken = Vec::new();
            std::mem::swap(&mut taken, &mut c.pending_windows);
            let ghost g = groups@;
            groups.append(&mut taken);
            self.canvases.insert(i, c);
            proof {
                assert(asked == asked_before(before, i + 1)) by {
                    if before[i as int].want_window {
                        assert(asked_before(before, i + 1));
                    }
                    if asked_before(before, i + 1) && !asked_before(before, i as int) {
                        let j = choose|j: int| 0 <= j < i + 1 && (#[trigger] before[j]).want_window;
                        assert(j == i);
                    }
                }
            }
            i = i + 1;
        }
        assert(before.subrange(0, before.len() as int) == before);
        (groups, asked)
    }

    /// Add a canvas the owner opened a window for; `activate` makes it the
    /// one canvas-less actions answer from.
    pub fn add_canvas(&mut self, c: CrewApp, activate: bool)
        ensures
            final(self).canvases@ == old(self).canvases@.push(c),
            activate ==> final(self).active == old(self).canvases@.len(),
            !activate ==> final(self).active == old(self).active,
            final(self).config == old(self).config,
    {
        self.canvases.push(c);
        if activate {
            self.active = self.canvases.len() - 1;
        }
    }
}

/// The restored groups the canvases of `cs` are holding, in canvas order.
pub open spec fn pending_of_all(cs: Seq<CrewApp>) -> Seq<Vec<SavedPane>>
    decreases cs.len(),
{
    if cs.len() == 0 {
        Seq::empty()
    } else {
        pending_of_all(cs.drop_last()) + cs.last().pending_windows@
    }
}

/// Whether a canvas before position `k` of `cs` asked for a window. The
/// asks are answered one per round: the first ask is taken, and any later
/// canvas's ask waits for the next round.
pub open spec fn asked_before(cs: Seq<CrewApp>, k: int) -> bool {
    exists|j: int| 0 <= j < k && (#[trigger] cs[j]).want_window
}

} // verus!

verus! {

proof fn lemma_nat_text_has_no_p(n: nat)
    ensures
        !nat_text(n).contains('p'),
        first_index(nat_text(n), 'p') is None,
{
    crate::num::lemma_nat_text(n);
    let t = nat_text(n);
    assert forall|j: int| 0 <= j < t.len() implies t[j] != 'p' by {
        assert(crate::num::is_digit(t[j]));
    }
    lemma_first_index(t, 'p');
}

/// The id of pane `i` reads back as that pane.
proof fn lemma_pane_index_of_id(i: nat)
    ensures
        pane_index_spec(seq!['p'] + nat_text(i)) == Some(i),
        pane_id_shaped(seq!['p'] + nat_text(i)),
{
    crate::num::lemma_nat_text(i);
    let s = seq!['p'] + nat_text(i);
    assert(s.drop_first() =~= nat_text(i));
}

/// A window id splits into its window and the pane id within it.
proof fn lemma_split_window_of_id(w: nat, i: nat)
    requires
        0 < w <= usize::MAX,
    ensures
        split_window_spec(pane_id_spec(w, i)) == (Some(w), seq!['p'] + nat_text(i)),
{
    let s = pane_id_spec(w, i);
    let t = s.drop_first();
    let wt = nat_text(w);
    crate::num::lemma_nat_text(w);
    lemma_nat_text_has_no_p(w);
    lemma_pane_index_of_id(i);
    assert(t =~= wt + (seq!['p'] + nat_text(i)));
    lemma_first_index(t, 'p');
    lemma_first_index(wt, 'p');
    let k = wt.len() as int;
    assert(t[k] == 'p');
    match first_index(t, 'p') {
        Some(j) => {
            if j < k {
                assert(t[j] == wt[j]);
            }
            assert(j == k);
            assert(t.subrange(0, k) =~= wt);
            assert(t.subrange(k, t.len() as int) =~= seq!['p'] + nat_text(i));
        },
        None => {
            assert(false);
        },
    }
}

/// Every pane the roster lists is reachable by the id it is listed under:
/// an ask for `w1p0` lands in the second window, `p3` in the first, and
/// nowhere else.
pub proof fn law_every_listed_pane_is_reachable(cs: Seq<CrewApp>, w: nat, i: nat)
    requires
        w < cs.len(),
        w <= usize::MAX,
        i < cs[w as int].panes@.len(),
    ensures
        canvas_for_spec(cs, pane_id_spec(w, i)) == Some(w as int),
{
    lemma_pane_index_of_id(i);
    if w == 0 {
        let id = pane_id_spec(0, i);
        assert(id[0] == 'p');
        assert(split_window_spec(id) == (None::<nat>, id));
        lemma_first_resolving_first(cs, id);
    } else {
        lemma_split_window_of_id(w, i);
    }
}

/// Entry `k` of the roster is pane `i` of some window `w`, listed under that
/// pane's own id with that pane's own name.
proof fn lemma_roster_entry(cs: Seq<CrewApp>, k: int) -> (wi: (nat, nat))
    requires
        0 <= k < roster_spec(cs).len(),
    ensures
        wi.0 < cs.len(),
        wi.1 < cs[wi.0 as int].panes@.len(),
        roster_spec(cs)[k] == (pane_id_spec(wi.0, wi.1), cs[wi.0 as int].panes@[wi.1 as int].name),
    decreases cs.len(),
{
    let pre = roster_spec(cs.drop_last());
    if k < pre.len() {
        let wi = lemma_roster_entry(cs.drop_last(), k);
        assert(cs.drop_last()[wi.0 as int] == cs[wi.0 as int]);
        wi
    } else {
        let w = (cs.len() - 1) as nat;
        let i = (k - pre.len()) as nat;
        assert(cs.last() == cs[w as int]);
        (w, i)
    }
}

/// Every roster entry names the pane its id reaches: asking for the id an
/// entry is listed under lands on a pane, and that pane is called what the
/// entry says.
pub proof fn law_roster_names_the_pane_its_id_reaches(cs: Seq<CrewApp>, k: int)
    requires
        cs.len() <= usize::MAX,
        0 <= k < roster_spec(cs).len(),
    ensures
        match canvas_for_spec(cs, roster_spec(cs)[k].0) {
            Some(w) => 0 <= w < cs.len() && match resolve_spec(cs[w].panes@, split_window_spec(roster_spec(cs)[k].0).1) {
                Some(i) => 0 <= i < cs[w].panes@.len() && cs[w].panes@[i].name == roster_spec(cs)[k].1,
                None => false,
            },
            None => false,
        },
{
    let (w, i) = lemma_roster_entry(cs, k);
    law_every_listed_pane_is_reachable(cs, w, i);
    lemma_pane_index_of_id(i);
    if w == 0 {
        let id = pane_id_spec(0, i);
        assert(id[0] == 'p');
        assert(split_window_spec(id) == (None::<nat>, id));
    } else {
        lemma_split_window_of_id(w, i);
    }
}

/// When the first canvas resolves `rest`, it is the one asked.
proof fn lemma_first_resolving_first(cs: Seq<CrewApp>, rest: Seq<char>)
    requires
        cs.len() > 0,
        resolve_spec(cs[0].panes@, rest) is Some,
    ensures
        first_resolving(cs, rest) == Some(0int),
    decreases cs.len(),
{
    if cs.len() > 1 {
        assert(cs.drop_last()[0] == cs[0]);
        lemma_first_resolving_first(cs.drop_last(), rest);
    } else {
        assert(cs.last() == cs[0]);
        assert(cs.drop_last().len() == 0);
        assert(first_resolving(cs.drop_last(), rest) is None);
    }
}

} // verus!

verus! {

/// Panes across the groups of `gs`.
pub open spec fn grouped_total(gs: Seq<(usize, Seq<SavedPane>)>) -> nat
    decreases gs.len(),
{
    if gs.len() == 0 {
        0
    } else {
        grouped_total(gs.drop_last()) + gs.last().1.len()
    }
}

proof fn lemma_grouped_total_update(gs: Seq<(usize, Seq<SavedPane>)>, j: int, g: (usize, Seq<SavedPane>))
    requires
        0 <= j < gs.len(),
    ensures
        grouped_total(gs.update(j, g)) == grouped_total(gs) - gs[j].1.len() + g.1.len(),
    decreases gs.len(),
{
    let u = gs.update(j, g);
    if j < gs.len() - 1 {
        assert(u.drop_last() == gs.drop_last().update(j, g));
        lemma_grouped_total_update(gs.drop_last(), j, g);
    } else {
        assert(u.drop_last() == gs.drop_last());
    }
}

/// Restoring a session by windows keeps every pane exactly once: the groups
/// together hold as many panes as the file did, each group is one window's
/// and non-empty, and no window is split across two groups.
pub proof fn law_split_windows_keeps_every_pane(ps: Seq<SavedPane>)
    ensures
        grouped_total(group_windows(ps)) == ps.len(),
        forall|j: int| 0 <= j < group_windows(ps).len() ==> (#[trigger] group_windows(ps)[j]).1.len() > 0,
        forall|j: int, m: int|
            0 <= j < group_windows(ps).len() && 0 <= m < group_windows(ps)[j].1.len() ==> (
            #[trigger] group_windows(ps)[j].1[m]).window == group_windows(ps)[j].0,
        forall|j: int, k: int|
            0 <= j < k < group_windows(ps).len() ==> (#[trigger] group_windows(ps)[j]).0 != (
            #[trigger] group_windows(ps)[k]).0,
    decreases ps.len(),
{
    if ps.len() > 0 {
        let d = ps.drop_last();
        law_split_windows_keeps_every_pane(d);
        let g = group_windows(d);
        let p = ps.last();
        lemma_group_at(g, p.window);
        let r = group_windows(ps);
        match group_at(g, p.window) {
            Some(j) => {
                lemma_grouped_total_update(g, j, (g[j].0, g[j].1.push(p)));
                assert forall|a: int, m: int| 0 <= a < r.len() && 0 <= m < r[a].1.len() implies (
                #[trigger] r[a].1[m]).window == r[a].0 by {
                    if a == j && m == r[a].1.len() - 1 {
                    } else if a == j {
                        assert(r[a].1[m] == g[a].1[m]);
                    }
                }
            },
            None => {
                assert(r.drop_last() == g);
                assert forall|a: int, m: int| 0 <= a < r.len() && 0 <= m < r[a].1.len() implies (
                #[trigger] r[a].1[m]).window == r[a].0 by {
                    if a < g.len() {
                        assert(r[a] == g[a]);
                    }
                }
                assert forall|a: int, b: int| 0 <= a < b < r.len() implies (#[trigger] r[a]).0 != (#[trigger] r[b]).0 by {
                    if b < g.len() {
                        assert(r[a] == g[a] && r[b] == g[b]);
                    } else {
                        assert(r[a] == g[a]);
                    }
                }
            },
        }
    }
}


/// A canvas's session panes, stamped with window `w`.
pub open spec fn stamp(s: Seq<SavedPane>, w: usize) -> Seq<SavedPane> {
    Seq::new(s.len(), |k: int| (SavedPane { window: w, ..s[k] }))
}

/// The windows a saved crew comes back as: one group per canvas that had
/// panes to save, in canvas order, each holding that canvas's panes.
pub open spec fn saved_groups(cs: Seq<CrewApp>) -> Seq<(usize, Seq<SavedPane>)>
    decreases cs.len(),
{
    if cs.len() == 0 {
        Seq::empty()
    } else {
        let w = (cs.len() - 1) as usize;
        let g = saved_groups(cs.drop_last());
        if cs.last().session@.len() == 0 {
            g
        } else {
            g.push((w, stamp(cs.last().session@, w)))
        }
    }
}

proof fn lemma_stamped_windows(cs: Seq<CrewApp>)
    requires
        cs.len() <= usize::MAX + 1,
    ensures
        forall|i: int| 0 <= i < stamped(cs).len() ==> (#[trigger] stamped(cs)[i]).window < cs.len(),
    decreases cs.len(),
{
    if cs.len() > 0 {
        lemma_stamped_windows(cs.drop_last());
        let a = stamped(cs.drop_last());
        assert forall|i: int| 0 <= i < stamped(cs).len() implies (#[trigger] stamped(cs)[i]).window
            < cs.len() by {
            if i < a.len() {
                assert(stamped(cs)[i] == a[i]);
            }
        }
    }
}

proof fn lemma_group_keys_below(ps: Seq<SavedPane>, w: usize)
    requires
        forall|i: int| 0 <= i < ps.len() ==> (#[trigger] ps[i]).window < w,
    ensures
        forall|j: int| 0 <= j < group_windows(ps).len() ==> (#[trigger] group_windows(ps)[j]).0 < w,
    decreases ps.len(),
{
    if ps.len() > 0 {
        let d = ps.drop_last();
        assert forall|i: int| 0 <= i < d.len() implies (#[trigger] d[i]).window < w by {
            assert(d[i] == ps[i]);
        }
        lemma_group_keys_below(d, w);
        let g = group_windows(d);
        let p = ps.last();
        assert(p.window < w);
        lemma_group_at(g, p.window);
        let r = group_windows(ps);
        assert forall|j: int| 0 <= j < r.len() implies (#[trigger] r[j]).0 < w by {
            if j < g.len() {
                assert(r[j].0 == g[j].0);
            }
        }
    }
}

proof fn lemma_group_append(a: Seq<SavedPane>, s: Seq<SavedPane>, w: usize)
    requires
        s.len() > 0,
        forall|i: int| 0 <= i < a.len() ==> (#[trigger] a[i]).window < w,
        forall|i: int| 0 <= i < s.len() ==> (#[trigger] s[i]).window == w,
    ensures
        group_windows(a + s) == group_windows(a).push((w, s)),
    decreases s.len(),
{
    lemma_group_keys_below(a, w);
    let g = group_windows(a);
    let whole = a + s;
    if s.len() == 1 {
        assert(whole.drop_last() =~= a);
        assert(whole.last() == s[0]);
        lemma_group_at(g, w);
        assert(seq![s[0]] =~= s);
    } else {
        let t = s.drop_last();
        assert forall|i: int| 0 <= i < t.len() implies (#[trigger] t[i]).window == w by {
            assert(t[i] == s[i]);
        }
        lemma_group_append(a, t, w);
        assert(whole.drop_last() =~= a + t);
        assert(whole.last() == s.last());
        let h = g.push((w, t));
        lemma_group_at(h, w);
        assert(h[g.len() as int].0 == w);
        assert forall|k: int| 0 <= k < g.len() implies (#[trigger] h[k]).0 != w by {
            assert(h[k] == g[k]);
        }
        assert(group_at(h, w) == Some(g.len() as int));
        assert(t.push(s.last()) =~= s);
        assert(h.update(g.len() as int, (h[g.len() as int].0, h[g.len() as int].1.push(s.last())))
            =~= g.push((w, s)));
    }
}

/// Saving and restoring gives every window back its own panes: the session
/// `save_all` writes splits, window by window, into exactly the canvases
/// that had panes, in order, each with its own panes stamped with its own
/// window.
pub proof fn law_a_saved_crew_restores_window_by_window(cs: Seq<CrewApp>)
    requires
        cs.len() <= usize::MAX + 1,
    ensures
        group_windows(stamped(cs)) == saved_groups(cs),
    decreases cs.len(),
{
    if cs.len() > 0 {
        let init = cs.drop_last();
        law_a_saved_crew_restores_window_by_window(init);
        let w = (cs.len() - 1) as usize;
        let s = stamp(cs.last().session@, w);
        assert(stamped(cs) =~= stamped(init) + s);
        if cs.last().session@.len() == 0 {
            assert(stamped(cs) =~= stamped(init));
        } else {
            lemma_stamped_windows(init);
            lemma_group_append(stamped(init), s, w);
        }
    }
}
} // verus!
