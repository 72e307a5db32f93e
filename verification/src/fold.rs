//! Auto-folding for system and telemetry cards: a long system-voice card
//! renders collapsed (header, first body line, ` … +N`) until clicked open,
//! and a click is resolved to a card line through the transcript's
//! bottom-anchored window.
use vstd::prelude::*;
use crate::message::{is_splash, is_system_voice, is_tool_card, splash, system_voice, tool_card, Message};

verus! {

/// Body lines a system-voice card may show before it auto-folds.
pub const FOLD_LINES: usize = 3;

/// Body lines a card may show before it folds, or `None` if it never folds:
/// the splash never does, a tool card folds past one line, the system voice
/// past [`FOLD_LINES`], and what an agent or the user said never folds.
pub open spec fn threshold_spec(m: Message) -> Option<usize> {
    if splash(m) {
        None
    } else if tool_card(m) {
        Some(1)
    } else if system_voice(m.sender@) {
        Some(FOLD_LINES)
    } else {
        None
    }
}

pub fn fold_threshold(m: &Message) -> (r: Option<usize>)
    ensures
        r == threshold_spec(*m),
{
    if is_splash(m) {
        return None;
    }
    if is_tool_card(m) {
        return Some(1);
    }
    if is_system_voice(m.sender.as_str()) {
        Some(FOLD_LINES)
    } else {
        None
    }
}

/// Whether a card with `body_len` full body lines renders folded right now:
/// it has a threshold, is longer than it, and has not been clicked open.
pub open spec fn folded_spec(m: Message, body_len: int) -> bool {
    !m.expanded && match threshold_spec(m) {
        Some(t) => body_len > t,
        None => false,
    }
}

pub fn folded(m: &Message, body_len: usize) -> (b: bool)
    ensures
        b == folded_spec(*m, body_len as int),
{
    if m.expanded {
        return false;
    }
    match fold_threshold(m) {
        Some(t) => body_len > t,
        None => false,
    }
}

/// Whether a card is fold-toggleable at all — [`folded`] without the
/// clicked-open override — measured against the card's FULL body of
/// `body_len` lines (a rendered, possibly clamped card no longer knows its
/// real length).
pub open spec fn foldable_spec(m: Message, body_len: int) -> bool {
    match threshold_spec(m) {
        Some(t) => body_len > t,
        None => false,
    }
}

pub fn foldable(m: &Message, body_len: usize) -> (b: bool)
    ensures
        b == foldable_spec(*m, body_len as int),
{
    match fold_threshold(m) {
        Some(t) => body_len > t,
        None => false,
    }
}

/// One threshold decides both what the frame draws and what a click may
/// toggle: a card renders folded exactly when it is foldable and has not
/// been clicked open, so no card is ever folded with no way to open it.
pub proof fn law_a_folded_card_can_always_be_opened(m: Message, body_len: int)
    ensures
        folded_spec(m, body_len) <==> (foldable_spec(m, body_len) && !m.expanded),
{
}

/// The blank rows above a transcript of `total` lines in a `rows`-row
/// window: a transcript shorter than its window sits on the bottom of it.
pub open spec fn top_pad_spec(total: int, rows: int) -> int {
    if total < rows {
        rows - total
    } else {
        0
    }
}

pub fn top_pad(total: usize, rows: u16) -> (r: u16)
    ensures
        r == top_pad_spec(total as int, rows as int),
{
    if total < rows as usize {
        rows - (total as u16)
    } else {
        0
    }
}

/// The first line of a `rows`-row window over `total` lines, scrolled
/// `scroll` lines up from the live bottom (clamped at the top).
pub open spec fn window_start(total: int, rows: int, scroll: int) -> int {
    let bottom = if total > rows {
        total - rows
    } else {
        0
    };
    if bottom > scroll {
        bottom - scroll
    } else {
        0
    }
}

/// How many lines that window shows.
pub open spec fn window_shown(total: int, rows: int, scroll: int) -> int {
    let start = window_start(total, rows, scroll);
    (if total < start + rows {
        total
    } else {
        start + rows
    }) - start
}

/// The card-line index at absolute pane `row`, under the bottom-anchored
/// windowing the transcript draws with (`total` lines into `rows` rows
/// starting at `top`, scrolled `scroll` up from the live bottom). `None`
/// outside the message area.
pub open spec fn line_index_spec(total: int, rows: int, top: int, scroll: int, row: int) -> Option<int> {
    let start = window_start(total, rows, scroll);
    let first = top + top_pad_spec(total, rows);
    if row >= first && row - first < window_shown(total, rows, scroll) {
        Some(start + (row - first))
    } else {
        None
    }
}

pub fn line_index_at(total: usize, rows: u16, top: u16, scroll: usize, row: u16) -> (r: Option<usize>)
    requires
        top + top_pad_spec(total as int, rows as int) <= u16::MAX,
    ensures
        match line_index_spec(total as int, rows as int, top as int, scroll as int, row as int) {
            Some(i) => r == Some(i as usize),
            None => r is None,
        },
{
    let start = total.saturating_sub(rows as usize).saturating_sub(scroll);
    let end = if total < start + rows as usize {
        total
    } else {
        start + rows as usize
    };
    let shown = end - start;
    let first = top + top_pad(total, rows);
    if row < first {
        return None;
    }
    let offset = (row - first) as usize;
    if offset < shown {
        Some(start + offset)
    } else {
        None
    }
}

/// A click resolves to a line the window actually shows, and each shown
/// row resolves to its own line: the row `first + k` of the window is line
/// `start + k`, for every `k` the window shows, and every other row is
/// outside the message area.
pub proof fn law_each_shown_row_is_its_own_line(total: int, rows: int, top: int, scroll: int, row: int)
    requires
        0 <= total,
        0 <= rows,
        0 <= scroll,
    ensures
        match line_index_spec(total, rows, top, scroll, row) {
            Some(i) => {
                &&& window_start(total, rows, scroll) <= i < total
                &&& row == top + top_pad_spec(total, rows) + (i - window_start(total, rows, scroll))
            },
            None => true,
        },
        line_index_spec(total, rows, top, scroll, row) is None <==> (row < top + top_pad_spec(
            total,
            rows,
        ) || row >= top + top_pad_spec(total, rows) + window_shown(total, rows, scroll)),
        window_shown(total, rows, scroll) <= rows,
{
}

/// The first of `spans` (each `start..end`, in line indices) holding line
/// `idx`.
pub open spec fn span_of(spans: Seq<(usize, usize)>, idx: int) -> Option<int>
    decreases spans.len(),
{
    if spans.len() == 0 {
        None
    } else {
        match span_of(spans.drop_last(), idx) {
            Some(j) => Some(j),
            None => if spans.last().0 <= idx < spans.last().1 {
                Some(spans.len() - 1)
            } else {
                None
            },
        }
    }
}

/// The card a click at absolute `row` toggles the fold of, if any. Tiny
/// panes (no columns, no rows, no cards, no status row) use a plain layout
/// with no cards; an open popup overlays the transcript and owns the click;
/// the compact view wins outright. Otherwise the row is resolved through the
/// transcript window to a line and the card whose span holds it: a folded
/// card opens from anywhere on it, an open one folds back only from its
/// header line, and a card that cannot fold is inert.
pub open spec fn toggle_spec(
    total: int,
    spans: Seq<(usize, usize)>,
    foldable: Seq<bool>,
    expanded: Seq<bool>,
    cols: int,
    rows: int,
    budget: int,
    top: int,
    scroll: int,
    row: int,
    popup_open: bool,
    compact: bool,
) -> Option<int> {
    if cols == 0 || rows == 0 || spans.len() == 0 || top == 0 || popup_open || compact {
        None
    } else {
        match line_index_spec(total, budget, top, scroll, row) {
            None => None,
            Some(idx) => match span_of(spans, idx) {
                None => None,
                Some(mi) => if foldable[mi] && (!expanded[mi] || idx == spans[mi].0) {
                    Some(mi)
                } else {
                    None
                },
            },
        }
    }
}

pub fn toggle_target(
    total: usize,
    spans: &[(usize, usize)],
    foldable: &[bool],
    expanded: &[bool],
    cols: u16,
    rows: u16,
    budget: u16,
    top: u16,
    scroll: usize,
    row: u16,
    popup_open: bool,
    compact: bool,
) -> (r: Option<usize>)
    requires
        foldable@.len() == spans@.len(),
        expanded@.len() == spans@.len(),
        top + top_pad_spec(total as int, budget as int) <= u16::MAX,
    ensures
        match toggle_spec(
            total as int,
            spans@,
            foldable@,
            expanded@,
            cols as int,
            rows as int,
            budget as int,
            top as int,
            scroll as int,
            row as int,
            popup_open,
            compact,
        ) {
            Some(mi) => r matches Some(k) && k == mi,
            None => r is None,
        },
{
    if cols == 0 || rows == 0 || spans.len() == 0 || top == 0 {
        return None;
    }
    if popup_open || compact {
        return None;
    }
    let idx = match line_index_at(total, budget, top, scroll, row) {
        Some(i) => i,
        None => return None,
    };
    let mut mi: usize = 0;
    while mi < spans.len() && !(spans[mi].0 <= idx && idx < spans[mi].1)
        invariant
            mi <= spans@.len(),
            span_of(spans@.subrange(0, mi as int), idx as int) is None,
        decreases spans@.len() - mi,
    {
        assert(spans@.subrange(0, mi + 1).drop_last() =~= spans@.subrange(0, mi as int));
        mi = mi + 1;
    }
    if mi == spans.len() {
        assert(spans@.subrange(0, mi as int) =~= spans@);
        return None;
    }
    proof {
        lemma_span_of_prefix(spans@, idx as int, mi as int + 1);
        assert(spans@.subrange(0, mi + 1).drop_last() =~= spans@.subrange(0, mi as int));
    }
    if !foldable[mi] {
        return None;
    }
    if !expanded[mi] || idx == spans[mi].0 {
        Some(mi)
    } else {
        None
    }
}

/// Toggle the fold of the card a click at absolute `row` hits: the card
/// [`toggle_target`] resolves has its `expanded` flag flipped, and nothing
/// else changes. `true` when a card actually toggled.
pub fn toggle_fold_at(
    total: usize,
    spans: &[(usize, usize)],
    foldable: &[bool],
    expanded: &mut Vec<bool>,
    cols: u16,
    rows: u16,
    budget: u16,
    top: u16,
    scroll: usize,
    row: u16,
    popup_open: bool,
    compact: bool,
) -> (r: bool)
    requires
        foldable@.len() == spans@.len(),
        old(expanded)@.len() == spans@.len(),
        top + top_pad_spec(total as int, budget as int) <= u16::MAX,
    ensures
        match toggle_spec(
            total as int,
            spans@,
            foldable@,
            old(expanded)@,
            cols as int,
            rows as int,
            budget as int,
            top as int,
            scroll as int,
            row as int,
            popup_open,
            compact,
        ) {
            Some(mi) => r && final(expanded)@ == old(expanded)@.update(mi, !old(expanded)@[mi]),
            None => !r && final(expanded)@ == old(expanded)@,
        },
{
    let hit = toggle_target(
        total,
        spans,
        foldable,
        expanded.as_slice(),
        cols,
        rows,
        budget,
        top,
        scroll,
        row,
        popup_open,
        compact,
    );
    match hit {
        Some(mi) => {
            proof {
                lemma_toggle_in_range(
                    total as int,
                    spans@,
                    foldable@,
                    expanded@,
                    cols as int,
                    rows as int,
                    budget as int,
                    top as int,
                    scroll as int,
                    row as int,
                    popup_open,
                    compact,
                );
            }
            let was = expanded[mi];
            expanded.set(mi, !was);
            true
        },
        None => false,
    }
}

proof fn lemma_span_of_in_range(spans: Seq<(usize, usize)>, idx: int)
    ensures
        span_of(spans, idx) matches Some(j) ==> 0 <= j < spans.len(),
    decreases spans.len(),
{
    if spans.len() > 0 {
        lemma_span_of_in_range(spans.drop_last(), idx);
    }
}

proof fn lemma_toggle_in_range(
    total: int,
    spans: Seq<(usize, usize)>,
    foldable: Seq<bool>,
    expanded: Seq<bool>,
    cols: int,
    rows: int,
    budget: int,
    top: int,
    scroll: int,
    row: int,
    popup_open: bool,
    compact: bool,
)
    ensures
        toggle_spec(total, spans, foldable, expanded, cols, rows, budget, top, scroll, row, popup_open, compact)
            matches Some(mi) ==> 0 <= mi < spans.len(),
{
    match line_index_spec(total, budget, top, scroll, row) {
        Some(idx) => lemma_span_of_in_range(spans, idx),
        None => {},
    }
}

/// A span found in a prefix is found at the same place in the whole.
proof fn lemma_span_of_prefix(spans: Seq<(usize, usize)>, idx: int, k: int)
    requires
        0 <= k <= spans.len(),
        span_of(spans.subrange(0, k), idx) is Some,
    ensures
        span_of(spans, idx) == span_of(spans.subrange(0, k), idx),
    decreases spans.len() - k,
{
    if k < spans.len() {
        assert(spans.subrange(0, k + 1).drop_last() =~= spans.subrange(0, k));
        lemma_span_of_prefix(spans, idx, k + 1);
    } else {
        assert(spans.subrange(0, k) =~= spans);
    }
}

/// The mouse-release half of a fold click: the press remembered a
/// candidate `(pane, row)` instead of toggling (so starting a drag on a
/// folded card cannot open it mid-gesture). The candidate is consumed either
/// way; it is returned for toggling only when the gesture stayed a plain
/// click.
pub fn fold_release(click: &mut Option<(usize, u16)>, dragged: bool) -> (r: Option<(usize, u16)>)
    ensures
        final(click).is_none(),
        r == (if dragged { None } else { *old(click) }),
{
    let c = click.take();
    if dragged {
        None
    } else {
        c
    }
}

} // verus!
