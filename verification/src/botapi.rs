//! Reading the Bot API's `getUpdates` response: a JSON document, held as a
//! plain tree, from which the text messages are pulled. Tolerant by design:
//! one unexpected update shape must not stop the ones around it.
use vstd::prelude::*;
use crate::telegram::Update;
use crate::text::str_eq;

verus! {

/// A JSON value as the response parser reads it. A number keeps only what
/// the parser asks of it: its value when it is an integer that fits `i64`.
pub enum Json {
    Null,
    Bool(bool),
    Number(Option<i64>),
    Str(String),
    Array(Vec<Json>),
    Object(Vec<(String, Json)>),
}

/// The value under `key` among an object's members (the first such member).
pub open spec fn lookup(members: Seq<(String, Json)>, key: Seq<char>) -> Option<Json>
    decreases members.len(),
{
    if members.len() == 0 {
        None
    } else if members[0].0@ == key {
        Some(members[0].1)
    } else {
        lookup(members.drop_first(), key)
    }
}

/// `v[key]`, for an object `v`; `None` for anything else.
pub open spec fn field(v: Json, key: Seq<char>) -> Option<Json> {
    match v {
        Json::Object(members) => lookup(members@, key),
        _ => None,
    }
}

/// The integer a value holds, when it holds one that fits `i64`.
pub open spec fn int_of(v: Option<Json>) -> Option<i64> {
    match v {
        Some(Json::Number(n)) => n,
        _ => None,
    }
}

/// The string a value holds.
pub open spec fn str_of(v: Option<Json>) -> Option<Seq<char>> {
    match v {
        Some(Json::Str(s)) => Some(s@),
        _ => None,
    }
}

/// `v[key]` where `v` may itself be missing.
pub open spec fn field_of(v: Option<Json>, key: Seq<char>) -> Option<Json> {
    match v {
        Some(j) => field(j, key),
        None => None,
    }
}

/// One update as a text message `(update_id, chat id, text)`, or `None`
/// when it is anything else (a join, an edit, a photo).
pub open spec fn update_of(u: Json) -> Option<(i64, i64, Seq<char>)> {
    let id = int_of(field(u, "update_id"@));
    let msg = field(u, "message"@);
    let chat = int_of(field_of(field_of(msg, "chat"@), "id"@));
    let text = str_of(field_of(msg, "text"@));
    if id is Some && msg is Some && chat is Some && text is Some {
        Some((id->0, chat->0, text->0))
    } else {
        None
    }
}

/// The text messages among `items[..n]`, in order.
pub open spec fn updates_upto(items: Seq<Json>, n: int) -> Seq<(i64, i64, Seq<char>)>
    decreases n,
{
    if n <= 0 || n > items.len() {
        Seq::empty()
    } else {
        let r = updates_upto(items, n - 1);
        match update_of(items[n - 1]) {
            Some(t) => r.push(t),
            None => r,
        }
    }
}

/// The text messages a `getUpdates` response carries: none unless it has a
/// `result` array.
pub open spec fn parse_spec(v: Json) -> Seq<(i64, i64, Seq<char>)> {
    match field(v, "result"@) {
        Some(Json::Array(items)) => updates_upto(items@, items@.len() as int),
        _ => Seq::empty(),
    }
}

/// An update, as the triple the response spec speaks of.
pub open spec fn triple(u: Update) -> (i64, i64, Seq<char>) {
    (u.update_id, u.chat_id, u.text@)
}

/// `v[key]`, for an object `v`.
pub fn get<'a>(v: &'a Json, key: &str) -> (r: Option<&'a Json>)
    ensures
        match field(*v, key@) {
            Some(j) => r matches Some(x) && *x == j,
            None => r is None,
        },
{
    match v {
        Json::Object(members) => {
            let mut i: usize = 0;
            assert(members@.subrange(0, members@.len() as int) =~= members@);
            while i < members.len()
                invariant
                    i <= members@.len(),
                    field(*v, key@) == lookup(members@, key@),
                    lookup(members@, key@) == lookup(members@.subrange(i as int, members@.len() as int), key@),
                decreases members@.len() - i,
            {
                let ghost rest = members@.subrange(i as int, members@.len() as int);
                assert(rest.drop_first() =~= members@.subrange(i + 1, members@.len() as int));
                assert(rest[0] == members@[i as int]);
                if str_eq(members[i].0.as_str(), key) {
                    assert(rest.len() > 0 && rest[0].0@ == key@);
                    assert(lookup(rest, key@) == Some(members@[i as int].1));
                    return Some(&members[i].1);
                }
                i = i + 1;
            }
            None
        },
        _ => None,
    }
}

fn as_i64(v: Option<&Json>) -> (r: Option<i64>)
    ensures
        r == int_of(match v {
            Some(j) => Some(*j),
            None => None,
        }),
{
    match v {
        Some(Json::Number(n)) => *n,
        _ => None,
    }
}

fn as_text(v: Option<&Json>) -> (r: Option<String>)
    ensures
        match str_of(match v {
            Some(j) => Some(*j),
            None => None,
        }) {
            Some(s) => r matches Some(t) && t@ == s,
            None => r is None,
        },
{
    match v {
        Some(Json::Str(s)) => Some(s.clone()),
        _ => None,
    }
}

fn get_in<'a>(v: Option<&'a Json>, key: &str) -> (r: Option<&'a Json>)
    ensures
        match field_of(match v {
            Some(j) => Some(*j),
            None => None,
        }, key@) {
            Some(j) => r matches Some(x) && *x == j,
            None => r is None,
        },
{
    match v {
        Some(j) => get(j, key),
        None => None,
    }
}

/// One update's text message, if it is one.
fn update_from(u: &Json) -> (r: Option<Update>)
    ensures
        match update_of(*u) {
            Some(t) => r matches Some(x) && triple(x) == t,
            None => r is None,
        },
{
    proof {
        reveal_strlit("update_id");
        reveal_strlit("message");
        reveal_strlit("chat");
        reveal_strlit("id");
        reveal_strlit("text");
    }
    let id = as_i64(get(u, "update_id"));
    let msg = get(u, "message");
    let chat = as_i64(get_in(get_in(msg, "chat"), "id"));
    let text = as_text(get_in(msg, "text"));
    match (id, msg, chat, text) {
        (Some(update_id), Some(_), Some(chat_id), Some(text)) => Some(Update { update_id, chat_id, text }),
        _ => None,
    }
}

/// Pull the message updates out of a `getUpdates` response, skipping
/// anything that is not a text message (joins, edits, photos).
pub fn parse_updates(v: &Json) -> (r: Vec<Update>)
    ensures
        r@.map_values(|u: Update| triple(u)) == parse_spec(*v),
{
    let items = match get(v, "result") {
        Some(Json::Array(items)) => items,
        _ => return Vec::new(),
    };
    let mut out: Vec<Update> = Vec::new();
    let mut i: usize = 0;
    while i < items.len()
        invariant
            i <= items@.len(),
            field(*v, "result"@) == Some(Json::Array(*items)),
            out@.map_values(|u: Update| triple(u)) == updates_upto(items@, i as int),
        decreases items@.len() - i,
    {
        let ghost before = out@;
        match update_from(&items[i]) {
            Some(u) => {
                out.push(u);
                assert(out@.map_values(|u: Update| triple(u)) =~= before.map_values(
                    |u: Update| triple(u),
                ).push(triple(out@.last())));
            },
            None => {},
        }
        i = i + 1;
    }
    out
}

proof fn lemma_updates_concat(a: Seq<Json>, b: Seq<Json>)
    ensures
        updates_upto(a + b, (a + b).len() as int) == updates_upto(a, a.len() as int) + updates_upto(
            b,
            b.len() as int,
        ),
    decreases b.len(),
{
    if b.len() == 0 {
        assert(a + b =~= a);
    } else {
        let bl = b.drop_last();
        lemma_updates_concat(a, bl);
        lemma_updates_prefix(a + b, (a + b).len() - 1);
        lemma_updates_prefix(b, b.len() - 1);
        assert((a + b).subrange(0, (a + b).len() - 1) =~= a + bl);
        assert(b.subrange(0, b.len() - 1) =~= bl);
        assert((a + b)[(a + b).len() - 1] == b[b.len() - 1]);
        match update_of(b[b.len() - 1]) {
            Some(t) => {
                assert(updates_upto(a, a.len() as int) + updates_upto(bl, bl.len() as int).push(t)
                    =~= (updates_upto(a, a.len() as int) + updates_upto(bl, bl.len() as int)).push(t));
            },
            None => {},
        }
    }
}

/// The messages among the first `n` items only look at those items.
proof fn lemma_updates_prefix(items: Seq<Json>, n: int)
    requires
        0 <= n <= items.len(),
    ensures
        updates_upto(items, n) == updates_upto(items.subrange(0, n), n),
    decreases n,
{
    if n > 0 {
        lemma_updates_prefix(items, n - 1);
        lemma_updates_prefix(items.subrange(0, n), n - 1);
        assert(items.subrange(0, n).subrange(0, n - 1) =~= items.subrange(0, n - 1));
        assert(items.subrange(0, n)[n - 1] == items[n - 1]);
    }
}

/// An update that is not a text message (a join, an edit, a photo) takes
/// nothing from the ones around it: inserted anywhere among the updates, it
/// leaves the parsed messages exactly as they were.
pub proof fn law_a_stray_update_loses_no_neighbours(items: Seq<Json>, k: int, stray: Json)
    requires
        0 <= k <= items.len(),
        update_of(stray) is None,
    ensures
        updates_upto(items.insert(k, stray), items.len() + 1int) == updates_upto(
            items,
            items.len() as int,
        ),
{
    let front = items.subrange(0, k);
    let back = items.subrange(k, items.len() as int);
    assert(items.insert(k, stray) =~= front + seq![stray] + back);
    assert(items =~= front + back);
    lemma_updates_concat(front + seq![stray], back);
    lemma_updates_concat(front, seq![stray]);
    lemma_updates_concat(front, back);
    assert(updates_upto(seq![stray], 1) =~= Seq::<(i64, i64, Seq<char>)>::empty()) by {
        assert(seq![stray][0] == stray);
        assert(updates_upto(seq![stray], 0) =~= Seq::<(i64, i64, Seq<char>)>::empty());
    }
    assert(updates_upto(front, front.len() as int) + Seq::<(i64, i64, Seq<char>)>::empty()
        =~= updates_upto(front, front.len() as int));
}

} // verus!
