//! Tab-completion for the crew composer: `@ag<Tab>` completes agent names
//! (including the segment after a `+` in multi-target selectors) and
//! `/lo<Tab>` completes construct names. Prefix matching comes first and
//! extends to the candidates' common prefix; when no name starts with what
//! was typed, an unambiguous subsequence match stands in. Letters match
//! without regard to ASCII case.
use vstd::prelude::*;
use crate::text::{char_is_ws, chars_of, is_ws, string_of};

verus! {

/// An agent on the crew's roster, as the completer sees it.
pub struct AgentInfo {
    pub name: String,
    pub role: String,
    pub model: String,
}

/// Every composer slash action: broker constructs plus the pane-local
/// `/export`, `/theme`, and `/exit`.
pub const CONSTRUCTS: [&'static str; 12] = [
    "/help",
    "/model",
    "/login",
    "/logout",
    "/restore",
    "/diff",
    "/doctor",
    "/reload",
    "/stop",
    "/export",
    "/theme",
    "/exit",
];

/// Hints that belong to the pane rather than to the broker: the three
/// pane-local constructs the broker has never heard of, plus the two where
/// standing in the pane changes what is worth saying.
pub const PANE_WORDS: [(&'static str, &'static str); 5] = [
    ("/help", "list the constructs"),
    ("/model", "the roster and each agent's model (set one: /model <agent> <model>)"),
    ("/export", "export the transcript"),
    ("/theme", "list or switch the color theme"),
    ("/exit", "close this pane"),
];

/// `c` with an ASCII capital taken to its small letter.
pub open spec fn fold(c: char) -> char {
    if 'A' <= c && c <= 'Z' {
        ((c as u32) + 32) as char
    } else {
        c
    }
}

fn fold_char(c: char) -> (r: char)
    ensures
        r == fold(c),
{
    if 'A' <= c && c <= 'Z' {
        let u: u32 = (c as u32) + 32;
        assert(u == 'a' as u32 + (c as u32 - 'A' as u32));
        char_of_ascii(u)
    } else {
        c
    }
}

fn char_of_ascii(u: u32) -> (r: char)
    requires
        'a' as u32 <= u <= 'z' as u32,
    ensures
        r == u as char,
{
    let b: u8 = u as u8;
    b as char
}

/// The text views of a list of names.
pub open spec fn views(names: Seq<&str>) -> Seq<Seq<char>> {
    names.map_values(|s: &str| s@)
}

/// Whether `name` starts with `part`, letters matched without case.
pub open spec fn prefix_ci(name: Seq<char>, part: Seq<char>) -> bool {
    part.len() <= name.len() && forall|i: int| 0 <= i < part.len() ==> fold(#[trigger] name[i])
        == fold(part[i])
}

fn starts_ci(name: &[char], part: &[char]) -> (b: bool)
    ensures
        b == prefix_ci(name@, part@),
{
    if part.len() > name.len() {
        return false;
    }
    let mut i: usize = 0;
    while i < part.len()
        invariant
            i <= part@.len() <= name@.len(),
            forall|k: int| 0 <= k < i ==> fold(#[trigger] name@[k]) == fold(part@[k]),
        decreases part@.len() - i,
    {
        if fold_char(name[i]) != fold_char(part[i]) {
            return false;
        }
        i = i + 1;
    }
    true
}

/// Whether `needle[i..]` can be picked out of `hay[j..]` in order, letters
/// matched without case — the greedy two-pointer reading of "is a
/// subsequence of".
pub open spec fn subseq_from(needle: Seq<char>, hay: Seq<char>, i: int, j: int) -> bool
    decreases hay.len() - j,
{
    if i >= needle.len() {
        true
    } else if j >= hay.len() || j < 0 || i < 0 {
        false
    } else if fold(needle[i]) == fold(hay[j]) {
        subseq_from(needle, hay, i + 1, j + 1)
    } else {
        subseq_from(needle, hay, i, j + 1)
    }
}

/// Whether `needle` is a subsequence of `hay`.
pub open spec fn subsequence(needle: Seq<char>, hay: Seq<char>) -> bool {
    subseq_from(needle, hay, 0, 0)
}

fn subsequence_chars(needle: &[char], hay: &[char]) -> (b: bool)
    ensures
        b == subsequence(needle@, hay@),
{
    let mut i: usize = 0;
    let mut j: usize = 0;
    while i < needle.len() && j < hay.len()
        invariant
            i <= needle@.len(),
            j <= hay@.len(),
            subsequence(needle@, hay@) == subseq_from(needle@, hay@, i as int, j as int),
        decreases hay@.len() - j,
    {
        if fold_char(needle[i]) == fold_char(hay[j]) {
            i = i + 1;
        }
        j = j + 1;
    }
    i >= needle.len()
}

/// Whether the characters of `needle` appear in `hay` in order (not
/// necessarily adjacent), ignoring ASCII case.
pub fn is_subsequence(needle: &str, hay: &str) -> (b: bool)
    ensures
        b == subsequence(needle@, hay@),
{
    let n = chars_of(needle);
    let h = chars_of(hay);
    subsequence_chars(n.as_slice(), h.as_slice())
}

/// The names among the first `n` that start with `part`, in order.
pub open spec fn cands_upto(names: Seq<Seq<char>>, part: Seq<char>, n: int) -> Seq<Seq<char>>
    decreases n,
{
    if n <= 0 || n > names.len() {
        Seq::empty()
    } else {
        let r = cands_upto(names, part, n - 1);
        if prefix_ci(names[n - 1], part) {
            r.push(names[n - 1])
        } else {
            r
        }
    }
}

/// How far `a` and `b` agree from position `i` on: the first position
/// where one ends or they differ.
pub open spec fn lcp_at(a: Seq<char>, b: Seq<char>, i: int) -> int
    decreases a.len() - i,
{
    if i < 0 || i >= a.len() || i >= b.len() || fold(a[i]) != fold(b[i]) {
        i
    } else {
        lcp_at(a, b, i + 1)
    }
}

/// The length of the prefix `first` shares with each of `cs[..n]`.
pub open spec fn common_upto(first: Seq<char>, cs: Seq<Seq<char>>, n: int) -> int
    decreases n,
{
    if n <= 0 || n > cs.len() {
        first.len() as int
    } else {
        let c = common_upto(first, cs, n - 1);
        let l = lcp_at(first, cs[n - 1], 0);
        if l < c {
            l
        } else {
            c
        }
    }
}

/// What prefix matching makes of `part`: the one name it starts (unique),
/// or the candidates' common prefix when that is longer than `part`; `None`
/// when nothing starts with it, or nothing is gained.
pub open spec fn extend_spec(part: Seq<char>, names: Seq<Seq<char>>) -> Option<(Seq<char>, bool)> {
    let cs = cands_upto(names, part, names.len() as int);
    if cs.len() == 0 {
        None
    } else if cs.len() == 1 {
        Some((cs[0], true))
    } else {
        let l = common_upto(cs[0], cs, cs.len() as int);
        if l > part.len() {
            Some((cs[0].subrange(0, l), false))
        } else {
            None
        }
    }
}

proof fn lemma_lcp_at(a: Seq<char>, b: Seq<char>, i: int)
    requires
        0 <= i <= a.len(),
        i <= b.len(),
    ensures
        i <= lcp_at(a, b, i) <= a.len(),
        lcp_at(a, b, i) <= b.len(),
    decreases a.len() - i,
{
    if i < a.len() && i < b.len() && fold(a[i]) == fold(b[i]) {
        lemma_lcp_at(a, b, i + 1);
    }
}

proof fn lemma_common_upto(first: Seq<char>, cs: Seq<Seq<char>>, n: int)
    requires
        0 <= n <= cs.len(),
    ensures
        0 <= common_upto(first, cs, n) <= first.len(),
    decreases n,
{
    if n > 0 {
        lemma_common_upto(first, cs, n - 1);
        lemma_lcp_at(first, cs[n - 1], 0);
    }
}

fn lcp(a: &[char], b: &[char]) -> (r: usize)
    ensures
        r == lcp_at(a@, b@, 0),
{
    let mut i: usize = 0;
    while i < a.len() && i < b.len() && fold_char(a[i]) == fold_char(b[i])
        invariant
            i <= a@.len(),
            i <= b@.len(),
            lcp_at(a@, b@, 0) == lcp_at(a@, b@, i as int),
        decreases a@.len() - i,
    {
        i = i + 1;
    }
    i
}

/// The views of `v`'s character vectors.
pub open spec fn char_views(v: Seq<Vec<char>>) -> Seq<Seq<char>> {
    v.map_values(|c: Vec<char>| c@)
}

/// Complete `part` against `names` by prefix: the unique name it starts
/// (and `true`), or the candidates' common prefix (and `false`) when that
/// adds something.
pub fn extend(part: &str, names: &[&str]) -> (r: Option<(String, bool)>)
    ensures
        match extend_spec(part@, views(names@)) {
            Some((ext, unique)) => r matches Some((s, u)) && s@ == ext && u == unique,
            None => r is None,
        },
{
    let p = chars_of(part);
    let ghost ns = views(names@);
    let mut cs: Vec<Vec<char>> = Vec::new();
    let mut i: usize = 0;
    while i < names.len()
        invariant
            i <= names@.len(),
            ns == views(names@),
            p@ == part@,
            char_views(cs@) == cands_upto(ns, p@, i as int),
        decreases names@.len() - i,
    {
        let c = chars_of(names[i]);
        assert(ns[i as int] == names@[i as int]@);
        if starts_ci(c.as_slice(), p.as_slice()) {
            let ghost before = cs@;
            cs.push(c);
            assert(char_views(cs@) =~= char_views(before).push(c@));
        }
        i = i + 1;
    }
    let ghost cv = char_views(cs@);
    if cs.len() == 0 {
        return None;
    }
    if cs.len() == 1 {
        let s = string_of(cs[0].as_slice());
        return Some((s, true));
    }
    let mut l: usize = cs[0].len();
    let mut k: usize = 0;
    while k < cs.len()
        invariant
            k <= cs@.len(),
            cs@.len() > 1,
            cv == char_views(cs@),
            l == common_upto(cv[0], cv, k as int),
        decreases cs@.len() - k,
    {
        let m = lcp(cs[0].as_slice(), cs[k].as_slice());
        if m < l {
            l = m;
        }
        k = k + 1;
    }
    proof {
        lemma_common_upto(cv[0], cv, cv.len() as int);
    }
    if l > p.len() {
        let mut out: Vec<char> = Vec::new();
        let mut j: usize = 0;
        while j < l
            invariant
                j <= l <= cs@[0]@.len(),
                cs@.len() > 1,
                out@ == cs@[0]@.subrange(0, j as int),
            decreases l - j,
        {
            out.push(cs[0][j]);
            assert(cs@[0]@.subrange(0, j + 1) == cs@[0]@.subrange(0, j as int).push(
                cs@[0]@[j as int],
            ));
            j = j + 1;
        }
        Some((string_of(out.as_slice()), false))
    } else {
        None
    }
}

/// The indices among the first `n` names that `part` is a subsequence of.
pub open spec fn fuzzy_upto(names: Seq<Seq<char>>, part: Seq<char>, n: int) -> Seq<int>
    decreases n,
{
    if n <= 0 || n > names.len() {
        Seq::empty()
    } else {
        let r = fuzzy_upto(names, part, n - 1);
        if subsequence(part, names[n - 1]) {
            r.push(n - 1)
        } else {
            r
        }
    }
}

/// The one name `part` is a subsequence of, when exactly one is.
pub open spec fn fuzzy_spec(part: Seq<char>, names: Seq<Seq<char>>) -> Option<int> {
    let hits = fuzzy_upto(names, part, names.len() as int);
    if hits.len() == 1 {
        Some(hits[0])
    } else {
        None
    }
}

proof fn lemma_fuzzy_upto(names: Seq<Seq<char>>, part: Seq<char>, n: int)
    requires
        0 <= n <= names.len(),
    ensures
        forall|j: int|
            0 <= j < fuzzy_upto(names, part, n).len() ==> 0 <= #[trigger] fuzzy_upto(
                names,
                part,
                n,
            )[j] < n,
    decreases n,
{
    if n > 0 {
        lemma_fuzzy_upto(names, part, n - 1);
        let r = fuzzy_upto(names, part, n - 1);
        assert forall|j: int| 0 <= j < r.push(n - 1).len() implies 0 <= #[trigger] r.push(n - 1)[j]
            < n by {
            if j < r.len() {
                assert(r.push(n - 1)[j] == r[j]);
            }
        }
    }
}

/// The single name `part` fuzzily matches, or `None` when none or several
/// do.
pub fn fuzzy_unique<'a>(part: &str, names: &[&'a str]) -> (r: Option<&'a str>)
    ensures
        match fuzzy_spec(part@, views(names@)) {
            Some(k) => r matches Some(s) && 0 <= k < names@.len() && s@ == names@[k]@,
            None => r is None,
        },
{
    let p = chars_of(part);
    let ghost ns = views(names@);
    let mut hits: Vec<usize> = Vec::new();
    let mut i: usize = 0;
    while i < names.len()
        invariant
            i <= names@.len(),
            ns == views(names@),
            p@ == part@,
            hits@.map_values(|h: usize| h as int) == fuzzy_upto(ns, p@, i as int),
        decreases names@.len() - i,
    {
        let h = chars_of(names[i]);
        assert(ns[i as int] == names@[i as int]@);
        if subsequence_chars(p.as_slice(), h.as_slice()) {
            let ghost before = hits@;
            hits.push(i);
            assert(hits@.map_values(|h: usize| h as int) =~= before.map_values(
                |h: usize| h as int,
            ).push(i as int));
        }
        i = i + 1;
    }
    proof {
        lemma_fuzzy_upto(ns, p@, ns.len() as int);
    }
    if hits.len() == 1 {
        assert(hits@.map_values(|h: usize| h as int)[0] == hits@[0] as int);
        Some(names[hits[0]])
    } else {
        None
    }
}

/// The index of the last `c` in `s`.
pub open spec fn last_index(s: Seq<char>, c: char) -> Option<int>
    decreases s.len(),
{
    if s.len() == 0 {
        None
    } else if s.last() == c {
        Some(s.len() - 1)
    } else {
        last_index(s.drop_last(), c)
    }
}

proof fn lemma_last_index(s: Seq<char>, c: char)
    ensures
        match last_index(s, c) {
            Some(i) => 0 <= i < s.len() && s[i] == c,
            None => true,
        },
    decreases s.len(),
{
    if s.len() > 0 && s.last() != c {
        lemma_last_index(s.drop_last(), c);
    }
}

fn rfind_char(s: &[char], c: char) -> (r: Option<usize>)
    ensures
        match last_index(s@, c) {
            Some(i) => r == Some(i as usize) && 0 <= i < s@.len(),
            None => r is None,
        },
{
    proof {
        lemma_last_index(s@, c);
    }
    let mut n: usize = s.len();
    assert(s@.subrange(0, n as int) =~= s@);
    while n > 0
        invariant
            n <= s@.len(),
            last_index(s@, c) == last_index(s@.subrange(0, n as int), c),
        decreases n,
    {
        if s[n - 1] == c {
            assert(s@.subrange(0, n as int).last() == c);
            return Some(n - 1);
        }
        assert(s@.subrange(0, n as int).drop_last() =~= s@.subrange(0, n - 1));
        n = n - 1;
    }
    None
}

/// What a completion picks for `part`: prefix matching first, else the
/// unique fuzzy match (which counts as unique).
pub open spec fn pick(part: Seq<char>, names: Seq<Seq<char>>) -> Option<(Seq<char>, bool)> {
    match extend_spec(part, names) {
        Some(p) => Some(p),
        None => match fuzzy_spec(part, names) {
            Some(k) => Some((names[k], true)),
            None => None,
        },
    }
}

/// What completing `input` gives, with `names` the roster's agent names and
/// `constructs` the offered slash actions.
pub open spec fn complete_spec(input: Seq<char>, names: Seq<Seq<char>>, constructs: Seq<Seq<char>>) -> Option<Seq<char>> {
    if exists|i: int| 0 <= i < input.len() && is_ws(#[trigger] input[i]) {
        None
    } else if input.len() > 0 && input[0] == '@' {
        let rest = input.drop_first();
        let done = match last_index(rest, '+') {
            Some(i) => rest.subrange(0, i + 1),
            None => Seq::empty(),
        };
        let part = match last_index(rest, '+') {
            Some(i) => rest.subrange(i + 1, rest.len() as int),
            None => rest,
        };
        match pick(part, names) {
            Some((ext, unique)) => Some(
                seq!['@'] + done + ext + (if unique && done.len() == 0 {
                    seq![' ']
                } else {
                    Seq::empty()
                }),
            ),
            None => None,
        }
    } else if input.len() > 0 && input[0] == '/' {
        match pick(input, constructs) {
            Some((ext, unique)) => Some(
                ext + (if unique {
                    seq![' ']
                } else {
                    Seq::empty()
                }),
            ),
            None => None,
        }
    } else {
        None
    }
}

/// The roster's agent names.
pub open spec fn names_of(agents: Seq<AgentInfo>) -> Seq<Seq<char>> {
    agents.map_values(|a: AgentInfo| a.name@)
}

fn slice_chars(s: &[char], from: usize, to: usize) -> (r: Vec<char>)
    requires
        from <= to <= s@.len(),
    ensures
        r@ == s@.subrange(from as int, to as int),
{
    let mut out: Vec<char> = Vec::new();
    let mut i: usize = from;
    while i < to
        invariant
            from <= i <= to <= s@.len(),
            out@ == s@.subrange(from as int, i as int),
        decreases to - i,
    {
        out.push(s[i]);
        assert(s@.subrange(from as int, i + 1) == s@.subrange(from as int, i as int).push(
            s@[i as int],
        ));
        i = i + 1;
    }
    out
}

fn has_ws(s: &[char]) -> (b: bool)
    ensures
        b == exists|i: int| 0 <= i < s@.len() && is_ws(#[trigger] s@[i]),
{
    let mut i: usize = 0;
    while i < s.len()
        invariant
            i <= s@.len(),
            forall|k: int| 0 <= k < i ==> !is_ws(#[trigger] s@[k]),
        decreases s@.len() - i,
    {
        if char_is_ws(s[i]) {
            return true;
        }
        i = i + 1;
    }
    false
}

fn pick_exec(part: &str, names: &[&str]) -> (r: Option<(String, bool)>)
    ensures
        match pick(part@, views(names@)) {
            Some((ext, unique)) => r matches Some((s, u)) && s@ == ext && u == unique,
            None => r is None,
        },
{
    match extend(part, names) {
        Some(pair) => Some(pair),
        None => match fuzzy_unique(part, names) {
            Some(n) => {
                let s = n.to_owned();
                Some((s, true))
            },
            None => None,
        },
    }
}

/// Complete `input`'s leading token. Returns the new input when something
/// completed (unique match, or extended to the candidates' common prefix).
pub fn complete(input: &str, agents: &[AgentInfo]) -> (r: Option<String>)
    ensures
        match complete_spec(input@, names_of(agents@), views(CONSTRUCTS@)) {
            Some(s) => r matches Some(t) && t@ == s,
            None => r is None,
        },
{
    let chars = chars_of(input);
    if has_ws(chars.as_slice()) {
        return None;
    }
    if chars.len() > 0 && chars[0] == '@' {
        let rest = slice_chars(chars.as_slice(), 1, chars.len());
        assert(rest@ =~= input@.drop_first());
        let (done, part) = match rfind_char(rest.as_slice(), '+') {
            Some(i) => (
                slice_chars(rest.as_slice(), 0, i + 1),
                slice_chars(rest.as_slice(), i + 1, rest.len()),
            ),
            None => (Vec::new(), slice_chars(rest.as_slice(), 0, rest.len())),
        };
        assert(rest@.subrange(0, rest@.len() as int) =~= rest@);
        let mut names: Vec<&str> = Vec::new();
        let mut k: usize = 0;
        while k < agents.len()
            invariant
                k <= agents@.len(),
                names@.len() == k,
                forall|j: int| 0 <= j < k ==> (#[trigger] names@[j])@ == agents@[j].name@,
            decreases agents@.len() - k,
        {
            names.push(agents[k].name.as_str());
            k = k + 1;
        }
        assert(views(names@) =~= names_of(agents@));
        let part_s = string_of(part.as_slice());
        match pick_exec(part_s.as_str(), names.as_slice()) {
            Some((ext, unique)) => {
                let mut out = "@".to_owned();
                let done_s = string_of(done.as_slice());
                out.append(done_s.as_str());
                out.append(ext.as_str());
                if unique && done.len() == 0 {
                    out.append(" ");
                }
                proof {
                    reveal_strlit("@");
                    reveal_strlit(" ");
                }
                assert(out@ =~= complete_spec(input@, names_of(agents@), views(CONSTRUCTS@))->0);
                Some(out)
            },
            None => None,
        }
    } else if chars.len() > 0 && chars[0] == '/' {
        let cons = CONSTRUCTS;
        match pick_exec(input, cons.as_slice()) {
            Some((ext, unique)) => {
                let mut out = ext;
                if unique {
                    out.append(" ");
                }
                proof {
                    reveal_strlit(" ");
                }
                assert(out@ =~= complete_spec(input@, names_of(agents@), views(CONSTRUCTS@))->0);
                Some(out)
            },
            None => None,
        }
    } else {
        None
    }
}

/// Whether `c` is one of the offered constructs.
pub open spec fn offered(c: Seq<char>) -> bool {
    exists|j: int| 0 <= j < 12 && c == (#[trigger] CONSTRUCTS@[j])@
}

/// Whether `j` is the first of the pane's own hints written for `c`.
pub open spec fn pane_word_at(c: Seq<char>, j: int) -> bool {
    0 <= j < 5 && c == PANE_WORDS@[j].0@ && forall|m: int|
        0 <= m < j ==> c != (#[trigger] PANE_WORDS@[m]).0@
}

/// The one-line hint for `construct` in the slash palette: "" for anything
/// not offered, the pane's own words where it writes them, and otherwise
/// the broker's own summary line (`broker_summary`, as the broker's
/// construct table gives it for the bare name).
pub fn describe(construct: &str, broker_summary: Option<&'static str>) -> (r: &'static str)
    ensures
        !offered(construct@) ==> r@.len() == 0,
        forall|j: int|
            offered(construct@) && pane_word_at(construct@, j) ==> r@ == PANE_WORDS@[j].1@,
        offered(construct@) && (forall|j: int|
            0 <= j < 5 ==> construct@ != (#[trigger] PANE_WORDS@[j]).0@) ==> r@ == (match broker_summary {
            Some(s) => s@,
            None => Seq::<char>::empty(),
        }),
{
    let mut j: usize = 0;
    let mut found = false;
    while j < 12
        invariant
            j <= 12,
            found ==> offered(construct@),
            !found ==> forall|m: int| 0 <= m < j ==> construct@ != (#[trigger] CONSTRUCTS@[m])@,
        decreases 12 - j,
    {
        if crate::text::str_eq(construct, CONSTRUCTS[j]) {
            found = true;
        }
        j = j + 1;
    }
    if !found {
        proof {
            reveal_strlit("");
        }
        return "";
    }
    let mut k: usize = 0;
    while k < 5
        invariant
            k <= 5,
            forall|m: int| 0 <= m < k ==> construct@ != (#[trigger] PANE_WORDS@[m]).0@,
        decreases 5 - k,
    {
        if crate::text::str_eq(construct, PANE_WORDS[k].0) {
            proof {
                assert forall|j: int| pane_word_at(construct@, j) implies j == k by {
                    if j < k {
                        assert(construct@ != PANE_WORDS@[j].0@);
                    }
                    if j > k {
                        assert(construct@ != PANE_WORDS@[k as int].0@);
                    }
                }
            }
            return PANE_WORDS[k].1;
        }
        k = k + 1;
    }
    match broker_summary {
        Some(s) => s,
        None => {
            proof {
                reveal_strlit("");
            }
            ""
        },
    }
}

proof fn lemma_cands_prefix(names: Seq<Seq<char>>, part: Seq<char>, n: int)
    ensures
        forall|j: int|
            0 <= j < cands_upto(names, part, n).len() ==> prefix_ci(
                #[trigger] cands_upto(names, part, n)[j],
                part,
            ),
    decreases n,
{
    if n > 0 && n <= names.len() {
        lemma_cands_prefix(names, part, n - 1);
        let r = cands_upto(names, part, n - 1);
        if prefix_ci(names[n - 1], part) {
            assert forall|j: int| 0 <= j < r.push(names[n - 1]).len() implies prefix_ci(
                #[trigger] r.push(names[n - 1])[j],
                part,
            ) by {
                if j < r.len() {
                    assert(r.push(names[n - 1])[j] == r[j]);
                }
            }
        }
    }
}

proof fn lemma_fuzzy_hits(names: Seq<Seq<char>>, part: Seq<char>, n: int)
    requires
        0 <= n <= names.len(),
    ensures
        forall|j: int|
            0 <= j < fuzzy_upto(names, part, n).len() ==> 0 <= #[trigger] fuzzy_upto(names, part, n)[j]
                < n && subsequence(part, names[fuzzy_upto(names, part, n)[j]]),
    decreases n,
{
    if n > 0 {
        lemma_fuzzy_hits(names, part, n - 1);
        let r = fuzzy_upto(names, part, n - 1);
        if subsequence(part, names[n - 1]) {
            assert forall|j: int| 0 <= j < r.push(n - 1).len() implies 0 <= #[trigger] r.push(n - 1)[j]
                < n && subsequence(part, names[r.push(n - 1)[j]]) by {
                if j < r.len() {
                    assert(r.push(n - 1)[j] == r[j]);
                }
            }
        }
    }
}

/// A completion keeps what was typed: a prefix completion starts with it
/// (letters matched without case) and, when several names share the prefix,
/// adds at least one character; the fuzzy fallback is a name the typed
/// letters appear in, in order.
pub proof fn law_a_completion_keeps_what_was_typed(part: Seq<char>, names: Seq<Seq<char>>)
    ensures
        match extend_spec(part, names) {
            Some((ext, unique)) => prefix_ci(ext, part) && (!unique ==> ext.len() > part.len()),
            None => true,
        },
        match fuzzy_spec(part, names) {
            Some(k) => 0 <= k < names.len() && subsequence(part, names[k]),
            None => true,
        },
{
    let cs = cands_upto(names, part, names.len() as int);
    lemma_cands_prefix(names, part, names.len() as int);
    if cs.len() > 1 {
        assert(prefix_ci(cs[0], part));
        lemma_common_upto(cs[0], cs, cs.len() as int);
        let l = common_upto(cs[0], cs, cs.len() as int);
        if l > part.len() {
            let ext = cs[0].subrange(0, l);
            assert forall|i: int| 0 <= i < part.len() implies fold(#[trigger] ext[i]) == fold(part[i]) by {
                assert(ext[i] == cs[0][i]);
                assert(fold(cs[0][i]) == fold(part[i]));
            }
        }
    } else if cs.len() == 1 {
        assert(prefix_ci(cs[0], part));
    }
    lemma_fuzzy_hits(names, part, names.len() as int);
    let hits = fuzzy_upto(names, part, names.len() as int);
    if hits.len() == 1 {
        assert(0 <= hits[0] < names.len());
    }
}

} // verus!
