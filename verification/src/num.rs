//! Decimal numbers in text: reading a signed 64-bit integer the way
//! `str::parse::<i64>` does, and writing one the way `Display` does.
use vstd::prelude::*;

verus! {

pub open spec fn is_digit(c: char) -> bool {
    '0' <= c && c <= '9'
}

pub open spec fn digit_value(c: char) -> int {
    (c as int) - ('0' as int)
}

pub open spec fn all_digits(s: Seq<char>) -> bool {
    forall|i: int| 0 <= i < s.len() ==> is_digit(#[trigger] s[i])
}

/// The number an all-digit string spells, most significant digit first.
pub open spec fn digits_value(s: Seq<char>) -> nat
    decreases s.len(),
{
    if s.len() == 0 {
        0
    } else {
        (digits_value(s.drop_last()) * 10 + digit_value(s.last())) as nat
    }
}

/// What `s.parse::<i64>()` gives: an optional `+` or `-`, then one or more
/// ASCII digits, whose value must fit in an `i64`.
pub open spec fn parse_i64_spec(s: Seq<char>) -> Option<i64> {
    let neg = s.len() > 0 && s[0] == '-';
    let body = if s.len() > 0 && (s[0] == '-' || s[0] == '+') {
        s.drop_first()
    } else {
        s
    };
    if body.len() == 0 || !all_digits(body) {
        None
    } else {
        let v: int = if neg {
            -(digits_value(body) as int)
        } else {
            digits_value(body) as int
        };
        if i64::MIN <= v && v <= i64::MAX {
            Some(v as i64)
        } else {
            None
        }
    }
}

proof fn lemma_digits_value_prefix_le(s: Seq<char>, k: int)
    requires
        all_digits(s),
        0 <= k <= s.len(),
    ensures
        digits_value(s.subrange(0, k)) <= digits_value(s),
    decreases s.len() - k,
{
    if k < s.len() {
        let t = s.subrange(0, k + 1);
        assert(t.drop_last() == s.subrange(0, k));
        assert(is_digit(s[k]));
        lemma_digits_value_prefix_le(s, k + 1);
    } else {
        assert(s.subrange(0, k) == s);
    }
}

/// The bound past which no `i64` can be read: `i64::MAX + 1`, which only a
/// leading `-` makes reachable.
const LIMIT: u64 = 9223372036854775808;

/// `s.parse::<i64>()`, over the characters of `s`.
pub fn parse_i64(s: &[char]) -> (r: Option<i64>)
    ensures
        r == parse_i64_spec(s@),
{
    let n = s.len();
    let neg = n > 0 && s[0] == '-';
    let start: usize = if n > 0 && (s[0] == '-' || s[0] == '+') { 1 } else { 0 };
    let ghost body = if n > 0 && (s@[0] == '-' || s@[0] == '+') { s@.drop_first() } else { s@ };
    assert(body == s@.subrange(start as int, n as int));
    if start >= n {
        return None;
    }
    let mut v: u64 = 0;
    let mut over = false;
    let mut i = start;
    while i < n
        invariant
            start <= i <= n,
            n == s@.len(),
            body == s@.subrange(start as int, n as int),
            body == (if s@.len() > 0 && (s@[0] == '-' || s@[0] == '+') { s@.drop_first() } else { s@ }),
            neg == (s@.len() > 0 && s@[0] == '-'),
            all_digits(s@.subrange(start as int, i as int)),
            !over ==> v == digits_value(s@.subrange(start as int, i as int)),
            !over ==> v <= LIMIT,
            over ==> digits_value(s@.subrange(start as int, i as int)) > LIMIT,
        decreases n - i,
    {
        let c = s[i];
        if !('0' <= c && c <= '9') {
            assert(body[i - start] == c);
            assert(!is_digit(body[i - start]));
            return None;
        }
        let ghost pre = s@.subrange(start as int, i as int);
        let ghost next = s@.subrange(start as int, i + 1);
        assert(next.drop_last() == pre);
        assert(next.last() == c);
        let d = (c as u32 - '0' as u32) as u64;
        if !over {
            if v > (LIMIT - d) / 10 {
                over = true;
            } else {
                v = v * 10 + d;
            }
        }
        assert(all_digits(next)) by {
            assert forall|j: int| 0 <= j < next.len() implies is_digit(#[trigger] next[j]) by {
                if j < pre.len() {
                    assert(next[j] == pre[j]);
                }
            }
        }
        i = i + 1;
    }
    assert(s@.subrange(start as int, n as int) == body);
    if over {
        return None;
    }
    if neg {
        if v == LIMIT {
            Some(i64::MIN)
        } else {
            Some(-(v as i64))
        }
    } else {
        if v == LIMIT {
            None
        } else {
            Some(v as i64)
        }
    }
}

} // verus!

verus! {

pub open spec fn digit_char(d: nat) -> char
    recommends
        d < 10,
{
    (('0' as nat) + d) as char
}

/// The decimal digits of `n`, with no leading zeros (`0` is `"0"`).
pub open spec fn nat_text(n: nat) -> Seq<char>
    decreases n,
{
    if n < 10 {
        seq![digit_char(n)]
    } else {
        nat_text(n / 10).push(digit_char(n % 10))
    }
}

/// How `Display` writes a signed integer.
pub open spec fn int_text(n: int) -> Seq<char> {
    if n < 0 {
        seq!['-'] + nat_text((-n) as nat)
    } else {
        nat_text(n as nat)
    }
}

pub proof fn lemma_nat_text(n: nat)
    ensures
        all_digits(nat_text(n)),
        digits_value(nat_text(n)) == n,
        nat_text(n).len() >= 1,
        nat_text(n)[0] != '-' && nat_text(n)[0] != '+',
    decreases n,
{
    if n < 10 {
        let t = nat_text(n);
        assert(t.drop_last() =~= Seq::<char>::empty());
        assert(digit_value(digit_char(n)) == n);
        assert(digits_value(t) == digits_value(t.drop_last()) * 10 + digit_value(t.last()));
        assert(digits_value(t) == n);
    }
    if n >= 10 {
        lemma_nat_text(n / 10);
        let t = nat_text(n);
        assert(t.drop_last() == nat_text(n / 10));
        assert(t.last() == digit_char(n % 10));
        assert(digit_value(digit_char(n % 10)) == n % 10);
        assert(digits_value(t) == digits_value(nat_text(n / 10)) * 10 + digit_value(t.last()));
        assert(n == (n / 10) * 10 + n % 10) by (nonlinear_arith);
        assert(digits_value(t) == n);
        assert forall|i: int| 0 <= i < t.len() implies is_digit(#[trigger] t[i]) by {
            if i < t.len() - 1 {
                assert(t[i] == nat_text(n / 10)[i]);
            }
        }
    }
}

/// Reading back what `Display` wrote gives the same number.
pub proof fn lemma_int_text_round_trip(n: i64)
    ensures
        parse_i64_spec(int_text(n as int)) == Some(n),
{
    if n < 0 {
        lemma_nat_text((-n) as nat);
        let t = int_text(n as int);
        assert(t.drop_first() == nat_text((-n) as nat));
    } else {
        lemma_nat_text(n as nat);
    }
}

fn push_nat_text(n: u64, out: &mut Vec<char>)
    ensures
        final(out)@ == old(out)@ + nat_text(n as nat),
    decreases n,
{
    if n >= 10 {
        push_nat_text(n / 10, out);
    }
    let c = char_from_digit((n % 10) as u32);
    out.push(c);
    proof {
        if n >= 10 {
            assert(nat_text(n as nat) == nat_text((n / 10) as nat).push(digit_char((n % 10) as nat)));
        }
    }
}

fn char_from_digit(d: u32) -> (c: char)
    requires
        d < 10,
    ensures
        c == digit_char(d as nat),
{
    if d == 0 { '0' } else if d == 1 { '1' } else if d == 2 { '2' } else if d == 3 { '3' }
    else if d == 4 { '4' } else if d == 5 { '5' } else if d == 6 { '6' } else if d == 7 { '7' }
    else if d == 8 { '8' } else { '9' }
}

/// `n` written in decimal.
pub fn u64_text(n: u64) -> (r: Vec<char>)
    ensures
        r@ == nat_text(n as nat),
{
    let mut r = Vec::new();
    push_nat_text(n, &mut r);
    r
}

/// `n` written in decimal, with a leading `-` when negative.
pub fn i64_text(n: i64) -> (r: Vec<char>)
    ensures
        r@ == int_text(n as int),
{
    let mut r = Vec::new();
    if n < 0 {
        r.push('-');
        let m: u64 = if n == i64::MIN { 9223372036854775808u64 } else { (-n) as u64 };
        push_nat_text(m, &mut r);
    } else {
        push_nat_text(n as u64, &mut r);
    }
    r
}

} // verus!

verus! {

/// The number an all-digit, non-empty string spells.
pub open spec fn index_spec(s: Seq<char>) -> Option<nat> {
    if s.len() > 0 && all_digits(s) {
        Some(digits_value(s))
    } else {
        None
    }
}

/// Read a non-empty run of ASCII digits as an index; `None` for anything
/// else, including a number no `usize` holds.
pub fn parse_index(s: &[char]) -> (r: Option<usize>)
    ensures
        match r {
            Some(v) => index_spec(s@) == Some(v as nat),
            None => index_spec(s@) is None || index_spec(s@)->0 > usize::MAX,
        },
{
    let n = s.len();
    if n == 0 {
        return None;
    }
    let mut v: usize = 0;
    let mut over = false;
    let mut i: usize = 0;
    while i < n
        invariant
            i <= n,
            n == s@.len(),
            all_digits(s@.subrange(0, i as int)),
            !over ==> v == digits_value(s@.subrange(0, i as int)),
            over ==> digits_value(s@.subrange(0, i as int)) > usize::MAX,
        decreases n - i,
    {
        let c = s[i];
        if !('0' <= c && c <= '9') {
            assert(!is_digit(s@[i as int]));
            return None;
        }
        let ghost pre = s@.subrange(0, i as int);
        let ghost next = s@.subrange(0, i + 1);
        assert(next.drop_last() == pre);
        assert(next.last() == c);
        let d = (c as u32 - '0' as u32) as usize;
        if !over {
            if v > (usize::MAX - d) / 10 {
                over = true;
            } else {
                v = v * 10 + d;
            }
        }
        assert(all_digits(next)) by {
            assert forall|j: int| 0 <= j < next.len() implies is_digit(#[trigger] next[j]) by {
                if j < pre.len() {
                    assert(next[j] == pre[j]);
                }
            }
        }
        i = i + 1;
    }
    assert(s@.subrange(0, n as int) == s@);
    if over {
        return None;
    }
    Some(v)
}

} // verus!
