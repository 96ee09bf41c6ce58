use vstd::prelude::*;
use crate::error::ScrapeError;

verus! {

/// Most digits accepted in a page total; keeps the count within `u64`.
pub const MAX_TOTAL_DIGITS: usize = 18;

pub open spec fn is_digit(c: char) -> bool {
    '0' <= c && c <= '9'
}

/// Padding around the total: spaces and square brackets.
pub open spec fn is_pad(c: char) -> bool {
    c == ' ' || c == '[' || c == ']'
}

pub open spec fn digit_value(c: char) -> nat {
    (c as int - '0' as int) as nat
}

/// The decimal value of a run of digits.
pub open spec fn digits_value(s: Seq<char>) -> nat
    decreases s.len(),
{
    if s.len() == 0 {
        0
    } else {
        digits_value(s.drop_last()) * 10 + digit_value(s.last())
    }
}

pub open spec fn pow10(n: nat) -> nat
    decreases n,
{
    if n == 0 {
        1
    } else {
        10 * pow10((n - 1) as nat)
    }
}

/// The text after the first `/`, if there is one.
pub open spec fn after_slash(s: Seq<char>) -> Option<Seq<char>>
    decreases s.len(),
{
    if s.len() == 0 {
        None
    } else if s[0] == '/' {
        Some(s.drop_first())
    } else {
        after_slash(s.drop_first())
    }
}

pub open spec fn trim_start(s: Seq<char>) -> Seq<char>
    decreases s.len(),
{
    if s.len() > 0 && is_pad(s[0]) {
        trim_start(s.drop_first())
    } else {
        s
    }
}

pub open spec fn trim_end(s: Seq<char>) -> Seq<char>
    decreases s.len(),
{
    if s.len() > 0 && is_pad(s.last()) {
        trim_end(s.drop_last())
    } else {
        s
    }
}

/// The total page number that a counter such as `[ 1 / 6 ]` shows: the text after the
/// first `/`, with spaces and brackets trimmed, read as 1 to 18 decimal digits.
pub open spec fn counter_total(s: Seq<char>) -> Option<nat> {
    match after_slash(s) {
        Some(r) => {
            let t = trim_end(trim_start(r));
            if 1 <= t.len() <= MAX_TOTAL_DIGITS && forall|i: int| 0 <= i < t.len() ==> is_digit(#[trigger] t[i]) {
                Some(digits_value(t))
            } else {
                None
            }
        },
        None => None,
    }
}

/// The number of pages to fetch for a counter text: one more than the total it shows.
pub open spec fn page_count_of(s: Seq<char>) -> Option<nat> {
    match counter_total(s) {
        Some(d) => Some(d + 1),
        None => None,
    }
}

proof fn lemma_pow10_mono(a: nat, b: nat)
    requires
        a <= b,
    ensures
        pow10(a) <= pow10(b),
    decreases b,
{
    if a < b {
        lemma_pow10_mono(a, (b - 1) as nat);
    }
}

proof fn lemma_pow10_18()
    ensures
        pow10(18) == 1_000_000_000_000_000_000,
{
    reveal_with_fuel(pow10, 19);
}

proof fn lemma_digits_bound(s: Seq<char>)
    requires
        forall|i: int| 0 <= i < s.len() ==> is_digit(#[trigger] s[i]),
    ensures
        digits_value(s) < pow10(s.len()),
    decreases s.len(),
{
    if s.len() > 0 {
        let p = s.drop_last();
        assert forall|i: int| 0 <= i < p.len() implies is_digit(#[trigger] p[i]) by {
            assert(p[i] == s[i]);
        }
        lemma_digits_bound(p);
        let v = digits_value(p);
        let q = pow10(p.len());
        assert(v * 10 + digit_value(s.last()) < 10 * q) by (nonlinear_arith)
            requires
                v < q,
                digit_value(s.last()) < 10,
        ;
    }
}

proof fn lemma_after_slash_skips(pre: Seq<char>, rest: Seq<char>)
    requires
        forall|i: int| 0 <= i < pre.len() ==> #[trigger] pre[i] != '/',
    ensures
        after_slash(pre + rest) == after_slash(rest),
    decreases pre.len(),
{
    if pre.len() > 0 {
        let tail = pre.drop_first();
        assert forall|i: int| 0 <= i < tail.len() implies #[trigger] tail[i] != '/' by {
            assert(tail[i] == pre[i + 1]);
        }
        lemma_after_slash_skips(tail, rest);
        assert((pre + rest).drop_first() == tail + rest);
        assert((pre + rest)[0] == pre[0]);
    }
}

/// A counter `[ k / d ]` with a single digit `d` (and no slash in `k`) gives `1 + d` pages.
pub proof fn lemma_single_digit_counter(k: Seq<char>, d: char)
    requires
        forall|i: int| 0 <= i < k.len() ==> #[trigger] k[i] != '/',
        is_digit(d),
    ensures
        page_count_of(seq!['[', ' '] + k + seq![' ', '/', ' ', d, ' ', ']']) == Some(digit_value(d) + 1),
{
    let pre = seq!['[', ' '] + k + seq![' '];
    let rest = seq!['/', ' ', d, ' ', ']'];
    assert forall|i: int| 0 <= i < pre.len() implies #[trigger] pre[i] != '/' by {
        if 2 <= i < 2 + k.len() {
            assert(pre[i] == k[i - 2]);
        }
    }
    lemma_after_slash_skips(pre, rest);
    assert(seq!['[', ' '] + k + seq![' ', '/', ' ', d, ' ', ']'] == pre + rest);
    let r = seq![' ', d, ' ', ']'];
    assert(rest.drop_first() == r);
    assert(r.drop_first() == seq![d, ' ', ']']);
    assert(!is_pad(d));
    assert(seq![d, ' ', ']'][0] == d);
    assert(trim_start(seq![d, ' ', ']']) == seq![d, ' ', ']']);
    assert(trim_start(r) == seq![d, ' ', ']']);
    let u = seq![d, ' ', ']'];
    assert(u.drop_last() == seq![d, ' ']);
    assert(seq![d, ' '].drop_last() == seq![d]);
    assert(seq![d].last() == d);
    assert(trim_end(seq![d]) == seq![d]);
    assert(trim_end(seq![d, ' ']) == seq![d]);
    assert(trim_end(u) == seq![d]);
    assert(seq![d].drop_last() == Seq::<char>::empty());
    assert(digits_value(Seq::<char>::empty()) == 0);
    assert(digits_value(seq![d]) == digits_value(seq![d].drop_last()) * 10 + digit_value(d));
    assert(digits_value(seq![d]) == digit_value(d));
    assert(1 <= seq![d].len() <= MAX_TOTAL_DIGITS);
    assert(forall|i: int| 0 <= i < seq![d].len() ==> is_digit(#[trigger] seq![d][i]));
}

/// Reads the page count from the counter widget's text.
pub fn page_count_from_counter(text: &str) -> (r: Result<u64, ScrapeError>)
    ensures
        match page_count_of(text@) {
            Some(n) => r == Ok::<u64, ScrapeError>(n as u64),
            None => r == Err::<u64, ScrapeError>(ScrapeError::Parse),
        },
        r matches Ok(n) ==> 1 <= n < u64::MAX,
{
    let cs = crate::text::chars_of(text);
    let len = cs.len();
    let ghost s = cs@;
    // find the first slash
    let mut p: usize = 0;
    assert(s.subrange(0, len as int) == s);
    while p < len && cs[p] != '/'
        invariant
            p <= len == s.len(),
            s == cs@,
            s == text@,
            after_slash(s) == after_slash(s.subrange(p as int, len as int)),
        decreases len - p,
    {
        assert(s.subrange(p as int, len as int).drop_first() == s.subrange(p + 1, len as int));
        p = p + 1;
    }
    if p == len {
        return Err(ScrapeError::Parse);
    }
    assert(s.subrange(p as int, len as int).drop_first() == s.subrange(p + 1, len as int));
    assert(after_slash(s) == Some(s.subrange(p + 1, len as int)));
    let mut lo: usize = p + 1;
    while lo < len && (cs[lo] == ' ' || cs[lo] == '[' || cs[lo] == ']')
        invariant
            p < lo <= len == s.len(),
            s == cs@,
            trim_start(s.subrange(p + 1, len as int)) == trim_start(s.subrange(lo as int, len as int)),
        decreases len - lo,
    {
        assert(s.subrange(lo as int, len as int).drop_first() == s.subrange(lo + 1, len as int));
        lo = lo + 1;
    }
    let mut hi: usize = len;
    while hi > lo && (cs[hi - 1] == ' ' || cs[hi - 1] == '[' || cs[hi - 1] == ']')
        invariant
            lo <= hi <= len == s.len(),
            s == cs@,
            trim_start(s.subrange(lo as int, len as int)) == s.subrange(lo as int, len as int),
            trim_end(s.subrange(lo as int, len as int)) == trim_end(s.subrange(lo as int, hi as int)),
        decreases hi,
    {
        assert(s.subrange(lo as int, hi as int).drop_last() == s.subrange(lo as int, hi - 1));
        hi = hi - 1;
    }
    let ghost t = s.subrange(lo as int, hi as int);
    assert(trim_end(t) == t);
    assert(trim_end(trim_start(s.subrange(p + 1, len as int))) == t);
    if hi - lo < 1 || hi - lo > MAX_TOTAL_DIGITS {
        return Err(ScrapeError::Parse);
    }
    match read_digits(&cs, lo, hi) {
        Some(v) => {
            proof {
                lemma_digits_bound(t);
                lemma_pow10_mono(t.len(), 18);
                lemma_pow10_18();
            }
            Ok(v + 1)
        },
        None => Err(ScrapeError::Parse),
    }
}

/// The value of the digits `cs[lo..hi]`, or `None` if one of them is not a decimal digit.
fn read_digits(cs: &Vec<char>, lo: usize, hi: usize) -> (r: Option<u64>)
    requires
        lo <= hi <= cs@.len(),
        hi - lo <= MAX_TOTAL_DIGITS,
    ensures
        match r {
            Some(v) => {
                &&& forall|i: int| 0 <= i < hi - lo ==> is_digit(#[trigger] cs@.subrange(lo as int, hi as int)[i])
                &&& v == digits_value(cs@.subrange(lo as int, hi as int))
            },
            None => !(forall|i: int| 0 <= i < hi - lo ==> is_digit(#[trigger] cs@.subrange(lo as int, hi as int)[i])),
        },
{
    let ghost t = cs@.subrange(lo as int, hi as int);
    let mut v: u64 = 0;
    let mut j: usize = lo;
    proof {
        lemma_pow10_18();
    }
    while j < hi
        invariant
            lo <= j <= hi <= cs@.len(),
            hi - lo <= MAX_TOTAL_DIGITS,
            t == cs@.subrange(lo as int, hi as int),
            forall|i: int| 0 <= i < j - lo ==> is_digit(#[trigger] t[i]),
            v == digits_value(t.subrange(0, j - lo)),
            v < pow10((j - lo) as nat),
            pow10(18) == 1_000_000_000_000_000_000,
        decreases hi - j,
    {
        let c = cs[j];
        assert(t[j - lo] == c);
        if !('0' <= c && c <= '9') {
            assert(!is_digit(t[j - lo]));
            return None;
        }
        let ghost u = t.subrange(0, j - lo + 1);
        assert(u.drop_last() == t.subrange(0, j - lo));
        proof {
            lemma_pow10_mono((j - lo + 1) as nat, 18);
            assert(v * 10 + digit_value(c) < 10 * pow10((j - lo) as nat)) by (nonlinear_arith)
                requires
                    v < pow10((j - lo) as nat),
                    digit_value(c) < 10,
            ;
        }
        v = v * 10 + (c as u64 - '0' as u64);
        j = j + 1;
    }
    assert(t.subrange(0, t.len() as int) == t);
    Some(v)
}

} // verus!
