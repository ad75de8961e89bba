//! Small verified helpers on byte sequences: appending, decimal rendering and
//! subsequence search.

use vstd::prelude::*;

verus! {

/// Appends `src` to `out`.
pub fn append_bytes(out: &mut Vec<u8>, src: &[u8])
    ensures
        final(out)@ == old(out)@ + src@,
{
    let n: usize = src.len();
    let mut i: usize = 0;
    while i < n
        invariant
            n == src@.len(),
            i <= n,
            out@ == old(out)@ + src@.subrange(0, i as int),
        decreases n - i,
    {
        out.push(src[i]);
        i += 1;
    }
    assert(src@.subrange(0, n as int) == src@);
}

/// The ASCII digit for `d`, meaningful for `d < 10`.
pub open spec fn digit_byte(d: nat) -> u8 {
    (48 + d) as u8
}

/// The decimal rendering of `n`: no sign, no leading zeros, `"0"` for zero.
pub open spec fn decimal(n: nat) -> Seq<u8>
    decreases n,
{
    if n < 10 {
        seq![digit_byte(n)]
    } else {
        decimal(n / 10).push(digit_byte(n % 10))
    }
}

/// `true` for the bytes `'0'..='9'`.
pub open spec fn is_digit(b: u8) -> bool {
    48 <= b <= 57
}

/// A decimal rendering is never empty and holds digits only.
pub proof fn lemma_decimal_digits(n: nat)
    ensures
        decimal(n).len() >= 1,
        forall|i: int| 0 <= i < decimal(n).len() ==> is_digit(#[trigger] decimal(n)[i]),
    decreases n,
{
    if n >= 10 {
        lemma_decimal_digits(n / 10);
    }
}

/// Appends the decimal rendering of `n` to `out`.
pub fn push_decimal(out: &mut Vec<u8>, n: u64)
    ensures
        final(out)@ == old(out)@ + decimal(n as nat),
{
    let mut low: Vec<u8> = Vec::new();
    let mut rest: u64 = n;
    while rest >= 10
        invariant
            decimal(n as nat) == decimal(rest as nat) + low@.reverse(),
        decreases rest,
    {
        let d: u8 = (rest % 10) as u8;
        let ghost before = low@;
        low.push(48 + d);
        proof {
            assert(low@.reverse() == seq![digit_byte((rest % 10) as nat)] + before.reverse());
            assert(decimal(rest as nat) == decimal((rest / 10) as nat).push(
                digit_byte((rest % 10) as nat),
            ));
            assert(decimal(rest as nat) + before.reverse() == decimal((rest / 10) as nat)
                + low@.reverse());
        }
        rest = rest / 10;
    }
    out.push(48 + (rest as u8));
    let mut k: usize = low.len();
    while k > 0
        invariant
            k <= low@.len(),
            rest < 10,
            decimal(n as nat) == decimal(rest as nat) + low@.reverse(),
            out@ == old(out)@ + decimal(rest as nat) + low@.reverse().subrange(
                0,
                low@.len() - k,
            ),
        decreases k,
    {
        k -= 1;
        out.push(low[k]);
        proof {
            let r = low@.reverse();
            let j = low@.len() - k - 1;
            assert(r[j] == low@[k as int]);
            assert(r.subrange(0, j + 1) == r.subrange(0, j).push(r[j]));
        }
    }
    assert(low@.reverse().subrange(0, low@.len() as int) == low@.reverse());
}

/// `needle` stands in `hay` at position `at`.
pub open spec fn occurs_at(hay: Seq<u8>, needle: Seq<u8>, at: int) -> bool {
    0 <= at && at + needle.len() <= hay.len() && hay.subrange(at, at + needle.len()) == needle
}

/// `needle` stands somewhere in `hay`.
pub open spec fn contains(hay: Seq<u8>, needle: Seq<u8>) -> bool {
    exists|at: int| occurs_at(hay, needle, at)
}

/// Tests whether `needle` stands in `hay` at position `at`.
pub fn matches_at(hay: &[u8], needle: &[u8], at: usize) -> (found: bool)
    ensures
        found == occurs_at(hay@, needle@, at as int),
{
    let n: usize = needle.len();
    let h: usize = hay.len();
    if at > h || n > h - at {
        return false;
    }
    let mut k: usize = 0;
    while k < n
        invariant
            n == needle@.len(),
            h == hay@.len(),
            at + n <= hay@.len(),
            k <= n,
            hay@.subrange(at as int, at + k) == needle@.subrange(0, k as int),
        decreases n - k,
    {
        if hay[at + k] != needle[k] {
            assert(hay@.subrange(at as int, at + n)[k as int] != needle@[k as int]);
            return false;
        }
        assert(hay@.subrange(at as int, at + k + 1) == hay@.subrange(at as int, at + k).push(
            hay@[at + k],
        ));
        assert(needle@.subrange(0, k + 1) == needle@.subrange(0, k as int).push(needle@[k as int]));
        k += 1;
    }
    assert(needle@.subrange(0, n as int) == needle@);
    true
}

/// Tests whether `needle` stands somewhere in `hay`.
pub fn contains_bytes(hay: &[u8], needle: &[u8]) -> (found: bool)
    ensures
        found == contains(hay@, needle@),
{
    let h: usize = hay.len();
    let n: usize = needle.len();
    if n > h {
        return false;
    }
    let last: usize = h - n;
    let mut at: usize = 0;
    loop
        invariant
            h == hay@.len(),
            n == needle@.len(),
            n <= h,
            last == h - n,
            at <= last,
            forall|j: int| 0 <= j < at ==> !occurs_at(hay@, needle@, j),
        decreases last - at,
    {
        if matches_at(hay, needle, at) {
            return true;
        }
        if at == last {
            return false;
        }
        at += 1;
    }
}

/// Length of the stretch at the start of `text` that is free of the byte
/// `stop`: up to the first `stop`, or all of the text if it has none.
pub open spec fn span(text: Seq<u8>, stop: u8) -> nat
    decreases text.len(),
{
    if text.len() == 0 || text[0] == stop {
        0
    } else {
        1 + span(text.drop_first(), stop)
    }
}

/// The stretch is free of `stop`, and ends at a `stop` or at the end of
/// the text.
pub proof fn lemma_span(text: Seq<u8>, stop: u8)
    ensures
        span(text, stop) <= text.len(),
        forall|k: int| 0 <= k < span(text, stop) ==> text[k] != stop,
        span(text, stop) < text.len() ==> text[span(text, stop) as int] == stop,
    decreases text.len(),
{
    if text.len() > 0 && text[0] != stop {
        let rest = text.drop_first();
        lemma_span(rest, stop);
        assert forall|k: int| 0 <= k < span(text, stop) implies text[k] != stop by {
            if k > 0 {
                assert(text[k] == rest[k - 1]);
            }
        }
    }
}

/// A stretch from the start that is free of `stop` and ends at a `stop`,
/// or at the end of the text, is the one that `span` measures.
pub proof fn lemma_span_is(text: Seq<u8>, stop: u8, n: nat)
    requires
        n <= text.len(),
        forall|k: int| 0 <= k < n ==> text[k] != stop,
        n < text.len() ==> text[n as int] == stop,
    ensures
        span(text, stop) == n,
    decreases n,
{
    if n > 0 {
        let rest = text.drop_first();
        assert forall|k: int| 0 <= k < n - 1 implies rest[k] != stop by {
            assert(rest[k] == text[k + 1]);
        }
        lemma_span_is(rest, stop, (n - 1) as nat);
    }
}

/// Finds the first `stop` in `text`; gives the text's length if there is
/// none.
pub fn find_byte(text: &[u8], stop: u8) -> (at: usize)
    ensures
        at == span(text@, stop),
        at <= text@.len(),
        at < text@.len() ==> text@[at as int] == stop,
{
    let len: usize = text.len();
    let mut at: usize = 0;
    while at < len && text[at] != stop
        invariant
            len == text@.len(),
            at <= len,
            forall|k: int| 0 <= k < at ==> text@[k] != stop,
        decreases len - at,
    {
        at += 1;
    }
    proof {
        lemma_span_is(text@, stop, at as nat);
    }
    at
}

/// Tests whether two texts are the same.
pub fn same_text(a: &str, b: &str) -> (same: bool)
    ensures
        same == (a@ == b@),
{
    let x: String = a.to_owned();
    let y: String = b.to_owned();
    x == y
}

} // verus!
