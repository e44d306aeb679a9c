//! Character-level helpers shared by the parsers: whitespace, prefix
//! counting and trimming over sequences of characters.
use vstd::prelude::*;

verus! {

/// Rust's `char::is_whitespace`: the characters of the Unicode
/// `White_Space` property.
pub open spec fn is_ws(c: char) -> bool {
    let u = c as u32;
    ||| 0x9 <= u <= 0xd
    ||| u == 0x20
    ||| u == 0x85
    ||| u == 0xa0
    ||| u == 0x1680
    ||| 0x2000 <= u <= 0x200a
    ||| u == 0x2028
    ||| u == 0x2029
    ||| u == 0x202f
    ||| u == 0x205f
    ||| u == 0x3000
}

/// The whitespace test as a predicate value.
pub open spec fn ws_pred() -> spec_fn(char) -> bool {
    |c: char| is_ws(c)
}

/// Number of leading elements of `s` that satisfy `p`.
pub open spec fn count_while<A>(s: Seq<A>, p: spec_fn(A) -> bool) -> nat
    decreases s.len(),
{
    if s.len() == 0 || !p(s[0]) {
        0
    } else {
        1 + count_while(s.drop_first(), p)
    }
}

/// Number of trailing elements of `s` that satisfy `p`.
pub open spec fn rcount_while<A>(s: Seq<A>, p: spec_fn(A) -> bool) -> nat
    decreases s.len(),
{
    if s.len() == 0 || !p(s.last()) {
        0
    } else {
        1 + rcount_while(s.drop_last(), p)
    }
}

/// `s` without its leading whitespace (`str::trim_start`).
pub open spec fn trim_start(s: Seq<char>) -> Seq<char> {
    s.skip(count_while(s, ws_pred()) as int)
}

/// `s` without its trailing whitespace (`str::trim_end`).
pub open spec fn trim_end(s: Seq<char>) -> Seq<char> {
    s.take(s.len() - rcount_while(s, ws_pred()))
}

/// `s` without leading and trailing whitespace (`str::trim`).
pub open spec fn trim(s: Seq<char>) -> Seq<char> {
    trim_end(trim_start(s))
}

/// The leading run of `p` has length exactly `k` when the first `k`
/// elements satisfy `p` and the next one, if any, does not.
pub proof fn lemma_count_while<A>(s: Seq<A>, p: spec_fn(A) -> bool, k: int)
    requires
        0 <= k <= s.len(),
        forall|i: int| 0 <= i < k ==> p(#[trigger] s[i]),
        k == s.len() || !p(s[k]),
    ensures
        count_while(s, p) == k,
    decreases k,
{
    if k > 0 {
        let t = s.drop_first();
        assert forall|i: int| 0 <= i < k - 1 implies p(#[trigger] t[i]) by {
            assert(t[i] == s[i + 1]);
        }
        if k - 1 < t.len() {
            assert(t[k - 1] == s[k]);
        }
        lemma_count_while(t, p, k - 1);
    }
}

/// The trailing run of `p` starts exactly at `k` when the elements from `k`
/// on satisfy `p` and the one before `k`, if any, does not.
pub proof fn lemma_rcount_while<A>(s: Seq<A>, p: spec_fn(A) -> bool, k: int)
    requires
        0 <= k <= s.len(),
        forall|i: int| k <= i < s.len() ==> p(#[trigger] s[i]),
        k == 0 || !p(s[k - 1]),
    ensures
        rcount_while(s, p) == s.len() - k,
    decreases s.len() - k,
{
    if k < s.len() {
        let t = s.drop_last();
        assert(p(s[s.len() - 1]));
        assert forall|i: int| k <= i < t.len() implies p(#[trigger] t[i]) by {
            assert(t[i] == s[i]);
        }
        if k > 0 {
            assert(t[k - 1] == s[k - 1]);
        }
        lemma_rcount_while(t, p, k);
    }
}

/// The leading run of `p` is a prefix of `s` whose elements satisfy `p`,
/// followed by an element that does not, if any is left.
pub proof fn lemma_count_while_bounds<A>(s: Seq<A>, p: spec_fn(A) -> bool)
    ensures
        count_while(s, p) <= s.len(),
        forall|i: int| 0 <= i < count_while(s, p) ==> p(#[trigger] s[i]),
        count_while(s, p) < s.len() ==> !p(s[count_while(s, p) as int]),
    decreases s.len(),
{
    if s.len() > 0 && p(s[0]) {
        let t = s.drop_first();
        lemma_count_while_bounds(t, p);
        assert forall|i: int| 0 <= i < count_while(s, p) implies p(#[trigger] s[i]) by {
            if i > 0 {
                assert(s[i] == t[i - 1]);
            }
        }
        if count_while(s, p) < s.len() {
            assert(s[count_while(s, p) as int] == t[count_while(t, p) as int]);
        }
    }
}

/// The trailing run of `p` is a suffix of `s` whose elements satisfy `p`,
/// preceded by an element that does not, if any is left.
pub proof fn lemma_rcount_while_bounds<A>(s: Seq<A>, p: spec_fn(A) -> bool)
    ensures
        rcount_while(s, p) <= s.len(),
        forall|i: int| s.len() - rcount_while(s, p) <= i < s.len() ==> p(#[trigger] s[i]),
        rcount_while(s, p) < s.len() ==> !p(s[s.len() - rcount_while(s, p) - 1]),
    decreases s.len(),
{
    if s.len() > 0 && p(s.last()) {
        let t = s.drop_last();
        lemma_rcount_while_bounds(t, p);
        assert forall|i: int| s.len() - rcount_while(s, p) <= i < s.len() implies p(
            #[trigger] s[i],
        ) by {
            if i < s.len() - 1 {
                assert(s[i] == t[i]);
            }
        }
        if rcount_while(s, p) < s.len() {
            assert(s[s.len() - rcount_while(s, p) - 1] == t[t.len() - rcount_while(t, p) - 1]);
        }
    }
}

/// A trimmed sequence neither starts nor ends with whitespace, and trimming
/// it again changes nothing.
pub proof fn lemma_trim_trimmed(s: Seq<char>)
    ensures
        trim(s).len() > 0 ==> !is_ws(trim(s)[0]) && !is_ws(trim(s).last()),
        trim(trim(s)) == trim(s),
{
    let a = trim_start(s);
    lemma_count_while_bounds(s, ws_pred());
    lemma_rcount_while_bounds(a, ws_pred());
    let t = trim(s);
    if t.len() > 0 {
        assert(t[0] == a[0]);
        assert(a[0] == s[count_while(s, ws_pred()) as int]);
        assert(t.last() == a[a.len() - rcount_while(a, ws_pred()) - 1]);
        lemma_count_while(t, ws_pred(), 0);
        assert(t.skip(0) =~= t);
        lemma_rcount_while(t, ws_pred(), t.len() as int);
        assert(t.take(t.len() as int) =~= t);
    } else {
        lemma_count_while(t, ws_pred(), 0);
        assert(t.skip(0) =~= t);
        lemma_rcount_while(t, ws_pred(), 0);
        assert(t.take(0) =~= t);
    }
}

/// Exec form of `is_ws`.
pub fn is_whitespace(c: char) -> (b: bool)
    ensures
        b == is_ws(c),
{
    let u = c as u32;
    (0x9 <= u && u <= 0xd) || u == 0x20 || u == 0x85 || u == 0xa0 || u == 0x1680 || (0x2000
        <= u && u <= 0x200a) || u == 0x2028 || u == 0x2029 || u == 0x202f || u == 0x205f || u
        == 0x3000
}

/// The characters of `s`, in order.
pub fn chars_of(s: &str) -> (v: Vec<char>)
    ensures
        v@ == s@,
{
    broadcast use vstd::string::group_string_axioms;

    let mut v: Vec<char> = Vec::new();
    for c in it: s.chars()
        invariant
            v@ == it.seq().take(it.index()),
            it.seq() == s@,
    {
        v.push(c);
    }
    v
}

/// Bounds of the trimmed part of `v[lo..hi]`.
pub fn trim_bounds(v: &Vec<char>, lo: usize, hi: usize) -> (r: (usize, usize))
    requires
        lo <= hi <= v.len(),
    ensures
        lo <= r.0 <= r.1 <= hi,
        v@.subrange(r.0 as int, r.1 as int) == trim(v@.subrange(lo as int, hi as int)),
{
    let mut a = lo;
    while a < hi && is_whitespace(v[a])
        invariant
            lo <= a <= hi <= v.len(),
            forall|i: int| lo <= i < a ==> is_ws(#[trigger] v@[i]),
        decreases hi - a,
    {
        a = a + 1;
    }
    let mut b = hi;
    while b > a && is_whitespace(v[b - 1])
        invariant
            lo <= a <= b <= hi <= v.len(),
            forall|i: int| b <= i < hi ==> is_ws(#[trigger] v@[i]),
        decreases b - a,
    {
        b = b - 1;
    }
    proof {
        let s = v@.subrange(lo as int, hi as int);
        lemma_count_while(s, ws_pred(), a - lo);
        let t = s.skip(a - lo);
        assert(t =~= v@.subrange(a as int, hi as int));
        lemma_rcount_while(t, ws_pred(), b - a);
        assert(t.take(b - a) =~= v@.subrange(a as int, b as int));
    }
    (a, b)
}

} // verus!
