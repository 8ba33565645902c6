//! Character-level helpers: whitespace, trimming, conversions.
use vstd::prelude::*;

verus! {

/// The Unicode `White_Space` property.
pub open spec fn is_ws(c: char) -> bool {
    let u = c as u32;
    ||| 0x09 <= u <= 0x0D
    ||| u == 0x20
    ||| u == 0x85
    ||| u == 0xA0
    ||| u == 0x1680
    ||| 0x2000 <= u <= 0x200A
    ||| u == 0x2028
    ||| u == 0x2029
    ||| u == 0x202F
    ||| u == 0x205F
    ||| u == 0x3000
}

/// Executable test for the Unicode `White_Space` property.
pub fn is_whitespace(c: char) -> (r: bool)
    ensures
        r == is_ws(c),
{
    let u = c as u32;
    (0x09 <= u && u <= 0x0D) || u == 0x20 || u == 0x85 || u == 0xA0 || u == 0x1680 || (0x2000
        <= u && u <= 0x200A) || u == 0x2028 || u == 0x2029 || u == 0x202F || u == 0x205F || u
        == 0x3000
}

/// The characters of a string slice, in order.
pub fn to_chars(s: &str) -> (v: Vec<char>)
    ensures
        v@ == s@,
{
    let mut v: Vec<char> = Vec::new();
    for c in it: s.chars()
        invariant
            v@ == it.seq().take(it.index() as int),
    {
        v.push(c);
    }
    v
}

/// Appends `c` to the end of `s` with `String::push`.
#[verifier::external_body]
fn push_char(s: &mut String, c: char)
    ensures
        final(s)@ == old(s)@.push(c),
{
    s.push(c);
}

/// A string made of the characters `v[lo..hi]`.
pub fn from_chars(v: &[char], lo: usize, hi: usize) -> (s: String)
    requires
        lo <= hi <= v@.len(),
    ensures
        s@ == v@.subrange(lo as int, hi as int),
{
    let mut s = String::new();
    let mut i = lo;
    while i < hi
        invariant
            lo <= i <= hi <= v@.len(),
            s@ == v@.subrange(lo as int, i as int),
        decreases hi - i,
    {
        push_char(&mut s, v[i]);
        i += 1;
        assert(s@ =~= v@.subrange(lo as int, i as int));
    }
    s
}


/// `s` with its leading whitespace removed.
pub open spec fn trim_start(s: Seq<char>) -> Seq<char>
    decreases s.len(),
{
    if s.len() > 0 && is_ws(s[0]) {
        trim_start(s.drop_first())
    } else {
        s
    }
}

/// `s` with its trailing whitespace removed.
pub open spec fn trim_end(s: Seq<char>) -> Seq<char>
    decreases s.len(),
{
    if s.len() > 0 && is_ws(s.last()) {
        trim_end(s.drop_last())
    } else {
        s
    }
}

/// `s` with leading and trailing whitespace removed.
pub open spec fn trim(s: Seq<char>) -> Seq<char> {
    trim_end(trim_start(s))
}

/// The first index at or after `k` where `t` holds `c`, or `t.len()` if there is none.
pub open spec fn find_from(t: Seq<char>, c: char, k: nat) -> nat
    decreases t.len() - k,
{
    if k >= t.len() {
        t.len()
    } else if t[k as int] == c {
        k
    } else {
        find_from(t, c, k + 1)
    }
}

/// `find_from` lands at or after `k`, never past the end, on a `c` when it is not at the end,
/// and no `c` lies between `k` and it.
pub proof fn lemma_find_from(t: Seq<char>, c: char, k: nat)
    ensures
        k <= t.len() ==> k <= find_from(t, c, k),
        find_from(t, c, k) <= t.len(),
        find_from(t, c, k) < t.len() ==> t[find_from(t, c, k) as int] == c,
        forall|j: int| k <= j < find_from(t, c, k) ==> t[j] != c,
    decreases t.len() - k,
{
    if k < t.len() && t[k as int] != c {
        lemma_find_from(t, c, k + 1);
    }
}

/// `find_from` finds `c` at `j` when `c` stands at `j` (or `j` is the end) and nowhere between
/// `k` and `j`.
pub proof fn lemma_find_from_at(t: Seq<char>, c: char, k: nat, j: nat)
    requires
        k <= j <= t.len(),
        j < t.len() ==> t[j as int] == c,
        forall|m: int| k <= m < j ==> t[m] != c,
    ensures
        find_from(t, c, k) == j,
    decreases j - k,
{
    if k < j {
        lemma_find_from_at(t, c, k + 1, j);
    }
}

/// Whether every character of `s` is whitespace.
pub open spec fn all_ws(s: Seq<char>) -> bool {
    forall|i: int| 0 <= i < s.len() ==> is_ws(#[trigger] s[i])
}

/// Leading whitespace goes, the rest stays.
pub proof fn lemma_trim_start_ws(pre: Seq<char>, x: Seq<char>)
    requires
        all_ws(pre),
    ensures
        trim_start(pre + x) == trim_start(x),
    decreases pre.len(),
{
    if pre.len() > 0 {
        assert(is_ws(pre[0]));
        assert((pre + x)[0] == pre[0]);
        assert((pre + x).drop_first() =~= pre.drop_first() + x);
        assert(all_ws(pre.drop_first())) by {
            assert forall|i: int| 0 <= i < pre.drop_first().len() implies is_ws(
                #[trigger] pre.drop_first()[i],
            ) by {
                assert(pre.drop_first()[i] == pre[i + 1]);
            }
        }
        lemma_trim_start_ws(pre.drop_first(), x);
    } else {
        assert(pre + x =~= x);
    }
}

/// Trailing whitespace goes, the rest stays.
pub proof fn lemma_trim_end_ws(y: Seq<char>, post: Seq<char>)
    requires
        all_ws(post),
    ensures
        trim_end(y + post) == trim_end(y),
    decreases post.len(),
{
    if post.len() > 0 {
        assert(is_ws(post[post.len() - 1]));
        assert((y + post).last() == post.last());
        assert((y + post).drop_last() =~= y + post.drop_last());
        assert(all_ws(post.drop_last())) by {
            assert forall|i: int| 0 <= i < post.drop_last().len() implies is_ws(
                #[trigger] post.drop_last()[i],
            ) by {
                assert(post.drop_last()[i] == post[i]);
            }
        }
        lemma_trim_end_ws(y, post.drop_last());
    } else {
        assert(y + post =~= y);
    }
}

/// Trimming whitespace from around a text that neither starts nor ends with whitespace gives
/// that text.
pub proof fn lemma_trim_around(pre: Seq<char>, s: Seq<char>, post: Seq<char>)
    requires
        all_ws(pre),
        all_ws(post),
        s.len() > 0,
        !is_ws(s[0]),
        !is_ws(s.last()),
    ensures
        trim(pre + s + post) == s,
{
    assert(pre + s + post =~= pre + (s + post));
    lemma_trim_start_ws(pre, s + post);
    assert((s + post)[0] == s[0]);
    lemma_trim_end_ws(s, post);
}

/// Whether `p` occurs in `t` at position `i`.
pub open spec fn occurs_at(t: Seq<char>, i: nat, p: Seq<char>) -> bool {
    i + p.len() <= t.len() && t.subrange(i as int, (i + p.len()) as int) == p
}

/// The first index at or after `k` where `p` occurs in `t`, or `t.len()` if there is none.
pub open spec fn find_seq(t: Seq<char>, p: Seq<char>, k: nat) -> nat
    decreases t.len() - k,
{
    if k >= t.len() {
        t.len()
    } else if occurs_at(t, k, p) {
        k
    } else {
        find_seq(t, p, k + 1)
    }
}

/// `find_seq` lands at or after `k`, never past the end, and on an occurrence of `p` when it is
/// not at the end.
pub proof fn lemma_find_seq(t: Seq<char>, p: Seq<char>, k: nat)
    ensures
        k <= t.len() ==> k <= find_seq(t, p, k),
        find_seq(t, p, k) <= t.len(),
        find_seq(t, p, k) < t.len() ==> occurs_at(t, find_seq(t, p, k), p),
    decreases t.len() - k,
{
    if k < t.len() && !occurs_at(t, k, p) {
        lemma_find_seq(t, p, k + 1);
    }
}

/// `find_seq` finds `p` at `j` when it occurs there (or `j` is the end) and nowhere between
/// `k` and `j`.
pub proof fn lemma_find_seq_at(t: Seq<char>, p: Seq<char>, k: nat, j: nat)
    requires
        k <= j <= t.len(),
        j < t.len() ==> occurs_at(t, j, p),
        forall|m: nat| k <= m < j ==> !#[trigger] occurs_at(t, m, p),
    ensures
        find_seq(t, p, k) == j,
    decreases j - k,
{
    if k < j {
        lemma_find_seq_at(t, p, k + 1, j);
    }
}

/// Executable `find_seq`.
pub fn find_pattern(t: &Vec<char>, p: &Vec<char>, k: usize) -> (r: usize)
    ensures
        r == find_seq(t@, p@, k as nat),
{
    let mut i = k;
    if i >= t.len() {
        return t.len();
    }
    while i < t.len()
        invariant
            k <= i <= t@.len(),
            find_seq(t@, p@, k as nat) == find_seq(t@, p@, i as nat),
        decreases t.len() - i,
    {
        if occurs(t, i, p) {
            return i;
        }
        i += 1;
    }
    i
}

/// Executable `find_from`.
pub fn find_char(t: &Vec<char>, c: char, k: usize) -> (r: usize)
    ensures
        r == find_from(t@, c, k as nat),
{
    let mut i = k;
    if i >= t.len() {
        return t.len();
    }
    while i < t.len()
        invariant
            k <= i <= t@.len(),
            find_from(t@, c, k as nat) == find_from(t@, c, i as nat),
        decreases t.len() - i,
    {
        if t[i] == c {
            return i;
        }
        i += 1;
    }
    i
}

/// Executable `occurs_at`.
pub fn occurs(t: &Vec<char>, i: usize, p: &Vec<char>) -> (r: bool)
    ensures
        r == occurs_at(t@, i as nat, p@),
{
    if i > t.len() || p.len() > t.len() - i {
        return false;
    }
    let mut j: usize = 0;
    while j < p.len()
        invariant
            i + p.len() <= t.len(),
            j <= p@.len(),
            forall|m: int| 0 <= m < j ==> t@[i + m] == p@[m],
        decreases p.len() - j,
    {
        if t[i + j] != p[j] {
            assert(t@.subrange(i as int, i + p@.len())[j as int] != p@[j as int]);
            return false;
        }
        j += 1;
    }
    assert(t@.subrange(i as int, i + p@.len()) =~= p@);
    true
}

/// Executable equality of `t[lo..hi]` and `p`.
pub fn equals_range(t: &Vec<char>, lo: usize, hi: usize, p: &Vec<char>) -> (r: bool)
    requires
        lo <= hi <= t@.len(),
    ensures
        r == (t@.subrange(lo as int, hi as int) == p@),
{
    if hi - lo != p.len() {
        assert(t@.subrange(lo as int, hi as int).len() != p@.len());
        return false;
    }
    occurs(t, lo, p)
}

/// The bounds, inside `lo..hi`, of `t[lo..hi]` with surrounding whitespace removed.
pub fn trim_bounds(t: &Vec<char>, lo: usize, hi: usize) -> (r: (usize, usize))
    requires
        lo <= hi <= t@.len(),
    ensures
        lo <= r.0 <= r.1 <= hi,
        t@.subrange(r.0 as int, r.1 as int) == trim(t@.subrange(lo as int, hi as int)),
{
    let mut a = lo;
    while a < hi && is_whitespace(t[a])
        invariant
            lo <= a <= hi <= t@.len(),
            trim_start(t@.subrange(lo as int, hi as int)) == trim_start(
                t@.subrange(a as int, hi as int),
            ),
        decreases hi - a,
    {
        assert(t@.subrange(a as int, hi as int).drop_first() =~= t@.subrange(a + 1, hi as int));
        a += 1;
    }
    let mut b = hi;
    while b > a && is_whitespace(t[b - 1])
        invariant
            lo <= a <= b <= hi <= t@.len(),
            trim_end(t@.subrange(a as int, hi as int)) == trim_end(
                t@.subrange(a as int, b as int),
            ),
        decreases b - a,
    {
        assert(t@.subrange(a as int, b as int).drop_last() =~= t@.subrange(a as int, b - 1));
        b -= 1;
    }
    (a, b)
}

/// A copy of `t[lo..hi]`.
pub fn slice_chars(t: &Vec<char>, lo: usize, hi: usize) -> (r: Vec<char>)
    requires
        lo <= hi <= t@.len(),
    ensures
        r@ == t@.subrange(lo as int, hi as int),
{
    let mut r: Vec<char> = Vec::new();
    let mut i = lo;
    while i < hi
        invariant
            lo <= i <= hi <= t@.len(),
            r@ == t@.subrange(lo as int, i as int),
        decreases hi - i,
    {
        r.push(t[i]);
        i += 1;
        assert(r@ =~= t@.subrange(lo as int, i as int));
    }
    r
}

/// Appends `t[lo..hi]` to `out`.
pub fn extend_range(out: &mut Vec<char>, t: &Vec<char>, lo: usize, hi: usize)
    requires
        lo <= hi <= t@.len(),
    ensures
        final(out)@ == old(out)@ + t@.subrange(lo as int, hi as int),
{
    let mut i = lo;
    while i < hi
        invariant
            lo <= i <= hi <= t@.len(),
            out@ == old(out)@ + t@.subrange(lo as int, i as int),
        decreases hi - i,
    {
        out.push(t[i]);
        i += 1;
        assert(out@ =~= old(out)@ + t@.subrange(lo as int, i as int));
    }
}

/// Appends all of `p` to `out`.
pub fn extend_all(out: &mut Vec<char>, p: &Vec<char>)
    ensures
        final(out)@ == old(out)@ + p@,
{
    extend_range(out, p, 0, p.len());
    assert(p@.subrange(0, p@.len() as int) =~= p@);
}

} // verus!
