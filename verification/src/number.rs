//! Decimal integers: reading them from text and writing them back.
use vstd::prelude::*;

verus! {

/// An ASCII decimal digit.
pub open spec fn is_digit(c: char) -> bool {
    '0' <= c && c <= '9'
}

/// The value of an ASCII decimal digit.
pub open spec fn digit_value(c: char) -> int {
    c as int - '0' as int
}

/// Whether every character of `s` is an ASCII decimal digit.
pub open spec fn all_digits(s: Seq<char>) -> bool {
    forall|i: int| 0 <= i < s.len() ==> is_digit(#[trigger] s[i])
}

/// The value of a string of decimal digits, most significant first.
pub open spec fn digits_value(s: Seq<char>) -> int
    decreases s.len(),
{
    if s.len() == 0 {
        0
    } else {
        digits_value(s.drop_last()) * 10 + digit_value(s.last())
    }
}

/// A decimal integer: an optional sign (`+`, or `-` where `allow_minus`) followed by one or
/// more ASCII digits, and nothing else. No bound on its size.
pub open spec fn parse_decimal(s: Seq<char>, allow_minus: bool) -> Option<int> {
    if s.len() > 0 && (s[0] == '+' || (allow_minus && s[0] == '-')) {
        let ds = s.drop_first();
        if ds.len() > 0 && all_digits(ds) {
            Some(if s[0] == '-' { -digits_value(ds) } else { digits_value(ds) })
        } else {
            None
        }
    } else if s.len() > 0 && all_digits(s) {
        Some(digits_value(s))
    } else {
        None
    }
}

/// What reading `s` as an `i32` gives: a signed decimal within the `i32` range.
pub open spec fn parse_i32(s: Seq<char>) -> Option<int> {
    match parse_decimal(s, true) {
        Some(v) => if i32::MIN <= v <= i32::MAX {
            Some(v)
        } else {
            None
        },
        None => None,
    }
}

/// What reading `s` as a `u16` gives: an unsigned decimal within the `u16` range.
pub open spec fn parse_u16(s: Seq<char>) -> Option<int> {
    match parse_decimal(s, false) {
        Some(v) => if 0 <= v <= u16::MAX {
            Some(v)
        } else {
            None
        },
        None => None,
    }
}

/// The ASCII digit for `d < 10`.
pub open spec fn digit_char(d: nat) -> char {
    if d == 0 {
        '0'
    } else if d == 1 {
        '1'
    } else if d == 2 {
        '2'
    } else if d == 3 {
        '3'
    } else if d == 4 {
        '4'
    } else if d == 5 {
        '5'
    } else if d == 6 {
        '6'
    } else if d == 7 {
        '7'
    } else if d == 8 {
        '8'
    } else {
        '9'
    }
}

/// The decimal text of `n`, without leading zeros.
pub open spec fn nat_str(n: nat) -> Seq<char>
    decreases n,
{
    if n < 10 {
        seq![digit_char(n)]
    } else {
        nat_str(n / 10).push(digit_char(n % 10))
    }
}

/// The decimal text of `n`, with a leading `-` when it is negative.
pub open spec fn int_str(n: int) -> Seq<char> {
    if n < 0 {
        seq!['-'] + nat_str((-n) as nat)
    } else {
        nat_str(n as nat)
    }
}

/// A digit string is at least as large as any of its prefixes.
pub proof fn lemma_digits_prefix(s: Seq<char>, j: int)
    requires
        all_digits(s),
        0 <= j <= s.len(),
    ensures
        0 <= digits_value(s.take(j)) <= digits_value(s),
    decreases s.len(),
{
    if s.len() > 0 {
        let d = s.drop_last();
        assert(all_digits(d)) by {
            assert forall|i: int| 0 <= i < d.len() implies is_digit(#[trigger] d[i]) by {
                assert(d[i] == s[i]);
            }
        }
        assert(is_digit(s[s.len() - 1]));
        if j < s.len() {
            lemma_digits_prefix(d, j);
            assert(d.take(j) =~= s.take(j));
        } else {
            lemma_digits_prefix(d, d.len() as int);
            assert(d.take(d.len() as int) =~= d);
            assert(s.take(j) =~= s);
        }
    }
}

/// `digit_char` gives a digit of the right value.
pub proof fn lemma_digit_char(d: nat)
    requires
        d < 10,
    ensures
        is_digit(digit_char(d)),
        digit_value(digit_char(d)) == d,
{
}

/// `nat_str` writes digits only, at least one, and reads back as `n`.
pub proof fn lemma_nat_str(n: nat)
    ensures
        nat_str(n).len() >= 1,
        all_digits(nat_str(n)),
        digits_value(nat_str(n)) == n,
    decreases n,
{
    if n < 10 {
        lemma_digit_char(n);
        let s = nat_str(n);
        assert(s.drop_last() =~= Seq::<char>::empty());
        assert(digits_value(s.drop_last()) == 0);
        assert(s.last() == digit_char(n));
        assert(digits_value(s) == digits_value(s.drop_last()) * 10 + digit_value(s.last()));
    } else {
        lemma_digit_char(n % 10);
        lemma_nat_str(n / 10);
        let s = nat_str(n);
        assert(s.drop_last() =~= nat_str(n / 10));
        assert(all_digits(s)) by {
            assert forall|i: int| 0 <= i < s.len() implies is_digit(#[trigger] s[i]) by {
                if i < s.len() - 1 {
                    assert(s[i] == nat_str(n / 10)[i]);
                }
            }
        }
        assert(s.last() == digit_char(n % 10));
        assert(digits_value(s) == digits_value(s.drop_last()) * 10 + digit_value(s.last()));
        assert(n == (n / 10) * 10 + n % 10);
    }
}

/// Reading back the text of an `i32` gives the same number.
pub proof fn lemma_parse_int_str(v: int)
    requires
        i32::MIN <= v <= i32::MAX,
    ensures
        parse_i32(int_str(v)) == Some(v),
{
    if v < 0 {
        lemma_nat_str((-v) as nat);
        assert((seq!['-'] + nat_str((-v) as nat)).drop_first() =~= nat_str((-v) as nat));
    } else {
        lemma_nat_str(v as nat);
        assert(is_digit(nat_str(v as nat)[0]));
    }
}

/// Reads `t[lo..hi]` as a string of digits whose value is at most `limit`.
fn digits_upto(t: &Vec<char>, lo: usize, hi: usize, limit: u64) -> (r: Option<u64>)
    requires
        lo <= hi <= t@.len(),
        limit <= u32::MAX,
    ensures
        match r {
            Some(v) => all_digits(t@.subrange(lo as int, hi as int)) && v == digits_value(
                t@.subrange(lo as int, hi as int),
            ) && v <= limit,
            None => !all_digits(t@.subrange(lo as int, hi as int)) || digits_value(
                t@.subrange(lo as int, hi as int),
            ) > limit,
        },
{
    let ghost s = t@.subrange(lo as int, hi as int);
    let mut acc: u64 = 0;
    let mut i = lo;
    assert(t@.subrange(lo as int, lo as int) =~= Seq::<char>::empty());
    while i < hi
        invariant
            lo <= i <= hi <= t@.len(),
            limit <= u32::MAX,
            s == t@.subrange(lo as int, hi as int),
            all_digits(t@.subrange(lo as int, i as int)),
            acc == digits_value(t@.subrange(lo as int, i as int)),
            acc <= limit,
        decreases hi - i,
    {
        let c = t[i];
        if !('0' <= c && c <= '9') {
            assert(s[i - lo] == c);
            return None;
        }
        let d: u64 = (c as u32 - '0' as u32) as u64;
        let ghost prev = t@.subrange(lo as int, i as int);
        let ghost next = t@.subrange(lo as int, i + 1);
        assert(next.drop_last() =~= prev);
        assert(all_digits(next)) by {
            assert forall|m: int| 0 <= m < next.len() implies is_digit(#[trigger] next[m]) by {
                if m < prev.len() {
                    assert(next[m] == prev[m]);
                }
            }
        }
        acc = acc * 10 + d;
        i += 1;
        if acc > limit {
            proof {
                assert(next =~= s.take((i - lo) as int));
                if all_digits(s) {
                    lemma_digits_prefix(s, (i - lo) as int);
                }
            }
            return None;
        }
    }
    Some(acc)
}

/// Reads `t[lo..hi]` as an `i32`: an optional `+` or `-`, then one or more ASCII digits, within
/// the `i32` range.
pub fn parse_i32_range(t: &Vec<char>, lo: usize, hi: usize) -> (r: Option<i32>)
    requires
        lo <= hi <= t@.len(),
    ensures
        match r {
            Some(x) => parse_i32(t@.subrange(lo as int, hi as int)) == Some(x as int),
            None => parse_i32(t@.subrange(lo as int, hi as int)) is None,
        },
{
    let ghost s = t@.subrange(lo as int, hi as int);
    if lo == hi {
        return None;
    }
    let c = t[lo];
    if c == '+' || c == '-' {
        assert(s.drop_first() =~= t@.subrange(lo + 1, hi as int));
        if lo + 1 == hi {
            return None;
        }
        let limit: u64 = if c == '-' { 2147483648 } else { 2147483647 };
        match digits_upto(t, lo + 1, hi, limit) {
            Some(v) => {
                if c == '-' {
                    Some((0 - (v as i64)) as i32)
                } else {
                    Some(v as i32)
                }
            },
            None => None,
        }
    } else {
        match digits_upto(t, lo, hi, 2147483647) {
            Some(v) => Some(v as i32),
            None => None,
        }
    }
}

/// Reads `t[lo..hi]` as a `u16`: an optional `+`, then one or more ASCII digits, within the
/// `u16` range.
pub fn parse_u16_range(t: &Vec<char>, lo: usize, hi: usize) -> (r: Option<u16>)
    requires
        lo <= hi <= t@.len(),
    ensures
        match r {
            Some(x) => parse_u16(t@.subrange(lo as int, hi as int)) == Some(x as int),
            None => parse_u16(t@.subrange(lo as int, hi as int)) is None,
        },
{
    let ghost s = t@.subrange(lo as int, hi as int);
    if lo == hi {
        return None;
    }
    let start = if t[lo] == '+' {
        assert(s.drop_first() =~= t@.subrange(lo + 1, hi as int));
        if lo + 1 == hi {
            return None;
        }
        lo + 1
    } else {
        lo
    };
    match digits_upto(t, start, hi, 65535) {
        Some(v) => Some(v as u16),
        None => None,
    }
}

/// Appends the decimal text of `n` to `out`.
fn push_digits(out: &mut Vec<char>, n: u64)
    ensures
        final(out)@ == old(out)@ + nat_str(n as nat),
    decreases n,
{
    if n >= 10 {
        push_digits(out, n / 10);
    }
    let d = n % 10;
    let c = if d == 0 {
        '0'
    } else if d == 1 {
        '1'
    } else if d == 2 {
        '2'
    } else if d == 3 {
        '3'
    } else if d == 4 {
        '4'
    } else if d == 5 {
        '5'
    } else if d == 6 {
        '6'
    } else if d == 7 {
        '7'
    } else if d == 8 {
        '8'
    } else {
        '9'
    };
    out.push(c);
    assert(final(out)@ =~= old(out)@ + nat_str(n as nat));
}

/// The decimal text of `v`.
pub fn int_to_chars(v: i64) -> (r: Vec<char>)
    requires
        v > i64::MIN,
    ensures
        r@ == int_str(v as int),
{
    let mut out: Vec<char> = Vec::new();
    if v < 0 {
        out.push('-');
        push_digits(&mut out, (0 - v) as u64);
    } else {
        push_digits(&mut out, v as u64);
    }
    out
}

} // verus!
