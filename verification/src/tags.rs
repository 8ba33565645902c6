//! The tag grammar of templates: code tags `<% ... %>`, output tags `<%= ... %>` and include
//! directives `<%@include file="..." %>`, each recognised at a given position of the text.
use vstd::prelude::*;
use crate::text::{find_char, find_from, is_whitespace, is_ws, lemma_find_from, occurs, occurs_at, to_chars};

verus! {

/// The first index at or after `k` that does not hold whitespace, or `t.len()`.
pub open spec fn ws_end(t: Seq<char>, k: nat) -> nat
    decreases t.len() - k,
{
    if k < t.len() && is_ws(t[k as int]) {
        ws_end(t, k + 1)
    } else {
        k
    }
}

/// `ws_end` lands at or after `k`, and only whitespace lies between `k` and it.
pub proof fn lemma_ws_end(t: Seq<char>, k: nat)
    ensures
        k <= ws_end(t, k),
        k <= t.len() ==> ws_end(t, k) <= t.len(),
        ws_end(t, k) < t.len() ==> !is_ws(t[ws_end(t, k) as int]),
        forall|j: int| k <= j < ws_end(t, k) ==> is_ws(#[trigger] t[j]),
    decreases t.len() - k,
{
    if k < t.len() && is_ws(t[k as int]) {
        lemma_ws_end(t, k + 1);
    }
}

/// Whether `%>` stands at `e`.
pub open spec fn closes_at(t: Seq<char>, e: nat) -> bool {
    e + 1 < t.len() && t[e as int] == '%' && t[e + 1int] == '>'
}

/// The end (exclusive) of the code tag that starts at `s`, if one does.
///
/// A code tag is `<%`, optional whitespace, one character other than `=`, characters other
/// than `%`, optional whitespace and `%>`. With the whitespace after `<%` taken as long as
/// possible the tag closes at the first `%` after the character that follows it; only where
/// that fails is the last of that whitespace taken as the first character, and the tag closes at
/// the first `%` after the whitespace.
pub open spec fn code_tag_end(t: Seq<char>, s: nat) -> Option<nat> {
    if s + 2 <= t.len() && t[s as int] == '<' && t[s + 1int] == '%' {
        let p = s + 2;
        let q = ws_end(t, p);
        let e1 = find_from(t, '%', q + 1);
        let e2 = find_from(t, '%', q);
        if q < t.len() && t[q as int] != '=' && closes_at(t, e1) {
            Some(e1 + 2)
        } else if q > p && closes_at(t, e2) {
            Some(e2 + 2)
        } else {
            None
        }
    } else {
        None
    }
}

/// The end (exclusive) of the output tag that starts at `s`, if one does: `<%=`, then one or
/// more characters other than `%`, then `%>`.
pub open spec fn output_tag_end(t: Seq<char>, s: nat) -> Option<nat> {
    if s + 3 <= t.len() && t[s as int] == '<' && t[s + 1int] == '%' && t[s + 2int] == '=' {
        let e = find_from(t, '%', s + 3);
        if e > s + 3 && closes_at(t, e) {
            Some(e + 2)
        } else {
            None
        }
    } else {
        None
    }
}

/// The include directive that starts at `s`, if one does, as the bounds of the file name and
/// the end (exclusive) of the directive: `<%@include`, one or more whitespace characters,
/// `file="`, a name of one or more characters other than `"`, `"`, optional whitespace and `%>`.
pub open spec fn include_tag(t: Seq<char>, s: nat) -> Option<(nat, nat, nat)> {
    if occurs_at(t, s, "<%@include"@) {
        let a = s + "<%@include"@.len();
        let b = ws_end(t, a);
        if b > a && occurs_at(t, b, "file=\""@) {
            let lo = b + "file=\""@.len();
            let hi = find_from(t, '"', lo);
            if hi > lo && hi < t.len() && closes_at(t, ws_end(t, hi + 1)) {
                Some((lo, hi, ws_end(t, hi + 1) + 2))
            } else {
                None
            }
        } else {
            None
        }
    } else {
        None
    }
}

/// A code tag spans at least `<%`, one character and `%>`, within the text.
pub proof fn lemma_code_tag_end(t: Seq<char>, s: nat)
    ensures
        code_tag_end(t, s) matches Some(e) ==> s + 4 <= e <= t.len() && t[e - 2] == '%'
            && t[e - 1] == '>',
{
    if s + 2 <= t.len() && t[s as int] == '<' && t[s + 1int] == '%' {
        let q = ws_end(t, s + 2);
        lemma_ws_end(t, s + 2);
        lemma_find_from(t, '%', q + 1);
        lemma_find_from(t, '%', q);
    }
}

/// An output tag spans at least `<%=`, one character and `%>`, within the text.
pub proof fn lemma_output_tag_end(t: Seq<char>, s: nat)
    ensures
        output_tag_end(t, s) matches Some(e) ==> s + 5 <= e <= t.len(),
{
    lemma_find_from(t, '%', s + 3);
}

/// An include directive's name lies inside it, and it lies within the text.
pub proof fn lemma_include_tag(t: Seq<char>, s: nat)
    ensures
        include_tag(t, s) matches Some((lo, hi, e)) ==> s < lo < hi < e <= t.len(),
{
    if occurs_at(t, s, "<%@include"@) {
        let a = s + "<%@include"@.len();
        lemma_ws_end(t, a);
        let b = ws_end(t, a);
        if b > a && occurs_at(t, b, "file=\""@) {
            let lo = b + "file=\""@.len();
            lemma_find_from(t, '"', lo);
            let hi = find_from(t, '"', lo);
            lemma_ws_end(t, hi + 1);
        }
    }
}

/// Executable `ws_end`.
pub fn skip_ws(t: &Vec<char>, k: usize) -> (r: usize)
    requires
        k <= t@.len(),
    ensures
        r == ws_end(t@, k as nat),
        k <= r <= t@.len(),
{
    let mut i = k;
    while i < t.len() && is_whitespace(t[i])
        invariant
            k <= i <= t@.len(),
            ws_end(t@, k as nat) == ws_end(t@, i as nat),
        decreases t.len() - i,
    {
        i += 1;
    }
    i
}

/// Executable `closes_at`.
fn closes(t: &Vec<char>, e: usize) -> (r: bool)
    ensures
        r == closes_at(t@, e as nat),
{
    e < t.len() && t.len() - e > 1 && t[e] == '%' && t[e + 1] == '>'
}

/// Executable `code_tag_end`.
pub fn code_tag_at(t: &Vec<char>, s: usize) -> (r: Option<usize>)
    ensures
        match r {
            Some(e) => code_tag_end(t@, s as nat) == Some(e as nat),
            None => code_tag_end(t@, s as nat) is None,
        },
{
    if !(s < t.len() && t.len() - s >= 2 && t[s] == '<' && t[s + 1] == '%') {
        return None;
    }
    let p = s + 2;
    let q = skip_ws(t, p);
    if q < t.len() && t[q] != '=' {
        let e1 = find_char(t, '%', q + 1);
        if closes(t, e1) {
            return Some(e1 + 2);
        }
    }
    if q > p {
        let e2 = find_char(t, '%', q);
        if closes(t, e2) {
            return Some(e2 + 2);
        }
    }
    None
}

/// Executable `output_tag_end`.
pub fn output_tag_at(t: &Vec<char>, s: usize) -> (r: Option<usize>)
    ensures
        match r {
            Some(e) => output_tag_end(t@, s as nat) == Some(e as nat),
            None => output_tag_end(t@, s as nat) is None,
        },
{
    if !(s < t.len() && t.len() - s >= 3 && t[s] == '<' && t[s + 1] == '%' && t[s + 2] == '=') {
        return None;
    }
    let e = find_char(t, '%', s + 3);
    if e > s + 3 && closes(t, e) {
        Some(e + 2)
    } else {
        None
    }
}

/// Executable `include_tag`.
pub fn include_tag_at(t: &Vec<char>, s: usize) -> (r: Option<(usize, usize, usize)>)
    ensures
        match r {
            Some((lo, hi, e)) => include_tag(t@, s as nat) == Some((lo as nat, hi as nat, e as nat)),
            None => include_tag(t@, s as nat) is None,
        },
{
    let n = t.len();
    let head = to_chars("<%@include");
    if !occurs(t, s, &head) {
        return None;
    }
    let a = s + head.len();
    let b = skip_ws(t, a);
    let key = to_chars("file=\"");
    if !(b > a && occurs(t, b, &key)) {
        return None;
    }
    assert(b + key@.len() <= n);
    let lo = b + key.len();
    let hi = find_char(t, '"', lo);
    if !(hi > lo && hi < t.len()) {
        return None;
    }
    let c = skip_ws(t, hi + 1);
    if closes(t, c) {
        Some((lo, hi, c + 2))
    } else {
        None
    }
}

} // verus!
