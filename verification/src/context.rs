//! The request as templates see it, and the lookups that output tags make in it.
use vstd::prelude::*;
use crate::text::{equals_range, find_char, find_from, lemma_find_from, slice_chars, to_chars};

verus! {

/// What a template can read of the request being answered: its method, URL, host, remote
/// address, query string, and the `&`-separated `name=value` fields of a submitted form (empty
/// when none was submitted).
pub struct TemplateContext {
    pub method: String,
    pub uri: String,
    pub host: String,
    pub remote_addr: String,
    pub query_string: String,
    pub form_data: String,
}

/// The value of a `request.` expression: the request's method, URL, host, remote address or
/// query string for `request.method`, `request.url`, `request.host`, `request.remoteaddr` and
/// `request.query`; any other expression stands for itself.
pub open spec fn request_value(expr: Seq<char>, ctx: TemplateContext) -> Seq<char> {
    if expr == "request.method"@ {
        ctx.method@
    } else if expr == "request.url"@ {
        ctx.uri@
    } else if expr == "request.host"@ {
        ctx.host@
    } else if expr == "request.remoteaddr"@ {
        ctx.remote_addr@
    } else if expr == "request.query"@ {
        ctx.query_string@
    } else {
        expr
    }
}

/// The value of parameter `name` in the `&`-separated pairs of `qs` from position `start` on:
/// the text after the first `=` of the first pair whose text before its first `=` is `name`;
/// empty when no pair has that name. A pair without `=` names nothing.
pub open spec fn query_param_from(qs: Seq<char>, name: Seq<char>, start: nat) -> Seq<char>
    decreases qs.len() - start,
{
    if start > qs.len() {
        Seq::empty()
    } else {
        let k = find_from(qs, '&', start);
        let j = find_from(qs, '=', start);
        if j < k && qs.subrange(start as int, j as int) == name {
            qs.subrange(j + 1int, k as int)
        } else if k < qs.len() {
            proof {
                lemma_find_from(qs, '&', start);
            }
            query_param_from(qs, name, k + 1)
        } else {
            Seq::empty()
        }
    }
}

/// The value of parameter `name` in the query string `qs`.
pub open spec fn query_param(qs: Seq<char>, name: Seq<char>) -> Seq<char> {
    query_param_from(qs, name, 0)
}

/// Executable `request_value`.
pub fn request_lookup(expr: &Vec<char>, ctx: &TemplateContext) -> (r: Vec<char>)
    ensures
        r@ == request_value(expr@, *ctx),
{
    let n = expr.len();
    if equals_range(expr, 0, n, &to_chars("request.method")) {
        assert(expr@.subrange(0, n as int) =~= expr@);
        to_chars(ctx.method.as_str())
    } else if equals_range(expr, 0, n, &to_chars("request.url")) {
        assert(expr@.subrange(0, n as int) =~= expr@);
        to_chars(ctx.uri.as_str())
    } else if equals_range(expr, 0, n, &to_chars("request.host")) {
        assert(expr@.subrange(0, n as int) =~= expr@);
        to_chars(ctx.host.as_str())
    } else if equals_range(expr, 0, n, &to_chars("request.remoteaddr")) {
        assert(expr@.subrange(0, n as int) =~= expr@);
        to_chars(ctx.remote_addr.as_str())
    } else if equals_range(expr, 0, n, &to_chars("request.query")) {
        assert(expr@.subrange(0, n as int) =~= expr@);
        to_chars(ctx.query_string.as_str())
    } else {
        assert(expr@.subrange(0, n as int) =~= expr@);
        slice_chars(expr, 0, n)
    }
}

/// Executable `query_param`.
pub fn query_lookup(qs: &Vec<char>, name: &Vec<char>) -> (r: Vec<char>)
    ensures
        r@ == query_param(qs@, name@),
{
    let mut start: usize = 0;
    while start <= qs.len()
        invariant
            start <= qs@.len() + 1,
            query_param(qs@, name@) == query_param_from(qs@, name@, start as nat),
        decreases qs@.len() + 1 - start,
    {
        let k = find_char(qs, '&', start);
        let j = find_char(qs, '=', start);
        proof {
            lemma_find_from(qs@, '&', start as nat);
            lemma_find_from(qs@, '=', start as nat);
        }
        if j < k && equals_range(qs, start, j, name) {
            return slice_chars(qs, j + 1, k);
        }
        if k < qs.len() {
            start = k + 1;
        } else {
            return Vec::new();
        }
    }
    Vec::new()
}

} // verus!
