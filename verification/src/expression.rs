//! Values in templates: variables, quoted literals, request fields, query and form parameters,
//! and expressions that join terms with `+`.
use vstd::prelude::*;
use vstd::hash_map::StringHashMap;
use crate::context::{query_lookup, query_param, request_lookup, request_value, TemplateContext};
use crate::number::{int_str, int_to_chars, parse_i32, parse_i32_range};
use crate::text::{
    extend_all, find_char, find_from, from_chars, lemma_find_from, occurs, occurs_at,
    slice_chars, to_chars, trim, trim_bounds,
};

verus! {

/// Template variables: names to values.
pub type Vars = Map<Seq<char>, Seq<char>>;

/// The variables held in a map of `String` values.
pub open spec fn string_vars(m: Map<Seq<char>, String>) -> Vars {
    m.map_values(|v: String| v@)
}

/// The variables of `base` with those of `overlay` laid over them.
pub open spec fn layered(base: Map<Seq<char>, String>, overlay: Map<Seq<char>, String>) -> Vars {
    string_vars(base).union_prefer_right(string_vars(overlay))
}

/// Whether `s` is a quoted literal: at least two characters, starting and ending with `"`.
pub open spec fn is_quoted(s: Seq<char>) -> bool {
    s.len() >= 2 && s[0] == '"' && s.last() == '"'
}

/// `s` without its enclosing double quotes, when it is quoted.
pub open spec fn unquote(s: Seq<char>) -> Seq<char> {
    if is_quoted(s) {
        s.subrange(1, s.len() - 1)
    } else {
        s
    }
}

/// Whether `s` starts with `p`.
pub open spec fn starts_with(s: Seq<char>, p: Seq<char>) -> bool {
    occurs_at(s, 0, p)
}

/// The value a name stands for: the variable of that name; else for `request.` names the
/// request's field; else for `query.NAME` the query parameter `NAME`; else for `form.NAME` the
/// submitted form field `NAME`; else the name itself.
pub open spec fn lookup(s: Seq<char>, vars: Vars, ctx: TemplateContext) -> Seq<char> {
    if vars.contains_key(s) {
        vars[s]
    } else if starts_with(s, "request."@) {
        request_value(s, ctx)
    } else if starts_with(s, "query."@) {
        query_param(ctx.query_string@, s.subrange("query."@.len() as int, s.len() as int))
    } else if starts_with(s, "form."@) {
        query_param(ctx.form_data@, s.subrange("form."@.len() as int, s.len() as int))
    } else {
        s
    }
}

/// The value of a term: a quoted literal's text without the quotes, else what the term looks
/// up to.
pub open spec fn term_value(s: Seq<char>, vars: Vars, ctx: TemplateContext) -> Seq<char> {
    if is_quoted(s) {
        s.subrange(1, s.len() - 1)
    } else {
        lookup(s, vars, ctx)
    }
}

/// The `+`-separated terms of `e` from position `start` on, each trimmed and valued: their
/// values joined, whether every value reads as an `i32`, and the sum of those that do.
pub open spec fn join_from(e: Seq<char>, start: nat, vars: Vars, ctx: TemplateContext) -> (
    Seq<char>,
    bool,
    int,
)
    decreases e.len() - start,
{
    if start > e.len() {
        (Seq::empty(), true, 0)
    } else {
        let k = find_from(e, '+', start);
        let v = term_value(trim(e.subrange(start as int, k as int)), vars, ctx);
        let n = match parse_i32(v) {
            Some(x) => x,
            None => 0,
        };
        let rest = if k < e.len() {
            proof {
                lemma_find_from(e, '+', start);
            }
            join_from(e, k + 1, vars, ctx)
        } else {
            (Seq::empty(), true, 0)
        };
        (v + rest.0, parse_i32(v) is Some && rest.1, n + rest.2)
    }
}

/// The position of the first `+` of `e`, or `e.len()`.
pub open spec fn first_plus(e: Seq<char>) -> nat {
    find_from(e, '+', 0)
}

/// Whether `e` holds exactly one `+`, so that it has two terms.
pub open spec fn has_one_plus(e: Seq<char>) -> bool {
    first_plus(e) < e.len() && find_from(e, '+', first_plus(e) + 1) == e.len()
}

/// The value of an expression `e`, taken as its `+`-separated terms.
///
/// - Without `+`: the decimal text of the trimmed expression where it reads as an `i32`,
///   otherwise the expression itself.
/// - With two terms: where both values read as `i32` and their sum is an `i32`, the decimal text
///   of the sum; otherwise the values one after the other.
/// - With three or more terms: where every value reads as an `i32`, the expression itself;
///   otherwise the values one after the other.
pub open spec fn join_expression(e: Seq<char>, vars: Vars, ctx: TemplateContext) -> Seq<char> {
    let r = join_from(e, 0, vars, ctx);
    if first_plus(e) >= e.len() {
        match parse_i32(trim(e)) {
            Some(v) => int_str(v),
            None => e,
        }
    } else if has_one_plus(e) {
        if r.1 && i32::MIN <= r.2 <= i32::MAX {
            int_str(r.2)
        } else {
            r.0
        }
    } else if r.1 {
        e
    } else {
        r.0
    }
}

/// Whether `e` adds two integer literals whose sum leaves the `i32` range: it has two terms,
/// and both trimmed terms, as written, read as `i32` whose sum is no `i32`.
pub open spec fn join_overflows(e: Seq<char>) -> bool {
    has_one_plus(e) && match (
        parse_i32(trim(e.subrange(0, first_plus(e) as int))),
        parse_i32(trim(e.subrange(first_plus(e) + 1int, e.len() as int))),
    ) {
        (Some(a), Some(b)) => !(i32::MIN <= a + b <= i32::MAX),
        _ => false,
    }
}

/// The value of variable `key` in `overlay`, else in `base`.
pub fn get_var(
    base: &StringHashMap<String>,
    overlay: &StringHashMap<String>,
    key: &Vec<char>,
) -> (r: Option<Vec<char>>)
    ensures
        match r {
            Some(v) => layered(base@, overlay@).contains_key(key@) && v@ == layered(
                base@,
                overlay@,
            )[key@],
            None => !layered(base@, overlay@).contains_key(key@),
        },
{
    let n = key.len();
    let k = from_chars(key, 0, n);
    assert(key@.subrange(0, n as int) =~= key@);
    match overlay.get(k.as_str()) {
        Some(v) => Some(to_chars(v.as_str())),
        None => match base.get(k.as_str()) {
            Some(v) => Some(to_chars(v.as_str())),
            None => None,
        },
    }
}

/// Whether `s` starts with `p`.
pub fn starts(s: &Vec<char>, p: &str) -> (r: bool)
    ensures
        r == starts_with(s@, p@),
{
    occurs(s, 0, &to_chars(p))
}

/// Executable `lookup`, with the variables of `overlay` over `base`.
pub fn lookup_name(
    s: &Vec<char>,
    base: &StringHashMap<String>,
    overlay: &StringHashMap<String>,
    ctx: &TemplateContext,
) -> (r: Vec<char>)
    ensures
        r@ == lookup(s@, layered(base@, overlay@), *ctx),
{
    let n = s.len();
    assert(s@.subrange(0, n as int) =~= s@);
    match get_var(base, overlay, s) {
        Some(v) => {
            return v;
        },
        None => {},
    }
    if starts(s, "request.") {
        request_lookup(s, ctx)
    } else if starts(s, "query.") {
        let name = slice_chars(s, to_chars("query.").len(), n);
        query_lookup(&to_chars(ctx.query_string.as_str()), &name)
    } else if starts(s, "form.") {
        let name = slice_chars(s, to_chars("form.").len(), n);
        query_lookup(&to_chars(ctx.form_data.as_str()), &name)
    } else {
        slice_chars(s, 0, n)
    }
}

/// Executable `term_value` of `t[a..b]`.
pub fn term_at(
    t: &Vec<char>,
    a: usize,
    b: usize,
    base: &StringHashMap<String>,
    overlay: &StringHashMap<String>,
    ctx: &TemplateContext,
) -> (r: Vec<char>)
    requires
        a <= b <= t@.len(),
    ensures
        r@ == term_value(t@.subrange(a as int, b as int), layered(base@, overlay@), *ctx),
{
    let ghost s = t@.subrange(a as int, b as int);
    if b - a >= 2 && t[a] == '"' && t[b - 1] == '"' {
        assert(t@.subrange(a + 1, b - 1) =~= s.subrange(1, s.len() - 1));
        slice_chars(t, a + 1, b - 1)
    } else {
        let term = slice_chars(t, a, b);
        lookup_name(&term, base, overlay, ctx)
    }
}

/// Executable `join_from(e, 0, ..)`; the sum is given only when every term is an integer.
fn join_terms(
    e: &Vec<char>,
    base: &StringHashMap<String>,
    overlay: &StringHashMap<String>,
    ctx: &TemplateContext,
) -> (r: (Vec<char>, bool, i128))
    ensures
        r.0@ == join_from(e@, 0, layered(base@, overlay@), *ctx).0,
        r.1 == join_from(e@, 0, layered(base@, overlay@), *ctx).1,
        r.1 ==> r.2 == join_from(e@, 0, layered(base@, overlay@), *ctx).2,
{
    let ghost vars = layered(base@, overlay@);
    let ghost whole = join_from(e@, 0, vars, *ctx);
    let n = e.len();
    let mut out: Vec<char> = Vec::new();
    let mut all = true;
    let mut sum: i128 = 0;
    let mut start: usize = 0;
    loop
        invariant
            start <= n == e@.len(),
            vars == layered(base@, overlay@),
            whole == join_from(e@, 0, vars, *ctx),
            whole.0 == out@ + join_from(e@, start as nat, vars, *ctx).0,
            whole.1 == (all && join_from(e@, start as nat, vars, *ctx).1),
            all ==> whole.2 == sum + join_from(e@, start as nat, vars, *ctx).2,
            all ==> -2147483648 * (start as int) <= sum <= 2147483647 * (start as int),
        decreases n - start,
    {
        let k = find_char(e, '+', start);
        proof {
            lemma_find_from(e@, '+', start as nat);
        }
        let (a, b) = trim_bounds(e, start, k);
        let v = term_at(e, a, b, base, overlay, ctx);
        let vn = v.len();
        assert(v@.subrange(0, vn as int) =~= v@);
        let parsed = parse_i32_range(&v, 0, vn);
        let ghost here = join_from(e@, start as nat, vars, *ctx);
        let ghost before = out@;
        extend_all(&mut out, &v);
        match parsed {
            Some(x) => {
                if all {
                    sum = sum + x as i128;
                }
            },
            None => {
                all = false;
            },
        }
        if k >= n {
            assert(here.0 =~= v@);
            assert(whole.0 =~= out@);
            return (out, all, sum);
        }
        assert(whole.0 =~= out@ + join_from(e@, (k + 1) as nat, vars, *ctx).0);
        start = k + 1;
    }
}

/// The position of the first `+` of `e`, and whether there is a second.
fn plus_count(e: &Vec<char>) -> (r: (usize, bool))
    ensures
        r.0 == first_plus(e@),
        r.0 < e@.len() ==> (r.1 == (find_from(e@, '+', (r.0 + 1) as nat) < e@.len())),
        r.0 < e@.len() ==> find_from(e@, '+', (r.0 + 1) as nat) <= e@.len(),
        r.0 <= e@.len(),
{
    let k = find_char(e, '+', 0);
    proof {
        lemma_find_from(e@, '+', 0);
        lemma_find_from(e@, '+', (k + 1) as nat);
    }
    if k >= e.len() {
        return (k, false);
    }
    let k2 = find_char(e, '+', k + 1);
    (k, k2 < e.len())
}

/// Executable `join_expression`.
pub fn evaluate(
    e: &Vec<char>,
    base: &StringHashMap<String>,
    overlay: &StringHashMap<String>,
    ctx: &TemplateContext,
) -> (r: Vec<char>)
    ensures
        r@ == join_expression(e@, layered(base@, overlay@), *ctx),
{
    let n = e.len();
    let (k, more) = plus_count(e);
    if k >= n {
        let (a, b) = trim_bounds(e, 0, n);
        assert(e@.subrange(0, n as int) =~= e@);
        return match parse_i32_range(e, a, b) {
            Some(v) => int_to_chars(v as i64),
            None => slice_chars(e, 0, n),
        };
    }
    let (text, all, sum) = join_terms(e, base, overlay, ctx);
    if !more {
        if all && -2147483648 <= sum && sum <= 2147483647 {
            int_to_chars(sum as i64)
        } else {
            text
        }
    } else if all {
        assert(e@.subrange(0, n as int) =~= e@);
        slice_chars(e, 0, n)
    } else {
        text
    }
}

/// Whether `e` adds two integer literals whose sum leaves the `i32` range.
pub fn overflows(e: &Vec<char>) -> (r: bool)
    ensures
        r == join_overflows(e@),
{
    let n = e.len();
    let (k, more) = plus_count(e);
    if k >= n || more {
        return false;
    }
    let (a, b) = trim_bounds(e, 0, k);
    let (c, d) = trim_bounds(e, k + 1, n);
    match (parse_i32_range(e, a, b), parse_i32_range(e, c, d)) {
        (Some(x), Some(y)) => {
            let s = x as i64 + y as i64;
            s < -2147483648 || s > 2147483647
        },
        _ => false,
    }
}

} // verus!
