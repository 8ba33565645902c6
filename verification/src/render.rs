//! The two rendering passes over a template. The code pass runs code tags, which assign
//! variables, choose between `if`/`else`/`end` branches and print nothing; the output pass
//! replaces output tags by the value of their expressions.
use vstd::prelude::*;
use vstd::hash_map::StringHashMap;
use crate::context::TemplateContext;
use crate::expression::{
    evaluate, get_var, join_expression, join_overflows, layered, lookup, lookup_name,
    overflows, starts, starts_with, term_at, term_value, unquote, Vars,
};
use crate::tags::{
    code_tag_at, code_tag_end, lemma_code_tag_end, lemma_output_tag_end, output_tag_at,
    output_tag_end,
};
use crate::text::{
    equals_range, extend_all, find_char, find_from, find_pattern, find_seq, from_chars,
    is_whitespace, is_ws, lemma_find_seq, slice_chars, to_chars, trim, trim_bounds,
};

verus! {

/// The trimmed body of the code tag `t[s..e]`.
pub open spec fn code_body(t: Seq<char>, s: nat, e: nat) -> Seq<char> {
    trim(t.subrange(s + 2int, e - 2))
}

/// The trimmed body of the output tag `t[s..e]`.
pub open spec fn output_body(t: Seq<char>, s: nat, e: nat) -> Seq<char> {
    trim(t.subrange(s + 3int, e - 2))
}

/// Whether a code body opens a conditional block: it is `if`, or `if` and whitespace and a
/// condition.
pub open spec fn is_if(code: Seq<char>) -> bool {
    code.len() >= 2 && code[0] == 'i' && code[1] == 'f' && (code.len() == 2 || is_ws(code[2]))
}

/// The condition of an `if` body, trimmed.
pub open spec fn if_condition(code: Seq<char>) -> Seq<char> {
    trim(code.subrange(2, code.len() as int))
}

/// Whether a code body switches to the other branch of the innermost block.
pub open spec fn is_else(code: Seq<char>) -> bool {
    code == "else"@
}

/// Whether a code body closes the innermost block.
pub open spec fn is_end(code: Seq<char>) -> bool {
    code == "end"@
}

/// Whether a condition holds: with `==`, whether the terms on either side of its first `==`
/// have the same value; else with `!=`, whether the terms on either side of its first `!=`
/// differ; else whether the value of the whole condition as one term is non-empty.
pub open spec fn condition_holds(c: Seq<char>, vars: Vars, ctx: TemplateContext) -> bool {
    let eq = find_seq(c, seq!['=', '='], 0);
    let ne = find_seq(c, seq!['!', '='], 0);
    if eq < c.len() {
        term_value(trim(c.subrange(0, eq as int)), vars, ctx) == term_value(
            trim(c.subrange(eq + 2int, c.len() as int)),
            vars,
            ctx,
        )
    } else if ne < c.len() {
        term_value(trim(c.subrange(0, ne as int)), vars, ctx) != term_value(
            trim(c.subrange(ne + 2int, c.len() as int)),
            vars,
            ctx,
        )
    } else {
        term_value(c, vars, ctx).len() > 0
    }
}

/// Whether the code body is an assignment: it holds `=`.
pub open spec fn is_assignment(code: Seq<char>) -> bool {
    find_from(code, '=', 0) < code.len()
}

/// The variable an assignment assigns: its trimmed text before the first `=`.
pub open spec fn assigned_name(code: Seq<char>) -> Seq<char> {
    trim(code.subrange(0, find_from(code, '=', 0) as int))
}

/// The trimmed text after the first `=` of an assignment.
pub open spec fn assigned_text(code: Seq<char>) -> Seq<char> {
    trim(code.subrange(find_from(code, '=', 0) + 1int, code.len() as int))
}

/// The value an assignment assigns: `assigned_text` without its enclosing quotes.
pub open spec fn assigned_value(code: Seq<char>) -> Seq<char> {
    unquote(assigned_text(code))
}

/// An assignment whose text is a lone `"`, which cannot be unquoted.
pub open spec fn lone_quote(code: Seq<char>) -> bool {
    is_assignment(code) && assigned_text(code) == seq!['"']
}

/// The variables after a code body runs.
pub open spec fn assign(vars: Vars, code: Seq<char>) -> Vars {
    if is_assignment(code) {
        vars.insert(assigned_name(code), assigned_value(code))
    } else {
        vars
    }
}

/// Whether every open block is in its chosen branch, so that text is rendered.
pub open spec fn all_on(frames: Seq<bool>) -> bool {
    forall|i: int| 0 <= i < frames.len() ==> #[trigger] frames[i]
}

/// The open blocks after `else`: the innermost switches branch.
pub open spec fn flip_top(frames: Seq<bool>) -> Seq<bool> {
    if frames.len() > 0 {
        frames.update(frames.len() - 1, !frames.last())
    } else {
        frames
    }
}

/// The open blocks after `end`: the innermost is closed.
pub open spec fn pop_top(frames: Seq<bool>) -> Seq<bool> {
    if frames.len() > 0 {
        frames.drop_last()
    } else {
        frames
    }
}

/// The code pass from position `i` on, with the open blocks `frames` (innermost last, each
/// telling whether the block is in its chosen branch): the rendered text, the variables
/// afterwards, and whether no rendered assignment had a lone quote to unquote.
///
/// Code tags are taken left to right without overlap and print nothing. `if C` opens a block
/// whose first branch is chosen when `C` holds, `else` switches the innermost block to its other
/// branch, `end` closes it; `else` and `end` outside any block do nothing. Any other body is
/// run as an assignment, and any other character kept, only where every open block is in its
/// chosen branch.
pub open spec fn code_pass(t: Seq<char>, i: nat, vars: Vars, frames: Seq<bool>, ctx: TemplateContext) -> (
    Seq<char>,
    Vars,
    bool,
)
    decreases t.len() - i,
{
    if i >= t.len() {
        (Seq::empty(), vars, true)
    } else {
        match code_tag_end(t, i) {
            Some(e) => {
                proof {
                    lemma_code_tag_end(t, i);
                }
                let b = code_body(t, i, e);
                if is_if(b) {
                    code_pass(t, e, vars, frames.push(condition_holds(if_condition(b), vars, ctx)), ctx)
                } else if is_else(b) {
                    code_pass(t, e, vars, flip_top(frames), ctx)
                } else if is_end(b) {
                    code_pass(t, e, vars, pop_top(frames), ctx)
                } else if !all_on(frames) {
                    code_pass(t, e, vars, frames, ctx)
                } else if lone_quote(b) {
                    (Seq::empty(), vars, false)
                } else {
                    code_pass(t, e, assign(vars, b), frames, ctx)
                }
            },
            None => {
                let r = code_pass(t, i + 1, vars, frames, ctx);
                (if all_on(frames) { seq![t[i as int]] + r.0 } else { r.0 }, r.1, r.2)
            },
        }
    }
}

/// The value an output tag prints for its trimmed body `expr`: where `expr` is not a variable's
/// name nor a `request.`, `query.` or `form.` name but holds `+`, the joined expression;
/// otherwise what `expr` looks up to.
pub open spec fn resolve(expr: Seq<char>, vars: Vars, ctx: TemplateContext) -> Seq<char> {
    if plus_expression(expr, vars) {
        join_expression(expr, vars, ctx)
    } else {
        lookup(expr, vars, ctx)
    }
}

/// Whether an output tag's body is taken as a `+` expression.
pub open spec fn plus_expression(expr: Seq<char>, vars: Vars) -> bool {
    &&& !vars.contains_key(expr)
    &&& !starts_with(expr, "request."@)
    &&& !starts_with(expr, "query."@)
    &&& !starts_with(expr, "form."@)
    &&& find_from(expr, '+', 0) < expr.len()
}

/// Whether resolving `expr` stays clear of adding two integer literals whose sum overflows an
/// `i32`.
pub open spec fn resolve_ok(expr: Seq<char>, vars: Vars, ctx: TemplateContext) -> bool {
    plus_expression(expr, vars) ==> !join_overflows(expr)
}

/// The output pass from position `i` on: every output tag replaced by the value of its body,
/// taking tags left to right without overlap.
pub open spec fn output_pass(t: Seq<char>, i: nat, vars: Vars, ctx: TemplateContext) -> Seq<
    char,
>
    decreases t.len() - i,
{
    if i >= t.len() {
        Seq::empty()
    } else {
        match output_tag_end(t, i) {
            Some(e) => {
                proof {
                    lemma_output_tag_end(t, i);
                }
                resolve(output_body(t, i, e), vars, ctx) + output_pass(t, e, vars, ctx)
            },
            None => seq![t[i as int]] + output_pass(t, i + 1, vars, ctx),
        }
    }
}

/// Whether every output tag from position `i` on resolves without overflow.
pub open spec fn output_pass_ok(t: Seq<char>, i: nat, vars: Vars, ctx: TemplateContext) -> bool
    decreases t.len() - i,
{
    if i >= t.len() {
        true
    } else {
        match output_tag_end(t, i) {
            Some(e) => {
                proof {
                    lemma_output_tag_end(t, i);
                }
                resolve_ok(output_body(t, i, e), vars, ctx) && output_pass_ok(t, e, vars, ctx)
            },
            None => output_pass_ok(t, i + 1, vars, ctx),
        }
    }
}

/// The code pass over a whole template, outside any block.
pub open spec fn code_pass_all(content: Seq<char>, vars: Vars, ctx: TemplateContext) -> (
    Seq<char>,
    Vars,
    bool,
) {
    code_pass(content, 0, vars, Seq::empty(), ctx)
}

/// The text a template renders to, and the variables afterwards: the code pass, then the output
/// pass over its text with its variables.
pub open spec fn render(content: Seq<char>, vars: Vars, ctx: TemplateContext) -> (Seq<char>, Vars) {
    let c = code_pass_all(content, vars, ctx);
    (output_pass(c.0, 0, c.1, ctx), c.1)
}

/// Whether rendering `content` is defined: no rendered assignment of a lone quote and no output
/// tag adding two integer literals whose sum overflows an `i32`.
pub open spec fn renders_safely(content: Seq<char>, vars: Vars, ctx: TemplateContext) -> bool {
    let c = code_pass_all(content, vars, ctx);
    c.2 && output_pass_ok(c.0, 0, c.1, ctx)
}

/// Runs the assignment `t[a..b]`, writing into `overlay`.
fn run_code(t: &Vec<char>, a: usize, b: usize, base: &StringHashMap<String>, overlay: &mut StringHashMap<String>)
    requires
        a <= b <= t@.len(),
        !lone_quote(t@.subrange(a as int, b as int)),
    ensures
        layered(base@, final(overlay)@) == assign(layered(base@, old(overlay)@), t@.subrange(a as int, b as int)),
{
    let code = slice_chars(t, a, b);
    let n = code.len();
    let k = find_char(&code, '=', 0);
    if k >= n {
        return;
    }
    let (na, nb) = trim_bounds(&code, 0, k);
    let (va, vb) = trim_bounds(&code, k + 1, n);
    let value = if vb - va >= 2 && code[va] == '"' && code[vb - 1] == '"' {
        assert(code@.subrange(va + 1, vb - 1) =~= code@.subrange(va as int, vb as int).subrange(
            1,
            (vb - va) - 1,
        ));
        from_chars(&code, va + 1, vb - 1)
    } else {
        if vb - va == 1 && code[va] == '"' {
            assert(code@.subrange(va as int, vb as int) =~= seq!['"']);
        }
        from_chars(&code, va, vb)
    };
    let name = from_chars(&code, na, nb);
    let ghost before = overlay@;
    overlay.insert(name, value);
    assert(layered(base@, overlay@) =~= layered(base@, before).insert(name@, value@));
}

/// Whether the assignment `t[a..b]` has a lone quote as its text.
fn has_lone_quote(t: &Vec<char>, a: usize, b: usize) -> (r: bool)
    requires
        a <= b <= t@.len(),
    ensures
        r == lone_quote(t@.subrange(a as int, b as int)),
{
    let code = slice_chars(t, a, b);
    let n = code.len();
    let k = find_char(&code, '=', 0);
    if k >= n {
        return false;
    }
    let (va, vb) = trim_bounds(&code, k + 1, n);
    if vb - va == 1 && code[va] == '"' {
        assert(code@.subrange(va as int, vb as int) =~= seq!['"']);
        true
    } else {
        assert(code@.subrange(va as int, vb as int).len() != 1 || code@.subrange(
            va as int,
            vb as int,
        )[0] != '"');
        false
    }
}

/// Executable `condition_holds` for the condition `c`.
fn condition(
    c: &Vec<char>,
    base: &StringHashMap<String>,
    overlay: &StringHashMap<String>,
    ctx: &TemplateContext,
) -> (r: bool)
    ensures
        r == condition_holds(c@, layered(base@, overlay@), *ctx),
{
    let n = c.len();
    let eq_pat: Vec<char> = vec!['=', '='];
    let ne_pat: Vec<char> = vec!['!', '='];
    assert(eq_pat@ =~= seq!['=', '=']);
    assert(ne_pat@ =~= seq!['!', '=']);
    let eq = find_pattern(c, &eq_pat, 0);
    let ne = find_pattern(c, &ne_pat, 0);
    proof {
        lemma_find_seq(c@, seq!['=', '='], 0);
        lemma_find_seq(c@, seq!['!', '='], 0);
    }
    if eq < n {
        let (a, b) = trim_bounds(c, 0, eq);
        let (x, y) = trim_bounds(c, eq + 2, n);
        let l = term_at(c, a, b, base, overlay, ctx);
        let r = term_at(c, x, y, base, overlay, ctx);
        let ln = l.len();
        assert(l@.subrange(0, ln as int) =~= l@);
        equals_range(&l, 0, ln, &r)
    } else if ne < n {
        let (a, b) = trim_bounds(c, 0, ne);
        let (x, y) = trim_bounds(c, ne + 2, n);
        let l = term_at(c, a, b, base, overlay, ctx);
        let r = term_at(c, x, y, base, overlay, ctx);
        let ln = l.len();
        assert(l@.subrange(0, ln as int) =~= l@);
        !equals_range(&l, 0, ln, &r)
    } else {
        assert(c@.subrange(0, n as int) =~= c@);
        let v = term_at(c, 0, n, base, overlay, ctx);
        v.len() > 0
    }
}

/// Whether every entry of `frames` is set.
fn all_set(frames: &Vec<bool>) -> (r: bool)
    ensures
        r == all_on(frames@),
{
    let mut i: usize = 0;
    while i < frames.len()
        invariant
            i <= frames@.len(),
            forall|j: int| 0 <= j < i ==> #[trigger] frames@[j],
        decreases frames.len() - i,
    {
        if !frames[i] {
            return false;
        }
        i += 1;
    }
    true
}

/// The code pass over `t`, reading variables from `overlay` over `base` and writing them into
/// `overlay`; `None` where a rendered assignment has a lone quote as its text.
pub fn code_stage(
    t: &Vec<char>,
    base: &StringHashMap<String>,
    overlay: &mut StringHashMap<String>,
    ctx: &TemplateContext,
) -> (r: Option<Vec<char>>)
    ensures
        r is Some <==> code_pass_all(t@, layered(base@, old(overlay)@), *ctx).2,
        r matches Some(out) ==> out@ == code_pass_all(t@, layered(base@, old(overlay)@), *ctx).0
            && layered(base@, final(overlay)@) == code_pass_all(
            t@,
            layered(base@, old(overlay)@),
            *ctx,
        ).1,
{
    let ghost start = code_pass_all(t@, layered(base@, old(overlay)@), *ctx);
    let mut out: Vec<char> = Vec::new();
    let mut frames: Vec<bool> = Vec::new();
    let mut active = true;
    let mut i: usize = 0;
    assert(frames@ =~= Seq::<bool>::empty());
    while i < t.len()
        invariant
            i <= t@.len(),
            active == all_on(frames@),
            start == code_pass_all(t@, layered(base@, old(overlay)@), *ctx),
            start.0 == out@ + code_pass(t@, i as nat, layered(base@, overlay@), frames@, *ctx).0,
            start.1 == code_pass(t@, i as nat, layered(base@, overlay@), frames@, *ctx).1,
            start.2 == code_pass(t@, i as nat, layered(base@, overlay@), frames@, *ctx).2,
        decreases t.len() - i,
    {
        match code_tag_at(t, i) {
            Some(e) => {
                proof {
                    lemma_code_tag_end(t@, i as nat);
                }
                let (a, b) = trim_bounds(t, i + 2, e - 2);
                let ghost body = t@.subrange(a as int, b as int);
                assert(code_body(t@, i as nat, e as nat) == body);
                assert(b - a >= 1 ==> body[0] == t@[a as int]);
                assert(b - a >= 2 ==> body[1] == t@[a + 1]);
                assert(b - a >= 3 ==> body[2] == t@[a + 2]);
                if b - a >= 2 && t[a] == 'i' && t[a + 1] == 'f' && (b - a == 2 || is_whitespace(
                    t[a + 2],
                )) {
                    let (ca, cb) = trim_bounds(t, a + 2, b);
                    assert(t@.subrange(a + 2, b as int) =~= body.subrange(2, body.len() as int));
                    let cond = slice_chars(t, ca, cb);
                    let holds = condition(&cond, base, overlay, ctx);
                    frames.push(holds);
                    active = all_set(&frames);
                } else if equals_range(t, a, b, &to_chars("else")) {
                    let l = frames.len();
                    if l > 0 {
                        let top = frames[l - 1];
                        frames.set(l - 1, !top);
                    }
                    active = all_set(&frames);
                } else if equals_range(t, a, b, &to_chars("end")) {
                    frames.pop();
                    active = all_set(&frames);
                } else if active {
                    if has_lone_quote(t, a, b) {
                        return None;
                    }
                    run_code(t, a, b, base, overlay);
                }
                i = e;
            },
            None => {
                let ghost rest = code_pass(t@, (i + 1) as nat, layered(base@, overlay@), frames@, *ctx);
                if active {
                    out.push(t[i]);
                    assert(start.0 =~= out@ + rest.0);
                }
                i += 1;
            },
        }
    }
    assert(start.0 =~= out@);
    Some(out)
}

/// Executable `resolve`, with the variables of `overlay` over `base`.
fn resolve_expr(
    expr: &Vec<char>,
    base: &StringHashMap<String>,
    overlay: &StringHashMap<String>,
    ctx: &TemplateContext,
) -> (r: Vec<char>)
    requires
        resolve_ok(expr@, layered(base@, overlay@), *ctx),
    ensures
        r@ == resolve(expr@, layered(base@, overlay@), *ctx),
{
    if is_plus_expression(expr, base, overlay) {
        evaluate(expr, base, overlay, ctx)
    } else {
        lookup_name(expr, base, overlay, ctx)
    }
}

/// Executable `plus_expression`.
fn is_plus_expression(
    expr: &Vec<char>,
    base: &StringHashMap<String>,
    overlay: &StringHashMap<String>,
) -> (r: bool)
    ensures
        r == plus_expression(expr@, layered(base@, overlay@)),
{
    get_var(base, overlay, expr).is_none() && !starts(expr, "request.") && !starts(expr, "query.")
        && !starts(expr, "form.") && find_char(expr, '+', 0) < expr.len()
}

/// Whether the output pass over `t` stays clear of overflow, with the variables of `overlay`
/// over `base`.
pub fn output_stage_ok(
    t: &Vec<char>,
    base: &StringHashMap<String>,
    overlay: &StringHashMap<String>,
    ctx: &TemplateContext,
) -> (r: bool)
    ensures
        r == output_pass_ok(t@, 0, layered(base@, overlay@), *ctx),
{
    let ghost vars = layered(base@, overlay@);
    let mut i: usize = 0;
    while i < t.len()
        invariant
            i <= t@.len(),
            vars == layered(base@, overlay@),
            output_pass_ok(t@, 0, vars, *ctx) == output_pass_ok(t@, i as nat, vars, *ctx),
        decreases t.len() - i,
    {
        match output_tag_at(t, i) {
            Some(e) => {
                proof {
                    lemma_output_tag_end(t@, i as nat);
                }
                let (a, b) = trim_bounds(t, i + 3, e - 2);
                let expr = slice_chars(t, a, b);
                if is_plus_expression(&expr, base, overlay) && overflows(&expr) {
                    return false;
                }
                i = e;
            },
            None => {
                i += 1;
            },
        }
    }
    true
}

/// The output pass: replaces the output tags of `t` by their values, with the variables of
/// `overlay` over `base`.
pub fn output_stage(
    t: &Vec<char>,
    base: &StringHashMap<String>,
    overlay: &StringHashMap<String>,
    ctx: &TemplateContext,
) -> (out: Vec<char>)
    requires
        output_pass_ok(t@, 0, layered(base@, overlay@), *ctx),
    ensures
        out@ == output_pass(t@, 0, layered(base@, overlay@), *ctx),
{
    let ghost vars = layered(base@, overlay@);
    let mut out: Vec<char> = Vec::new();
    let mut i: usize = 0;
    while i < t.len()
        invariant
            i <= t@.len(),
            vars == layered(base@, overlay@),
            output_pass_ok(t@, i as nat, vars, *ctx),
            output_pass(t@, 0, vars, *ctx) == out@ + output_pass(t@, i as nat, vars, *ctx),
        decreases t.len() - i,
    {
        match output_tag_at(t, i) {
            Some(e) => {
                proof {
                    lemma_output_tag_end(t@, i as nat);
                }
                let (a, b) = trim_bounds(t, i + 3, e - 2);
                let expr = slice_chars(t, a, b);
                let value = resolve_expr(&expr, base, overlay, ctx);
                let ghost before = out@;
                extend_all(&mut out, &value);
                assert(before + output_pass(t@, i as nat, vars, *ctx) =~= out@ + output_pass(
                    t@,
                    e as nat,
                    vars,
                    *ctx,
                ));
                i = e;
            },
            None => {
                let ghost before = out@;
                out.push(t[i]);
                assert(before + output_pass(t@, i as nat, vars, *ctx) =~= out@ + output_pass(
                    t@,
                    (i + 1) as nat,
                    vars,
                    *ctx,
                ));
                i += 1;
            },
        }
    }
    assert(output_pass(t@, 0, vars, *ctx) =~= out@);
    out
}

} // verus!
