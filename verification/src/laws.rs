//! Properties of rendering that hold across all templates.
use vstd::prelude::*;
use crate::context::{query_param, request_value, TemplateContext};
use crate::expression::{
    is_quoted, join_from, starts_with, term_value, Vars,
};
use crate::includes::{include_names, include_pass};
use crate::number::{int_str, is_digit, lemma_nat_str, lemma_parse_int_str, nat_str, parse_i32};
use crate::render::{
    all_on, assign, assigned_name, assigned_text, assigned_value, code_body, code_pass,
    code_pass_all, condition_holds, flip_top, if_condition, is_assignment, is_else, is_end,
    is_if, lone_quote, output_body, output_pass, plus_expression, pop_top, render, resolve,
};
use crate::tags::{closes_at, code_tag_end, include_tag, output_tag_end, ws_end};
use crate::text::{
    all_ws, is_ws, lemma_find_from_at, lemma_find_seq_at, lemma_trim_around, occurs_at,
};

verus! {

/// Whether `<%` occurs nowhere in `t`.
pub open spec fn no_tag_open(t: Seq<char>) -> bool {
    forall|i: int| 0 <= i < t.len() - 1 ==> !(#[trigger] t[i] == '<' && t[i + 1] == '%')
}

/// Text without `%`.
pub open spec fn no_percent(s: Seq<char>) -> bool {
    forall|i: int| 0 <= i < s.len() ==> #[trigger] s[i] != '%'
}

/// A tag body as a template writes it: non-empty, without `%`, without whitespace at either
/// end, and not starting with `=`.
pub open spec fn plain_body(s: Seq<char>) -> bool {
    &&& s.len() > 0
    &&& !is_ws(s[0])
    &&& !is_ws(s.last())
    &&& s[0] != '='
    &&& no_percent(s)
}

/// The code tag `<% body %>`.
pub open spec fn code_tag(body: Seq<char>) -> Seq<char> {
    seq!['<', '%', ' '] + body + seq![' ', '%', '>']
}

/// The output tag `<%= expr %>`.
pub open spec fn output_tag(expr: Seq<char>) -> Seq<char> {
    seq!['<', '%', '=', ' '] + expr + seq![' ', '%', '>']
}

/// The code tag `<% name = "value" %>`.
pub open spec fn assignment_tag(name: Seq<char>, value: Seq<char>) -> Seq<char> {
    code_tag(name + seq![' ', '=', ' ', '"'] + value + seq!['"'])
}

/// Whether a tag could start at `m`: `<%` stands there.
pub open spec fn opens_at(t: Seq<char>, m: nat) -> bool {
    m + 1 < t.len() && t[m as int] == '<' && t[m + 1int] == '%'
}

/// No tag starts where `<%` does not stand.
proof fn lemma_no_open(t: Seq<char>, m: nat)
    requires
        !opens_at(t, m),
    ensures
        code_tag_end(t, m) is None,
        output_tag_end(t, m) is None,
{
}

/// The characters of `g` placed at `s` in `t`.
proof fn lemma_placed(t: Seq<char>, s: nat, g: Seq<char>)
    requires
        occurs_at(t, s, g),
    ensures
        forall|m: int| s <= m < s + g.len() ==> #[trigger] t[m] == g[m - s],
{
    assert forall|m: int| s <= m < s + g.len() implies #[trigger] t[m] == g[m - s] by {
        assert(t.subrange(s as int, (s + g.len()) as int)[m - s] == g[m - s]);
    }
}

/// Inside a placed tag whose only `%` are its second and last-but-one characters, and whose
/// last-but-two and last characters are not `<`, no `<%` starts after its first character.
proof fn lemma_no_open_inside(t: Seq<char>, s: nat, g: Seq<char>)
    requires
        occurs_at(t, s, g),
        g.len() >= 4,
        forall|k: int| 2 <= k < g.len() - 2 ==> #[trigger] g[k] != '%',
        g[g.len() - 3] != '<',
        g[g.len() - 1] != '<',
        g[g.len() - 1] != '%',
    ensures
        forall|m: nat| s < m < s + g.len() ==> !#[trigger] opens_at(t, m),
{
    lemma_placed(t, s, g);
    assert forall|m: nat| s < m < s + g.len() implies !#[trigger] opens_at(t, m) by {
        assert(t[m as int] == g[m - s]);
        if m + 1 < s + g.len() {
            assert(t[m + 1int] == g[m + 1 - s]);
        }
    }
}

/// A code tag sits where it is placed: it ends where its text ends, its body is the body, and
/// no other tag starts inside it.
pub proof fn lemma_code_tag_at(t: Seq<char>, s: nat, body: Seq<char>)
    requires
        plain_body(body),
        occurs_at(t, s, code_tag(body)),
    ensures
        code_tag_end(t, s) == Some(s + code_tag(body).len()),
        code_body(t, s, s + code_tag(body).len()) == body,
        forall|m: nat| s < m < s + code_tag(body).len() ==> #[trigger] code_tag_end(t, m) is None,
        forall|m: nat| s <= m < s + code_tag(body).len() ==> #[trigger] output_tag_end(t, m) is None,
{
    let g = code_tag(body);
    let n = body.len() as int;
    lemma_placed(t, s, g);
    assert forall|k: int| 2 <= k < g.len() - 2 implies #[trigger] g[k] != '%' by {
        if 3 <= k < n + 3 {
            assert(g[k] == body[k - 3]);
        }
    }
    lemma_no_open_inside(t, s, g);
    assert forall|m: nat| s < m < s + g.len() implies #[trigger] code_tag_end(t, m) is None by {
        lemma_no_open(t, m);
    }
    assert forall|m: nat| s <= m < s + g.len() implies #[trigger] output_tag_end(t, m) is None by {
        if m > s {
            lemma_no_open(t, m);
        } else {
            assert(t[s + 2int] == g[2]);
        }
    }
    assert(t[s as int] == g[0]);
    assert(t[s + 1int] == g[1]);
    assert(t[s + 2int] == g[2]);
    assert(t[s + 3int] == g[3]);
    assert(ws_end(t, s + 3) == s + 3);
    assert(ws_end(t, s + 2) == s + 3);
    let e = (s + n + 4) as nat;
    assert forall|m: int| s + 4 <= m < e implies t[m] != '%' by {
        assert(t[m] == g[m - s]);
    }
    assert(t[e as int] == g[n + 4]);
    assert(t[e + 1int] == g[n + 5]);
    lemma_find_from_at(t, '%', s + 4, e);
    assert forall|k: int| 0 <= k < n + 2 implies t.subrange(s + 2int, e as int)[k] == (seq![' ']
        + body + seq![' '])[k] by {
        assert(t[s + 2 + k] == g[2 + k]);
    }
    assert(t.subrange(s + 2int, e as int) =~= seq![' '] + body + seq![' ']);
    assert(all_ws(seq![' ']));
    lemma_trim_around(seq![' '], body, seq![' ']);
}

/// An output tag sits where it is placed: no code tag starts in it, it ends where its text
/// ends, its body is the expression, and no other output tag starts inside it.
pub proof fn lemma_output_tag_at(t: Seq<char>, s: nat, expr: Seq<char>)
    requires
        expr.len() > 0,
        !is_ws(expr[0]),
        !is_ws(expr.last()),
        no_percent(expr),
        occurs_at(t, s, output_tag(expr)),
    ensures
        output_tag_end(t, s) == Some(s + output_tag(expr).len()),
        output_body(t, s, s + output_tag(expr).len()) == expr,
        forall|m: nat| s <= m < s + output_tag(expr).len() ==> #[trigger] code_tag_end(t, m) is None,
        forall|m: nat| s < m < s + output_tag(expr).len() ==> #[trigger] output_tag_end(t, m) is None,
{
    let g = output_tag(expr);
    let n = expr.len() as int;
    lemma_placed(t, s, g);
    assert forall|k: int| 2 <= k < g.len() - 2 implies #[trigger] g[k] != '%' by {
        if 4 <= k < n + 4 {
            assert(g[k] == expr[k - 4]);
        }
    }
    lemma_no_open_inside(t, s, g);
    assert forall|m: nat| s < m < s + g.len() implies #[trigger] output_tag_end(t, m) is None by {
        lemma_no_open(t, m);
    }
    assert(t[s as int] == g[0]);
    assert(t[s + 1int] == g[1]);
    assert(t[s + 2int] == g[2]);
    assert(ws_end(t, s + 2) == s + 2);
    assert forall|m: nat| s <= m < s + g.len() implies #[trigger] code_tag_end(t, m) is None by {
        if m > s {
            lemma_no_open(t, m);
        }
    }
    let e = (s + n + 5) as nat;
    assert forall|m: int| s + 3 <= m < e implies t[m] != '%' by {
        assert(t[m] == g[m - s]);
    }
    assert(t[e as int] == g[n + 5]);
    assert(t[e + 1int] == g[n + 6]);
    lemma_find_from_at(t, '%', s + 3, e);
    assert forall|k: int| 0 <= k < n + 2 implies t.subrange(s + 3int, e as int)[k] == (seq![' ']
        + expr + seq![' '])[k] by {
        assert(t[s + 3 + k] == g[3 + k]);
    }
    assert(t.subrange(s + 3int, e as int) =~= seq![' '] + expr + seq![' ']);
    assert(all_ws(seq![' ']));
    lemma_trim_around(seq![' '], expr, seq![' ']);
}

/// Over a stretch where no code tag starts, the code pass keeps the text where every block is
/// in its chosen branch, drops it elsewhere, and changes nothing else.
pub proof fn lemma_code_pass_skip(
    t: Seq<char>,
    i: nat,
    j: nat,
    vars: Vars,
    frames: Seq<bool>,
    ctx: TemplateContext,
)
    requires
        i <= j <= t.len(),
        forall|m: nat| i <= m < j ==> #[trigger] code_tag_end(t, m) is None,
    ensures
        code_pass(t, i, vars, frames, ctx).0 == (if all_on(frames) {
            t.subrange(i as int, j as int)
        } else {
            Seq::empty()
        }) + code_pass(t, j, vars, frames, ctx).0,
        code_pass(t, i, vars, frames, ctx).1 == code_pass(t, j, vars, frames, ctx).1,
        code_pass(t, i, vars, frames, ctx).2 == code_pass(t, j, vars, frames, ctx).2,
    decreases j - i,
{
    if i < j {
        lemma_code_pass_skip(t, i + 1, j, vars, frames, ctx);
        assert(seq![t[i as int]] + t.subrange(i + 1int, j as int) =~= t.subrange(
            i as int,
            j as int,
        ));
        assert(seq![t[i as int]] + (t.subrange(i + 1int, j as int) + code_pass(
            t,
            j,
            vars,
            frames,
            ctx,
        ).0) =~= t.subrange(i as int, j as int) + code_pass(t, j, vars, frames, ctx).0);
        assert(Seq::<char>::empty() + code_pass(t, j, vars, frames, ctx).0 =~= code_pass(
            t,
            j,
            vars,
            frames,
            ctx,
        ).0);
    } else {
        assert(t.subrange(i as int, j as int) =~= Seq::<char>::empty());
        assert(Seq::<char>::empty() + code_pass(t, j, vars, frames, ctx).0 =~= code_pass(
            t,
            j,
            vars,
            frames,
            ctx,
        ).0);
    }
}

/// Over a stretch where no output tag starts, the output pass copies the text.
pub proof fn lemma_output_pass_skip(t: Seq<char>, i: nat, j: nat, vars: Vars, ctx: TemplateContext)
    requires
        i <= j <= t.len(),
        forall|m: nat| i <= m < j ==> #[trigger] output_tag_end(t, m) is None,
    ensures
        output_pass(t, i, vars, ctx) == t.subrange(i as int, j as int) + output_pass(t, j, vars, ctx),
    decreases j - i,
{
    if i < j {
        lemma_output_pass_skip(t, i + 1, j, vars, ctx);
        assert(seq![t[i as int]] + (t.subrange(i + 1int, j as int) + output_pass(t, j, vars, ctx))
            =~= t.subrange(i as int, j as int) + output_pass(t, j, vars, ctx));
    } else {
        assert(t.subrange(i as int, j as int) + output_pass(t, j, vars, ctx) =~= output_pass(
            t,
            j,
            vars,
            ctx,
        ));
    }
}

/// In text without `<%` no tag starts anywhere.
proof fn lemma_no_tags(t: Seq<char>)
    requires
        no_tag_open(t),
    ensures
        forall|m: nat| m < t.len() ==> #[trigger] code_tag_end(t, m) is None,
        forall|m: nat| m < t.len() ==> #[trigger] output_tag_end(t, m) is None,
{
    assert forall|m: nat| m < t.len() implies #[trigger] code_tag_end(t, m) is None by {
        if m + 1 < t.len() {
            assert(!(t[m as int] == '<' && t[m + 1int] == '%'));
        }
    }
    assert forall|m: nat| m < t.len() implies #[trigger] output_tag_end(t, m) is None by {
        if m + 1 < t.len() {
            assert(!(t[m as int] == '<' && t[m + 1int] == '%'));
        }
    }
}

/// A stretch of text without `<%`, followed by text that starts with `<`, holds no tag start.
proof fn lemma_no_tags_in(t: Seq<char>, i: nat, a: Seq<char>)
    requires
        no_tag_open(a),
        occurs_at(t, i, a),
        i + a.len() < t.len() ==> t[(i + a.len()) as int] == '<',
    ensures
        forall|m: nat| i <= m < i + a.len() ==> #[trigger] code_tag_end(t, m) is None,
        forall|m: nat| i <= m < i + a.len() ==> #[trigger] output_tag_end(t, m) is None,
{
    lemma_placed(t, i, a);
    assert forall|m: nat| i <= m < i + a.len() implies #[trigger] code_tag_end(t, m) is None by {
        if m + 1 < i + a.len() {
            assert(t[m as int] == a[m - i]);
            assert(t[m + 1int] == a[m + 1 - i]);
            assert(!(a[m - i] == '<' && a[m - i + 1] == '%'));
        }
    }
    assert forall|m: nat| i <= m < i + a.len() implies #[trigger] output_tag_end(t, m) is None by {
        if m + 1 < i + a.len() {
            assert(t[m as int] == a[m - i]);
            assert(t[m + 1int] == a[m + 1 - i]);
            assert(!(a[m - i] == '<' && a[m - i + 1] == '%'));
        }
    }
}

/// Text without `<%` renders as itself and leaves the variables as they were.
pub proof fn law_plain_text_unchanged(t: Seq<char>, vars: Vars, ctx: TemplateContext)
    requires
        no_tag_open(t),
    ensures
        render(t, vars, ctx) == (t, vars),
        code_pass_all(t, vars, ctx).2,
{
    lemma_no_tags(t);
    lemma_code_pass_skip(t, 0, t.len(), vars, Seq::empty(), ctx);
    assert(all_on(Seq::<bool>::empty()));
    assert(t.subrange(0, t.len() as int) =~= t);
    assert(code_pass(t, t.len(), vars, Seq::empty(), ctx).0 =~= Seq::<char>::empty());
    assert(t + Seq::<char>::empty() =~= t);
    lemma_output_pass_skip(t, 0, t.len(), vars, ctx);
    assert(t + output_pass(t, t.len(), vars, ctx) =~= t);
}

/// The code pass never removes a variable.
pub proof fn lemma_code_pass_keeps(
    t: Seq<char>,
    i: nat,
    vars: Vars,
    frames: Seq<bool>,
    ctx: TemplateContext,
)
    ensures
        vars.dom().subset_of(code_pass(t, i, vars, frames, ctx).1.dom()),
    decreases t.len() - i,
{
    if i < t.len() {
        match code_tag_end(t, i) {
            Some(e) => {
                crate::tags::lemma_code_tag_end(t, i);
                let b = code_body(t, i, e);
                if is_if(b) {
                    lemma_code_pass_keeps(t, e, vars, frames.push(condition_holds(if_condition(b), vars, ctx)), ctx);
                } else if is_else(b) {
                    lemma_code_pass_keeps(t, e, vars, flip_top(frames), ctx);
                } else if is_end(b) {
                    lemma_code_pass_keeps(t, e, vars, pop_top(frames), ctx);
                } else if !all_on(frames) {
                    lemma_code_pass_keeps(t, e, vars, frames, ctx);
                } else if !lone_quote(b) {
                    lemma_code_pass_keeps(t, e, assign(vars, b), frames, ctx);
                }
            },
            None => {
                lemma_code_pass_keeps(t, i + 1, vars, frames, ctx);
            },
        }
    }
}

/// Rendering never removes a variable.
pub proof fn law_variables_persist(content: Seq<char>, vars: Vars, ctx: TemplateContext)
    ensures
        vars.dom().subset_of(render(content, vars, ctx).1.dom()),
{
    lemma_code_pass_keeps(content, 0, vars, Seq::empty(), ctx);
}

/// The variables after rendering the templates of `steps` one after the other, each against
/// its own request.
pub open spec fn render_all(steps: Seq<(Seq<char>, TemplateContext)>, vars: Vars) -> Vars
    decreases steps.len(),
{
    if steps.len() == 0 {
        vars
    } else {
        render_all(steps.drop_first(), render(steps[0].0, vars, steps[0].1).1)
    }
}

/// Over any sequence of renderings, no variable is ever removed: the set of defined variables
/// only grows.
pub proof fn law_variables_persist_over_calls(steps: Seq<(Seq<char>, TemplateContext)>, vars: Vars)
    ensures
        vars.dom().subset_of(render_all(steps, vars).dom()),
    decreases steps.len(),
{
    if steps.len() > 0 {
        law_variables_persist(steps[0].0, vars, steps[0].1);
        law_variables_persist_over_calls(steps.drop_first(), render(steps[0].0, vars, steps[0].1).1);
    }
}

/// A variable name as a template writes it: a plain tag body without `=` that does not read
/// as an `if`.
pub open spec fn plain_name(name: Seq<char>) -> bool {
    &&& plain_body(name)
    &&& !is_if(name)
    &&& forall|i: int| 0 <= i < name.len() ==> #[trigger] name[i] != '='
}

/// The body `name = "value"` of an assignment tag.
pub open spec fn assignment_body(name: Seq<char>, value: Seq<char>) -> Seq<char> {
    name + seq![' ', '=', ' ', '"'] + value + seq!['"']
}

/// The body `name = "value"` assigns `value` to `name`, and is neither a block tag nor a lone
/// quote.
proof fn lemma_assignment_parts(name: Seq<char>, value: Seq<char>)
    requires
        plain_name(name),
        no_percent(value),
    ensures
        plain_body(assignment_body(name, value)),
        assignment_tag(name, value) == code_tag(assignment_body(name, value)),
        is_assignment(assignment_body(name, value)),
        assigned_name(assignment_body(name, value)) == name,
        assigned_value(assignment_body(name, value)) == value,
        !lone_quote(assignment_body(name, value)),
        !is_if(assignment_body(name, value)),
        !is_else(assignment_body(name, value)),
        !is_end(assignment_body(name, value)),
{
    let body = assignment_body(name, value);
    let n = name.len() as int;
    assert(body[0] == name[0]);
    assert(body.last() == '"');
    assert(no_percent(body)) by {
        assert forall|i: int| 0 <= i < body.len() implies #[trigger] body[i] != '%' by {
            if i < n {
                assert(body[i] == name[i]);
            } else if n + 4 <= i < n + 4 + value.len() {
                assert(body[i] == value[i - n - 4]);
            }
        }
    }
    assert forall|m: int| 0 <= m < n + 1 implies body[m] != '=' by {
        if m < n {
            assert(body[m] == name[m]);
        }
    }
    lemma_find_from_at(body, '=', 0, (n + 1) as nat);
    assert(body.subrange(0, n + 1) =~= Seq::<char>::empty() + name + seq![' ']);
    assert(all_ws(Seq::<char>::empty()));
    assert(all_ws(seq![' ']));
    lemma_trim_around(Seq::<char>::empty(), name, seq![' ']);
    let quoted = seq!['"'] + value + seq!['"'];
    assert(body.subrange(n + 2, body.len() as int) =~= seq![' '] + quoted + Seq::<char>::empty());
    lemma_trim_around(seq![' '], quoted, Seq::<char>::empty());
    assert(assigned_text(body) == quoted);
    assert(quoted.subrange(1, quoted.len() - 1) =~= value);
    assert(quoted.len() != 1);
    if n == 1 {
        assert(body[1] == ' ');
    } else if n == 2 {
        assert(body[2] == ' ');
        assert(body[1] == name[1]);
    } else {
        assert(body[1] == name[1]);
        assert(body[2] == name[2]);
    }
    reveal_strlit("else");
    reveal_strlit("end");
    assert(body.len() > 4);
    assert(assignment_tag(name, value) =~= code_tag(body));
}

/// A template that assigns a quoted value to a variable and then prints that variable renders
/// as the value, and the variable keeps the value afterwards.
pub proof fn law_assignment_then_output(
    name: Seq<char>,
    value: Seq<char>,
    vars: Vars,
    ctx: TemplateContext,
)
    requires
        plain_name(name),
        no_percent(value),
    ensures
        render(assignment_tag(name, value) + output_tag(name), vars, ctx) == (
            value,
            vars.insert(name, value),
        ),
        code_pass_all(assignment_tag(name, value) + output_tag(name), vars, ctx).2,
{
    let b = assignment_body(name, value);
    lemma_assignment_parts(name, value);
    let a = assignment_tag(name, value);
    let o = output_tag(name);
    let t = a + o;
    assert(t.subrange(0, a.len() as int) =~= a);
    assert(t.subrange(a.len() as int, t.len() as int) =~= o);
    lemma_code_tag_at(t, 0, b);
    assert(all_on(Seq::<bool>::empty()));
    let vars2 = assign(vars, b);
    assert(vars2 == vars.insert(name, value));
    lemma_output_tag_at(t, a.len(), name);
    lemma_code_pass_skip(t, a.len(), t.len(), vars2, Seq::empty(), ctx);
    assert(code_pass(t, t.len(), vars2, Seq::empty(), ctx).0 =~= Seq::<char>::empty());
    assert(code_pass_all(t, vars, ctx).0 =~= o);
    assert(o.subrange(0, o.len() as int) =~= o);
    lemma_output_tag_at(o, 0, name);
    assert(output_pass(o, o.len(), vars2, ctx) =~= Seq::<char>::empty());
    assert(resolve(name, vars2, ctx) == value);
    assert(output_pass(o, 0, vars2, ctx) =~= value);
}

/// A lone assignment tag prints nothing; the assignment it makes stays.
pub proof fn law_code_tag_prints_nothing(
    name: Seq<char>,
    value: Seq<char>,
    vars: Vars,
    ctx: TemplateContext,
)
    requires
        plain_name(name),
        no_percent(value),
    ensures
        render(assignment_tag(name, value), vars, ctx) == (
            Seq::<char>::empty(),
            vars.insert(name, value),
        ),
        code_pass_all(assignment_tag(name, value), vars, ctx).2,
{
    let b = assignment_body(name, value);
    lemma_assignment_parts(name, value);
    let a = assignment_tag(name, value);
    assert(a.subrange(0, a.len() as int) =~= a);
    lemma_code_tag_at(a, 0, b);
    assert(all_on(Seq::<bool>::empty()));
    assert(code_pass(a, a.len(), assign(vars, b), Seq::empty(), ctx).0 =~= Seq::<char>::empty());
    assert(output_pass(Seq::<char>::empty(), 0, vars.insert(name, value), ctx) =~= Seq::<
        char,
    >::empty());
}

/// A variable assigned by one rendering is printed by the next one, whatever requests the two
/// answer.
pub proof fn law_assigned_then_printed_later(
    name: Seq<char>,
    value: Seq<char>,
    vars: Vars,
    first: TemplateContext,
    second: TemplateContext,
)
    requires
        plain_name(name),
        no_percent(value),
    ensures
        render(output_tag(name), render(assignment_tag(name, value), vars, first).1, second).0
            == value,
{
    law_code_tag_prints_nothing(name, value, vars, first);
    law_output_tag(name, vars.insert(name, value), second);
}

/// A lone output tag renders as the value of its expression, and leaves the variables as they
/// were.
pub proof fn law_output_tag(expr: Seq<char>, vars: Vars, ctx: TemplateContext)
    requires
        expr.len() > 0,
        !is_ws(expr[0]),
        !is_ws(expr.last()),
        no_percent(expr),
    ensures
        render(output_tag(expr), vars, ctx) == (resolve(expr, vars, ctx), vars),
{
    let o = output_tag(expr);
    assert(o.subrange(0, o.len() as int) =~= o);
    lemma_output_tag_at(o, 0, expr);
    lemma_code_pass_skip(o, 0, o.len(), vars, Seq::empty(), ctx);
    assert(all_on(Seq::<bool>::empty()));
    assert(code_pass(o, o.len(), vars, Seq::empty(), ctx).0 =~= Seq::<char>::empty());
    assert(code_pass_all(o, vars, ctx).0 =~= o);
    assert(output_pass(o, o.len(), vars, ctx) =~= Seq::<char>::empty());
    assert(output_pass(o, 0, vars, ctx) =~= resolve(expr, vars, ctx));
}

/// A term as a template writes it in an expression: a plain tag body without `+`.
pub open spec fn plain_term(s: Seq<char>) -> bool {
    &&& plain_body(s)
    &&& forall|i: int| 0 <= i < s.len() ==> #[trigger] s[i] != '+'
}

/// A term that starts with none of `r`, `q`, `f` is no `request.`, `query.` or `form.` name.
proof fn lemma_not_prefixed(s: Seq<char>)
    requires
        s.len() > 0,
        s[0] != 'r' && s[0] != 'q' && s[0] != 'f',
    ensures
        !starts_with(s, "request."@),
        !starts_with(s, "query."@),
        !starts_with(s, "form."@),
{
    reveal_strlit("request.");
    reveal_strlit("query.");
    reveal_strlit("form.");
    if starts_with(s, "request."@) {
        assert(s.subrange(0, 8)[0] == s[0]);
    }
    if starts_with(s, "query."@) {
        assert(s.subrange(0, 6)[0] == s[0]);
    }
    if starts_with(s, "form."@) {
        assert(s.subrange(0, 5)[0] == s[0]);
    }
}

/// The characters of an integer's text: digits, after a `-` for a negative one.
proof fn lemma_int_str_chars(v: int)
    ensures
        int_str(v).len() > 0,
        forall|i: int|
            0 <= i < int_str(v).len() ==> is_digit(#[trigger] int_str(v)[i]) || (i == 0
                && int_str(v)[i] == '-'),
        is_digit(int_str(v).last()),
{
    if v < 0 {
        lemma_nat_str((-v) as nat);
        let d = nat_str((-v) as nat);
        assert forall|i: int| 0 <= i < int_str(v).len() implies is_digit(#[trigger] int_str(v)[i])
            || (i == 0 && int_str(v)[i] == '-') by {
            if i > 0 {
                assert(int_str(v)[i] == d[i - 1]);
            }
        }
        assert(int_str(v).last() == d.last());
    } else {
        lemma_nat_str(v as nat);
    }
}

/// The text `a + b` of two integers.
pub open spec fn sum_text(a: int, b: int) -> Seq<char> {
    int_str(a) + seq![' ', '+', ' '] + int_str(b)
}

/// An output tag adding two `i32` prints the text of their sum, unless variables bear the
/// name of the expression or of an operand.
pub proof fn law_sum_output(a: int, b: int, vars: Vars, ctx: TemplateContext)
    requires
        i32::MIN <= a <= i32::MAX,
        i32::MIN <= b <= i32::MAX,
        i32::MIN <= a + b <= i32::MAX,
        !vars.contains_key(sum_text(a, b)),
        !vars.contains_key(int_str(a)),
        !vars.contains_key(int_str(b)),
    ensures
        render(output_tag(sum_text(a, b)), vars, ctx) == (int_str(a + b), vars),
{
    let x = int_str(a);
    let y = int_str(b);
    let e = sum_text(a, b);
    lemma_int_str_chars(a);
    lemma_int_str_chars(b);
    let k = x.len() as int;
    assert forall|i: int| 0 <= i < e.len() implies #[trigger] e[i] != '%' && (i == k + 1 || e[i]
        != '+') by {
        if i < k {
            assert(e[i] == x[i]);
        } else if i >= k + 3 {
            assert(e[i] == y[i - k - 3]);
        }
    }
    assert(e[0] == x[0]);
    assert(e.last() == y.last());
    law_output_tag(e, vars, ctx);
    lemma_not_prefixed(e);
    lemma_not_prefixed(x);
    lemma_not_prefixed(y);
    lemma_find_from_at(e, '+', 0, (k + 1) as nat);
    assert(plus_expression(e, vars));
    lemma_find_from_at(e, '+', (k + 2) as nat, e.len());
    assert(all_ws(seq![' ']));
    assert(all_ws(Seq::<char>::empty()));
    assert(e.subrange(0, k + 1) =~= Seq::<char>::empty() + x + seq![' ']);
    lemma_trim_around(Seq::<char>::empty(), x, seq![' ']);
    assert(e.subrange(k + 2, e.len() as int) =~= seq![' '] + y + Seq::<char>::empty());
    lemma_trim_around(seq![' '], y, Seq::<char>::empty());
    assert(!is_quoted(x));
    assert(!is_quoted(y));
    assert(term_value(x, vars, ctx) == x);
    assert(term_value(y, vars, ctx) == y);
    lemma_parse_int_str(a);
    lemma_parse_int_str(b);
    let r2 = join_from(e, (k + 2) as nat, vars, ctx);
    assert(r2.1 && r2.2 == b);
    assert(join_from(e, 0, vars, ctx).1);
    assert(join_from(e, 0, vars, ctx).2 == a + b);
}

/// The expression `x + "lit" + y`.
pub open spec fn concat_text(x: Seq<char>, lit: Seq<char>, y: Seq<char>) -> Seq<char> {
    x + seq![' ', '+', ' ', '"'] + lit + seq!['"', ' ', '+', ' '] + y
}

/// Joining two variables around a quoted literal prints the first variable's value, the
/// literal's text and the second variable's value, one after the other, unless all three read
/// as integers.
pub proof fn law_concatenation(
    x: Seq<char>,
    lit: Seq<char>,
    y: Seq<char>,
    vars: Vars,
    ctx: TemplateContext,
)
    requires
        plain_term(x),
        plain_term(y),
        x[0] != '"',
        y[0] != '"',
        no_percent(lit),
        forall|i: int| 0 <= i < lit.len() ==> #[trigger] lit[i] != '+',
        vars.contains_key(x),
        vars.contains_key(y),
        plus_expression(concat_text(x, lit, y), vars),
        !(parse_i32(vars[x]) is Some && parse_i32(lit) is Some && parse_i32(vars[y]) is Some),
    ensures
        render(output_tag(concat_text(x, lit, y)), vars, ctx) == (vars[x] + lit + vars[y], vars),
{
    let e = concat_text(x, lit, y);
    let xl = x.len() as int;
    let ll = lit.len() as int;
    assert forall|i: int| 0 <= i < e.len() implies #[trigger] e[i] != '%' && (i == xl + 1 || i == xl
        + ll + 6 || e[i] != '+') by {
        if i < xl {
            assert(e[i] == x[i]);
        } else if xl + 4 <= i < xl + 4 + ll {
            assert(e[i] == lit[i - xl - 4]);
        } else if i >= xl + ll + 8 {
            assert(e[i] == y[i - xl - ll - 8]);
        }
    }
    assert(e[0] == x[0]);
    assert(e.last() == y.last());
    law_output_tag(e, vars, ctx);
    lemma_find_from_at(e, '+', 0, (xl + 1) as nat);
    lemma_find_from_at(e, '+', (xl + 2) as nat, (xl + ll + 6) as nat);
    lemma_find_from_at(e, '+', (xl + ll + 7) as nat, e.len());
    assert(all_ws(seq![' ']));
    assert(all_ws(Seq::<char>::empty()));
    assert(e.subrange(0, xl + 1) =~= Seq::<char>::empty() + x + seq![' ']);
    lemma_trim_around(Seq::<char>::empty(), x, seq![' ']);
    let q = seq!['"'] + lit + seq!['"'];
    assert(e.subrange(xl + 2, xl + ll + 6) =~= seq![' '] + q + seq![' ']);
    lemma_trim_around(seq![' '], q, seq![' ']);
    assert(e.subrange(xl + ll + 7, e.len() as int) =~= seq![' '] + y + Seq::<char>::empty());
    lemma_trim_around(seq![' '], y, Seq::<char>::empty());
    assert(!is_quoted(x));
    assert(!is_quoted(y));
    assert(is_quoted(q));
    assert(q.subrange(1, q.len() - 1) =~= lit);
    assert(term_value(x, vars, ctx) == vars[x]);
    assert(term_value(y, vars, ctx) == vars[y]);
    assert(term_value(q, vars, ctx) == lit);
    let r3 = join_from(e, (xl + ll + 7) as nat, vars, ctx);
    let r2 = join_from(e, (xl + 2) as nat, vars, ctx);
    let r1 = join_from(e, 0, vars, ctx);
    assert(r3.0 =~= vars[y]);
    assert(r2.0 =~= lit + vars[y]);
    assert(r1.0 =~= vars[x] + lit + vars[y]);
    assert(!r1.1);
}

/// The conditional block `<% if c %>a<% else %>b<% end %>`.
pub open spec fn if_else_block(c: Seq<char>, a: Seq<char>, b: Seq<char>) -> Seq<char> {
    code_tag(seq!['i', 'f', ' '] + c) + a + code_tag("else"@) + b + code_tag("end"@)
}

/// Where the tags of a conditional block sit, and what they are.
#[verifier::spinoff_prover]
proof fn lemma_if_else_tags(c: Seq<char>, a: Seq<char>, b: Seq<char>)
    requires
        plain_body(c),
        no_tag_open(a),
        no_tag_open(b),
    ensures
        ({
            let t = if_else_block(c, a, b);
            let ib = seq!['i', 'f', ' '] + c;
            let p1 = code_tag(ib).len();
            let p2 = p1 + a.len();
            let p3 = p2 + code_tag("else"@).len();
            let p4 = p3 + b.len();
            &&& t.len() == p4 + code_tag("end"@).len()
            &&& code_tag_end(t, 0) == Some(p1)
            &&& code_body(t, 0, p1) == ib
            &&& is_if(ib)
            &&& if_condition(ib) == c
            &&& code_tag_end(t, p2) == Some(p3)
            &&& code_body(t, p2, p3) == "else"@
            &&& !is_if("else"@) && is_else("else"@)
            &&& code_tag_end(t, p4) == Some(t.len())
            &&& code_body(t, p4, t.len()) == "end"@
            &&& !is_if("end"@) && !is_else("end"@) && is_end("end"@)
            &&& forall|m: nat| p1 <= m < p2 ==> #[trigger] code_tag_end(t, m) is None
            &&& forall|m: nat| p3 <= m < p4 ==> #[trigger] code_tag_end(t, m) is None
            &&& t.subrange(p1 as int, p2 as int) == a
            &&& t.subrange(p3 as int, p4 as int) == b
        }),
{
    reveal_strlit("else");
    reveal_strlit("end");
    let ib = seq!['i', 'f', ' '] + c;
    let t1 = code_tag(ib);
    let t2 = code_tag("else"@);
    let t3 = code_tag("end"@);
    let t = if_else_block(c, a, b);
    let p1 = t1.len();
    let p2 = p1 + a.len();
    let p3 = p2 + t2.len();
    let p4 = p3 + b.len();
    assert(t.subrange(0, p1 as int) =~= t1);
    assert(t.subrange(p1 as int, p2 as int) =~= a);
    assert(t.subrange(p2 as int, p3 as int) =~= t2);
    assert(t.subrange(p3 as int, p4 as int) =~= b);
    assert(t.subrange(p4 as int, t.len() as int) =~= t3);
    assert(ib[0] == 'i' && ib[2] == ' ');
    assert(ib.last() == c.last());
    assert(no_percent(ib)) by {
        assert forall|i: int| 0 <= i < ib.len() implies #[trigger] ib[i] != '%' by {
            if i >= 3 {
                assert(ib[i] == c[i - 3]);
            }
        }
    }
    lemma_code_tag_at(t, 0, ib);
    lemma_code_tag_at(t, p2, "else"@);
    lemma_code_tag_at(t, p4, "end"@);
    assert(t[p2 as int] == t2[0]);
    assert(t[p4 as int] == t3[0]);
    lemma_no_tags_in(t, p1, a);
    lemma_no_tags_in(t, p3, b);
    assert(ib.subrange(2, ib.len() as int) =~= seq![' '] + c + Seq::<char>::empty());
    assert(all_ws(seq![' ']));
    assert(all_ws(Seq::<char>::empty()));
    lemma_trim_around(seq![' '], c, Seq::<char>::empty());
}

/// The code pass over a conditional block keeps exactly the chosen branch.
#[verifier::spinoff_prover]
proof fn lemma_if_else_code_pass(c: Seq<char>, a: Seq<char>, b: Seq<char>, vars: Vars, ctx: TemplateContext)
    requires
        plain_body(c),
        no_tag_open(a),
        no_tag_open(b),
    ensures
        code_pass_all(if_else_block(c, a, b), vars, ctx) == (
            if condition_holds(c, vars, ctx) {
                a
            } else {
                b
            },
            vars,
            true,
        ),
{
    lemma_if_else_tags(c, a, b);
    let t = if_else_block(c, a, b);
    let ib = seq!['i', 'f', ' '] + c;
    let p1 = code_tag(ib).len();
    let p2 = p1 + a.len();
    let p3 = p2 + code_tag("else"@).len();
    let p4 = p3 + b.len();
    let h = condition_holds(c, vars, ctx);
    let f1 = Seq::<bool>::empty().push(h);
    assert(f1[0] == h);
    assert(all_on(f1) == h);
    let f2 = flip_top(f1);
    assert(f2 =~= seq![!h]);
    assert(f2[0] == !h);
    assert(all_on(f2) == !h);
    let f3 = pop_top(f2);
    assert(f3 =~= Seq::<bool>::empty());
    lemma_code_pass_skip(t, p1, p2, vars, f1, ctx);
    lemma_code_pass_skip(t, p3, p4, vars, f2, ctx);
    assert(code_pass(t, t.len(), vars, f3, ctx).0 =~= Seq::<char>::empty());
    let text = code_pass_all(t, vars, ctx).0;
    let ea = if h { a } else { Seq::<char>::empty() };
    let eb = if !h { b } else { Seq::<char>::empty() };
    assert(code_pass(t, p3, vars, f2, ctx).0 == eb + Seq::<char>::empty());
    assert(text == ea + (eb + Seq::<char>::empty()));
    if h {
        assert(text =~= a);
    } else {
        assert(text =~= b);
    }
}

/// A conditional block renders as its first branch where its condition holds and as its second
/// branch where it does not, and leaves the variables as they were.
pub proof fn law_if_else(c: Seq<char>, a: Seq<char>, b: Seq<char>, vars: Vars, ctx: TemplateContext)
    requires
        plain_body(c),
        no_tag_open(a),
        no_tag_open(b),
    ensures
        render(if_else_block(c, a, b), vars, ctx) == (
            if condition_holds(c, vars, ctx) {
                a
            } else {
                b
            },
            vars,
        ),
        code_pass_all(if_else_block(c, a, b), vars, ctx).2,
{
    lemma_if_else_code_pass(c, a, b, vars, ctx);
    let chosen = if condition_holds(c, vars, ctx) { a } else { b };
    lemma_no_tags(chosen);
    lemma_output_pass_skip(chosen, 0, chosen.len(), vars, ctx);
    assert(chosen.subrange(0, chosen.len() as int) =~= chosen);
    assert(output_pass(chosen, chosen.len(), vars, ctx) =~= Seq::<char>::empty());
    assert(output_pass(chosen, 0, vars, ctx) =~= chosen);
}

/// The condition `l == r` holds exactly when the two terms have the same value.
pub proof fn law_equality_condition(l: Seq<char>, r: Seq<char>, vars: Vars, ctx: TemplateContext)
    requires
        plain_body(l),
        plain_body(r),
        forall|i: int| 0 <= i < l.len() ==> #[trigger] l[i] != '=',
    ensures
        condition_holds(l + seq![' ', '=', '=', ' '] + r, vars, ctx) == (term_value(l, vars, ctx)
            == term_value(r, vars, ctx)),
{
    let c = l + seq![' ', '=', '=', ' '] + r;
    let n = l.len();
    let eq = seq!['=', '='];
    assert forall|m: nat| 0 <= m < n + 1 implies !#[trigger] occurs_at(c, m, eq) by {
        if m < n {
            assert(c[m as int] == l[m as int]);
            if occurs_at(c, m, eq) {
                assert(c.subrange(m as int, m + 2int)[0] == '=');
            }
        } else {
            if occurs_at(c, m, eq) {
                assert(c.subrange(m as int, m + 2int)[0] == ' ');
            }
        }
    }
    assert(c.subrange(n + 1int, n + 3int) =~= eq);
    lemma_find_seq_at(c, eq, 0, n + 1);
    assert(all_ws(seq![' ']));
    assert(all_ws(Seq::<char>::empty()));
    assert(c.subrange(0, n + 1int) =~= Seq::<char>::empty() + l + seq![' ']);
    lemma_trim_around(Seq::<char>::empty(), l, seq![' ']);
    assert(c.subrange(n + 3int, c.len() as int) =~= seq![' '] + r + Seq::<char>::empty());
    lemma_trim_around(seq![' '], r, Seq::<char>::empty());
}

/// `request.method == "POST"` holds exactly when the request's method is `POST`, unless a
/// variable bears the name `request.method`.
pub proof fn law_method_condition(vars: Vars, ctx: TemplateContext)
    requires
        !vars.contains_key("request.method"@),
    ensures
        condition_holds("request.method"@ + seq![' ', '=', '=', ' '] + "\"POST\""@, vars, ctx)
            == (ctx.method@ == "POST"@),
{
    reveal_strlit("request.method");
    reveal_strlit("request.");
    reveal_strlit("\"POST\"");
    reveal_strlit("POST");
    let l = "request.method"@;
    let r = "\"POST\""@;
    assert(no_percent(l));
    assert(no_percent(r));
    assert(forall|i: int| 0 <= i < l.len() ==> #[trigger] l[i] != '=');
    law_equality_condition(l, r, vars, ctx);
    assert(l.subrange(0, 8) =~= "request."@);
    assert(term_value(l, vars, ctx) == ctx.method@);
    assert(r.subrange(1, r.len() - 1) =~= "POST"@);
    assert(term_value(r, vars, ctx) == "POST"@);
}

/// `<%= request.method %>` prints the request's method, unless a variable bears that name.
pub proof fn law_request_method(vars: Vars, ctx: TemplateContext)
    requires
        !vars.contains_key("request.method"@),
    ensures
        render(output_tag("request.method"@), vars, ctx) == (ctx.method@, vars),
{
    reveal_strlit("request.method");
    reveal_strlit("request.");
    let e = "request.method"@;
    assert(no_percent(e));
    law_output_tag(e, vars, ctx);
    assert(e.subrange(0, 8) =~= "request."@);
    assert(request_value(e, ctx) == ctx.method@);
}

/// `<%= query.NAME %>` prints the query parameter `NAME`, and `<%= form.NAME %>` the submitted
/// form field `NAME`, unless a variable bears the expression's name.
pub proof fn law_query_and_form(name: Seq<char>, vars: Vars, ctx: TemplateContext)
    requires
        plain_body(name),
        !vars.contains_key("query."@ + name),
        !vars.contains_key("form."@ + name),
    ensures
        render(output_tag("query."@ + name), vars, ctx) == (
            query_param(ctx.query_string@, name),
            vars,
        ),
        render(output_tag("form."@ + name), vars, ctx) == (query_param(ctx.form_data@, name), vars),
{
    reveal_strlit("request.");
    reveal_strlit("query.");
    reveal_strlit("form.");
    let q = "query."@ + name;
    let f = "form."@ + name;
    assert(no_percent(q)) by {
        assert forall|i: int| 0 <= i < q.len() implies #[trigger] q[i] != '%' by {
            if i >= 6 {
                assert(q[i] == name[i - 6]);
            }
        }
    }
    assert(no_percent(f)) by {
        assert forall|i: int| 0 <= i < f.len() implies #[trigger] f[i] != '%' by {
            if i >= 5 {
                assert(f[i] == name[i - 5]);
            }
        }
    }
    assert(q.last() == name.last());
    assert(f.last() == name.last());
    law_output_tag(q, vars, ctx);
    law_output_tag(f, vars, ctx);
    assert(!starts_with(q, "request."@)) by {
        if starts_with(q, "request."@) {
            assert(q.subrange(0, 8)[0] == 'r');
        }
    }
    assert(q.subrange(0, 6) =~= "query."@);
    assert(q.subrange(6, q.len() as int) =~= name);
    assert(!starts_with(f, "request."@)) by {
        if starts_with(f, "request."@) {
            assert(f.subrange(0, 8)[0] == 'r');
        }
    }
    assert(!starts_with(f, "query."@)) by {
        if starts_with(f, "query."@) {
            assert(f.subrange(0, 6)[0] == 'q');
        }
    }
    assert(f.subrange(0, 5) =~= "form."@);
    assert(f.subrange(5, f.len() as int) =~= name);
    assert(!plus_expression(q, vars));
    assert(!plus_expression(f, vars));
}

/// The include directive `<%@include file="name" %>`.
pub open spec fn include_directive(name: Seq<char>) -> Seq<char> {
    seq!['<', '%', '@', 'i', 'n', 'c', 'l', 'u', 'd', 'e', ' ', 'f', 'i', 'l', 'e', '=', '"']
        + name + seq!['"', ' ', '%', '>']
}

/// An include directive names its file, and expanding it puts the file's content in its place.
pub proof fn law_include_replaced(name: Seq<char>, content: Seq<char>)
    requires
        name.len() > 0,
        forall|i: int| 0 <= i < name.len() ==> #[trigger] name[i] != '"',
    ensures
        include_names(include_directive(name), 0) == seq![name],
        include_pass(include_directive(name), 0, seq![content]) == content,
{
    let t = include_directive(name);
    let n = name.len() as int;
    reveal_strlit("<%@include");
    reveal_strlit("file=\"");
    assert(t.subrange(0, 10) =~= "<%@include"@);
    assert(occurs_at(t, 0, "<%@include"@));
    assert(t[10] == ' ');
    assert(t[11] == 'f');
    assert(ws_end(t, 11) == 11);
    assert(ws_end(t, 10) == 11);
    assert(t.subrange(11, 17) =~= "file=\""@);
    assert(occurs_at(t, 11, "file=\""@));
    assert forall|m: int| 17 <= m < 17 + n implies t[m] != '"' by {
        assert(t[m] == name[m - 17]);
    }
    lemma_find_from_at(t, '"', 17, (17 + n) as nat);
    assert(t[17 + n + 1] == ' ');
    assert(t[17 + n + 2] == '%');
    assert(ws_end(t, (17 + n + 2) as nat) == 17 + n + 2);
    assert(ws_end(t, (17 + n + 1) as nat) == 17 + n + 2);
    assert(closes_at(t, (17 + n + 2) as nat));
    assert(include_tag(t, 0) == Some((17nat, (17 + n) as nat, t.len())));
    assert(t.subrange(17, 17 + n) =~= name);
    assert(include_names(t, t.len()) =~= Seq::<Seq<char>>::empty());
    assert(include_names(t, 0) =~= seq![name]);
    assert(include_pass(t, t.len(), seq![content].drop_first()) =~= Seq::<char>::empty());
    assert(include_pass(t, 0, seq![content]) =~= content);
}

/// An include directive left unexpanded is a code tag like any other: it prints nothing and
/// assigns the file name to the variable `@include file`.
pub proof fn law_unexpanded_include(name: Seq<char>, vars: Vars, ctx: TemplateContext)
    requires
        name.len() > 0,
        no_percent(name),
    ensures
        render(include_directive(name), vars, ctx) == (
            Seq::<char>::empty(),
            vars.insert("@include file"@, name),
        ),
        code_pass_all(include_directive(name), vars, ctx).2,
{
    reveal_strlit("@include file");
    reveal_strlit("else");
    reveal_strlit("end");
    let t = include_directive(name);
    let n = name.len() as int;
    let head = seq!['@', 'i', 'n', 'c', 'l', 'u', 'd', 'e', ' ', 'f', 'i', 'l', 'e'];
    let quoted = seq!['"'] + name + seq!['"'];
    let body = head + seq!['='] + quoted;
    assert(t =~= seq!['<', '%'] + body + seq![' ', '%', '>']);
    assert(t[2] == '@');
    assert(ws_end(t, 2) == 2);
    let e = (t.len() - 2) as nat;
    assert forall|m: int| 3 <= m < e implies t[m] != '%' by {
        if 17 <= m < 17 + n {
            assert(t[m] == name[m - 17]);
        }
    }
    lemma_find_from_at(t, '%', 3, e);
    assert(code_tag_end(t, 0) == Some(t.len()));
    assert(t.subrange(2, e as int) =~= Seq::<char>::empty() + body + seq![' ']);
    assert(all_ws(Seq::<char>::empty()));
    assert(all_ws(seq![' ']));
    assert(body[0] == '@');
    assert(body.last() == '"');
    lemma_trim_around(Seq::<char>::empty(), body, seq![' ']);
    assert(code_body(t, 0, t.len()) == body);
    assert(!is_if(body));
    assert(!is_else(body)) by {
        assert(body[0] != "else"@[0]);
    }
    assert(!is_end(body)) by {
        assert(body[0] != "end"@[0]);
    }
    assert forall|m: int| 0 <= m < 13 implies body[m] != '=' by {}
    lemma_find_from_at(body, '=', 0, 13);
    assert(body.subrange(0, 13) =~= Seq::<char>::empty() + head + Seq::<char>::empty());
    lemma_trim_around(Seq::<char>::empty(), head, Seq::<char>::empty());
    assert(head =~= "@include file"@);
    assert(body.subrange(14, body.len() as int) =~= Seq::<char>::empty() + quoted + Seq::<
        char,
    >::empty());
    lemma_trim_around(Seq::<char>::empty(), quoted, Seq::<char>::empty());
    assert(assigned_text(body) == quoted);
    assert(quoted.subrange(1, quoted.len() - 1) =~= name);
    assert(!lone_quote(body));
    assert(all_on(Seq::<bool>::empty()));
    assert(assign(vars, body) == vars.insert("@include file"@, name));
    assert(code_pass(t, t.len(), assign(vars, body), Seq::empty(), ctx).0 =~= Seq::<char>::empty());
    assert(output_pass(Seq::<char>::empty(), 0, assign(vars, body), ctx) =~= Seq::<char>::empty());
}

/// The names a code pass assigns from position `i` on, with the open blocks `frames`: those of
/// the assignments it runs.
pub open spec fn assigned_in(
    t: Seq<char>,
    i: nat,
    vars: Vars,
    frames: Seq<bool>,
    ctx: TemplateContext,
) -> Set<Seq<char>>
    decreases t.len() - i,
{
    if i >= t.len() {
        Set::empty()
    } else {
        match code_tag_end(t, i) {
            Some(e) => {
                proof {
                    crate::tags::lemma_code_tag_end(t, i);
                }
                let b = code_body(t, i, e);
                if is_if(b) {
                    assigned_in(t, e, vars, frames.push(condition_holds(if_condition(b), vars, ctx)), ctx)
                } else if is_else(b) {
                    assigned_in(t, e, vars, flip_top(frames), ctx)
                } else if is_end(b) {
                    assigned_in(t, e, vars, pop_top(frames), ctx)
                } else if !all_on(frames) {
                    assigned_in(t, e, vars, frames, ctx)
                } else if lone_quote(b) {
                    Set::empty()
                } else if is_assignment(b) {
                    assigned_in(t, e, assign(vars, b), frames, ctx).insert(assigned_name(b))
                } else {
                    assigned_in(t, e, vars, frames, ctx)
                }
            },
            None => assigned_in(t, i + 1, vars, frames, ctx),
        }
    }
}

/// The names a template assigns when rendered with `vars` for the request `ctx`.
pub open spec fn template_assigns(content: Seq<char>, vars: Vars, ctx: TemplateContext) -> Set<
    Seq<char>,
> {
    assigned_in(content, 0, vars, Seq::empty(), ctx)
}

/// A variable that the code pass does not assign keeps its value.
pub proof fn lemma_value_kept(
    t: Seq<char>,
    i: nat,
    vars: Vars,
    frames: Seq<bool>,
    ctx: TemplateContext,
    x: Seq<char>,
)
    requires
        vars.contains_key(x),
        !assigned_in(t, i, vars, frames, ctx).contains(x),
    ensures
        code_pass(t, i, vars, frames, ctx).1.contains_key(x),
        code_pass(t, i, vars, frames, ctx).1[x] == vars[x],
    decreases t.len() - i,
{
    if i < t.len() {
        match code_tag_end(t, i) {
            Some(e) => {
                crate::tags::lemma_code_tag_end(t, i);
                let b = code_body(t, i, e);
                if is_if(b) {
                    lemma_value_kept(t, e, vars, frames.push(condition_holds(if_condition(b), vars, ctx)), ctx, x);
                } else if is_else(b) {
                    lemma_value_kept(t, e, vars, flip_top(frames), ctx, x);
                } else if is_end(b) {
                    lemma_value_kept(t, e, vars, pop_top(frames), ctx, x);
                } else if !all_on(frames) {
                    lemma_value_kept(t, e, vars, frames, ctx, x);
                } else if lone_quote(b) {
                } else if is_assignment(b) {
                    assert(assigned_name(b) != x);
                    lemma_value_kept(t, e, assign(vars, b), frames, ctx, x);
                } else {
                    lemma_value_kept(t, e, vars, frames, ctx, x);
                }
            },
            None => {
                lemma_value_kept(t, i + 1, vars, frames, ctx, x);
            },
        }
    }
}

/// Whether no rendering of `steps`, done one after the other from `vars`, assigns `x`.
pub open spec fn never_assigns(steps: Seq<(Seq<char>, TemplateContext)>, vars: Vars, x: Seq<char>) -> bool
    decreases steps.len(),
{
    steps.len() == 0 || (!template_assigns(steps[0].0, vars, steps[0].1).contains(x)
        && never_assigns(steps.drop_first(), render(steps[0].0, vars, steps[0].1).1, x))
}

/// A variable keeps its value over any sequence of renderings none of which assigns it.
pub proof fn law_value_kept_over_calls(
    steps: Seq<(Seq<char>, TemplateContext)>,
    vars: Vars,
    x: Seq<char>,
)
    requires
        vars.contains_key(x),
        never_assigns(steps, vars, x),
    ensures
        render_all(steps, vars).contains_key(x),
        render_all(steps, vars)[x] == vars[x],
    decreases steps.len(),
{
    if steps.len() > 0 {
        lemma_value_kept(steps[0].0, 0, vars, Seq::empty(), steps[0].1, x);
        law_value_kept_over_calls(steps.drop_first(), render(steps[0].0, vars, steps[0].1).1, x);
    }
}

/// A variable assigned by one rendering is printed by any later rendering, whatever requests
/// they answer, as long as no rendering in between assigns it.
pub proof fn law_assigned_then_printed_after_calls(
    name: Seq<char>,
    value: Seq<char>,
    vars: Vars,
    first: TemplateContext,
    steps: Seq<(Seq<char>, TemplateContext)>,
    last: TemplateContext,
)
    requires
        plain_name(name),
        no_percent(value),
        never_assigns(steps, render(assignment_tag(name, value), vars, first).1, name),
    ensures
        render(
            output_tag(name),
            render_all(steps, render(assignment_tag(name, value), vars, first).1),
            last,
        ).0 == value,
{
    law_code_tag_prints_nothing(name, value, vars, first);
    let v1 = vars.insert(name, value);
    law_value_kept_over_calls(steps, v1, name);
    let vn = render_all(steps, v1);
    law_output_tag(name, vn, last);
}

} // verus!
