//! Properties of the values templates and requests are read from: query parameters, request
//! fields, ports, template file names and configured routes.
use vstd::prelude::*;
use crate::context::{query_param, query_param_from, request_value, TemplateContext};
use crate::number::{all_digits, digits_value, is_digit, lemma_nat_str, nat_str, parse_u16};
use crate::server::{route_matches, template_file, RouteEntry};
use crate::expression::{starts_with, Vars};
use crate::laws::{law_output_tag, output_tag};
use crate::render::render;
use crate::text::{find_from, is_ws, lemma_find_from, lemma_find_from_at};

verus! {

/// Text without `c`.
pub open spec fn lacks(s: Seq<char>, c: char) -> bool {
    forall|i: int| 0 <= i < s.len() ==> #[trigger] s[i] != c
}

/// Searching a text that has `p` in front of `r` from inside `r` finds what searching `r` finds,
/// moved by `p`'s length.
proof fn lemma_find_from_shift(p: Seq<char>, r: Seq<char>, c: char, i: nat)
    ensures
        find_from(p + r, c, p.len() + i) == p.len() + find_from(r, c, i),
    decreases r.len() - i,
{
    if i < r.len() {
        assert((p + r)[p.len() + i as int] == r[i as int]);
        if r[i as int] != c {
            lemma_find_from_shift(p, r, c, i + 1);
        }
    }
}

/// Reading query parameters from inside `r`, with `p` in front of it, reads them as from `r`.
proof fn lemma_query_shift(p: Seq<char>, r: Seq<char>, name: Seq<char>, i: nat)
    ensures
        query_param_from(p + r, name, p.len() + i) == query_param_from(r, name, i),
    decreases r.len() - i,
{
    let t = p + r;
    let n = p.len();
    if i <= r.len() {
        lemma_find_from_shift(p, r, '&', i);
        lemma_find_from_shift(p, r, '=', i);
        lemma_find_from(r, '&', i);
        lemma_find_from(r, '=', i);
        let k = find_from(r, '&', i);
        let j = find_from(r, '=', i);
        if j < k {
            assert(t.subrange((n + i) as int, (n + j) as int) =~= r.subrange(i as int, j as int));
            assert(t.subrange((n + j + 1) as int, (n + k) as int) =~= r.subrange(j + 1int, k as int));
        }
        if k < r.len() {
            lemma_query_shift(p, r, name, k + 1);
            assert(n + k + 1 == n + (k + 1));
        }
    }
}

/// The pair `name=value`.
pub open spec fn pair(name: Seq<char>, value: Seq<char>) -> Seq<char> {
    name + seq!['='] + value
}

/// A pair whose key is the name asked for gives its value, whatever pairs follow it.
pub proof fn law_query_matching_pair(name: Seq<char>, value: Seq<char>, rest: Seq<char>)
    requires
        lacks(name, '&'),
        lacks(name, '='),
        lacks(value, '&'),
    ensures
        query_param(pair(name, value), name) == value,
        query_param(pair(name, value) + seq!['&'] + rest, name) == value,
{
    let n = name.len();
    let q1 = pair(name, value);
    let q2 = pair(name, value) + seq!['&'] + rest;
    assert forall|m: int| 0 <= m < n implies q1[m] != '=' && q2[m] != '=' by {
        assert(q1[m] == name[m]);
        assert(q2[m] == name[m]);
    }
    lemma_find_from_at(q1, '=', 0, n);
    lemma_find_from_at(q2, '=', 0, n);
    assert forall|m: int| 0 <= m < q1.len() implies q1[m] != '&' && q2[m] != '&' by {
        if m < n {
            assert(q1[m] == name[m]);
        } else if m > n {
            assert(q1[m] == value[m - n - 1]);
        }
        assert(q2[m] == q1[m]);
    }
    lemma_find_from_at(q1, '&', 0, q1.len());
    lemma_find_from_at(q2, '&', 0, q1.len());
    assert(q1.subrange(0, n as int) =~= name);
    assert(q2.subrange(0, n as int) =~= name);
    assert(q1.subrange(n + 1int, q1.len() as int) =~= value);
    assert(q2.subrange(n + 1int, q1.len() as int) =~= value);
}

/// A pair whose key is not the name asked for is passed over: what follows it decides.
pub proof fn law_query_other_pair(key: Seq<char>, value: Seq<char>, rest: Seq<char>, name: Seq<char>)
    requires
        lacks(key, '&'),
        lacks(key, '='),
        lacks(value, '&'),
        key != name,
    ensures
        query_param(pair(key, value) + seq!['&'] + rest, name) == query_param(rest, name),
        query_param(pair(key, value), name) == Seq::<char>::empty(),
{
    let n = key.len();
    let head = pair(key, value) + seq!['&'];
    let q = head + rest;
    let q1 = pair(key, value);
    assert forall|m: int| 0 <= m < n implies q[m] != '=' && q1[m] != '=' by {
        assert(q[m] == key[m]);
        assert(q1[m] == key[m]);
    }
    lemma_find_from_at(q, '=', 0, n);
    lemma_find_from_at(q1, '=', 0, n);
    assert forall|m: int| 0 <= m < q1.len() implies q[m] != '&' && q1[m] != '&' by {
        if m < n {
            assert(q1[m] == key[m]);
        } else if m > n {
            assert(q1[m] == value[m - n - 1]);
        }
        assert(q[m] == q1[m]);
    }
    lemma_find_from_at(q, '&', 0, q1.len());
    lemma_find_from_at(q1, '&', 0, q1.len());
    assert(q.subrange(0, n as int) =~= key);
    assert(q1.subrange(0, n as int) =~= key);
    assert(q =~= head + rest);
    lemma_query_shift(head, rest, name, 0);
    assert(head.len() + 0 == q1.len() + 1);
}

/// A pair without `=` names nothing and is passed over.
pub proof fn law_query_pair_without_value(p: Seq<char>, rest: Seq<char>, name: Seq<char>)
    requires
        lacks(p, '&'),
        lacks(p, '='),
    ensures
        query_param(p + seq!['&'] + rest, name) == query_param(rest, name),
        query_param(p, name) == Seq::<char>::empty(),
{
    let head = p + seq!['&'];
    let q = head + rest;
    assert(p + seq!['&'] + rest =~= q);
    assert forall|m: int| 0 <= m < p.len() implies q[m] != '&' && q[m] != '=' by {
        assert(q[m] == p[m]);
    }
    lemma_find_from_at(q, '&', 0, p.len());
    lemma_find_from(q, '=', 0);
    assert(find_from(q, '=', 0) >= p.len()) by {
        if find_from(q, '=', 0) < p.len() {
            assert(q[find_from(q, '=', 0) as int] == p[find_from(q, '=', 0) as int]);
        }
    }
    lemma_query_shift(head, rest, name, 0);
    lemma_find_from_at(p, '&', 0, p.len());
    lemma_find_from_at(p, '=', 0, p.len());
}

/// Every port from 0 to 65535, written in decimal, reads back as itself.
pub proof fn law_port_text_reads_back(n: nat)
    requires
        n <= 65535,
    ensures
        parse_u16(nat_str(n)) == Some(n as int),
{
    lemma_nat_str(n);
    let s = nat_str(n);
    assert(is_digit(s[0]));
}

/// A port written with a leading `+` reads back as itself as well.
pub proof fn law_port_text_with_plus(n: nat)
    requires
        n <= 65535,
    ensures
        parse_u16(seq!['+'] + nat_str(n)) == Some(n as int),
{
    lemma_nat_str(n);
    assert((seq!['+'] + nat_str(n)).drop_first() =~= nat_str(n));
}

/// A port that reads from a text is the value of that text's digits: the text is one or more
/// ASCII digits, after at most one `+`, and their value is at most 65535.
pub proof fn law_port_read_is_digits(s: Seq<char>)
    requires
        parse_u16(s) is Some,
    ensures
        ({
            let d = if s[0] == '+' { s.drop_first() } else { s };
            &&& d.len() > 0
            &&& all_digits(d)
            &&& parse_u16(s) == Some(digits_value(d))
            &&& digits_value(d) <= 65535
        }),
{
}

/// Numbers above 65535 are no port.
pub proof fn law_port_out_of_range(n: nat)
    requires
        n > 65535,
    ensures
        parse_u16(nat_str(n)) is None,
{
    lemma_nat_str(n);
    let s = nat_str(n);
    assert(is_digit(s[0]));
}

/// Each `request.` field prints the request's own value for it, unchanged, and any other
/// `request.` name prints as itself.
pub proof fn law_request_fields(ctx: TemplateContext, other: Seq<char>)
    requires
        other != "request.method"@,
        other != "request.url"@,
        other != "request.host"@,
        other != "request.remoteaddr"@,
        other != "request.query"@,
    ensures
        request_value("request.method"@, ctx) == ctx.method@,
        request_value("request.url"@, ctx) == ctx.uri@,
        request_value("request.host"@, ctx) == ctx.host@,
        request_value("request.remoteaddr"@, ctx) == ctx.remote_addr@,
        request_value("request.query"@, ctx) == ctx.query_string@,
        request_value(other, ctx) == other,
{
    reveal_strlit("request.method");
    reveal_strlit("request.url");
    reveal_strlit("request.host");
    reveal_strlit("request.remoteaddr");
    reveal_strlit("request.query");
    assert("request.url"@ != "request.method"@) by {
        assert("request.url"@.len() != "request.method"@.len());
    }
    assert("request.host"@ != "request.method"@) by {
        assert("request.host"@[8] != "request.method"@[8]);
    }
    assert("request.host"@ != "request.url"@) by {
        assert("request.host"@.len() != "request.url"@.len());
    }
    assert("request.remoteaddr"@ != "request.method"@) by {
        assert("request.remoteaddr"@.len() != "request.method"@.len());
    }
    assert("request.remoteaddr"@ != "request.url"@) by {
        assert("request.remoteaddr"@.len() != "request.url"@.len());
    }
    assert("request.remoteaddr"@ != "request.host"@) by {
        assert("request.remoteaddr"@.len() != "request.host"@.len());
    }
    assert("request.query"@ != "request.method"@) by {
        assert("request.query"@.len() != "request.method"@.len());
    }
    assert("request.query"@ != "request.url"@) by {
        assert("request.query"@.len() != "request.url"@.len());
    }
    assert("request.query"@ != "request.host"@) by {
        assert("request.query"@.len() != "request.host"@.len());
    }
    assert("request.query"@ != "request.remoteaddr"@) by {
        assert("request.query"@.len() != "request.remoteaddr"@.len());
    }
}

/// An output tag naming a `request.` field prints that field's value, unless a variable bears
/// the name; with `law_request_fields`, `<%= request.url %>` prints the request's URL unchanged.
pub proof fn law_request_output(field: Seq<char>, vars: Vars, ctx: TemplateContext)
    requires
        starts_with(field, "request."@),
        !is_ws(field.last()),
        lacks(field, '%'),
        !vars.contains_key(field),
    ensures
        render(output_tag(field), vars, ctx) == (request_value(field, ctx), vars),
{
    reveal_strlit("request.");
    assert(field.subrange(0, 8)[0] == 'r');
    assert(!is_ws(field[0]));
    law_output_tag(field, vars, ctx);
}

/// The template file of a non-empty path starts with the whole path, and ends with `.html`
/// right after it.
pub proof fn law_template_file_keeps_path(p: Seq<char>)
    requires
        p.len() > 0,
    ensures
        template_file(p).len() == p.len() + 5,
        template_file(p).subrange(0, p.len() as int) == p,
        template_file(p).subrange(p.len() as int, p.len() + 5int) == ".html"@,
{
    reveal_strlit(".html");
    assert(template_file(p).subrange(0, p.len() as int) =~= p);
    assert(template_file(p).subrange(p.len() as int, p.len() + 5int) =~= ".html"@);
}

/// Different non-empty paths are served by different template files.
pub proof fn law_template_file_distinct(p: Seq<char>, q: Seq<char>)
    requires
        p.len() > 0,
        q.len() > 0,
        p != q,
    ensures
        template_file(p) != template_file(q),
{
    law_template_file_keeps_path(p);
    law_template_file_keeps_path(q);
    if template_file(p) == template_file(q) {
        assert(p.len() == q.len());
        assert(p =~= q);
    }
}

/// A route serves a request exactly when its path is the request's path and the request's
/// method is one of its methods, at whatever position it is listed.
pub proof fn law_route_serves(e: RouteEntry, path: Seq<char>, method: Seq<char>, j: int)
    requires
        e.path@ == path,
        0 <= j < e.methods@.len(),
        e.methods@[j]@ == method,
    ensures
        route_matches(e, path, method),
{
}

/// A route serves no request whose path differs from its own, nor one whose method it does not
/// list.
pub proof fn law_route_refuses(e: RouteEntry, path: Seq<char>, method: Seq<char>)
    requires
        e.path@ != path || forall|j: int| 0 <= j < e.methods@.len() ==> (#[trigger] e.methods@[j])@ != method,
    ensures
        !route_matches(e, path, method),
{
}

} // verus!
