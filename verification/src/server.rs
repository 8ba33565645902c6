//! Serving settings: the route configuration, the template file for a request path, and the
//! port to listen on.
use vstd::prelude::*;
use crate::number::{parse_u16, parse_u16_range};
use crate::text::{equals_range, extend_all, from_chars, to_chars};

verus! {

/// One configured route: a path, the template file that serves it, and its methods.
#[derive(Debug, Clone)]
pub struct RouteEntry {
    pub path: String,
    pub file: String,
    pub methods: Vec<String>,
}

/// The configured routes.
#[derive(Debug, Clone)]
pub struct RouteConfig {
    pub routes: Vec<RouteEntry>,
}

impl Default for RouteConfig {
    /// No routes.
    fn default() -> (r: Self)
        ensures
            r.routes@.len() == 0,
    {
        RouteConfig { routes: Vec::new() }
    }
}

/// Whether a configured route serves a request: its path is the request's path and the
/// request's method is among its methods.
pub open spec fn route_matches(e: RouteEntry, path: Seq<char>, method: Seq<char>) -> bool {
    e.path@ == path && exists|j: int| 0 <= j < e.methods@.len() && (#[trigger] e.methods@[j])@
        == method
}

/// Whether `s` equals `t`.
fn same_text(s: &str, t: &str) -> (r: bool)
    ensures
        r == (s@ == t@),
{
    let a = to_chars(s);
    let n = a.len();
    assert(a@.subrange(0, n as int) =~= a@);
    equals_range(&a, 0, n, &to_chars(t))
}

impl RouteConfig {
    /// The first configured route that serves a request for `path` with `method`, if any.
    pub fn find_route(&self, path: &str, method: &str) -> (r: Option<usize>)
        ensures
            match r {
                Some(i) => i < self.routes@.len() && route_matches(self.routes@[i as int], path@, method@)
                    && forall|j: int| 0 <= j < i ==> !route_matches(#[trigger] self.routes@[j], path@, method@),
                None => forall|j: int| 0 <= j < self.routes@.len() ==> !route_matches(#[trigger] self.routes@[j], path@, method@),
            },
    {
        let mut i: usize = 0;
        while i < self.routes.len()
            invariant
                i <= self.routes@.len(),
                forall|j: int| 0 <= j < i ==> !route_matches(#[trigger] self.routes@[j], path@, method@),
            decreases self.routes.len() - i,
        {
            let e = &self.routes[i];
            if same_text(e.path.as_str(), path) {
                let mut k: usize = 0;
                while k < e.methods.len()
                    invariant
                        k <= e.methods@.len(),
                        i < self.routes@.len(),
                        e == self.routes@[i as int],
                        e.path@ == path@,
                        forall|j: int| 0 <= j < i ==> !route_matches(#[trigger] self.routes@[j], path@, method@),
                        forall|j: int| 0 <= j < k ==> (#[trigger] e.methods@[j])@ != method@,
                    decreases e.methods.len() - k,
                {
                    if same_text(e.methods[k].as_str(), method) {
                        assert(e.methods@[k as int]@ == method@);
                        return Some(i);
                    }
                    k += 1;
                }
            }
            i += 1;
        }
        None
    }
}

/// The port used when the given one does not read as a `u16`.
pub const DEFAULT_PORT: u16 = 8000;

/// The template file that serves a request path: `index.html` for the empty path, else the
/// path with `.html` appended.
pub open spec fn template_file(path: Seq<char>) -> Seq<char> {
    if path.len() == 0 {
        "index.html"@
    } else {
        path + ".html"@
    }
}

/// The template file that serves the request path `path`.
pub fn template_file_for_path(path: &str) -> (r: String)
    ensures
        r@ == template_file(path@),
{
    let mut out = to_chars(path);
    if out.len() == 0 {
        let f = to_chars("index.html");
        return from_chars(&f, 0, f.len());
    }
    extend_all(&mut out, &to_chars(".html"));
    from_chars(&out, 0, out.len())
}

/// Whether a file with extension `ext` is a template: its extension is `html`.
pub fn is_template_extension(ext: Option<&str>) -> (r: bool)
    ensures
        r == (ext matches Some(e) && e@ == "html"@),
{
    match ext {
        Some(e) => {
            let v = to_chars(e);
            let n = v.len();
            assert(v@.subrange(0, n as int) =~= v@);
            equals_range(&v, 0, n, &to_chars("html"))
        },
        None => false,
    }
}

/// The port to listen on: `port` read as a `u16`, else `DEFAULT_PORT`.
pub fn parse_port(port: &str) -> (r: u16)
    ensures
        r == match parse_u16(port@) {
            Some(v) => v,
            None => DEFAULT_PORT as int,
        },
{
    let v = to_chars(port);
    let n = v.len();
    assert(v@.subrange(0, n as int) =~= v@);
    match parse_u16_range(&v, 0, n) {
        Some(p) => p,
        None => DEFAULT_PORT,
    }
}

} // verus!
