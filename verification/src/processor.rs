//! The template processor: the root directory of the templates and the variables that code
//! tags assign, which stay from one rendering to the next.
use vstd::prelude::*;
use vstd::hash_map::StringHashMap;
use crate::context::{query_lookup, query_param, request_lookup, request_value, TemplateContext};
use crate::expression::{evaluate, join_expression, join_overflows, layered, string_vars, Vars};
use crate::render::{
    code_pass_all, code_stage, output_pass, output_pass_ok, output_stage, output_stage_ok, render,
    renders_safely,
};
use crate::text::{from_chars, to_chars};

verus! {

/// Renders templates against requests, keeping the variables that templates assign.
pub struct TemplateProcessor {
    root_path: String,
    data: StringHashMap<String>,
}

/// Laying no variables over `m` leaves its variables.
proof fn lemma_layered_empty(m: Map<Seq<char>, String>)
    ensures
        layered(m, Map::empty()) == string_vars(m),
{
    assert(layered(m, Map::empty()) =~= string_vars(m));
}

/// Merging `o` into `m` gives the variables of `o` laid over those of `m`.
proof fn lemma_layered_union(m: Map<Seq<char>, String>, o: Map<Seq<char>, String>)
    ensures
        string_vars(m.union_prefer_right(o)) == layered(m, o),
{
    assert(string_vars(m.union_prefer_right(o)) =~= layered(m, o));
}

impl TemplateProcessor {
    /// The directory that holds the templates.
    pub closed spec fn root(&self) -> Seq<char> {
        self.root_path@
    }

    /// The variables assigned so far.
    pub closed spec fn variables(&self) -> Vars {
        string_vars(self.data@)
    }

    /// A processor for the templates under `root_path`, with no variables.
    pub fn new(root_path: String) -> (r: Self)
        ensures
            r.root() == root_path@,
            r.variables() == Map::<Seq<char>, Seq<char>>::empty(),
    {
        let r = TemplateProcessor { root_path, data: StringHashMap::new() };
        assert(r.variables() =~= Map::<Seq<char>, Seq<char>>::empty());
        r
    }

    /// The directory that holds the templates.
    pub fn root_path(&self) -> (r: &str)
        ensures
            r@ == self.root(),
    {
        self.root_path.as_str()
    }

    /// The value of variable `name`, if a template has assigned it.
    pub fn variable(&self, name: &str) -> (r: Option<String>)
        ensures
            match r {
                Some(v) => self.variables().contains_key(name@) && v@ == self.variables()[name@],
                None => !self.variables().contains_key(name@),
            },
    {
        match self.data.get(name) {
            Some(v) => Some(v.clone()),
            None => None,
        }
    }

    /// Renders `content`, whose include directives are expected to have been expanded with
    /// `IncludeExpansion`: first the code tags run and vanish, choosing the branches of
    /// `if`/`else`/`end` blocks, then the output tags are replaced by their values. The
    /// variables assigned stay for later renderings. A directive left in `content` is run as a
    /// code tag: it prints nothing and assigns its file name to the variable `@include file`
    /// (`law_unexpanded_include`).
    pub fn process_template(&mut self, content: &str, context: &TemplateContext) -> (r: Result<
        String,
        String,
    >)
        requires
            renders_safely(content@, old(self).variables(), *context),
        ensures
            final(self).root() == old(self).root(),
            final(self).variables() == render(content@, old(self).variables(), *context).1,
            r matches Ok(s) && s@ == render(content@, old(self).variables(), *context).0,
    {
        let t = to_chars(content);
        let mut overlay: StringHashMap<String> = StringHashMap::new();
        proof {
            lemma_layered_empty(self.data@);
        }
        match code_stage(&t, &self.data, &mut overlay, context) {
            Some(t1) => {
                let ghost before = self.data@;
                let ghost over = overlay@;
                self.data.union_prefer_right(overlay);
                let none: StringHashMap<String> = StringHashMap::new();
                proof {
                    lemma_layered_union(before, over);
                    lemma_layered_empty(self.data@);
                }
                let out = output_stage(&t1, &self.data, &none, context);
                Ok(from_chars(&out, 0, out.len()))
            },
            None => Ok(String::new()),
        }
    }

    /// Whether `content` can be rendered with the current variables: no rendered assignment has
    /// a lone `"` as its value, and no output tag adds two integer literals whose sum overflows
    /// an `i32`.
    pub fn can_render(&self, content: &str, context: &TemplateContext) -> (r: bool)
        ensures
            r == renders_safely(content@, self.variables(), *context),
    {
        let t = to_chars(content);
        let mut overlay: StringHashMap<String> = StringHashMap::new();
        proof {
            lemma_layered_empty(self.data@);
        }
        match code_stage(&t, &self.data, &mut overlay, context) {
            Some(t1) => output_stage_ok(&t1, &self.data, &overlay, context),
            None => false,
        }
    }

    /// The code pass alone: runs the code tags of `content`, keeping the text they render.
    pub fn process_code_expressions(&mut self, content: &str, context: &TemplateContext) -> (r:
        Result<String, String>)
        requires
            code_pass_all(content@, old(self).variables(), *context).2,
        ensures
            final(self).root() == old(self).root(),
            final(self).variables() == code_pass_all(content@, old(self).variables(), *context).1,
            r matches Ok(s) && s@ == code_pass_all(content@, old(self).variables(), *context).0,
    {
        let t = to_chars(content);
        let mut overlay: StringHashMap<String> = StringHashMap::new();
        proof {
            lemma_layered_empty(self.data@);
        }
        match code_stage(&t, &self.data, &mut overlay, context) {
            Some(t1) => {
                let ghost before = self.data@;
                let ghost over = overlay@;
                self.data.union_prefer_right(overlay);
                proof {
                    lemma_layered_union(before, over);
                }
                Ok(from_chars(&t1, 0, t1.len()))
            },
            None => Ok(String::new()),
        }
    }

    /// The output pass alone: replaces the output tags of `content` by their values.
    pub fn process_output_tags(&self, content: &str, context: &TemplateContext) -> (r: Result<
        String,
        String,
    >)
        requires
            output_pass_ok(content@, 0, self.variables(), *context),
        ensures
            r matches Ok(s) && s@ == output_pass(content@, 0, self.variables(), *context),
    {
        let t = to_chars(content);
        let none: StringHashMap<String> = StringHashMap::new();
        proof {
            lemma_layered_empty(self.data@);
        }
        let out = output_stage(&t, &self.data, &none, context);
        Ok(from_chars(&out, 0, out.len()))
    }

    /// The value of a `request.` expression.
    pub fn handle_request_expression(&self, expression: &str, context: &TemplateContext) -> (r:
        String)
        ensures
            r@ == request_value(expression@, *context),
    {
        let v = request_lookup(&to_chars(expression), context);
        from_chars(&v, 0, v.len())
    }

    /// The value of parameter `param_name` in `query_string`.
    pub fn extract_query_param(&self, query_string: &str, param_name: &str) -> (r: String)
        ensures
            r@ == query_param(query_string@, param_name@),
    {
        let v = query_lookup(&to_chars(query_string), &to_chars(param_name));
        from_chars(&v, 0, v.len())
    }

    /// The value of an expression of terms joined by `+`, with the current variables.
    pub fn evaluate_simple_expression(&self, expression: &str, context: &TemplateContext) -> (r:
        String)
        requires
            !join_overflows(expression@),
        ensures
            r@ == join_expression(expression@, self.variables(), *context),
    {
        let none: StringHashMap<String> = StringHashMap::new();
        proof {
            lemma_layered_empty(self.data@);
        }
        let v = evaluate(&to_chars(expression), &self.data, &none, context);
        from_chars(&v, 0, v.len())
    }
}

} // verus!
