// Rendering compared with the same three tag patterns run by the `regex` crate, over many
// generated templates.
use hommedefer::context::TemplateContext;
use hommedefer::includes::IncludeExpansion;
use hommedefer::processor::TemplateProcessor;
use regex::Regex;
use std::collections::HashMap;

struct Reference {
    data: HashMap<String, String>,
}

impl Reference {
    fn lookup(&self, s: &str, c: &TemplateContext) -> String {
        if let Some(v) = self.data.get(s) {
            return v.clone();
        }
        if s.starts_with("request.") {
            return match s {
                "request.method" => c.method.clone(),
                "request.url" => c.uri.clone(),
                "request.host" => c.host.clone(),
                "request.remoteaddr" => c.remote_addr.clone(),
                "request.query" => c.query_string.clone(),
                _ => s.to_string(),
            };
        }
        if let Some(name) = s.strip_prefix("query.") {
            return param(&c.query_string, name);
        }
        if let Some(name) = s.strip_prefix("form.") {
            return param(&c.form_data, name);
        }
        s.to_string()
    }

    fn term(&self, s: &str, c: &TemplateContext) -> String {
        if s.len() >= 2 && s.starts_with('"') && s.ends_with('"') {
            s[1..s.len() - 1].to_string()
        } else {
            self.lookup(s, c)
        }
    }

    fn condition(&self, cond: &str, c: &TemplateContext) -> bool {
        if let Some((l, r)) = cond.split_once("==") {
            self.term(l.trim(), c) == self.term(r.trim(), c)
        } else if let Some((l, r)) = cond.split_once("!=") {
            self.term(l.trim(), c) != self.term(r.trim(), c)
        } else {
            !self.term(cond, c).is_empty()
        }
    }

    fn code(&mut self, content: &str, c: &TemplateContext) -> String {
        let code_regex = Regex::new(r"<%\s*([^=][^%]*)\s*%>").unwrap();
        let mut out = String::new();
        let mut frames: Vec<bool> = Vec::new();
        let mut last = 0;
        for caps in code_regex.captures_iter(content) {
            let m = caps.get(0).unwrap();
            let active = frames.iter().all(|f| *f);
            if active {
                out.push_str(&content[last..m.start()]);
            }
            last = m.end();
            let code = caps[1].trim();
            let is_if = code.starts_with("if")
                && (code.len() == 2 || code[2..].chars().next().map_or(false, |ch| ch.is_whitespace()));
            if is_if {
                let holds = self.condition(code[2..].trim(), c);
                frames.push(holds);
            } else if code == "else" {
                if let Some(top) = frames.last_mut() {
                    *top = !*top;
                }
            } else if code == "end" {
                frames.pop();
            } else if active && code.contains('=') {
                let parts: Vec<&str> = code.splitn(2, '=').collect();
                let var_name = parts[0].trim();
                let mut var_value = parts[1].trim();
                if var_value.starts_with('"') && var_value.ends_with('"') {
                    var_value = &var_value[1..var_value.len() - 1];
                }
                self.data.insert(var_name.to_string(), var_value.to_string());
            }
        }
        if frames.iter().all(|f| *f) {
            out.push_str(&content[last..]);
        }
        out
    }

    fn output(&self, content: &str, c: &TemplateContext) -> String {
        let output_regex = Regex::new(r"<%=\s*([^%]+)\s*%>").unwrap();
        output_regex
            .replace_all(content, |caps: &regex::Captures| {
                let e = caps[1].trim();
                let plus = !self.data.contains_key(e)
                    && !e.starts_with("request.")
                    && !e.starts_with("query.")
                    && !e.starts_with("form.")
                    && e.contains('+');
                if !plus {
                    return self.lookup(e, c);
                }
                let values: Vec<String> = e.split('+').map(|t| self.term(t.trim(), c)).collect();
                let nums: Vec<Option<i32>> = values.iter().map(|v| v.parse::<i32>().ok()).collect();
                let all = nums.iter().all(|n| n.is_some());
                if values.len() == 2 {
                    if let (Some(a), Some(b)) = (nums[0], nums[1]) {
                        if let Some(sum) = a.checked_add(b) {
                            return sum.to_string();
                        }
                    }
                    values.concat()
                } else if all {
                    e.to_string()
                } else {
                    values.concat()
                }
            })
            .to_string()
    }
}

fn param(qs: &str, name: &str) -> String {
    for pair in qs.split('&') {
        if let Some((key, value)) = pair.split_once('=') {
            if key == name {
                return value.to_string();
            }
        }
    }
    String::new()
}

fn includes_with_regex(content: &str, files: &HashMap<&str, &str>) -> String {
    let include_regex = Regex::new(r#"<%@include\s+file="([^"]+)"\s*%>"#).unwrap();
    let mut result = content.to_string();
    let mut iterations = 0;
    while include_regex.is_match(&result) && iterations < 10 {
        result = include_regex
            .replace_all(&result, |caps: &regex::Captures| {
                files.get(&caps[1]).map(|s| s.to_string()).unwrap_or_else(|| "<!-- missing -->".to_string())
            })
            .to_string();
        iterations += 1;
    }
    result
}

struct Gen(u64);

impl Gen {
    fn next(&mut self) -> u64 {
        self.0 = self.0.wrapping_mul(6364136223846793005).wrapping_add(1442695040888963407);
        self.0 >> 33
    }

    fn template(&mut self, len: usize) -> String {
        let pieces = [
            "<%", "%>", "<%=", "<% ", " %>", "=", " ", "\"", "a", "b", "x", "+", "1", "23", "-", "\n",
            "\u{3000}", "%", "<", ">", "request.method", "query.a", "request.", "\t", "@", "v",
            "2147483647", "<% a = \"", "\" %>", "<%= a %>", "<%= b %>", "<% b=1 %>",
            "<% if ", "<% else %>", "<% end %>", " == ", "!=", "form.a", "\"x\"", "<% if a %>",
        ];
        let mut s = String::new();
        for _ in 0..len {
            s.push_str(pieces[(self.next() as usize) % pieces.len()]);
        }
        s
    }
}

fn ctx(query: &str) -> TemplateContext {
    TemplateContext {
        method: "POST".to_string(),
        uri: "/x".to_string(),
        host: "h".to_string(),
        remote_addr: "r".to_string(),
        query_string: query.to_string(),
        form_data: "a=f&b=1".to_string(),
    }
}

#[test]
fn rendering_agrees_with_regex_patterns() {
    let mut g = Gen(7);
    let query = "a=1&b=two&a=3";
    let c = ctx(query);
    let mut compared = 0;
    for round in 0..1200 {
        let mut p = TemplateProcessor::new("r".to_string());
        let mut reference = Reference { data: HashMap::new() };
        for _ in 0..3 {
            let t = g.template(1 + round % 14);
            if !p.can_render(&t, &c) {
                continue;
            }
            let mine = p.process_template(&t, &c).unwrap();
            let text = reference.code(&t, &c);
            let theirs = reference.output(&text, &c);
            assert_eq!(mine, theirs, "template {:?}", t);
            for (k, v) in reference.data.iter() {
                assert_eq!(p.variable(k), Some(v.clone()), "template {:?}", t);
            }
            compared += 1;
        }
    }
    assert!(compared > 2000);
}

#[test]
fn include_expansion_agrees_with_regex_pattern() {
    let mut g = Gen(11);
    let mut files: HashMap<&str, &str> = HashMap::new();
    files.insert("a", "[A]");
    files.insert("b", "<%@include file=\"a\" %>");
    files.insert("c", "<%@include file=\"c\"%>");
    let pieces = [
        "<%@include file=\"a\" %>", "<%@include\tfile=\"b\"%>", "<%@include file=\"c\"  %>",
        "<%@include", " ", "file=\"", "a", "\"", "%>", "x", "<%@include file=\"zz\" %>",
    ];
    for _ in 0..1000 {
        let mut t = String::new();
        for _ in 0..(1 + g.next() % 8) {
            t.push_str(pieces[(g.next() as usize) % pieces.len()]);
        }
        let mut x = IncludeExpansion::new(&t);
        while let Some(names) = x.pending_includes() {
            let contents = names
                .iter()
                .map(|n| files.get(n.as_str()).map(|s| s.to_string()).unwrap_or_else(|| "<!-- missing -->".to_string()))
                .collect();
            x.resolve(contents);
        }
        assert_eq!(x.content(), includes_with_regex(&t, &files), "template {:?}", t);
    }
}
