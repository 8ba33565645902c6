use hommedefer::context::TemplateContext;
use hommedefer::includes::{include_replacement, IncludeExpansion, MAX_INCLUDE_ROUNDS};
use hommedefer::processor::TemplateProcessor;
use hommedefer::server::{
    is_template_extension, parse_port, template_file_for_path, RouteConfig, RouteEntry, DEFAULT_PORT,
};
use hommedefer::watcher::{describe_watch_error, describe_watch_event, FileWatcher, WatchEventKind};
use std::path::PathBuf;

fn ctx(query: &str) -> TemplateContext {
    TemplateContext {
        method: "GET".to_string(),
        uri: "/about?x=1".to_string(),
        host: "localhost:8000".to_string(),
        remote_addr: "127.0.0.1:5555".to_string(),
        query_string: query.to_string(),
        form_data: String::new(),
    }
}

fn render(p: &mut TemplateProcessor, content: &str, query: &str) -> String {
    render_with(p, content, &ctx(query))
}

fn render_with(p: &mut TemplateProcessor, content: &str, c: &TemplateContext) -> String {
    assert!(p.can_render(content, c));
    p.process_template(content, c).unwrap()
}

#[test]
fn assignment_then_output() {
    let mut p = TemplateProcessor::new("./root_http".to_string());
    let out = render(
        &mut p,
        "<% title = \"Welcome to HommeDeFer!\" %>\n<h1><%= title %></h1>",
        "",
    );
    assert_eq!(out, "\n<h1>Welcome to HommeDeFer!</h1>");
    assert_eq!(p.variable("title"), Some("Welcome to HommeDeFer!".to_string()));
}

#[test]
fn variables_persist_between_renderings() {
    let mut p = TemplateProcessor::new("r".to_string());
    assert_eq!(render(&mut p, "<% version = \"1.0.0\" %>", ""), "");
    assert_eq!(render(&mut p, "Version: <%= version %>", ""), "Version: 1.0.0");
    assert_eq!(render(&mut p, "<% version = 2 %><%= version %>", ""), "2");
}

#[test]
fn request_information() {
    let mut p = TemplateProcessor::new("r".to_string());
    let out = render(
        &mut p,
        "<%= request.method %>|<%= request.url %>|<%= request.host %>|<%= request.remoteaddr %>|<%= request.query %>|<%= request.other %>",
        "a=b",
    );
    assert_eq!(out, "GET|/about?x=1|localhost:8000|127.0.0.1:5555|a=b|request.other");
}

#[test]
fn query_parameters() {
    let mut p = TemplateProcessor::new("r".to_string());
    let out = render(
        &mut p,
        "<p>Name: <%= query.name %></p><p>Age: <%= query.age %></p><p><%= query.none %></p>",
        "name=John&age=25",
    );
    assert_eq!(out, "<p>Name: John</p><p>Age: 25</p><p></p>");
}

#[test]
fn arithmetic_and_concatenation() {
    let mut p = TemplateProcessor::new("r".to_string());
    assert_eq!(render(&mut p, "5 + 3 = <%= 5 + 3 %>", ""), "5 + 3 = 8");
    assert_eq!(render(&mut p, "<%= -7 + 2 %>", ""), "-5");
    assert_eq!(render(&mut p, "<%= a + b %>", ""), "ab");
    assert_eq!(render(&mut p, "<%= 1 + 2 + 3 %>", ""), "1 + 2 + 3");
    assert_eq!(render(&mut p, "<%= 2147483647 + 1 + 0 %>", ""), "2147483647 + 1 + 0");
    let out = render(
        &mut p,
        "<% first = \"Hello\" %>\n<% second = \"World\" %>\n<p><%= first + \" \" + second %></p>",
        "",
    );
    assert_eq!(out, "\n\n<p>Hello World</p>");
    assert_eq!(render(&mut p, "<% n = 5 %><%= n + 1 %>", ""), "6");
    assert_eq!(render(&mut p, "<%= \"n\" + \"=\" + n %>", ""), "n=5");
    assert_eq!(render(&mut p, "<%= first + query.a %>", "a=!"), "Hello!");
}

#[test]
fn unknown_expression_is_printed_as_is() {
    let mut p = TemplateProcessor::new("r".to_string());
    assert_eq!(render(&mut p, "[<%= greeting %>]", ""), "[greeting]");
    assert_eq!(render(&mut p, "[<%=   spaced out   %>]", ""), "[spaced out]");
}

#[test]
fn code_without_assignment_prints_nothing() {
    let mut p = TemplateProcessor::new("r".to_string());
    assert_eq!(render(&mut p, "a<% hello %>b", ""), "ab");
    assert_eq!(p.variable("hello"), None);
}

#[test]
fn malformed_tags_stay() {
    let mut p = TemplateProcessor::new("r".to_string());
    assert_eq!(render(&mut p, "<%=%>", ""), "<%=%>");
    assert_eq!(render(&mut p, "<% x = 1", ""), "<% x = 1");
    assert_eq!(render(&mut p, "<%x%", ""), "<%x%");
}

#[test]
fn code_tag_edge_cases() {
    let mut p = TemplateProcessor::new("r".to_string());
    // whitespace before `=` makes a code tag that assigns the empty name
    assert_eq!(render(&mut p, "<% =5 %>", ""), "");
    assert_eq!(p.variable(""), Some("5".to_string()));
    // a `%` right after the whitespace is the tag's first character
    assert_eq!(render(&mut p, "<% %> a %>z", ""), "z");
    // values keep inner quotes and lose only the enclosing pair
    assert_eq!(render(&mut p, "<% q = \"a\"b\" %><%= q %>", ""), "a\"b");
    assert_eq!(render(&mut p, "<% k = v = w %><%= k %>", ""), "v = w");
}

#[test]
fn process_stages_separately() {
    let mut p = TemplateProcessor::new("r".to_string());
    let text = p.process_code_expressions("x<% n = \"7\" %>y<%= n %>", &ctx("")).unwrap();
    assert_eq!(text, "xy<%= n %>");
    let out = p.process_output_tags(&text, &ctx("")).unwrap();
    assert_eq!(out, "xy7");
}

#[test]
fn renderability_checks() {
    let mut p = TemplateProcessor::new("r".to_string());
    let c = ctx("");
    assert!(!p.can_render("<% x = \" %>", &c));
    assert!(p.can_render("<% if \"\" %><% x = \" %><% end %>", &c));
    assert!(!p.can_render("<%= 2147483647 + 1 %>", &c));
    assert!(p.can_render("<%= 2147483646 + 1 %>", &c));
    assert!(p.can_render("<%= 2147483647 + 1 + 0 %>", &c));
    // a sum of variables that leaves the `i32` range joins their values instead
    assert!(p.can_render("<% big = 2147483647 %><%= big + 1 %>", &c));
    assert_eq!(render(&mut p, "<% big = 2147483647 %><%= big + 1 %>", ""), "21474836471");
    assert_eq!(render(&mut p, "<%= 2147483646 + 1 %>", ""), "2147483647");
    // a variable of that name is printed instead of the sum
    assert_eq!(render(&mut p, "<% 2147483647 + 1 = big %>", ""), "");
    assert!(p.can_render("<%= 2147483647 + 1 %>", &c));
    assert_eq!(render(&mut p, "<%= 2147483647 + 1 %>", ""), "big");
}

#[test]
fn helper_methods() {
    let p = TemplateProcessor::new("./root_http".to_string());
    assert_eq!(p.root_path(), "./root_http");
    let c = ctx("q=1");
    assert_eq!(p.handle_request_expression("request.method", &c), "GET");
    assert_eq!(p.handle_request_expression("request.nothing", &c), "request.nothing");
    assert_eq!(p.extract_query_param("a=1&b=2&a=3", "a"), "1");
    assert_eq!(p.extract_query_param("a=1&b=2&a=3", "b"), "2");
    assert_eq!(p.extract_query_param("flag&b=2", "flag"), "");
    assert_eq!(p.extract_query_param("x==y", "x"), "=y");
    assert_eq!(p.extract_query_param("", ""), "");
    assert_eq!(p.extract_query_param("=v", ""), "v");
    assert_eq!(p.evaluate_simple_expression("5 + 3", &c), "8");
    assert_eq!(p.evaluate_simple_expression(" 12 + -3 ", &c), "9");
    assert_eq!(p.evaluate_simple_expression("1 + x", &c), "1x");
    assert_eq!(p.evaluate_simple_expression("007 + 0", &c), "7");
    assert_eq!(p.evaluate_simple_expression("+5", &c), "5");
    assert_eq!(p.evaluate_simple_expression("1 + 2 + 3", &c), "1 + 2 + 3");
    assert_eq!(p.evaluate_simple_expression("-4 + 10", &c), "6");
    assert_eq!(p.evaluate_simple_expression(" 007 ", &c), "7");
    assert_eq!(p.evaluate_simple_expression("abc", &c), "abc");
    assert_eq!(p.evaluate_simple_expression(" abc ", &c), " abc ");
    assert_eq!(p.evaluate_simple_expression("-2147483648 + 0", &c), "-2147483648");
    assert_eq!(p.evaluate_simple_expression("99999999999 + 1", &c), "999999999991");
    assert_eq!(p.evaluate_simple_expression("\"a b\" + request.method", &c), "a bGET");
}

#[test]
fn include_expansion() {
    let mut x = IncludeExpansion::new("A<%@include file=\"header.html\" %>B<%@include  file=\"f.html\"%>C");
    assert_eq!(x.rounds_done(), 0);
    let names = x.pending_includes().unwrap();
    assert_eq!(names, vec!["header.html".to_string(), "f.html".to_string()]);
    x.resolve(vec!["<h>".to_string(), "<f>".to_string()]);
    assert_eq!(x.content(), "A<h>B<f>C");
    assert_eq!(x.rounds_done(), 1);
    assert_eq!(x.pending_includes(), None);
}

#[test]
fn include_expansion_is_bounded() {
    let directive = "<%@include file=\"self.html\" %>";
    let mut x = IncludeExpansion::new(directive);
    let mut rounds = 0;
    while let Some(names) = x.pending_includes() {
        assert_eq!(names.len(), 1);
        x.resolve(vec![format!("[{}]", directive)]);
        rounds += 1;
    }
    assert_eq!(rounds, MAX_INCLUDE_ROUNDS);
    assert_eq!(x.rounds_done(), MAX_INCLUDE_ROUNDS);
    let expected = format!("{}{}{}", "[".repeat(10), directive, "]".repeat(10));
    assert_eq!(x.content(), expected);
}

#[test]
fn unexpanded_include_is_a_code_tag() {
    let mut p = TemplateProcessor::new("r".to_string());
    assert_eq!(render(&mut p, "a<%@include file=\"x.html\" %>b", ""), "ab");
    assert_eq!(p.variable("@include file"), Some("x.html".to_string()));
}

#[test]
fn include_non_directives() {
    let x = IncludeExpansion::new("<%@include file=\"\" %> <%@includefile=\"a\"%> <%@include file=\"a\" x%>");
    assert_eq!(x.pending_includes(), None);
}

#[test]
fn include_replacements() {
    assert_eq!(include_replacement(Ok("body".to_string())), "body");
    assert_eq!(
        include_replacement(Err("No such file or directory (os error 2)".to_string())),
        "<!-- Include error: No such file or directory (os error 2) -->"
    );
}

#[test]
fn server_settings() {
    assert_eq!(template_file_for_path(""), "index.html");
    assert_eq!(template_file_for_path("about"), "about.html");
    assert_eq!(template_file_for_path("a/b"), "a/b.html");
    assert!(is_template_extension(Some("html")));
    assert!(!is_template_extension(Some("htm")));
    assert!(!is_template_extension(None));
    assert_eq!(parse_port("8080"), 8080);
    assert_eq!(parse_port("+80"), 80);
    assert_eq!(parse_port("abc"), DEFAULT_PORT);
    assert_eq!(parse_port("70000"), 8000);
    assert_eq!(parse_port("-1"), 8000);
    assert_eq!(parse_port(""), 8000);
    assert_eq!(parse_port(" 80"), 8000);
    assert_eq!(RouteConfig::default().routes.len(), 0);
}

#[test]
fn watcher_reports() {
    let w = FileWatcher::new(PathBuf::from("./root_http"));
    assert_eq!(w.root_path(), &PathBuf::from("./root_http"));
    assert_eq!(
        describe_watch_event(WatchEventKind::Modify, Some("\"a.html\"")),
        Some("📝 File modified: \"a.html\"".to_string())
    );
    assert_eq!(
        describe_watch_event(WatchEventKind::Create, Some("\"b\"")),
        Some("📄 File created: \"b\"".to_string())
    );
    assert_eq!(describe_watch_event(WatchEventKind::Other, Some("x")), None);
    assert_eq!(describe_watch_event(WatchEventKind::Modify, None), None);
    assert_eq!(describe_watch_error("RecvError"), "⚠️ Watch error: RecvError");
}

#[test]
fn plain_text_is_unchanged() {
    let mut p = TemplateProcessor::new("r".to_string());
    let page = "<html>\n  <body>100% plain, 5 + 3, a=b</body>\n</html>";
    assert_eq!(render(&mut p, page, "x=1"), page);
    assert_eq!(p.variable("a"), None);
}

#[test]
fn dynamic_form() {
    let page = "<% if request.method == \"POST\" %>\n    <div class=\"success\">\n        <p>Thank you, <%= form.name %>!</p>\n        <p>We received your message: <%= form.message %></p>\n    </div>\n<% else %>\n    <form method=\"POST\"></form>\n<% end %>";
    let mut p = TemplateProcessor::new("r".to_string());
    let get = ctx("");
    assert_eq!(render_with(&mut p, page, &get), "\n    <form method=\"POST\"></form>\n");
    let mut post = ctx("");
    post.method = "POST".to_string();
    post.form_data = "name=John&message=Hi".to_string();
    assert_eq!(
        render_with(&mut p, page, &post),
        "\n    <div class=\"success\">\n        <p>Thank you, John!</p>\n        <p>We received your message: Hi</p>\n    </div>\n"
    );
    assert_eq!(p.variable("if request.method"), None);
}

#[test]
fn conditional_blocks() {
    let mut p = TemplateProcessor::new("r".to_string());
    assert_eq!(render(&mut p, "<% if request.method == \"GET\" %>A<% else %>B<% end %>", ""), "A");
    assert_eq!(render(&mut p, "<% if request.method != \"GET\" %>A<% else %>B<% end %>", ""), "B");
    assert_eq!(render(&mut p, "<% if query.x %>x<% end %>|<% if query.y %>y<% end %>", "x=1"), "x|");
    assert_eq!(render(&mut p, "<% if %>A<% else %>B<% end %>", ""), "B");
    // nested blocks, and an assignment in a branch not taken does not run
    let nested = "<% if \"a\" %>1<% if \"\" %>2<% k = 1 %><% else %>3<% end %>4<% else %>5<% end %>6";
    assert_eq!(render(&mut p, nested, ""), "1346");
    assert_eq!(p.variable("k"), None);
    // `else` and `end` outside any block print nothing and change nothing
    assert_eq!(render(&mut p, "a<% else %>b<% end %>c", ""), "abc");
    // an unclosed block runs to the end of the template
    assert_eq!(render(&mut p, "<% if x == y %>hidden", ""), "");
    // variables set earlier in the template are seen by conditions
    assert_eq!(render(&mut p, "<% v = \"on\" %><% if v == \"on\" %>yes<% end %>", ""), "yes");
    // `ifx` is an assignment-free code tag, not a block
    assert_eq!(render(&mut p, "<% ifx %>z", ""), "z");
}

#[test]
fn form_fields() {
    let mut p = TemplateProcessor::new("r".to_string());
    let mut c = ctx("name=query");
    c.form_data = "name=form&other=2".to_string();
    assert_eq!(render_with(&mut p, "<%= query.name %>/<%= form.name %>/<%= form.none %>", &c), "query/form/");
}

#[test]
fn configured_routes() {
    let entry = |path: &str, file: &str, methods: &[&str]| RouteEntry {
        path: path.to_string(),
        file: file.to_string(),
        methods: methods.iter().map(|m| m.to_string()).collect(),
    };
    let config = RouteConfig {
        routes: vec![
            entry("/", "index.html", &["GET"]),
            entry("/about", "about.html", &["GET", "POST"]),
            entry("/about", "about_put.html", &["PUT"]),
            entry("/api/users", "users.html", &[]),
        ],
    };
    assert_eq!(config.find_route("/", "GET"), Some(0));
    assert_eq!(config.find_route("/", "POST"), None);
    assert_eq!(config.find_route("/about", "POST"), Some(1));
    assert_eq!(config.find_route("/about", "PUT"), Some(2));
    assert_eq!(config.find_route("/api/users", "GET"), None);
    assert_eq!(config.find_route("/missing", "GET"), None);
}
