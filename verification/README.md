# hommedefer

A web framework with JSP-like templates. The library under `src/` holds the template
language and its rules, verified with Verus; `app/` is the command line program that serves
templates with Rocket, watches files and reads configuration.

Templates know three kinds of tags:

- `<% name = "value" %>` assigns a variable and prints nothing;
- `<% if condition %>` ... `<% else %>` ... `<% end %>` renders the branch the condition
  chooses (`a == b`, `a != b`, or a term whose value is non-empty);
- `<%= expression %>` prints a variable, a `request.` field, a `query.` parameter, a `form.`
  field, or terms joined by `+`: for two integer terms their sum, for three or more integer
  terms the expression as written, otherwise the values side by side (`first + " " + second`);
- `<%@include file="name" %>` is replaced by the named file, for at most ten rounds.

Modules of the library:

- `text`, `number`: characters, trimming, decimal integers;
- `tags`: where each kind of tag starts and ends;
- `context`, `expression`: what an output tag's expression stands for;
- `render`: the code pass and the output pass, as specifications and as code;
- `processor`: `TemplateProcessor`, which keeps the variables between renderings;
- `includes`: `IncludeExpansion`, which puts included files in place (the caller reads them);
- `server`, `watcher`: route configuration and route choice, template file names, ports, file
  change notices;
- `laws`: properties proved of rendering as a whole.
