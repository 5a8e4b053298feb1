use syne::template::{
    loop_variable_expression, Template, TemplateContext, TemplateEngine, TemplateError,
};
use syne::text_map::TextMap;

fn variables(pairs: &[(&str, &str)]) -> TextMap<String> {
    let mut map = TextMap::new();
    for (key, value) in pairs {
        map.set(key, value);
    }
    map
}

fn items(all: &[&str]) -> Vec<String> {
    all.iter().map(|item| item.to_string()).collect()
}

#[test]
fn a_variable_token_takes_the_value_of_its_variable() {
    let template = Template::from_string("Hello {{name}}!");
    assert_eq!(template.render(&variables(&[("name", "World")])), "Hello World!");
    assert_eq!(template.render(&variables(&[])), "Hello {{name}}!");
    assert_eq!(template.render(&variables(&[("other", "x")])), "Hello {{name}}!");
}

#[test]
fn a_loop_block_repeats_its_body_for_each_item() {
    let template = Template::from_string("{% for u in users %}[{{u}}]{% endfor %}");
    let mut context = TemplateContext::new();
    context.set_list("users", items(&["a", "b"]));
    assert_eq!(template.render_with_loops(&context), "[a][b]");
}

#[test]
fn white_space_inside_a_token_is_allowed() {
    let template = Template::from_string("{{ a }}|{{a }}|{{ a}}|{{\ta\n}}|{{  a  }}");
    assert_eq!(template.render(&variables(&[("a", "1")])), "1|1|1|1|1");
    let template = Template::from_string("{{ missing }} stays");
    assert_eq!(template.render(&variables(&[("a", "1")])), "{{ missing }} stays");
}

#[test]
fn what_is_no_token_stays_as_it_is() {
    let vars = variables(&[("a", "1"), ("b", "2")]);
    assert_eq!(Template::from_string("").render(&vars), "");
    assert_eq!(Template::from_string("no tokens").render(&vars), "no tokens");
    let untouched = "{a} {{}} {{ }} {{a b}} {{a-b}}";
    assert_eq!(Template::from_string(untouched).render(&vars), untouched);
    assert_eq!(Template::from_string("{{a}} }} {{ {{b}}").render(&vars), "1 }} {{ 2");
    assert_eq!(Template::from_string("{{{a}}}").render(&vars), "{1}");
    assert_eq!(Template::from_string("{{a}}{{b}}{{a}}").render(&vars), "121");
}

#[test]
fn values_are_not_rendered_again() {
    let vars = variables(&[("a", "{{b}}"), ("b", "x")]);
    assert_eq!(Template::from_string("{{a}}-{{b}}").render(&vars), "{{b}}-x");
}

#[test]
fn tokens_are_found_after_characters_of_several_bytes() {
    let vars = variables(&[("name", "wörld"), ("ñ", "n")]);
    assert_eq!(
        Template::from_string("héllo €{{name}}€ 𝄞 {{ ñ }}!").render(&vars),
        "héllo €wörld€ 𝄞 n!"
    );
}

#[test]
fn render_leaves_loop_blocks_alone() {
    let template = Template::from_string("{% for u in users %}{{u}}{% endfor %}");
    assert_eq!(
        template.render(&variables(&[("u", "x")])),
        "{% for u in users %}x{% endfor %}"
    );
}

#[test]
fn a_loop_over_an_unknown_list_gives_nothing() {
    let template = Template::from_string("a{% for u in users %}[{{u}}]{% endfor %}b");
    let context = TemplateContext::new();
    assert_eq!(template.render_with_loops(&context), "ab");
    let mut context = TemplateContext::new();
    context.set_list("users", items(&[]));
    assert_eq!(template.render_with_loops(&context), "ab");
}

#[test]
fn loops_run_before_variables() {
    let template = Template::from_string(
        "<h1>{{title}}</h1>{% for u in users %}<li>{{ u }} of {{title}}</li>{% endfor %}{{u}}",
    );
    let mut context = TemplateContext::new();
    context.set("title", "T");
    context.set("u", "outer");
    context.set_list("users", items(&["a", "b"]));
    assert_eq!(
        template.render_with_loops(&context),
        "<h1>T</h1><li>a of T</li><li>b of T</li>outer"
    );
}

#[test]
fn the_loop_variable_is_replaced_as_text() {
    let template = Template::from_string("{% for x in xs %}({{x}}){% endfor %}");
    let mut context = TemplateContext::new();
    context.set("name", "N");
    context.set_list("xs", items(&["$0", "${x}", "{{name}}", "a\\b"]));
    assert_eq!(template.render_with_loops(&context), "($0)(${x})(N)(a\\b)");
}

#[test]
fn several_blocks_are_expanded_from_left_to_right() {
    let template = Template::from_string(
        "{%for a in xs%}{{a}},{%endfor%} and {%  for b   in  ys  %}\n{{b}};{%  endfor  %}.",
    );
    let mut context = TemplateContext::new();
    context.set_list("xs", items(&["1", "2"]));
    context.set_list("ys", items(&["é", "𝄞"]));
    assert_eq!(template.render_with_loops(&context), "1,2, and \né;\n𝄞;.");
}

#[test]
fn a_body_may_span_lines_and_ends_at_the_first_closing_tag() {
    let template =
        Template::from_string("{% for i in xs %}\n- {{i}}\n{% endfor %}tail{% endfor %}");
    let mut context = TemplateContext::new();
    context.set_list("xs", items(&["a", "b"]));
    assert_eq!(template.render_with_loops(&context), "\n- a\n\n- b\ntail{% endfor %}");
}

#[test]
fn what_an_expansion_puts_out_is_not_expanded_again() {
    let template = Template::from_string("{% for x in xs %}{{x}}{% endfor %}");
    let mut context = TemplateContext::new();
    context.set_list("xs", items(&["{% for x in xs %}{{x}}{% endfor %}"]));
    assert_eq!(template.render_with_loops(&context), "{% for x in xs %}{{x}}{% endfor %}");
    let nested = Template::from_string(
        "{% for a in xs %}{% for b in ys %}{{a}}{{b}}{% endfor %}!{% endfor %}",
    );
    let mut context = TemplateContext::new();
    context.set_list("xs", items(&["1", "2"]));
    context.set_list("ys", items(&["x"]));
    assert_eq!(
        nested.render_with_loops(&context),
        "{% for b in ys %}1{{b}}{% for b in ys %}2{{b}}!{% endfor %}"
    );
}

#[test]
fn one_copy_of_a_body_replaces_each_token_of_the_loop_variable() {
    assert_eq!(Template::replace_loop_variable("<{{x}}|{{ x }}|{{y}}>", "x", "v"), "<v|v|{{y}}>");
    assert_eq!(Template::replace_loop_variable("none", "x", "v"), "none");
    assert_eq!(Template::replace_loop_variable("{{x}}", "x", ""), "");
    assert_eq!(Template::replace_loop_variable("{{xx}} {{x}}", "x", "v"), "{{xx}} v");
}

#[test]
fn the_loop_variable_expression_takes_the_name_literally() {
    assert_eq!(loop_variable_expression("user"), r"\{\{\s*user\s*\}\}");
    assert_eq!(loop_variable_expression("a.b"), r"\{\{\s*a\.b\s*\}\}");
    assert_eq!(loop_variable_expression("x+y*(z)"), r"\{\{\s*x\+y\*\(z\)\s*\}\}");
    assert_eq!(Template::replace_loop_variable("{{a.b}} {{aXb}}", "a.b", "v"), "v {{aXb}}");
}

#[test]
fn a_context_holds_variables_and_lists() {
    let mut context = TemplateContext::new();
    assert_eq!(context.variables.len(), 0);
    assert_eq!(context.lists.len(), 0);
    context.set("k", "v");
    context.set("k", "w");
    context.set_list("l", items(&["a"]));
    context.set_list("l", items(&["b", "c"]));
    assert_eq!(context.variables.get("k").cloned(), Some("w".to_string()));
    assert_eq!(context.lists.get("l").cloned(), Some(items(&["b", "c"])));
}

#[test]
fn the_engine_renders_supplied_content_and_caches_it() {
    let mut engine = TemplateEngine::new("templates");
    assert_eq!(engine.template_path("home"), "templates/home.html");
    assert!(!engine.is_cached("home"));
    let mut context = TemplateContext::new();
    context.set("title", "Home");
    context.set_list("xs", items(&["1", "2"]));
    let content = "<{{title}}>{% for x in xs %}{{x}}{% endfor %}".to_string();
    let out = engine.render("home", Some(content), &context);
    assert_eq!(out.ok(), Some("<Home>12".to_string()));
    assert!(engine.is_cached("home"));
    let out = engine.render("home", None, &context);
    assert_eq!(out.ok(), Some("<Home>12".to_string()));
    let out = engine.render("home", Some("changed".to_string()), &context);
    assert_eq!(out.ok(), Some("<Home>12".to_string()));
}

#[test]
fn a_template_that_is_neither_cached_nor_supplied_is_not_found() {
    let mut engine = TemplateEngine::new("templates");
    let context = TemplateContext::new();
    assert!(matches!(engine.render("none", None, &context), Err(TemplateError::NotFound)));
    assert!(matches!(
        engine.render_simple("none", None, &variables(&[])),
        Err(TemplateError::NotFound)
    ));
    assert!(!engine.is_cached("none"));
}

#[test]
fn render_simple_replaces_variables_only() {
    let mut engine = TemplateEngine::new("t");
    let content = "{{content}}{% for x in xs %}{{x}}{% endfor %}".to_string();
    let out = engine.render_simple("base", Some(content), &variables(&[("content", "C")]));
    assert_eq!(out.ok(), Some("C{% for x in xs %}{{x}}{% endfor %}".to_string()));
}

#[test]
fn clearing_the_cache_forgets_every_template() {
    let mut engine = TemplateEngine::new("t");
    let vars = variables(&[]);
    assert!(engine.render_simple("a", Some("A".to_string()), &vars).is_ok());
    assert!(engine.render_simple("b", Some("B".to_string()), &vars).is_ok());
    assert!(engine.is_cached("a"));
    engine.clear_cache();
    assert!(!engine.is_cached("a"));
    assert!(!engine.is_cached("b"));
    assert!(engine.render_simple("a", None, &vars).is_err());
    let again = engine.render_simple("a", Some("A2".to_string()), &vars);
    assert_eq!(again.ok(), Some("A2".to_string()));
}

#[test]
fn loading_prefers_the_cache() {
    let mut engine = TemplateEngine::new("dir/");
    assert_eq!(engine.template_path("x"), "dir//x.html");
    let first = engine.load_template_content("x", Some("one".to_string()));
    assert_eq!(first.ok(), Some("one".to_string()));
    let second = engine.load_template_content("x", Some("two".to_string()));
    assert_eq!(second.ok(), Some("one".to_string()));
    assert_eq!(engine.load_template_content("x", None).ok(), Some("one".to_string()));
    assert!(engine.load_template_content("y", None).is_err());
}

#[test]
fn the_default_context_is_empty() {
    let context = TemplateContext::default();
    assert_eq!(context.variables.len(), 0);
    assert_eq!(context.lists.len(), 0);
    let template = Template::from_string("{{a}}{% for x in xs %}{{x}}{% endfor %}");
    assert_eq!(template.render_with_loops(&context), "{{a}}");
}

#[test]
fn a_loop_variable_too_long_for_an_expression_leaves_the_body_as_it_is() {
    let short = "x".repeat(100);
    let body = format!("<{{{{{}}}}}>", short);
    assert_eq!(Template::replace_loop_variable(&body, &short, "v"), "<v>");
    let long = "x".repeat(3_000_000);
    let body = format!("<{{{{{}}}}}>", long);
    assert_eq!(Template::replace_loop_variable(&body, &long, "v"), body);
}
