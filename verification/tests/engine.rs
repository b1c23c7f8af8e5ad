use tera::errors::Error;
use tera::escape::escape_html;
use tera::registry::Registry;
use tera::render::render_str;
use tera::template::Template;
use tera::value::Context;
use tera::value::Value;

fn has_key(v: &Vec<(String, tera::nodes::Node)>, k: &str) -> bool {
    v.iter().any(|p| p.0 == k)
}

#[test]
fn test_can_parse_ok_template() {
    Template::new("hello", None, "Hello {{ world }}.").unwrap();
}

#[test]
fn test_can_find_parent_template() {
    let tpl = Template::new("hello", None, "{% extends \"base.html\" %}").unwrap();

    assert_eq!(tpl.parent.unwrap(), "base.html".to_string());
}

#[test]
fn test_can_find_blocks() {
    let tpl = Template::new(
        "hello",
        None,
        "{% extends \"base.html\" %}{% block hey %}{% endblock hey %}",
    )
    .unwrap();

    assert_eq!(tpl.parent.unwrap(), "base.html".to_string());
    assert_eq!(has_key(&tpl.blocks, "hey"), true);
}

#[test]
fn test_can_find_nested_blocks() {
    let tpl = Template::new(
        "hello",
        None,
        "{% extends \"base.html\" %}{% block hey %}{% block extrahey %}{% endblock extrahey %}{% endblock hey %}",
    )
    .unwrap();

    assert_eq!(tpl.parent.unwrap(), "base.html".to_string());
    assert_eq!(has_key(&tpl.blocks, "hey"), true);
    assert_eq!(has_key(&tpl.blocks, "extrahey"), true);
}

#[test]
fn test_can_find_macros() {
    let tpl = Template::new("hello", None, "{% macro hey() %}{% endmacro hey %}").unwrap();
    assert_eq!(has_key(&tpl.macros, "hey"), true);
}

#[test]
fn test_can_find_imported_macros() {
    let tpl = Template::new("hello", None, "{% import \"macros.html\" as macros %}").unwrap();
    assert_eq!(
        tpl.imported_macro_files,
        vec![("macros.html".to_string(), "macros".to_string())]
    );
}

fn registry_of(items: &[(&str, &str)]) -> Registry {
    let mut reg = Registry::new();
    let owned: Vec<(String, String)> = items
        .iter()
        .map(|(n, s)| (n.to_string(), s.to_string()))
        .collect();
    reg.register_many(&owned).unwrap();
    reg
}

#[test]
fn no_extends_renders_own_ast_only() {
    let mut reg = registry_of(&[
        ("a", "{% block x %}A{% endblock x %}"),
        ("b", "{% block y %}B{% endblock y %}"),
    ]);
    reg.resolve().unwrap();
    let out = reg.render("a", &Context::new()).unwrap();
    assert_eq!(out, "A");
    let t = reg.get("a").unwrap();
    assert!(t.parents.is_empty());
    assert_eq!(t.blocks_definitions.len(), 1);
    assert_eq!(t.blocks_definitions[0].0, "x");
    assert_eq!(t.blocks_definitions[0].1.len(), 1);
    assert_eq!(t.blocks_definitions[0].1[0].0, "a");
}

#[test]
fn two_level_chain_super_renders_parent_then_child() {
    let mut reg = registry_of(&[
        ("parent", "{% block title %}Hello{% endblock title %}"),
        (
            "child",
            "{% extends \"parent\" %}{% block title %}{{ super() }} World{% endblock title %}",
        ),
    ]);
    reg.resolve().unwrap();
    let out = reg.render("child", &Context::new()).unwrap();
    assert_eq!(out, "Hello World");
}

#[test]
fn duplicate_block_any_depth_fails_registration() {
    let err = Template::new("t", None, "{% block a %}{% block a %}{% endblock a %}{% endblock a %}")
        .unwrap_err();
    assert!(matches!(err, Error::DuplicateBlock { .. }));

    let err2 =
        Template::new("t", None, "{% block a %}{% endblock a %}{% block a %}{% endblock a %}")
            .unwrap_err();
    assert!(matches!(err2, Error::DuplicateBlock { .. }));

    let err3 = Template::new(
        "t",
        None,
        "{% if true %}{% block a %}{% endblock a %}{% endif %}{% block a %}{% endblock a %}",
    )
    .unwrap_err();
    assert!(matches!(err3, Error::DuplicateBlock { .. }));
}

#[test]
fn circular_inheritance_fails_and_terminates() {
    let mut reg = registry_of(&[
        ("A", "{% extends \"B\" %}"),
        ("B", "{% extends \"A\" %}"),
    ]);
    let err = reg.resolve().unwrap_err();
    assert!(matches!(err, Error::CircularInheritance { .. }));
    assert!(!reg.resolved);
}

#[test]
fn macro_missing_required_parameter_fails() {
    let mut reg = registry_of(&[
        ("macros.html", "{% macro render(y) %}y={{ y }}{% endmacro render %}"),
        (
            "caller",
            "{% import \"macros.html\" as macros %}{{ macros::render(x=1) }}",
        ),
    ]);
    reg.resolve().unwrap();
    let err = reg.render("caller", &Context::new()).unwrap_err();
    assert!(matches!(err, Error::MacroArgumentError { .. }));
}

#[test]
fn macro_with_parameter_bound_renders_body() {
    let mut reg = registry_of(&[
        ("macros.html", "{% macro render(y) %}y={{ y }}{% endmacro render %}"),
        (
            "caller",
            "{% import \"macros.html\" as macros %}{{ macros::render(y=1) }}",
        ),
    ]);
    reg.resolve().unwrap();
    let out = reg.render("caller", &Context::new()).unwrap();
    assert_eq!(out, "y=1");
}

#[test]
fn macro_default_parameter_fills_in() {
    let mut reg = registry_of(&[
        ("m", "{% macro greet(who=\"all\") %}hi {{ who }}{% endmacro greet %}"),
        ("c", "{% import \"m\" as ms %}{{ ms::greet() }}-{{ ms::greet(who=\"you\") }}"),
    ]);
    reg.resolve().unwrap();
    assert_eq!(reg.render("c", &Context::new()).unwrap(), "hi all-hi you");
}

#[test]
fn escape_html_escapes_script_tags() {
    assert_eq!(
        escape_html("<script></script>"),
        "&lt;script&gt;&lt;/script&gt;".to_string()
    );
}

#[test]
fn escape_html_is_not_idempotent_on_ampersands() {
    let once = escape_html("&");
    let twice = escape_html(&once);
    assert_eq!(once, "&amp;".to_string());
    assert_eq!(twice, "&amp;amp;".to_string());
    assert_ne!(once, twice);
}

#[test]
fn escape_html_all_five_specials() {
    assert_eq!(escape_html("&<>\"'"), "&amp;&lt;&gt;&quot;&apos;".to_string());
    assert_eq!(escape_html("plain text"), "plain text".to_string());
    assert_eq!(escape_html(""), "".to_string());
}

#[test]
fn same_registry_two_contexts_outputs_depend_only_on_context() {
    let mut reg = registry_of(&[("t", "Hello {{ name }}!")]);
    reg.resolve().unwrap();
    let mut c1 = Context::new();
    c1.insert("name", Value::Str("Ann".to_string()));
    let mut c2 = Context::new();
    c2.insert("name", Value::Str("Ben".to_string()));
    let o1a = reg.render("t", &c1).unwrap();
    let o2a = reg.render("t", &c2).unwrap();
    let o1b = reg.render("t", &c1).unwrap();
    let o2b = reg.render("t", &c2).unwrap();
    assert_eq!(o1a, "Hello Ann!");
    assert_eq!(o2a, "Hello Ben!");
    assert_eq!(o1a, o1b);
    assert_eq!(o2a, o2b);
}

#[test]
fn text_only_template_ignores_context() {
    let mut reg = registry_of(&[("t", "just text")]);
    reg.resolve().unwrap();
    let mut c1 = Context::new();
    c1.insert("x", Value::Int(1));
    let c2 = Context::new_strict();
    assert_eq!(reg.render("t", &c1).unwrap(), "just text");
    assert_eq!(reg.render("t", &c2).unwrap(), "just text");
}

#[test]
fn arithmetic_with_precedence() {
    assert_eq!(render_str("{{ 1 + 2 * 3 }}", &Context::new()).unwrap(), "7");
    assert_eq!(render_str("{{ 10 - 4 / 2 }}", &Context::new()).unwrap(), "8");
    assert_eq!(render_str("{{ (1 + 2) * 3 }}", &Context::new()).unwrap(), "9");
    assert_eq!(render_str("{{ 0 - 5 }}", &Context::new()).unwrap(), "-5");
    assert_eq!(render_str("{{ 42 }}", &Context::new()).unwrap(), "42");
    assert_eq!(render_str("{{ 0 }}", &Context::new()).unwrap(), "0");
}

#[test]
fn comparisons_and_boolean_connectives() {
    assert_eq!(render_str("{{ 1 < 2 }}", &Context::new()).unwrap(), "true");
    assert_eq!(render_str("{{ 2 <= 1 }}", &Context::new()).unwrap(), "false");
    assert_eq!(render_str("{{ 1 == 1 and 2 == 2 }}", &Context::new()).unwrap(), "true");
    assert_eq!(render_str("{{ 1 == 2 or 2 == 2 }}", &Context::new()).unwrap(), "true");
}

#[test]
fn boolean_operators_short_circuit() {
    // the right operand would fail with TypeMismatch if it were evaluated
    assert_eq!(
        render_str("{{ false and 1 / 0 == 0 }}", &Context::new()).unwrap(),
        "false"
    );
    assert_eq!(
        render_str("{{ true or 1 / 0 == 0 }}", &Context::new()).unwrap(),
        "true"
    );
}

#[test]
fn type_mismatch_on_mixed_arithmetic() {
    let err = render_str("{{ 1 + \"a\" }}", &Context::new()).unwrap_err();
    assert!(matches!(err, Error::TypeMismatch));
    let err2 = render_str("{{ 1 / 0 }}", &Context::new()).unwrap_err();
    assert!(matches!(err2, Error::TypeMismatch));
}

#[test]
fn if_elif_else_branches() {
    let src = "{% if x == 1 %}one{% elif x == 2 %}two{% else %}many{% endif %}";
    let mut c = Context::new();
    c.insert("x", Value::Int(1));
    assert_eq!(render_str(src, &c).unwrap(), "one");
    let mut c2 = Context::new();
    c2.insert("x", Value::Int(2));
    assert_eq!(render_str(src, &c2).unwrap(), "two");
    let mut c3 = Context::new();
    c3.insert("x", Value::Int(5));
    assert_eq!(render_str(src, &c3).unwrap(), "many");
}

#[test]
fn for_loop_binds_each_item() {
    let mut c = Context::new();
    c.insert(
        "items",
        Value::List(vec![Value::Int(1), Value::Int(2), Value::Int(3)]),
    );
    assert_eq!(
        render_str("{% for it in items %}[{{ it }}]{% endfor %}", &c).unwrap(),
        "[1][2][3]"
    );
}

#[test]
fn for_over_absent_iterable_renders_nothing_leniently() {
    let c = Context::new();
    assert_eq!(
        render_str("[{% for x in items %}x{% endfor %}]", &c).unwrap(),
        "[]"
    );
    let mut c2 = Context::new();
    c2.insert("items", Value::Int(3));
    assert!(matches!(
        render_str("{% for x in items %}x{% endfor %}", &c2).unwrap_err(),
        Error::TypeMismatch
    ));
}

#[test]
fn variable_paths_through_objects_and_lists() {
    let mut c = Context::new();
    c.insert(
        "user",
        Value::Object(vec![("name".to_string(), Value::Str("Ada".to_string()))]),
    );
    c.insert(
        "items",
        Value::List(vec![Value::Int(10), Value::Int(20)]),
    );
    assert_eq!(render_str("{{ user.name }}", &c).unwrap(), "Ada");
    assert_eq!(render_str("{{ items[1] }}", &c).unwrap(), "20");
    assert_eq!(render_str("{{ user[\"name\"] }}", &c).unwrap(), "Ada");
}

#[test]
fn output_is_escaped_unless_marked_safe() {
    let mut c = Context::new();
    c.insert("v", Value::Str("<b>".to_string()));
    assert_eq!(render_str("{{ v }}", &c).unwrap(), "&lt;b&gt;");
    assert_eq!(render_str("{{ v | safe }}", &c).unwrap(), "<b>");
    let mut raw = Context::new();
    raw.autoescape = false;
    raw.insert("v", Value::Str("<b>".to_string()));
    assert_eq!(render_str("{{ v }}", &raw).unwrap(), "<b>");
}

#[test]
fn filters_length_and_escape() {
    let mut c = Context::new();
    c.insert("s", Value::Str("abcd".to_string()));
    c.insert("l", Value::List(vec![Value::Int(1), Value::Int(2)]));
    assert_eq!(render_str("{{ s | length }}", &c).unwrap(), "4");
    assert_eq!(render_str("{{ l | length }}", &c).unwrap(), "2");
    assert_eq!(render_str("{{ s | escape }}", &c).unwrap(), "abcd");
}

#[test]
fn unknown_filter_fails() {
    let mut c = Context::new();
    c.insert("s", Value::Str("x".to_string()));
    let err = render_str("{{ s | frobnicate }}", &c).unwrap_err();
    assert!(matches!(err, Error::FilterNotFound { .. }));
    let err2 = render_str("{{ 1 | safe }}", &c).unwrap_err();
    assert!(matches!(err2, Error::FilterArgumentError { .. }));
}

#[test]
fn lenient_missing_variable_renders_empty() {
    assert_eq!(render_str("[{{ missing }}]", &Context::new()).unwrap(), "[]");
}

#[test]
fn strict_missing_variable_fails() {
    let err = render_str("{{ missing }}", &Context::new_strict()).unwrap_err();
    assert!(matches!(err, Error::UndefinedVariable { .. }));
}

#[test]
fn syntax_errors_carry_position() {
    assert!(matches!(
        Template::new("t", None, "{% unknowntag %}").unwrap_err(),
        Error::SyntaxError { .. }
    ));
    assert!(matches!(
        Template::new("t", None, "{{ unclosed").unwrap_err(),
        Error::SyntaxError { .. }
    ));
    assert!(matches!(
        Template::new("t", None, "{% block a %}{% endblock b %}").unwrap_err(),
        Error::SyntaxError { .. }
    ));
    assert!(matches!(
        Template::new("t", None, "{# unterminated").unwrap_err(),
        Error::SyntaxError { .. }
    ));
}

#[test]
fn duplicate_macro_and_extends_fail() {
    assert!(matches!(
        Template::new(
            "t",
            None,
            "{% macro a() %}{% endmacro a %}{% macro a() %}{% endmacro a %}"
        )
        .unwrap_err(),
        Error::DuplicateMacro { .. }
    ));
    assert!(matches!(
        Template::new("t", None, "{% extends \"a\" %}{% extends \"b\" %}").unwrap_err(),
        Error::DuplicateExtends
    ));
}

#[test]
fn error_kinds_have_stable_labels() {
    let err = Template::new("t", None, "{% block a %}{% endblock a %}{% block a %}{% endblock a %}")
        .unwrap_err();
    assert_eq!(err.kind(), "DuplicateBlock");
    assert_eq!(Error::TypeMismatch.kind(), "TypeMismatch");
    assert_eq!(Error::RegistryNotResolved.kind(), "RegistryNotResolved");
}

#[test]
fn duplicate_template_name_fails() {
    let mut reg = Registry::new();
    reg.register("t", "a").unwrap();
    let err = reg.register("t", "b").unwrap_err();
    assert!(matches!(err, Error::DuplicateTemplate { .. }));
}

#[test]
fn missing_parent_fails_resolution_and_keeps_state() {
    let mut reg = registry_of(&[("child", "{% extends \"ghost\" %}")]);
    let err = reg.resolve().unwrap_err();
    assert!(matches!(err, Error::MissingParent { .. }));
    assert!(!reg.resolved);
}

#[test]
fn missing_macro_file_fails_resolution() {
    let mut reg = registry_of(&[("c", "{% import \"nowhere\" as ms %}")]);
    let err = reg.resolve().unwrap_err();
    assert!(matches!(err, Error::MissingMacroFile { .. }));
    assert!(!reg.resolved);
}

#[test]
fn render_before_resolve_fails() {
    let reg = registry_of(&[("t", "x")]);
    let err = reg.render("t", &Context::new()).unwrap_err();
    assert!(matches!(err, Error::RegistryNotResolved));
}

#[test]
fn render_unknown_template_fails() {
    let mut reg = registry_of(&[("t", "x")]);
    reg.resolve().unwrap();
    let err = reg.render("ghost", &Context::new()).unwrap_err();
    assert!(matches!(err, Error::TemplateNotFound { .. }));
}

#[test]
fn recursive_macro_hits_recursion_limit() {
    let mut reg = registry_of(&[(
        "m",
        "{% import \"m\" as ms %}{% macro r() %}{{ ms::r() }}{% endmacro r %}{{ ms::r() }}",
    )]);
    reg.resolve().unwrap();
    let err = reg.render("m", &Context::new()).unwrap_err();
    assert!(matches!(err, Error::RecursionLimitExceeded));
}

#[test]
fn three_level_chain_renders_root_skeleton() {
    let mut reg = registry_of(&[
        ("base", "[{% block c %}base{% endblock c %}]"),
        ("mid", "{% extends \"base\" %}{% block c %}mid({{ super() }}){% endblock c %}"),
        ("leaf", "{% extends \"mid\" %}{% block c %}leaf({{ super() }}){% endblock c %}"),
    ]);
    reg.resolve().unwrap();
    assert_eq!(reg.render("leaf", &Context::new()).unwrap(), "[leaf(mid(base))]");
    assert_eq!(reg.render("mid", &Context::new()).unwrap(), "[mid(base)]");
    assert_eq!(reg.render("base", &Context::new()).unwrap(), "[base]");
}

#[test]
fn super_past_root_is_noop() {
    let mut reg = registry_of(&[("solo", "{% block b %}x{{ super() }}y{% endblock b %}")]);
    reg.resolve().unwrap();
    assert_eq!(reg.render("solo", &Context::new()).unwrap(), "xy");
}

#[test]
fn later_namespace_import_overrides_earlier() {
    let mut reg = registry_of(&[
        ("m1", "{% macro who() %}first{% endmacro who %}"),
        ("m2", "{% macro who() %}second{% endmacro who %}"),
        (
            "c",
            "{% import \"m1\" as ms %}{% import \"m2\" as ms %}{{ ms::who() }}",
        ),
    ]);
    reg.resolve().unwrap();
    assert_eq!(reg.render("c", &Context::new()).unwrap(), "second");
}

#[test]
fn comments_are_excluded_from_output() {
    assert_eq!(
        render_str("a{# this never shows #}b", &Context::new()).unwrap(),
        "ab"
    );
}

#[test]
fn empty_template_renders_empty() {
    assert_eq!(render_str("", &Context::new()).unwrap(), "");
}

#[test]
fn render_str_is_a_one_off() {
    let mut c = Context::new();
    c.insert("world", Value::Str("there".to_string()));
    assert_eq!(render_str("Hello {{ world }}.", &c).unwrap(), "Hello there.");
}