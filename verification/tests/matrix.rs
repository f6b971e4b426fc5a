use multitest::config::{Declaration, Variable};
use multitest::engine::Bindings;
use multitest::error::{Field, RunError};
use multitest::matrix::{compiled, expand, instantiate, rendered, TestTemplate};
use multitest::test::Test;

fn strings(items: &[&str]) -> Vec<String> {
    items.iter().map(|item| item.to_string()).collect()
}

fn pairs(items: &[(&str, &str)]) -> Vec<(String, String)> {
    items.iter().map(|(name, value)| (name.to_string(), value.to_string())).collect()
}

fn declared(name: &str, command: &[&str], env: &[(&str, &str)]) -> Test {
    Test::new(name.to_string(), strings(command), false, pairs(env))
}

fn variable(name: &str, values: &[&str]) -> Variable {
    Variable {
        name: name.to_string(),
        values: values.iter().map(|value| liquid::Value::Str(value.to_string())).collect(),
    }
}

fn names(tests: &[Test]) -> Vec<String> {
    tests.iter().map(|test| test.name.clone()).collect()
}

fn template(text: &str) -> liquid::Template {
    liquid::parse(text, Default::default()).unwrap()
}

fn shows(bindings: &mut Bindings, text: &str) -> String {
    let probe = TestTemplate::try_from_test(&declared("{{name}}", &[text], &[])).unwrap();
    probe.render(bindings).unwrap().command.remove(0)
}

#[test]
fn bindings_replace_what_a_name_stood_for() {
    let mut bindings = Bindings::new();
    assert_eq!(shows(&mut bindings, "{{a}}-{{b}}"), "-");
    bindings.bind("a".to_string(), liquid::Value::Str("1".to_string()));
    bindings.bind("b".to_string(), liquid::Value::Str("2".to_string()));
    assert_eq!(shows(&mut bindings, "{{a}}-{{b}}"), "1-2");
    bindings.bind("a".to_string(), liquid::Value::Str("3".to_string()));
    assert_eq!(shows(&mut bindings, "{{a}}-{{b}}"), "3-2");
    bindings.bind("b".to_string(), liquid::Value::Num(4.0));
    assert_eq!(shows(&mut bindings, "{{a}}-{{b}}"), "3-4");
}

#[test]
fn compiled_keeps_the_template_or_names_the_field() {
    let kept = compiled(Field::Argument(2), Ok(template("[{{a}}]"))).unwrap();
    let mut context = liquid::Context::new();
    context.set_val("a", liquid::Value::Str("x".to_string()));
    assert_eq!(liquid::Renderable::render(&kept, &mut context).unwrap(), Some("[x]".to_string()));
    match compiled(Field::Argument(2), liquid::parse("{% if %}", Default::default())) {
        Err(RunError::Compile { field, message }) => {
            assert_eq!(field, Field::Argument(2));
            assert!(!message.is_empty());
        }
        other => panic!("{:?}", other.map(|_| ())),
    }
    match compiled(Field::EnvName(0), Err(liquid::Error::Other("broken".to_string()))) {
        Err(RunError::Compile { field, message }) => {
            assert_eq!(field, Field::EnvName(0));
            assert_eq!(message, "Error: broken");
        }
        other => panic!("{:?}", other.map(|_| ())),
    }
}

#[test]
fn rendered_defaults_to_empty_or_names_the_field() {
    assert_eq!(rendered(Field::Name, Ok(Some("text".to_string()))), Ok("text".to_string()));
    assert_eq!(rendered(Field::Name, Ok(None)), Ok("".to_string()));
    assert_eq!(
        rendered(Field::EnvValue(3), Err(liquid::Error::Render("no".to_string()))),
        Err(RunError::Render { field: Field::EnvValue(3), message: "Rendering error: no".to_string() })
    );
}

#[test]
fn template_of_a_test_has_its_shape() {
    let test = Test::new(
        "n-{{a}}".to_string(),
        strings(&["echo", "{{a}}", "{{b}}"]),
        true,
        pairs(&[("K{{a}}", "v{{b}}")]),
    );
    let template = TestTemplate::try_from_test(&test).unwrap();
    assert_eq!(template.command.len(), 3);
    assert_eq!(template.env.len(), 1);
    assert!(template.clear_env);
}

#[test]
fn template_errors_name_the_first_broken_field() {
    let field_of = |test: &Test| match TestTemplate::try_from_test(test) {
        Err(RunError::Compile { field, .. }) => field,
        Err(other) => panic!("{:?}", other),
        Ok(_) => panic!("compiled"),
    };
    let bad = "{% if %}";
    assert_eq!(field_of(&declared(bad, &[bad], &[(bad, bad)])), Field::Name);
    assert_eq!(field_of(&declared("n", &["ok", bad, bad], &[(bad, bad)])), Field::Argument(1));
    assert_eq!(field_of(&declared("n", &["ok"], &[("a", "b"), (bad, bad)])), Field::EnvName(1));
    assert_eq!(field_of(&declared("n", &["ok"], &[("a", bad)])), Field::EnvValue(0));
}

#[test]
fn no_variables_give_one_instance() {
    let template =
        TestTemplate::try_from_test(&declared("plain", &["echo", "hi"], &[("A", "1")])).unwrap();
    let tests = expand(&template, &vec![]).unwrap();
    assert_eq!(tests, vec![declared("plain", &["echo", "hi"], &[("A", "1")])]);
}

#[test]
fn unbound_names_render_empty() {
    let template =
        TestTemplate::try_from_test(&declared("t-{{n}}", &["echo", "[{{m}}]"], &[])).unwrap();
    let tests = expand(&template, &vec![]).unwrap();
    assert_eq!(tests, vec![declared("t-", &["echo", "[]"], &[])]);
}

#[test]
fn one_variable_gives_an_instance_for_each_value() {
    let template =
        TestTemplate::try_from_test(&declared("t-{{n}}", &["echo", "{{n}}"], &[])).unwrap();
    let tests = expand(&template, &vec![variable("n", &["x", "y"])]).unwrap();
    assert_eq!(
        tests,
        vec![declared("t-x", &["echo", "x"], &[]), declared("t-y", &["echo", "y"], &[])]
    );
}

#[test]
fn two_variables_give_the_product_first_variable_slowest() {
    let template = TestTemplate::try_from_test(&declared(
        "{{a}}{{b}}",
        &["run", "{{b}}", "{{a}}"],
        &[("A{{a}}", "B{{b}}")],
    ))
    .unwrap();
    let variables = vec![variable("a", &["1", "2"]), variable("b", &["x", "y", "z"])];
    let tests = expand(&template, &variables).unwrap();
    assert_eq!(tests.len(), 6);
    assert_eq!(names(&tests), strings(&["1x", "1y", "1z", "2x", "2y", "2z"]));
    assert_eq!(tests[4].command, strings(&["run", "y", "2"]));
    assert_eq!(tests[4].env, pairs(&[("A2", "By")]));
}

#[test]
fn three_variables_in_depth_first_order() {
    let template = TestTemplate::try_from_test(&declared("{{a}}{{b}}{{c}}", &["x"], &[])).unwrap();
    let variables =
        vec![variable("a", &["1", "2"]), variable("b", &["p"]), variable("c", &["x", "y"])];
    let tests = expand(&template, &variables).unwrap();
    assert_eq!(names(&tests), strings(&["1px", "1py", "2px", "2py"]));
}

#[test]
fn a_variable_without_values_gives_no_instance() {
    let template = TestTemplate::try_from_test(&declared("{{a}}{{b}}", &["x"], &[])).unwrap();
    assert_eq!(expand(&template, &vec![variable("a", &[])]), Ok(vec![]));
    assert_eq!(
        expand(&template, &vec![variable("a", &["1", "2"]), variable("b", &[])]),
        Ok(vec![])
    );
    assert_eq!(
        expand(&template, &vec![variable("a", &[]), variable("b", &["1", "2"])]),
        Ok(vec![])
    );
}

#[test]
fn all_fields_of_an_instance_see_the_same_bindings() {
    let template = TestTemplate::try_from_test(&declared(
        "case-{{n}}",
        &["echo", "{{name}}"],
        &[("TEST", "{{name}}")],
    ))
    .unwrap();
    let tests = expand(&template, &vec![variable("n", &["a", "b"])]).unwrap();
    assert_eq!(
        tests,
        vec![
            declared("case-a", &["echo", ""], &[("TEST", "")]),
            declared("case-b", &["echo", "case-a"], &[("TEST", "case-a")]),
        ]
    );
}

#[test]
fn without_variables_no_reference_resolves() {
    let template = TestTemplate::try_from_test(&declared("t", &["echo", "{{name}}"], &[])).unwrap();
    assert_eq!(expand(&template, &vec![]), Ok(vec![declared("t", &["echo", ""], &[])]));
}

#[test]
fn text_without_markup_is_rendered_as_it_is() {
    let test = Test::new(
        "plain name".to_string(),
        strings(&["sh", "-c", "echo {a} }} {b%}"]),
        true,
        pairs(&[("KEY", "value with { and }")]),
    );
    let declaration = Declaration {
        test: Test::new(test.name.clone(), test.command.clone(), true, test.env.clone()),
        variables: vec![],
    };
    assert_eq!(instantiate(&declaration), Ok(vec![test]));
}

#[test]
fn markup_other_than_references_is_refused() {
    let field_of = |text: &str| match TestTemplate::try_from_test(&declared("n", &["x", text], &[])) {
        Err(RunError::Compile { field, .. }) => Some(field),
        Err(other) => panic!("{:?}", other),
        Ok(_) => None,
    };
    for text in [
        "{{}}",
        "{{ }}",
        "{% %}",
        "{%%}",
        "{% if x %}a{% endif %}",
        "{% cycle a: %}",
        "{{ \"abcdef\" | truncate: 2 }}",
        "{{ n | upcase }}",
        "{{ a.b }}",
        "{{ a b }}",
        "{{- n }}",
        "{{ n",
        "{{{n}}",
        "{{ 1 }}",
        "{{ truex }}",
        "{{ true }}",
        "{{ xfalse }}",
        "{{ cycle }}",
        "{{ assign }}",
        "{{ break }}",
        "{{ continue }}",
        "{{ include }}",
        "{{ n\n}}",
    ] {
        assert_eq!(field_of(text), Some(Field::Argument(1)), "{}", text);
    }
    for text in [
        "",
        "{{n}}",
        "{{ n }}",
        "{{\tn\t}}",
        "a{{n}}b{{ m_2 }}c",
        "{ {n} }",
        "}}",
        "{",
        "100%",
        "{{ cycles }}",
        "{{ included }}",
        "{{ falsey }}",
        "{{ _true }}",
        "{{ or }}x",
    ] {
        if text == "{{ or }}x" {
            assert!(matches!(field_of(text), Some(Field::Argument(1)) | None), "{}", text);
        } else {
            assert_eq!(field_of(text), None, "{}", text);
        }
    }
}

#[test]
fn the_name_of_the_instance_before_stays_bound() {
    let template = TestTemplate::try_from_test(&declared("{{name}}{{n}}", &["x"], &[])).unwrap();
    let tests = expand(&template, &vec![variable("n", &["a", "b", "c"])]).unwrap();
    assert_eq!(names(&tests), strings(&["a", "ab", "abc"]));
}

#[test]
fn render_binds_the_name() {
    let template = TestTemplate::try_from_test(&declared("t-{{n}}", &["x"], &[])).unwrap();
    let mut bindings = Bindings::new();
    bindings.bind("n".to_string(), liquid::Value::Num(7.0));
    let test = template.render(&mut bindings).unwrap();
    assert_eq!(test, declared("t-7", &["x"], &[]));
    assert_eq!(shows(&mut bindings, "{{name}}/{{n}}"), "t-7/7");
}

#[test]
fn clear_env_is_copied() {
    let test = Test::new("t".to_string(), strings(&["x"]), true, vec![]);
    let template = TestTemplate::try_from_test(&test).unwrap();
    let tests = expand(&template, &vec![variable("n", &["a", "b"])]).unwrap();
    assert!(tests.iter().all(|test| test.clear_env));
}

#[test]
fn values_of_every_kind_are_rendered() {
    let template = TestTemplate::try_from_test(&declared("{{v}}", &["x"], &[])).unwrap();
    let values = Variable {
        name: "v".to_string(),
        values: vec![
            liquid::Value::Str("s".to_string()),
            liquid::Value::Num(1.5),
            liquid::Value::Bool(true),
            liquid::Value::Array(vec![liquid::Value::Num(1.0), liquid::Value::Num(2.0)]),
            liquid::Value::Nil,
        ],
    };
    let tests = expand(&template, &vec![values]).unwrap();
    assert_eq!(names(&tests), strings(&["s", "1.5", "true", "1, 2", ""]));
}

#[test]
fn instantiate_compiles_and_expands() {
    let declaration = Declaration {
        test: declared("t-{{n}}", &["echo", "{{n}}"], &[]),
        variables: vec![variable("n", &["x", "y"])],
    };
    assert_eq!(
        instantiate(&declaration),
        Ok(vec![declared("t-x", &["echo", "x"], &[]), declared("t-y", &["echo", "y"], &[])])
    );
    let broken = Declaration { test: declared("t", &["{% if %}"], &[]), variables: vec![] };
    match instantiate(&broken) {
        Err(RunError::Compile { field, .. }) => assert_eq!(field, Field::Argument(0)),
        other => panic!("{:?}", other),
    }
}
