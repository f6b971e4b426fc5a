use multitest::markup::is_plain;

#[test]
fn text_without_markup_is_plain() {
    for text in ["", "echo", "a b\tc\n", "{", "}", "}}", "{ {", "{a}", "100%", "%}", "caf\u{e9} {\u{1F600}}"] {
        assert!(is_plain(text), "{:?}", text);
    }
}

#[test]
fn references_to_names_are_plain() {
    for text in [
        "{{n}}",
        "{{ n }}",
        "{{\t_n1\t }}",
        "x{{a}}{{b}}y",
        "{{a}}}}",
        "{{ Name_2 }} and {{ other }}",
        "{{ breakfast }}",
        "{{ falsetto }}",
        "{{ atrue }}",
        "\u{e9}{{n}}\u{e9}",
    ] {
        assert!(is_plain(text), "{:?}", text);
    }
}

#[test]
fn other_markup_is_not_plain() {
    for text in [
        "{{",
        "{{}}",
        "{{ }}",
        "{{ n",
        "{{ n }",
        "{{ n } }",
        "{{ 1n }}",
        "{{ n-m }}",
        "{{ n.m }}",
        "{{ n m }}",
        "{{ n | upcase }}",
        "{{ \u{e9} }}",
        "{{- n }}",
        "{{ n -}}",
        "{{ n\n}}",
        "{{{n}}",
        "{%",
        "{% %}",
        "{% if n %}",
        "a{%b",
        "{{ true }}",
        "{{ trueish }}",
        "{{ false }}",
        "{{ isfalse }}",
        "{{ assign }}",
        "{{ break }}",
        "{{ continue }}",
        "{{ cycle }}",
        "{{ include }}",
        "ok {{ a }} then {{ cycle }}",
    ] {
        assert!(!is_plain(text), "{:?}", text);
    }
}
