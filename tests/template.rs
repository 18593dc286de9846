use sitebuild::template::{ParseErrorKind, Template};

fn render(src: &str, vars: &[(&str, &str)]) -> String {
    let mut output = String::new();
    let template = Template::new(src.to_owned()).unwrap();
    template.apply(&mut output, vars);
    output
}

#[test]
fn basic() {
    assert_eq!(render(r"", &[]), r"");
    assert_eq!(render(r"simple", &[]), r"simple");
    assert_eq!(render(r"foo\\", &[]), r"foo\");
    assert_eq!(render(r"foo\\bar", &[]), r"foo\bar");
    assert_eq!(render(r"\\bar", &[]), r"\bar");
    assert_eq!(
        render(r"\{best programming lang}", &[("best programming lang", "rust")]),
        r"rust"
    );
    assert_eq!(
        render(r":\{best programming lang}:", &[("best programming lang", "rust")]),
        r":rust:"
    );
    assert_eq!(
        render(r"\{1} text here \{2}", &[("1", "one"), ("2", "two")]),
        r"one text here two"
    );
    assert_eq!(
        render(r"(\{variable not present})", &[]),
        r"(\{variable not present})"
    );
}

#[test]
fn template_first_value_wins() {
    assert_eq!(render(r"\{a}", &[("a", "1"), ("a", "2")]), "1");
}

#[test]
fn template_appends_to_output() {
    let mut output = String::from("x");
    Template::new(r"\{v}y".to_owned()).unwrap().apply(&mut output, &[("v", "é")]);
    assert_eq!(output, "xéy");
}

#[test]
fn template_trailing_backslash() {
    let e = Template::new(r"abc\".to_owned()).err().unwrap();
    assert_eq!(e.kind, ParseErrorKind::TrailingBackslash);
    assert_eq!(e.message(), "failed to parse template");
}

#[test]
fn template_no_closing_brace() {
    let e = Template::new(r"a\{name".to_owned()).err().unwrap();
    assert_eq!(e.kind, ParseErrorKind::NoClosingBrace);
}

#[test]
fn template_unexpected_after_backslash() {
    let e = Template::new(r"a\nb".to_owned()).err().unwrap();
    assert_eq!(e.kind, ParseErrorKind::UnexpectedAfterBackslash('n'));
}

#[test]
fn template_brace_before_variable() {
    assert_eq!(render(r"} \{x}", &[("x", "1")]), "} 1");
}
