use hyperlit::error::{HyperlitError, HyperlitResult};
use hyperlit::template::{TemplateExpander, TemplateString};

fn expand_plain(input: &str) -> HyperlitResult<String> {
    let template_expander = TemplateExpander::new(input)?;
    template_expander.expand(|s| Ok(format!("<{}>({})", &s.directive, s.arguments.join(", "))))
}

#[test]
fn template_empty() {
    assert_eq!(expand_plain("").unwrap(), "");
}

#[test]
fn template_plain() {
    assert_eq!(expand_plain("foo").unwrap(), "foo");
}

#[test]
fn template_simple() {
    assert_eq!(expand_plain("${name}").unwrap(), "<name>()");
}

#[test]
fn template_args() {
    assert_eq!(expand_plain("${name:foo,bar}").unwrap(), "<name>(foo, bar)");
}

#[test]
fn template_mixed() {
    assert_eq!(expand_plain("Hello ${name}!").unwrap(), "Hello <name>()!");
}

#[test]
fn test_error() {
    let template_expander = TemplateExpander::new("Hello, ${name}!").unwrap();
    let error = template_expander
        .expand(|_s| Err(Box::new(HyperlitError::message("some error"))))
        .expect_err("expected error");
    assert_eq!(
        error.to_string(),
        "Error substituting 'TemplateStringSubstitution { directive: \"name\", arguments: [\"\"] }'"
    );
    assert_eq!(error.get_cause().unwrap().to_string(), "some error");
}

#[test]
fn template_unterminated_substitution() {
    let error = TemplateString::parse("Hello ${name").expect_err("expected error");
    assert_eq!(error.to_string(), "Unterminated substitution in template: Hello ${name");
}

#[test]
fn failing_substitution_error_has_its_cause_and_no_context() {
    let te = TemplateExpander::new("a ${x} b ${y} c").unwrap();
    let err = te
        .expand(|s| if s.directive == "y" { Err(Box::new(HyperlitError::message("boom"))) } else { Ok("X".to_string()) })
        .unwrap_err();
    assert!(err.to_string().starts_with("Error substituting 'TemplateStringSubstitution { directive: \"y\""));
    assert!(err.get_context().is_empty());
    assert_eq!(err.get_cause().unwrap().to_string(), "boom");
}
