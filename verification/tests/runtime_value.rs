use ocelot::runtime_value::RuntimeValue;

#[test]
fn string_constructor_builds_a_string_value() {
    let value = RuntimeValue::string("hello");

    assert_eq!(
        value.as_string().map(|string| string.as_str()),
        Some("hello")
    );
    assert!(!value.is_unit());
}

#[test]
fn boolean_constructor_builds_a_boolean_value() {
    let value = RuntimeValue::boolean(true);

    assert_eq!(value.as_boolean(), Some(true));
    assert_eq!(value.as_string(), None);
    assert!(!value.is_unit());
}

#[test]
fn unit_constructor_builds_a_unit_value() {
    let value = RuntimeValue::unit();

    assert!(value.is_unit());
    assert_eq!(value.as_string(), None);
}

#[test]
fn expect_string_returns_the_inner_string() {
    let value = RuntimeValue::string("hello");

    let text = value.expect_string("expected string").unwrap();

    assert_eq!(text, "hello");
}

#[test]
fn expect_string_returns_the_given_error_for_non_strings() {
    let value = RuntimeValue::unit();

    let error = value
        .expect_string("type error: expected string")
        .unwrap_err();

    assert!(
        error
            .to_test_string()
            .contains("type error: expected string")
    );
}

#[test]
fn expect_boolean_returns_the_inner_boolean() {
    let value = RuntimeValue::boolean(true);

    let actual = value.expect_boolean("expected bool").unwrap();

    assert!(actual);
}

#[test]
fn expect_boolean_returns_the_given_error_for_non_booleans() {
    let value = RuntimeValue::string("hello");

    let error = value
        .expect_boolean("type error: expected bool")
        .unwrap_err();

    assert!(error.to_test_string().contains("type error: expected bool"));
}

#[test]
fn render_for_assertion_quotes_strings() {
    let value = RuntimeValue::string("hello");

    assert_eq!(value.render_for_assertion(), "\"hello\"");
}

#[test]
fn render_for_assertion_renders_booleans_as_source_literals() {
    let value = RuntimeValue::boolean(false);

    assert_eq!(value.render_for_assertion(), "false");
}

#[test]
fn render_for_display_renders_booleans_and_strings() {
    assert_eq!(RuntimeValue::boolean(true).render_for_display(), "true");
    assert_eq!(RuntimeValue::string("hello").render_for_display(), "hello");
}

#[test]
fn equals_compares_runtime_values() {
    assert!(RuntimeValue::string("hello").equals(&RuntimeValue::string("hello")));
    assert!(RuntimeValue::boolean(true).equals(&RuntimeValue::boolean(true)));
    assert!(!RuntimeValue::boolean(true).equals(&RuntimeValue::boolean(false)));
    assert!(!RuntimeValue::string("hello").equals(&RuntimeValue::unit()));
}
