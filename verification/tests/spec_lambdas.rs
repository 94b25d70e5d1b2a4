use rustache::{HashBuilder, LambdaFn};

// - name: Interpolation
//   desc: A lambda's return value should be interpolated.
//   template: "Hello, {{lambda}}!"
//   expected: "Hello, world!"
#[test]
fn test_spec_lambdas_interpolation() {
    let mut f = |_: String| "world".to_string();
    let data = HashBuilder::new().insert_lambda("lambda", LambdaFn::new(&mut f));

    let rv = rustache::render_text("Hello, {{lambda}}!", data);

    assert_eq!("Hello, world!".to_string(), String::from_utf8(rv.unwrap().unwrap()).unwrap());
}

// - name: Interpolation - Expansion
//   desc: A lambda's return value should be parsed.
//   template: "Hello, {{lambda}}!"
//   expected: "Hello, world!"
#[test]
fn test_spec_lambdas_interpolation_expansion() {
    let mut f = |_: String| "{{planet}}".to_string();
    let data = HashBuilder::new()
        .insert_string("planet", "world")
        .insert_lambda("lambda", LambdaFn::new(&mut f));

    let rv = rustache::render_text("Hello, {{lambda}}!", data);

    assert_eq!("Hello, world!".to_string(), String::from_utf8(rv.unwrap().unwrap()).unwrap());
}

// - name: Interpolation - Multiple Calls
//   desc: Interpolated lambdas should not be cached.
//   template: '{{lambda}} == {{{lambda}}} == {{lambda}}'
//   expected: '1 == 2 == 3'
#[test]
fn test_spec_lambdas_interpolation_multiple_calls() {
    let mut calls = 0u32;
    let mut f = |_: String| {
        calls += 1;
        calls.to_string()
    };
    let data = HashBuilder::new().insert_lambda("lambda", LambdaFn::new(&mut f));

    let rv = rustache::render_text("{{lambda}} == {{{lambda}}} == {{lambda}}", data);

    assert_eq!("1 == 2 == 3".to_string(), String::from_utf8(rv.unwrap().unwrap()).unwrap());
}

// - name: Escaping
//   desc: Lambda results should be appropriately escaped.
//   template: "<{{lambda}}{{{lambda}}}"
//   expected: "<&gt;>"
#[test]
fn test_spec_lambdas_escaping() {
    let mut f = |_: String| ">".to_string();
    let data = HashBuilder::new().insert_lambda("lambda", LambdaFn::new(&mut f));

    let rv = rustache::render_text("<{{lambda}}{{{lambda}}}", data);

    assert_eq!("<&gt;>".to_string(), String::from_utf8(rv.unwrap().unwrap()).unwrap());
}

// - name: Section
//   desc: Lambdas used for sections should receive the raw section string.
//   template: "<{{#lambda}}{{x}}{{/lambda}}>"
//   expected: "<yes>"
#[test]
fn test_spec_lambdas_section() {
    let mut f = |txt: String| {
        if txt.as_str() == "{{x}}" {
            "yes".to_string()
        } else {
            "no".to_string()
        }
    };
    let data = HashBuilder::new()
        .insert_string("x", "Error!")
        .insert_lambda("lambda", LambdaFn::new(&mut f));

    let rv = rustache::render_text("<{{#lambda}}{{x}}{{/lambda}}>", data);

    assert_eq!("<yes>".to_string(), String::from_utf8(rv.unwrap().unwrap()).unwrap());
}

// - name: Section - Expansion
//   desc: Lambdas used for sections should have their results parsed.
//   template: "<{{#lambda}}-{{/lambda}}>"
//   expected: "<-Earth->"
#[test]
fn test_spec_lambdas_section_expansion() {
    let mut f = |txt: String| {
        let mut result = txt.clone();
        result.push_str("{{planet}}");
        result.push_str(txt.as_str());
        result
    };
    let data = HashBuilder::new()
        .insert_string("planet", "Earth")
        .insert_lambda("lambda", LambdaFn::new(&mut f));

    let rv = rustache::render_text("<{{#lambda}}-{{/lambda}}>", data);

    assert_eq!("<-Earth->".to_string(), String::from_utf8(rv.unwrap().unwrap()).unwrap());
}

// - name: Section - Multiple Calls
//   desc: Lambdas used for sections should not be cached.
//   template: '{{#lambda}}FILE{{/lambda}} != {{#lambda}}LINE{{/lambda}}'
//   expected: '__FILE__ != __LINE__'
#[test]
fn test_spec_lambdas_section_multiple_calls() {
    let mut f = |txt: String| {
        let mut result = "__".to_string();
        result.push_str(txt.as_str());
        result.push_str("__");
        result
    };
    let data = HashBuilder::new().insert_lambda("lambda", LambdaFn::new(&mut f));

    let rv = rustache::render_text("{{#lambda}}FILE{{/lambda}} != {{#lambda}}LINE{{/lambda}}", data);

    assert_eq!("__FILE__ != __LINE__".to_string(), String::from_utf8(rv.unwrap().unwrap()).unwrap());
}

// - name: Inverted Section
//   desc: Lambdas used for inverted sections should be considered truthy.
//   template: "<{{^lambda}}{{static}}{{/lambda}}>"
//   expected: "<>"
#[test]
fn test_spec_lambdas_inverted_section() {
    let mut f = |_: String| "false".to_string();
    let data = HashBuilder::new()
        .insert_string("static", "static")
        .insert_lambda("lambda", LambdaFn::new(&mut f));

    let rv = rustache::render_text("<{{^lambda}}{{static}}{{/lambda}}>", data);

    assert_eq!("<>".to_string(), String::from_utf8(rv.unwrap().unwrap()).unwrap());
}
