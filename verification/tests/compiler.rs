use rustache::compiler::create_tokens;
use rustache::compiler::Token::{Comment, CTag, OTag, Partial, Raw, Text, Variable};

fn s(v: &str) -> String {
    v.to_string()
}

#[test]
fn test_one_char() {
    let contents = "c";
    let tokens = create_tokens(contents);
    let expected = vec![Text(s("c"))];

    assert_eq!(expected, tokens);
}

#[test]
fn test_extended_dot_notation() {
    let contents = "{{ test.test.test.test }}";
    let tokens = create_tokens(contents);
    let expected = vec![Variable(s("test.test.test.test"), s("{{ test.test.test.test }}"))];

    assert_eq!(expected, tokens);
}

#[test]
fn basic_compiler_test() {
    let contents = "<div> <h1> {{ token }} {{{ unescaped }}} {{> partial }} </h1> </div>";
    let tokens = create_tokens(contents);
    let expected = vec![Text(s("<div> <h1>")),
                        Text(s(" ")),
                        Variable(s("token"), s("{{ token }}")),
                        Text(s(" ")),
                        Raw(s("unescaped"), s("{{{ unescaped }}}")),
                        Text(s(" ")),
                        Partial(s("partial"), s("{{> partial }}")),
                        Text(s(" ")),
                        Text(s("</h1> </div>"))
                        ];

    assert_eq!(expected, tokens);
}

#[test]
fn test_all_directives() {
    let contents = "{{!comment}}{{#section}}{{/section}}{{^isection}}{{/isection}}{{>partial}}{{&unescaped}}{{value}}other crap";
    let tokens = create_tokens(contents);
    let expected = vec![Comment,
                        OTag(s("section"), false, s("{{#section}}")),
                        CTag(s("section"), s("{{/section}}")),
                        OTag(s("isection"), true, s("{{^isection}}")),
                        CTag(s("isection"), s("{{/isection}}")),
                        Partial(s("partial"), s("{{>partial}}")),
                        Raw(s("unescaped"), s("{{&unescaped}}")),
                        Variable(s("value"), s("{{value}}")),
                        Text(s("other crap"))];
    assert_eq!(expected, tokens);
}

#[test]
fn test_missing_close_on_comment() {
    let contents = "{{!comment";
    let tokens = create_tokens(contents);
    let expected = vec![Text(s("{{!comment"))];
    assert_eq!(expected, tokens);
}

#[test]
fn test_working_comment() {
    let contents = "{{!comment}}";
    let tokens = create_tokens(contents);
    let expected = vec![Comment];
    assert_eq!(expected, tokens);
}

#[test]
fn test_embedded_comment() {
    let contents = "text {{!comment}} text";
    let tokens = create_tokens(contents);
    let expected = vec![Text(s("text")),
                        Text(s(" ")),
                        Comment,
                        Text(s(" ")),
                        Text(s("text")),
                        ];
    assert_eq!(expected, tokens);
}

#[test]
fn test_missing_close_on_section_close() {
    let contents = "{{#section}}{{/section";
    let tokens = create_tokens(contents);
    let expected = vec![OTag(s("section"), false, s("{{#section}}")), Text(s("{{/section"))];
    assert_eq!(expected, tokens);
}

#[test]
fn test_working_section() {
    let contents = "{{#section}}{{/section}}";
    let tokens = create_tokens(contents);
    let expected = vec![OTag(s("section"), false, s("{{#section}}")), CTag(s("section"), s("{{/section}}"))];
    assert_eq!(expected, tokens);
}

#[test]
fn test_missing_close_on_inverted_section_close() {
    let contents = "{{^isection}}{{/isection";
    let tokens = create_tokens(contents);
    let expected = vec![OTag(s("isection"), true, s("{{^isection}}")), Text(s("{{/isection"))];
    assert_eq!(expected, tokens);
}

#[test]
fn test_missing_close_on_partial() {
    let contents = "{{>partial";
    let tokens = create_tokens(contents);
    let expected = vec![Text(s("{{>partial"))];
    assert_eq!(expected, tokens);
}

#[test]
fn test_working_partial() {
    let contents = "{{>partial}}";
    let tokens = create_tokens(contents);
    let expected = vec![Partial(s("partial"), s("{{>partial}}"))];
    assert_eq!(expected, tokens);
}

#[test]
fn test_missing_close_on_unescaped() {
    let contents = "{{&unescaped";
    let tokens = create_tokens(contents);
    let expected = vec![Text(s("{{&unescaped"))];
    assert_eq!(expected, tokens);
}

#[test]
fn test_working_unescape() {
    let contents = "{{&unescaped}}";
    let tokens = create_tokens(contents);
    let expected = vec![Raw(s("unescaped"), s("{{&unescaped}}"))];
    assert_eq!(expected, tokens);
}

#[test]
fn test_missing_close_on_partial_plus_unescaped() {
    let contents = "{{>partial}}{{&unescaped";
    let tokens = create_tokens(contents);
    let expected = vec![Partial(s("partial"), s("{{>partial}}")), Text(s("{{&unescaped"))];
    assert_eq!(expected, tokens);
}

#[test]
fn test_missing_close_on_value() {
    let contents = "{{value other crap";
    let tokens = create_tokens(contents);
    let expected = vec![Text(s("{{value other crap"))];
    assert_eq!(expected, tokens);
}

#[test]
fn test_bad_opens() {
    let contents = "value}} other crap";
    let tokens = create_tokens(contents);
    let expected = vec![Text(s("value}} other crap"))];
    assert_eq!(expected, tokens);
}

#[test]
fn test_single_brace_open() {
    let contents = "{value other crap";
    let tokens = create_tokens(contents);
    let expected = vec![Text(s("{value other crap"))];
    assert_eq!(expected, tokens);
}

#[test]
fn test_single_brace_close() {
    let contents = "value} other crap";
    let tokens = create_tokens(contents);
    let expected = vec![Text(s("value} other crap"))];
    assert_eq!(expected, tokens);
}
