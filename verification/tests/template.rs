use rustache::compiler::create_tokens;
use rustache::data::Data::Strng;
use rustache::parser::parse_nodes;
use rustache::parser::Node;
use rustache::parser::Node::{Part, Section, Static, Unescaped, Value};
use rustache::template::{Partial, Template};
use rustache::{HashBuilder, LambdaFn};

fn s(v: &str) -> String {
    v.to_string()
}

#[test]
fn test_look_up_section_data() {
    let hb = HashBuilder::new().insert_hash("a", |h| {
        h.insert_hash("b", |h| {
            h.insert_string("name", "Phil").insert_hash("c", |h| {
                h.insert_hash("d", |h| h.insert_hash("e", |h| h))
            })
        })
    });

    let key = "name".to_string();
    let sections = vec!["a".to_string(), "b".to_string(), "c".to_string(), "d".to_string(), "e".to_string()];
    let data = hb.data;

    let answer = Template::new().look_up_section_data(&key, &sections, &data);

    assert!(answer.is_some());
    match answer {
        Some(d) => match *d {
            Strng(ref s) => {
                assert_eq!("Phil".to_string(), *s)
            },
            _ => {
                assert!(false);
            },
        },
        _ => {
            assert!(false);
        },
    }
}

#[test]
fn test_look_up_section_data_also() {
    let hb = HashBuilder::new()
        .insert_hash("a", |h| h)
        .insert_hash("b", |h| h.insert_string("name", "Phil"))
        .insert_hash("c", |h| h)
        .insert_hash("d", |h| h)
        .insert_hash("e", |h| h);

    let key = "name".to_string();
    let sections = vec!["a".to_string(), "b".to_string(), "c".to_string(), "d".to_string(), "e".to_string()];
    let data = hb.data;

    let answer = Template::new().look_up_section_data(&key, &sections, &data);

    assert!(answer.is_some());
    match answer {
        Some(d) => match *d {
            Strng(ref s) => {
                assert_eq!("Phil".to_string(), *s)
            },
            _ => {
                assert!(false);
            },
        },
        _ => {
            assert!(false);
        },
    }
}

#[test]
fn test_escape_html() {
    let s1 = "a < b > c & d \"spam\"\'";
    let a1 = "a &lt; b &gt; c &amp; d &quot;spam&quot;'";
    let s2 = "1<2 <b>hello</b>";
    let a2 = "1&lt;2 &lt;b&gt;hello&lt;/b&gt;";

    let mut w = String::new();
    let nodes: Vec<Node> = vec![Value(s("value"), s("{{ value }}"))];
    let data = HashBuilder::new().insert_string("value", s1);

    let rv = Template::new().render_data(&mut w, &data, &nodes);
    match rv {
        _ => {},
    }

    assert_eq!(a1, w);

    w = String::new();
    let newdata = HashBuilder::new().insert_string("value", s2);
    let rv = Template::new().render_data(&mut w, &newdata, &nodes);
    match rv {
        _ => {},
    }

    assert_eq!(a2, w);
}

#[test]
fn test_section_tag_iteration() {
    let mut w = String::new();
    let template = "{{#repo}}<b>{{name}}</b>{{/repo}}";
    let tokens = create_tokens(template);
    let nodes = parse_nodes(&tokens);
    let data = HashBuilder::new().insert_vector("repo", |v| {
        v.push_hash(|h| h.insert_string("name", "resque"))
            .push_hash(|h| h.insert_string("name", "hub"))
            .push_hash(|h| h.insert_string("name", "rip"))
    });

    let rv = Template::new().render_data(&mut w, &data, &nodes);
    match rv {
        _ => {},
    }

    assert_eq!("<b>resque</b><b>hub</b><b>rip</b>".to_string(), w)
}

#[test]
fn test_not_escape_html() {
    let st = "1<2 <b>hello</b>";
    let mut w = String::new();
    let nodes: Vec<Node> = vec![Unescaped(s("value"), s("{{ value }}"))];
    let data = HashBuilder::new().insert_string("value", st);

    let rv = Template::new().render_data(&mut w, &data, &nodes);
    match rv {
        _ => {},
    }

    assert_eq!(st, w);
}

#[test]
fn test_render_to_io_stream() {
    let mut w = String::new();
    let data = HashBuilder::new().insert_string("value1", "The heading");
    let nodes: Vec<Node> = vec![Static(s("<h1>")), Value(s("value1"), s("{{ value1 }}")), Static(s("</h1>"))];

    let rv = Template::new().render_data(&mut w, &data, &nodes);
    match rv {
        _ => {},
    }

    assert_eq!("<h1>The heading</h1>".to_string(), w);
}

#[test]
fn test_unescaped_node_correct_bool_false_data() {
    let mut w = String::new();
    let nodes: Vec<Node> = vec![Static(s("<h1>")), Unescaped(s("value1"), s("{{& value1 }}")), Static(s("</h1>"))];
    let data = HashBuilder::new().insert_bool("value1", false);

    let rv = Template::new().render_data(&mut w, &data, &nodes);
    match rv {
        _ => {},
    }

    assert_eq!("<h1>false</h1>".to_string(), w);
}

#[test]
fn test_unescaped_node_correct_bool_true_data() {
    let mut w = String::new();
    let nodes: Vec<Node> = vec![Static(s("<h1>")), Unescaped(s("value1"), s("{{& value1 }}")), Static(s("</h1>"))];
    let data = HashBuilder::new().insert_bool("value1", true);

    let rv = Template::new().render_data(&mut w, &data, &nodes);
    match rv {
        _ => {},
    }

    assert_eq!("<h1>true</h1>".to_string(), w);
}

#[test]
fn test_section_value_string_data() {
    let mut w = String::new();
    let nodes: Vec<Node> = vec![Section(
        s("value1"),
        vec![Value(s("value"), s("{{ value }}"))],
        false,
        s("{{# value1 }}"),
        s("{{/ value1 }}"),
    )];
    let data = HashBuilder::new().insert_hash("value1", |builder| builder.insert_string("value", "<Section Value>"));

    let rv = Template::new().render_data(&mut w, &data, &nodes);
    match rv {
        _ => {},
    }

    assert_eq!("&lt;Section Value&gt;".to_string(), w);
}

#[test]
fn test_section_multiple_value_string_data() {
    let mut w = String::new();
    let nodes: Vec<Node> = vec![Section(
        s("names"),
        vec![Value(s("name"), s("{{ name }}"))],
        false,
        s("{{# names }}"),
        s("{{/ names }}"),
    )];
    let data = HashBuilder::new().insert_hash("names", |builder| {
        builder.insert_vector("name", |builder| builder.push_string("tom").push_string("robert").push_string("joe"))
    });

    let rv = Template::new().render_data(&mut w, &data, &nodes);
    match rv {
        _ => {},
    }

    assert_eq!("tomrobertjoe".to_string(), w);
}

#[test]
fn test_value_node_correct_false_bool_data() {
    let mut w = String::new();
    let nodes: Vec<Node> = vec![Value(s("value1"), s("{{ value1 }}"))];
    let data = HashBuilder::new().insert_bool("value1", false);

    let rv = Template::new().render_data(&mut w, &data, &nodes);
    match rv {
        _ => {},
    }

    assert_eq!("false".to_string(), w);
}

#[test]
fn test_value_node_correct_true_bool_data() {
    let mut w = String::new();
    let nodes: Vec<Node> = vec![Value(s("value1"), s("{{ value1 }}"))];
    let data = HashBuilder::new().insert_bool("value1", true);

    let rv = Template::new().render_data(&mut w, &data, &nodes);
    match rv {
        _ => {},
    }

    assert_eq!("true".to_string(), w);
}

// The partial file these tests read is given in memory, under its name.
fn hopper_template() -> Template {
    Template::with_partials(vec![(
        s("hopper_quote.partial"),
        Partial::Found(s("It's easier to get forgiveness than permission.-{{author}}")),
    )])
}

#[test]
fn test_partial_node_correct_data() {
    let mut w = String::new();
    let nodes: Vec<Node> = vec![Static(s("A wise woman once said: ")), Part(s("hopper_quote.partial"), s("{{> hopper_quote.partial }}"))];
    let data = HashBuilder::new().insert_string("author", "Grace Hopper").set_partials_path("test_data");

    let mut st: String = String::new();
    st.push_str("A wise woman once said: It's easier to get forgiveness than permission.-Grace Hopper");

    let rv = hopper_template().render_data(&mut w, &data, &nodes);
    match rv {
        _ => {},
    }

    assert_eq!(st, w);
}

#[test]
fn test_partial_node_correct_data_with_extra() {
    let mut w = String::new();
    let nodes: Vec<Node> = vec![
        Static(s("A wise woman once said: ")),
        Part(s("hopper_quote.partial"), s("{{> hopper_quote.partial }}")),
        Static(s(" something else ")),
        Value(s("extra"), s("{{ extra }}")),
    ];
    let data = HashBuilder::new()
        .insert_string("author", "Grace Hopper")
        .insert_string("extra", "extra data")
        .set_partials_path("test_data");

    let mut st: String = String::new();
    st.push_str("A wise woman once said: It's easier to get forgiveness than permission.-Grace Hopper something else extra data");

    let rv = hopper_template().render_data(&mut w, &data, &nodes);
    match rv {
        _ => {},
    }

    assert_eq!(st, w);
}

// The template and partial files this test reads are given in memory.
#[test]
fn test_section_node_partial_node_correct_data() {
    let mut w = String::new();
    let data = HashBuilder::new().set_partials_path("test_data").insert_hash("people", |builder| {
        builder.insert_vector("information", |builder| {
            builder
                .push_string("<tr><td>Jarrod</td><td>Ruhland</td></tr>")
                .push_string("<tr><td>Sean</td><td>Chen</td></tr>")
                .push_string("<tr><td>Fleur</td><td>Dragan</td></tr>")
                .push_string("<tr><td>Jim</td><td>O'Brien</td></tr>")
        })
    });

    let contents = "<table>{{> section_partial.html}}</table>";
    let tokens = create_tokens(contents);
    let nodes = parse_nodes(&tokens);

    let mut template = Template::with_partials(vec![(s("section_partial.html"), Partial::Found(s("{{#people}}{{{information}}}{{/people}}")))]);
    let completed = template.render_data(&mut w, &data, &nodes);

    assert_eq!(completed, Ok(()));
    assert_eq!(
        w,
        "<table><tr><td>Jarrod</td><td>Ruhland</td></tr><tr><td>Sean</td><td>Chen</td></tr><tr><td>Fleur</td><td>Dragan</td></tr><tr><td>Jim</td><td>O'Brien</td></tr></table>"
    );
}

#[test]
fn test_unescaped_node_lambda_data() {
    let mut w = String::new();
    let nodes: Vec<Node> = vec![Static(s("<h1>")), Unescaped(s("func1"), s("{{& func1 }}")), Static(s("</h1>"))];
    let mut f = |_: String| "heading".to_string();
    let data = HashBuilder::new().insert_lambda("func1", LambdaFn::new(&mut f));

    let rv = Template::new().render_data(&mut w, &data, &nodes);
    match rv {
        _ => {},
    }

    assert_eq!("<h1>heading</h1>".to_string(), w);
}

#[test]
fn test_value_node_lambda_data() {
    let mut w = String::new();
    let nodes: Vec<Node> = vec![Static(s("<h1>")), Value(s("func1"), s("{{ func1 }}")), Static(s("</h1>"))];
    let mut f = |_: String| "heading".to_string();
    let data = HashBuilder::new().insert_lambda("func1", LambdaFn::new(&mut f));

    let rv = Template::new().render_data(&mut w, &data, &nodes);
    match rv {
        _ => {},
    }

    assert_eq!("<h1>heading</h1>".to_string(), w);
}

#[test]
fn test_spec_lambda_not_cached_on_interpolation() {
    let mut planets = vec!["Jupiter", "Earth", "Saturn"];
    let mut w = String::new();
    let tokens = create_tokens("{{lambda}} == {{&lambda}} == {{lambda}}");
    let nodes = parse_nodes(&tokens);
    let mut f = |_: String| planets.pop().unwrap().to_string();
    let data = HashBuilder::new()
        .insert_lambda("lambda", LambdaFn::new(&mut f))
        .insert_string("planet", "world");

    let rv = Template::new().render_data(&mut w, &data, &nodes);
    match rv {
        _ => {},
    }
    assert_eq!("Saturn == Earth == Jupiter".to_string(), w);
}
