//! Rendering a template given as text: tokenize, parse, render.

use vstd::prelude::*;
use vstd::utf8::encode_utf8;
use vstd::string::StrSliceExecFns;
use crate::compiler::try_create_tokens;
use crate::parser::parse_nodes;
use crate::data::Entries;
use crate::builder::HashBuilder;
use crate::template::{Template, TemplateError, ErrorView, Partial, PartialTable, Outcome, partials_view,
    partial_nodes, render_spec, err_view};
use crate::json::{JsonValue, JsonView, parse_json, parse_json_text, parsed_json, json_hash};
use crate::text::{chars_of, string_of, append_chars};

verus! {

/// The outcome of rendering the template text `text` with the hash `ds` and
/// the partials `ps`; `None` where the text cannot be tokenized, partials
/// nest without end, or a lambda is called.
pub open spec fn render_text_spec(text: Seq<char>, ds: Entries, ps: PartialTable) -> Option<Outcome> {
    match partial_nodes(text) {
        Some(ns) => render_spec(ns, ds, ps),
        None => None,
    }
}

impl Template {
    /// Tokenizes, parses and renders `template` with the data of
    /// `datastore`, taking its partials path, and appends what is written to
    /// `out`; `None` where the template cannot be tokenized. Where
    /// `render_text_spec` gives `None` otherwise, nothing more is stated.
    pub fn render_text_into(&mut self, out: &mut String, template: &str, datastore: &HashBuilder) -> (r: Option<Result<(), TemplateError>>)
        ensures
            final(self).partials_path@ == datastore.partials_path@,
            final(self).partials == old(self).partials,
            match render_text_spec(template@, datastore.entries(), old(self).partials_spec()) {
                Some((o, e)) => r matches Some(res) && final(out)@ == old(out)@ + o && err_view(res) == e,
                None => partial_nodes(template@) is None ==> r is None,
            },
    {
        self.partials_path = datastore.partials_path.clone();
        match try_create_tokens(template) {
            None => None,
            Some(tokens) => {
                let nodes = parse_nodes(&tokens);
                self.try_render(out, &datastore.data, &nodes)
            },
        }
    }
}

/// Renders the template text `template` with `data` and the partials
/// `partials`: the UTF-8 bytes written, or the error met; `None` where the
/// template cannot be tokenized. Where `render_text_spec` gives `None`
/// otherwise (a lambda is called, or rendering does not end), nothing more
/// is stated.
pub fn render_text_with_partials(template: &str, data: HashBuilder, partials: Vec<(String, Partial)>) -> (r: Option<Result<Vec<u8>, TemplateError>>)
    ensures
        match render_text_spec(template@, data.entries(), partials_view(partials@)) {
            Some((o, e)) => r matches Some(res) && match e {
                None => res matches Ok(bytes) && bytes@ == encode_utf8(o),
                Some(ev) => res matches Err(err) && err@ == ev,
            },
            None => partial_nodes(template@) is None ==> r is None,
        },
{
    let mut t = Template::with_partials(partials);
    let mut out = String::new();
    match t.render_text_into(&mut out, template, &data) {
        None => None,
        Some(Ok(())) => {
            assert(Seq::<char>::empty() + out@ =~= out@);
            Some(Ok(out.as_str().as_bytes_vec()))
        },
        Some(Err(e)) => Some(Err(e)),
    }
}

/// Renders the template text `template` with `data` and no partials (see
/// `render_text_with_partials`).
pub fn render_text(template: &str, data: HashBuilder) -> (r: Option<Result<Vec<u8>, TemplateError>>)
    ensures
        match render_text_spec(template@, data.entries(), Seq::empty()) {
            Some((o, e)) => r matches Some(res) && match e {
                None => res matches Ok(bytes) && bytes@ == encode_utf8(o),
                Some(ev) => res matches Err(err) && err@ == ev,
            },
            None => partial_nodes(template@) is None ==> r is None,
        },
{
    let partials: Vec<(String, Partial)> = Vec::new();
    assert(partials_view(partials@) =~= Seq::<(Seq<char>, crate::template::PartialView)>::empty());
    render_text_with_partials(template, data, partials)
}

/// An error met while rendering from JSON text.
#[derive(Debug, PartialEq, Eq)]
pub enum RustacheError {
    /// The JSON text could not be parsed: `"Invalid JSON. "` and the
    /// parser's message.
    JsonError(String),
    /// Rendering reported an error.
    TemplateErrorType(TemplateError),
}

/// The message of JSON text that cannot be parsed.
pub open spec fn invalid_json(msg: Seq<char>) -> Seq<char> {
    seq!['I', 'n', 'v', 'a', 'l', 'i', 'd', ' ', 'J', 'S', 'O', 'N', '.', ' '] + msg
}

/// Renders the template text `template` with the data of the JSON text
/// `json`, which must hold an object, and the partials `partials`: the UTF-8
/// bytes written, the error met, or `JsonError` where the JSON cannot be
/// parsed. `None` where the JSON is not an object or the template cannot be
/// tokenized; where `render_text_spec` gives `None` otherwise, nothing more
/// is stated.
pub fn render_text_from_json(template: &str, json: &str, partials: Vec<(String, Partial)>) -> (r: Option<Result<Vec<u8>, RustacheError>>)
    ensures
        match parsed_json(json@) {
            Err(m) => r matches Some(Err(RustacheError::JsonError(msg))) && msg@ == invalid_json(m),
            Ok(JsonView::Object(ms)) => match render_text_spec(template@, json_hash(ms, 0, seq![]), partials_view(partials@)) {
                Some((o, e)) => r matches Some(res) && match e {
                    None => res matches Ok(bytes) && bytes@ == encode_utf8(o),
                    Some(ev) => res matches Err(RustacheError::TemplateErrorType(err)) && err@ == ev,
                },
                None => partial_nodes(template@) is None ==> r is None,
            },
            Ok(_) => r is None,
        },
{
    match parse_json_text(json) {
        Err(m) => {
            let mut cs: Vec<char> = Vec::new();
            append_chars(&mut cs, &['I', 'n', 'v', 'a', 'l', 'i', 'd', ' ', 'J', 'S', 'O', 'N', '.', ' ']);
            let ms = chars_of(m.as_str());
            append_chars(&mut cs, ms.as_slice());
            assert(cs@ =~= invalid_json(m@));
            Some(Err(RustacheError::JsonError(string_of(cs.as_slice()))))
        },
        Ok(v) => {
            if let JsonValue::Object(_) = &v {
                let data = parse_json(&v);
                match render_text_with_partials(template, data, partials) {
                    None => None,
                    Some(Ok(bytes)) => Some(Ok(bytes)),
                    Some(Err(e)) => Some(Err(RustacheError::TemplateErrorType(e))),
                }
            } else {
                None
            }
        },
    }
}

} // verus!
