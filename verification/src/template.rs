//! Rendering: the nodes of a parsed template, filled in from a data hash.
//!
//! The rules, stated by the spec functions below:
//! - a value tag writes the data bound to its name, HTML-escaped for
//!   `{{name}}` and as it is for `{{&name}}` and `{{{name}}}`; a missing name
//!   writes nothing;
//! - a section whose data is truthy renders its children: once per item for a
//!   vector of hashes, each item being the hash its children look names up
//!   in, and once otherwise, with names looked up along the sections entered
//!   (the innermost first); a section is entered only while its children
//!   render; a falsy or missing section renders nothing, nested or not, and
//!   an inverted one renders its children only then;
//! - a partial renders the template stored under its name with the hash in
//!   scope (the top-level hash, or the item of a list being iterated); a
//!   name with no partial renders nothing.
//!
//! Partials are given to a `Template` as a table from names to contents, so
//! that rendering itself reads no files.

use vstd::prelude::*;
use crate::compiler::{template_tokens, matches_ok, try_create_tokens};
use crate::parser::{Node, NodeView, node_view, nodes_view, lemma_nodes_view, parse_spec, parse_nodes};
use crate::data::{Data, DataView, Entries, entries_no_lambda, data_size, lemma_item_smaller, lemma_value_smaller, find, key_index, data_view, datas_view, entries_view,
    lemma_datas_view, lemma_entries_view, find_index, find_entry};
use crate::builder::HashBuilder;
use crate::text::{chars_of, string_of, append_chars, push_chars};

verus! {

/// An error met while rendering.
#[derive(Debug, PartialEq, Eq)]
pub enum TemplateError {
    /// Writing the output failed.
    StreamWriteError(String),
    /// A partial could not be read: the reason, `": "` and the partial's name.
    FileReadError(String),
    /// A section's vector holds an item that is not a hash: the item's text.
    UnexpectedDataType(String),
    /// A node of a kind that cannot stand where it was met.
    UnexpectedNodeType(String),
}

/// The value of a `TemplateError`.
pub enum ErrorView {
    StreamWriteError(Seq<char>),
    FileReadError(Seq<char>),
    UnexpectedDataType(Seq<char>),
    UnexpectedNodeType(Seq<char>),
}

impl View for TemplateError {
    type V = ErrorView;

    open spec fn view(&self) -> ErrorView {
        match self {
            TemplateError::StreamWriteError(s) => ErrorView::StreamWriteError(s@),
            TemplateError::FileReadError(s) => ErrorView::FileReadError(s@),
            TemplateError::UnexpectedDataType(s) => ErrorView::UnexpectedDataType(s@),
            TemplateError::UnexpectedNodeType(s) => ErrorView::UnexpectedNodeType(s@),
        }
    }
}

/// The stored form of a partial template.
#[derive(Debug, PartialEq, Eq)]
pub enum Partial {
    /// The partial's text.
    Found(String),
    /// The partial exists but could not be read; the reason.
    Unreadable(String),
}

pub enum PartialView {
    Found(Seq<char>),
    Unreadable(Seq<char>),
}

impl View for Partial {
    type V = PartialView;

    open spec fn view(&self) -> PartialView {
        match self {
            Partial::Found(s) => PartialView::Found(s@),
            Partial::Unreadable(s) => PartialView::Unreadable(s@),
        }
    }
}

/// A table of partials by name, by value.
pub type PartialTable = Seq<(Seq<char>, PartialView)>;

pub open spec fn partials_view(ps: Seq<(String, Partial)>) -> PartialTable {
    ps.map_values(|e: (String, Partial)| (e.0@, e.1@))
}

/// The partial stored under `name`: the first entry with that name.
pub open spec fn partial_from(ps: PartialTable, name: Seq<char>, i: int) -> Option<PartialView>
    decreases ps.len() - i,
{
    if i < 0 || i >= ps.len() {
        None
    } else if ps[i].0 == name {
        Some(ps[i].1)
    } else {
        partial_from(ps, name, i + 1)
    }
}

pub open spec fn find_partial(ps: PartialTable, name: Seq<char>) -> Option<PartialView> {
    partial_from(ps, name, 0)
}

/// The nodes of a partial's text, or `None` where its text cannot be
/// tokenized.
pub open spec fn partial_nodes(text: Seq<char>) -> Option<Seq<NodeView>> {
    if matches_ok(text) {
        Some(parse_spec(template_tokens(text)))
    } else {
        None
    }
}

/// What `escape_html` writes for one character.
pub open spec fn escape_char(c: char) -> Seq<char> {
    if c == '<' {
        seq!['&', 'l', 't', ';']
    } else if c == '>' {
        seq!['&', 'g', 't', ';']
    } else if c == '&' {
        seq!['&', 'a', 'm', 'p', ';']
    } else if c == '"' {
        seq!['&', 'q', 'u', 'o', 't', ';']
    } else {
        seq![c]
    }
}

/// `s` with `<`, `>`, `&` and `"` written as HTML entities.
pub open spec fn escape_html(s: Seq<char>) -> Seq<char>
    decreases s.len(),
{
    if s.len() == 0 {
        seq![]
    } else {
        escape_html(s.drop_last()) + escape_char(s.last())
    }
}

/// The decimal digits of `n`.
pub open spec fn digits(n: nat) -> Seq<char>
    decreases n,
{
    if n < 10 {
        seq![((n + 48) as u8) as char]
    } else {
        digits(n / 10).push((((n % 10) + 48) as u8) as char)
    }
}

/// The decimal text of `i`, with a leading `-` when it is negative.
pub open spec fn int_text(i: int) -> Seq<char> {
    if i < 0 {
        seq!['-'] + digits((-i) as nat)
    } else {
        digits(i as nat)
    }
}

pub open spec fn bool_text(b: bool) -> Seq<char> {
    if b {
        seq!['t', 'r', 'u', 'e']
    } else {
        seq!['f', 'a', 'l', 's', 'e']
    }
}

/// The text a list item that is not a hash is reported with: its value,
/// a vector as its items in brackets and a hash as its entries in braces.
pub open spec fn data_text(d: DataView) -> Seq<char>
    decreases d, 0int,
{
    match d {
        DataView::Strng(s) => s,
        DataView::Bool(b) => bool_text(b),
        DataView::Integer(i) => int_text(i),
        DataView::Vector(items) => seq!['['] + items_data_text(items, 0) + seq![']'],
        DataView::Hash(h) => seq!['{'] + entries_data_text(h, 0) + seq!['}'],
        DataView::Lambda => seq!['l', 'a', 'm', 'b', 'd', 'a'],
    }
}

/// The texts of the items of `items` from `j` on, separated by `", "`.
pub open spec fn items_data_text(items: Seq<DataView>, j: int) -> Seq<char>
    decreases items, items.len() - j,
{
    if j < 0 || j >= items.len() {
        seq![]
    } else {
        (if j > 0 {
            seq![',', ' ']
        } else {
            seq![]
        }) + data_text(items[j]) + items_data_text(items, j + 1)
    }
}

/// The entries of `h` from `j` on, each as its key, `": "` and its value's
/// text, separated by `", "`.
pub open spec fn entries_data_text(h: Entries, j: int) -> Seq<char>
    decreases h, h.len() - j,
{
    if j < 0 || j >= h.len() {
        seq![]
    } else {
        (if j > 0 {
            seq![',', ' ']
        } else {
            seq![]
        }) + h[j].0 + seq![':', ' '] + data_text(h[j].1) + entries_data_text(h, j + 1)
    }
}

/// Section data is falsy when it is `false` or an empty vector.
pub open spec fn is_true(d: DataView) -> bool {
    match d {
        DataView::Bool(b) => b,
        DataView::Vector(v) => v.len() > 0,
        _ => true,
    }
}

/// What a value tag writes for `d`: strings (escaped or not), booleans and
/// integers as text, each item of a vector in turn, and in a hash the value
/// bound to `key`. A lambda's text is what it returns, which its data does
/// not fix: where `value_meets_lambda`, this text is not what is written.
pub open spec fn value_text(escaped: bool, d: DataView, key: Seq<char>) -> Seq<char>
    decreases d, 0nat,
{
    match d {
        DataView::Strng(s) => if escaped {
            escape_html(s)
        } else {
            s
        },
        DataView::Bool(b) => bool_text(b),
        DataView::Integer(i) => int_text(i),
        DataView::Vector(items) => items_text(escaped, items, 0, key),
        DataView::Hash(h) => match key_index(h, key) {
            Some(i) => if 0 <= i < h.len() {
                value_text(escaped, h[i].1, key)
            } else {
                seq![]
            },
            None => seq![],
        },
        DataView::Lambda => seq![],
    }
}

/// Writing `d` for a value tag calls a lambda: `d` is one, or holds one
/// where `value_text` goes. What is written then rests on what the lambda
/// returns (see `lambda_outcome`), not on `value_text`.
pub open spec fn value_meets_lambda(d: DataView, key: Seq<char>) -> bool
    decreases d, 0nat,
{
    match d {
        DataView::Lambda => true,
        DataView::Vector(items) => items_meet_lambda(items, 0, key),
        DataView::Hash(h) => match key_index(h, key) {
            Some(i) => if 0 <= i < h.len() {
                value_meets_lambda(h[i].1, key)
            } else {
                false
            },
            None => false,
        },
        _ => false,
    }
}

/// `value_meets_lambda` for some item of `items` from `j` on.
pub open spec fn items_meet_lambda(items: Seq<DataView>, j: int, key: Seq<char>) -> bool
    decreases items, items.len() - j,
{
    if j < 0 || j >= items.len() {
        false
    } else {
        value_meets_lambda(items[j], key) || items_meet_lambda(items, j + 1, key)
    }
}

/// What a lambda's tag or section renders when the lambda returned `res`:
/// `res` (escaped first for a value tag) tokenized, parsed and rendered
/// with the hash `ds`, one level deeper. `None` where `fuel` is spent or
/// the text cannot be tokenized.
pub open spec fn lambda_outcome(escaped: bool, res: Seq<char>, ds: Entries, ps: PartialTable, fuel: nat) -> Option<Outcome> {
    if fuel == 0 {
        None
    } else {
        match partial_nodes(if escaped { escape_html(res) } else { res }) {
            None => None,
            Some(ns) => render_nodes(ns, 0, ds, ps, (fuel - 1) as nat),
        }
    }
}

/// `value_text` of the items of a vector from `j` on, one after another.
pub open spec fn items_text(escaped: bool, items: Seq<DataView>, j: int, key: Seq<char>) -> Seq<char>
    decreases items, items.len() - j,
{
    if j < 0 || j >= items.len() {
        seq![]
    } else {
        value_text(escaped, items[j], key) + items_text(escaped, items, j + 1, key)
    }
}

/// The size of a node: one for itself and its children's sizes.
pub open spec fn node_size(n: NodeView) -> nat
    decreases n, 0int,
{
    match n {
        NodeView::Section(_, ch, _, _, _) => 1 + nodes_size(ch, 0),
        _ => 1,
    }
}

/// The sizes of the nodes of `s` from `i` on.
pub open spec fn nodes_size(s: Seq<NodeView>, i: int) -> nat
    decreases s, s.len() - i,
{
    if i < 0 || i >= s.len() {
        0
    } else {
        node_size(s[i]) + nodes_size(s, i + 1)
    }
}

/// The size of the nodes from `i` on is that of node `i` and those after it;
/// each node counts at least one, a section one more than its children.
pub proof fn lemma_nodes_size_step(s: Seq<NodeView>, i: int)
    requires
        0 <= i < s.len(),
    ensures
        nodes_size(s, i) == node_size(s[i]) + nodes_size(s, i + 1),
        node_size(s[i]) >= 1,
        s[i] matches NodeView::Section(_, ch, _, _, _) ==> node_size(s[i]) == 1 + nodes_size(ch, 0),
{
}

/// The outcome of rendering a part: the text written, and the error
/// reported (`None` for success).
pub type Outcome = (Seq<char>, Option<ErrorView>);

/// The nested hashes met along `sections`, starting in `h` at `sections[j]`:
/// each section whose name is bound to a hash adds that hash and is where
/// the next one is looked for.
pub open spec fn nested_hashes(h: Entries, sections: Seq<Seq<char>>, j: int, acc: Seq<Entries>) -> Seq<Entries>
    decreases sections.len() - j,
{
    if j < 0 || j >= sections.len() {
        acc
    } else {
        match find(h, sections[j]) {
            Some(DataView::Hash(h2)) => nested_hashes(h2, sections, j + 1, acc.push(h2)),
            _ => nested_hashes(h, sections, j + 1, acc),
        }
    }
}

/// The hashes bound at the top level to the names in `sections` from `j`
/// on, added to `acc`; a name bound to a vector stops the scan and is
/// returned.
pub open spec fn top_hashes(ds: Entries, sections: Seq<Seq<char>>, j: int, acc: Seq<Entries>) -> (Seq<Entries>, Option<DataView>)
    decreases sections.len() - j,
{
    if j < 0 || j >= sections.len() {
        (acc, None)
    } else {
        match find(ds, sections[j]) {
            Some(DataView::Hash(h)) => top_hashes(ds, sections, j + 1, acc.push(h)),
            Some(DataView::Vector(v)) => (acc, Some(DataView::Vector(v))),
            _ => top_hashes(ds, sections, j + 1, acc),
        }
    }
}

/// `key` looked up in the hashes of `hs`, the last one first.
pub open spec fn search_back(hs: Seq<Entries>, key: Seq<char>) -> Option<DataView>
    decreases hs.len(),
{
    if hs.len() == 0 {
        None
    } else {
        match find(hs.last(), key) {
            Some(v) => Some(v),
            None => search_back(hs.drop_last(), key),
        }
    }
}

/// The data of `key` inside the sections entered: a vector bound at the top
/// level to one of the sections is the answer; otherwise the nested hashes
/// of the sections are searched first (the deepest first), then the
/// top-level hashes of the sections (the last entered first), and last the
/// top level itself.
pub open spec fn lookup(key: Seq<char>, sections: Seq<Seq<char>>, ds: Entries) -> Option<DataView> {
    let (tops, vector) = top_hashes(ds, sections, 0, seq![]);
    match vector {
        Some(v) => Some(v),
        None => match search_back(tops + nested_hashes(ds, sections, 0, seq![]), key) {
            Some(v) => Some(v),
            None => find(ds, key),
        },
    }
}

/// Rendering the nodes of `ns` from `i` on with the hash `ds`: each node in
/// turn, stopping at the first error. `None` where rendering does not end
/// (partials nested deeper than `fuel`), a partial cannot be tokenized, or
/// a lambda is called: what a lambda returns is not fixed by its data.
pub open spec fn render_nodes(ns: Seq<NodeView>, i: int, ds: Entries, ps: PartialTable, fuel: nat) -> Option<Outcome>
    decreases fuel, nodes_size(ns, i), 1int, 0int,
{
    if i < 0 || i >= ns.len() {
        Some((seq![], None))
    } else {
        proof {
            lemma_nodes_size_step(ns, i);
        }
        match render_node(ns[i], ds, ps, fuel) {
            None => None,
            Some((o1, e1)) => if e1 is Some {
                Some((o1, e1))
            } else {
                match render_nodes(ns, i + 1, ds, ps, fuel) {
                    None => None,
                    Some((o2, e2)) => Some((o1 + o2, e2)),
                }
            },
        }
    }
}

/// Rendering one node with the hash `ds`.
pub open spec fn render_node(n: NodeView, ds: Entries, ps: PartialTable, fuel: nat) -> Option<Outcome>
    decreases fuel, node_size(n), 0int, 0int,
{
    match n {
        NodeView::Static(t) => Some((t, None)),
        NodeView::Value(k, _) => match find(ds, k) {
            Some(v) => if value_meets_lambda(v, seq![]) {
                None
            } else {
                Some((value_text(true, v, seq![]), None))
            },
            None => Some((seq![], None)),
        },
        NodeView::Unescaped(k, _) => match find(ds, k) {
            Some(v) => if value_meets_lambda(v, seq![]) {
                None
            } else {
                Some((value_text(false, v, seq![]), None))
            },
            None => Some((seq![], None)),
        },
        NodeView::Section(k, ch, inv, _, _) => render_open(k, ch, inv, ds, ps, fuel, None),
        NodeView::Part(name, _) => render_partial(name, ds, ps, fuel),
    }
}

/// A section met at the top of a rendering: rendered as a section when its
/// data in `ds` is truthy and it is not inverted, as an inverted section
/// when its data is falsy or missing and it is inverted, and otherwise not
/// at all (the error so far, `rv`, stands).
pub open spec fn render_open(
    key: Seq<char>,
    ch: Seq<NodeView>,
    inv: bool,
    ds: Entries,
    ps: PartialTable,
    fuel: nat,
    rv: Option<ErrorView>,
) -> Option<Outcome>
    decreases fuel, nodes_size(ch, 0), 4int, 0int,
{
    let found = find(ds, key);
    let truthy = match found {
        Some(v) => is_true(v),
        None => false,
    };
    if truthy && !inv {
        render_section(ch, found->0, ds, seq![key], ps, fuel)
    } else if !truthy && inv {
        render_inverted(ch, 0, ds, ps, fuel, None)
    } else {
        Some((seq![], rv))
    }
}

/// The children `ch` of a section whose data is `data`: once per item of a
/// vector, and otherwise once, looking names up along `sections`. A
/// lambda's section renders what the lambda returns (`None` here; see
/// `lambda_outcome`).
pub open spec fn render_section(
    ch: Seq<NodeView>,
    data: DataView,
    ds: Entries,
    sections: Seq<Seq<char>>,
    ps: PartialTable,
    fuel: nat,
) -> Option<Outcome>
    decreases fuel, nodes_size(ch, 0), 3int, 0int,
{
    match data {
        DataView::Vector(items) => render_items(items, 0, ch, ps, fuel, None),
        DataView::Lambda => None,
        _ => render_children(ch, 0, ds, sections, ps, fuel, None),
    }
}

/// The children `ch` rendered once per item of `items` from `j` on, each
/// item being the hash they look names up in. An item that is not a hash
/// stops rendering with an error where there are children to render; the
/// error reported otherwise is that of the last child rendered.
pub open spec fn render_items(
    items: Seq<DataView>,
    j: int,
    ch: Seq<NodeView>,
    ps: PartialTable,
    fuel: nat,
    rv: Option<ErrorView>,
) -> Option<Outcome>
    decreases fuel, nodes_size(ch, 0), 2int, items.len() - j,
{
    if j < 0 || j >= items.len() {
        Some((seq![], rv))
    } else if ch.len() == 0 {
        render_items(items, j + 1, ch, ps, fuel, rv)
    } else {
        match items[j] {
            DataView::Hash(h) => match render_with_hash(ch, 0, h, ps, fuel, rv) {
                None => None,
                Some((o1, e1)) => match render_items(items, j + 1, ch, ps, fuel, e1) {
                    None => None,
                    Some((o2, e2)) => Some((o1 + o2, e2)),
                },
            },
            other => Some((seq![], Some(ErrorView::UnexpectedDataType(data_text(other))))),
        }
    }
}

/// The nodes of `ch` from `i` on, each rendered with the hash `h`; the
/// error reported is that of the last node.
pub open spec fn render_with_hash(
    ch: Seq<NodeView>,
    i: int,
    h: Entries,
    ps: PartialTable,
    fuel: nat,
    rv: Option<ErrorView>,
) -> Option<Outcome>
    decreases fuel, nodes_size(ch, i), 1int, 0int,
{
    if i < 0 || i >= ch.len() {
        Some((seq![], rv))
    } else {
        proof {
            lemma_nodes_size_step(ch, i);
        }
        match render_node(ch[i], h, ps, fuel) {
            None => None,
            Some((o1, e1)) => match render_with_hash(ch, i + 1, h, ps, fuel, e1) {
                None => None,
                Some((o2, e2)) => Some((o1 + o2, e2)),
            },
        }
    }
}

/// The data of a section nested in sections `sections` is truthy.
pub open spec fn nested_truthy(k: Seq<char>, sections: Seq<Seq<char>>, ds: Entries) -> bool {
    match lookup(k, sections.push(k), ds) {
        Some(v) => is_true(v),
        None => false,
    }
}

/// One child of a section, with names looked up along the sections
/// entered: a value tag found sets the error reported to none, one not found
/// leaves it. A nested section is entered only while its own children
/// render, and only where its data is truthy (an inverted one only where it
/// is not).
pub open spec fn child_step(
    n: NodeView,
    ds: Entries,
    sections: Seq<Seq<char>>,
    ps: PartialTable,
    fuel: nat,
    rv: Option<ErrorView>,
) -> Option<Outcome>
    decreases fuel, node_size(n), 0int, 0int,
{
    match n {
        NodeView::Static(t) => Some((t, None)),
        NodeView::Value(k, _) => match lookup(k, sections, ds) {
            Some(v) => if value_meets_lambda(v, k) {
                None
            } else {
                Some((value_text(true, v, k), None))
            },
            None => Some((seq![], rv)),
        },
        NodeView::Unescaped(k, _) => match lookup(k, sections, ds) {
            Some(v) => if value_meets_lambda(v, k) {
                None
            } else {
                Some((value_text(false, v, k), None))
            },
            None => Some((seq![], rv)),
        },
        NodeView::Section(k, gch, inv, _, _) => if !inv {
            if nested_truthy(k, sections, ds) {
                render_section(gch, lookup(k, sections.push(k), ds)->0, ds, sections.push(k), ps, fuel)
            } else {
                Some((seq![], rv))
            }
        } else if !nested_truthy(k, sections, ds) {
            render_inverted(gch, 0, ds, ps, fuel, None)
        } else {
            Some((seq![], rv))
        },
        NodeView::Part(name, _) => render_partial(name, ds, ps, fuel),
    }
}

/// The children of a section from `i` on, one after another, each in the
/// same sections (see `child_step`); the error reported is carried on.
pub open spec fn render_children(
    ch: Seq<NodeView>,
    i: int,
    ds: Entries,
    sections: Seq<Seq<char>>,
    ps: PartialTable,
    fuel: nat,
    rv: Option<ErrorView>,
) -> Option<Outcome>
    decreases fuel, nodes_size(ch, i), 1int, 0int,
{
    if i < 0 || i >= ch.len() {
        Some((seq![], rv))
    } else {
        proof {
            lemma_nodes_size_step(ch, i);
        }
        match child_step(ch[i], ds, sections, ps, fuel, rv) {
            None => None,
            Some((o1, e1)) => match render_children(ch, i + 1, ds, sections, ps, fuel, e1) {
                None => None,
                Some((o2, e2)) => Some((o1 + o2, e2)),
            },
        }
    }
}

/// The children of an inverted section from `i` on: text, partials and
/// sections are rendered (each setting the error reported), value tags are
/// left out.
pub open spec fn render_inverted(
    ns: Seq<NodeView>,
    i: int,
    ds: Entries,
    ps: PartialTable,
    fuel: nat,
    rv: Option<ErrorView>,
) -> Option<Outcome>
    decreases fuel, nodes_size(ns, i), 1int, 0int,
{
    if i < 0 || i >= ns.len() {
        Some((seq![], rv))
    } else {
        proof {
            lemma_nodes_size_step(ns, i);
        }
        let step: Option<Outcome> = match ns[i] {
            NodeView::Static(t) => Some((t, None)),
            NodeView::Part(name, _) => render_partial(name, ds, ps, fuel),
            NodeView::Section(k, ch, inv, _, _) => render_open(k, ch, inv, ds, ps, fuel, rv),
            _ => Some((seq![], rv)),
        };
        match step {
            None => None,
            Some((o1, e1)) => match render_inverted(ns, i + 1, ds, ps, fuel, e1) {
                None => None,
                Some((o2, e2)) => Some((o1 + o2, e2)),
            },
        }
    }
}

/// The partial named `name`, rendered with the hash `ds`: nothing where no
/// partial has that name, an error where it could not be read. `None` where
/// `fuel` is spent or the partial cannot be tokenized.
pub open spec fn render_partial(name: Seq<char>, ds: Entries, ps: PartialTable, fuel: nat) -> Option<Outcome>
    decreases fuel, 0int, 0int, 0int,
{
    if fuel == 0 {
        None
    } else {
        match find_partial(ps, name) {
            None => Some((seq![], None)),
            Some(PartialView::Unreadable(msg)) => Some(
                (seq![], Some(ErrorView::FileReadError(msg + seq![':', ' '] + name))),
            ),
            Some(PartialView::Found(text)) => match partial_nodes(text) {
                None => None,
                Some(ns) => render_nodes(ns, 0, ds, ps, (fuel - 1) as nat),
            },
        }
    }
}

/// How deep partials may be nested: as deep as a machine word counts.
pub open spec fn max_depth() -> nat {
    usize::MAX as nat
}

/// The outcome of rendering `ns` with the hash `ds` and the partials `ps`,
/// or `None` where a partial cannot be tokenized, or partials nest
/// without end.
pub open spec fn render_spec(ns: Seq<NodeView>, ds: Entries, ps: PartialTable) -> Option<Outcome> {
    render_nodes(ns, 0, ds, ps, max_depth())
}

/// Appends `s` with `<`, `>`, `&` and `"` written as HTML entities.
fn escape_into(out: &mut Vec<char>, s: &[char])
    ensures
        final(out)@ == old(out)@ + escape_html(s@),
{
    let ghost start = out@;
    let mut i: usize = 0;
    while i < s.len()
        invariant
            i <= s@.len(),
            out@ == start + escape_html(s@.take(i as int)),
        decreases s@.len() - i,
    {
        let c = s[i];
        let ghost before = out@;
        if c == '<' {
            append_chars(out, &['&', 'l', 't', ';']);
        } else if c == '>' {
            append_chars(out, &['&', 'g', 't', ';']);
        } else if c == '&' {
            append_chars(out, &['&', 'a', 'm', 'p', ';']);
        } else if c == '"' {
            append_chars(out, &['&', 'q', 'u', 'o', 't', ';']);
        } else {
            out.push(c);
        }
        proof {
            assert(out@ =~= before + escape_char(c));
            assert(s@.take(i + 1).drop_last() =~= s@.take(i as int));
            assert(s@.take(i + 1).last() == c);
        }
        i = i + 1;
    }
    assert(s@.take(s@.len() as int) =~= s@);
}

/// Appends the decimal digits of `n`.
pub fn push_digit_text(out: &mut Vec<char>, n: u64)
    ensures
        final(out)@ == old(out)@ + digits(n as nat),
    decreases n,
{
    if n >= 10 {
        push_digit_text(out, n / 10);
    }
    let d: u8 = (n % 10) as u8;
    let c: char = (d + 48) as char;
    out.push(c);
    proof {
        if n < 10 {
            assert(n % 10 == n);
        }
    }
    assert(out@ =~= old(out)@ + digits(n as nat));
}

/// Appends the decimal text of `i`.
pub fn push_int_text(out: &mut Vec<char>, i: i64)
    ensures
        final(out)@ == old(out)@ + int_text(i as int),
{
    if i < 0 {
        out.push('-');
        let m: u64 = ((-(i + 1)) as u64) + 1;
        push_digit_text(out, m);
        assert(out@ =~= old(out)@ + int_text(i as int));
    } else {
        push_digit_text(out, i as u64);
    }
}

/// Appends the characters of `s`.
fn push_str(out: &mut Vec<char>, s: &String)
    ensures
        final(out)@ == old(out)@ + s@,
{
    let cs = chars_of(s.as_str());
    append_chars(out, cs.as_slice());
}

/// Appends `"true"` or `"false"`.
fn push_bool(out: &mut Vec<char>, b: bool)
    ensures
        final(out)@ == old(out)@ + bool_text(b),
{
    if b {
        append_chars(out, &['t', 'r', 'u', 'e']);
        assert(['t', 'r', 'u', 'e']@ =~= bool_text(b));
    } else {
        append_chars(out, &['f', 'a', 'l', 's', 'e']);
        assert(['f', 'a', 'l', 's', 'e']@ =~= bool_text(b));
    }
}

/// The sizes from `i` on are at least those from `j` on, for `i <= j`.
pub proof fn lemma_nodes_size_mono(s: Seq<NodeView>, i: int, j: int)
    requires
        0 <= i <= j <= s.len(),
    ensures
        nodes_size(s, i) >= nodes_size(s, j),
    decreases j - i,
{
    if i < j {
        lemma_nodes_size_step(s, i);
        lemma_nodes_size_mono(s, i + 1, j);
    }
}

/// Each node is no larger than the list it stands in.
pub proof fn lemma_nodes_size_le(s: Seq<NodeView>, j: int)
    requires
        0 <= j < s.len(),
    ensures
        node_size(s[j]) <= nodes_size(s, 0),
{
    lemma_nodes_size_mono(s, 0, j);
    lemma_nodes_size_step(s, j);
}

/// The names of a list of sections, by value.
pub open spec fn names_view(s: Seq<String>) -> Seq<Seq<char>> {
    s.map_values(|x: String| x@)
}

/// The error a result reports.
pub open spec fn err_view(r: Result<(), TemplateError>) -> Option<ErrorView> {
    match r {
        Ok(_) => None,
        Err(e) => Some(e@),
    }
}

/// Where `ch` is a single child naming a lambda, how the lambda's result is
/// rendered: escaped (`Some(true)`) for a value tag, as it is
/// (`Some(false)`) for an unescaped tag or a section; names are looked up
/// along `sections` as `child_step` does.
pub open spec fn lambda_child(ch: Seq<Node>, ds: Entries, sections: Seq<Seq<char>>) -> Option<bool> {
    if ch.len() != 1 {
        None
    } else {
        match node_view(ch[0]) {
            NodeView::Value(k, _) => if lookup(k, sections, ds) == Some(DataView::Lambda) {
                Some(true)
            } else {
                None
            },
            NodeView::Unescaped(k, _) => if lookup(k, sections, ds) == Some(DataView::Lambda) {
                Some(false)
            } else {
                None
            },
            NodeView::Section(k, _, inv, _, _) => if !inv && lookup(k, sections.push(k), ds) == Some(DataView::Lambda) {
                Some(false)
            } else {
                None
            },
            _ => None,
        }
    }
}

/// An outcome with `o` written before it.
pub open spec fn prepend(o: Seq<char>, x: Option<Outcome>) -> Option<Outcome> {
    match x {
        None => None,
        Some((o2, e)) => Some((o + o2, e)),
    }
}

/// A rendering that returned `r` and turned the output `before` into
/// `after` did what `spec` says: where it gives an outcome, wrote its text
/// and reported its error. Where it gives `None` (a lambda was called, or
/// the rendering would not end) nothing is claimed.
pub open spec fn ran(r: Option<Result<(), TemplateError>>, spec: Option<Outcome>, before: Seq<char>, after: Seq<char>) -> bool {
    match spec {
        Some((o, e)) => r matches Some(res) && after == before + o && err_view(res) == e,
        None => true,
    }
}

pub proof fn lemma_prepend(a: Seq<char>, b: Seq<char>, x: Option<Outcome>)
    ensures
        prepend(a, prepend(b, x)) == prepend(a + b, x),
        prepend(seq![], x) == x,
{
    match x {
        Some((o, e)) => {
            assert(a + (b + o) =~= (a + b) + o);
            assert(Seq::<char>::empty() + o =~= o);
        },
        None => {},
    }
}

/// The partial stored under `name` in `ps`.
fn find_partial_entry<'a>(ps: &'a Vec<(String, Partial)>, name: &String) -> (r: Option<&'a Partial>)
    ensures
        r matches Some(p) ==> find_partial(partials_view(ps@), name@) == Some(p@),
        r is None ==> find_partial(partials_view(ps@), name@) is None,
{
    let ghost pv = partials_view(ps@);
    let mut i: usize = 0;
    while i < ps.len()
        invariant
            pv == partials_view(ps@),
            i <= ps@.len(),
            find_partial(pv, name@) == partial_from(pv, name@, i as int),
        decreases ps@.len() - i,
    {
        if ps[i].0.eq(name) {
            return Some(&ps[i].1);
        }
        i = i + 1;
    }
    None
}

/// Appends the text of `d` (see `data_text`).
fn data_text_into(d: &Data, out: &mut Vec<char>)
    ensures
        final(out)@ == old(out)@ + data_text(d@),
    decreases d,
{
    match d {
        Data::Strng(t) => {
            push_str(out, t);
        },
        Data::Bool(b) => {
            push_bool(out, *b);
        },
        Data::Integer(i) => {
            push_int_text(out, *i as i64);
        },
        Data::Vector(items) => {
            let ghost iv = datas_view(items@);
            let ghost start = out@;
            proof {
                lemma_datas_view(items@);
            }
            out.push('[');
            let mut j: usize = 0;
            assert(out@ =~= start + seq!['['] + Seq::<char>::empty());
            while j < items.len()
                invariant
                    *d == Data::Vector(*items),
                    iv == datas_view(items@),
                    iv.len() == items@.len(),
                    forall|k: int| 0 <= k < items@.len() ==> #[trigger] iv[k] == data_view(items@[k]),
                    j <= items@.len(),
                    start + seq!['['] + items_data_text(iv, 0) == out@ + items_data_text(iv, j as int),
                decreases items@.len() - j,
            {
                let ghost before = out@;
                if j > 0 {
                    out.push(',');
                    out.push(' ');
                }
                proof {
                    assert(decreases_to!(*d => (*d)->Vector_0));
                    assert(decreases_to!(*items => items@));
                    assert(decreases_to!(items@ => items@[j as int]));
                }
                data_text_into(&items[j], out);
                proof {
                    let sep = if j > 0 { seq![',', ' '] } else { Seq::<char>::empty() };
                    assert(out@ =~= before + sep + data_text(iv[j as int]));
                    assert(before + (sep + data_text(iv[j as int]) + items_data_text(iv, j + 1)) =~= out@ + items_data_text(iv, j + 1));
                }
                j = j + 1;
            }
            out.push(']');
            assert(out@ =~= start + data_text(d@));
        },
        Data::Hash(h) => {
            let ghost hv = entries_view(h@);
            let ghost start = out@;
            proof {
                lemma_entries_view(h@);
            }
            out.push('{');
            let mut j: usize = 0;
            assert(out@ =~= start + seq!['{'] + Seq::<char>::empty());
            while j < h.len()
                invariant
                    *d == Data::Hash(*h),
                    hv == entries_view(h@),
                    hv.len() == h@.len(),
                    forall|k: int| 0 <= k < h@.len() ==> #[trigger] hv[k] == (h@[k].0@, data_view(h@[k].1)),
                    j <= h@.len(),
                    start + seq!['{'] + entries_data_text(hv, 0) == out@ + entries_data_text(hv, j as int),
                decreases h@.len() - j,
            {
                let ghost before = out@;
                if j > 0 {
                    out.push(',');
                    out.push(' ');
                }
                push_str(out, &h[j].0);
                out.push(':');
                out.push(' ');
                proof {
                    assert(decreases_to!(*d => (*d)->Hash_0));
                    assert(decreases_to!(*h => h@));
                    assert(decreases_to!(h@ => h@[j as int]));
                    assert(decreases_to!(h@[j as int] => h@[j as int].1));
                }
                data_text_into(&h[j].1, out);
                proof {
                    let sep = if j > 0 { seq![',', ' '] } else { Seq::<char>::empty() };
                    assert(out@ =~= before + sep + hv[j as int].0 + seq![':', ' '] + data_text(hv[j as int].1));
                    assert(before + (sep + hv[j as int].0 + seq![':', ' '] + data_text(hv[j as int].1) + entries_data_text(hv, j + 1))
                        =~= out@ + entries_data_text(hv, j + 1));
                }
                j = j + 1;
            }
            out.push('}');
            assert(out@ =~= start + data_text(d@));
        },
        Data::Lambda(_) => {
            append_chars(out, &['l', 'a', 'm', 'b', 'd', 'a']);
            assert(['l', 'a', 'm', 'b', 'd', 'a']@ =~= data_text(d@));
        },
    }
}

/// The text a list item that is not a hash is reported with (see
/// `data_text`).
fn data_text_of(d: &Data) -> (s: String)
    ensures
        s@ == data_text(d@),
{
    let mut cs: Vec<char> = Vec::new();
    data_text_into(d, &mut cs);
    assert(cs@ =~= data_text(d@));
    string_of(cs.as_slice())
}

/// Section data is falsy when it is `false` or an empty vector.
fn is_section_data_true(data: &Data) -> (b: bool)
    ensures
        b == is_true(data@),
{
    match data {
        Data::Bool(v) => *v,
        Data::Vector(v) => {
            proof {
                lemma_datas_view(v@);
            }
            v.len() > 0
        },
        _ => true,
    }
}

/// `key` looked up in the hashes of `hashes`, the last one first.
fn search_hashes<'a, 'b>(hashes: &Vec<&'a Vec<(String, Data<'b>)>>, key: &String) -> (r: Option<&'a Data<'b>>)
    ensures
        r matches Some(d) ==> search_back(hashes@.map_values(|h: &Vec<(String, Data)>| entries_view(h@)), key@) == Some(d@),
        r is None ==> search_back(hashes@.map_values(|h: &Vec<(String, Data)>| entries_view(h@)), key@) is None,
{
    let ghost all = hashes@.map_values(|h: &Vec<(String, Data)>| entries_view(h@));
    assert(all.take(hashes@.len() as int) =~= all);
    let mut k: usize = hashes.len();
    while k > 0
        invariant
            k <= hashes@.len(),
            all == hashes@.map_values(|h: &Vec<(String, Data)>| entries_view(h@)),
            search_back(all, key@) == search_back(all.take(k as int), key@),
        decreases k,
    {
        let ghost part = all.take(k as int);
        assert(part.last() == entries_view(hashes@[k - 1]@));
        assert(part.drop_last() =~= all.take(k - 1));
        match find_entry(hashes[k - 1], key) {
            Some(v) => {
                return Some(v);
            },
            None => {},
        }
        k = k - 1;
    }
    assert(all.take(0) =~= Seq::<Entries>::empty());
    None
}

/// The data of `key` inside the sections entered (see `lookup`).
fn section_data<'a, 'b>(key: &String, sections: &Vec<String>, ds: &'a Vec<(String, Data<'b>)>) -> (r: Option<&'a Data<'b>>)
    ensures
        r matches Some(d) ==> lookup(key@, names_view(sections@), entries_view(ds@)) == Some(d@),
        r is None ==> lookup(key@, names_view(sections@), entries_view(ds@)) is None,
{
    let ghost sv = names_view(sections@);
    let ghost dv = entries_view(ds@);
    let mut tops: Vec<&'a Vec<(String, Data)>> = Vec::new();
    assert(tops@.map_values(|h: &Vec<(String, Data)>| entries_view(h@)) =~= Seq::<Entries>::empty());
    let mut j: usize = 0;
    while j < sections.len()
        invariant
            sv == names_view(sections@),
            dv == entries_view(ds@),
            j <= sections@.len(),
            top_hashes(dv, sv, 0, seq![]) == top_hashes(
                dv,
                sv,
                j as int,
                tops@.map_values(|h: &Vec<(String, Data)>| entries_view(h@)),
            ),
        decreases sections@.len() - j,
    {
        let ghost hv = tops@.map_values(|h: &Vec<(String, Data)>| entries_view(h@));
        match find_entry(ds, &sections[j]) {
            Some(Data::Hash(h)) => {
                tops.push(h);
                assert(tops@.map_values(|h: &Vec<(String, Data)>| entries_view(h@)) =~= hv.push(entries_view(h@)));
            },
            Some(d) => {
                if let Data::Vector(_) = d {
                    return Some(d);
                }
            },
            None => {},
        }
        j = j + 1;
    }
    let mut hashes = tops;
    let ghost tv = hashes@.map_values(|h: &Vec<(String, Data)>| entries_view(h@));
    let mut hash: &'a Vec<(String, Data)> = ds;
    let mut j: usize = 0;
    proof {
        lemma_nested_hashes_acc(dv, sv, 0, seq![], tv);
        assert(tv + Seq::<Entries>::empty() =~= tv);
    }
    while j < sections.len()
        invariant
            sv == names_view(sections@),
            dv == entries_view(ds@),
            j <= sections@.len(),
            tv + nested_hashes(dv, sv, 0, seq![]) == nested_hashes(
                entries_view(hash@),
                sv,
                j as int,
                hashes@.map_values(|h: &Vec<(String, Data)>| entries_view(h@)),
            ),
        decreases sections@.len() - j,
    {
        let ghost hv = hashes@.map_values(|h: &Vec<(String, Data)>| entries_view(h@));
        match find_entry(hash, &sections[j]) {
            Some(Data::Hash(h)) => {
                hashes.push(h);
                hash = h;
                assert(hashes@.map_values(|h: &Vec<(String, Data)>| entries_view(h@)) =~= hv.push(entries_view(h@)));
            },
            _ => {},
        }
        j = j + 1;
    }
    match search_hashes(&hashes, key) {
        Some(v) => Some(v),
        None => find_entry(ds, key),
    }
}

/// The nested hashes gathered after a list `pre` are `pre` followed by those
/// gathered from nothing.
proof fn lemma_nested_hashes_acc(h: Entries, sections: Seq<Seq<char>>, j: int, acc: Seq<Entries>, pre: Seq<Entries>)
    ensures
        nested_hashes(h, sections, j, pre + acc) == pre + nested_hashes(h, sections, j, acc),
    decreases sections.len() - j,
{
    if 0 <= j < sections.len() {
        match find(h, sections[j]) {
            Some(DataView::Hash(h2)) => {
                assert((pre + acc).push(h2) =~= pre + acc.push(h2));
                lemma_nested_hashes_acc(h2, sections, j + 1, acc.push(h2), pre);
            },
            _ => lemma_nested_hashes_acc(h, sections, j + 1, acc, pre),
        }
    }
}

/// A renderer: the path partials are read from, and the partials that were
/// read, by name.
pub struct Template {
    pub partials_path: String,
    pub partials: Vec<(String, Partial)>,
}

impl Template {
    /// A template with no partials path and no partials.
    pub fn new() -> (t: Template)
        ensures
            t.partials_path@ == Seq::<char>::empty(),
            t.partials@ == Seq::<(String, Partial)>::empty(),
    {
        Template { partials_path: String::new(), partials: Vec::new() }
    }

    /// The partials of this template, by value.
    pub open spec fn partials_spec(&self) -> PartialTable {
        partials_view(self.partials@)
    }

    /// Renders the nodes of `ns` one after another, stopping at the first
    /// error (see `render_nodes`).
    #[verifier::loop_isolation(false)]
    fn render_list(&self, ns: &[Node], ds: &Vec<(String, Data)>, fuel: usize, out: &mut Vec<char>) -> (r: Option<Result<(), TemplateError>>)
        ensures
            ran(r, render_nodes(nodes_view(ns@), 0, entries_view(ds@), self.partials_spec(), fuel as nat), old(out)@, final(out)@),
        decreases fuel, nodes_size(nodes_view(ns@), 0), 1int, 0int,
    {
        let ghost nv = nodes_view(ns@);
        let ghost dv = entries_view(ds@);
        let ghost pv = self.partials_spec();
        let ghost start = out@;
        let ghost mut added: Seq<char> = seq![];
        proof {
            lemma_nodes_view(ns@);
            lemma_prepend(seq![], seq![], render_nodes(nv, 0, dv, pv, fuel as nat));
            assert(start + added =~= start);
        }
        let mut i: usize = 0;
        while i < ns.len()
            invariant
                nv == nodes_view(ns@),
                dv == entries_view(ds@),
                pv == self.partials_spec(),
                nv.len() == ns@.len(),
                forall|k: int| 0 <= k < ns@.len() ==> #[trigger] nv[k] == node_view(ns@[k]),
                i <= ns@.len(),
                render_nodes(nv, 0, dv, pv, fuel as nat) is Some ==> out@ == start + added
                    && render_nodes(nv, 0, dv, pv, fuel as nat) == prepend(added, render_nodes(nv, i as int, dv, pv, fuel as nat)),
            decreases ns@.len() - i,
        {
            proof {
                lemma_nodes_size_le(nv, i as int);
            }
            assert(render_nodes(nv, i as int, dv, pv, fuel as nat) == match render_node(nv[i as int], dv, pv, fuel as nat) {
                None => None,
                Some((o1, e1)) => if e1 is Some {
                    Some((o1, e1))
                } else {
                    prepend(o1, render_nodes(nv, i + 1, dv, pv, fuel as nat))
                },
            });
            let r = self.handle_node(&ns[i], ds, fuel, out);
            match r {
                None => {
                    return None;
                },
                Some(Err(e)) => {
                    proof {
                        if render_nodes(nv, 0, dv, pv, fuel as nat) is Some {
                            let o1 = render_node(nv[i as int], dv, pv, fuel as nat).unwrap().0;
                            assert(out@ =~= start + (added + o1));
                        }
                    }
                    return Some(Err(e));
                },
                Some(Ok(())) => {},
            }
            proof {
                if render_nodes(nv, 0, dv, pv, fuel as nat) is Some {
                    let o1 = render_node(nv[i as int], dv, pv, fuel as nat).unwrap().0;
                    lemma_prepend(added, o1, render_nodes(nv, i + 1, dv, pv, fuel as nat));
                    added = added + o1;
                    assert(out@ =~= start + added);
                }
            }
            i = i + 1;
        }
        proof {
            if render_nodes(nv, 0, dv, pv, fuel as nat) is Some {
                assert(out@ =~= start + added);
            }
        }
        Some(Ok(()))
    }

    /// Renders one node with the hash `ds` (see `render_node`).
    fn handle_node(&self, node: &Node, ds: &Vec<(String, Data)>, fuel: usize, out: &mut Vec<char>) -> (r: Option<Result<(), TemplateError>>)
        ensures
            ran(r, render_node(node@, entries_view(ds@), self.partials_spec(), fuel as nat), old(out)@, final(out)@),
            node@ matches NodeView::Value(k, _) && find(entries_view(ds@), k) == Some(DataView::Lambda) ==> exists|res: Seq<char>|
                ran(
                    r,
                    #[trigger] lambda_outcome(true, res, entries_view(ds@), self.partials_spec(), fuel as nat),
                    old(out)@,
                    final(out)@,
                ),
            (node@ matches NodeView::Unescaped(k, _) && find(entries_view(ds@), k) == Some(DataView::Lambda))
                || (node@ matches NodeView::Section(k, _, inv, _, _) && !inv && find(entries_view(ds@), k) == Some(
                DataView::Lambda,
            )) ==> exists|res: Seq<char>|
                ran(
                    r,
                    #[trigger] lambda_outcome(false, res, entries_view(ds@), self.partials_spec(), fuel as nat),
                    old(out)@,
                    final(out)@,
                ),
        decreases fuel, node_size(node@), 0int, 0int,
    {
        match node {
            Node::Static(t) => {
                push_str(out, t);
                Some(Ok(()))
            },
            Node::Value(k, _) => {
                match find_entry(ds, k) {
                    Some(v) => {
                        let empty = String::new();
                        self.handle_unescaped_or_value_node(true, v, &empty, ds, fuel, out)
                    },
                    None => {
                        assert(out@ =~= old(out)@ + Seq::<char>::empty());
                        Some(Ok(()))
                    },
                }
            },
            Node::Unescaped(k, _) => {
                match find_entry(ds, k) {
                    Some(v) => {
                        let empty = String::new();
                        self.handle_unescaped_or_value_node(false, v, &empty, ds, fuel, out)
                    },
                    None => {
                        assert(out@ =~= old(out)@ + Seq::<char>::empty());
                        Some(Ok(()))
                    },
                }
            },
            Node::Section(k, ch, inv, _, _) => {
                self.handle_open_section(k, ch, *inv, ds, fuel, Ok(()), out)
            },
            Node::Part(name, _) => {
                self.handle_partial_file_node(name, ds, fuel, out)
            },
        }
    }

    /// Writes what a value tag writes for `d` (see `value_text`). A lambda
    /// is called with the empty text, and what it returns is rendered with
    /// the hash `ds` (see `render_lambda_result`).
    #[verifier::loop_isolation(false)]
    fn handle_unescaped_or_value_node(
        &self,
        escaped: bool,
        d: &Data,
        key: &String,
        ds: &Vec<(String, Data)>,
        fuel: usize,
        out: &mut Vec<char>,
    ) -> (r: Option<Result<(), TemplateError>>)
        ensures
            !value_meets_lambda(d@, key@) ==> r == Some(Ok::<(), TemplateError>(())) && final(out)@ == old(out)@
                + value_text(escaped, d@, key@),
            d@ is Lambda ==> exists|res: Seq<char>|
                ran(
                    r,
                    #[trigger] lambda_outcome(escaped, res, entries_view(ds@), self.partials_spec(), fuel as nat),
                    old(out)@,
                    final(out)@,
                ),
        decreases fuel, 0int, 1int, data_size(d@) as int,
    {
        match d {
            Data::Strng(s) => {
                if escaped {
                    let cs = chars_of(s.as_str());
                    escape_into(out, cs.as_slice());
                } else {
                    push_str(out, s);
                }
                Some(Ok(()))
            },
            Data::Bool(b) => {
                push_bool(out, *b);
                Some(Ok(()))
            },
            Data::Integer(i) => {
                push_int_text(out, *i as i64);
                Some(Ok(()))
            },
            Data::Vector(items) => {
                let ghost iv = datas_view(items@);
                let ghost start = out@;
                let ghost clean = !items_meet_lambda(iv, 0, key@);
                proof {
                    lemma_datas_view(items@);
                }
                let mut j: usize = 0;
                while j < items.len()
                    invariant
                        *d == Data::Vector(*items),
                        iv == datas_view(items@),
                        iv.len() == items@.len(),
                        forall|k: int| 0 <= k < items@.len() ==> #[trigger] iv[k] == data_view(items@[k]),
                        j <= items@.len(),
                        clean ==> !items_meet_lambda(iv, j as int, key@),
                        clean ==> start + items_text(escaped, iv, 0, key@) == out@ + items_text(escaped, iv, j as int, key@),
                    decreases items@.len() - j,
                {
                    let ghost before = out@;
                    proof {
                        lemma_item_smaller(iv, 0, j as int);
                    }
                    let r = self.handle_unescaped_or_value_node(escaped, &items[j], key, ds, fuel, out);
                    match r {
                        Some(Ok(())) => {},
                        _ => {
                            return r;
                        },
                    }
                    proof {
                        if clean {
                            assert(items_text(escaped, iv, j as int, key@) == value_text(escaped, iv[j as int], key@)
                                + items_text(escaped, iv, j + 1, key@));
                            assert(before + (value_text(escaped, iv[j as int], key@) + items_text(escaped, iv, j + 1, key@))
                                =~= out@ + items_text(escaped, iv, j + 1, key@));
                        }
                    }
                    j = j + 1;
                }
                assert(clean ==> out@ =~= start + items_text(escaped, iv, 0, key@));
                Some(Ok(()))
            },
            Data::Hash(h) => {
                proof {
                    lemma_entries_view(h@);
                }
                match find_index(h, key) {
                    Some(i) => {
                        proof {
                            lemma_value_smaller(entries_view(h@), 0, i as int);
                        }
                        self.handle_unescaped_or_value_node(escaped, &h[i].1, key, ds, fuel, out)
                    },
                    None => {
                        assert(out@ =~= old(out)@ + Seq::<char>::empty());
                        Some(Ok(()))
                    },
                }
            },
            Data::Lambda(f) => {
                let res = f.call(String::new());
                let r = self.render_lambda_result(&res, escaped, ds, fuel, out);
                assert(ran(r, lambda_outcome(escaped, res@, entries_view(ds@), self.partials_spec(), fuel as nat), old(out)@, out@));
                r
            },
        }
    }

    /// Renders `result`, what a lambda returned, with the hash `ds`:
    /// escaped first where `escaped`, then tokenized, parsed and rendered
    /// one level deeper (see `lambda_outcome`).
    pub fn render_lambda_result(
        &self,
        result: &String,
        escaped: bool,
        ds: &Vec<(String, Data)>,
        fuel: usize,
        out: &mut Vec<char>,
    ) -> (r: Option<Result<(), TemplateError>>)
        ensures
            ran(r, lambda_outcome(escaped, result@, entries_view(ds@), self.partials_spec(), fuel as nat), old(out)@, final(out)@),
        decreases fuel, 0int, 0int, 0int,
    {
        if fuel == 0 {
            return None;
        }
        let text = if escaped {
            self.escape_html(result.as_str())
        } else {
            result.clone()
        };
        match try_create_tokens(text.as_str()) {
            None => None,
            Some(tokens) => {
                let nodes = parse_nodes(&tokens);
                self.render_list(nodes.as_slice(), ds, fuel - 1, out)
            },
        }
    }

    /// A section met at the top of a rendering (see `render_open`).
    fn handle_open_section(
        &self,
        key: &String,
        ch: &Vec<Node>,
        inv: bool,
        ds: &Vec<(String, Data)>,
        fuel: usize,
        rv: Result<(), TemplateError>,
        out: &mut Vec<char>,
    ) -> (r: Option<Result<(), TemplateError>>)
        ensures
            ran(
                r,
                render_open(key@, nodes_view(ch@), inv, entries_view(ds@), self.partials_spec(), fuel as nat, err_view(rv)),
                old(out)@,
                final(out)@,
            ),
            !inv && find(entries_view(ds@), key@) == Some(DataView::Lambda) ==> exists|res: Seq<char>|
                ran(
                    r,
                    #[trigger] lambda_outcome(false, res, entries_view(ds@), self.partials_spec(), fuel as nat),
                    old(out)@,
                    final(out)@,
                ),
        decreases fuel, nodes_size(nodes_view(ch@), 0), 4int, 0int,
    {
        let found = find_entry(ds, key);
        let truthy = match found {
            Some(v) => is_section_data_true(v),
            None => false,
        };
        if truthy && !inv {
            let v = found.unwrap();
            let mut sections: Vec<String> = Vec::new();
            sections.push(key.clone());
            assert(names_view(sections@) =~= seq![key@]);
            self.handle_section_node(ch, v, ds, &mut sections, fuel, out)
        } else if !truthy && inv {
            self.handle_inverted_node(ch, ds, fuel, Ok(()), out)
        } else {
            assert(out@ =~= old(out)@ + Seq::<char>::empty());
            Some(rv)
        }
    }

    /// The children of a section whose data is `data` (see
    /// `render_section`). A lambda is handed the section's raw text, and
    /// what it returns is rendered (see `render_lambda_result`).
    fn handle_section_node(
        &self,
        ch: &Vec<Node>,
        data: &Data,
        ds: &Vec<(String, Data)>,
        sections: &mut Vec<String>,
        fuel: usize,
        out: &mut Vec<char>,
    ) -> (r: Option<Result<(), TemplateError>>)
        ensures
            ran(
                r,
                render_section(nodes_view(ch@), data@, entries_view(ds@), names_view(old(sections)@), self.partials_spec(), fuel as nat),
                old(out)@,
                final(out)@,
            ),
            final(sections)@ == old(sections)@,
            data@ is Lambda ==> exists|res: Seq<char>|
                ran(
                    r,
                    #[trigger] lambda_outcome(false, res, entries_view(ds@), self.partials_spec(), fuel as nat),
                    old(out)@,
                    final(out)@,
                ),
        decreases fuel, nodes_size(nodes_view(ch@), 0), 3int, 0int,
    {
        match data {
            Data::Vector(items) => self.handle_section_items(items, ch, fuel, out),
            Data::Lambda(f) => {
                let raw = self.get_section_text(ch);
                let res = f.call(raw);
                let r = self.render_lambda_result(&res, false, ds, fuel, out);
                assert(ran(r, lambda_outcome(false, res@, entries_view(ds@), self.partials_spec(), fuel as nat), old(out)@, out@));
                r
            },
            _ => self.handle_section_children(ch, ds, sections, fuel, out),
        }
    }

    /// The children of a section, once per item of `items` (see
    /// `render_items`).
    #[verifier::loop_isolation(false)]
    fn handle_section_items(&self, items: &Vec<Data>, ch: &Vec<Node>, fuel: usize, out: &mut Vec<char>) -> (r: Option<Result<(), TemplateError>>)
        ensures
            ran(r, render_items(datas_view(items@), 0, nodes_view(ch@), self.partials_spec(), fuel as nat, None), old(out)@, final(out)@),
        decreases fuel, nodes_size(nodes_view(ch@), 0), 2int, 0int,
    {
        let ghost iv = datas_view(items@);
        let ghost cv = nodes_view(ch@);
        let ghost pv = self.partials_spec();
        let ghost start = out@;
        let ghost mut added: Seq<char> = seq![];
        proof {
            lemma_datas_view(items@);
            lemma_nodes_view(ch@);
            lemma_prepend(seq![], seq![], render_items(iv, 0, cv, pv, fuel as nat, None));
            assert(start + added =~= start);
        }
        let mut rv: Result<(), TemplateError> = Ok(());
        let mut j: usize = 0;
        while j < items.len()
            invariant
                iv == datas_view(items@),
                cv == nodes_view(ch@),
                pv == self.partials_spec(),
                iv.len() == items@.len(),
                cv.len() == ch@.len(),
                forall|k: int| 0 <= k < items@.len() ==> #[trigger] iv[k] == data_view(items@[k]),
                j <= items@.len(),
                render_items(iv, 0, cv, pv, fuel as nat, None) is Some ==> out@ == start + added
                    && render_items(iv, 0, cv, pv, fuel as nat, None) == prepend(added, render_items(iv, j as int, cv, pv, fuel as nat, err_view(rv))),
            decreases items@.len() - j,
        {
            assert(render_items(iv, j as int, cv, pv, fuel as nat, err_view(rv)) == if cv.len() == 0 {
                render_items(iv, j + 1, cv, pv, fuel as nat, err_view(rv))
            } else {
                match iv[j as int] {
                    DataView::Hash(h) => match render_with_hash(cv, 0, h, pv, fuel as nat, err_view(rv)) {
                        None => None,
                        Some((o1, e1)) => prepend(o1, render_items(iv, j + 1, cv, pv, fuel as nat, e1)),
                    },
                    other => Some((seq![], Some(ErrorView::UnexpectedDataType(data_text(other))))),
                }
            });
            if ch.len() == 0 {
                j = j + 1;
            } else {
                match &items[j] {
                    Data::Hash(h) => {
                        let ghost e0 = err_view(rv);
                        match self.handle_section_hash(ch, h, fuel, rv, out) {
                            None => {
                                return None;
                            },
                            Some(e1) => {
                                proof {
                                    if render_items(iv, 0, cv, pv, fuel as nat, None) is Some {
                                        let o1 = render_with_hash(cv, 0, entries_view(h@), pv, fuel as nat, e0).unwrap().0;
                                        lemma_prepend(added, o1, render_items(iv, j + 1, cv, pv, fuel as nat, err_view(e1)));
                                        added = added + o1;
                                        assert(out@ =~= start + added);
                                    }
                                }
                                rv = e1;
                            },
                        }
                        j = j + 1;
                    },
                    other => {
                        let text = data_text_of(other);
                        proof {
                            if render_items(iv, 0, cv, pv, fuel as nat, None) is Some {
                                assert(out@ =~= start + added + Seq::<char>::empty());
                            }
                        }
                        return Some(Err(TemplateError::UnexpectedDataType(text)));
                    },
                }
            }
        }
        proof {
            if render_items(iv, 0, cv, pv, fuel as nat, None) is Some {
                assert(out@ =~= start + added);
            }
        }
        Some(rv)
    }

    /// The children of a section rendered with the hash `h`, the error
    /// being that of the last one (see `render_with_hash`).
    #[verifier::loop_isolation(false)]
    fn handle_section_hash(
        &self,
        ch: &Vec<Node>,
        h: &Vec<(String, Data)>,
        fuel: usize,
        rv: Result<(), TemplateError>,
        out: &mut Vec<char>,
    ) -> (r: Option<Result<(), TemplateError>>)
        ensures
            ran(r, render_with_hash(nodes_view(ch@), 0, entries_view(h@), self.partials_spec(), fuel as nat, err_view(rv)), old(out)@, final(out)@),
        decreases fuel, nodes_size(nodes_view(ch@), 0), 1int, 0int,
    {
        let ghost cv = nodes_view(ch@);
        let ghost hv = entries_view(h@);
        let ghost pv = self.partials_spec();
        let ghost e0 = err_view(rv);
        let ghost start = out@;
        let ghost mut added: Seq<char> = seq![];
        proof {
            lemma_nodes_view(ch@);
            lemma_prepend(seq![], seq![], render_with_hash(cv, 0, hv, pv, fuel as nat, e0));
            assert(start + added =~= start);
        }
        let mut rv = rv;
        let mut i: usize = 0;
        while i < ch.len()
            invariant
                cv == nodes_view(ch@),
                hv == entries_view(h@),
                pv == self.partials_spec(),
                cv.len() == ch@.len(),
                forall|k: int| 0 <= k < ch@.len() ==> #[trigger] cv[k] == node_view(ch@[k]),
                i <= ch@.len(),
                render_with_hash(cv, 0, hv, pv, fuel as nat, e0) is Some ==> out@ == start + added
                    && render_with_hash(cv, 0, hv, pv, fuel as nat, e0) == prepend(added, render_with_hash(cv, i as int, hv, pv, fuel as nat, err_view(rv))),
            decreases ch@.len() - i,
        {
            proof {
                lemma_nodes_size_le(cv, i as int);
            }
            match self.handle_node(&ch[i], h, fuel, out) {
                None => {
                    return None;
                },
                Some(e1) => {
                    proof {
                        if render_with_hash(cv, 0, hv, pv, fuel as nat, e0) is Some {
                            let o1 = render_node(cv[i as int], hv, pv, fuel as nat).unwrap().0;
                            lemma_prepend(added, o1, render_with_hash(cv, i + 1, hv, pv, fuel as nat, err_view(e1)));
                            added = added + o1;
                            assert(out@ =~= start + added);
                        }
                    }
                    rv = e1;
                },
            }
            i = i + 1;
        }
        proof {
            if render_with_hash(cv, 0, hv, pv, fuel as nat, e0) is Some {
                assert(out@ =~= start + added);
            }
        }
        Some(rv)
    }

    /// The children of a section with names looked up along the sections
    /// entered (see `render_children`).
    #[verifier::loop_isolation(false)]
    fn handle_section_children(
        &self,
        ch: &Vec<Node>,
        ds: &Vec<(String, Data)>,
        sections: &mut Vec<String>,
        fuel: usize,
        out: &mut Vec<char>,
    ) -> (r: Option<Result<(), TemplateError>>)
        ensures
            ran(
                r,
                render_children(nodes_view(ch@), 0, entries_view(ds@), names_view(old(sections)@), self.partials_spec(), fuel as nat, None),
                old(out)@,
                final(out)@,
            ),
            final(sections)@ == old(sections)@,
            lambda_child(ch@, entries_view(ds@), names_view(old(sections)@)) matches Some(esc) ==> exists|res: Seq<char>|
                ran(
                    r,
                    #[trigger] lambda_outcome(esc, res, entries_view(ds@), self.partials_spec(), fuel as nat),
                    old(out)@,
                    final(out)@,
                ),
        decreases fuel, nodes_size(nodes_view(ch@), 0), 1int, 0int,
    {
        let ghost cv = nodes_view(ch@);
        let ghost dv = entries_view(ds@);
        let ghost pv = self.partials_spec();
        let ghost s0 = sections@;
        let ghost sv = names_view(sections@);
        let ghost start = out@;
        let ghost lam = lambda_child(ch@, entries_view(ds@), names_view(sections@));
        let ghost mut added: Seq<char> = seq![];
        proof {
            lemma_nodes_view(ch@);
            lemma_prepend(seq![], seq![], render_children(cv, 0, dv, sv, pv, fuel as nat, None));
            assert(start + added =~= start);
        }
        let mut rv: Result<(), TemplateError> = Ok(());
        let mut i: usize = 0;
        while i < ch.len()
            invariant
                cv == nodes_view(ch@),
                dv == entries_view(ds@),
                pv == self.partials_spec(),
                cv.len() == ch@.len(),
                forall|k: int| 0 <= k < ch@.len() ==> #[trigger] cv[k] == node_view(ch@[k]),
                i <= ch@.len(),
                i == 0 ==> out@ == start,
                i > 0 ==> (lam matches Some(esc) ==> exists|res: Seq<char>|
                    ran(
                        Some(rv),
                        #[trigger] lambda_outcome(esc, res, dv, pv, fuel as nat),
                        start,
                        out@,
                    )),
                sections@ == s0,
                sv == names_view(sections@),
                render_children(cv, 0, dv, sv, pv, fuel as nat, None) is Some ==> out@ == start + added
                    && render_children(cv, 0, dv, sv, pv, fuel as nat, None) == prepend(
                    added,
                    render_children(cv, i as int, dv, sv, pv, fuel as nat, err_view(rv)),
                ),
            decreases ch@.len() - i,
        {
            proof {
                lemma_nodes_size_step(cv, i as int);
                lemma_nodes_size_le(cv, i as int);
            }
            let ghost before = out@;
            let ghost e0 = err_view(rv);
            let ghost step = child_step(cv[i as int], dv, sv, pv, fuel as nat, e0);
            assert(render_children(cv, i as int, dv, sv, pv, fuel as nat, e0) == match step {
                None => None,
                Some((o1, e1)) => prepend(o1, render_children(cv, i + 1, dv, sv, pv, fuel as nat, e1)),
            });
            let next: Result<(), TemplateError> = match &ch[i] {
                Node::Static(t) => {
                    push_str(out, t);
                    Ok(())
                },
                Node::Value(k, _) => match section_data(k, sections, ds) {
                    Some(v) => match self.handle_unescaped_or_value_node(true, v, k, ds, fuel, out) {
                        None => {
                            return None;
                        },
                        Some(e) => e,
                    },
                    None => {
                        assert(out@ =~= before + Seq::<char>::empty());
                        rv
                    },
                },
                Node::Unescaped(k, _) => match section_data(k, sections, ds) {
                    Some(v) => match self.handle_unescaped_or_value_node(false, v, k, ds, fuel, out) {
                        None => {
                            return None;
                        },
                        Some(e) => e,
                    },
                    None => {
                        assert(out@ =~= before + Seq::<char>::empty());
                        rv
                    },
                },
                Node::Section(k, gch, inv, _, _) => {
                    sections.push(k.clone());
                    assert(names_view(sections@) =~= sv.push(k@));
                    let found = section_data(k, sections, ds);
                    let truthy = match found {
                        Some(v) => is_section_data_true(v),
                        None => false,
                    };
                    let res = if !*inv {
                        if truthy {
                            self.handle_section_node(gch, found.unwrap(), ds, sections, fuel, out)
                        } else {
                            assert(out@ =~= before + Seq::<char>::empty());
                            Some(rv)
                        }
                    } else if !truthy {
                        self.handle_inverted_node(gch, ds, fuel, Ok(()), out)
                    } else {
                        assert(out@ =~= before + Seq::<char>::empty());
                        Some(rv)
                    };
                    let ghost pushed = sections@;
                    sections.pop();
                    assert(sections@ =~= pushed.drop_last());
                    match res {
                        None => {
                            return None;
                        },
                        Some(e) => e,
                    }
                },
                Node::Part(name, _) => match self.handle_partial_file_node(name, ds, fuel, out) {
                    None => {
                        return None;
                    },
                    Some(e) => e,
                },
            };
            proof {
                if render_children(cv, 0, dv, sv, pv, fuel as nat, None) is Some {
                    let o1 = step.unwrap().0;
                    assert(step == Some((o1, err_view(next))));
                    assert(out@ == before + o1);
                    lemma_prepend(added, o1, render_children(cv, i + 1, dv, sv, pv, fuel as nat, err_view(next)));
                    added = added + o1;
                    assert(out@ =~= start + added);
                }
            }
            rv = next;
            i = i + 1;
        }
        proof {
            if render_children(cv, 0, dv, sv, pv, fuel as nat, None) is Some {
                assert(out@ =~= start + added);
            }
        }
        Some(rv)
    }

    /// The children of an inverted section (see `render_inverted`).
    #[verifier::loop_isolation(false)]
    fn handle_inverted_node(
        &self,
        ns: &Vec<Node>,
        ds: &Vec<(String, Data)>,
        fuel: usize,
        rv: Result<(), TemplateError>,
        out: &mut Vec<char>,
    ) -> (r: Option<Result<(), TemplateError>>)
        ensures
            ran(r, render_inverted(nodes_view(ns@), 0, entries_view(ds@), self.partials_spec(), fuel as nat, err_view(rv)), old(out)@, final(out)@),
        decreases fuel, nodes_size(nodes_view(ns@), 0), 1int, 0int,
    {
        let ghost nv = nodes_view(ns@);
        let ghost dv = entries_view(ds@);
        let ghost pv = self.partials_spec();
        let ghost e00 = err_view(rv);
        let ghost start = out@;
        let ghost mut added: Seq<char> = seq![];
        proof {
            lemma_nodes_view(ns@);
            lemma_prepend(seq![], seq![], render_inverted(nv, 0, dv, pv, fuel as nat, e00));
            assert(start + added =~= start);
        }
        let mut rv = rv;
        let mut i: usize = 0;
        while i < ns.len()
            invariant
                nv == nodes_view(ns@),
                dv == entries_view(ds@),
                pv == self.partials_spec(),
                nv.len() == ns@.len(),
                forall|k: int| 0 <= k < ns@.len() ==> #[trigger] nv[k] == node_view(ns@[k]),
                i <= ns@.len(),
                render_inverted(nv, 0, dv, pv, fuel as nat, e00) is Some ==> out@ == start + added
                    && render_inverted(nv, 0, dv, pv, fuel as nat, e00) == prepend(added, render_inverted(nv, i as int, dv, pv, fuel as nat, err_view(rv))),
            decreases ns@.len() - i,
        {
            proof {
                lemma_nodes_size_step(nv, i as int);
                lemma_nodes_size_le(nv, i as int);
            }
            let ghost before = out@;
            let ghost e0 = err_view(rv);
            let ghost step = match nv[i as int] {
                NodeView::Static(t) => Some((t, None)),
                NodeView::Part(name, _) => render_partial(name, dv, pv, fuel as nat),
                NodeView::Section(k, ch, inv, _, _) => render_open(k, ch, inv, dv, pv, fuel as nat, e0),
                _ => Some((seq![], e0)),
            };
            assert(render_inverted(nv, i as int, dv, pv, fuel as nat, e0) == match step {
                None => None,
                Some((o1, e1)) => prepend(o1, render_inverted(nv, i + 1, dv, pv, fuel as nat, e1)),
            });
            let next: Result<(), TemplateError> = match &ns[i] {
                Node::Static(t) => {
                    push_str(out, t);
                    Ok(())
                },
                Node::Part(name, _) => match self.handle_partial_file_node(name, ds, fuel, out) {
                    None => {
                        return None;
                    },
                    Some(e) => e,
                },
                Node::Section(k, ch, inv, _, _) => match self.handle_open_section(k, ch, *inv, ds, fuel, rv, out) {
                    None => {
                        return None;
                    },
                    Some(e) => e,
                },
                _ => {
                    assert(out@ =~= before + Seq::<char>::empty());
                    rv
                },
            };
            proof {
                if render_inverted(nv, 0, dv, pv, fuel as nat, e00) is Some {
                    let o1 = step.unwrap().0;
                    assert(step == Some((o1, err_view(next))));
                    lemma_prepend(added, o1, render_inverted(nv, i + 1, dv, pv, fuel as nat, err_view(next)));
                    added = added + o1;
                    assert(out@ =~= start + added);
                }
            }
            rv = next;
            i = i + 1;
        }
        proof {
            if render_inverted(nv, 0, dv, pv, fuel as nat, e00) is Some {
                assert(out@ =~= start + added);
            }
        }
        Some(rv)
    }

    /// The partial named `name`, rendered with the hash `ds` (see
    /// `render_partial`).
    fn handle_partial_file_node(&self, name: &String, ds: &Vec<(String, Data)>, fuel: usize, out: &mut Vec<char>) -> (r: Option<Result<(), TemplateError>>)
        ensures
            ran(r, render_partial(name@, entries_view(ds@), self.partials_spec(), fuel as nat), old(out)@, final(out)@),
        decreases fuel, 0int, 0int, 0int,
    {
        if fuel == 0 {
            return None;
        }
        match find_partial_entry(&self.partials, name) {
            None => {
                assert(out@ =~= old(out)@ + Seq::<char>::empty());
                Some(Ok(()))
            },
            Some(Partial::Unreadable(msg)) => {
                let mut cs = chars_of(msg.as_str());
                append_chars(&mut cs, &[':', ' ']);
                let ns = chars_of(name.as_str());
                append_chars(&mut cs, ns.as_slice());
                assert(cs@ =~= msg@ + seq![':', ' '] + name@);
                assert(out@ =~= old(out)@ + Seq::<char>::empty());
                Some(Err(TemplateError::FileReadError(string_of(cs.as_slice()))))
            },
            Some(Partial::Found(text)) => {
                match try_create_tokens(text.as_str()) {
                    None => None,
                    Some(tokens) => {
                        let nodes = parse_nodes(&tokens);
                        self.render_list(nodes.as_slice(), ds, fuel - 1, out)
                    },
                }
            },
        }
    }
}

/// The raw text of a node: its tag, and for a section the opening tag, the
/// text of its children and the closing tag.
pub open spec fn node_text(n: NodeView) -> Seq<char>
    decreases n, 0int,
{
    match n {
        NodeView::Static(t) => t,
        NodeView::Value(_, tag) => tag,
        NodeView::Section(_, ch, _, open, close) => open + nodes_text(ch, 0) + close,
        NodeView::Unescaped(_, tag) => tag,
        NodeView::Part(_, tag) => tag,
    }
}

/// The raw text of the nodes of `s` from `i` on.
pub open spec fn nodes_text(s: Seq<NodeView>, i: int) -> Seq<char>
    decreases s, s.len() - i,
{
    if i < 0 || i >= s.len() {
        seq![]
    } else {
        node_text(s[i]) + nodes_text(s, i + 1)
    }
}

/// The names of the partials that the nodes of `s` from `i` on include,
/// inside sections too, in order.
pub open spec fn nodes_partials(s: Seq<NodeView>, i: int) -> Seq<Seq<char>>
    decreases s, s.len() - i,
{
    if i < 0 || i >= s.len() {
        seq![]
    } else {
        node_partials(s[i]) + nodes_partials(s, i + 1)
    }
}

pub open spec fn node_partials(n: NodeView) -> Seq<Seq<char>>
    decreases n, 0int,
{
    match n {
        NodeView::Section(_, ch, _, _, _) => nodes_partials(ch, 0),
        NodeView::Part(name, _) => seq![name],
        _ => seq![],
    }
}

/// Appends the raw text of the nodes of `ns` (see `nodes_text`).
fn section_text_into(ns: &[Node], out: &mut Vec<char>)
    ensures
        final(out)@ == old(out)@ + nodes_text(nodes_view(ns@), 0),
    decreases nodes_size(nodes_view(ns@), 0),
{
    let ghost nv = nodes_view(ns@);
    let ghost start = out@;
    proof {
        lemma_nodes_view(ns@);
    }
    let mut i: usize = 0;
    assert(start =~= start + Seq::<char>::empty());
    while i < ns.len()
        invariant
            nv == nodes_view(ns@),
            nv.len() == ns@.len(),
            forall|k: int| 0 <= k < ns@.len() ==> #[trigger] nv[k] == node_view(ns@[k]),
            i <= ns@.len(),
            start + nodes_text(nv, 0) == out@ + nodes_text(nv, i as int),
        decreases ns@.len() - i,
    {
        proof {
            lemma_nodes_size_le(nv, i as int);
        }
        let ghost before = out@;
        match &ns[i] {
            Node::Static(t) => push_str(out, t),
            Node::Value(_, tag) => push_str(out, tag),
            Node::Unescaped(_, tag) => push_str(out, tag),
            Node::Part(_, tag) => push_str(out, tag),
            Node::Section(_, ch, _, open, close) => {
                push_str(out, open);
                section_text_into(ch.as_slice(), out);
                push_str(out, close);
            },
        }
        proof {
            assert(out@ =~= before + node_text(nv[i as int]));
            assert(before + (node_text(nv[i as int]) + nodes_text(nv, i + 1)) =~= out@ + nodes_text(nv, i + 1));
        }
        i = i + 1;
    }
    assert(out@ =~= start + nodes_text(nv, 0));
}

/// Appends the names of the partials the nodes of `ns` include (see
/// `nodes_partials`).
fn partials_into(ns: &[Node], out: &mut Vec<String>)
    ensures
        names_view(final(out)@) == names_view(old(out)@) + nodes_partials(nodes_view(ns@), 0),
    decreases nodes_size(nodes_view(ns@), 0),
{
    let ghost nv = nodes_view(ns@);
    let ghost start = names_view(out@);
    proof {
        lemma_nodes_view(ns@);
    }
    let mut i: usize = 0;
    assert(start =~= start + Seq::<Seq<char>>::empty());
    while i < ns.len()
        invariant
            nv == nodes_view(ns@),
            nv.len() == ns@.len(),
            forall|k: int| 0 <= k < ns@.len() ==> #[trigger] nv[k] == node_view(ns@[k]),
            i <= ns@.len(),
            start + nodes_partials(nv, 0) == names_view(out@) + nodes_partials(nv, i as int),
        decreases ns@.len() - i,
    {
        proof {
            lemma_nodes_size_le(nv, i as int);
        }
        let ghost before = names_view(out@);
        match &ns[i] {
            Node::Part(name, _) => {
                out.push(name.clone());
            },
            Node::Section(_, ch, _, _, _) => {
                partials_into(ch.as_slice(), out);
            },
            _ => {},
        }
        proof {
            assert(names_view(out@) =~= before + node_partials(nv[i as int]));
            assert(before + (node_partials(nv[i as int]) + nodes_partials(nv, i + 1)) =~= names_view(out@)
                + nodes_partials(nv, i + 1));
        }
        i = i + 1;
    }
    assert(names_view(out@) =~= start + nodes_partials(nv, 0));
}

/// The names of the partials the nodes of `nodes` include, inside sections
/// too, in order: those whose text a renderer needs to be given.
pub fn partial_names(nodes: &Vec<Node>) -> (names: Vec<String>)
    ensures
        names_view(names@) == nodes_partials(nodes_view(nodes@), 0),
{
    let mut names: Vec<String> = Vec::new();
    partials_into(nodes.as_slice(), &mut names);
    assert(names_view(names@) =~= nodes_partials(nodes_view(nodes@), 0));
    names
}

impl Template {
    /// A template rendering with the given partials, by name.
    pub fn with_partials(partials: Vec<(String, Partial)>) -> (t: Template)
        ensures
            t.partials_path@ == Seq::<char>::empty(),
            t.partials@ == partials@,
    {
        Template { partials_path: String::new(), partials }
    }

    /// Stores the partial `p` under `name`, ahead of any stored before under
    /// the same name.
    pub fn add_partial(&mut self, name: String, p: Partial)
        ensures
            final(self).partials_path == old(self).partials_path,
            final(self).partials_spec() == seq![(name@, p@)] + old(self).partials_spec(),
    {
        let ghost before = self.partials@;
        self.partials.insert(0, (name, p));
        assert(self.partials_spec() =~= seq![(name@, p@)] + partials_view(before));
    }

    /// The data of `key` inside the sections entered, listed outermost
    /// first: the hashes along the nested path first, the deepest first
    /// (see `lookup`).
    pub fn look_up_section_data<'a, 'b>(&self, key: &String, sections: &Vec<String>, datastore: &'a Vec<(String, Data<'b>)>) -> (r: Option<&'a Data<'b>>)
        ensures
            r matches Some(d) ==> lookup(key@, names_view(sections@), entries_view(datastore@)) == Some(d@),
            r is None ==> lookup(key@, names_view(sections@), entries_view(datastore@)) is None,
    {
        section_data(key, sections, datastore)
    }

    /// `input` with `<`, `>`, `&` and `"` written as HTML entities.
    pub fn escape_html(&self, input: &str) -> (s: String)
        ensures
            s@ == escape_html(input@),
    {
        let cs = chars_of(input);
        let mut out: Vec<char> = Vec::new();
        escape_into(&mut out, cs.as_slice());
        assert(out@ =~= escape_html(input@));
        string_of(out.as_slice())
    }

    /// The raw text between a section's tags, as it was written:
    /// each child's tag, a nested section with its own tags around its text.
    pub fn get_section_text(&self, children: &Vec<Node>) -> (s: String)
        ensures
            s@ == nodes_text(nodes_view(children@), 0),
    {
        let mut out: Vec<char> = Vec::new();
        section_text_into(children.as_slice(), &mut out);
        assert(out@ =~= nodes_text(nodes_view(children@), 0));
        string_of(out.as_slice())
    }

    /// Renders `nodes` with the hash `data`, appending to `out` what is
    /// written and returning the error met, if any; `None` where the
    /// rendering does not end or a partial cannot be tokenized (see
    /// `render_spec`). Where a lambda is called, what is written rests on
    /// what it returns, and only the lambda's own part is stated (see
    /// `render_lambda_result`).
    pub fn try_render(&self, out: &mut String, data: &Vec<(String, Data)>, nodes: &Vec<Node>) -> (r: Option<Result<(), TemplateError>>)
        ensures
            ran(r, render_spec(nodes_view(nodes@), entries_view(data@), self.partials_spec()), old(out)@, final(out)@),
    {
        let mut buf: Vec<char> = Vec::new();
        let r = self.render_list(nodes.as_slice(), data, usize::MAX, &mut buf);
        assert(Seq::<char>::empty() + buf@ =~= buf@);
        if r.is_some() {
            push_chars(out, buf.as_slice());
        }
        r
    }

    /// Renders `nodes` with the hash `data`, appending to `out` what is
    /// written before the first error, and returning that error, if any.
    /// Where the data holds a lambda and what it returns nests without end
    /// or cannot be tokenized, rendering stops there with no error.
    pub fn render(&self, out: &mut String, data: &Vec<(String, Data)>, nodes: &Vec<Node>) -> (r: Result<(), TemplateError>)
        requires
            render_spec(nodes_view(nodes@), entries_view(data@), self.partials_spec()) is Some
                || !entries_no_lambda(entries_view(data@)),
        ensures
            match render_spec(nodes_view(nodes@), entries_view(data@), self.partials_spec()) {
                Some((o, e)) => final(out)@ == old(out)@ + o && err_view(r) == e,
                None => true,
            },
    {
        match self.try_render(out, data, nodes) {
            Some(r) => r,
            None => Ok(()),
        }
    }

    /// Renders `nodes` with the data of `datastore`, taking its partials
    /// path as this template's.
    pub fn render_data(&mut self, out: &mut String, datastore: &HashBuilder, nodes: &Vec<Node>) -> (r: Result<(), TemplateError>)
        requires
            render_spec(nodes_view(nodes@), entries_view(datastore.data@), old(self).partials_spec()) is Some
                || !entries_no_lambda(entries_view(datastore.data@)),
        ensures
            final(self).partials_path@ == datastore.partials_path@,
            final(self).partials == old(self).partials,
            match render_spec(nodes_view(nodes@), entries_view(datastore.data@), old(self).partials_spec()) {
                Some((o, e)) => final(out)@ == old(out)@ + o && err_view(r) == e,
                None => true,
            },
    {
        self.partials_path = datastore.partials_path.clone();
        self.render(out, &datastore.data, nodes)
    }
}

} // verus!
