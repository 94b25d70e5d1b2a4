//! Properties that hold of every template, every hash of data and every
//! table of partials: what interpolation writes, when sections render,
//! that a template renders part after part, and that escaping leaves no
//! markup behind.

use vstd::prelude::*;
use crate::compiler::{TokenView, TagMatch, TAG_PATTERN, tag_matches, template_tokens, matches_tokens,
    match_tokens, trailing_tokens, text_if_any, tag_token, lemma_matches};
use crate::parser::{NodeView, parse_from, parse_spec, find_close, variable_node, raw_node, wrap_tag};
use crate::text::{has_char, split_on, lemma_split_on_none, lemma_split_on_join};
use crate::data::{DataView, Entries, find};
use crate::template::{Outcome, PartialTable, PartialView, ErrorView, escape_html, escape_char, int_text,
    is_true, render_node, render_nodes, render_items, render_spec, render_inverted, render_open,
    render_section, render_with_hash, render_children, render_partial, find_partial, partial_nodes,
    prepend, lookup, node_size, nodes_size, lemma_nodes_size_step, nested_truthy, nodes_text, node_text, child_step};
use crate::json::{JsonView, json_vector, json_items};

verus! {

/// `c` is one of the characters HTML escaping replaces.
pub open spec fn is_markup(c: char) -> bool {
    c == '<' || c == '>' || c == '&' || c == '"'
}

/// Escaped text holds no `<`, `>` or `"`, and text without markup
/// characters is left as it is.
pub proof fn law_escape_html(s: Seq<char>)
    ensures
        forall|i: int|
            0 <= i < escape_html(s).len() ==> {
                let c = #[trigger] escape_html(s)[i];
                c != '<' && c != '>' && c != '"'
            },
        (forall|i: int| 0 <= i < s.len() ==> !is_markup(#[trigger] s[i])) ==> escape_html(s) == s,
    decreases s.len(),
{
    if s.len() > 0 {
        law_escape_html(s.drop_last());
        let e = escape_html(s.drop_last());
        let c = s.last();
        let t = escape_char(c);
        assert(escape_html(s) == e + t);
        assert forall|i: int| 0 <= i < escape_html(s).len() implies {
            let d = #[trigger] escape_html(s)[i];
            d != '<' && d != '>' && d != '"'
        } by {
            if i < e.len() {
                assert(escape_html(s)[i] == e[i]);
            } else {
                assert(escape_html(s)[i] == t[i - e.len()]);
            }
        }
        if forall|i: int| 0 <= i < s.len() ==> !is_markup(#[trigger] s[i]) {
            assert forall|i: int| 0 <= i < s.drop_last().len() implies !is_markup(
                #[trigger] s.drop_last()[i],
            ) by {
                assert(s.drop_last()[i] == s[i]);
            }
            assert(!is_markup(s[s.len() - 1]));
            assert(e + t =~= s);
        }
    } else {
        assert(escape_html(s) =~= s);
    }
}

/// `{{name}}` writes the string bound to `name` HTML-escaped, and
/// `{{&name}}` / `{{{name}}}` write it as it is.
pub proof fn law_string_interpolation(k: Seq<char>, tag: Seq<char>, s: Seq<char>, ds: Entries, ps: PartialTable, fuel: nat)
    requires
        find(ds, k) == Some(DataView::Strng(s)),
    ensures
        render_node(NodeView::Value(k, tag), ds, ps, fuel) == Some((escape_html(s), None::<crate::template::ErrorView>)),
        render_node(NodeView::Unescaped(k, tag), ds, ps, fuel) == Some((s, None::<crate::template::ErrorView>)),
{
}

/// An integer is written as its decimal text, escaped or not.
pub proof fn law_integer_interpolation(k: Seq<char>, tag: Seq<char>, i: int, ds: Entries, ps: PartialTable, fuel: nat)
    requires
        find(ds, k) == Some(DataView::Integer(i)),
    ensures
        render_node(NodeView::Value(k, tag), ds, ps, fuel) == Some((int_text(i), None::<crate::template::ErrorView>)),
        render_node(NodeView::Unescaped(k, tag), ds, ps, fuel) == Some((int_text(i), None::<crate::template::ErrorView>)),
{
}

/// A name with no data writes nothing and is no error.
pub proof fn law_context_miss(k: Seq<char>, tag: Seq<char>, ds: Entries, ps: PartialTable, fuel: nat)
    requires
        find(ds, k) is None,
    ensures
        render_node(NodeView::Value(k, tag), ds, ps, fuel) == Some((Seq::<char>::empty(), None::<crate::template::ErrorView>)),
        render_node(NodeView::Unescaped(k, tag), ds, ps, fuel) == Some((Seq::<char>::empty(), None::<crate::template::ErrorView>)),
{
}

/// A section whose name is missing, `false` or an empty list renders
/// nothing; an inverted section renders nothing where the data is truthy,
/// and its children where it is not.
pub proof fn law_section_truthiness(
    k: Seq<char>,
    ch: Seq<NodeView>,
    o: Seq<char>,
    c: Seq<char>,
    ds: Entries,
    ps: PartialTable,
    fuel: nat,
)
    ensures
        !(find(ds, k) matches Some(v) && is_true(v)) ==> render_node(NodeView::Section(k, ch, false, o, c), ds, ps, fuel)
            == Some((Seq::<char>::empty(), None::<crate::template::ErrorView>)),
        (find(ds, k) matches Some(v) && is_true(v)) ==> render_node(NodeView::Section(k, ch, true, o, c), ds, ps, fuel)
            == Some((Seq::<char>::empty(), None::<crate::template::ErrorView>)),
        !(find(ds, k) matches Some(v) && is_true(v)) ==> render_node(NodeView::Section(k, ch, true, o, c), ds, ps, fuel)
            == render_inverted(ch, 0, ds, ps, fuel, None),
{
}

/// A lambda counts as truthy: an inverted section on a lambda renders
/// nothing, and a lambda among the items of a section's vector stops the
/// section with an error naming it.
pub proof fn law_lambda_is_truthy(
    k: Seq<char>,
    ch: Seq<NodeView>,
    o: Seq<char>,
    c: Seq<char>,
    ds: Entries,
    ps: PartialTable,
    fuel: nat,
)
    requires
        find(ds, k) == Some(DataView::Lambda),
    ensures
        is_true(DataView::Lambda),
        render_node(NodeView::Section(k, ch, true, o, c), ds, ps, fuel) == Some(
            (Seq::<char>::empty(), None::<crate::template::ErrorView>),
        ),
        ch.len() > 0 ==> render_items(seq![DataView::Lambda], 0, ch, ps, fuel, None) == Some(
            (Seq::<char>::empty(), Some(ErrorView::UnexpectedDataType(seq!['l', 'a', 'm', 'b', 'd', 'a'])))
        ),
{
}

/// A partial with no text under its name renders nothing; one with text
/// renders that text's nodes with the same data.
pub proof fn law_partials(name: Seq<char>, tag: Seq<char>, ds: Entries, ps: PartialTable, fuel: nat)
    requires
        fuel > 0,
    ensures
        find_partial(ps, name) is None ==> render_node(NodeView::Part(name, tag), ds, ps, fuel) == Some(
            (Seq::<char>::empty(), None::<crate::template::ErrorView>),
        ),
        find_partial(ps, name) matches Some(PartialView::Found(t)) ==> (partial_nodes(t) matches Some(ns)
            ==> render_node(NodeView::Part(name, tag), ds, ps, fuel) == render_nodes(ns, 0, ds, ps, (fuel - 1) as nat)),
{
}

/// A comment followed by anything but text adds no node.
pub proof fn law_comment_adds_nothing(list: Seq<TokenView>, i: int, skip: bool, nodes: Seq<NodeView>)
    requires
        0 <= i,
        i + 1 < list.len(),
        list[i] is Comment,
        !(list[i + 1] is Text),
    ensures
        parse_from(list, i, skip, nodes) == parse_from(list, i + 1, skip, nodes),
{
}

/// Rendering depends only on the nodes from `i` on: two lists that agree
/// from there render alike.
proof fn lemma_render_nodes_suffix(
    s1: Seq<NodeView>,
    i1: int,
    s2: Seq<NodeView>,
    i2: int,
    ds: Entries,
    ps: PartialTable,
    fuel: nat,
)
    requires
        0 <= i1 <= s1.len(),
        0 <= i2 <= s2.len(),
        s1.skip(i1) == s2.skip(i2),
    ensures
        render_nodes(s1, i1, ds, ps, fuel) == render_nodes(s2, i2, ds, ps, fuel),
    decreases s1.len() - i1,
{
    assert(s1.skip(i1).len() == s1.len() - i1 && s2.skip(i2).len() == s2.len() - i2);
    if i1 < s1.len() {
        assert(s1.skip(i1)[0] == s1[i1] && s2.skip(i2)[0] == s2[i2]);
        assert(s1[i1] == s2[i2]);
        assert(s1.skip(i1 + 1) =~= s1.skip(i1).skip(1));
        assert(s2.skip(i2 + 1) =~= s2.skip(i2).skip(1));
        lemma_render_nodes_suffix(s1, i1 + 1, s2, i2 + 1, ds, ps, fuel);
    }
}

/// What rendering `a` then `b` gives: `b` is rendered after `a` where `a`
/// ends without an error.
pub open spec fn then_render(first: Option<Outcome>, second: Option<Outcome>) -> Option<Outcome> {
    match first {
        None => None,
        Some((o, e)) => if e is Some {
            Some((o, e))
        } else {
            prepend(o, second)
        },
    }
}

proof fn lemma_render_concat_from(a: Seq<NodeView>, b: Seq<NodeView>, i: int, ds: Entries, ps: PartialTable, fuel: nat)
    requires
        0 <= i <= a.len(),
    ensures
        render_nodes(a + b, i, ds, ps, fuel) == then_render(render_nodes(a, i, ds, ps, fuel), render_nodes(b, 0, ds, ps, fuel)),
    decreases a.len() - i,
{
    let ab = a + b;
    if i == a.len() {
        assert(ab.skip(i) =~= b.skip(0));
        lemma_render_nodes_suffix(ab, i, b, 0, ds, ps, fuel);
        match render_nodes(b, 0, ds, ps, fuel) {
            Some((o, e)) => {
                assert(Seq::<char>::empty() + o =~= o);
            },
            None => {},
        }
    } else {
        assert(ab[i] == a[i]);
        lemma_render_concat_from(a, b, i + 1, ds, ps, fuel);
        match render_node(a[i], ds, ps, fuel) {
            Some((o1, e1)) => {
                if e1 is None {
                    match render_nodes(a, i + 1, ds, ps, fuel) {
                        Some((o2, e2)) => {
                            if e2 is None {
                                match render_nodes(b, 0, ds, ps, fuel) {
                                    Some((o3, e3)) => {
                                        assert(o1 + (o2 + o3) =~= (o1 + o2) + o3);
                                    },
                                    None => {},
                                }
                            }
                        },
                        None => {},
                    }
                }
            },
            None => {},
        }
    }
}

/// A template renders part after part: rendering `a` followed by `b` is
/// rendering `a`, and then, where `a` ends without an error, `b`.
pub proof fn law_render_concat(a: Seq<NodeView>, b: Seq<NodeView>, ds: Entries, ps: PartialTable)
    ensures
        render_spec(a + b, ds, ps) == then_render(render_spec(a, ds, ps), render_spec(b, ds, ps)),
{
    lemma_render_concat_from(a, b, 0, ds, ps, crate::template::max_depth());
}

/// Text renders as it is.
pub proof fn law_static_text(t: Seq<char>, ds: Entries, ps: PartialTable)
    ensures
        render_spec(seq![NodeView::Static(t)], ds, ps) == Some((t, None::<crate::template::ErrorView>)),
{
    let ns = seq![NodeView::Static(t)];
    let f = crate::template::max_depth();
    assert(ns.len() == 1 && ns[0] == NodeView::Static(t));
    assert(render_node(ns[0], ds, ps, f) == Some((t, None::<crate::template::ErrorView>)));
    assert(render_nodes(ns, 1, ds, ps, f) == Some(
        (Seq::<char>::empty(), None::<crate::template::ErrorView>),
    ));
    assert(t + Seq::<char>::empty() =~= t);
}

proof fn lemma_items_suffix(
    s1: Seq<DataView>,
    j1: int,
    s2: Seq<DataView>,
    j2: int,
    ch: Seq<NodeView>,
    ps: PartialTable,
    fuel: nat,
    rv: Option<crate::template::ErrorView>,
)
    requires
        0 <= j1 <= s1.len(),
        0 <= j2 <= s2.len(),
        s1.skip(j1) == s2.skip(j2),
    ensures
        render_items(s1, j1, ch, ps, fuel, rv) == render_items(s2, j2, ch, ps, fuel, rv),
    decreases s1.len() - j1,
{
    assert(s1.skip(j1).len() == s1.len() - j1 && s2.skip(j2).len() == s2.len() - j2);
    if j1 < s1.len() {
        assert(s1.skip(j1)[0] == s1[j1] && s2.skip(j2)[0] == s2[j2]);
        assert(s1[j1] == s2[j2]);
        assert(s1.skip(j1 + 1) =~= s1.skip(j1).skip(1));
        assert(s2.skip(j2 + 1) =~= s2.skip(j2).skip(1));
        if ch.len() == 0 {
            lemma_items_suffix(s1, j1 + 1, s2, j2 + 1, ch, ps, fuel, rv);
        } else {
            match s1[j1] {
                DataView::Hash(h) => {
                    match crate::template::render_with_hash(ch, 0, h, ps, fuel, rv) {
                        Some((o1, e1)) => {
                            lemma_items_suffix(s1, j1 + 1, s2, j2 + 1, ch, ps, fuel, e1);
                        },
                        None => {},
                    }
                },
                _ => {},
            }
        }
    }
}

proof fn lemma_items_concat_from(
    a: Seq<DataView>,
    b: Seq<DataView>,
    j: int,
    ch: Seq<NodeView>,
    ps: PartialTable,
    fuel: nat,
    rv: Option<crate::template::ErrorView>,
)
    requires
        0 <= j <= a.len(),
        forall|k: int| 0 <= k < a.len() ==> #[trigger] a[k] is Hash,
    ensures
        render_items(a + b, j, ch, ps, fuel, rv) == match render_items(a, j, ch, ps, fuel, rv) {
            None => None,
            Some((o, e)) => prepend(o, render_items(b, 0, ch, ps, fuel, e)),
        },
    decreases a.len() - j,
{
    let ab = a + b;
    if j == a.len() {
        assert(ab.skip(j) =~= b.skip(0));
        lemma_items_suffix(ab, j, b, 0, ch, ps, fuel, rv);
        match render_items(b, 0, ch, ps, fuel, rv) {
            Some((o, e)) => {
                assert(Seq::<char>::empty() + o =~= o);
            },
            None => {},
        }
    } else {
        assert(ab[j] == a[j]);
        assert(a[j] is Hash);
        if ch.len() == 0 {
            lemma_items_concat_from(a, b, j + 1, ch, ps, fuel, rv);
        }
        if ch.len() > 0 {
            match a[j] {
                DataView::Hash(h) => {
                    match crate::template::render_with_hash(ch, 0, h, ps, fuel, rv) {
                        Some((o1, e1)) => {
                            lemma_items_concat_from(a, b, j + 1, ch, ps, fuel, e1);
                            match render_items(a, j + 1, ch, ps, fuel, e1) {
                                Some((o2, e2)) => {
                                    match render_items(b, 0, ch, ps, fuel, e2) {
                                        Some((o3, e3)) => {
                                            assert(o1 + (o2 + o3) =~= (o1 + o2) + o3);
                                        },
                                        None => {},
                                    }
                                },
                                None => {},
                            }
                        },
                        None => {},
                    }
                },
                _ => {},
            }
        }
    }
}

/// A list section renders item after item: for a list whose first items
/// `a` are hashes, rendering over `a` followed by `b` is rendering over `a`,
/// then over `b` carrying on the error reported.
pub proof fn law_list_items_in_turn(
    a: Seq<DataView>,
    b: Seq<DataView>,
    ch: Seq<NodeView>,
    ps: PartialTable,
    fuel: nat,
    rv: Option<crate::template::ErrorView>,
)
    requires
        forall|k: int| 0 <= k < a.len() ==> #[trigger] a[k] is Hash,
    ensures
        render_items(a + b, 0, ch, ps, fuel, rv) == match render_items(a, 0, ch, ps, fuel, rv) {
            None => None,
            Some((o, e)) => prepend(o, render_items(b, 0, ch, ps, fuel, e)),
        },
{
    lemma_items_concat_from(a, b, 0, ch, ps, fuel, rv);
}

proof fn mono_nodes(ns: Seq<NodeView>, i: int, ds: Entries, ps: PartialTable, f1: nat, f2: nat)
    requires
        f1 <= f2,
        render_nodes(ns, i, ds, ps, f1) is Some,
    ensures
        render_nodes(ns, i, ds, ps, f2) == render_nodes(ns, i, ds, ps, f1),
    decreases f1, nodes_size(ns, i), 1int, 0int,
{
    if 0 <= i < ns.len() {
        lemma_nodes_size_step(ns, i);
        mono_node(ns[i], ds, ps, f1, f2);
        match render_node(ns[i], ds, ps, f1) {
            Some((o1, e1)) => {
                if e1 is None {
                    mono_nodes(ns, i + 1, ds, ps, f1, f2);
                }
            },
            None => {},
        }
    }
}

proof fn mono_node(n: NodeView, ds: Entries, ps: PartialTable, f1: nat, f2: nat)
    requires
        f1 <= f2,
        render_node(n, ds, ps, f1) is Some,
    ensures
        render_node(n, ds, ps, f2) == render_node(n, ds, ps, f1),
    decreases f1, node_size(n), 0int, 0int,
{
    match n {
        NodeView::Section(k, ch, inv, _, _) => mono_open(k, ch, inv, ds, ps, f1, f2, None),
        NodeView::Part(name, _) => mono_partial(name, ds, ps, f1, f2),
        _ => {},
    }
}

proof fn mono_open(
    k: Seq<char>,
    ch: Seq<NodeView>,
    inv: bool,
    ds: Entries,
    ps: PartialTable,
    f1: nat,
    f2: nat,
    rv: Option<ErrorView>,
)
    requires
        f1 <= f2,
        render_open(k, ch, inv, ds, ps, f1, rv) is Some,
    ensures
        render_open(k, ch, inv, ds, ps, f2, rv) == render_open(k, ch, inv, ds, ps, f1, rv),
    decreases f1, nodes_size(ch, 0), 4int, 0int,
{
    let found = find(ds, k);
    let truthy = match found {
        Some(v) => is_true(v),
        None => false,
    };
    if truthy && !inv {
        mono_section(ch, found->0, ds, seq![k], ps, f1, f2);
    } else if !truthy && inv {
        mono_inverted(ch, 0, ds, ps, f1, f2, None);
    }
}

proof fn mono_section(
    ch: Seq<NodeView>,
    data: DataView,
    ds: Entries,
    sections: Seq<Seq<char>>,
    ps: PartialTable,
    f1: nat,
    f2: nat,
)
    requires
        f1 <= f2,
        render_section(ch, data, ds, sections, ps, f1) is Some,
    ensures
        render_section(ch, data, ds, sections, ps, f2) == render_section(ch, data, ds, sections, ps, f1),
    decreases f1, nodes_size(ch, 0), 3int, 0int,
{
    match data {
        DataView::Vector(items) => mono_items(items, 0, ch, ps, f1, f2, None),
        _ => mono_children(ch, 0, ds, sections, ps, f1, f2, None),
    }
}

proof fn mono_items(
    items: Seq<DataView>,
    j: int,
    ch: Seq<NodeView>,
    ps: PartialTable,
    f1: nat,
    f2: nat,
    rv: Option<ErrorView>,
)
    requires
        f1 <= f2,
        render_items(items, j, ch, ps, f1, rv) is Some,
    ensures
        render_items(items, j, ch, ps, f2, rv) == render_items(items, j, ch, ps, f1, rv),
    decreases f1, nodes_size(ch, 0), 2int, items.len() - j,
{
    if 0 <= j < items.len() {
        if ch.len() == 0 {
            mono_items(items, j + 1, ch, ps, f1, f2, rv);
        } else {
            match items[j] {
                DataView::Hash(h) => {
                    mono_with_hash(ch, 0, h, ps, f1, f2, rv);
                    match render_with_hash(ch, 0, h, ps, f1, rv) {
                        Some((o1, e1)) => {
                            mono_items(items, j + 1, ch, ps, f1, f2, e1);
                        },
                        None => {},
                    }
                },
                _ => {},
            }
        }
    }
}

proof fn mono_with_hash(
    ch: Seq<NodeView>,
    i: int,
    h: Entries,
    ps: PartialTable,
    f1: nat,
    f2: nat,
    rv: Option<ErrorView>,
)
    requires
        f1 <= f2,
        render_with_hash(ch, i, h, ps, f1, rv) is Some,
    ensures
        render_with_hash(ch, i, h, ps, f2, rv) == render_with_hash(ch, i, h, ps, f1, rv),
    decreases f1, nodes_size(ch, i), 1int, 0int,
{
    if 0 <= i < ch.len() {
        lemma_nodes_size_step(ch, i);
        mono_node(ch[i], h, ps, f1, f2);
        match render_node(ch[i], h, ps, f1) {
            Some((o1, e1)) => {
                mono_with_hash(ch, i + 1, h, ps, f1, f2, e1);
            },
            None => {},
        }
    }
}

proof fn mono_children(
    ch: Seq<NodeView>,
    i: int,
    ds: Entries,
    sections: Seq<Seq<char>>,
    ps: PartialTable,
    f1: nat,
    f2: nat,
    rv: Option<ErrorView>,
)
    requires
        f1 <= f2,
        render_children(ch, i, ds, sections, ps, f1, rv) is Some,
    ensures
        render_children(ch, i, ds, sections, ps, f2, rv) == render_children(ch, i, ds, sections, ps, f1, rv),
    decreases f1, nodes_size(ch, i), 1int, 0int,
{
    if 0 <= i < ch.len() {
        lemma_nodes_size_step(ch, i);
        mono_step(ch[i], ds, sections, ps, f1, f2, rv);
        match crate::template::child_step(ch[i], ds, sections, ps, f1, rv) {
            Some((o1, e1)) => {
                mono_children(ch, i + 1, ds, sections, ps, f1, f2, e1);
            },
            None => {},
        }
    }
}

proof fn mono_step(
    n: NodeView,
    ds: Entries,
    sections: Seq<Seq<char>>,
    ps: PartialTable,
    f1: nat,
    f2: nat,
    rv: Option<ErrorView>,
)
    requires
        f1 <= f2,
        crate::template::child_step(n, ds, sections, ps, f1, rv) is Some,
    ensures
        crate::template::child_step(n, ds, sections, ps, f2, rv) == crate::template::child_step(n, ds, sections, ps, f1, rv),
    decreases f1, node_size(n), 0int, 0int,
{
    match n {
        NodeView::Section(k, gch, inv, _, _) => if !inv {
            if nested_truthy(k, sections, ds) {
                let s2 = sections.push(k);
                mono_section(gch, lookup(k, s2, ds)->0, ds, s2, ps, f1, f2);
            }
        } else if !nested_truthy(k, sections, ds) {
            mono_inverted(gch, 0, ds, ps, f1, f2, None);
        },
        NodeView::Part(name, _) => mono_partial(name, ds, ps, f1, f2),
        _ => {},
    }
}

proof fn mono_inverted(ns: Seq<NodeView>, i: int, ds: Entries, ps: PartialTable, f1: nat, f2: nat, rv: Option<ErrorView>)
    requires
        f1 <= f2,
        render_inverted(ns, i, ds, ps, f1, rv) is Some,
    ensures
        render_inverted(ns, i, ds, ps, f2, rv) == render_inverted(ns, i, ds, ps, f1, rv),
    decreases f1, nodes_size(ns, i), 1int, 0int,
{
    if 0 <= i < ns.len() {
        lemma_nodes_size_step(ns, i);
        let step: Option<Outcome> = match ns[i] {
            NodeView::Static(t) => Some((t, None)),
            NodeView::Part(name, _) => {
                mono_partial(name, ds, ps, f1, f2);
                render_partial(name, ds, ps, f1)
            },
            NodeView::Section(k, ch, inv, _, _) => {
                mono_open(k, ch, inv, ds, ps, f1, f2, rv);
                render_open(k, ch, inv, ds, ps, f1, rv)
            },
            _ => Some((seq![], rv)),
        };
        match step {
            Some((o1, e1)) => {
                mono_inverted(ns, i + 1, ds, ps, f1, f2, e1);
            },
            None => {},
        }
    }
}

proof fn mono_partial(name: Seq<char>, ds: Entries, ps: PartialTable, f1: nat, f2: nat)
    requires
        f1 <= f2,
        render_partial(name, ds, ps, f1) is Some,
    ensures
        render_partial(name, ds, ps, f2) == render_partial(name, ds, ps, f1),
    decreases f1, 0int, 0int, 0int,
{
    if f1 > 0 {
        match find_partial(ps, name) {
            Some(PartialView::Found(text)) => match partial_nodes(text) {
                Some(ns) => {
                    mono_nodes(ns, 0, ds, ps, (f1 - 1) as nat, (f2 - 1) as nat);
                },
                None => {},
            },
            _ => {},
        }
    }
}

/// Rendering that ends gives the same outcome however deep partials are
/// allowed to nest beyond what it needed: a larger bound changes nothing.
pub proof fn law_depth_bound_irrelevant(ns: Seq<NodeView>, ds: Entries, ps: PartialTable, f1: nat, f2: nat)
    requires
        f1 <= f2,
        render_nodes(ns, 0, ds, ps, f1) is Some,
    ensures
        render_nodes(ns, 0, ds, ps, f2) == render_nodes(ns, 0, ds, ps, f1),
{
    mono_nodes(ns, 0, ds, ps, f1, f2);
}

/// A dotted name is shorthand for sections: `{{a.b}}` is the node of
/// `{{#a}}{{b}}{{/a}}`, and `{{{a.b}}}` that of `{{#a}}{{{b}}}{{/a}}`.
pub proof fn law_dotted_name_is_section(a: Seq<char>, b: Seq<char>, raw: Seq<char>)
    requires
        !has_char(a, '.'),
        !has_char(b, '.'),
    ensures
        variable_node(a.push('.') + b, raw) == NodeView::Section(
            a,
            seq![NodeView::Value(b, wrap_tag(seq![], b, seq!['}', '}']))],
            false,
            wrap_tag(seq!['#'], a, seq!['}', '}']),
            wrap_tag(seq!['/'], a, seq!['}', '}']),
        ),
        !has_char(raw, '&') ==> raw_node(a.push('.') + b, raw) == NodeView::Section(
            a,
            seq![NodeView::Unescaped(b, wrap_tag(seq!['{'], b, seq!['}', '}', '}']))],
            false,
            wrap_tag(seq!['#'], a, seq!['}', '}']),
            wrap_tag(seq!['/'], a, seq!['}', '}']),
        ),
{
    let name = a.push('.') + b;
    lemma_split_on_join(a, b, '.');
    lemma_split_on_none(a, '.');
    lemma_split_on_none(b, '.');
    let parts = split_on(name, '.');
    assert(parts =~= seq![a, b]);
    assert(name[a.len() as int] == '.');
    assert(has_char(name, '.'));
    assert(parts.skip(1) =~= seq![b]);
    assert(crate::parser::dot_node(seq![b], false, false) == NodeView::Value(b, wrap_tag(seq![], b, seq!['}', '}'])));
    assert(crate::parser::dot_node(seq![b], true, false) == NodeView::Unescaped(
        b,
        wrap_tag(seq!['{'], b, seq!['}', '}', '}']),
    ));
}

/// A section's hash is where names inside it are looked up first: where
/// `k` is bound to a hash that binds `key`, looking `key` up inside the
/// section `k` finds that value.
pub proof fn law_section_hash_is_context(k: Seq<char>, key: Seq<char>, h: Entries, v: DataView, ds: Entries)
    requires
        find(ds, k) == Some(DataView::Hash(h)),
        find(h, key) == Some(v),
    ensures
        lookup(key, seq![k], ds) == Some(v),
{
    let sections = seq![k];
    assert(crate::template::nested_hashes(h, sections, 1, seq![h]) == seq![h]);
    assert(crate::template::nested_hashes(ds, sections, 0, seq![]) == seq![h]);
    assert(crate::template::top_hashes(ds, sections, 1, seq![h]) == (seq![h], None::<DataView>));
    assert(Seq::<Entries>::empty().push(h) =~= seq![h]);
    assert(crate::template::top_hashes(ds, sections, 0, seq![]) == (seq![h], None::<DataView>));
    assert(seq![h] + seq![h] =~= seq![h, h]);
    assert(seq![h, h].last() == h);
}

/// A section nested in another renders nothing where its data is missing,
/// `false` or an empty list, and an inverted one renders nothing where its
/// data is truthy; either way the error so far stands.
pub proof fn law_nested_section_truthiness(
    k: Seq<char>,
    ch: Seq<NodeView>,
    o: Seq<char>,
    c: Seq<char>,
    ds: Entries,
    sections: Seq<Seq<char>>,
    ps: PartialTable,
    fuel: nat,
    rv: Option<ErrorView>,
)
    ensures
        !nested_truthy(k, sections, ds) ==> render_children(seq![NodeView::Section(k, ch, false, o, c)], 0, ds, sections, ps, fuel, rv)
            == Some((Seq::<char>::empty(), rv)),
        nested_truthy(k, sections, ds) ==> render_children(seq![NodeView::Section(k, ch, true, o, c)], 0, ds, sections, ps, fuel, rv)
            == Some((Seq::<char>::empty(), rv)),
{
    let n1 = seq![NodeView::Section(k, ch, false, o, c)];
    let n2 = seq![NodeView::Section(k, ch, true, o, c)];
    assert(n1[0] == NodeView::Section(k, ch, false, o, c) && n2[0] == NodeView::Section(k, ch, true, o, c));
    if !nested_truthy(k, sections, ds) {
        assert(crate::template::child_step(n1[0], ds, sections, ps, fuel, rv) == Some((Seq::<char>::empty(), rv)));
    } else {
        assert(crate::template::child_step(n2[0], ds, sections, ps, fuel, rv) == Some((Seq::<char>::empty(), rv)));
    }
    assert(render_children(n1, 1, ds, sections, ps, fuel, rv) == Some((Seq::<char>::empty(), rv)));
    assert(render_children(n2, 1, ds, sections, ps, fuel, rv) == Some((Seq::<char>::empty(), rv)));
    assert(Seq::<char>::empty() + Seq::<char>::empty() =~= Seq::<char>::empty());
}

proof fn lemma_children_suffix(
    s1: Seq<NodeView>,
    i1: int,
    s2: Seq<NodeView>,
    i2: int,
    ds: Entries,
    sections: Seq<Seq<char>>,
    ps: PartialTable,
    fuel: nat,
    rv: Option<ErrorView>,
)
    requires
        0 <= i1 <= s1.len(),
        0 <= i2 <= s2.len(),
        s1.skip(i1) == s2.skip(i2),
    ensures
        render_children(s1, i1, ds, sections, ps, fuel, rv) == render_children(s2, i2, ds, sections, ps, fuel, rv),
    decreases s1.len() - i1,
{
    assert(s1.skip(i1).len() == s1.len() - i1 && s2.skip(i2).len() == s2.len() - i2);
    if i1 < s1.len() {
        assert(s1.skip(i1)[0] == s1[i1] && s2.skip(i2)[0] == s2[i2]);
        assert(s1[i1] == s2[i2]);
        assert(s1.skip(i1 + 1) =~= s1.skip(i1).skip(1));
        assert(s2.skip(i2 + 1) =~= s2.skip(i2).skip(1));
        match crate::template::child_step(s1[i1], ds, sections, ps, fuel, rv) {
            Some((o1, e1)) => lemma_children_suffix(s1, i1 + 1, s2, i2 + 1, ds, sections, ps, fuel, e1),
            None => {},
        }
    }
}

proof fn lemma_children_concat_from(
    a: Seq<NodeView>,
    b: Seq<NodeView>,
    i: int,
    ds: Entries,
    sections: Seq<Seq<char>>,
    ps: PartialTable,
    fuel: nat,
    rv: Option<ErrorView>,
)
    requires
        0 <= i <= a.len(),
    ensures
        render_children(a + b, i, ds, sections, ps, fuel, rv) == match render_children(a, i, ds, sections, ps, fuel, rv) {
            None => None,
            Some((o, e)) => prepend(o, render_children(b, 0, ds, sections, ps, fuel, e)),
        },
    decreases a.len() - i,
{
    let ab = a + b;
    if i == a.len() {
        assert(ab.skip(i) =~= b.skip(0));
        lemma_children_suffix(ab, i, b, 0, ds, sections, ps, fuel, rv);
        match render_children(b, 0, ds, sections, ps, fuel, rv) {
            Some((o, e)) => {
                assert(Seq::<char>::empty() + o =~= o);
            },
            None => {},
        }
    } else {
        assert(ab[i] == a[i]);
        match crate::template::child_step(a[i], ds, sections, ps, fuel, rv) {
            Some((o1, e1)) => {
                lemma_children_concat_from(a, b, i + 1, ds, sections, ps, fuel, e1);
                match render_children(a, i + 1, ds, sections, ps, fuel, e1) {
                    Some((o2, e2)) => match render_children(b, 0, ds, sections, ps, fuel, e2) {
                        Some((o3, e3)) => {
                            assert(o1 + (o2 + o3) =~= (o1 + o2) + o3);
                        },
                        None => {},
                    },
                    None => {},
                }
            },
            None => {},
        }
    }
}

/// Inside a section, the nodes after a nested section are looked up in the
/// same sections as the nodes before it: rendering the children `a`
/// followed by `b` is rendering `a`, then `b` in the same sections, carrying
/// on the error reported.
pub proof fn law_children_in_turn(
    a: Seq<NodeView>,
    b: Seq<NodeView>,
    ds: Entries,
    sections: Seq<Seq<char>>,
    ps: PartialTable,
    fuel: nat,
    rv: Option<ErrorView>,
)
    ensures
        render_children(a + b, 0, ds, sections, ps, fuel, rv) == match render_children(a, 0, ds, sections, ps, fuel, rv) {
            None => None,
            Some((o, e)) => prepend(o, render_children(b, 0, ds, sections, ps, fuel, e)),
        },
{
    lemma_children_concat_from(a, b, 0, ds, sections, ps, fuel, rv);
}

proof fn lemma_find_close_shift(l1: Seq<TokenView>, k1: int, l2: Seq<TokenView>, k2: int, name: Seq<char>, depth: nat)
    requires
        0 <= k1 <= l1.len(),
        0 <= k2 <= l2.len(),
        l1.skip(k1) == l2.skip(k2),
    ensures
        match find_close(l1, k1, name, depth) {
            Some(j1) => find_close(l2, k2, name, depth) == Some(j1 - k1 + k2),
            None => find_close(l2, k2, name, depth) is None,
        },
    decreases l1.len() - k1,
{
    assert(l1.skip(k1).len() == l1.len() - k1 && l2.skip(k2).len() == l2.len() - k2);
    if k1 < l1.len() {
        assert(l1.skip(k1)[0] == l1[k1] && l2.skip(k2)[0] == l2[k2]);
        assert(l1.skip(k1 + 1) =~= l1.skip(k1).skip(1));
        assert(l2.skip(k2 + 1) =~= l2.skip(k2).skip(1));
        match l1[k1] {
            TokenView::OTag(title, _, _) => lemma_find_close_shift(
                l1,
                k1 + 1,
                l2,
                k2 + 1,
                name,
                if title == name {
                    depth + 1
                } else {
                    depth
                },
            ),
            TokenView::CTag(title, _) => {
                if title == name && depth == 1 {
                } else if title == name && depth > 1 {
                    lemma_find_close_shift(l1, k1 + 1, l2, k2 + 1, name, (depth - 1) as nat);
                } else {
                    lemma_find_close_shift(l1, k1 + 1, l2, k2 + 1, name, depth);
                }
            },
            _ => lemma_find_close_shift(l1, k1 + 1, l2, k2 + 1, name, depth),
        }
    }
}

/// Parsing depends only on the tokens from `i` on.
proof fn lemma_parse_from_shift(l1: Seq<TokenView>, i1: int, l2: Seq<TokenView>, i2: int, skip: bool, nodes: Seq<NodeView>)
    requires
        0 <= i1 <= l1.len(),
        0 <= i2 <= l2.len(),
        l1.skip(i1) == l2.skip(i2),
    ensures
        parse_from(l1, i1, skip, nodes) == parse_from(l2, i2, skip, nodes),
    decreases l1.len() - i1,
{
    assert(l1.skip(i1).len() == l1.len() - i1 && l2.skip(i2).len() == l2.len() - i2);
    if i1 < l1.len() {
        assert(l1.skip(i1)[0] == l1[i1] && l2.skip(i2)[0] == l2[i2]);
        assert(l1.skip(i1 + 1) =~= l1.skip(i1).skip(1));
        assert(l2.skip(i2 + 1) =~= l2.skip(i2).skip(1));
        match l1[i1] {
            TokenView::Text(t) => lemma_parse_from_shift(
                l1, i1 + 1, l2, i2 + 1, crate::parser::status_after_text(t, skip), nodes.push(NodeView::Static(t))),
            TokenView::Variable(n, r) => lemma_parse_from_shift(l1, i1 + 1, l2, i2 + 1, skip, nodes.push(variable_node(n, r))),
            TokenView::Raw(n, r) => lemma_parse_from_shift(l1, i1 + 1, l2, i2 + 1, skip, nodes.push(raw_node(n, r))),
            TokenView::Partial(n, r) => lemma_parse_from_shift(l1, i1 + 1, l2, i2 + 1, skip, nodes.push(NodeView::Part(n, r))),
            TokenView::CTag(_, _) => lemma_parse_from_shift(l1, i1 + 1, l2, i2 + 1, skip, nodes),
            TokenView::OTag(name, inverted, raw) => {
                lemma_find_close_shift(l1, i1 + 1, l2, i2 + 1, name, 1);
                crate::parser::lemma_find_close_range(l1, i1 + 1, name, 1);
                crate::parser::lemma_find_close_range(l2, i2 + 1, name, 1);
                match find_close(l1, i1 + 1, name, 1) {
                    Some(j1) => {
                        let j2 = j1 - i1 + i2;
                        assert(l1.subrange(i1 + 1, j1) =~= l2.subrange(i2 + 1, j2)) by {
                            assert forall|x: int| 0 <= x < j1 - i1 - 1 implies #[trigger] l1.subrange(i1 + 1, j1)[x] == l2.subrange(i2 + 1, j2)[x] by {
                                assert(l1.skip(i1)[x + 1] == l2.skip(i2)[x + 1]);
                            }
                        }
                        assert(i1 + 1 <= j1 < l1.len());
                        assert(l1.skip(i1)[j1 - i1] == l1[j1]);
                        assert(l2.skip(i2)[j1 - i1] == l2[j2]);
                        assert(l1[j1] == l2[j2]);
                        assert(l1.skip(j1) =~= l2.skip(j2)) by {
                            assert forall|x: int| 0 <= x < l1.len() - j1 implies #[trigger] l1.skip(j1)[x] == l2.skip(j2)[x] by {
                                assert(l1.skip(i1)[j1 - i1 + x] == l2.skip(i2)[j1 - i1 + x]);
                                assert(l1.skip(i1)[j1 - i1 + x] == l1[j1 + x]);
                                assert(l2.skip(i2)[j1 - i1 + x] == l2[j2 + x]);
                            }
                        }
                        let children = parse_spec(l1.subrange(i1 + 1, j1));
                        let close = match l1[j1] {
                            TokenView::CTag(_, c) => c,
                            _ => seq![],
                        };
                        lemma_parse_from_shift(
                            l1, j1, l2, j2, skip, nodes.push(NodeView::Section(name, children, inverted, raw, close)));
                    },
                    None => {},
                }
            },
            TokenView::Comment => {
                if i1 + 1 < l1.len() {
                    assert(l1.skip(i1)[1] == l1[i1 + 1]);
                    assert(l2.skip(i2)[1] == l2[i2 + 1]);
                    assert(l1[i1 + 1] == l2[i2 + 1]);
                    let (s2, n2) = crate::parser::comment_step(l1[i1 + 1], skip, nodes);
                    lemma_parse_from_shift(l1, i1 + 1, l2, i2 + 1, s2, n2);
                }
            },
        }
    }
}

/// A closing tag with no open section is ignored: parsing it followed by
/// `rest` is parsing `rest`.
pub proof fn law_stray_closing_tag_ignored(n: Seq<char>, t: Seq<char>, rest: Seq<TokenView>)
    ensures
        parse_spec(seq![TokenView::CTag(n, t)] + rest) == parse_spec(rest),
{
    let l = seq![TokenView::CTag(n, t)] + rest;
    assert(l[0] == TokenView::CTag(n, t));
    assert(l.skip(1) =~= rest.skip(0));
    lemma_parse_from_shift(l, 1, rest, 0, false, seq![]);
}

/// HTML entities turned back into characters, scanning from the front:
/// `&lt;`, `&gt;`, `&quot;` and `&amp;` become `<`, `>`, `"` and `&`; every
/// other character is kept.
pub open spec fn unescape_html(t: Seq<char>) -> Seq<char>
    decreases t.len(),
{
    if t.len() == 0 {
        seq![]
    } else if t.len() >= 4 && t.take(4) == seq!['&', 'l', 't', ';'] {
        seq!['<'] + unescape_html(t.skip(4))
    } else if t.len() >= 4 && t.take(4) == seq!['&', 'g', 't', ';'] {
        seq!['>'] + unescape_html(t.skip(4))
    } else if t.len() >= 6 && t.take(6) == seq!['&', 'q', 'u', 'o', 't', ';'] {
        seq!['"'] + unescape_html(t.skip(6))
    } else if t.len() >= 5 && t.take(5) == seq!['&', 'a', 'm', 'p', ';'] {
        seq!['&'] + unescape_html(t.skip(5))
    } else {
        seq![t[0]] + unescape_html(t.skip(1))
    }
}

proof fn lemma_escape_concat(a: Seq<char>, b: Seq<char>)
    ensures
        escape_html(a + b) == escape_html(a) + escape_html(b),
    decreases b.len(),
{
    if b.len() == 0 {
        assert(a + b =~= a);
        assert(escape_html(a) + escape_html(b) =~= escape_html(a));
    } else {
        lemma_escape_concat(a, b.drop_last());
        assert((a + b).drop_last() =~= a + b.drop_last());
        assert((a + b).last() == b.last());
        assert(escape_html(a) + (escape_html(b.drop_last()) + escape_char(b.last())) =~= (escape_html(a) + escape_html(b.drop_last())) + escape_char(b.last()));
    }
}

proof fn lemma_unescape_char(c: char, x: Seq<char>)
    ensures
        unescape_html(escape_char(c) + x) == seq![c] + unescape_html(x),
{
    let t = escape_char(c) + x;
    if c == '<' {
        assert(t.take(4) =~= seq!['&', 'l', 't', ';']);
        assert(t.skip(4) =~= x);
    } else if c == '>' {
        assert(t[1] == 'g');
        assert(t.take(4) != seq!['&', 'l', 't', ';']) by {
            assert(t.take(4)[1] == 'g');
        }
        assert(t.take(4) =~= seq!['&', 'g', 't', ';']);
        assert(t.skip(4) =~= x);
    } else if c == '"' {
        assert(t.take(4) != seq!['&', 'l', 't', ';'] && t.take(4) != seq!['&', 'g', 't', ';']) by {
            assert(t.take(4)[1] == 'q');
        }
        assert(t.take(6) =~= seq!['&', 'q', 'u', 'o', 't', ';']);
        assert(t.skip(6) =~= x);
    } else if c == '&' {
        assert(t.take(4) != seq!['&', 'l', 't', ';'] && t.take(4) != seq!['&', 'g', 't', ';']) by {
            assert(t.take(4)[1] == 'a');
        }
        assert(t.len() >= 6 ==> t.take(6) != seq!['&', 'q', 'u', 'o', 't', ';']) by {
            if t.len() >= 6 {
                assert(t.take(6)[1] == 'a');
            }
        }
        assert(t.take(5) =~= seq!['&', 'a', 'm', 'p', ';']);
        assert(t.skip(5) =~= x);
    } else {
        assert(t[0] == c);
        assert(t.len() >= 4 ==> t.take(4) != seq!['&', 'l', 't', ';'] && t.take(4) != seq!['&', 'g', 't', ';']) by {
            if t.len() >= 4 {
                assert(t.take(4)[0] == c);
            }
        }
        assert(t.len() >= 6 ==> t.take(6) != seq!['&', 'q', 'u', 'o', 't', ';']) by {
            if t.len() >= 6 {
                assert(t.take(6)[0] == c);
            }
        }
        assert(t.len() >= 5 ==> t.take(5) != seq!['&', 'a', 'm', 'p', ';']) by {
            if t.len() >= 5 {
                assert(t.take(5)[0] == c);
            }
        }
        assert(t.skip(1) =~= x);
    }
}

/// Escaping loses nothing: unescaping escaped text gives the text back.
pub proof fn law_escape_round_trip(s: Seq<char>)
    ensures
        unescape_html(escape_html(s)) == s,
    decreases s.len(),
{
    if s.len() > 0 {
        let rest = s.skip(1);
        law_escape_round_trip(rest);
        assert(seq![s[0]] + rest =~= s);
        lemma_escape_concat(seq![s[0]], rest);
        assert(seq![s[0]].drop_last() =~= Seq::<char>::empty());
        assert(escape_html(Seq::<char>::empty()) =~= Seq::<char>::empty());
        assert(seq![s[0]].last() == s[0]);
        assert(escape_html(seq![s[0]]) =~= escape_char(s[0]));
        lemma_unescape_char(s[0], escape_html(rest));
    } else {
        assert(escape_html(s) =~= Seq::<char>::empty());
        assert(s =~= Seq::<char>::empty());
    }
}

proof fn lemma_nodes_text_suffix(s1: Seq<NodeView>, i1: int, s2: Seq<NodeView>, i2: int)
    requires
        0 <= i1 <= s1.len(),
        0 <= i2 <= s2.len(),
        s1.skip(i1) == s2.skip(i2),
    ensures
        nodes_text(s1, i1) == nodes_text(s2, i2),
    decreases s1.len() - i1,
{
    assert(s1.skip(i1).len() == s1.len() - i1 && s2.skip(i2).len() == s2.len() - i2);
    if i1 < s1.len() {
        assert(s1.skip(i1)[0] == s1[i1] && s2.skip(i2)[0] == s2[i2]);
        assert(s1.skip(i1 + 1) =~= s1.skip(i1).skip(1));
        assert(s2.skip(i2 + 1) =~= s2.skip(i2).skip(1));
        lemma_nodes_text_suffix(s1, i1 + 1, s2, i2 + 1);
    }
}

proof fn lemma_nodes_text_concat_from(a: Seq<NodeView>, b: Seq<NodeView>, i: int)
    requires
        0 <= i <= a.len(),
    ensures
        nodes_text(a + b, i) == nodes_text(a, i) + nodes_text(b, 0),
    decreases a.len() - i,
{
    let ab = a + b;
    if i == a.len() {
        assert(ab.skip(i) =~= b.skip(0));
        lemma_nodes_text_suffix(ab, i, b, 0);
        assert(Seq::<char>::empty() + nodes_text(b, 0) =~= nodes_text(b, 0));
    } else {
        assert(ab[i] == a[i]);
        lemma_nodes_text_concat_from(a, b, i + 1);
        assert(node_text(a[i]) + (nodes_text(a, i + 1) + nodes_text(b, 0)) =~= (node_text(a[i]) + nodes_text(a, i + 1))
            + nodes_text(b, 0));
    }
}

/// The raw text of a list of nodes is the raw texts of its parts, in order:
/// that of `a` followed by `b` is that of `a`, then that of `b`.
pub proof fn law_section_text_concat(a: Seq<NodeView>, b: Seq<NodeView>)
    ensures
        nodes_text(a + b, 0) == nodes_text(a, 0) + nodes_text(b, 0),
{
    lemma_nodes_text_concat_from(a, b, 0);
}

/// The template text a token stands for: a text's characters, a tag's
/// whole text; a comment stands for nothing.
pub open spec fn token_source(t: TokenView) -> Seq<char> {
    match t {
        TokenView::Text(x) => x,
        TokenView::Variable(_, o) => o,
        TokenView::OTag(_, _, o) => o,
        TokenView::CTag(_, o) => o,
        TokenView::Raw(_, o) => o,
        TokenView::Partial(_, o) => o,
        TokenView::Comment => seq![],
    }
}

/// The template text a list of tokens stands for, in order.
pub open spec fn tokens_source(ts: Seq<TokenView>) -> Seq<char>
    decreases ts.len(),
{
    if ts.len() == 0 {
        seq![]
    } else {
        tokens_source(ts.drop_last()) + token_source(ts.last())
    }
}

/// The text a match covers: the text and whitespace before the tag, the
/// tag (nothing for a comment), and the whitespace after it.
pub open spec fn match_source(m: TagMatch) -> Seq<char> {
    m.0 + m.1 + (if m.3[0] == '!' {
        seq![]
    } else {
        m.2
    }) + m.4
}

/// The texts of a list of matches, in order.
pub open spec fn matches_source(ms: Seq<TagMatch>) -> Seq<char>
    decreases ms.len(),
{
    if ms.len() == 0 {
        seq![]
    } else {
        matches_source(ms.drop_last()) + match_source(ms.last())
    }
}

proof fn lemma_tokens_source_concat(a: Seq<TokenView>, b: Seq<TokenView>)
    ensures
        tokens_source(a + b) == tokens_source(a) + tokens_source(b),
    decreases b.len(),
{
    if b.len() == 0 {
        assert(a + b =~= a);
        assert(tokens_source(a) + tokens_source(b) =~= tokens_source(a));
    } else {
        lemma_tokens_source_concat(a, b.drop_last());
        assert((a + b).drop_last() =~= a + b.drop_last());
        assert((a + b).last() == b.last());
        assert(tokens_source(a) + (tokens_source(b.drop_last()) + token_source(b.last())) =~= (tokens_source(a)
            + tokens_source(b.drop_last())) + token_source(b.last()));
    }
}

proof fn lemma_source_one(t: TokenView)
    ensures
        tokens_source(seq![t]) == token_source(t),
{
    assert(seq![t].drop_last() =~= Seq::<TokenView>::empty());
    assert(seq![t].last() == t);
    assert(tokens_source(Seq::<TokenView>::empty()) == Seq::<char>::empty());
    assert(Seq::<char>::empty() + token_source(t) =~= token_source(t));
}

proof fn lemma_text_if_any_source(x: Seq<char>)
    ensures
        tokens_source(text_if_any(x)) == x,
{
    if x.len() > 0 {
        lemma_source_one(TokenView::Text(x));
    } else {
        assert(x =~= Seq::<char>::empty());
    }
}

proof fn lemma_match_source(m: TagMatch)
    requires
        m.3.len() >= 1,
    ensures
        tokens_source(match_tokens(m)) == match_source(m),
{
    let a = text_if_any(m.0);
    let b = text_if_any(m.1);
    let c = seq![tag_token(m.3, m.2)];
    let d = text_if_any(m.4);
    lemma_tokens_source_concat(a, b);
    lemma_tokens_source_concat(a + b, c);
    lemma_tokens_source_concat(a + b + c, d);
    lemma_text_if_any_source(m.0);
    lemma_text_if_any_source(m.1);
    lemma_text_if_any_source(m.4);
    lemma_source_one(tag_token(m.3, m.2));
    assert(token_source(tag_token(m.3, m.2)) == if m.3[0] == '!' {
        Seq::<char>::empty()
    } else {
        m.2
    });
}

proof fn lemma_matches_source(ms: Seq<TagMatch>)
    requires
        forall|i: int| 0 <= i < ms.len() ==> (#[trigger] ms[i]).3.len() >= 1,
    ensures
        tokens_source(matches_tokens(ms)) == matches_source(ms),
    decreases ms.len(),
{
    if ms.len() > 0 {
        lemma_matches_source(ms.drop_last());
        lemma_match_source(ms.last());
        lemma_tokens_source_concat(matches_tokens(ms.drop_last()), match_tokens(ms.last()));
    }
}

/// The tokens keep every character the tag pattern's matches cover, and the
/// text after the last match, in order; only a comment's tag is left out.
/// (Whether the matches cover the whole template is the pattern's business:
/// text between two matches that none of them covers is not kept.)
pub proof fn law_tokens_keep_matched_text(contents: Seq<char>)
    requires
        crate::compiler::matches_ok(contents),
    ensures
        tag_matches(TAG_PATTERN@, contents) matches Some(ms) && tokens_source(template_tokens(contents)) == matches_source(
            ms,
        ) + tokens_source(trailing_tokens(contents, ms)),
{
    let ms = tag_matches(TAG_PATTERN@, contents)->0;
    lemma_matches(contents, ms);
    assert forall|i: int| 0 <= i < ms.len() implies (#[trigger] ms[i]).3.len() >= 1 by {
        assert(crate::compiler::inner_ok(ms[i].3));
    }
    lemma_matches_source(ms);
    lemma_tokens_source_concat(matches_tokens(ms), trailing_tokens(contents, ms));
}

/// A section nested in other sections whose name is bound to a non-empty
/// list renders its children once per item, each item being their context,
/// exactly as a section at the top level bound to the same list does.
pub proof fn law_nested_list_section_renders_items(
    k: Seq<char>,
    gch: Seq<NodeView>,
    o: Seq<char>,
    c: Seq<char>,
    ds: Entries,
    sections: Seq<Seq<char>>,
    ps: PartialTable,
    fuel: nat,
    rv: Option<ErrorView>,
    items: Seq<DataView>,
    top: Entries,
)
    requires
        lookup(k, sections.push(k), ds) == Some(DataView::Vector(items)),
        items.len() > 0,
        find(top, k) == Some(DataView::Vector(items)),
    ensures
        child_step(NodeView::Section(k, gch, false, o, c), ds, sections, ps, fuel, rv) == render_items(
            items,
            0,
            gch,
            ps,
            fuel,
            None,
        ),
        child_step(NodeView::Section(k, gch, false, o, c), ds, sections, ps, fuel, rv) == render_node(
            NodeView::Section(k, gch, false, o, c),
            top,
            ps,
            fuel,
        ),
{
}

/// A partial inside a section renders as it does at the top level: its
/// nodes with the same data.
pub proof fn law_partial_in_section(
    name: Seq<char>,
    tag: Seq<char>,
    ds: Entries,
    sections: Seq<Seq<char>>,
    ps: PartialTable,
    fuel: nat,
    rv: Option<ErrorView>,
)
    ensures
        child_step(NodeView::Part(name, tag), ds, sections, ps, fuel, rv) == render_node(NodeView::Part(name, tag), ds, ps, fuel),
        child_step(NodeView::Part(name, tag), ds, sections, ps, fuel, rv) == render_partial(name, ds, ps, fuel),
{
}

/// Inside an inverted section (rendered where its data is falsy), every
/// node but a value tag writes the same text as it does at the top level:
/// text, partials, and nested sections, truthy ones rendering their
/// children.
pub proof fn law_inverted_children_render_as_top_level(
    n: NodeView,
    ds: Entries,
    ps: PartialTable,
    fuel: nat,
    rv: Option<ErrorView>,
)
    requires
        !(n is Value),
        !(n is Unescaped),
    ensures
        render_node(n, ds, ps, fuel) matches Some((o, _)) ==> render_inverted(seq![n], 0, ds, ps, fuel, rv) matches Some(
            (o2, _),
        ) && o2 == o,
        render_node(n, ds, ps, fuel) is None ==> render_inverted(seq![n], 0, ds, ps, fuel, rv) is None,
{
    let ns = seq![n];
    lemma_nodes_size_step(ns, 0);
    assert(ns[0] == n);
    let step: Option<Outcome> = match n {
        NodeView::Static(t) => Some((t, None)),
        NodeView::Part(name, _) => render_partial(name, ds, ps, fuel),
        NodeView::Section(k, ch, inv, _, _) => render_open(k, ch, inv, ds, ps, fuel, rv),
        _ => Some((seq![], rv)),
    };
    assert(render_inverted(ns, 0, ds, ps, fuel, rv) == match step {
        None => None,
        Some((o1, e1)) => match render_inverted(ns, 1, ds, ps, fuel, e1) {
            None => None,
            Some((o2, e2)) => Some((o1 + o2, e2)),
        },
    });
    match step {
        Some((o1, e1)) => {
            assert(render_inverted(ns, 1, ds, ps, fuel, e1) == Some((Seq::<char>::empty(), e1)));
            assert(o1 + Seq::<char>::empty() =~= o1);
        },
        None => {},
    }
    match n {
        NodeView::Section(k, ch, inv, _, _) => {
            assert(render_node(n, ds, ps, fuel) == render_open(k, ch, inv, ds, ps, fuel, None));
        },
        _ => {},
    }
}

/// The items of an array of strings from `i` on, converted as a vector,
/// are pushed onto `acc` as strings, in order.
proof fn lemma_json_vector_strings(list: Seq<JsonView>, i: int, acc: Seq<DataView>)
    requires
        0 <= i <= list.len(),
        forall|j: int| i <= j < list.len() ==> #[trigger] list[j] is String,
    ensures
        json_vector(list, i, acc).len() == acc.len() + (list.len() - i),
        forall|j: int| 0 <= j < acc.len() ==> #[trigger] json_vector(list, i, acc)[j] == acc[j],
        forall|j: int|
            i <= j < list.len() ==> #[trigger] json_vector(list, i, acc)[acc.len() + j - i] == DataView::Strng(
                list[j]->String_0,
            ),
    decreases list.len() - i,
{
    if i < list.len() {
        let next = acc.push(DataView::Strng(list[i]->String_0));
        lemma_json_vector_strings(list, i + 1, next);
        let r = json_vector(list, i, acc);
        assert(r == json_vector(list, i + 1, next));
        assert forall|j: int| i <= j < list.len() implies #[trigger] r[acc.len() + j - i] == DataView::Strng(
            list[j]->String_0,
        ) by {
            if j == i {
                assert(r[next.len() - 1] == next[acc.len() as int]);
            } else {
                assert(r[next.len() + j - (i + 1)] == DataView::Strng(list[j]->String_0));
            }
        }
    }
}

/// The items of an array of strings from `i` on, as a member's value, are
/// pushed onto `acc` as strings, in order.
proof fn lemma_json_items_strings(list: Seq<JsonView>, i: int, acc: Seq<DataView>)
    requires
        0 <= i <= list.len(),
        forall|j: int| i <= j < list.len() ==> #[trigger] list[j] is String,
    ensures
        json_items(list, i, acc).len() == acc.len() + (list.len() - i),
        forall|j: int| 0 <= j < acc.len() ==> #[trigger] json_items(list, i, acc)[j] == acc[j],
        forall|j: int|
            i <= j < list.len() ==> #[trigger] json_items(list, i, acc)[acc.len() + j - i] == DataView::Strng(
                list[j]->String_0,
            ),
    decreases list.len() - i,
{
    if i < list.len() {
        let next = acc.push(DataView::Strng(list[i]->String_0));
        lemma_json_items_strings(list, i + 1, next);
        let r = json_items(list, i, acc);
        assert(r == json_items(list, i + 1, next));
        assert forall|j: int| i <= j < list.len() implies #[trigger] r[acc.len() + j - i] == DataView::Strng(
            list[j]->String_0,
        ) by {
            if j == i {
                assert(r[next.len() - 1] == next[acc.len() as int]);
            } else {
                assert(r[next.len() + j - (i + 1)] == DataView::Strng(list[j]->String_0));
            }
        }
    }
}

/// Converting a JSON array of strings keeps every string, in order, both as
/// a vector of its own and as the value of a member: item `i` of the
/// result is the string of item `i`.
pub proof fn law_json_array_keeps_strings(list: Seq<JsonView>)
    requires
        forall|j: int| 0 <= j < list.len() ==> #[trigger] list[j] is String,
    ensures
        json_vector(list, 0, seq![]).len() == list.len(),
        forall|j: int|
            0 <= j < list.len() ==> #[trigger] json_vector(list, 0, seq![])[j] == DataView::Strng(list[j]->String_0),
        json_items(list, 0, seq![]).len() == list.len(),
        forall|j: int|
            0 <= j < list.len() ==> #[trigger] json_items(list, 0, seq![])[j] == DataView::Strng(list[j]->String_0),
{
    lemma_json_vector_strings(list, 0, seq![]);
    lemma_json_items_strings(list, 0, seq![]);
    assert forall|j: int| 0 <= j < list.len() implies #[trigger] json_vector(list, 0, seq![])[j] == DataView::Strng(
        list[j]->String_0,
    ) by {
        assert(json_vector(list, 0, seq![])[0 + j - 0] == DataView::Strng(list[j]->String_0));
    }
    assert forall|j: int| 0 <= j < list.len() implies #[trigger] json_items(list, 0, seq![])[j] == DataView::Strng(
        list[j]->String_0,
    ) by {
        assert(json_items(list, 0, seq![])[0 + j - 0] == DataView::Strng(list[j]->String_0));
    }
}

} // verus!
