//! The parser turns the compiler's tokens into nodes for the template.
//! Sections hold their child nodes; dotted names become nested sections.

use vstd::prelude::*;
use vstd::slice::slice_subrange;
use crate::compiler::{Token, TokenView, tokens_view};
use crate::text::{all_white, has_char, split_on, lemma_split_on_nonempty, chars_of, string_of,
    is_all_white, contains_char, split_chars, append_chars};

verus! {

/// A node of a parsed template. Each node keeps its name and its raw tag;
/// the raw tags give back the text a section was written with.
#[derive(PartialEq, Eq, Debug)]
pub enum Node {
    /// Text written out as it is.
    Static(String),
    /// `{{name}}`, written HTML-escaped: (name, tag).
    Value(String, String),
    /// A section: (name, children, inverted, opening tag, closing tag).
    Section(String, Vec<Node>, bool, String, String),
    /// `{{&name}}` or `{{{name}}}`, written as it is: (name, tag).
    Unescaped(String, String),
    /// `{{>name}}`, a partial template: (name, tag).
    Part(String, String),
}

/// The mathematical value of a node.
pub enum NodeView {
    Static(Seq<char>),
    Value(Seq<char>, Seq<char>),
    Section(Seq<char>, Seq<NodeView>, bool, Seq<char>, Seq<char>),
    Unescaped(Seq<char>, Seq<char>),
    Part(Seq<char>, Seq<char>),
}

pub open spec fn node_view(n: Node) -> NodeView
    decreases n,
{
    match n {
        Node::Static(t) => NodeView::Static(t@),
        Node::Value(k, t) => NodeView::Value(k@, t@),
        Node::Section(k, ch, inv, o, c) => NodeView::Section(k@, nodes_view(ch@), inv, o@, c@),
        Node::Unescaped(k, t) => NodeView::Unescaped(k@, t@),
        Node::Part(k, t) => NodeView::Part(k@, t@),
    }
}

/// The views of a list of nodes.
pub open spec fn nodes_view(s: Seq<Node>) -> Seq<NodeView>
    decreases s,
{
    if s.len() == 0 {
        seq![]
    } else {
        nodes_view(s.drop_last()).push(node_view(s.last()))
    }
}

impl View for Node {
    type V = NodeView;

    open spec fn view(&self) -> NodeView {
        node_view(*self)
    }
}

pub proof fn lemma_nodes_view(s: Seq<Node>)
    ensures
        nodes_view(s).len() == s.len(),
        forall|i: int| 0 <= i < s.len() ==> #[trigger] nodes_view(s)[i] == node_view(s[i]),
    decreases s.len(),
{
    if s.len() > 0 {
        lemma_nodes_view(s.drop_last());
    }
}

pub proof fn lemma_nodes_view_push(s: Seq<Node>, n: Node)
    ensures
        nodes_view(s.push(n)) == nodes_view(s).push(node_view(n)),
{
    assert(s.push(n).drop_last() =~= s);
}

/// `{{` and `}}` around a name, with `mark` after the opening braces.
pub open spec fn wrap_tag(mark: Seq<char>, name: Seq<char>, close: Seq<char>) -> Seq<char> {
    seq!['{', '{'] + mark + name + close
}

/// The node of a dotted name split into `parts`: a section for each part
/// but the last, and a value (or unescaped) node for the last part, each
/// with a tag made up from its part.
pub open spec fn dot_node(parts: Seq<Seq<char>>, unescaped: bool, amp: bool) -> NodeView
    decreases parts.len(),
{
    let v = parts[0];
    if parts.len() <= 1 {
        if unescaped {
            if amp {
                NodeView::Unescaped(v, wrap_tag(seq!['&'], v, seq!['}', '}']))
            } else {
                NodeView::Unescaped(v, wrap_tag(seq!['{'], v, seq!['}', '}', '}']))
            }
        } else {
            NodeView::Value(v, wrap_tag(seq![], v, seq!['}', '}']))
        }
    } else {
        NodeView::Section(
            v,
            seq![dot_node(parts.skip(1), unescaped, amp)],
            false,
            wrap_tag(seq!['#'], v, seq!['}', '}']),
            wrap_tag(seq!['/'], v, seq!['}', '}']),
        )
    }
}

/// The node of a `{{name}}` tag.
pub open spec fn variable_node(name: Seq<char>, raw: Seq<char>) -> NodeView {
    if has_char(name, '.') {
        dot_node(split_on(name, '.'), false, false)
    } else {
        NodeView::Value(name, raw)
    }
}

/// The node of a `{{&name}}` or `{{{name}}}` tag.
pub open spec fn raw_node(name: Seq<char>, raw: Seq<char>) -> NodeView {
    if has_char(name, '.') {
        dot_node(split_on(name, '.'), true, has_char(raw, '&'))
    } else {
        NodeView::Unescaped(name, raw)
    }
}

/// The status after a text: whitespace-only text, or text with a line
/// break, lets a following comment take its line with it.
pub open spec fn status_after_text(t: Seq<char>, skip: bool) -> bool {
    if has_char(t, '\n') || all_white(t) {
        true
    } else {
        skip
    }
}

/// Where the section opened by a tag named `name` is closed, scanning from
/// `k` with `depth` sections of that name open: the index of the closing
/// tag, if any.
pub open spec fn find_close(list: Seq<TokenView>, k: int, name: Seq<char>, depth: nat) -> Option<int>
    decreases list.len() - k,
{
    if k < 0 || k >= list.len() {
        None
    } else {
        match list[k] {
            TokenView::OTag(title, _, _) => find_close(
                list,
                k + 1,
                name,
                if title == name {
                    depth + 1
                } else {
                    depth
                },
            ),
            TokenView::CTag(title, _) => {
                if title == name && depth == 1 {
                    Some(k)
                } else if title == name && depth > 1 {
                    find_close(list, k + 1, name, (depth - 1) as nat)
                } else {
                    find_close(list, k + 1, name, depth)
                }
            },
            _ => find_close(list, k + 1, name, depth),
        }
    }
}

pub proof fn lemma_find_close_range(list: Seq<TokenView>, k: int, name: Seq<char>, depth: nat)
    ensures
        find_close(list, k, name, depth) matches Some(j) ==> k <= j < list.len() && list[j] is CTag,
    decreases list.len() - k,
{
    if 0 <= k < list.len() {
        match list[k] {
            TokenView::OTag(title, _, _) => lemma_find_close_range(
                list,
                k + 1,
                name,
                if title == name {
                    depth + 1
                } else {
                    depth
                },
            ),
            TokenView::CTag(title, _) => {
                if title == name && depth == 1 {
                } else if title == name && depth > 1 {
                    lemma_find_close_range(list, k + 1, name, (depth - 1) as nat);
                } else {
                    lemma_find_close_range(list, k + 1, name, depth);
                }
            },
            _ => lemma_find_close_range(list, k + 1, name, depth),
        }
    }
}

/// What a comment does, given the token after it: a whitespace-only text
/// after a line that let comments take it removes the whitespace with a line
/// break before the comment.
pub open spec fn comment_step(next: TokenView, skip: bool, nodes: Seq<NodeView>) -> (bool, Seq<NodeView>) {
    match next {
        TokenView::Text(value) => {
            if skip {
                if all_white(value) && nodes.len() > 0 {
                    let keep = match nodes.last() {
                        NodeView::Static(t) => !(all_white(t) && has_char(t, '\n')),
                        _ => true,
                    };
                    (false, if keep { nodes } else { nodes.drop_last() })
                } else {
                    (false, nodes)
                }
            } else {
                (skip, nodes)
            }
        },
        _ => (skip, nodes),
    }
}

/// The nodes of a token list.
pub open spec fn parse_spec(list: Seq<TokenView>) -> Seq<NodeView>
    decreases list.len(), list.len() + 1,
{
    parse_from(list, 0, false, seq![])
}

/// What a comment that ends the token list does to the nodes before it:
/// whitespace-only text just before it goes with it.
pub open spec fn last_comment(nodes: Seq<NodeView>) -> Seq<NodeView> {
    if nodes.len() > 0 && (nodes.last() matches NodeView::Static(t) && all_white(t)) {
        nodes.drop_last()
    } else {
        nodes
    }
}

/// Parsing from token `i` on, with the given status and the nodes so far.
/// A closing tag with no open section is ignored; the tokens after an
/// opening tag that is never closed are not parsed.
pub open spec fn parse_from(list: Seq<TokenView>, i: int, skip: bool, nodes: Seq<NodeView>) -> Seq<NodeView>
    decreases list.len(), list.len() - i,
{
    if i < 0 || i >= list.len() {
        nodes
    } else {
        match list[i] {
            TokenView::Text(t) => parse_from(list, i + 1, status_after_text(t, skip), nodes.push(NodeView::Static(t))),
            TokenView::Variable(n, r) => parse_from(list, i + 1, skip, nodes.push(variable_node(n, r))),
            TokenView::Raw(n, r) => parse_from(list, i + 1, skip, nodes.push(raw_node(n, r))),
            TokenView::Partial(n, r) => parse_from(list, i + 1, skip, nodes.push(NodeView::Part(n, r))),
            TokenView::CTag(_, _) => parse_from(list, i + 1, skip, nodes),
            TokenView::OTag(name, inverted, raw) => {
                match find_close(list, i + 1, name, 1) {
                    Some(j) => {
                        if i + 1 <= j < list.len() {
                            let children = parse_spec(list.subrange(i + 1, j));
                            let close = match list[j] {
                                TokenView::CTag(_, c) => c,
                                _ => seq![],
                            };
                            parse_from(list, j, skip, nodes.push(NodeView::Section(name, children, inverted, raw, close)))
                        } else {
                            nodes
                        }
                    },
                    None => nodes,
                }
            },
            TokenView::Comment => {
                if i + 1 < list.len() {
                    let (s2, n2) = comment_step(list[i + 1], skip, nodes);
                    parse_from(list, i + 1, s2, n2)
                } else {
                    last_comment(nodes)
                }
            },
        }
    }
}

/// The views of a list of split parts.
pub open spec fn parts_view(parts: Seq<Vec<char>>) -> Seq<Seq<char>> {
    parts.map_values(|p: Vec<char>| p@)
}

/// `{{`, then `mark`, `name` and `close`, as a string.
fn make_tag(mark: &[char], name: &[char], close: &[char]) -> (s: String)
    ensures
        s@ == wrap_tag(mark@, name@, close@),
{
    let mut cs: Vec<char> = Vec::new();
    cs.push('{');
    cs.push('{');
    append_chars(&mut cs, mark);
    append_chars(&mut cs, name);
    append_chars(&mut cs, close);
    assert(cs@ =~= wrap_tag(mark@, name@, close@));
    string_of(cs.as_slice())
}

/// Builds the nested sections of a dotted name.
fn handle_dot_notation(parts: &[Vec<char>], unescaped: bool, amp: bool) -> (n: Node)
    requires
        parts@.len() >= 1,
    ensures
        n@ == dot_node(parts_view(parts@), unescaped, amp),
    decreases parts@.len(),
{
    let v = &parts[0];
    let name = string_of(v.as_slice());
    if parts.len() == 1 {
        if unescaped {
            if amp {
                let mark = ['&'];
                let close = ['}', '}'];
                let tag = make_tag(&mark, v.as_slice(), &close);
                assert(mark@ =~= seq!['&'] && close@ =~= seq!['}', '}']);
                Node::Unescaped(name, tag)
            } else {
                let mark = ['{'];
                let close = ['}', '}', '}'];
                let tag = make_tag(&mark, v.as_slice(), &close);
                assert(mark@ =~= seq!['{'] && close@ =~= seq!['}', '}', '}']);
                Node::Unescaped(name, tag)
            }
        } else {
            let mark: [char; 0] = [];
            let close = ['}', '}'];
            let tag = make_tag(&mark, v.as_slice(), &close);
            assert(mark@ =~= Seq::<char>::empty() && close@ =~= seq!['}', '}']);
            Node::Value(name, tag)
        }
    } else {
        let rest = slice_subrange(parts, 1, parts.len());
        assert(parts_view(rest@) =~= parts_view(parts@).skip(1));
        let child = handle_dot_notation(rest, unescaped, amp);
        let open_mark = ['#'];
        let close_mark = ['/'];
        let close = ['}', '}'];
        let otag = make_tag(&open_mark, v.as_slice(), &close);
        let ctag = make_tag(&close_mark, v.as_slice(), &close);
        assert(open_mark@ =~= seq!['#'] && close_mark@ =~= seq!['/'] && close@ =~= seq!['}', '}']);
        let mut children: Vec<Node> = Vec::new();
        children.push(child);
        proof {
            lemma_nodes_view_push(Seq::<Node>::empty(), child);
            assert(Seq::<Node>::empty().push(child) =~= children@);
            assert(nodes_view(Seq::<Node>::empty()) =~= Seq::<NodeView>::empty());
        }
        Node::Section(name, children, false, otag, ctag)
    }
}

/// The node of a `{{name}}` tag.
fn parse_variable_node(name: &String, raw: &String) -> (n: Node)
    ensures
        n@ == variable_node(name@, raw@),
{
    let cs = chars_of(name.as_str());
    if contains_char(cs.as_slice(), '.') {
        let parts = split_chars(cs.as_slice(), '.');
        proof {
            lemma_split_on_nonempty(name@, '.');
        }
        assert(parts_view(parts@) =~= split_on(name@, '.'));
        handle_dot_notation(parts.as_slice(), false, false)
    } else {
        Node::Value(name.clone(), raw.clone())
    }
}

/// The node of a `{{&name}}` or `{{{name}}}` tag.
fn parse_raw_node(name: &String, raw: &String) -> (n: Node)
    ensures
        n@ == raw_node(name@, raw@),
{
    let cs = chars_of(name.as_str());
    if contains_char(cs.as_slice(), '.') {
        let rs = chars_of(raw.as_str());
        let amp = contains_char(rs.as_slice(), '&');
        let parts = split_chars(cs.as_slice(), '.');
        proof {
            lemma_split_on_nonempty(name@, '.');
        }
        assert(parts_view(parts@) =~= split_on(name@, '.'));
        handle_dot_notation(parts.as_slice(), true, amp)
    } else {
        Node::Unescaped(name.clone(), raw.clone())
    }
}

/// The node of a text token; whitespace-only text, or text with a line
/// break, sets the status to skip.
fn parse_text_node(text: &String, skip: &mut bool) -> (n: Node)
    ensures
        n@ == NodeView::Static(text@),
        *final(skip) == status_after_text(text@, *old(skip)),
{
    let cs = chars_of(text.as_str());
    if contains_char(cs.as_slice(), '\n') {
        *skip = true;
    } else if is_all_white(cs.as_slice()) {
        *skip = true;
    }
    Node::Static(text.clone())
}

/// Handles the token after a comment (see `comment_step`).
fn parse_comment_node(token: &Token, skip: &mut bool, nodes: &mut Vec<Node>)
    ensures
        comment_step(token@, *old(skip), nodes_view(old(nodes)@)) == (*final(skip), nodes_view(final(nodes)@)),
{
    match token {
        Token::Text(value) => {
            if *skip {
                let vs = chars_of(value.as_str());
                let n = nodes.len();
                proof {
                    lemma_nodes_view(nodes@);
                }
                if is_all_white(vs.as_slice()) && n > 0 {
                    let remove = match &nodes[n - 1] {
                        Node::Static(text) => {
                            let ts = chars_of(text.as_str());
                            is_all_white(ts.as_slice()) && contains_char(ts.as_slice(), '\n')
                        },
                        _ => false,
                    };
                    if remove {
                        let ghost before = nodes@;
                        nodes.pop();
                        proof {
                            assert(nodes@ =~= before.drop_last());
                            assert(nodes_view(before).drop_last() =~= nodes_view(before.drop_last()));
                        }
                    }
                }
                *skip = false;
            }
        },
        _ => {},
    }
}

/// Finds the token closing the section opened at `start - 1` with the name
/// `name`, counting sections of the same name opened in between.
fn find_close_tag(list: &[Token], start: usize, name: &String) -> (r: Option<usize>)
    requires
        1 <= start <= list@.len(),
    ensures
        r matches Some(j) ==> find_close(tokens_view(list@), start as int, name@, 1) == Some(j as int),
        r is None ==> find_close(tokens_view(list@), start as int, name@, 1) is None,
{
    let ghost lv = tokens_view(list@);
    let mut k: usize = start;
    let mut depth: usize = 1;
    while k < list.len()
        invariant
            lv == tokens_view(list@),
            1 <= start <= k <= list@.len(),
            1 <= depth <= k - start + 1,
            find_close(lv, start as int, name@, 1) == find_close(lv, k as int, name@, depth as nat),
        decreases list@.len() - k,
    {
        assert(lv[k as int] == list@[k as int]@);
        match &list[k] {
            Token::OTag(title, _, _) => {
                if title.eq(name) {
                    depth = depth + 1;
                }
            },
            Token::CTag(title, _) => {
                let same = title.eq(name);
                if same && depth == 1 {
                    return Some(k);
                } else if same && depth > 1 {
                    depth = depth - 1;
                }
            },
            _ => {},
        }
        k = k + 1;
    }
    None
}

/// Parses a token list.
fn parse_list(list: &[Token]) -> (nodes: Vec<Node>)
    ensures
        parse_spec(tokens_view(list@)) == nodes_view(nodes@),
    decreases list@.len(),
{
    let ghost lv = tokens_view(list@);
    let len = list.len();
    let mut nodes: Vec<Node> = Vec::new();
    let mut skip = false;
    let mut i: usize = 0;
    assert(nodes_view(nodes@) =~= Seq::<NodeView>::empty());
    while i < len
        invariant
            lv == tokens_view(list@),
            len == list@.len(),
            i <= len,
            parse_spec(lv) == parse_from(lv, i as int, skip, nodes_view(nodes@)),
        decreases len - i,
    {
        match &list[i] {
            Token::Text(t) => {
                let n = parse_text_node(t, &mut skip);
                proof { lemma_nodes_view_push(nodes@, n); }
                nodes.push(n);
                i = i + 1;
            },
            Token::Variable(name, raw) => {
                let n = parse_variable_node(name, raw);
                proof { lemma_nodes_view_push(nodes@, n); }
                nodes.push(n);
                i = i + 1;
            },
            Token::Raw(name, raw) => {
                let n = parse_raw_node(name, raw);
                proof { lemma_nodes_view_push(nodes@, n); }
                nodes.push(n);
                i = i + 1;
            },
            Token::Partial(name, raw) => {
                let n = Node::Part(name.clone(), raw.clone());
                proof { lemma_nodes_view_push(nodes@, n); }
                nodes.push(n);
                i = i + 1;
            },
            Token::CTag(_, _) => {
                i = i + 1;
            },
            Token::OTag(name, inverted, raw) => {
                proof { lemma_find_close_range(lv, i + 1, name@, 1); }
                match find_close_tag(list, i + 1, name) {
                    Some(j) => {
                        let sub = slice_subrange(list, i + 1, j);
                        assert(tokens_view(sub@) =~= lv.subrange(i + 1, j as int));
                        let children = parse_list(sub);
                        let close = match &list[j] {
                            Token::CTag(_, c) => c.clone(),
                            _ => String::new(),
                        };
                        let n = Node::Section(name.clone(), children, *inverted, raw.clone(), close);
                        proof { lemma_nodes_view_push(nodes@, n); }
                        nodes.push(n);
                        i = j;
                    },
                    None => {
                        return nodes;
                    },
                }
            },
            Token::Comment => {
                if i + 1 < len {
                    parse_comment_node(&list[i + 1], &mut skip, &mut nodes);
                    i = i + 1;
                } else {
                    let n = nodes.len();
                    proof { lemma_nodes_view(nodes@); }
                    if n > 0 {
                        let remove = match &nodes[n - 1] {
                            Node::Static(text) => {
                                let ts = chars_of(text.as_str());
                                is_all_white(ts.as_slice())
                            },
                            _ => false,
                        };
                        if remove {
                            let ghost before = nodes@;
                            nodes.pop();
                            proof {
                                assert(nodes@ =~= before.drop_last());
                                assert(nodes_view(before).drop_last() =~= nodes_view(before.drop_last()));
                            }
                        }
                    }
                    return nodes;
                }
            },
        }
    }
    nodes
}

/// Parses a token list into nodes: a section takes the tokens up to its
/// closing tag as its children, dotted names become nested sections, a
/// closing tag with no open section is ignored, and the tokens after an
/// opening tag that is never closed are left out.
pub fn parse_nodes(list: &Vec<Token>) -> (nodes: Vec<Node>)
    ensures
        parse_spec(tokens_view(list@)) == nodes_view(nodes@),
{
    parse_list(list.as_slice())
}

} // verus!
