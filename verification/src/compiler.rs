//! The compiler splits a template into a list of tokens for the parser.
//!
//! Tags are found with one regular expression,
//! `(.*?)([ \t\r\n]*)(\{\{(\{?\S?\s*?[\w\.\s]*.*?\s*?\}?)\}\})([ \t\r\n]*)`:
//! the text before a tag, the whitespace before it, the tag itself with its
//! inner part, and the whitespace after it.

use vstd::prelude::*;
use vstd::utf8::*;
use vstd::string::StringSliceAdditionalSpecFns;
use vstd::slice::slice_subrange;
use crate::text::{chars_of, string_of, trim, trim_chars};

verus! {

/// A token of a template; names and raw tags are kept for the parser.
#[derive(Debug, PartialEq, Eq, Clone)]
pub enum Token {
    /// Plain text.
    Text(String),
    /// `{{name}}`: (name, raw tag).
    Variable(String, String),
    /// `{{#name}}` or `{{^name}}`: (name, inverted, raw tag).
    OTag(String, bool, String),
    /// `{{/name}}`: (name, raw tag).
    CTag(String, String),
    /// `{{&name}}` or `{{{name}}}`: (name, raw tag).
    Raw(String, String),
    /// `{{>name}}`: (name, raw tag).
    Partial(String, String),
    /// `{{!...}}`.
    Comment,
}

/// The mathematical value of a token: its strings as character sequences.
pub enum TokenView {
    Text(Seq<char>),
    Variable(Seq<char>, Seq<char>),
    OTag(Seq<char>, bool, Seq<char>),
    CTag(Seq<char>, Seq<char>),
    Raw(Seq<char>, Seq<char>),
    Partial(Seq<char>, Seq<char>),
    Comment,
}

impl View for Token {
    type V = TokenView;

    open spec fn view(&self) -> TokenView {
        match self {
            Token::Text(t) => TokenView::Text(t@),
            Token::Variable(n, r) => TokenView::Variable(n@, r@),
            Token::OTag(n, inv, r) => TokenView::OTag(n@, *inv, r@),
            Token::CTag(n, r) => TokenView::CTag(n@, r@),
            Token::Raw(n, r) => TokenView::Raw(n@, r@),
            Token::Partial(n, r) => TokenView::Partial(n@, r@),
            Token::Comment => TokenView::Comment,
        }
    }
}

/// The views of a list of tokens.
pub open spec fn tokens_view(ts: Seq<Token>) -> Seq<TokenView> {
    ts.map_values(|t: Token| t@)
}

/// One match of the tag pattern: the text before the tag, the whitespace
/// before it, the whole tag, its inner part, the whitespace after it, and the
/// byte offset at which the match ends.
pub struct TagCapture {
    pub text: String,
    pub space_before: String,
    pub tag: String,
    pub inner: String,
    pub space_after: String,
    pub end: usize,
}

/// The value of a match: (text, space before, tag, inner, space after, end).
pub type TagMatch = (Seq<char>, Seq<char>, Seq<char>, Seq<char>, Seq<char>, nat);

impl TagCapture {
    pub open spec fn model(&self) -> TagMatch {
        (self.text@, self.space_before@, self.tag@, self.inner@, self.space_after@, self.end as nat)
    }
}

/// The regular expression a tag is found with: the text before the tag, the
/// whitespace before it, the tag itself with its inner part, and the
/// whitespace after it.
pub const TAG_PATTERN: &'static str = r"(.*?)([ \t\r\n]*)(\{\{(\{?\S?\s*?[\w\.\s]*.*?\s*?\}?)\}\})([ \t\r\n]*)";

/// The successive matches of the regular expression `pattern` in
/// `contents`, as `regex::Regex::captures_iter` finds them, each with its
/// first five groups and its end offset; `None` where `regex::Regex::new`
/// refuses the pattern.
pub uninterp spec fn tag_matches(pattern: Seq<char>, contents: Seq<char>) -> Option<Seq<(Seq<char>, Seq<char>, Seq<char>, Seq<char>, Seq<char>, nat)>>;

/// Calls `regex::Regex::new` on `pattern` and `captures_iter` on
/// `contents`, and copies each match's first five groups and its end offset.
/// Claimed: the result is `tag_matches(pattern, contents)`, a function of
/// the two texts alone (`None` where the pattern is refused), and each end
/// offset lies within the contents' UTF-8 bytes on a character boundary (the
/// regex documentation guarantees that every offset it returns can slice
/// the haystack). What a pattern matches is left to the name. The pattern
/// is the tag pattern, whose five groups take part in every match.
#[verifier::external_body]
fn find_tags(pattern: &str, contents: &str) -> (r: Option<Vec<TagCapture>>)
    requires
        pattern@ == TAG_PATTERN@,
    ensures
        match r {
            Some(caps) => tag_matches(pattern@, contents@) == Some(caps@.map_values(|c: TagCapture| c.model()))
                && forall|i: int|
                0 <= i < caps@.len() ==> #[trigger] caps@[i].end <= contents.spec_bytes().len()
                    && is_char_boundary(contents.spec_bytes(), caps@[i].end as int),
            None => tag_matches(pattern@, contents@) is None,
        },
{
    let re = regex::Regex::new(pattern).ok()?;
    let mut caps = Vec::new();
    for cap in re.captures_iter(contents) {
        caps.push(TagCapture {
            text: cap[1].to_string(), space_before: cap[2].to_string(), tag: cap[3].to_string(),
            inner: cap[4].to_string(), space_after: cap[5].to_string(),
            end: cap.get(0).unwrap().end(),
        });
    }
    Some(caps)
}

/// A character with a one-byte UTF-8 encoding.
pub open spec fn is_ascii_char(c: char) -> bool {
    (c as u32) < 0x80
}

/// The inner part of a tag can be classified by its first byte: it is not
/// empty, begins with a one-byte character, and a `{`-tag has a closing
/// character of one byte after it.
pub open spec fn inner_ok(inner: Seq<char>) -> bool {
    &&& inner.len() >= 1
    &&& is_ascii_char(inner[0])
    &&& inner[0] == '{' ==> inner.len() >= 2 && is_ascii_char(inner.last())
}

/// The tag pattern is accepted and every match of it in `contents` has a
/// classifiable tag.
pub open spec fn matches_ok(contents: Seq<char>) -> bool {
    match tag_matches(TAG_PATTERN@, contents) {
        Some(ms) => forall|i: int| 0 <= i < ms.len() ==> inner_ok(#[trigger] ms[i].3),
        None => false,
    }
}

/// The token of a tag with inner part `inner` and whole text `outer`.
pub open spec fn tag_token(inner: Seq<char>, outer: Seq<char>) -> TokenView {
    let c = inner[0];
    if c == '!' {
        TokenView::Comment
    } else if c == '#' {
        TokenView::OTag(trim(inner.skip(1)), false, outer)
    } else if c == '/' {
        TokenView::CTag(trim(inner.skip(1)), outer)
    } else if c == '^' {
        TokenView::OTag(trim(inner.skip(1)), true, outer)
    } else if c == '>' {
        TokenView::Partial(trim(inner.skip(1)), outer)
    } else if c == '&' {
        TokenView::Raw(trim(inner.skip(1)), outer)
    } else if c == '{' {
        TokenView::Raw(trim(inner.subrange(1, inner.len() - 1)), outer)
    } else {
        TokenView::Variable(trim(inner), outer)
    }
}

/// `[Text(s)]` when `s` is not empty, else nothing.
pub open spec fn text_if_any(s: Seq<char>) -> Seq<TokenView> {
    if s.len() > 0 {
        seq![TokenView::Text(s)]
    } else {
        seq![]
    }
}

/// The tokens of one match: the preceding text, the preceding whitespace,
/// the tag, and the trailing whitespace, leaving out empty texts.
pub open spec fn match_tokens(m: TagMatch) -> Seq<TokenView> {
    text_if_any(m.0) + text_if_any(m.1) + seq![tag_token(m.3, m.2)] + text_if_any(m.4)
}

/// The tokens of a list of matches, in order.
pub open spec fn matches_tokens(ms: Seq<TagMatch>) -> Seq<TokenView>
    decreases ms.len(),
{
    if ms.len() == 0 {
        seq![]
    } else {
        matches_tokens(ms.drop_last()) + match_tokens(ms.last())
    }
}

/// Where the last match ends (0 when there is none).
pub open spec fn last_end(ms: Seq<TagMatch>) -> nat {
    if ms.len() == 0 {
        0
    } else {
        ms.last().5
    }
}

/// The text after the last match, as one token when there is any.
pub open spec fn trailing_tokens(contents: Seq<char>, ms: Seq<TagMatch>) -> Seq<TokenView> {
    let bytes = encode_utf8(contents);
    if last_end(ms) < bytes.len() {
        seq![TokenView::Text(decode_utf8(bytes.skip(last_end(ms) as int)))]
    } else {
        seq![]
    }
}

/// What `matches_ok` and `template_tokens` are, given the matches `ms` of
/// the tag pattern.
pub proof fn lemma_matches(contents: Seq<char>, ms: Seq<TagMatch>)
    requires
        tag_matches(TAG_PATTERN@, contents) == Some(ms),
    ensures
        matches_ok(contents) == (forall|i: int| 0 <= i < ms.len() ==> inner_ok(#[trigger] ms[i].3)),
        template_tokens(contents) == matches_tokens(ms) + trailing_tokens(contents, ms),
{
    assert(matches_ok(contents) == match tag_matches(TAG_PATTERN@, contents) {
        Some(m) => forall|k: int| 0 <= k < m.len() ==> inner_ok(#[trigger] m[k].3),
        None => false,
    });
}

/// The tokens of a template, where the tag pattern is accepted.
pub open spec fn template_tokens(contents: Seq<char>) -> Seq<TokenView> {
    match tag_matches(TAG_PATTERN@, contents) {
        Some(ms) => matches_tokens(ms) + trailing_tokens(contents, ms),
        None => seq![],
    }
}

/// Pushes `Text(s)` when `s` is not empty.
fn push_text(tokens: &mut Vec<Token>, s: String)
    ensures
        tokens_view(final(tokens)@) == tokens_view(old(tokens)@) + text_if_any(s@),
{
    let ghost before = tokens@;
    if !s.as_str().is_empty() {
        tokens.push(Token::Text(s));
    }
    assert(tokens_view(tokens@) =~= tokens_view(before) + text_if_any(s@));
}

/// A string is empty exactly when its UTF-8 encoding is.
proof fn lemma_encode_utf8_empty(s: Seq<char>)
    ensures
        (encode_utf8(s).len() == 0) == (s.len() == 0),
{
    if s.len() > 0 {
        encode_utf8_first_scalar(s);
    } else {
        assert(encode_utf8(s) =~= Seq::<u8>::empty());
    }
}

/// Categorizes a tag by the first character of its inner part.
pub fn add_token(inner: &str, outer: &str, tokens: &mut Vec<Token>)
    requires
        inner_ok(inner@),
    ensures
        tokens_view(final(tokens)@) == tokens_view(old(tokens)@).push(tag_token(inner@, outer@)),
{
    let cs = chars_of(inner);
    let n = cs.len();
    let c = cs[0];
    let t = if c == '!' {
        Token::Comment
    } else if c == '#' {
        Token::OTag(string_of(&trim_chars(slice_subrange(cs.as_slice(), 1, n))), false, outer.to_owned())
    } else if c == '/' {
        Token::CTag(string_of(&trim_chars(slice_subrange(cs.as_slice(), 1, n))), outer.to_owned())
    } else if c == '^' {
        Token::OTag(string_of(&trim_chars(slice_subrange(cs.as_slice(), 1, n))), true, outer.to_owned())
    } else if c == '>' {
        Token::Partial(string_of(&trim_chars(slice_subrange(cs.as_slice(), 1, n))), outer.to_owned())
    } else if c == '&' {
        Token::Raw(string_of(&trim_chars(slice_subrange(cs.as_slice(), 1, n))), outer.to_owned())
    } else if c == '{' {
        Token::Raw(string_of(&trim_chars(slice_subrange(cs.as_slice(), 1, n - 1))), outer.to_owned())
    } else {
        Token::Variable(string_of(&trim_chars(cs.as_slice())), outer.to_owned())
    };
    let ghost before = tokens@;
    tokens.push(t);
    assert(tokens_view(tokens@) =~= tokens_view(before).push(tag_token(inner@, outer@)));
}

/// The tokens of `contents` given the matches `caps` of the tag pattern in
/// it, in order: for each match the text before the tag, the whitespace
/// before it, the tag's token and the whitespace after it (empty texts left
/// out), then the text after the last match. Every tag must be classifiable
/// (see `inner_ok`) and every match must end within `contents` on a
/// character boundary.
pub fn tokens_of_matches(contents: &str, caps: &Vec<TagCapture>) -> (tokens: Vec<Token>)
    requires
        forall|i: int|
            0 <= i < caps@.len() ==> inner_ok(#[trigger] caps@[i].inner@) && caps@[i].end <= contents.spec_bytes().len()
                && is_char_boundary(contents.spec_bytes(), caps@[i].end as int),
    ensures
        tokens_view(tokens@) == matches_tokens(caps@.map_values(|c: TagCapture| c.model()))
            + trailing_tokens(contents@, caps@.map_values(|c: TagCapture| c.model())),
{
    let ghost ms = caps@.map_values(|c: TagCapture| c.model());
    let mut tokens: Vec<Token> = Vec::new();
    let mut close_pos: usize = 0;
    let mut i: usize = 0;
    assert(ms.take(0) =~= Seq::<TagMatch>::empty());
    while i < caps.len()
        invariant
            ms == caps@.map_values(|c: TagCapture| c.model()),
            forall|k: int|
                0 <= k < caps@.len() ==> inner_ok(#[trigger] caps@[k].inner@) && caps@[k].end <= contents.spec_bytes().len()
                    && is_char_boundary(contents.spec_bytes(), caps@[k].end as int),
            i <= caps@.len(),
            tokens_view(tokens@) == matches_tokens(ms.take(i as int)),
            close_pos == last_end(ms.take(i as int)),
            i == 0 ==> close_pos == 0,
            i > 0 ==> close_pos == caps@[i - 1].end,
        decreases caps@.len() - i,
    {
        let cap = &caps[i];
        assert(cap.model() == ms[i as int]);
        assert(inner_ok(caps@[i as int].inner@));
        push_text(&mut tokens, cap.text.clone());
        push_text(&mut tokens, cap.space_before.clone());
        close_pos = cap.end;
        add_token(cap.inner.as_str(), cap.tag.as_str(), &mut tokens);
        push_text(&mut tokens, cap.space_after.clone());
        assert(ms.take(i + 1).drop_last() =~= ms.take(i as int));
        i = i + 1;
    }
    assert(ms.take(caps@.len() as int) =~= ms);
    assert(close_pos == last_end(ms));
    proof {
        encode_utf8_valid_utf8(contents@);
        is_char_boundary_start_end_of_seq(contents.spec_bytes());
    }
    let (_, tail) = contents.split_at(close_pos);
    proof {
        encode_utf8_decode_utf8(tail@);
        lemma_encode_utf8_empty(tail@);
    }
    let ghost before = tokens@;
    if !tail.is_empty() {
        tokens.push(Token::Text(tail.to_owned()));
    }
    assert(tokens_view(tokens@) =~= tokens_view(before) + trailing_tokens(contents@, ms));
    tokens
}

/// The tokens of a template (see `tokens_of_matches`), with the tags found
/// by the tag pattern. Every tag must be classifiable (see `inner_ok`).
pub fn create_tokens(contents: &str) -> (tokens: Vec<Token>)
    requires
        matches_ok(contents@),
    ensures
        tokens_view(tokens@) == template_tokens(contents@),
{
    match find_tags(TAG_PATTERN, contents) {
        Some(caps) => {
            let ghost ms = caps@.map_values(|c: TagCapture| c.model());
            proof {
                lemma_matches(contents@, ms);
            }
            assert forall|i: int| 0 <= i < caps@.len() implies inner_ok(#[trigger] caps@[i].inner@) by {
                assert(ms[i] == caps@[i].model());
                assert(inner_ok(ms[i].3));
            }
            tokens_of_matches(contents, &caps)
        },
        None => vstd::pervasive::unreached(),
    }
}

/// The tokens of a template, or `None` when some tag cannot be classified
/// by its first character (where `create_tokens` would have nothing to
/// return).
pub fn try_create_tokens(contents: &str) -> (r: Option<Vec<Token>>)
    ensures
        r is Some <==> matches_ok(contents@),
        r matches Some(tokens) ==> tokens_view(tokens@) == template_tokens(contents@),
{
    let caps = match find_tags(TAG_PATTERN, contents) {
        Some(caps) => caps,
        None => {
            return None;
        },
    };
    let ghost ms = caps@.map_values(|c: TagCapture| c.model());
    let mut i: usize = 0;
    while i < caps.len()
        invariant
            tag_matches(TAG_PATTERN@, contents@) == Some(ms),
            ms == caps@.map_values(|c: TagCapture| c.model()),
            i <= caps@.len(),
            forall|k: int| 0 <= k < i ==> inner_ok(#[trigger] ms[k].3),
            forall|k: int|
                0 <= k < caps@.len() ==> #[trigger] caps@[k].end <= contents.spec_bytes().len()
                    && is_char_boundary(contents.spec_bytes(), caps@[k].end as int),
        decreases caps@.len() - i,
    {
        assert(caps[i as int].model() == ms[i as int]);
        if !inner_classifiable(caps[i].inner.as_str()) {
            assert(!inner_ok(ms[i as int].3));
            proof {
                lemma_matches(contents@, ms);
            }
            return None;
        }
        i = i + 1;
    }
    assert forall|k: int| 0 <= k < caps@.len() implies inner_ok(#[trigger] caps@[k].inner@) by {
        assert(ms[k] == caps@[k].model());
        assert(inner_ok(ms[k].3));
    }
    proof {
        lemma_matches(contents@, ms);
    }
    Some(tokens_of_matches(contents, &caps))
}

/// Whether the inner part of a tag satisfies `inner_ok`.
fn inner_classifiable(inner: &str) -> (b: bool)
    ensures
        b == inner_ok(inner@),
{
    let cs = chars_of(inner);
    let n = cs.len();
    if n == 0 {
        return false;
    }
    let first = cs[0];
    if (first as u32) >= 0x80 {
        return false;
    }
    if first == '{' {
        n >= 2 && (cs[n - 1] as u32) < 0x80
    } else {
        true
    }
}

} // verus!
