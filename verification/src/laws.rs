//! What holds of compiling and rendering together.

use crate::canonical::{
    canonical, escape, lemma_canonical_cons, lemma_unparse_concat, lemma_unparse_one,
    lemma_unparse_parses, unparse,
};
use crate::generator::Generator;
use crate::grammar::{is_plain, keys_of, lemma_parse_plain, parse};
use crate::json::json_text;
use crate::render::{
    lemma_rendered_concat, lemma_rendered_one, rendered, rendered_view, resolve, Failure,
    RenderError,
};
use crate::token::{KeyView, TokenView};
use serde_json::Value;
use vstd::prelude::*;

verus! {

/// A pattern without braces compiles, and renders to itself against any value.
pub proof fn lemma_plain_renders_itself(pattern: Seq<char>, root: Value)
    requires
        is_plain(pattern),
    ensures
        parse(pattern) is Ok,
        rendered(parse(pattern)->Ok_0, root) == Ok::<Seq<char>, Failure>(pattern),
{
    lemma_parse_plain(pattern);
    if pattern.len() > 0 {
        lemma_rendered_one(TokenView::Literal(pattern), root);
    } else {
        assert(pattern =~= Seq::<char>::empty());
    }
}

/// Text written with each brace doubled compiles to one literal that holds the text,
/// and renders to the text against any value.
pub proof fn lemma_escaped_renders_text(text: Seq<char>, root: Value)
    requires
        text.len() > 0,
    ensures
        parse(escape(text)) == Ok::<Seq<TokenView>, nat>(seq![TokenView::Literal(text)]),
        rendered(seq![TokenView::Literal(text)], root) == Ok::<Seq<char>, Failure>(text),
{
    let token = TokenView::Literal(text);
    lemma_literal_source(text);
    lemma_unparse_parses(seq![token]);
    lemma_rendered_one(token, root);
}

/// The tokens of a stretch of literal text: one literal, or nothing for no text.
pub open spec fn literal_tokens(text: Seq<char>) -> Seq<TokenView> {
    if text.len() == 0 {
        Seq::empty()
    } else {
        seq![TokenView::Literal(text)]
    }
}

/// Literal text renders to itself.
proof fn lemma_literal_renders(text: Seq<char>, root: Value)
    ensures
        rendered(literal_tokens(text), root) == Ok::<Seq<char>, Failure>(text),
{
    if text.len() > 0 {
        lemma_rendered_one(TokenView::Literal(text), root);
    } else {
        assert(text =~= Seq::<char>::empty());
    }
}

/// Literal text is written escaped, and its tokens are a canonical run.
proof fn lemma_literal_source(text: Seq<char>)
    ensures
        unparse(literal_tokens(text)) == escape(text),
        canonical(literal_tokens(text)),
{
    if text.len() > 0 {
        lemma_unparse_one(TokenView::Literal(text));
    }
}

/// The pattern made of literal text, a placeholder and more literal text.
pub open spec fn framed(before: Seq<char>, path: Seq<char>, after: Seq<char>) -> Seq<char> {
    escape(before) + (seq!['{'] + path + seq!['}']) + escape(after)
}

/// A placeholder between two stretches of literal text compiles to those three.
pub proof fn lemma_framed_parses(
    before: Seq<char>,
    path: Seq<char>,
    keys: Seq<KeyView>,
    after: Seq<char>,
)
    requires
        keys_of(path) == Some(keys),
    ensures
        parse(framed(before, path, after)) == Ok::<Seq<TokenView>, nat>(
            literal_tokens(before) + seq![TokenView::Placeholder(path, keys)] + literal_tokens(
                after,
            ),
        ),
{
    let hole = TokenView::Placeholder(path, keys);
    let head = literal_tokens(before);
    let tail = literal_tokens(after);
    let tokens = head + seq![hole] + tail;
    assert(canonical(tokens)) by {
        lemma_literal_source(after);
        lemma_canonical_cons(hole, tail);
        if before.len() > 0 {
            lemma_canonical_cons(TokenView::Literal(before), seq![hole] + tail);
        }
    }
    assert(unparse(tokens) == framed(before, path, after)) by {
        lemma_literal_source(before);
        lemma_literal_source(after);
        lemma_unparse_one(hole);
        lemma_unparse_concat(head, seq![hole]);
        lemma_unparse_concat(head + seq![hole], tail);
    }
    lemma_unparse_parses(tokens);
}

/// Where the path of a placeholder names something, the pattern renders to the literal
/// text before it, the JSON text of what the path names, and the literal text after it.
pub proof fn lemma_placeholder_round_trip(
    before: Seq<char>,
    path: Seq<char>,
    keys: Seq<KeyView>,
    after: Seq<char>,
    root: Value,
    leaf: Value,
    text: Seq<char>,
)
    requires
        keys_of(path) == Some(keys),
        resolve(root, keys) == Some(leaf),
        json_text(leaf) == Ok::<Seq<char>, serde_json::Error>(text),
    ensures
        parse(framed(before, path, after)) is Ok,
        rendered(parse(framed(before, path, after))->Ok_0, root) == Ok::<Seq<char>, Failure>(
            before + text + after,
        ),
{
    let hole = TokenView::Placeholder(path, keys);
    lemma_framed_parses(before, path, keys, after);
    lemma_literal_renders(before, root);
    lemma_literal_renders(after, root);
    lemma_rendered_one(hole, root);
    lemma_rendered_concat(literal_tokens(before), seq![hole], root);
    lemma_rendered_concat(literal_tokens(before) + seq![hole], literal_tokens(after), root);
}

/// Where the path of a placeholder names nothing, rendering fails with that path,
/// whatever literal text surrounds the placeholder.
pub proof fn lemma_placeholder_missing(
    before: Seq<char>,
    path: Seq<char>,
    keys: Seq<KeyView>,
    after: Seq<char>,
    root: Value,
)
    requires
        keys_of(path) == Some(keys),
        resolve(root, keys) is None,
    ensures
        parse(framed(before, path, after)) is Ok,
        rendered(parse(framed(before, path, after))->Ok_0, root) == Err::<Seq<char>, Failure>(
            Failure::KeyNotFound(path),
        ),
{
    let hole = TokenView::Placeholder(path, keys);
    lemma_framed_parses(before, path, keys, after);
    lemma_literal_renders(before, root);
    lemma_rendered_one(hole, root);
    lemma_rendered_concat(literal_tokens(before), seq![hole], root);
    lemma_rendered_concat(literal_tokens(before) + seq![hole], literal_tokens(after), root);
}

/// Two compilations of the same pattern hold the same tokens.
pub proof fn lemma_compile_twice(a: Generator, b: Generator)
    requires
        a.wf(),
        b.wf(),
        a@.pattern == b@.pattern,
    ensures
        a@.tokens == b@.tokens,
{
}

/// Two renderings of the same compiled pattern against the same value end alike: with
/// the same text, or with the same failure.
pub proof fn lemma_render_twice(
    g: Generator,
    root: Value,
    first: Result<String, RenderError>,
    second: Result<String, RenderError>,
)
    requires
        rendered_view(first) == rendered(g@.tokens, root),
        rendered_view(second) == rendered(g@.tokens, root),
    ensures
        rendered_view(first) == rendered_view(second),
        first is Ok ==> second is Ok && first->Ok_0@ == second->Ok_0@,
{
}

} // verus!
