//! The renderer: from tokens and a JSON value to text.

use crate::json::{json_shape, json_text, member, to_text, Shape};
use crate::token::{keys_view, tokens_view, Key, KeyView, Token, TokenView};
use serde_json::Value;
use vstd::prelude::*;
use vstd::std_specs::convert::FromSpecImpl;
use vstd::string::StringExecFns;

verus! {

/// Why a pattern could not be rendered against a value.
#[derive(Debug)]
pub enum RenderError {
    /// The placeholder with this path names nothing in the value.
    KeyNotFound(String),
    /// The serializer could not write out what a placeholder names.
    Serialization(serde_json::Error),
}

impl From<serde_json::Error> for RenderError {
    fn from(err: serde_json::Error) -> (r: RenderError) {
        RenderError::Serialization(err)
    }
}

impl FromSpecImpl<serde_json::Error> for RenderError {
    open spec fn obeys_from_spec() -> bool {
        true
    }

    open spec fn from_spec(err: serde_json::Error) -> RenderError {
        RenderError::Serialization(err)
    }
}

/// Why rendering fails, as a mathematical value.
pub enum Failure {
    /// The path of the placeholder that names nothing.
    KeyNotFound(Seq<char>),
    /// The error that the serializer gave up with.
    Serialization(serde_json::Error),
}

impl View for RenderError {
    type V = Failure;

    open spec fn view(&self) -> Failure {
        match *self {
            RenderError::KeyNotFound(path) => Failure::KeyNotFound(path@),
            RenderError::Serialization(cause) => Failure::Serialization(cause),
        }
    }
}

/// One step down into a value: a position picks an element of a list, a name picks an
/// entry of a mapping, and nothing else picks anything.
pub open spec fn lookup(value: Value, key: KeyView) -> Option<Value> {
    match (key, json_shape(value)) {
        (KeyView::Id(i), Shape::List(items)) => if i < items.len() {
            Some(items[i as int])
        } else {
            None
        },
        (KeyView::Name(name), Shape::Mapping(entries)) => if entries.dom().contains(name) {
            Some(entries[name])
        } else {
            None
        },
        _ => None,
    }
}

/// What a path names in a value, its keys taken from left to right.
pub open spec fn resolve(value: Value, keys: Seq<KeyView>) -> Option<Value>
    decreases keys.len(),
{
    if keys.len() == 0 {
        Some(value)
    } else {
        match lookup(value, keys[0]) {
            Some(inner) => resolve(inner, keys.drop_first()),
            None => None,
        }
    }
}

/// The text that one token contributes.
pub open spec fn token_text(token: TokenView, root: Value) -> Result<Seq<char>, Failure> {
    match token {
        TokenView::Literal(text) => Ok(text),
        TokenView::Placeholder(path, keys) => match resolve(root, keys) {
            None => Err(Failure::KeyNotFound(path)),
            Some(leaf) => match json_text(leaf) {
                Ok(text) => Ok(text),
                Err(cause) => Err(Failure::Serialization(cause)),
            },
        },
    }
}

/// The texts of the tokens one after another, or the failure of the first token that fails.
pub open spec fn rendered(tokens: Seq<TokenView>, root: Value) -> Result<Seq<char>, Failure>
    decreases tokens.len(),
{
    if tokens.len() == 0 {
        Ok(Seq::empty())
    } else {
        match rendered(tokens.drop_last(), root) {
            Err(failure) => Err(failure),
            Ok(head) => match token_text(tokens.last(), root) {
                Err(failure) => Err(failure),
                Ok(tail) => Ok(head + tail),
            },
        }
    }
}

/// What the renderer hands back, as a mathematical value.
pub open spec fn rendered_view(r: Result<String, RenderError>) -> Result<Seq<char>, Failure> {
    match r {
        Ok(out) => Ok(out@),
        Err(e) => Err(e@),
    }
}

/// The element at position `id` of the items of a list, if it is a list and has one there.
pub fn element<'r>(items: Option<&'r Vec<Value>>, id: usize) -> (r: Option<&'r Value>)
    ensures
        r == (match items {
            Some(list) => if id < list.len() {
                Some(&list[id as int])
            } else {
                None
            },
            None => None,
        }),
{
    match items {
        Some(list) => if id < list.len() {
            Some(&list[id])
        } else {
            None
        },
        None => None,
    }
}

/// One step down into `value`.
pub fn find<'r>(value: &'r Value, key: &Key) -> (r: Option<&'r Value>)
    ensures
        match r {
            Some(inner) => lookup(*value, key@) == Some(*inner),
            None => lookup(*value, key@) is None,
        },
{
    match key {
        Key::Id(id) => element(value.as_array(), *id),
        Key::Name(name) => member(value, name.as_str()),
    }
}

/// What the path `keys` names in `root`.
pub fn follow<'r>(root: &'r Value, keys: &Vec<Key>) -> (r: Option<&'r Value>)
    ensures
        match r {
            Some(leaf) => resolve(*root, keys_view(keys@)) == Some(*leaf),
            None => resolve(*root, keys_view(keys@)) is None,
        },
{
    let mut cur: &Value = root;
    let mut i: usize = 0;
    assert(keys_view(keys@).skip(0) =~= keys_view(keys@));
    while i < keys.len()
        invariant
            i <= keys.len(),
            resolve(*root, keys_view(keys@)) == resolve(*cur, keys_view(keys@).skip(i as int)),
        decreases keys.len() - i,
    {
        let ghost rest = keys_view(keys@).skip(i as int);
        assert(rest.drop_first() =~= keys_view(keys@).skip(i + 1));
        match find(cur, &keys[i]) {
            Some(inner) => {
                cur = inner;
            },
            None => {
                return None;
            },
        }
        i += 1;
    }
    Some(cur)
}

/// Appends to `out` what the serializer made of a leaf, or hands on its failure.
pub fn push_serialized(out: &mut String, made: Result<String, serde_json::Error>) -> (r: Result<
    (),
    RenderError,
>)
    ensures
        match made {
            Ok(text) => r is Ok && final(out)@ == old(out)@ + text@,
            Err(e) => r == Err::<(), RenderError>(RenderError::Serialization(e)) && final(out)@
                == old(out)@,
        },
{
    match made {
        Ok(text) => {
            out.append(text.as_str());
            Ok(())
        },
        Err(e) => Err(RenderError::from(e)),
    }
}

/// Renders `tokens` against `root`: all of the text, or the first failure and no text.
pub fn render(tokens: &Vec<Token>, root: &Value) -> (r: Result<String, RenderError>)
    ensures
        rendered_view(r) == rendered(tokens_view(tokens@), *root),
{
    let mut out = String::new();
    let mut i: usize = 0;
    let ghost all = tokens_view(tokens@);
    while i < tokens.len()
        invariant
            i <= tokens.len(),
            all == tokens_view(tokens@),
            rendered(all.take(i as int), *root) == Ok::<Seq<char>, Failure>(out@),
        decreases tokens.len() - i,
    {
        assert(all.take(i + 1).drop_last() =~= all.take(i as int));
        match &tokens[i] {
            Token::Literal(literal) => {
                out.append(literal.as_str());
            },
            Token::Placeholder(path, keys) => {
                match follow(root, keys) {
                    None => {
                        proof {
                            lemma_rendered_fails_early(all, i + 1, *root);
                        }
                        return Err(RenderError::KeyNotFound(path.clone()));
                    },
                    Some(leaf) => {
                        match push_serialized(&mut out, to_text(leaf)) {
                            Ok(()) => {},
                            Err(e) => {
                                proof {
                                    lemma_rendered_fails_early(all, i + 1, *root);
                                }
                                return Err(e);
                            },
                        }
                    },
                }
            },
        }
        i += 1;
    }
    assert(all.take(i as int) =~= all);
    Ok(out)
}

/// A failure among the first `n` tokens is the failure of them all.
pub proof fn lemma_rendered_fails_early(tokens: Seq<TokenView>, n: int, root: Value)
    requires
        0 <= n <= tokens.len(),
        rendered(tokens.take(n), root) is Err,
    ensures
        rendered(tokens, root) == rendered(tokens.take(n), root),
    decreases tokens.len() - n,
{
    if n < tokens.len() {
        assert(tokens.take(n + 1).drop_last() =~= tokens.take(n));
        lemma_rendered_fails_early(tokens, n + 1, root);
    } else {
        assert(tokens.take(n) =~= tokens);
    }
}

/// Two outcomes one after the other: both texts joined, or the first failure.
pub open spec fn joined(a: Result<Seq<char>, Failure>, b: Result<Seq<char>, Failure>) -> Result<
    Seq<char>,
    Failure,
> {
    match a {
        Err(failure) => Err(failure),
        Ok(head) => match b {
            Err(failure) => Err(failure),
            Ok(tail) => Ok(head + tail),
        },
    }
}

/// A single token renders to its own text.
pub proof fn lemma_rendered_one(token: TokenView, root: Value)
    ensures
        rendered(seq![token], root) == token_text(token, root),
{
    assert(rendered(seq![token].drop_last(), root) == Ok::<Seq<char>, Failure>(Seq::empty()));
}

/// Two runs of tokens one after the other render to what each renders to, joined.
pub proof fn lemma_rendered_concat(a: Seq<TokenView>, b: Seq<TokenView>, root: Value)
    ensures
        rendered(a + b, root) == joined(rendered(a, root), rendered(b, root)),
    decreases b.len(),
{
    if b.len() > 0 {
        lemma_rendered_concat(a, b.drop_last(), root);
        assert((a + b).drop_last() =~= a + b.drop_last());
        match (rendered(a, root), rendered(b.drop_last(), root), token_text(b.last(), root)) {
            (Ok(x), Ok(y), Ok(z)) => {
                assert((x + y) + z =~= x + (y + z));
            },
            _ => {},
        }
    }
}

/// A position picks nothing from what is no list, and a name picks nothing from what is
/// no mapping: there is no falling back from one kind of key to the other.
pub proof fn lemma_lookup_mismatch(value: Value, key: KeyView)
    ensures
        key is Id && !(json_shape(value) is List) ==> lookup(value, key) is None,
        key is Name && !(json_shape(value) is Mapping) ==> lookup(value, key) is None,
        key is Id && json_shape(value) is Mapping ==> lookup(value, key) is None,
        key is Name && json_shape(value) is List ==> lookup(value, key) is None,
{
}

/// A path in two parts names what its second part names in what its first part names.
pub proof fn lemma_resolve_concat(root: Value, first: Seq<KeyView>, second: Seq<KeyView>)
    ensures
        resolve(root, first + second) == (match resolve(root, first) {
            Some(inner) => resolve(inner, second),
            None => None,
        }),
    decreases first.len(),
{
    if first.len() == 0 {
        assert(first + second =~= second);
    } else {
        assert((first + second).drop_first() =~= first.drop_first() + second);
        if let Some(inner) = lookup(root, first[0]) {
            lemma_resolve_concat(inner, first.drop_first(), second);
        }
    }
}

/// Once a key of a path picks nothing, the path names nothing.
pub proof fn lemma_resolve_stops(root: Value, keys: Seq<KeyView>, n: int)
    requires
        0 <= n < keys.len(),
        resolve(root, keys.take(n)) is Some,
        lookup(resolve(root, keys.take(n))->Some_0, keys[n]) is None,
    ensures
        resolve(root, keys) is None,
    decreases n,
{
    if n == 0 {
    } else {
        let inner = lookup(root, keys[0]);
        assert(keys.take(n).drop_first() =~= keys.drop_first().take(n - 1));
        lemma_resolve_stops(inner->Some_0, keys.drop_first(), n - 1);
    }
}

/// A placeholder whose path names nothing fails the whole rendering with its path,
/// whatever text came before it.
pub proof fn lemma_missing_key_fails(
    before: Seq<TokenView>,
    path: Seq<char>,
    keys: Seq<KeyView>,
    after: Seq<TokenView>,
    root: Value,
)
    requires
        rendered(before, root) is Ok,
        resolve(root, keys) is None,
    ensures
        rendered(before + seq![TokenView::Placeholder(path, keys)] + after, root) == Err::<
            Seq<char>,
            Failure,
        >(Failure::KeyNotFound(path)),
{
    let token = TokenView::Placeholder(path, keys);
    lemma_rendered_one(token, root);
    lemma_rendered_concat(before, seq![token], root);
    lemma_rendered_concat(before + seq![token], after, root);
}

} // verus!
