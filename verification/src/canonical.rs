//! The pattern that a run of tokens writes, and the shape of the token runs that
//! compiling gives. Compiling and writing out undo each other.

use crate::grammar::{
    closing, is_brace, keys_of, lemma_closing, lemma_closing_is, lemma_literal_end,
    lemma_literal_end_stops, lemma_path_chars, lemma_path_keys_alone, literal_at, literal_end,
    literal_text, literal_width, parse, path_keys, tokens_from,
};
use crate::token::TokenView;
use vstd::prelude::*;

verus! {

/// A literal as it is written in a pattern: each brace doubled.
pub open spec fn escape(text: Seq<char>) -> Seq<char>
    decreases text.len(),
{
    if text.len() == 0 {
        Seq::empty()
    } else if is_brace(text[0]) {
        seq![text[0], text[0]] + escape(text.drop_first())
    } else {
        seq![text[0]] + escape(text.drop_first())
    }
}

/// A token as it is written in a pattern.
pub open spec fn token_source(token: TokenView) -> Seq<char> {
    match token {
        TokenView::Literal(text) => escape(text),
        TokenView::Placeholder(path, _) => seq!['{'] + path + seq!['}'],
    }
}

/// A run of tokens as it is written in a pattern.
pub open spec fn unparse(tokens: Seq<TokenView>) -> Seq<char>
    decreases tokens.len(),
{
    if tokens.len() == 0 {
        Seq::empty()
    } else {
        token_source(tokens[0]) + unparse(tokens.drop_first())
    }
}

/// A literal holds some text; a placeholder holds the keys of its path.
pub open spec fn canonical_token(token: TokenView) -> bool {
    match token {
        TokenView::Literal(text) => text.len() > 0,
        TokenView::Placeholder(path, keys) => keys_of(path) == Some(keys),
    }
}

/// Every token is canonical, and no literal follows a literal: runs of literal text
/// are as long as they can be.
pub open spec fn canonical(tokens: Seq<TokenView>) -> bool {
    &&& forall|i: int| 0 <= i < tokens.len() ==> canonical_token(#[trigger] tokens[i])
    &&& forall|i: int|
        0 <= i < tokens.len() - 1 ==> !(#[trigger] tokens[i] is Literal && tokens[i + 1] is Literal)
}

/// Escaping the text of a run of literal characters gives back the run as it is written.
pub proof fn lemma_escape_literal(s: Seq<char>, i: int)
    requires
        0 <= i <= s.len(),
    ensures
        escape(literal_text(s, i)) == s.subrange(i, literal_end(s, i)),
        literal_at(s, i) ==> literal_text(s, i).len() > 0,
    decreases s.len() - i,
{
    lemma_literal_end(s, i);
    if literal_at(s, i) {
        let next = i + literal_width(s, i);
        let text = literal_text(s, i);
        lemma_escape_literal(s, next);
        lemma_literal_end(s, next);
        assert(text.drop_first() =~= literal_text(s, next));
    }
}

/// One token before a canonical run that does not start with a literal, or one
/// placeholder before any canonical run, is a canonical run.
pub proof fn lemma_canonical_cons(first: TokenView, more: Seq<TokenView>)
    requires
        canonical_token(first),
        canonical(more),
        first is Literal ==> more.len() == 0 || !(more[0] is Literal),
    ensures
        canonical(seq![first] + more),
{
    let all = seq![first] + more;
    assert forall|i: int| 0 <= i < all.len() implies canonical_token(#[trigger] all[i]) by {}
    assert forall|i: int| 0 <= i < all.len() - 1 implies !(#[trigger] all[i] is Literal && all[i
        + 1] is Literal) by {}
}

/// What compiles from `i` on is a canonical run of tokens that writes `s[i..]`.
pub proof fn lemma_tokens_from_sound(s: Seq<char>, i: int)
    requires
        0 <= i <= s.len(),
        tokens_from(s, i) is Ok,
    ensures
        canonical(tokens_from(s, i)->Ok_0),
        unparse(tokens_from(s, i)->Ok_0) == s.subrange(i, s.len() as int),
        i < s.len() ==> tokens_from(s, i)->Ok_0.len() > 0,
        tokens_from(s, i)->Ok_0.len() > 0 && tokens_from(s, i)->Ok_0[0] is Literal ==> literal_at(
            s,
            i,
        ),
    decreases s.len() - i,
{
    if i >= s.len() {
    } else if literal_at(s, i) {
        let end = literal_end(s, i);
        lemma_literal_end(s, i);
        lemma_literal_end_stops(s, i);
        lemma_escape_literal(s, i);
        lemma_tokens_from_sound(s, end);
        let first = TokenView::Literal(literal_text(s, i));
        let more = tokens_from(s, end)->Ok_0;
        lemma_canonical_cons(first, more);
        assert((seq![first] + more).drop_first() =~= more);
    } else {
        let close = closing(s, i + 1);
        lemma_closing(s, i + 1);
        lemma_path_keys_alone(s, i + 1, close);
        lemma_tokens_from_sound(s, close + 1);
        let first = TokenView::Placeholder(
            s.subrange(i + 1, close),
            path_keys(s, i + 1, close)->Some_0,
        );
        let more = tokens_from(s, close + 1)->Ok_0;
        lemma_canonical_cons(first, more);
        assert((seq![first] + more).drop_first() =~= more);
    }
}

/// What a pattern compiles to is a canonical run of tokens that writes the pattern, and
/// it holds a token unless the pattern is empty.
pub proof fn lemma_parse_sound(s: Seq<char>)
    requires
        parse(s) is Ok,
    ensures
        canonical(parse(s)->Ok_0),
        unparse(parse(s)->Ok_0) == s,
        s.len() > 0 ==> parse(s)->Ok_0.len() > 0,
{
    lemma_tokens_from_sound(s, 0);
}

/// The same outcome with a failure's position moved `k` characters to the right.
pub open spec fn shifted(r: Result<Seq<TokenView>, nat>, k: nat) -> Result<Seq<TokenView>, nat> {
    match r {
        Ok(tokens) => Ok(tokens),
        Err(at) => Err(at + k),
    }
}

/// A run of literal characters is the same run when the pattern is read from `k` on.
proof fn lemma_literal_shift(s: Seq<char>, k: int, i: int)
    requires
        0 <= k <= s.len(),
        0 <= i <= s.len() - k,
    ensures
        literal_at(s, k + i) == literal_at(s.skip(k), i),
        literal_end(s, k + i) == k + literal_end(s.skip(k), i),
        literal_text(s, k + i) == literal_text(s.skip(k), i),
    decreases s.len() - k - i,
{
    if literal_at(s, k + i) {
        lemma_literal_shift(s, k, i + literal_width(s, k + i));
    }
}

/// The first `'}'` is the same one when the pattern is read from `k` on.
proof fn lemma_closing_shift(s: Seq<char>, k: int, i: int)
    requires
        0 <= k <= s.len(),
        0 <= i <= s.len() - k,
    ensures
        closing(s, k + i) == k + closing(s.skip(k), i),
    decreases s.len() - k - i,
{
    if k + i < s.len() && s[k + i] != '}' {
        lemma_closing_shift(s, k, i + 1);
    }
}

/// Compiling reads nothing before the position it starts at: from `k + i` on, a pattern
/// compiles as what is left of it after `k` characters does from `i` on.
pub proof fn lemma_tokens_from_shift(s: Seq<char>, k: int, i: int)
    requires
        0 <= k <= s.len(),
        0 <= i <= s.len() - k,
    ensures
        tokens_from(s, k + i) == shifted(tokens_from(s.skip(k), i), k as nat),
    decreases s.len() - k - i,
{
    let rest = s.skip(k);
    lemma_literal_shift(s, k, i);
    if k + i >= s.len() {
    } else if literal_at(s, k + i) {
        lemma_literal_end(rest, i);
        lemma_tokens_from_shift(s, k, literal_end(rest, i));
    } else if s[k + i] == '{' {
        let close = closing(rest, i + 1);
        lemma_closing_shift(s, k, i + 1);
        lemma_closing(rest, i + 1);
        if close < rest.len() {
            lemma_path_keys_alone(s, k + i + 1, k + close);
            lemma_path_keys_alone(rest, i + 1, close);
            assert(s.subrange(k + i + 1, k + close) =~= rest.subrange(i + 1, close));
            lemma_tokens_from_shift(s, k, close + 1);
        }
    }
}

/// Escaped text, before something that starts no literal character, reads back as one
/// run of literal characters with that text.
proof fn lemma_escape_decodes(text: Seq<char>, tail: Seq<char>)
    requires
        !literal_at(tail, 0),
    ensures
        literal_end(escape(text) + tail, 0) == escape(text).len(),
        literal_text(escape(text) + tail, 0) == text,
        text.len() > 0 ==> literal_at(escape(text) + tail, 0),
    decreases text.len(),
{
    if text.len() > 0 {
        let s = escape(text) + tail;
        let w: int = if is_brace(text[0]) {
            2
        } else {
            1
        };
        lemma_escape_decodes(text.drop_first(), tail);
        assert(s.skip(w) =~= escape(text.drop_first()) + tail);
        lemma_literal_shift(s, w, 0);
    }
}

/// What follows the first token of a canonical run is a canonical run.
proof fn lemma_canonical_tail(tokens: Seq<TokenView>)
    requires
        canonical(tokens),
        tokens.len() > 0,
    ensures
        canonical(tokens.drop_first()),
{
    let tail = tokens.drop_first();
    assert forall|i: int| 0 <= i < tail.len() implies canonical_token(#[trigger] tail[i]) by {}
    assert forall|i: int| 0 <= i < tail.len() - 1 implies !(#[trigger] tail[i] is Literal && tail[i
        + 1] is Literal) by {}
}

/// A canonical run that starts with a placeholder is written with a `'{'` that starts
/// no literal character.
proof fn lemma_placeholder_source(tokens: Seq<TokenView>)
    requires
        canonical(tokens),
        tokens.len() > 0,
        tokens[0] is Placeholder,
    ensures
        !literal_at(unparse(tokens), 0),
        unparse(tokens).len() > 0,
        unparse(tokens)[0] == '{',
{
    let path = tokens[0]->Placeholder_0;
    lemma_path_chars(path, 0, path.len() as int);
}

/// Compiling what a canonical run of tokens writes gives back the run.
pub proof fn lemma_unparse_parses(tokens: Seq<TokenView>)
    requires
        canonical(tokens),
    ensures
        parse(unparse(tokens)) == Ok::<Seq<TokenView>, nat>(tokens),
    decreases tokens.len(),
{
    let s = unparse(tokens);
    if tokens.len() > 0 {
        let rest = tokens.drop_first();
        let tail = unparse(rest);
        let k = token_source(tokens[0]).len() as int;
        lemma_canonical_tail(tokens);
        lemma_unparse_parses(rest);
        assert(s.skip(k) =~= tail);
        lemma_tokens_from_shift(s, k, 0);
        assert(seq![tokens[0]] + rest =~= tokens);
        match tokens[0] {
            TokenView::Literal(text) => {
                if rest.len() > 0 {
                    lemma_placeholder_source(rest);
                }
                lemma_escape_decodes(text, tail);
            },
            TokenView::Placeholder(path, keys) => {
                let close = 1 + path.len() as int;
                lemma_placeholder_source(tokens);
                lemma_path_chars(path, 0, path.len() as int);
                assert forall|j: int| 1 <= j < close implies s[j] != '}' by {}
                lemma_closing_is(s, 1, close);
                lemma_path_keys_alone(s, 1, close);
                assert(s.subrange(1, close) =~= path);
            },
        }
    } else {
        assert(tokens =~= Seq::<TokenView>::empty());
    }
}

/// Two canonical runs of tokens that write the same pattern are the same run.
pub proof fn lemma_canonical_unique(a: Seq<TokenView>, b: Seq<TokenView>)
    requires
        canonical(a),
        canonical(b),
        unparse(a) == unparse(b),
    ensures
        a == b,
{
    lemma_unparse_parses(a);
    lemma_unparse_parses(b);
}

/// A pattern compiles to a run of tokens exactly if the run is canonical and writes the
/// pattern.
pub proof fn lemma_parse_is_inverse(s: Seq<char>, tokens: Seq<TokenView>)
    ensures
        parse(s) == Ok::<Seq<TokenView>, nat>(tokens) <==> canonical(tokens) && unparse(tokens)
            == s,
{
    if parse(s) == Ok::<Seq<TokenView>, nat>(tokens) {
        lemma_parse_sound(s);
    }
    if canonical(tokens) && unparse(tokens) == s {
        lemma_unparse_parses(tokens);
    }
}

/// A pattern fails to compile exactly if no canonical run of tokens writes it.
pub proof fn lemma_parse_fails(s: Seq<char>)
    ensures
        parse(s) is Err <==> forall|tokens: Seq<TokenView>|
            canonical(tokens) ==> #[trigger] unparse(tokens) != s,
{
    if parse(s) is Ok {
        lemma_parse_sound(s);
        assert(unparse(parse(s)->Ok_0) == s);
    } else {
        assert forall|tokens: Seq<TokenView>| canonical(tokens) implies #[trigger] unparse(tokens)
            != s by {
            lemma_unparse_parses(tokens);
        }
    }
}

/// Two runs of tokens one after the other write what each writes, one after the other.
pub proof fn lemma_unparse_concat(a: Seq<TokenView>, b: Seq<TokenView>)
    ensures
        unparse(a + b) == unparse(a) + unparse(b),
    decreases a.len(),
{
    if a.len() > 0 {
        lemma_unparse_concat(a.drop_first(), b);
        assert((a + b).drop_first() =~= a.drop_first() + b);
    }
}

/// A single token is written as itself.
pub proof fn lemma_unparse_one(token: TokenView)
    ensures
        unparse(seq![token]) == token_source(token),
{
    assert(unparse(seq![token].drop_first()) =~= Seq::<char>::empty());
}

/// Every placeholder of a canonical run has at least one key.
pub proof fn lemma_canonical_keys(tokens: Seq<TokenView>, i: int)
    requires
        canonical(tokens),
        0 <= i < tokens.len(),
        tokens[i] is Placeholder,
    ensures
        tokens[i]->Placeholder_1.len() >= 1,
{
    let path = tokens[i]->Placeholder_0;
    lemma_path_chars(path, 0, path.len() as int);
}

} // verus!
