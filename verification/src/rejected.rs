//! Where a pattern is rejected: at the end of the longest part of it that compiles, where
//! neither a literal character nor a placeholder starts.

use crate::grammar::{
    closing, is_brace, lemma_closing, lemma_closing_is, lemma_literal_end, lemma_path_keys_alone,
    lemma_prepend_none, lemma_prepend_twice, literal_at, literal_end, literal_text,
    literal_width, parse, path_keys, placeholder_at, prepend, tokens_from,
};
use crate::token::TokenView;
use vstd::prelude::*;

verus! {

/// A run of literal characters that ends at or before `at` is the same run in the first
/// `at` characters of the pattern.
proof fn lemma_literal_in_prefix(s: Seq<char>, at: int, i: int)
    requires
        0 <= i <= at <= s.len(),
        literal_end(s, i) <= at,
    ensures
        literal_at(s.take(at), i) == literal_at(s, i),
        literal_end(s.take(at), i) == literal_end(s, i),
        literal_text(s.take(at), i) == literal_text(s, i),
    decreases at - i,
{
    if literal_at(s, i) {
        let next = i + literal_width(s, i);
        lemma_literal_end(s, next);
        lemma_literal_in_prefix(s, at, next);
    }
}

/// A placeholder that ends before `at` is the same placeholder in the first `at`
/// characters of the pattern, and the other way round.
proof fn lemma_placeholder_in_prefix(s: Seq<char>, at: int, i: int, close: int)
    requires
        0 <= i < close < at <= s.len(),
        closing(s, i + 1) == close || closing(s.take(at), i + 1) == close,
    ensures
        closing(s, i + 1) == close,
        closing(s.take(at), i + 1) == close,
        path_keys(s, i + 1, close) == path_keys(s.take(at), i + 1, close),
        s.subrange(i + 1, close) == s.take(at).subrange(i + 1, close),
{
    let p = s.take(at);
    if closing(s, i + 1) == close {
        lemma_closing(s, i + 1);
        lemma_closing_is(p, i + 1, close);
    } else {
        lemma_closing(p, i + 1);
        assert forall|j: int| i + 1 <= j < close implies s[j] != '}' by {
            assert(p[j] == s[j]);
        }
        lemma_closing_is(s, i + 1, close);
    }
    lemma_path_keys_alone(s, i + 1, close);
    lemma_path_keys_alone(p, i + 1, close);
    assert(s.subrange(i + 1, close) =~= p.subrange(i + 1, close));
}

/// In the first `at` characters of a pattern, a run of literal characters after which
/// they compile is the same run in the whole pattern, if no literal character starts
/// at `at`.
proof fn lemma_literal_from_prefix(s: Seq<char>, at: int, i: int)
    requires
        0 <= i <= at <= s.len(),
        !literal_at(s, at),
        tokens_from(s.take(at), literal_end(s.take(at), i)) is Ok,
    ensures
        literal_at(s, i) == literal_at(s.take(at), i),
        literal_end(s, i) == literal_end(s.take(at), i),
        literal_text(s, i) == literal_text(s.take(at), i),
    decreases at - i,
{
    let p = s.take(at);
    if literal_at(p, i) {
        lemma_literal_from_prefix(s, at, i + literal_width(p, i));
    } else if i + 1 == at {
        // a brace at the end of the first `at` characters would not let them compile
        assert(tokens_from(p, i) is Err);
    }
}

/// The first `at` characters of a pattern compile to the tokens that the pattern starts
/// with, if they compile and no literal character starts at `at`.
proof fn lemma_tokens_from_prefix(s: Seq<char>, at: int, i: int)
    requires
        0 <= i <= at <= s.len(),
        !literal_at(s, at),
        tokens_from(s.take(at), i) is Ok,
    ensures
        tokens_from(s, i) == prepend(tokens_from(s.take(at), i)->Ok_0, tokens_from(s, at)),
    decreases at - i,
{
    let p = s.take(at);
    if i >= at {
        lemma_prepend_none(tokens_from(s, at));
    } else if literal_at(p, i) {
        let end = literal_end(p, i);
        lemma_literal_end(p, i);
        lemma_literal_from_prefix(s, at, i);
        lemma_tokens_from_prefix(s, at, end);
        lemma_prepend_twice(
            seq![TokenView::Literal(literal_text(p, i))],
            tokens_from(p, end)->Ok_0,
            tokens_from(s, at),
        );
    } else {
        let close = closing(p, i + 1);
        lemma_closing(p, i + 1);
        lemma_placeholder_in_prefix(s, at, i, close);
        lemma_tokens_from_prefix(s, at, close + 1);
        lemma_prepend_twice(
            seq![
                TokenView::Placeholder(
                    p.subrange(i + 1, close),
                    path_keys(p, i + 1, close)->Some_0,
                ),
            ],
            tokens_from(p, close + 1)->Ok_0,
            tokens_from(s, at),
        );
    }
}

/// Where compiling from `i` on fails, it fails at a position where neither a literal
/// character nor a placeholder starts, and what lies between compiles.
proof fn lemma_tokens_from_fails(s: Seq<char>, i: int)
    requires
        0 <= i <= s.len(),
        tokens_from(s, i) is Err,
    ensures
        i <= tokens_from(s, i)->Err_0 < s.len(),
        !literal_at(s, tokens_from(s, i)->Err_0 as int),
        !placeholder_at(s, tokens_from(s, i)->Err_0 as int),
        tokens_from(s.take(tokens_from(s, i)->Err_0 as int), i) is Ok,
    decreases s.len() - i,
{
    let at = tokens_from(s, i)->Err_0 as int;
    if literal_at(s, i) {
        let end = literal_end(s, i);
        lemma_literal_end(s, i);
        lemma_tokens_from_fails(s, end);
        lemma_literal_in_prefix(s, at, i);
    } else if placeholder_at(s, i) {
        let close = closing(s, i + 1);
        lemma_closing(s, i + 1);
        lemma_tokens_from_fails(s, close + 1);
        lemma_placeholder_in_prefix(s, at, i, close);
    }
}

/// A pattern is rejected at `at` exactly if its first `at` characters compile and neither
/// a literal character nor a placeholder starts at `at`.
pub proof fn lemma_parse_rejects(s: Seq<char>, at: nat)
    ensures
        parse(s) == Err::<Seq<TokenView>, nat>(at) <==> {
            &&& at < s.len()
            &&& parse(s.take(at as int)) is Ok
            &&& !literal_at(s, at as int)
            &&& !placeholder_at(s, at as int)
        },
{
    if parse(s) == Err::<Seq<TokenView>, nat>(at) {
        lemma_tokens_from_fails(s, 0);
    }
    if at < s.len() && parse(s.take(at as int)) is Ok && !literal_at(s, at as int)
        && !placeholder_at(s, at as int) {
        lemma_tokens_from_prefix(s, at as int, 0);
    }
}

/// A pattern is rejected at a brace, never at any other character.
pub proof fn lemma_rejected_at_brace(s: Seq<char>)
    requires
        parse(s) is Err,
    ensures
        parse(s)->Err_0 < s.len(),
        is_brace(s[parse(s)->Err_0 as int]),
{
    lemma_tokens_from_fails(s, 0);
}

} // verus!
