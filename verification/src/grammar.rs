//! The pattern language, as mathematical functions on sequences of characters.
//!
//! ```text
//! expression   := (placeholder | literal_run)*
//! literal_run  := literal_char+
//! literal_char := "{{" | "}}" | any character but '{' and '}'
//! placeholder  := '{' key ('.' key)* '}'
//! key          := digit+ | letter (letter | digit)*
//! ```
//!
//! A literal run is as long as it can be, and a literal token holds its text with each
//! doubled brace taken as one. A brace that is neither doubled nor part of a placeholder
//! makes the pattern wrong. Positions are counted in characters from the start of the
//! pattern.

use crate::token::{KeyView, TokenView};
use vstd::prelude::*;

verus! {

/// A decimal digit.
pub open spec fn is_digit(c: char) -> bool {
    '0' <= c && c <= '9'
}

/// A letter of the Latin alphabet, small or capital.
pub open spec fn is_letter(c: char) -> bool {
    ('a' <= c && c <= 'z') || ('A' <= c && c <= 'Z')
}

/// One of the two braces.
pub open spec fn is_brace(c: char) -> bool {
    c == '{' || c == '}'
}

/// A run of one or more digits.
pub open spec fn is_number(t: Seq<char>) -> bool {
    t.len() > 0 && forall|i: int| 0 <= i < t.len() ==> is_digit(#[trigger] t[i])
}

/// A letter followed by letters and digits.
pub open spec fn is_identifier(t: Seq<char>) -> bool {
    t.len() > 0 && is_letter(t[0]) && forall|i: int|
        0 <= i < t.len() ==> is_letter(#[trigger] t[i]) || is_digit(t[i])
}

/// The number that a run of digits writes in base ten.
pub open spec fn number_value(t: Seq<char>) -> nat
    decreases t.len(),
{
    if t.len() == 0 {
        0
    } else {
        number_value(t.drop_last()) * 10 + (t.last() as nat - '0' as nat) as nat
    }
}

/// The key that a path segment stands for: a run of digits is a position, if it fits the
/// machine's word; an identifier is a name; anything else is no key.
pub open spec fn key_of(t: Seq<char>) -> Option<KeyView> {
    if is_number(t) {
        if number_value(t) <= usize::MAX {
            Some(KeyView::Id(number_value(t)))
        } else {
            None
        }
    } else if is_identifier(t) {
        Some(KeyView::Name(t))
    } else {
        None
    }
}

/// How many characters of `s[i..end]` come before its first `'.'`.
pub open spec fn segment_len(s: Seq<char>, i: int, end: int) -> nat
    decreases end - i,
{
    if i >= end || s[i] == '.' {
        0
    } else {
        1 + segment_len(s, i + 1, end)
    }
}

/// The keys of the path `s[i..end]`: its segments between dots, each one a key.
/// `None` where a segment is no key.
pub open spec fn path_keys(s: Seq<char>, i: int, end: int) -> Option<Seq<KeyView>>
    decreases end - i,
{
    let dot = i + segment_len(s, i, end);
    match key_of(s.subrange(i, dot)) {
        None => None,
        Some(key) => if dot >= end {
            Some(seq![key])
        } else {
            match path_keys(s, dot + 1, end) {
                None => None,
                Some(rest) => Some(seq![key] + rest),
            }
        },
    }
}

/// A literal character starts at `i`: a character that is no brace, or a doubled brace.
pub open spec fn literal_at(s: Seq<char>, i: int) -> bool {
    0 <= i < s.len() && (!is_brace(s[i]) || (i + 1 < s.len() && s[i + 1] == s[i]))
}

/// How many characters of the pattern the literal character at `i` takes.
pub open spec fn literal_width(s: Seq<char>, i: int) -> int {
    if is_brace(s[i]) {
        2
    } else {
        1
    }
}

/// Where the longest run of literal characters that starts at `i` ends.
pub open spec fn literal_end(s: Seq<char>, i: int) -> int
    decreases s.len() - i,
{
    if literal_at(s, i) {
        literal_end(s, i + literal_width(s, i))
    } else {
        i
    }
}

/// The text of the longest run of literal characters that starts at `i`, each doubled
/// brace taken as one.
pub open spec fn literal_text(s: Seq<char>, i: int) -> Seq<char>
    decreases s.len() - i,
{
    if literal_at(s, i) {
        seq![s[i]] + literal_text(s, i + literal_width(s, i))
    } else {
        Seq::empty()
    }
}

/// The position of the first `'}'` at or after `i`, or the pattern's length if there is none.
pub open spec fn closing(s: Seq<char>, i: int) -> int
    decreases s.len() - i,
{
    if i >= s.len() || s[i] == '}' {
        i
    } else {
        closing(s, i + 1)
    }
}

/// A placeholder starts at `i`: a `'{'`, a path that has keys, and the first `'}'` after
/// the `'{'`.
pub open spec fn placeholder_at(s: Seq<char>, i: int) -> bool {
    &&& 0 <= i < s.len()
    &&& s[i] == '{'
    &&& closing(s, i + 1) < s.len()
    &&& path_keys(s, i + 1, closing(s, i + 1)) is Some
}

/// `tokens` before what follows them, or the failure of what follows.
pub open spec fn prepend(tokens: Seq<TokenView>, rest: Result<Seq<TokenView>, nat>) -> Result<
    Seq<TokenView>,
    nat,
> {
    match rest {
        Ok(more) => Ok(tokens + more),
        Err(at) => Err(at),
    }
}

/// The tokens of `s[i..]`: a literal for each longest run of literal characters, a
/// placeholder for each path in braces. Where neither a literal character nor a
/// placeholder starts, the pattern is wrong, and the result is that position: it is the
/// position of a `'}'` that closes nothing or of a `'{'` that opens no placeholder.
pub open spec fn tokens_from(s: Seq<char>, i: int) -> Result<Seq<TokenView>, nat>
    decreases s.len() - i,
{
    if i < 0 || i >= s.len() {
        Ok(Seq::empty())
    } else if literal_at(s, i) {
        proof {
            lemma_literal_end(s, i);
        }
        prepend(seq![TokenView::Literal(literal_text(s, i))], tokens_from(s, literal_end(s, i)))
    } else if placeholder_at(s, i) {
        let close = closing(s, i + 1);
        prepend(
            seq![
                TokenView::Placeholder(
                    s.subrange(i + 1, close),
                    path_keys(s, i + 1, close)->Some_0,
                ),
            ],
            tokens_from(s, close + 1),
        )
    } else {
        Err(i as nat)
    }
}

/// What a pattern compiles to.
pub open spec fn parse(s: Seq<char>) -> Result<Seq<TokenView>, nat> {
    tokens_from(s, 0)
}

/// The keys of a path that stands alone.
pub open spec fn keys_of(path: Seq<char>) -> Option<Seq<KeyView>> {
    path_keys(path, 0, path.len() as int)
}

/// No character of `s` is a brace.
pub open spec fn is_plain(s: Seq<char>) -> bool {
    forall|i: int| 0 <= i < s.len() ==> !is_brace(#[trigger] s[i])
}

/// A run of literal characters ends after its start and within the pattern.
pub proof fn lemma_literal_end(s: Seq<char>, i: int)
    requires
        0 <= i <= s.len(),
    ensures
        i <= literal_end(s, i) <= s.len(),
        literal_at(s, i) ==> i < literal_end(s, i),
    decreases s.len() - i,
{
    if literal_at(s, i) {
        lemma_literal_end(s, i + literal_width(s, i));
    }
}

/// Where a run of literal characters ends, no literal character starts.
pub proof fn lemma_literal_end_stops(s: Seq<char>, i: int)
    requires
        0 <= i <= s.len(),
    ensures
        !literal_at(s, literal_end(s, i)),
    decreases s.len() - i,
{
    if literal_at(s, i) {
        lemma_literal_end_stops(s, i + literal_width(s, i));
    }
}

/// The first `'}'` at or after `i` lies within the pattern or at its end, and no `'}'`
/// comes before it.
pub proof fn lemma_closing(s: Seq<char>, i: int)
    requires
        0 <= i <= s.len(),
    ensures
        i <= closing(s, i) <= s.len(),
        closing(s, i) < s.len() ==> s[closing(s, i)] == '}',
        forall|j: int| i <= j < closing(s, i) ==> s[j] != '}',
    decreases s.len() - i,
{
    if i < s.len() && s[i] != '}' {
        lemma_closing(s, i + 1);
    }
}

/// The first `'}'` at or after `i` is at `c` if one is there and none comes before.
pub proof fn lemma_closing_is(s: Seq<char>, i: int, c: int)
    requires
        0 <= i <= c < s.len(),
        s[c] == '}',
        forall|j: int| i <= j < c ==> s[j] != '}',
    ensures
        closing(s, i) == c,
    decreases c - i,
{
    if i < c {
        lemma_closing_is(s, i + 1, c);
    }
}

/// The first segment of a path lies within the path.
pub proof fn lemma_segment_len_bound(s: Seq<char>, i: int, end: int)
    requires
        0 <= i <= end <= s.len(),
    ensures
        i + segment_len(s, i, end) <= end,
        forall|j: int| i <= j < i + segment_len(s, i, end) ==> s[j] != '.',
        i + segment_len(s, i, end) < end ==> s[i + segment_len(s, i, end)] == '.',
    decreases end - i,
{
    if i < end && s[i] != '.' {
        lemma_segment_len_bound(s, i + 1, end);
    }
}

/// Where the first segment ends depends on the path alone, not on what surrounds it.
proof fn lemma_segment_len_extract(s: Seq<char>, i: int, end: int, x: int)
    requires
        0 <= i <= end <= s.len(),
        0 <= x <= end - i,
    ensures
        segment_len(s, i + x, end) == segment_len(s.subrange(i, end), x, end - i),
    decreases end - i - x,
{
    if i + x < end && s[i + x] != '.' {
        lemma_segment_len_extract(s, i, end, x + 1);
    }
}

/// The keys of a path depend on the path alone, not on what surrounds it.
proof fn lemma_path_keys_extract(s: Seq<char>, i: int, end: int, x: int)
    requires
        0 <= i <= end <= s.len(),
        0 <= x <= end - i,
    ensures
        path_keys(s, i + x, end) == path_keys(s.subrange(i, end), x, end - i),
    decreases end - i - x,
{
    let w = s.subrange(i, end);
    lemma_segment_len_extract(s, i, end, x);
    lemma_segment_len_bound(s, i + x, end);
    let n = segment_len(s, i + x, end);
    assert(s.subrange(i + x, i + x + n) =~= w.subrange(x, x + n));
    if i + x + n < end {
        lemma_path_keys_extract(s, i, end, x + n + 1);
    }
}

/// The keys of the path between two positions of a pattern are the keys of that path
/// standing alone.
pub proof fn lemma_path_keys_alone(s: Seq<char>, i: int, end: int)
    requires
        0 <= i <= end <= s.len(),
    ensures
        path_keys(s, i, end) == keys_of(s.subrange(i, end)),
{
    lemma_path_keys_extract(s, i, end, 0);
}

/// A path that has keys is not empty, holds no brace, and has at least one key.
pub proof fn lemma_path_chars(s: Seq<char>, i: int, end: int)
    requires
        0 <= i <= end <= s.len(),
        path_keys(s, i, end) is Some,
    ensures
        i < end,
        path_keys(s, i, end)->Some_0.len() >= 1,
        forall|j: int| i <= j < end ==> !is_brace(#[trigger] s[j]),
    decreases end - i,
{
    lemma_segment_len_bound(s, i, end);
    let dot = i + segment_len(s, i, end);
    let segment = s.subrange(i, dot);
    assert forall|j: int| i <= j < dot implies !is_brace(#[trigger] s[j]) by {
        assert(segment[j - i] == s[j]);
    }
    if dot < end {
        lemma_path_chars(s, dot + 1, end);
    }
}

/// No tokens before what follows change nothing.
pub proof fn lemma_prepend_none(rest: Result<Seq<TokenView>, nat>)
    ensures
        prepend(Seq::empty(), rest) == rest,
{
    if let Ok(more) = rest {
        assert(Seq::<TokenView>::empty() + more =~= more);
    }
}

/// Tokens before more tokens before what follows: the same however they are grouped.
pub proof fn lemma_prepend_twice(
    first: Seq<TokenView>,
    second: Seq<TokenView>,
    rest: Result<Seq<TokenView>, nat>,
)
    ensures
        prepend(first, prepend(second, rest)) == prepend(first + second, rest),
{
    if let Ok(more) = rest {
        assert(first + (second + more) =~= (first + second) + more);
    }
}

/// From `i` on, a pattern without braces is one run of literal characters that stands
/// for itself.
pub proof fn lemma_plain_run(s: Seq<char>, i: int)
    requires
        is_plain(s),
        0 <= i <= s.len(),
    ensures
        literal_end(s, i) == s.len(),
        literal_text(s, i) == s.subrange(i, s.len() as int),
    decreases s.len() - i,
{
    if i < s.len() {
        lemma_plain_run(s, i + 1);
    }
}

/// A pattern without braces compiles to one literal that holds the pattern, and the
/// empty pattern to no token at all.
pub proof fn lemma_parse_plain(s: Seq<char>)
    requires
        is_plain(s),
    ensures
        parse(s) == Ok::<Seq<TokenView>, nat>(
            if s.len() == 0 {
                Seq::empty()
            } else {
                seq![TokenView::Literal(s)]
            },
        ),
{
    if s.len() > 0 {
        lemma_plain_run(s, 0);
        assert(s.subrange(0, s.len() as int) =~= s);
        assert(tokens_from(s, s.len() as int) == Ok::<Seq<TokenView>, nat>(Seq::empty()));
    }
}

} // verus!
