//! The parser: from the characters of a pattern to its tokens.

use crate::grammar::{
    closing, is_digit, is_letter, key_of, lemma_literal_end, lemma_prepend_none,
    lemma_prepend_twice, literal_at, literal_end, literal_text, number_value, parse, path_keys,
    prepend, segment_len, tokens_from,
};
use crate::text::{chars_of, string_of};
use crate::token::{keys_view, tokens_view, Key, Token, TokenView};
use vstd::prelude::*;

verus! {

fn digit(c: char) -> (r: bool)
    ensures
        r == is_digit(c),
{
    '0' <= c && c <= '9'
}

fn letter(c: char) -> (r: bool)
    ensures
        r == is_letter(c),
{
    ('a' <= c && c <= 'z') || ('A' <= c && c <= 'Z')
}

/// A longer run of digits writes no smaller number than any of its prefixes.
proof fn lemma_number_value_grows(t: Seq<char>, k: int)
    requires
        0 <= k <= t.len(),
    ensures
        number_value(t.take(k)) <= number_value(t),
    decreases t.len() - k,
{
    if k < t.len() {
        lemma_number_value_grows(t, k + 1);
        assert(t.take(k + 1).drop_last() =~= t.take(k));
    } else {
        assert(t.take(k) =~= t);
    }
}

/// The key that `chars[from..to]` stands for.
pub(crate) fn parse_key(chars: &Vec<char>, from: usize, to: usize) -> (r: Option<Key>)
    requires
        from <= to <= chars.len(),
    ensures
        match r {
            Some(key) => key_of(chars@.subrange(from as int, to as int)) == Some(key@),
            None => key_of(chars@.subrange(from as int, to as int)) is None,
        },
{
    let ghost t = chars@.subrange(from as int, to as int);
    if from == to {
        return None;
    }
    let first = chars[from];
    assert(t[0] == first);
    if digit(first) {
        let mut value: usize = 0;
        let mut i: usize = from;
        while i < to
            invariant
                from <= i <= to <= chars.len(),
                t == chars@.subrange(from as int, to as int),
                is_digit(t[0]),
                forall|j: int| 0 <= j < i - from ==> is_digit(#[trigger] t[j]),
                value == number_value(t.take(i - from)),
            decreases to - i,
        {
            let c = chars[i];
            assert(t[i - from] == c);
            if !digit(c) {
                return None;
            }
            let ghost k: int = i - from + 1;
            assert(t.take(k).drop_last() =~= t.take(k - 1));
            let d: usize = (c as u32 - '0' as u32) as usize;
            let scaled = value.checked_mul(10);
            let next = match scaled {
                Some(v) => v.checked_add(d),
                None => None,
            };
            match next {
                Some(v) => {
                    value = v;
                },
                None => {
                    proof {
                        lemma_number_value_grows(t, k);
                    }
                    return None;
                },
            }
            i += 1;
        }
        assert(t.take(i - from) =~= t);
        Some(Key::Id(value))
    } else if letter(first) {
        let mut i: usize = from;
        while i < to
            invariant
                from <= i <= to <= chars.len(),
                t == chars@.subrange(from as int, to as int),
                forall|j: int| 0 <= j < i - from ==> is_letter(#[trigger] t[j]) || is_digit(t[j]),
            decreases to - i,
        {
            let c = chars[i];
            assert(t[i - from] == c);
            if !letter(c) && !digit(c) {
                return None;
            }
            i += 1;
        }
        Some(Key::Name(string_of(chars, from, to)))
    } else {
        None
    }
}

/// The keys of the path `chars[from..to]`.
pub(crate) fn parse_path(chars: &Vec<char>, from: usize, to: usize) -> (r: Option<Vec<Key>>)
    requires
        from <= to <= chars.len(),
    ensures
        match r {
            Some(keys) => path_keys(chars@, from as int, to as int) == Some(keys_view(keys@)),
            None => path_keys(chars@, from as int, to as int) is None,
        },
{
    let mut keys: Vec<Key> = Vec::new();
    let mut start: usize = from;
    loop
        invariant
            from <= start <= to <= chars.len(),
            path_keys(chars@, from as int, to as int) == (match path_keys(
                chars@,
                start as int,
                to as int,
            ) {
                Some(rest) => Some(keys_view(keys@) + rest),
                None => None,
            }),
        decreases to - start,
    {
        let mut dot: usize = start;
        while dot < to && chars[dot] != '.'
            invariant
                start <= dot <= to <= chars.len(),
                segment_len(chars@, start as int, to as int) == (dot - start) + segment_len(
                    chars@,
                    dot as int,
                    to as int,
                ),
            decreases to - dot,
        {
            dot += 1;
        }
        match parse_key(chars, start, dot) {
            None => {
                return None;
            },
            Some(key) => {
                keys.push(key);
                if dot >= to {
                    return Some(keys);
                }
                start = dot + 1;
            },
        }
    }
}

fn literal_here(chars: &Vec<char>, i: usize) -> (r: bool)
    ensures
        r == literal_at(chars@, i as int),
{
    if i >= chars.len() {
        return false;
    }
    let c = chars[i];
    if c == '{' || c == '}' {
        i + 1 < chars.len() && chars[i + 1] == c
    } else {
        true
    }
}

/// The longest run of literal characters that starts at `from`: its text, and where it ends.
pub(crate) fn parse_literal(chars: &Vec<char>, from: usize) -> (r: (String, usize))
    requires
        from <= chars.len(),
    ensures
        r.0@ == literal_text(chars@, from as int),
        r.1 == literal_end(chars@, from as int),
        from <= r.1 <= chars.len(),
{
    let mut text = String::new();
    let mut i: usize = from;
    while literal_here(chars, i)
        invariant
            from <= i <= chars.len(),
            literal_text(chars@, from as int) == text@ + literal_text(chars@, i as int),
            literal_end(chars@, from as int) == literal_end(chars@, i as int),
        decreases chars.len() - i,
    {
        let c = chars[i];
        text.push(c);
        if c == '{' || c == '}' {
            i += 2;
        } else {
            i += 1;
        }
    }
    (text, i)
}

/// The position of the first `'}'` at or after `from`, or the length of `chars`.
pub(crate) fn find_closing(chars: &Vec<char>, from: usize) -> (r: usize)
    requires
        from <= chars.len(),
    ensures
        r == closing(chars@, from as int),
        from <= r <= chars.len(),
{
    let mut i: usize = from;
    while i < chars.len() && chars[i] != '}'
        invariant
            from <= i <= chars.len(),
            closing(chars@, from as int) == closing(chars@, i as int),
        decreases chars.len() - i,
    {
        i += 1;
    }
    i
}

/// Why a pattern did not compile: the position, counted in characters, of the brace at
/// which it is wrong.
#[derive(Debug, Clone, Copy, PartialEq, Eq, Structural)]
pub struct ParseError {
    pub offset: usize,
}

/// What the parser hands back, as a mathematical value.
pub open spec fn parsed_view(r: Result<Vec<Token>, ParseError>) -> Result<Seq<TokenView>, nat> {
    match r {
        Ok(tokens) => Ok(tokens_view(tokens@)),
        Err(e) => Err(e.offset as nat),
    }
}

/// The tokens of the pattern whose characters are `chars`.
pub fn tokenize(chars: &Vec<char>) -> (r: Result<Vec<Token>, ParseError>)
    ensures
        parsed_view(r) == parse(chars@),
{
    let mut tokens: Vec<Token> = Vec::new();
    let mut i: usize = 0;
    proof {
        lemma_prepend_none(tokens_from(chars@, 0));
    }
    while i < chars.len()
        invariant
            i <= chars.len(),
            parse(chars@) == prepend(tokens_view(tokens@), tokens_from(chars@, i as int)),
        decreases chars.len() - i,
    {
        let ghost done = tokens_view(tokens@);
        if literal_here(chars, i) {
            let (text, end): (String, usize) = parse_literal(chars, i);
            let token = Token::Literal(text);
            proof {
                lemma_literal_end(chars@, i as int);
                lemma_prepend_twice(done, seq![token@], tokens_from(chars@, end as int));
            }
            tokens.push(token);
            i = end;
        } else if chars[i] == '{' {
            let close: usize = find_closing(chars, i + 1);
            if close >= chars.len() {
                return Err(ParseError { offset: i });
            }
            match parse_path(chars, i + 1, close) {
                None => {
                    return Err(ParseError { offset: i });
                },
                Some(keys) => {
                    let token = Token::Placeholder(string_of(chars, i + 1, close), keys);
                    proof {
                        lemma_prepend_twice(done, seq![token@], tokens_from(chars@, close + 1));
                    }
                    tokens.push(token);
                    i = close + 1;
                },
            }
        } else {
            return Err(ParseError { offset: i });
        }
        assert(tokens_view(tokens@) =~= done + seq![tokens@.last()@]);
    }
    Ok(tokens)
}

/// The tokens of `pattern`, or where it is wrong.
pub fn expression(pattern: &str) -> (r: Result<Vec<Token>, ParseError>)
    ensures
        parsed_view(r) == parse(pattern@),
{
    let chars = chars_of(pattern);
    tokenize(&chars)
}

} // verus!
