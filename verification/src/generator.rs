//! A compiled pattern.

use crate::canonical::{canonical, lemma_parse_sound, unparse};
use crate::grammar::{is_brace, parse};
use crate::parser::{expression, ParseError};
use crate::rejected::lemma_rejected_at_brace;
use crate::render::{render, rendered, rendered_view, RenderError};
use crate::token::{tokens_view, Token, TokenView};
use serde_json::Value;
use vstd::prelude::*;

verus! {

/// A pattern together with the tokens it compiles to. Compile once, render many times.
pub struct Generator<'a> {
    pattern: &'a str,
    tokens: Vec<Token>,
}

/// A compiled pattern as a mathematical value.
pub struct GeneratorView {
    pub pattern: Seq<char>,
    pub tokens: Seq<TokenView>,
}

impl<'a> View for Generator<'a> {
    type V = GeneratorView;

    closed spec fn view(&self) -> GeneratorView {
        GeneratorView { pattern: self.pattern@, tokens: tokens_view(self.tokens@) }
    }
}

impl<'a> Generator<'a> {
    #[verifier::type_invariant]
    spec fn compiled(self) -> bool {
        parse(self.pattern@) == Ok::<Seq<TokenView>, nat>(tokens_view(self.tokens@))
    }

    /// The tokens are those that the pattern compiles to. This holds of every generator.
    pub open spec fn wf(&self) -> bool {
        parse(self@.pattern) == Ok::<Seq<TokenView>, nat>(self@.tokens)
    }

    /// Compiles `pattern`, or says where it is wrong.
    ///
    /// The tokens of a compiled pattern are canonical and write the pattern back; only the
    /// empty pattern has none. A pattern that does not compile is wrong at a brace.
    pub fn new(pattern: &'a str) -> (r: Result<Generator<'a>, ParseError>)
        ensures
            match r {
                Ok(g) => {
                    &&& g@.pattern == pattern@
                    &&& g.wf()
                    &&& canonical(g@.tokens)
                    &&& unparse(g@.tokens) == pattern@
                    &&& pattern@.len() > 0 ==> g@.tokens.len() > 0
                },
                Err(e) => {
                    &&& parse(pattern@) == Err::<Seq<TokenView>, nat>(e.offset as nat)
                    &&& e.offset < pattern@.len()
                    &&& is_brace(pattern@[e.offset as int])
                },
            },
    {
        match expression(pattern) {
            Ok(tokens) => {
                proof {
                    lemma_parse_sound(pattern@);
                }
                Ok(Generator { pattern, tokens })
            },
            Err(e) => {
                proof {
                    lemma_rejected_at_brace(pattern@);
                }
                Err(e)
            },
        }
    }

    /// The pattern as it was given.
    pub fn pattern(&self) -> (r: &str)
        ensures
            r@ == self@.pattern,
            self.wf(),
    {
        proof {
            use_type_invariant(self);
        }
        self.pattern
    }

    /// The tokens of the pattern, in order.
    pub fn tokens(&self) -> (r: &Vec<Token>)
        ensures
            tokens_view(r@) == self@.tokens,
            self.wf(),
    {
        proof {
            use_type_invariant(self);
        }
        &self.tokens
    }

    /// Renders the pattern against `val`: each literal as it stands, each placeholder as
    /// the JSON text of what its path names. All of the text, or the first failure.
    pub fn consume(&self, val: &Value) -> (r: Result<String, RenderError>)
        ensures
            rendered_view(r) == rendered(self@.tokens, *val),
            self.wf(),
    {
        proof {
            use_type_invariant(self);
        }
        render(&self.tokens, val)
    }
}

} // verus!
