//! What a pattern compiles to: tokens, and the keys of their paths.

use vstd::prelude::*;

verus! {

/// One segment of a placeholder's path.
#[derive(Debug, Clone)]
pub enum Key {
    /// A position in a list, counted from zero.
    Id(usize),
    /// The name of an entry in a mapping.
    Name(String),
}

/// One unit of a compiled pattern.
#[derive(Debug, Clone)]
pub enum Token {
    /// Text that is written out as it stands, braces already unescaped.
    Literal(String),
    /// A placeholder: the path as it was written between the braces, and its keys in order.
    Placeholder(String, Vec<Key>),
}

/// A key as a mathematical value.
pub enum KeyView {
    /// A position in a list, counted from zero.
    Id(nat),
    /// The name of an entry in a mapping.
    Name(Seq<char>),
}

/// A token as a mathematical value.
pub enum TokenView {
    /// Text that is written out as it stands.
    Literal(Seq<char>),
    /// The path of a placeholder as it was written, and its keys in order.
    Placeholder(Seq<char>, Seq<KeyView>),
}

impl View for Key {
    type V = KeyView;

    open spec fn view(&self) -> KeyView {
        match *self {
            Key::Id(i) => KeyView::Id(i as nat),
            Key::Name(name) => KeyView::Name(name@),
        }
    }
}

/// The views of a run of keys, in order.
pub open spec fn keys_view(keys: Seq<Key>) -> Seq<KeyView> {
    Seq::new(keys.len(), |i: int| keys[i]@)
}

impl View for Token {
    type V = TokenView;

    open spec fn view(&self) -> TokenView {
        match *self {
            Token::Literal(text) => TokenView::Literal(text@),
            Token::Placeholder(path, keys) => TokenView::Placeholder(path@, keys_view(keys@)),
        }
    }
}

/// The views of a run of tokens, in order.
pub open spec fn tokens_view(tokens: Seq<Token>) -> Seq<TokenView> {
    Seq::new(tokens.len(), |i: int| tokens[i]@)
}

/// Two keys are equal if they are the same position or the same name.
impl PartialEq for Key {
    fn eq(&self, other: &Key) -> (r: bool) {
        match (self, other) {
            (Key::Id(a), Key::Id(b)) => *a == *b,
            (Key::Name(a), Key::Name(b)) => *a == *b,
            _ => false,
        }
    }
}

impl vstd::std_specs::cmp::PartialEqSpecImpl for Key {
    open spec fn obeys_eq_spec() -> bool {
        true
    }

    open spec fn eq_spec(&self, other: &Key) -> bool {
        self@ == other@
    }
}

/// Whether two runs of keys hold equal keys in the same order.
pub fn same_keys(a: &Vec<Key>, b: &Vec<Key>) -> (r: bool)
    ensures
        r == (keys_view(a@) == keys_view(b@)),
{
    if a.len() != b.len() {
        assert(keys_view(a@).len() != keys_view(b@).len());
        return false;
    }
    let mut i: usize = 0;
    while i < a.len()
        invariant
            i <= a.len(),
            a.len() == b.len(),
            forall|j: int| 0 <= j < i ==> a@[j]@ == b@[j]@,
        decreases a.len() - i,
    {
        if !(a[i] == b[i]) {
            assert(keys_view(a@)[i as int] != keys_view(b@)[i as int]);
            return false;
        }
        i += 1;
    }
    assert(keys_view(a@) =~= keys_view(b@));
    true
}

/// Two tokens are equal if they are literals of the same text, or placeholders of the
/// same path with equal keys.
impl PartialEq for Token {
    fn eq(&self, other: &Token) -> (r: bool) {
        match (self, other) {
            (Token::Literal(a), Token::Literal(b)) => *a == *b,
            (Token::Placeholder(p, k), Token::Placeholder(q, l)) => *p == *q && same_keys(k, l),
            _ => false,
        }
    }
}

impl vstd::std_specs::cmp::PartialEqSpecImpl for Token {
    open spec fn obeys_eq_spec() -> bool {
        true
    }

    open spec fn eq_spec(&self, other: &Token) -> bool {
        self@ == other@
    }
}

} // verus!
