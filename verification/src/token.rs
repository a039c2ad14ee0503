//! The lexical token model: an immutable tree of identifiers, punctuation,
//! literals and delimited groups, together with its mathematical model
//! (`TokenView`) and the identifier-matching primitive shared by all locators.

use vstd::prelude::*;

verus! {

broadcast use vstd::seq::group_seq_axioms, vstd::std_specs::vec::group_vec_axioms;

/// The delimiter of a group: parentheses, braces, brackets, or an invisible
/// delimiter (a group whose children render with no surrounding characters).
#[derive(Clone, Copy, PartialEq, Eq, Structural, Debug)]
pub enum Delim {
    Paren,
    Brace,
    Bracket,
    Invisible,
}

/// One lexical token. A `Group` is balanced by construction: the tokenizer
/// that builds the tree guarantees every open delimiter has its close, so the
/// tree never carries a lone delimiter.
#[derive(Debug, PartialEq, Eq)]
pub enum Token {
    /// A bare name or keyword. Keywords are plain identifiers recognized
    /// contextually, not a separate lexical class.
    Ident(String),
    /// A single-character separator (`;`, `,`, `:`, ...).
    Punct(char),
    /// A numeric or string literal, opaque to the locators.
    Literal(String),
    /// A delimited, ordered sequence of tokens.
    Group(Delim, Vec<Token>),
}

/// The mathematical model of a token: texts become character sequences and
/// group children become sequences of models.
pub enum TokenView {
    Ident(Seq<char>),
    Punct(char),
    Literal(Seq<char>),
    Group(Delim, Seq<TokenView>),
}

/// The model of one token.
pub open spec fn token_view(t: Token) -> TokenView
    decreases t,
{
    match t {
        Token::Ident(s) => TokenView::Ident(s@),
        Token::Punct(c) => TokenView::Punct(c),
        Token::Literal(s) => TokenView::Literal(s@),
        Token::Group(d, ts) => TokenView::Group(d, views_of(ts@)),
    }
}

/// The models of a sequence of tokens, elementwise.
pub open spec fn views_of(ts: Seq<Token>) -> Seq<TokenView>
    decreases ts,
{
    if ts.len() == 0 {
        Seq::empty()
    } else {
        views_of(ts.drop_last()).push(token_view(ts.last()))
    }
}

impl View for Token {
    type V = TokenView;

    open spec fn view(&self) -> TokenView {
        token_view(*self)
    }
}

pub broadcast proof fn lemma_views_of_len(ts: Seq<Token>)
    ensures
        (#[trigger] views_of(ts)).len() == ts.len(),
    decreases ts,
{
    if ts.len() > 0 {
        lemma_views_of_len(ts.drop_last());
    }
}

pub broadcast proof fn lemma_views_of_index(ts: Seq<Token>, i: int)
    requires
        0 <= i < ts.len(),
    ensures
        #[trigger] views_of(ts)[i] == token_view(ts[i]),
    decreases ts,
{
    lemma_views_of_len(ts);
    if ts.len() > 0 && i < ts.len() - 1 {
        lemma_views_of_index(ts.drop_last(), i);
    }
}

pub broadcast proof fn lemma_views_of_push(ts: Seq<Token>, t: Token)
    ensures
        #[trigger] views_of(ts.push(t)) == views_of(ts).push(token_view(t)),
{
    assert(ts.push(t).drop_last() =~= ts);
}

/// The three together, ready for `broadcast use`.
pub broadcast group group_views_of {
    lemma_views_of_len,
    lemma_views_of_index,
    lemma_views_of_push,
}

pub proof fn lemma_views_of_subrange(ts: Seq<Token>, a: int, b: int)
    requires
        0 <= a <= b <= ts.len(),
    ensures
        views_of(ts.subrange(a, b)) == views_of(ts).subrange(a, b),
{
    broadcast use group_views_of;

    assert(views_of(ts.subrange(a, b)) =~= views_of(ts).subrange(a, b));
}

impl Clone for Token {
    /// A deep copy whose model equals the model of the original token.
    #[verifier::loop_isolation(false)]
    fn clone(&self) -> (r: Self)
        ensures
            r@ == self@,
        decreases *self,
    {
        match self {
            Token::Ident(s) => Token::Ident(s.clone()),
            Token::Punct(c) => Token::Punct(*c),
            Token::Literal(s) => Token::Literal(s.clone()),
            Token::Group(d, ts) => {
                let mut children: Vec<Token> = Vec::new();
                let mut i: usize = 0;
                while i < ts.len()
                    invariant
                        0 <= i <= ts@.len(),
                        children@.len() == i,
                        forall|k: int| 0 <= k < i ==> token_view(children@[k]) == token_view(
                            #[trigger] ts@[k],
                        ),
                    decreases ts@.len() - i,
                {
                    proof {
                        assert((*self)->Group_1 == *ts);
                        assert(decreases_to!(*self => (*self)->Group_1));
                        assert(decreases_to!(*ts => ts@));
                        assert(decreases_to!(ts@ => ts@[i as int]));
                    }
                    children.push(ts[i].clone());
                    i += 1;
                }
                let r = Token::Group(*d, children);
                proof {
                    broadcast use group_views_of;

                    assert(views_of(children@) =~= views_of(ts@));
                }
                r
            }
        }
    }
}

/// True iff `t` is an identifier whose text equals `name` exactly
/// (case-sensitive, no normalization).
pub open spec fn is_ident_named(t: TokenView, name: Seq<char>) -> bool {
    match t {
        TokenView::Ident(s) => s == name,
        _ => false,
    }
}

/// Equality of an identifier's text with a requested name.
fn text_eq(a: &String, b: &str) -> (r: bool)
    ensures
        r == (a@ == b@),
{
    *a == b.to_owned()
}

/// `identMatches`: true iff `t` is an identifier equal to `name`.
pub fn ident_matches(t: &Token, name: &str) -> (r: bool)
    ensures
        r == is_ident_named(t@, name@),
{
    match t {
        Token::Ident(s) => text_eq(s, name),
        _ => false,
    }
}

} // verus!
