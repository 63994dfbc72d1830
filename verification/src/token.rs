//! Tokens, the reserved words, and the two kinds of failure.

use vstd::prelude::*;
use vstd::std_specs::cmp::PartialEqSpecImpl;
use vstd::std_specs::iter::IteratorSpec;
use crate::text::{all_digits, spec_is_ident_part, spec_is_ident_start};

verus! {

broadcast use vstd::string::group_string_axioms;

/// One lexical unit of a query.
#[derive(Debug)]
pub enum Token {
    Identifier(String),
    Keyword(String),
    Number(String),
    Comma,
    Whitespace,
    Eq,
    Neq,
    Lt,
    Gt,
    LtEq,
    GtEq,
    Plus,
    Minus,
    Mult,
    Div,
    LParen,
    RParen,
}

/// A token as a mathematical value: the payload is a sequence of characters.
pub enum TokenView {
    Identifier(Seq<char>),
    Keyword(Seq<char>),
    Number(Seq<char>),
    Comma,
    Whitespace,
    Eq,
    Neq,
    Lt,
    Gt,
    LtEq,
    GtEq,
    Plus,
    Minus,
    Mult,
    Div,
    LParen,
    RParen,
}

impl View for Token {
    type V = TokenView;

    open spec fn view(&self) -> TokenView {
        match self {
            Token::Identifier(s) => TokenView::Identifier(s@),
            Token::Keyword(s) => TokenView::Keyword(s@),
            Token::Number(s) => TokenView::Number(s@),
            Token::Comma => TokenView::Comma,
            Token::Whitespace => TokenView::Whitespace,
            Token::Eq => TokenView::Eq,
            Token::Neq => TokenView::Neq,
            Token::Lt => TokenView::Lt,
            Token::Gt => TokenView::Gt,
            Token::LtEq => TokenView::LtEq,
            Token::GtEq => TokenView::GtEq,
            Token::Plus => TokenView::Plus,
            Token::Minus => TokenView::Minus,
            Token::Mult => TokenView::Mult,
            Token::Div => TokenView::Div,
            Token::LParen => TokenView::LParen,
            Token::RParen => TokenView::RParen,
        }
    }
}

/// The tokens of a vector as mathematical values.
pub open spec fn token_views(tokens: Seq<Token>) -> Seq<TokenView> {
    Seq::new(tokens.len(), |i: int| tokens[i]@)
}

/// The reserved words. Membership is by exact text: `select` is not reserved.
pub open spec fn is_keyword(text: Seq<char>) -> bool {
    ||| text == "SELECT"@
    ||| text == "FROM"@
    ||| text == "WHERE"@
    ||| text == "LIMIT"@
    ||| text == "ORDER"@
    ||| text == "GROUP"@
    ||| text == "BY"@
    ||| text == "HAVING"@
    ||| text == "UNION"@
    ||| text == "ALL"@
    ||| text == "INSERT"@
    ||| text == "UPDATE"@
    ||| text == "DELETE"@
    ||| text == "IN"@
    ||| text == "NOT"@
    ||| text == "NULL"@
    ||| text == "SET"@
    ||| text == "CREATE"@
    ||| text == "EXTERNAL"@
    ||| text == "TABLE"@
    ||| text == "VARCHAR"@
    ||| text == "DOUBLE"@
}

/// Whether two strings hold the same characters.
pub fn same_text(a: &str, b: &str) -> (same: bool)
    ensures
        same == (a@ == b@),
{
    let mut left = a.chars();
    let mut right = b.chars();
    let ghost mut done: int = 0;
    loop
        invariant
            0 <= done <= a@.len(),
            done <= b@.len(),
            left.remaining() == a@.skip(done),
            right.remaining() == b@.skip(done),
            a@.take(done) == b@.take(done),
        decreases a@.len() - done,
    {
        match (left.next(), right.next()) {
            (None, None) => {
                assert(a@.take(done) =~= a@ && b@.take(done) =~= b@);
                return true;
            },
            (Some(x), Some(y)) => {
                if x != y {
                    assert(a@[done] == x && b@[done] == y);
                    return false;
                }
                proof {
                    assert(a@.skip(done).drop_first() =~= a@.skip(done + 1));
                    assert(b@.skip(done).drop_first() =~= b@.skip(done + 1));
                    assert(a@.take(done + 1) =~= a@.take(done).push(x));
                    assert(b@.take(done + 1) =~= b@.take(done).push(y));
                    done = done + 1;
                }
            },
            _ => {
                return false;
            },
        }
    }
}

/// Whether `text` is one of the reserved words.
pub fn is_reserved_word(text: &str) -> (b: bool)
    ensures
        b == is_keyword(text@),
{
    same_text(text, "SELECT") || same_text(text, "FROM") || same_text(text, "WHERE") || same_text(
        text,
        "LIMIT",
    ) || same_text(text, "ORDER") || same_text(text, "GROUP") || same_text(text, "BY") || same_text(
        text,
        "HAVING",
    ) || same_text(text, "UNION") || same_text(text, "ALL") || same_text(text, "INSERT")
        || same_text(text, "UPDATE") || same_text(text, "DELETE") || same_text(text, "IN")
        || same_text(text, "NOT") || same_text(text, "NULL") || same_text(text, "SET") || same_text(
        text,
        "CREATE",
    ) || same_text(text, "EXTERNAL") || same_text(text, "TABLE") || same_text(text, "VARCHAR")
        || same_text(text, "DOUBLE")
}

/// The shape of an identifier or keyword: an opening character, then letters,
/// digits and underscores.
pub open spec fn is_word(text: Seq<char>) -> bool {
    &&& text.len() > 0
    &&& spec_is_ident_start(text[0])
    &&& forall|i: int| 1 <= i < text.len() ==> spec_is_ident_part(text[i])
}

impl TokenView {
    /// The text that a token is written as.
    pub open spec fn text(self) -> Seq<char> {
        match self {
            TokenView::Identifier(s) => s,
            TokenView::Keyword(s) => s,
            TokenView::Number(s) => s,
            TokenView::Comma => seq![','],
            TokenView::Whitespace => seq![' '],
            TokenView::Eq => seq!['='],
            TokenView::Neq => seq!['<', '>'],
            TokenView::Lt => seq!['<'],
            TokenView::Gt => seq!['>'],
            TokenView::LtEq => seq!['<', '='],
            TokenView::GtEq => seq!['>', '='],
            TokenView::Plus => seq!['+'],
            TokenView::Minus => seq!['-'],
            TokenView::Mult => seq!['*'],
            TokenView::Div => seq!['/'],
            TokenView::LParen => seq!['('],
            TokenView::RParen => seq![')'],
        }
    }

    /// The shape of a token that a tokenizer hands out: a word that is
    /// classified by the reserved words, a non-empty run of digits, or
    /// punctuation. Whitespace is never handed out.
    pub open spec fn well_formed(self) -> bool {
        match self {
            TokenView::Identifier(s) => is_word(s) && !is_keyword(s),
            TokenView::Keyword(s) => is_word(s) && is_keyword(s),
            TokenView::Number(s) => s.len() > 0 && all_digits(s),
            TokenView::Whitespace => false,
            _ => true,
        }
    }
}

/// Every token of the sequence is well formed.
pub open spec fn all_well_formed(tokens: Seq<TokenView>) -> bool {
    forall|i: int| 0 <= i < tokens.len() ==> (#[trigger] tokens[i]).well_formed()
}

impl Token {
    /// The text that the token is written as.
    pub fn text(&self) -> (s: String)
        ensures
            s@ == self@.text(),
    {
        proof {
            reveal_strlit(",");
            reveal_strlit(" ");
            reveal_strlit("=");
            reveal_strlit("<>");
            reveal_strlit("<");
            reveal_strlit(">");
            reveal_strlit("<=");
            reveal_strlit(">=");
            reveal_strlit("+");
            reveal_strlit("-");
            reveal_strlit("*");
            reveal_strlit("/");
            reveal_strlit("(");
            reveal_strlit(")");
        }
        let s = match self {
            Token::Identifier(s) => s.clone(),
            Token::Keyword(s) => s.clone(),
            Token::Number(s) => s.clone(),
            Token::Comma => ",".to_owned(),
            Token::Whitespace => " ".to_owned(),
            Token::Eq => "=".to_owned(),
            Token::Neq => "<>".to_owned(),
            Token::Lt => "<".to_owned(),
            Token::Gt => ">".to_owned(),
            Token::LtEq => "<=".to_owned(),
            Token::GtEq => ">=".to_owned(),
            Token::Plus => "+".to_owned(),
            Token::Minus => "-".to_owned(),
            Token::Mult => "*".to_owned(),
            Token::Div => "/".to_owned(),
            Token::LParen => "(".to_owned(),
            Token::RParen => ")".to_owned(),
        };
        assert(s@ =~= self@.text());
        s
    }
}

impl Clone for Token {
    fn clone(&self) -> (copy: Self)
        ensures
            copy == *self,
    {
        match self {
            Token::Identifier(s) => Token::Identifier(s.clone()),
            Token::Keyword(s) => Token::Keyword(s.clone()),
            Token::Number(s) => Token::Number(s.clone()),
            Token::Comma => Token::Comma,
            Token::Whitespace => Token::Whitespace,
            Token::Eq => Token::Eq,
            Token::Neq => Token::Neq,
            Token::Lt => Token::Lt,
            Token::Gt => Token::Gt,
            Token::LtEq => Token::LtEq,
            Token::GtEq => Token::GtEq,
            Token::Plus => Token::Plus,
            Token::Minus => Token::Minus,
            Token::Mult => Token::Mult,
            Token::Div => Token::Div,
            Token::LParen => Token::LParen,
            Token::RParen => Token::RParen,
        }
    }
}

impl PartialEq for Token {
    /// Two tokens are equal when they are of the same variant and hold the
    /// same text.
    fn eq(&self, other: &Token) -> (same: bool) {
        match (self, other) {
            (Token::Identifier(a), Token::Identifier(b)) => same_text(a.as_str(), b.as_str()),
            (Token::Keyword(a), Token::Keyword(b)) => same_text(a.as_str(), b.as_str()),
            (Token::Number(a), Token::Number(b)) => same_text(a.as_str(), b.as_str()),
            (Token::Comma, Token::Comma) => true,
            (Token::Whitespace, Token::Whitespace) => true,
            (Token::Eq, Token::Eq) => true,
            (Token::Neq, Token::Neq) => true,
            (Token::Lt, Token::Lt) => true,
            (Token::Gt, Token::Gt) => true,
            (Token::LtEq, Token::LtEq) => true,
            (Token::GtEq, Token::GtEq) => true,
            (Token::Plus, Token::Plus) => true,
            (Token::Minus, Token::Minus) => true,
            (Token::Mult, Token::Mult) => true,
            (Token::Div, Token::Div) => true,
            (Token::LParen, Token::LParen) => true,
            (Token::RParen, Token::RParen) => true,
            _ => false,
        }
    }
}

impl PartialEqSpecImpl for Token {
    open spec fn obeys_eq_spec() -> bool {
        true
    }

    open spec fn eq_spec(&self, other: &Token) -> bool {
        self@ == other@
    }
}

/// Why a query could not be turned into a syntax tree. Each variant carries
/// a message for the reader.
#[derive(Debug)]
pub enum ParserError {
    /// The text holds a character that starts no token.
    TokenizerError(String),
    /// The tokens do not follow the grammar.
    ParserError(String),
}

/// A failure as a mathematical value.
pub enum ParserErrorView {
    TokenizerError(Seq<char>),
    ParserError(Seq<char>),
}

impl View for ParserError {
    type V = ParserErrorView;

    open spec fn view(&self) -> ParserErrorView {
        match self {
            ParserError::TokenizerError(m) => ParserErrorView::TokenizerError(m@),
            ParserError::ParserError(m) => ParserErrorView::ParserError(m@),
        }
    }
}

impl Clone for ParserError {
    fn clone(&self) -> (copy: Self)
        ensures
            copy == *self,
    {
        match self {
            ParserError::TokenizerError(m) => ParserError::TokenizerError(m.clone()),
            ParserError::ParserError(m) => ParserError::ParserError(m.clone()),
        }
    }
}

impl ParserError {
    /// The message that the failure carries.
    pub fn message(&self) -> (m: String)
        ensures
            self@ == ParserErrorView::TokenizerError(m@) || self@ == ParserErrorView::ParserError(
                m@,
            ),
    {
        match self {
            ParserError::TokenizerError(m) => m.clone(),
            ParserError::ParserError(m) => m.clone(),
        }
    }
}

} // verus!
