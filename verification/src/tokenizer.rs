//! The lexical scanner: what the tokens of a text are, and the tokenizer that
//! computes them.

use vstd::prelude::*;
use crate::text::{
    chars_of, is_digit, is_ident_part, is_ident_start, is_whitespace, spec_is_digit,
    spec_is_ident_part, spec_is_ident_start, spec_is_whitespace, string_of,
};
use crate::token::{
    all_well_formed, is_keyword, is_reserved_word, token_views, ParserError, ParserErrorView,
    Token, TokenView,
};
use crate::tokenizer_laws::lemma_lex_well_formed;

verus! {

broadcast use vstd::string::group_string_axioms;

/// How many characters at the front of `s` can continue a word.
pub open spec fn word_run(s: Seq<char>) -> nat
    decreases s.len(),
{
    if s.len() > 0 && spec_is_ident_part(s[0]) {
        1 + word_run(s.drop_first())
    } else {
        0
    }
}

/// How many characters at the front of `s` are digits.
pub open spec fn digit_run(s: Seq<char>) -> nat
    decreases s.len(),
{
    if s.len() > 0 && spec_is_digit(s[0]) {
        1 + digit_run(s.drop_first())
    } else {
        0
    }
}

/// A word is a keyword if it is reserved, and an identifier if not.
pub open spec fn classify(word: Seq<char>) -> TokenView {
    if is_keyword(word) {
        TokenView::Keyword(word)
    } else {
        TokenView::Identifier(word)
    }
}

/// The token at the front of a non-empty text, with the number of characters
/// that it spans, or the character at the front if no token starts with it.
///
/// A word is its opening character and all that can continue it; a number
/// is the longest run of digits. `<` and `>` take one character more where
/// that makes `<=`, `<>` or `>=`.
pub open spec fn first_token(s: Seq<char>) -> Result<(TokenView, nat), char>
    recommends
        s.len() > 0,
{
    let c = s[0];
    if spec_is_whitespace(c) {
        Ok((TokenView::Whitespace, 1))
    } else if spec_is_ident_start(c) {
        let n = 1 + word_run(s.drop_first());
        Ok((classify(s.take(n as int)), n))
    } else if spec_is_digit(c) {
        let n = 1 + digit_run(s.drop_first());
        Ok((TokenView::Number(s.take(n as int)), n))
    } else if c == ',' {
        Ok((TokenView::Comma, 1))
    } else if c == '(' {
        Ok((TokenView::LParen, 1))
    } else if c == ')' {
        Ok((TokenView::RParen, 1))
    } else if c == '+' {
        Ok((TokenView::Plus, 1))
    } else if c == '-' {
        Ok((TokenView::Minus, 1))
    } else if c == '*' {
        Ok((TokenView::Mult, 1))
    } else if c == '/' {
        Ok((TokenView::Div, 1))
    } else if c == '=' {
        Ok((TokenView::Eq, 1))
    } else if c == '<' {
        if s.len() > 1 && s[1] == '=' {
            Ok((TokenView::LtEq, 2))
        } else if s.len() > 1 && s[1] == '>' {
            Ok((TokenView::Neq, 2))
        } else {
            Ok((TokenView::Lt, 1))
        }
    } else if c == '>' {
        if s.len() > 1 && s[1] == '=' {
            Ok((TokenView::GtEq, 2))
        } else {
            Ok((TokenView::Gt, 1))
        }
    } else {
        Err(c)
    }
}

/// A token put in front of the tokens that follow it. Whitespace is left
/// out, and a failure further on is the failure of the whole.
pub open spec fn followed_by(token: TokenView, rest: Result<Seq<TokenView>, char>) -> Result<
    Seq<TokenView>,
    char,
> {
    match rest {
        Ok(tokens) => if token is Whitespace {
            Ok(tokens)
        } else {
            Ok(seq![token] + tokens)
        },
        Err(c) => Err(c),
    }
}

/// The tokens of a text in order, without the whitespace; or the first
/// character of the text, in reading order, at which no token starts.
pub open spec fn lex(s: Seq<char>) -> Result<Seq<TokenView>, char>
    decreases s.len(),
    via lex_decreases
{
    if s.len() == 0 {
        Ok(Seq::empty())
    } else {
        match first_token(s) {
            Ok((token, n)) => followed_by(token, lex(s.skip(n as int))),
            Err(c) => Err(c),
        }
    }
}

#[via_fn]
proof fn lex_decreases(s: Seq<char>) {
    if s.len() > 0 {
        lemma_first_token_span(s);
    }
}

/// A run of word characters is no longer than the text.
pub proof fn lemma_word_run_bound(s: Seq<char>)
    ensures
        word_run(s) <= s.len(),
        forall|i: int| 0 <= i < word_run(s) ==> spec_is_ident_part(s[i]),
        word_run(s) < s.len() ==> !spec_is_ident_part(s[word_run(s) as int]),
    decreases s.len(),
{
    if s.len() > 0 && spec_is_ident_part(s[0]) {
        lemma_word_run_bound(s.drop_first());
        assert forall|i: int| 0 <= i < word_run(s) implies spec_is_ident_part(s[i]) by {
            if i > 0 {
                assert(s[i] == s.drop_first()[i - 1]);
            }
        }
        if word_run(s) < s.len() {
            assert(s[word_run(s) as int] == s.drop_first()[word_run(s) - 1]);
        }
    }
}

/// A run of digits is no longer than the text.
pub proof fn lemma_digit_run_bound(s: Seq<char>)
    ensures
        digit_run(s) <= s.len(),
        forall|i: int| 0 <= i < digit_run(s) ==> spec_is_digit(s[i]),
        digit_run(s) < s.len() ==> !spec_is_digit(s[digit_run(s) as int]),
    decreases s.len(),
{
    if s.len() > 0 && spec_is_digit(s[0]) {
        lemma_digit_run_bound(s.drop_first());
        assert forall|i: int| 0 <= i < digit_run(s) implies spec_is_digit(s[i]) by {
            if i > 0 {
                assert(s[i] == s.drop_first()[i - 1]);
            }
        }
        if digit_run(s) < s.len() {
            assert(s[digit_run(s) as int] == s.drop_first()[digit_run(s) - 1]);
        }
    }
}

/// A token spans at least one character and ends within the text.
pub proof fn lemma_first_token_span(s: Seq<char>)
    requires
        s.len() > 0,
    ensures
        first_token(s) matches Ok((_, n)) ==> 1 <= n <= s.len(),
{
    lemma_word_run_bound(s.drop_first());
    lemma_digit_run_bound(s.drop_first());
}

/// The tokens already found, put in front of the outcome for the rest.
pub open spec fn preceded_by(done: Seq<TokenView>, rest: Result<Seq<TokenView>, char>) -> Result<
    Seq<TokenView>,
    char,
> {
    match rest {
        Ok(tokens) => Ok(done + tokens),
        Err(c) => Err(c),
    }
}

/// The message of the failure at a character that starts no token.
pub open spec fn unhandled_char_message(c: char) -> Seq<char> {
    "unhandled char '"@ + seq![c] + "' in tokenizer"@
}

/// The failure at a character that starts no token.
pub fn unhandled_char(c: char) -> (e: ParserError)
    ensures
        e@ == ParserErrorView::TokenizerError(unhandled_char_message(c)),
{
    let mut m = "unhandled char '".to_owned();
    m.push(c);
    m.append("' in tokenizer");
    assert(m@ =~= unhandled_char_message(c));
    ParserError::TokenizerError(m)
}

/// The tokens written out, with one space between neighbours.
pub open spec fn written(tokens: Seq<TokenView>) -> Seq<char>
    decreases tokens.len(),
{
    if tokens.len() == 0 {
        Seq::empty()
    } else if tokens.len() == 1 {
        tokens[0].text()
    } else {
        tokens[0].text() + seq![' '] + written(tokens.drop_first())
    }
}

/// Writes tokens out, with one space between neighbours.
pub fn write_tokens(tokens: &Vec<Token>) -> (text: String)
    ensures
        text@ == written(token_views(tokens@)),
{
    let ghost all = token_views(tokens@);
    let mut text = String::new();
    let mut i: usize = 0;
    assert(all.skip(0) =~= all);
    assert(text@ + written(all) =~= written(all));
    while i < tokens.len()
        invariant
            i <= tokens.len(),
            all == token_views(tokens@),
            written(all) == text@ + written(all.skip(i as int)),
        decreases tokens.len() - i,
    {
        let ghost before = text@;
        let ghost rest = all.skip(i as int);
        let word = tokens[i].text();
        text.append(word.as_str());
        assert(rest[0] == tokens[i as int]@);
        assert(rest.drop_first() =~= all.skip(i + 1));
        if i + 1 < tokens.len() {
            text.push(' ');
            assert(text@ + written(all.skip(i + 1)) =~= before + (word@ + seq![' '] + written(
                all.skip(i + 1),
            )));
        } else {
            assert(written(all.skip(i + 1)) =~= Seq::<char>::empty());
            assert(text@ + written(all.skip(i + 1)) =~= before + word@);
        }
        i += 1;
    }
    assert(all.skip(i as int) =~= Seq::<TokenView>::empty());
    assert(text@ + Seq::<char>::empty() =~= text@);
    text
}

/// Turns the text of a query into tokens.
pub struct Tokenizer {
    pub query: String,
}

impl Tokenizer {
    /// A tokenizer for `query`.
    pub fn new(query: &str) -> (tokenizer: Self)
        ensures
            tokenizer.query@ == query@,
    {
        Tokenizer { query: query.to_owned() }
    }

    /// The tokens of the query, without the whitespace between them, each
    /// of them well formed. Fails at the first character, in reading order,
    /// at which no token starts.
    pub fn tokenize(&mut self) -> (result: Result<Vec<Token>, ParserError>)
        ensures
            *final(self) == *old(self),
            match lex(old(self).query@) {
                Ok(tokens) => result matches Ok(v) && token_views(v@) == tokens,
                Err(c) => result matches Err(e) && e@ == ParserErrorView::TokenizerError(
                    unhandled_char_message(c),
                ),
            },
            result matches Ok(v) ==> all_well_formed(token_views(v@)),
    {
        let chars = chars_of(self.query.as_str());
        let mut tokens: Vec<Token> = Vec::new();
        let mut pos: usize = 0;
        assert(chars@.skip(0) =~= chars@);
        assert(token_views(tokens@) =~= Seq::empty());
        assert(preceded_by(token_views(tokens@), lex(chars@.skip(0))) == lex(chars@)) by {
            let whole = lex(chars@);
            if whole is Ok {
                assert(Seq::<TokenView>::empty() + whole->Ok_0 =~= whole->Ok_0);
            }
        }
        loop
            invariant
                pos <= chars.len(),
                chars@ == self.query@,
                preceded_by(token_views(tokens@), lex(chars@.skip(pos as int))) == lex(chars@),
            decreases chars.len() - pos,
        {
            let ghost before = pos;
            let ghost rest = chars@.skip(pos as int);
            let ghost done = token_views(tokens@);
            match Self::next_token(&chars, &mut pos) {
                Ok(None) => {
                    assert(rest.len() == 0);
                    assert(done + Seq::<TokenView>::empty() =~= done);
                    proof {
                        lemma_lex_well_formed(chars@);
                    }
                    return Ok(tokens);
                },
                Ok(Some(token)) => {
                    proof {
                        assert(rest.skip(pos - before) =~= chars@.skip(pos as int));
                        let after = lex(chars@.skip(pos as int));
                        if after is Ok && !(token@ is Whitespace) {
                            assert(done + (seq![token@] + after->Ok_0) =~= done.push(token@)
                                + after->Ok_0);
                        }
                        assert(token_views(tokens@.push(token)) =~= done.push(token@));
                    }
                    match token {
                        Token::Whitespace => {},
                        _ => {
                            tokens.push(token);
                        },
                    }
                },
                Err(e) => {
                    return Err(e);
                },
            }
        }
    }

    /// Reads the token that starts at `chars[*pos]` and moves `pos` past
    /// it. At the end of the text there is no token; at a character that
    /// starts none, the failure names it and `pos` stays.
    pub fn next_token(chars: &Vec<char>, pos: &mut usize) -> (result: Result<
        Option<Token>,
        ParserError,
    >)
        requires
            *old(pos) <= chars.len(),
        ensures
            *old(pos) <= *final(pos) <= chars.len(),
            *old(pos) == chars.len() ==> result == Ok::<Option<Token>, ParserError>(None)
                && *final(pos) == *old(pos),
            *old(pos) < chars.len() ==> match first_token(chars@.skip(*old(pos) as int)) {
                Ok((token, n)) => result matches Ok(Some(t)) && t@ == token && *final(pos)
                    == *old(pos) + n,
                Err(c) => result matches Err(e) && e@ == ParserErrorView::TokenizerError(
                    unhandled_char_message(c),
                ) && *final(pos) == *old(pos),
            },
    {
        let start: usize = *pos;
        let n: usize = chars.len();
        if start >= n {
            return Ok(None);
        }
        let ghost s = chars@.skip(start as int);
        let ch: char = chars[start];
        assert(s[0] == ch);
        if is_whitespace(ch) {
            *pos = start + 1;
            Ok(Some(Token::Whitespace))
        } else if is_ident_start(ch) {
            let mut end: usize = start + 1;
            assert(chars@.skip(end as int) =~= s.drop_first());
            while end < n && is_ident_part(chars[end])
                invariant
                    start < end <= n,
                    n == chars.len(),
                    word_run(chars@.skip(start + 1)) == (end - start - 1) + word_run(
                        chars@.skip(end as int),
                    ),
                decreases n - end,
            {
                assert(chars@.skip(end as int).drop_first() =~= chars@.skip(end + 1));
                end += 1;
            }
            let word = string_of(chars, start, end);
            assert(word@ =~= s.take(end - start));
            *pos = end;
            if is_reserved_word(word.as_str()) {
                Ok(Some(Token::Keyword(word)))
            } else {
                Ok(Some(Token::Identifier(word)))
            }
        } else if is_digit(ch) {
            let mut end: usize = start + 1;
            assert(chars@.skip(end as int) =~= s.drop_first());
            while end < n && is_digit(chars[end])
                invariant
                    start < end <= n,
                    n == chars.len(),
                    digit_run(chars@.skip(start + 1)) == (end - start - 1) + digit_run(
                        chars@.skip(end as int),
                    ),
                decreases n - end,
            {
                assert(chars@.skip(end as int).drop_first() =~= chars@.skip(end + 1));
                end += 1;
            }
            let digits = string_of(chars, start, end);
            assert(digits@ =~= s.take(end - start));
            *pos = end;
            Ok(Some(Token::Number(digits)))
        } else if ch == ',' {
            *pos = start + 1;
            Ok(Some(Token::Comma))
        } else if ch == '(' {
            *pos = start + 1;
            Ok(Some(Token::LParen))
        } else if ch == ')' {
            *pos = start + 1;
            Ok(Some(Token::RParen))
        } else if ch == '+' {
            *pos = start + 1;
            Ok(Some(Token::Plus))
        } else if ch == '-' {
            *pos = start + 1;
            Ok(Some(Token::Minus))
        } else if ch == '*' {
            *pos = start + 1;
            Ok(Some(Token::Mult))
        } else if ch == '/' {
            *pos = start + 1;
            Ok(Some(Token::Div))
        } else if ch == '=' {
            *pos = start + 1;
            Ok(Some(Token::Eq))
        } else if ch == '<' {
            if start + 1 < n && chars[start + 1] == '=' {
                *pos = start + 2;
                Ok(Some(Token::LtEq))
            } else if start + 1 < n && chars[start + 1] == '>' {
                *pos = start + 2;
                Ok(Some(Token::Neq))
            } else {
                *pos = start + 1;
                Ok(Some(Token::Lt))
            }
        } else if ch == '>' {
            if start + 1 < n && chars[start + 1] == '=' {
                *pos = start + 2;
                Ok(Some(Token::GtEq))
            } else {
                *pos = start + 1;
                Ok(Some(Token::Gt))
            }
        } else {
            Err(unhandled_char(ch))
        }
    }
}

} // verus!
