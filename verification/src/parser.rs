//! The parser: a cursor over the tokens that builds the syntax tree which
//! the grammar assigns to them.

use vstd::prelude::*;
use vstd::pervasive::unreached;
use crate::grammar::{
    found_text, keyword_at, keywords_at, lemma_keywords_at_pair, next_precedence,
    not_an_integer, operator_of, precedence_of, prepended, remaining, shifted, spec_clause,
    spec_climb, spec_column, spec_columns,
    spec_consume, spec_create, spec_data_type, spec_expr, spec_expr_list, spec_infix,
    spec_limit, spec_list_item, spec_literal_int, spec_parse, spec_prefix, spec_select,
    texts, token_at, unsupported_operator,
};
use crate::sql::{
    column_views, lemma_function_view, lemma_select_view, node_views, optional_view, ASTNode,
    ASTNodeView, SQLColumnDef, SQLOperator, SQLType,
};
use crate::text::{eq_ignore_case, parse_int_literal};
use crate::token::{token_views, ParserError, ParserErrorView, Token, TokenView};
use crate::tokenizer::{lex, unhandled_char_message, Tokenizer};

verus! {

broadcast use vstd::string::group_string_axioms;

/// The failure with the message `message`.
fn failure(message: &str) -> (e: ParserError)
    ensures
        e@ == ParserErrorView::ParserError(message@),
{
    ParserError::ParserError(message.to_owned())
}

/// The failure whose message is `message` and then `detail`.
fn failure_about(message: &str, detail: &str) -> (e: ParserError)
    ensures
        e@ == ParserErrorView::ParserError(message@ + detail@),
{
    let mut m = message.to_owned();
    m.append(detail);
    ParserError::ParserError(m)
}

/// A token that may be missing, as a mathematical value.
pub open spec fn found_view(found: Option<&Token>) -> Option<TokenView> {
    match found {
        Some(token) => Some(token@),
        None => None,
    }
}

/// How a token, or the end of the tokens, is named in a message.
fn describe(found: Option<&Token>) -> (text: String)
    ensures
        text@ == found_text(found_view(found)),
{
    match found {
        Some(token) => token.text(),
        None => "EOF".to_owned(),
    }
}

/// What a whole query stands for: the syntax tree of its tokens, or the
/// failure of the tokenizer or of the parser.
pub open spec fn spec_parse_sql(query: Seq<char>) -> Result<ASTNodeView, ParserErrorView> {
    match lex(query) {
        Err(c) => Err(ParserErrorView::TokenizerError(unhandled_char_message(c))),
        Ok(tokens) => match spec_parse(tokens) {
            Ok(node) => Ok(node),
            Err(message) => Err(ParserErrorView::ParserError(message)),
        },
    }
}

/// A cursor over a sequence of tokens.
pub struct Parser<'a> {
    tokens: &'a Vec<Token>,
    index: usize,
}

impl<'a> Parser<'a> {
    /// The tokens that the parser reads.
    pub closed spec fn tokens(&self) -> Seq<TokenView> {
        token_views(self.tokens@)
    }

    /// The position of the cursor: the number of tokens that lie behind it.
    pub closed spec fn position(&self) -> int {
        self.index as int
    }

    /// The parser reads the same tokens as `before` did and its cursor is `n`
    /// tokens further on.
    pub open spec fn advanced(&self, before: &Self, n: nat) -> bool {
        &&& self.tokens() == before.tokens()
        &&& self.position() == before.position() + n
    }

    /// The parser reads the same tokens as `before` did and its cursor is
    /// not behind where it was.
    pub open spec fn not_behind(&self, before: &Self) -> bool {
        &&& self.tokens() == before.tokens()
        &&& self.position() >= before.position()
    }

    /// A parser at the first of `tokens`.
    pub fn new(tokens: &'a Vec<Token>) -> (parser: Self)
        ensures
            parser.tokens() == token_views(tokens@),
            parser.position() == 0,
    {
        Parser { tokens: tokens, index: 0 }
    }

    /// Tokenizes and parses a query.
    pub fn parse_sql(sql: String) -> (result: Result<ASTNode, ParserError>)
        ensures
            match spec_parse_sql(sql@) {
                Ok(node) => result matches Ok(r) && r@ == node,
                Err(e) => result matches Err(r) && r@ == e,
            },
    {
        let mut tokenizer = Tokenizer::new(sql.as_str());
        match tokenizer.tokenize() {
            Err(e) => Err(e),
            Ok(tokens) => {
                let mut parser = Parser::new(&tokens);
                parser.parse()
            },
        }
    }

    /// Parses the expression or statement at the cursor. On success the
    /// cursor stands behind it.
    pub fn parse(&mut self) -> (result: Result<ASTNode, ParserError>)
        ensures
            final(self).not_behind(old(self)),
            match spec_expr(old(self).tokens(), old(self).position(), 0) {
                Ok((node, n)) => result matches Ok(r) && r@ == node && final(self).advanced(
                    old(self),
                    n,
                ),
                Err(message) => result matches Err(e) && e@ == ParserErrorView::ParserError(
                    message,
                ),
            },
    {
        self.parse_expr(0)
    }

    /// Parses an expression whose infix operators all bind more tightly than
    /// `precedence`.
    pub fn parse_expr(&mut self, precedence: u8) -> (result: Result<ASTNode, ParserError>)
        ensures
            final(self).not_behind(old(self)),
            match spec_expr(old(self).tokens(), old(self).position(), precedence) {
                Ok((node, n)) => result matches Ok(r) && r@ == node && final(self).advanced(
                    old(self),
                    n,
                ),
                Err(message) => result matches Err(e) && e@ == ParserErrorView::ParserError(
                    message,
                ),
            },
        decreases remaining(old(self).tokens(), old(self).position()), 1int,
    {
        let ghost tokens = self.tokens();
        let ghost start = self.position();
        let mut expr = match self.parse_prefix() {
            Ok(node) => node,
            Err(e) => {
                return Err(e);
            },
        };
        loop
            invariant
                self.tokens() == tokens,
                tokens == old(self).tokens(),
                start == old(self).position(),
                self.position() >= start,
                spec_expr(tokens, start, precedence) == shifted(
                    (self.position() - start) as nat,
                    spec_climb(tokens, self.position(), precedence, expr@),
                ),
            decreases remaining(tokens, self.position()),
        {
            let next_precedence = self.get_next_precedence();
            if precedence >= next_precedence {
                return Ok(expr);
            }
            match self.parse_infix(expr, next_precedence) {
                Err(e) => {
                    return Err(e);
                },
                Ok(Some(node)) => {
                    expr = node;
                },
                Ok(None) => {
                    return unreached();
                },
            }
        }
    }

    /// Parses a prefix production: a statement, a function call, an
    /// identifier or an integer literal.
    pub fn parse_prefix(&mut self) -> (result: Result<ASTNode, ParserError>)
        ensures
            final(self).not_behind(old(self)),
            match spec_prefix(old(self).tokens(), old(self).position()) {
                Ok((node, n)) => result matches Ok(r) && r@ == node && final(self).advanced(
                    old(self),
                    n,
                ),
                Err(message) => result matches Err(e) && e@ == ParserErrorView::ParserError(
                    message,
                ),
            },
        decreases remaining(old(self).tokens(), old(self).position()), 0int,
    {
        match self.next_token() {
            Some(Token::Keyword(k)) => {
                if eq_ignore_case(k.as_str(), "SELECT") {
                    self.parse_select()
                } else if eq_ignore_case(k.as_str(), "CREATE") {
                    self.parse_create()
                } else {
                    Err(failure_about("No prefix parser for keyword ", k.as_str()))
                }
            },
            Some(Token::Identifier(id)) => {
                match self.peek_token() {
                    Some(Token::LParen) => {
                        self.next_token();
                        let args = match self.parse_expr_list() {
                            Ok(args) => args,
                            Err(e) => {
                                return Err(e);
                            },
                        };
                        match self.consume_token(&Token::RParen) {
                            Ok(_) => {},
                            Err(e) => {
                                return Err(e);
                            },
                        }
                        let id = id.clone();
                        proof {
                            lemma_function_view(id, args);
                        }
                        Ok(ASTNode::SQLFunction { id: id, args: args })
                    },
                    _ => Ok(ASTNode::SQLIdentifier { id: id.clone() }),
                }
            },
            Some(Token::Number(n)) => {
                match parse_int_literal(n.as_str()) {
                    Some(value) => Ok(ASTNode::SQLLiteralInt(value)),
                    None => Err(Self::not_an_integer(n.as_str())),
                }
            },
            Some(token) => {
                let found = token.text();
                Err(failure_about("Prefix parser expected a keyword but found ", found.as_str()))
            },
            None => Err(failure("Prefix parser expected a keyword but hit EOF")),
        }
    }

    /// Parses an infix production whose left operand is `expr`. At the end
    /// of the tokens there is none.
    pub fn parse_infix(&mut self, expr: ASTNode, precedence: u8) -> (result: Result<
        Option<ASTNode>,
        ParserError,
    >)
        ensures
            final(self).not_behind(old(self)),
            match spec_infix(old(self).tokens(), old(self).position(), expr@, precedence) {
                Ok((node, n)) => final(self).advanced(old(self), n) && match node {
                    Some(node) => result matches Ok(Some(r)) && r@ == node,
                    None => result matches Ok(None),
                },
                Err(message) => result matches Err(e) && e@ == ParserErrorView::ParserError(
                    message,
                ),
            },
        decreases remaining(old(self).tokens(), old(self).position()), 0int,
    {
        match self.next_token() {
            Some(token) => {
                match token {
                    Token::Eq | Token::Gt | Token::GtEq | Token::Lt | Token::LtEq => {
                        let op = match self.to_sql_operator(token) {
                            Ok(op) => op,
                            Err(e) => {
                                return Err(e);
                            },
                        };
                        let right = match self.parse_expr(precedence) {
                            Ok(right) => right,
                            Err(e) => {
                                return Err(e);
                            },
                        };
                        Ok(
                            Some(
                                ASTNode::SQLBinaryExpr {
                                    left: Box::new(expr),
                                    op: op,
                                    right: Box::new(right),
                                },
                            ),
                        )
                    },
                    _ => {
                        let found = token.text();
                        Err(failure_about("No infix parser for token ", found.as_str()))
                    },
                }
            },
            None => Ok(None),
        }
    }

    /// The comparison that a token stands for.
    pub fn to_sql_operator(&self, tok: &Token) -> (result: Result<SQLOperator, ParserError>)
        ensures
            match operator_of(tok@) {
                Some(op) => result matches Ok(r) && r == op,
                None => result matches Err(e) && e@ == ParserErrorView::ParserError(
                    unsupported_operator(tok@),
                ),
            },
    {
        match tok {
            Token::Eq => Ok(SQLOperator::EQ),
            Token::Lt => Ok(SQLOperator::LT),
            Token::LtEq => Ok(SQLOperator::LTEQ),
            Token::Gt => Ok(SQLOperator::GT),
            Token::GtEq => Ok(SQLOperator::GTEQ),
            _ => {
                let found = tok.text();
                Err(failure_about("Unsupported operator ", found.as_str()))
            },
        }
    }

    /// The precedence of the token at the cursor; 0 at the end of the tokens.
    pub fn get_next_precedence(&self) -> (precedence: u8)
        ensures
            precedence == next_precedence(self.tokens(), self.position()),
    {
        if self.index < self.tokens.len() {
            self.get_precedence(&self.tokens[self.index])
        } else {
            0
        }
    }

    /// How tightly a token binds as an infix operator.
    pub fn get_precedence(&self, tok: &Token) -> (precedence: u8)
        ensures
            precedence == precedence_of(tok@),
    {
        match tok {
            Token::Eq | Token::Lt | Token::LtEq | Token::Neq | Token::Gt | Token::GtEq => 20,
            Token::Plus | Token::Minus => 30,
            Token::Mult | Token::Div => 40,
            _ => 0,
        }
    }

    /// The token at the cursor, which stays where it is.
    pub fn peek_token(&self) -> (token: Option<&'a Token>)
        ensures
            found_view(token) == token_at(self.tokens(), self.position()),
    {
        if self.index < self.tokens.len() {
            Some(&self.tokens[self.index])
        } else {
            None
        }
    }

    /// The token at the cursor, which moves past it.
    pub fn next_token(&mut self) -> (token: Option<&'a Token>)
        ensures
            found_view(token) == token_at(old(self).tokens(), old(self).position()),
            final(self).advanced(
                old(self),
                if token is Some {
                    1
                } else {
                    0
                },
            ),
    {
        if self.index < self.tokens.len() {
            self.index = self.index + 1;
            Some(&self.tokens[self.index - 1])
        } else {
            None
        }
    }

    /// The token behind the cursor.
    pub fn prev_token(&self) -> (token: Option<&'a Token>)
        ensures
            found_view(token) == token_at(self.tokens(), self.position() - 1),
    {
        if self.index > 0 && self.index - 1 < self.tokens.len() {
            Some(&self.tokens[self.index - 1])
        } else {
            None
        }
    }

    /// Moves past the keyword `expected` if it stands at the cursor,
    /// whatever the case of its letters, and says whether it did.
    pub fn parse_keyword(&mut self, expected: &'static str) -> (matched: bool)
        ensures
            matched == keyword_at(old(self).tokens(), old(self).position(), expected@),
            final(self).advanced(
                old(self),
                if matched {
                    1
                } else {
                    0
                },
            ),
    {
        let matched = match self.peek_token() {
            Some(Token::Keyword(k)) => eq_ignore_case(expected, k.as_str()),
            _ => false,
        };
        if matched {
            self.next_token();
        }
        matched
    }

    /// Moves past the keywords `keywords` if they stand at the cursor one
    /// after the other, and says whether it did. If one of them is missing
    /// the cursor stays where it was.
    pub fn parse_keywords(&mut self, keywords: Vec<&'static str>) -> (matched: bool)
        ensures
            matched == keywords_at(old(self).tokens(), old(self).position(), texts(keywords@)),
            final(self).advanced(
                old(self),
                if matched {
                    keywords.len() as nat
                } else {
                    0
                },
            ),
    {
        let index = self.index;
        let ghost words = texts(keywords@);
        let mut i: usize = 0;
        while i < keywords.len()
            invariant
                0 <= i <= keywords.len(),
                self.tokens() == old(self).tokens(),
                index == old(self).position(),
                self.position() == index + i,
                words == texts(keywords@),
                forall|j: int| 0 <= j < i ==> keyword_at(self.tokens(), index + j, #[trigger] words[j]),
            decreases keywords.len() - i,
        {
            if !self.parse_keyword(keywords[i]) {
                self.index = index;
                assert(!keyword_at(self.tokens(), index + i, words[i as int]));
                return false;
            }
            i += 1;
        }
        true
    }

    /// Moves past the token at the cursor if it is `expected`, and fails if
    /// it is not; the cursor then stays where it was.
    pub fn consume_token(&mut self, expected: &Token) -> (result: Result<(), ParserError>)
        ensures
            final(self).advanced(
                old(self),
                if result is Ok {
                    1
                } else {
                    0
                },
            ),
            match spec_consume(old(self).tokens(), old(self).position(), expected@) {
                Ok(_) => result is Ok,
                Err(message) => result matches Err(e) && e@ == ParserErrorView::ParserError(
                    message,
                ),
            },
    {
        let found = self.peek_token();
        let same = match found {
            Some(token) => *token == *expected,
            None => false,
        };
        if same {
            self.next_token();
            Ok(())
        } else {
            let mut m = "expected token ".to_owned();
            let wanted = expected.text();
            m.append(wanted.as_str());
            m.append(" but was ");
            let was = describe(found);
            m.append(was.as_str());
            Err(ParserError::ParserError(m))
        }
    }

    /// Parses what follows `CREATE`: an external table with its columns.
    pub fn parse_create(&mut self) -> (result: Result<ASTNode, ParserError>)
        ensures
            final(self).not_behind(old(self)),
            match spec_create(old(self).tokens(), old(self).position()) {
                Ok((node, n)) => result matches Ok(r) && r@ == node && final(self).advanced(
                    old(self),
                    n,
                ),
                Err(message) => result matches Err(e) && e@ == ParserErrorView::ParserError(
                    message,
                ),
            },
    {
        let ghost tokens = self.tokens();
        let ghost start = self.position();
        let keywords: Vec<&'static str> = vec!["EXTERNAL", "TABLE"];
        proof {
            lemma_keywords_at_pair(tokens, start, texts(keywords@));
        }
        if !self.parse_keywords(keywords) {
            let found = describe(self.peek_token());
            return Err(failure_about("Unexpected token after CREATE: ", found.as_str()));
        }
        let name = match self.next_token() {
            Some(Token::Identifier(id)) => id.clone(),
            found => {
                let found = describe(found);
                return Err(
                    failure_about("Unexpected token after CREATE EXTERNAL TABLE: ", found.as_str()),
                );
            },
        };
        match self.consume_token(&Token::LParen) {
            Ok(_) => {},
            Err(e) => {
                return Err(e);
            },
        }
        match self.parse_columns() {
            Ok(columns) => Ok(ASTNode::SQLCreateTable { name: name, columns: columns }),
            Err(e) => Err(e),
        }
    }

    /// Parses the column definitions of a table, up to and with the `)`
    /// that closes them.
    pub fn parse_columns(&mut self) -> (result: Result<Vec<SQLColumnDef>, ParserError>)
        ensures
            final(self).not_behind(old(self)),
            match spec_columns(old(self).tokens(), old(self).position()) {
                Ok((columns, n)) => result matches Ok(r) && column_views(r@) == columns
                    && final(self).advanced(old(self), n),
                Err(message) => result matches Err(e) && e@ == ParserErrorView::ParserError(
                    message,
                ),
            },
    {
        let ghost tokens = self.tokens();
        let ghost first = self.position();
        let mut columns: Vec<SQLColumnDef> = Vec::new();
        assert(prepended(column_views(columns@), 0, spec_columns(tokens, first)) == spec_columns(
            tokens,
            first,
        )) by {
            if let Ok((rest, k)) = spec_columns(tokens, first) {
                assert(column_views(columns@) + rest =~= rest);
            }
        }
        loop
            invariant
                self.tokens() == tokens,
                tokens == old(self).tokens(),
                first == old(self).position(),
                self.position() >= first,
                spec_columns(tokens, first) == prepended(
                    column_views(columns@),
                    (self.position() - first) as nat,
                    spec_columns(tokens, self.position()),
                ),
            decreases remaining(tokens, self.position()),
        {
            let ghost done = column_views(columns@);
            let column = match self.parse_column() {
                Ok(column) => column,
                Err(e) => {
                    return Err(e);
                },
            };
            match self.peek_token() {
                Some(Token::Comma) => {
                    self.next_token();
                    columns.push(column);
                    proof {
                        assert(column_views(columns@) =~= done.push(column@));
                        if let Ok((more, k)) = spec_columns(tokens, self.position()) {
                            assert(done + (seq![column@] + more) =~= done.push(column@) + more);
                        }
                    }
                },
                Some(Token::RParen) => {
                    self.next_token();
                    columns.push(column);
                    proof {
                        assert(column_views(columns@) =~= done + seq![column@]);
                    }
                    return Ok(columns);
                },
                _ => {
                    return Err(failure("Expected ',' or ')' after column definition"));
                },
            }
        }
    }

    /// Parses one column definition: a name, a data type and an optional
    /// nullability clause, which is read and not kept.
    pub fn parse_column(&mut self) -> (result: Result<SQLColumnDef, ParserError>)
        ensures
            final(self).not_behind(old(self)),
            match spec_column(old(self).tokens(), old(self).position()) {
                Ok((column, n)) => result matches Ok(r) && r@ == column && final(self).advanced(
                    old(self),
                    n,
                ),
                Err(message) => result matches Err(e) && e@ == ParserErrorView::ParserError(
                    message,
                ),
            },
    {
        let name = match self.next_token() {
            Some(Token::Identifier(name)) => name.clone(),
            _ => {
                return Err(failure("Error parsing column name"));
            },
        };
        let data_type = match self.parse_data_type() {
            Ok(data_type) => data_type,
            Err(_) => {
                return Err(failure("Error parsing data type in column definition"));
            },
        };
        let not_null: Vec<&'static str> = vec!["NOT", "NULL"];
        proof {
            lemma_keywords_at_pair(self.tokens(), self.position(), texts(not_null@));
        }
        if self.parse_keywords(not_null) {
        } else if self.parse_keyword("NULL") {
        }
        Ok(SQLColumnDef { name: name, data_type: data_type, allow_null: true })
    }

    /// Parses an integer literal.
    pub fn parse_literal_int(&mut self) -> (result: Result<i64, ParserError>)
        ensures
            final(self).advanced(
                old(self),
                if token_at(old(self).tokens(), old(self).position()) is Some {
                    1
                } else {
                    0
                },
            ),
            match spec_literal_int(old(self).tokens(), old(self).position()) {
                Ok((value, _)) => result matches Ok(r) && r == value,
                Err(message) => result matches Err(e) && e@ == ParserErrorView::ParserError(
                    message,
                ),
            },
    {
        match self.next_token() {
            Some(Token::Number(s)) => match parse_int_literal(s.as_str()) {
                Some(value) => Ok(value),
                None => Err(Self::not_an_integer(s.as_str())),
            },
            _ => Err(failure("Expected literal int")),
        }
    }

    /// The failure at a number token whose text denotes no `i64`.
    fn not_an_integer(text: &str) -> (e: ParserError)
        ensures
            e@ == ParserErrorView::ParserError(not_an_integer(text@)),
    {
        let mut m = "Could not parse '".to_owned();
        m.append(text);
        m.append("' as i64");
        ParserError::ParserError(m)
    }

    /// Parses the type of a column.
    pub fn parse_data_type(&mut self) -> (result: Result<SQLType, ParserError>)
        ensures
            final(self).not_behind(old(self)),
            match spec_data_type(old(self).tokens(), old(self).position()) {
                Ok((data_type, n)) => result matches Ok(r) && r == data_type && final(self).advanced(
                    old(self),
                    n,
                ),
                Err(message) => result matches Err(e) && e@ == ParserErrorView::ParserError(
                    message,
                ),
            },
    {
        match self.next_token() {
            Some(Token::Keyword(k)) => {
                if eq_ignore_case(k.as_str(), "DOUBLE") {
                    Ok(SQLType::Double)
                } else if eq_ignore_case(k.as_str(), "VARCHAR") {
                    match self.consume_token(&Token::LParen) {
                        Ok(_) => {},
                        Err(e) => {
                            return Err(e);
                        },
                    }
                    let n = match self.parse_literal_int() {
                        Ok(n) => n,
                        Err(e) => {
                            return Err(e);
                        },
                    };
                    match self.consume_token(&Token::RParen) {
                        Ok(_) => {},
                        Err(e) => {
                            return Err(e);
                        },
                    }
                    if n < 0 || n as u64 > usize::MAX as u64 {
                        Err(failure("Invalid length for VARCHAR"))
                    } else {
                        Ok(SQLType::Varchar(n as usize))
                    }
                } else {
                    Err(failure("Invalid data type"))
                }
            },
            _ => Err(failure("Invalid data type")),
        }
    }

    /// Parses what follows `SELECT`: the projection and the optional
    /// clauses, up to the end of the tokens.
    pub fn parse_select(&mut self) -> (result: Result<ASTNode, ParserError>)
        ensures
            final(self).not_behind(old(self)),
            match spec_select(old(self).tokens(), old(self).position()) {
                Ok((node, n)) => result matches Ok(r) && r@ == node && final(self).advanced(
                    old(self),
                    n,
                ),
                Err(message) => result matches Err(e) && e@ == ParserErrorView::ParserError(
                    message,
                ),
            },
        decreases remaining(old(self).tokens(), old(self).position()), 4int,
    {
        let projection = match self.parse_expr_list() {
            Ok(projection) => projection,
            Err(e) => {
                return Err(e);
            },
        };
        let relation = match self.parse_clause("FROM") {
            Ok(relation) => relation,
            Err(e) => {
                return Err(e);
            },
        };
        let selection = match self.parse_clause("WHERE") {
            Ok(selection) => selection,
            Err(e) => {
                return Err(e);
            },
        };
        let limit = if self.parse_keyword("LIMIT") {
            match self.parse_limit() {
                Ok(limit) => limit,
                Err(e) => {
                    return Err(e);
                },
            }
        } else {
            None
        };
        match self.peek_token() {
            Some(token) => {
                let found = token.text();
                Err(failure_about("Unexpected token at end of SELECT: ", found.as_str()))
            },
            None => {
                proof {
                    lemma_select_view(projection, relation, selection, limit);
                }
                Ok(
                    ASTNode::SQLSelect {
                        projection: projection,
                        relation: relation,
                        selection: selection,
                        limit: limit,
                        order: None,
                    },
                )
            },
        }
    }

    /// Parses an optional clause: the expression after `keyword`, if
    /// `keyword` stands at the cursor.
    pub fn parse_clause(&mut self, keyword: &'static str) -> (result: Result<
        Option<Box<ASTNode>>,
        ParserError,
    >)
        ensures
            final(self).not_behind(old(self)),
            match spec_clause(old(self).tokens(), old(self).position(), keyword@) {
                Ok((node, n)) => result matches Ok(r) && optional_view(r) == node && final(self).advanced(
                    old(self),
                    n,
                ),
                Err(message) => result matches Err(e) && e@ == ParserErrorView::ParserError(
                    message,
                ),
            },
        decreases remaining(old(self).tokens(), old(self).position()), 2int,
    {
        if self.parse_keyword(keyword) {
            match self.parse_expr(0) {
                Ok(node) => Ok(Some(Box::new(node))),
                Err(e) => Err(e),
            }
        } else {
            Ok(None)
        }
    }

    /// Parses one item of a list of expressions and the `,` after it, if
    /// there is one; says whether there was.
    pub fn parse_list_item(&mut self) -> (result: Result<(ASTNode, bool), ParserError>)
        ensures
            final(self).not_behind(old(self)),
            match spec_list_item(old(self).tokens(), old(self).position()) {
                Ok(((node, more), n)) => result matches Ok(r) && r.0@ == node && r.1 == more
                    && final(self).advanced(old(self), n),
                Err(message) => result matches Err(e) && e@ == ParserErrorView::ParserError(
                    message,
                ),
            },
        decreases remaining(old(self).tokens(), old(self).position()), 2int,
    {
        let expr = match self.parse_expr(0) {
            Ok(expr) => expr,
            Err(e) => {
                return Err(e);
            },
        };
        match self.peek_token() {
            Some(Token::Comma) => {
                self.next_token();
                Ok((expr, true))
            },
            _ => Ok((expr, false)),
        }
    }

    /// Parses one or more expressions with `,` between them.
    pub fn parse_expr_list(&mut self) -> (result: Result<Vec<ASTNode>, ParserError>)
        ensures
            final(self).not_behind(old(self)),
            match spec_expr_list(old(self).tokens(), old(self).position()) {
                Ok((nodes, n)) => result matches Ok(r) && node_views(r@) == nodes && final(self).advanced(
                    old(self),
                    n,
                ),
                Err(message) => result matches Err(e) && e@ == ParserErrorView::ParserError(
                    message,
                ),
            },
        decreases remaining(old(self).tokens(), old(self).position()), 3int,
    {
        let ghost tokens = self.tokens();
        let ghost start = self.position();
        let mut expr_list: Vec<ASTNode> = Vec::new();
        assert(prepended(node_views(expr_list@), 0, spec_expr_list(tokens, start))
            == spec_expr_list(tokens, start)) by {
            if let Ok((rest, k)) = spec_expr_list(tokens, start) {
                assert(node_views(expr_list@) + rest =~= rest);
            }
        }
        loop
            invariant
                self.tokens() == tokens,
                tokens == old(self).tokens(),
                start == old(self).position(),
                self.position() >= start,
                spec_expr_list(tokens, start) == prepended(
                    node_views(expr_list@),
                    (self.position() - start) as nat,
                    spec_expr_list(tokens, self.position()),
                ),
            decreases remaining(tokens, self.position()),
        {
            let ghost done = node_views(expr_list@);
            let (expr, more) = match self.parse_list_item() {
                Ok(item) => item,
                Err(e) => {
                    return Err(e);
                },
            };
            expr_list.push(expr);
            proof {
                assert(node_views(expr_list@) =~= done.push(expr@));
                assert(done + seq![expr@] =~= done.push(expr@));
                if more {
                    if let Ok((rest, k)) = spec_expr_list(tokens, self.position()) {
                        assert(done + (seq![expr@] + rest) =~= done.push(expr@) + rest);
                    }
                }
            }
            if !more {
                return Ok(expr_list);
            }
        }
    }

    /// Parses what follows `LIMIT`: `ALL`, or an integer literal.
    pub fn parse_limit(&mut self) -> (result: Result<Option<Box<ASTNode>>, ParserError>)
        ensures
            final(self).not_behind(old(self)),
            match spec_limit(old(self).tokens(), old(self).position()) {
                Ok((node, n)) => result matches Ok(r) && optional_view(r) == node && final(self).advanced(
                    old(self),
                    n,
                ),
                Err(message) => result matches Err(e) && e@ == ParserErrorView::ParserError(
                    message,
                ),
            },
    {
        if self.parse_keyword("ALL") {
            Ok(None)
        } else {
            match self.parse_literal_int() {
                Ok(n) => Ok(Some(Box::new(ASTNode::SQLLiteralInt(n)))),
                Err(e) => Err(e),
            }
        }
    }
}

} // verus!
