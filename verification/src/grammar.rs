//! The grammar: what the syntax tree of a sequence of tokens is.
//!
//! Every production is a function of the tokens and of the position at which
//! it starts. It gives the value it builds together with the number of
//! tokens that it spans, or the message of the failure that ends the parse.

use vstd::prelude::*;
use crate::sql::{ASTNodeView, SQLColumnDefView, SQLOperator, SQLType};
use crate::text::{int_literal, same_ignoring_case};
use crate::token::TokenView;

verus! {

/// The outcome of a production: the value and the number of tokens it
/// spans, or the message of a failure.
pub type Parsed<T> = Result<(T, nat), Seq<char>>;

/// The token at a position, if there is one.
pub open spec fn token_at(tokens: Seq<TokenView>, pos: int) -> Option<TokenView> {
    if 0 <= pos < tokens.len() {
        Some(tokens[pos])
    } else {
        None
    }
}

/// The distance from a position to the end of the tokens, and 0 behind the
/// end: the measure by which the productions terminate.
pub open spec fn remaining(tokens: Seq<TokenView>, pos: int) -> nat {
    if pos < tokens.len() {
        (tokens.len() - pos) as nat
    } else {
        0
    }
}

/// A keyword stands at the position whose text is `word`, whatever the case
/// of its letters.
pub open spec fn keyword_at(tokens: Seq<TokenView>, pos: int, word: Seq<char>) -> bool {
    token_at(tokens, pos) matches Some(TokenView::Keyword(text)) && same_ignoring_case(word, text)
}

/// The texts of a list of words.
pub open spec fn texts(words: Seq<&'static str>) -> Seq<Seq<char>> {
    Seq::new(words.len(), |i: int| words[i]@)
}

/// The keywords `words` stand at the position, one after the other.
pub open spec fn keywords_at(tokens: Seq<TokenView>, pos: int, words: Seq<Seq<char>>) -> bool {
    forall|i: int| 0 <= i < words.len() ==> keyword_at(tokens, pos + i, #[trigger] words[i])
}

/// Two keywords stand one after the other where each stands in its place.
pub proof fn lemma_keywords_at_pair(tokens: Seq<TokenView>, pos: int, words: Seq<Seq<char>>)
    requires
        words.len() == 2,
    ensures
        keywords_at(tokens, pos, words) == (keyword_at(tokens, pos, words[0]) && keyword_at(
            tokens,
            pos + 1,
            words[1],
        )),
{
    if keyword_at(tokens, pos, words[0]) && keyword_at(tokens, pos + 1, words[1]) {
        assert forall|i: int| 0 <= i < words.len() implies keyword_at(
            tokens,
            pos + i,
            #[trigger] words[i],
        ) by {
            if i == 0 {
            } else {
                assert(i == 1);
            }
        }
    }
}

/// How a token, or the end of the tokens, is named in a message.
pub open spec fn found_text(found: Option<TokenView>) -> Seq<char> {
    match found {
        Some(token) => token.text(),
        None => "EOF"@,
    }
}

/// An outcome reached after `n` tokens: its span counts them too.
pub open spec fn shifted<T>(n: nat, outcome: Parsed<T>) -> Parsed<T> {
    match outcome {
        Ok((value, k)) => Ok((value, n + k)),
        Err(message) => Err(message),
    }
}

/// The outcome for the rest of a list, after the items `done` that span `n`
/// tokens: the whole list and its span.
pub open spec fn prepended<T>(done: Seq<T>, n: nat, outcome: Parsed<Seq<T>>) -> Parsed<Seq<T>> {
    match outcome {
        Ok((rest, k)) => Ok((done + rest, n + k)),
        Err(message) => Err(message),
    }
}

/// How tightly a token binds as an infix operator; 0 for a token that is
/// none.
pub open spec fn precedence_of(token: TokenView) -> u8 {
    match token {
        TokenView::Eq
        | TokenView::Lt
        | TokenView::LtEq
        | TokenView::Neq
        | TokenView::Gt
        | TokenView::GtEq => 20,
        TokenView::Plus | TokenView::Minus => 30,
        TokenView::Mult | TokenView::Div => 40,
        _ => 0,
    }
}

/// The precedence of the token at a position; 0 at the end of the tokens.
pub open spec fn next_precedence(tokens: Seq<TokenView>, pos: int) -> u8 {
    match token_at(tokens, pos) {
        Some(token) => precedence_of(token),
        None => 0,
    }
}

/// The comparison that a token stands for.
pub open spec fn operator_of(token: TokenView) -> Option<SQLOperator> {
    match token {
        TokenView::Eq => Some(SQLOperator::EQ),
        TokenView::Lt => Some(SQLOperator::LT),
        TokenView::LtEq => Some(SQLOperator::LTEQ),
        TokenView::Gt => Some(SQLOperator::GT),
        TokenView::GtEq => Some(SQLOperator::GTEQ),
        _ => None,
    }
}

/// The message where a keyword stands that starts no statement.
pub open spec fn no_prefix_parser(keyword: Seq<char>) -> Seq<char> {
    "No prefix parser for keyword "@ + keyword
}

/// The message where a token stands that starts no expression.
pub open spec fn prefix_found(token: TokenView) -> Seq<char> {
    "Prefix parser expected a keyword but found "@ + token.text()
}

/// The message where an expression should start and the tokens end.
pub open spec fn prefix_hit_end() -> Seq<char> {
    "Prefix parser expected a keyword but hit EOF"@
}

/// The message for a number whose text denotes no `i64`.
pub open spec fn not_an_integer(text: Seq<char>) -> Seq<char> {
    "Could not parse '"@ + text + "' as i64"@
}

/// The message where a token stands in infix position that is no
/// comparison.
pub open spec fn no_infix_parser(token: TokenView) -> Seq<char> {
    "No infix parser for token "@ + token.text()
}

/// The message for a token that stands for no comparison.
pub open spec fn unsupported_operator(token: TokenView) -> Seq<char> {
    "Unsupported operator "@ + token.text()
}

/// The message where `expected` should stand and `found` does, or the
/// tokens end.
pub open spec fn expected_token(expected: TokenView, found: Option<TokenView>) -> Seq<char> {
    "expected token "@ + expected.text() + " but was "@ + found_text(found)
}

/// The message where an integer literal should stand.
pub open spec fn expected_literal_int() -> Seq<char> {
    "Expected literal int"@
}

/// The message where a data type should stand.
pub open spec fn invalid_data_type() -> Seq<char> {
    "Invalid data type"@
}

/// The message for a `VARCHAR` whose length is negative or too large.
pub open spec fn invalid_varchar_length() -> Seq<char> {
    "Invalid length for VARCHAR"@
}

/// The message where `EXTERNAL TABLE` should follow `CREATE`.
pub open spec fn unexpected_after_create(found: Option<TokenView>) -> Seq<char> {
    "Unexpected token after CREATE: "@ + found_text(found)
}

/// The message where the name of the table should stand.
pub open spec fn unexpected_after_create_table(found: Option<TokenView>) -> Seq<char> {
    "Unexpected token after CREATE EXTERNAL TABLE: "@ + found_text(found)
}

/// The message where the name of a column should stand.
pub open spec fn bad_column_name() -> Seq<char> {
    "Error parsing column name"@
}

/// The message where the data type of a column should stand.
pub open spec fn bad_column_type() -> Seq<char> {
    "Error parsing data type in column definition"@
}

/// The message where `,` or `)` should follow a column definition.
pub open spec fn bad_column_end() -> Seq<char> {
    "Expected ',' or ')' after column definition"@
}

/// The message where a token is left after a `SELECT` statement.
pub open spec fn unexpected_after_select(token: TokenView) -> Seq<char> {
    "Unexpected token at end of SELECT: "@ + token.text()
}

/// The token `expected` stands at the position. On a match the span is one
/// token.
pub open spec fn spec_consume(tokens: Seq<TokenView>, pos: int, expected: TokenView) -> Parsed<()> {
    if token_at(tokens, pos) == Some(expected) {
        Ok(((), 1))
    } else {
        Err(expected_token(expected, token_at(tokens, pos)))
    }
}

/// An integer literal: a number token whose text denotes an `i64`.
pub open spec fn spec_literal_int(tokens: Seq<TokenView>, pos: int) -> Parsed<i64> {
    match token_at(tokens, pos) {
        Some(TokenView::Number(text)) => match int_literal(text) {
            Some(value) => Ok((value, 1)),
            None => Err(not_an_integer(text)),
        },
        _ => Err(expected_literal_int()),
    }
}

/// A data type: `DOUBLE`, or `VARCHAR ( length )`, where the length is an
/// integer literal that is not negative and that a `usize` can hold.
pub open spec fn spec_data_type(tokens: Seq<TokenView>, pos: int) -> Parsed<SQLType> {
    match token_at(tokens, pos) {
        Some(TokenView::Keyword(word)) => if same_ignoring_case(word, "DOUBLE"@) {
            Ok((SQLType::Double, 1))
        } else if same_ignoring_case(word, "VARCHAR"@) {
            match spec_consume(tokens, pos + 1, TokenView::LParen) {
                Err(message) => Err(message),
                Ok(_) => match spec_literal_int(tokens, pos + 2) {
                    Err(message) => Err(message),
                    Ok((length, _)) => match spec_consume(tokens, pos + 3, TokenView::RParen) {
                        Err(message) => Err(message),
                        Ok(_) => if 0 <= length <= usize::MAX {
                            Ok((SQLType::Varchar(length as usize), 4))
                        } else {
                            Err(invalid_varchar_length())
                        },
                    },
                },
            }
        } else {
            Err(invalid_data_type())
        },
        _ => Err(invalid_data_type()),
    }
}

/// How many tokens the nullability clause at a position spans: two for
/// `NOT NULL`, one for `NULL`, none where neither stands.
pub open spec fn nullability_span(tokens: Seq<TokenView>, pos: int) -> nat {
    if keyword_at(tokens, pos, "NOT"@) && keyword_at(tokens, pos + 1, "NULL"@) {
        2
    } else if keyword_at(tokens, pos, "NULL"@) {
        1
    } else {
        0
    }
}

/// One column definition: a name, a data type and an optional nullability
/// clause. The column allows null, whatever the clause says.
pub open spec fn spec_column(tokens: Seq<TokenView>, pos: int) -> Parsed<SQLColumnDefView> {
    match token_at(tokens, pos) {
        Some(TokenView::Identifier(name)) => match spec_data_type(tokens, pos + 1) {
            Err(_) => Err(bad_column_type()),
            Ok((data_type, n)) => Ok(
                (
                    SQLColumnDefView { name, data_type, allow_null: true },
                    1 + n + nullability_span(tokens, pos + 1 + n),
                ),
            ),
        },
        _ => Err(bad_column_name()),
    }
}

/// The column definitions of a table, up to and with the `)` that closes
/// them; `,` stands between two of them.
pub open spec fn spec_columns(tokens: Seq<TokenView>, pos: int) -> Parsed<Seq<SQLColumnDefView>>
    decreases remaining(tokens, pos),
{
    match spec_column(tokens, pos) {
        Err(message) => Err(message),
        Ok((column, n)) => match token_at(tokens, pos + n) {
            Some(TokenView::Comma) => match spec_columns(tokens, pos + n + 1) {
                Ok((rest, k)) => Ok((seq![column] + rest, n + 1 + k)),
                Err(message) => Err(message),
            },
            Some(TokenView::RParen) => Ok((seq![column], n + 1)),
            _ => Err(bad_column_end()),
        },
    }
}

/// What follows `CREATE`: `EXTERNAL TABLE name ( columns )`.
pub open spec fn spec_create(tokens: Seq<TokenView>, pos: int) -> Parsed<ASTNodeView> {
    if keyword_at(tokens, pos, "EXTERNAL"@) && keyword_at(tokens, pos + 1, "TABLE"@) {
        match token_at(tokens, pos + 2) {
            Some(TokenView::Identifier(name)) => match spec_consume(
                tokens,
                pos + 3,
                TokenView::LParen,
            ) {
                Err(message) => Err(message),
                Ok(_) => match spec_columns(tokens, pos + 4) {
                    Ok((columns, n)) => Ok((ASTNodeView::SQLCreateTable { name, columns }, 4 + n)),
                    Err(message) => Err(message),
                },
            },
            found => Err(unexpected_after_create_table(found)),
        }
    } else {
        Err(unexpected_after_create(token_at(tokens, pos)))
    }
}

/// What follows `LIMIT`: `ALL` for no limit, or an integer literal.
pub open spec fn spec_limit(tokens: Seq<TokenView>, pos: int) -> Parsed<Option<Box<ASTNodeView>>> {
    if keyword_at(tokens, pos, "ALL"@) {
        Ok((None, 1))
    } else {
        match spec_literal_int(tokens, pos) {
            Ok((value, n)) => Ok((Some(Box::new(ASTNodeView::SQLLiteralInt(value))), n)),
            Err(message) => Err(message),
        }
    }
}

/// The optional clause `LIMIT`: what follows the keyword, if it stands at
/// the position; else no limit, and no token spanned.
pub open spec fn spec_limit_clause(tokens: Seq<TokenView>, pos: int) -> Parsed<
    Option<Box<ASTNodeView>>,
> {
    if keyword_at(tokens, pos, "LIMIT"@) {
        shifted(1, spec_limit(tokens, pos + 1))
    } else {
        Ok((None, 0))
    }
}

/// An expression: a prefix production, then every infix operator that
/// binds more tightly than `floor`, each with its right operand.
pub open spec fn spec_expr(tokens: Seq<TokenView>, pos: int, floor: u8) -> Parsed<ASTNodeView>
    decreases remaining(tokens, pos), 2int,
{
    match spec_prefix(tokens, pos) {
        Ok((left, n)) => shifted(n, spec_climb(tokens, pos + n, floor, left)),
        Err(message) => Err(message),
    }
}

/// The expression that `left` grows into from a position on. While the
/// token there binds more tightly than `floor`, it must be a comparison:
/// its right operand is the expression after it that binds more tightly than
/// the comparison does, and the two operands make the new `left`. So
/// comparisons of one precedence group to the left.
pub open spec fn spec_climb(
    tokens: Seq<TokenView>,
    pos: int,
    floor: u8,
    left: ASTNodeView,
) -> Parsed<ASTNodeView>
    decreases remaining(tokens, pos), 1int,
{
    if floor >= next_precedence(tokens, pos) {
        Ok((left, 0))
    } else {
        match operator_of(tokens[pos]) {
            None => Err(no_infix_parser(tokens[pos])),
            Some(op) => match spec_expr(tokens, pos + 1, next_precedence(tokens, pos)) {
                Err(message) => Err(message),
                Ok((right, n)) => shifted(
                    1 + n,
                    spec_climb(
                        tokens,
                        pos + 1 + n,
                        floor,
                        ASTNodeView::SQLBinaryExpr {
                            left: Box::new(left),
                            op,
                            right: Box::new(right),
                        },
                    ),
                ),
            },
        }
    }
}

/// A prefix production: a statement after `SELECT` or `CREATE`, a function
/// call, an identifier, or an integer literal.
pub open spec fn spec_prefix(tokens: Seq<TokenView>, pos: int) -> Parsed<ASTNodeView>
    decreases remaining(tokens, pos), 0int,
{
    match token_at(tokens, pos) {
        None => Err(prefix_hit_end()),
        Some(TokenView::Keyword(word)) => if same_ignoring_case(word, "SELECT"@) {
            shifted(1, spec_select(tokens, pos + 1))
        } else if same_ignoring_case(word, "CREATE"@) {
            shifted(1, spec_create(tokens, pos + 1))
        } else {
            Err(no_prefix_parser(word))
        },
        Some(TokenView::Identifier(id)) => if token_at(tokens, pos + 1) == Some(TokenView::LParen) {
            match spec_expr_list(tokens, pos + 2) {
                Err(message) => Err(message),
                Ok((args, n)) => match spec_consume(tokens, pos + 2 + n, TokenView::RParen) {
                    Err(message) => Err(message),
                    Ok(_) => Ok((ASTNodeView::SQLFunction { id, args }, 3 + n)),
                },
            }
        } else {
            Ok((ASTNodeView::SQLIdentifier { id }, 1))
        },
        Some(TokenView::Number(text)) => match int_literal(text) {
            Some(value) => Ok((ASTNodeView::SQLLiteralInt(value), 1)),
            None => Err(not_an_integer(text)),
        },
        Some(token) => Err(prefix_found(token)),
    }
}

/// One or more expressions with `,` between them.
pub open spec fn spec_expr_list(tokens: Seq<TokenView>, pos: int) -> Parsed<Seq<ASTNodeView>>
    decreases remaining(tokens, pos), 3int,
{
    match spec_expr(tokens, pos, 0) {
        Err(message) => Err(message),
        Ok((first, n)) => if token_at(tokens, pos + n) == Some(TokenView::Comma) {
            match spec_expr_list(tokens, pos + n + 1) {
                Ok((rest, k)) => Ok((seq![first] + rest, n + 1 + k)),
                Err(message) => Err(message),
            }
        } else {
            Ok((seq![first], n))
        },
    }
}

/// An optional clause of a statement: where `keyword` stands at the
/// position, the expression after it; else nothing, and no token spanned.
pub open spec fn spec_clause(tokens: Seq<TokenView>, pos: int, keyword: Seq<char>) -> Parsed<
    Option<Box<ASTNodeView>>,
>
    decreases remaining(tokens, pos), 3int,
{
    if keyword_at(tokens, pos, keyword) {
        match spec_expr(tokens, pos + 1, 0) {
            Ok((node, n)) => Ok((Some(Box::new(node)), 1 + n)),
            Err(message) => Err(message),
        }
    } else {
        Ok((None, 0))
    }
}

/// What follows `SELECT`: the projection, then the optional clauses `FROM`,
/// `WHERE` and `LIMIT` in this order, and then the end of the tokens. The
/// order of the rows is never set.
pub open spec fn spec_select(tokens: Seq<TokenView>, pos: int) -> Parsed<ASTNodeView>
    decreases remaining(tokens, pos), 4int,
{
    match spec_expr_list(tokens, pos) {
        Err(message) => Err(message),
        Ok((projection, n1)) => match spec_clause(tokens, pos + n1, "FROM"@) {
            Err(message) => Err(message),
            Ok((relation, n2)) => match spec_clause(tokens, pos + n1 + n2, "WHERE"@) {
                Err(message) => Err(message),
                Ok((selection, n3)) => match spec_limit_clause(tokens, pos + n1 + n2 + n3) {
                    Err(message) => Err(message),
                    Ok((limit, n4)) => match token_at(tokens, pos + n1 + n2 + n3 + n4) {
                        Some(token) => Err(unexpected_after_select(token)),
                        None => Ok(
                            (
                                ASTNodeView::SQLSelect {
                                    projection,
                                    relation,
                                    selection,
                                    limit,
                                    order: None,
                                },
                                n1 + n2 + n3 + n4,
                            ),
                        ),
                    },
                },
            },
        },
    }
}

/// One item of a list of expressions: the expression, and whether a `,`
/// follows it, which then belongs to the span.
pub open spec fn spec_list_item(tokens: Seq<TokenView>, pos: int) -> Parsed<(ASTNodeView, bool)> {
    match spec_expr(tokens, pos, 0) {
        Err(message) => Err(message),
        Ok((node, n)) => if token_at(tokens, pos + n) == Some(TokenView::Comma) {
            Ok(((node, true), n + 1))
        } else {
            Ok(((node, false), n))
        },
    }
}

/// An infix production at a position: nothing at the end of the tokens;
/// else the token must be a comparison, and `left` and the expression after
/// it that binds more tightly than `precedence` are its operands.
pub open spec fn spec_infix(
    tokens: Seq<TokenView>,
    pos: int,
    left: ASTNodeView,
    precedence: u8,
) -> Parsed<Option<ASTNodeView>> {
    match token_at(tokens, pos) {
        None => Ok((None, 0)),
        Some(token) => match operator_of(token) {
            None => Err(no_infix_parser(token)),
            Some(op) => match spec_expr(tokens, pos + 1, precedence) {
                Err(message) => Err(message),
                Ok((right, n)) => Ok(
                    (
                        Some(
                            ASTNodeView::SQLBinaryExpr {
                                left: Box::new(left),
                                op,
                                right: Box::new(right),
                            },
                        ),
                        1 + n,
                    ),
                ),
            },
        },
    }
}

/// The syntax tree of a sequence of tokens: the one expression or
/// statement that starts at the first token.
pub open spec fn spec_parse(tokens: Seq<TokenView>) -> Result<ASTNodeView, Seq<char>> {
    match spec_expr(tokens, 0, 0) {
        Ok((node, _)) => Ok(node),
        Err(message) => Err(message),
    }
}

} // verus!
