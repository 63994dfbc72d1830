//! What holds of the syntax tree of every sequence of tokens: how far a
//! production reaches, that a list is never empty, that what is opened is
//! closed, and what the grammar leaves out.

use vstd::prelude::*;
use crate::grammar::{
    keyword_at, next_precedence, no_infix_parser, operator_of, precedence_of, remaining,
    spec_clause, spec_climb, spec_column, spec_columns, spec_create, spec_data_type, spec_expr,
    spec_expr_list, spec_limit, spec_limit_clause, spec_prefix, spec_select, token_at,
};
use crate::sql::ASTNodeView;
use crate::token::TokenView;

verus! {

/// The `n` tokens from `pos` on are tokens of the sequence.
pub open spec fn within(tokens: Seq<TokenView>, pos: int, n: nat) -> bool {
    0 <= pos && pos + n <= tokens.len()
}

/// A data type spans at least one token, and only tokens that are there.
pub proof fn lemma_data_type_span(tokens: Seq<TokenView>, pos: int)
    ensures
        spec_data_type(tokens, pos) matches Ok((_, n)) ==> n >= 1 && within(tokens, pos, n),
{
}

/// The column definitions of a table span only tokens that are there.
/// There is at least one column, every column allows null, and the last
/// token spanned is the `)` that closes them.
pub proof fn lemma_columns_span(tokens: Seq<TokenView>, pos: int)
    ensures
        spec_columns(tokens, pos) matches Ok((columns, n)) ==> {
            &&& n >= 3
            &&& within(tokens, pos, n)
            &&& columns.len() >= 1
            &&& forall|i: int| 0 <= i < columns.len() ==> (#[trigger] columns[i]).allow_null
            &&& token_at(tokens, pos + n - 1) == Some(TokenView::RParen)
        },
    decreases remaining(tokens, pos),
{
    if let Ok((column, n)) = spec_column(tokens, pos) {
        lemma_data_type_span(tokens, pos + 1);
        if token_at(tokens, pos + n) == Some(TokenView::Comma) {
            lemma_columns_span(tokens, pos + n + 1);
        }
    }
}

/// A table definition spans only tokens that are there. It has at least
/// one column, and the last token spanned is the `)` that closes the columns.
pub proof fn lemma_create_span(tokens: Seq<TokenView>, pos: int)
    ensures
        spec_create(tokens, pos) matches Ok((node, n)) ==> {
            &&& n >= 7
            &&& within(tokens, pos, n)
            &&& node matches ASTNodeView::SQLCreateTable { columns, .. } && columns.len() >= 1
            &&& token_at(tokens, pos + n - 1) == Some(TokenView::RParen)
        },
{
    lemma_columns_span(tokens, pos + 4);
}

/// A column list in which no `)` follows is a failure.
pub proof fn lemma_unterminated_columns_fail(tokens: Seq<TokenView>, pos: int)
    requires
        forall|j: int| pos <= j < tokens.len() ==> tokens[j] != TokenView::RParen,
    ensures
        spec_columns(tokens, pos) is Err,
{
    lemma_columns_span(tokens, pos);
}

/// A table definition after whose `(` no `)` follows is a failure.
pub proof fn lemma_unterminated_create_fails(tokens: Seq<TokenView>, pos: int)
    requires
        forall|j: int| pos + 4 <= j < tokens.len() ==> tokens[j] != TokenView::RParen,
    ensures
        spec_create(tokens, pos) is Err,
{
    lemma_create_span(tokens, pos);
}

/// What follows `LIMIT` spans one token that is there.
pub proof fn lemma_limit_span(tokens: Seq<TokenView>, pos: int)
    ensures
        spec_limit(tokens, pos) matches Ok((_, n)) ==> n == 1 && within(tokens, pos, n),
        spec_limit_clause(tokens, pos) matches Ok((_, n)) ==> n == 0 || (n == 2 && within(
            tokens,
            pos,
            n,
        )),
{
}

/// An expression spans at least one token, and only tokens that are there.
pub proof fn lemma_expr_span(tokens: Seq<TokenView>, pos: int, floor: u8)
    ensures
        spec_expr(tokens, pos, floor) matches Ok((_, n)) ==> n >= 1 && within(tokens, pos, n),
    decreases remaining(tokens, pos), 2int,
{
    if let Ok((left, n)) = spec_prefix(tokens, pos) {
        lemma_prefix_span(tokens, pos);
        lemma_climb_span(tokens, pos + n, floor, left);
    }
}

/// What an expression grows into is the expression itself, which spans no
/// further token, or a comparison, which spans only tokens that are there.
pub proof fn lemma_climb_span(tokens: Seq<TokenView>, pos: int, floor: u8, left: ASTNodeView)
    ensures
        spec_climb(tokens, pos, floor, left) matches Ok((node, n)) ==> (node == left && n == 0) || (
        node is SQLBinaryExpr && n >= 2 && within(tokens, pos, n)),
    decreases remaining(tokens, pos), 1int,
{
    if floor < next_precedence(tokens, pos) {
        if let Some(op) = operator_of(tokens[pos]) {
            let next = next_precedence(tokens, pos);
            lemma_expr_span(tokens, pos + 1, next);
            if let Ok((right, n)) = spec_expr(tokens, pos + 1, next) {
                lemma_climb_span(
                    tokens,
                    pos + 1 + n,
                    floor,
                    ASTNodeView::SQLBinaryExpr {
                        left: Box::new(left),
                        op,
                        right: Box::new(right),
                    },
                );
            }
        }
    }
}

/// A prefix production spans at least one token, and only tokens that are
/// there. A function call spans at least four, and the last of them is the
/// `)` that closes its arguments.
pub proof fn lemma_prefix_span(tokens: Seq<TokenView>, pos: int)
    ensures
        spec_prefix(tokens, pos) matches Ok((node, n)) ==> {
            &&& n >= 1
            &&& within(tokens, pos, n)
            &&& node is SQLFunction ==> {
                &&& n >= 4
                &&& token_at(tokens, pos + 1) == Some(TokenView::LParen)
                &&& token_at(tokens, pos + n - 1) == Some(TokenView::RParen)
            }
        },
    decreases remaining(tokens, pos), 0int,
{
    match token_at(tokens, pos) {
        Some(TokenView::Keyword(word)) => {
            lemma_select_span(tokens, pos + 1);
            lemma_create_span(tokens, pos + 1);
        },
        Some(TokenView::Identifier(id)) => {
            if token_at(tokens, pos + 1) == Some(TokenView::LParen) {
                lemma_expr_list_span(tokens, pos + 2);
            }
        },
        _ => {},
    }
}

/// A list of expressions has at least one item. It spans at least one
/// token, and only tokens that are there.
pub proof fn lemma_expr_list_span(tokens: Seq<TokenView>, pos: int)
    ensures
        spec_expr_list(tokens, pos) matches Ok((nodes, n)) ==> n >= 1 && within(tokens, pos, n)
            && nodes.len() >= 1,
    decreases remaining(tokens, pos), 3int,
{
    lemma_expr_span(tokens, pos, 0);
    if let Ok((first, n)) = spec_expr(tokens, pos, 0) {
        if token_at(tokens, pos + n) == Some(TokenView::Comma) {
            lemma_expr_list_span(tokens, pos + n + 1);
        }
    }
}

/// An optional clause spans no token, or at least two that are there.
pub proof fn lemma_clause_span(tokens: Seq<TokenView>, pos: int, keyword: Seq<char>)
    ensures
        spec_clause(tokens, pos, keyword) matches Ok((_, n)) ==> n == 0 || (n >= 2 && within(
            tokens,
            pos,
            n,
        )),
    decreases remaining(tokens, pos), 3int,
{
    if keyword_at(tokens, pos, keyword) {
        lemma_expr_span(tokens, pos + 1, 0);
    }
}

/// A `SELECT` statement reads to the end of the tokens: on success nothing
/// is left behind it. Its projection is not empty and its order is not set.
pub proof fn lemma_select_span(tokens: Seq<TokenView>, pos: int)
    ensures
        spec_select(tokens, pos) matches Ok((node, n)) ==> {
            &&& n >= 1
            &&& 0 <= pos
            &&& pos + n == tokens.len()
            &&& node matches ASTNodeView::SQLSelect { projection, order, .. }
                && projection.len() >= 1 && order is None
        },
    decreases remaining(tokens, pos), 4int,
{
    lemma_expr_list_span(tokens, pos);
    if let Ok((projection, n1)) = spec_expr_list(tokens, pos) {
        lemma_clause_span(tokens, pos + n1, "FROM"@);
        if let Ok((relation, n2)) = spec_clause(tokens, pos + n1, "FROM"@) {
            lemma_clause_span(tokens, pos + n1 + n2, "WHERE"@);
            if let Ok((selection, n3)) = spec_clause(tokens, pos + n1 + n2, "WHERE"@) {
                lemma_limit_span(tokens, pos + n1 + n2 + n3);
                lemma_limit_span(tokens, pos + n1 + n2 + n3 + 1);
            }
        }
    }
}

/// Trailing tokens after a `SELECT` statement are a failure: where the
/// whole parse gives such a statement, it has read every token.
pub proof fn lemma_select_reads_all(tokens: Seq<TokenView>)
    ensures
        spec_expr(tokens, 0, 0) matches Ok((node, n)) ==> (node is SQLSelect ==> n
            == tokens.len()),
{
    if let Ok((left, n)) = spec_prefix(tokens, 0) {
        lemma_climb_span(tokens, n as int, 0, left);
        lemma_select_span(tokens, 1);
        lemma_create_span(tokens, 1);
    }
}

/// A function call after whose `(` no `)` follows is a failure.
pub proof fn lemma_unterminated_call_fails(tokens: Seq<TokenView>, pos: int)
    requires
        token_at(tokens, pos) matches Some(TokenView::Identifier(_)),
        token_at(tokens, pos + 1) == Some(TokenView::LParen),
        forall|j: int| pos + 1 < j < tokens.len() ==> tokens[j] != TokenView::RParen,
    ensures
        spec_prefix(tokens, pos) is Err,
{
    lemma_prefix_span(tokens, pos);
}

/// No `)` stands in the sequence of tokens.
pub open spec fn unclosed(tokens: Seq<TokenView>) -> bool {
    forall|j: int| 0 <= j < tokens.len() ==> tokens[j] != TokenView::RParen
}

/// Without a `)` among the tokens no production gives a function call or a
/// table definition, and so the whole parse gives neither: what is opened
/// and not closed is a failure.
pub proof fn lemma_unclosed_gives_no_call_or_table(tokens: Seq<TokenView>, pos: int, floor: u8)
    requires
        unclosed(tokens),
    ensures
        spec_prefix(tokens, pos) matches Ok((node, _)) ==> !(node is SQLFunction) && !(node
            is SQLCreateTable),
        spec_expr(tokens, pos, floor) matches Ok((node, _)) ==> !(node is SQLFunction) && !(node
            is SQLCreateTable),
        spec_create(tokens, pos) is Err,
        spec_columns(tokens, pos) is Err,
{
    lemma_columns_span(tokens, pos);
    lemma_create_span(tokens, pos);
    lemma_create_span(tokens, pos + 1);
    lemma_select_span(tokens, pos + 1);
    lemma_prefix_span(tokens, pos);
    if let Ok((left, n)) = spec_prefix(tokens, pos) {
        lemma_climb_span(tokens, pos + n, floor, left);
    }
}

/// Comparisons group to the left: the expression that is read as the right
/// operand of a comparison, or with any floor as high, is a prefix
/// production alone.
pub proof fn lemma_right_operand_is_prefix(tokens: Seq<TokenView>, pos: int, floor: u8)
    requires
        floor >= 20,
    ensures
        spec_expr(tokens, pos, floor) is Ok ==> spec_expr(tokens, pos, floor) == spec_prefix(
            tokens,
            pos,
        ),
{
}

/// The operators `+`, `-`, `*`, `/` and `<>` have a precedence but no infix
/// production: an expression whose first operand is followed by one of them,
/// binding more tightly than the floor, is a failure that names the operator.
pub proof fn lemma_operator_without_production(tokens: Seq<TokenView>, pos: int, floor: u8)
    requires
        spec_prefix(tokens, pos) is Ok,
        token_at(tokens, pos + spec_prefix(tokens, pos)->Ok_0.1) matches Some(token)
            && operator_of(token) is None && floor < precedence_of(token),
    ensures
        spec_expr(tokens, pos, floor) == Err::<(ASTNodeView, nat), Seq<char>>(
            no_infix_parser(tokens[pos + spec_prefix(tokens, pos)->Ok_0.1]),
        ),
{
}

} // verus!
