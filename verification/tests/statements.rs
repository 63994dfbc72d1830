use sqlparser::{
    ASTNode, Parser, ParserError, SQLColumnDef, SQLOperator, SQLType, Token, Tokenizer,
};

fn tokens_of(sql: &str) -> Vec<Token> {
    let mut tokenizer = Tokenizer::new(sql);
    tokenizer.tokenize().unwrap()
}

fn parse(sql: &str) -> Result<ASTNode, ParserError> {
    let tokens = tokens_of(sql);
    let mut parser = Parser::new(&tokens);
    parser.parse()
}

fn tree_of(sql: &str) -> ASTNode {
    parse(sql).unwrap()
}

fn message_of(sql: &str) -> String {
    let e = parse(sql).unwrap_err();
    assert!(matches!(e, ParserError::ParserError(_)));
    e.message()
}

fn id(name: &str) -> ASTNode {
    ASTNode::SQLIdentifier { id: String::from(name) }
}

fn literal(value: i64) -> ASTNode {
    ASTNode::SQLLiteralInt(value)
}

fn binary(left: ASTNode, op: SQLOperator, right: ASTNode) -> ASTNode {
    ASTNode::SQLBinaryExpr { left: Box::new(left), op: op, right: Box::new(right) }
}

fn call(name: &str, args: Vec<ASTNode>) -> ASTNode {
    ASTNode::SQLFunction { id: String::from(name), args: args }
}

fn select(
    projection: Vec<ASTNode>,
    relation: Option<ASTNode>,
    selection: Option<ASTNode>,
    limit: Option<ASTNode>,
) -> ASTNode {
    ASTNode::SQLSelect {
        projection: projection,
        relation: relation.map(Box::new),
        selection: selection.map(Box::new),
        limit: limit.map(Box::new),
        order: None,
    }
}

fn column(name: &str, data_type: SQLType) -> SQLColumnDef {
    SQLColumnDef { name: String::from(name), data_type: data_type, allow_null: true }
}

fn keyword(text: &str) -> Token {
    Token::Keyword(String::from(text))
}

fn identifier(text: &str) -> Token {
    Token::Identifier(String::from(text))
}

fn number(text: &str) -> Token {
    Token::Number(String::from(text))
}

#[test]
fn empty_query_is_a_parser_error() {
    let tokens = tokens_of("");
    assert!(tokens.is_empty());
    let mut parser = Parser::new(&tokens);
    let e = parser.parse().unwrap_err();
    assert!(matches!(e, ParserError::ParserError(_)));
    assert_eq!("Prefix parser expected a keyword but hit EOF", e.message());
    let e = Parser::parse_sql(String::new()).unwrap_err();
    assert!(matches!(e, ParserError::ParserError(_)));
    assert_eq!("Prefix parser expected a keyword but hit EOF", e.message());
}

#[test]
fn parse_sql_tokenizes_and_parses() {
    assert_eq!(
        select(vec![literal(1)], None, None, None),
        Parser::parse_sql(String::from("SELECT 1")).unwrap()
    );
    let e = Parser::parse_sql(String::from("SELECT ?")).unwrap_err();
    assert!(matches!(e, ParserError::TokenizerError(_)));
    assert_eq!("unhandled char '?' in tokenizer", e.message());
    let e = Parser::parse_sql(String::from("SELECT")).unwrap_err();
    assert!(matches!(e, ParserError::ParserError(_)));
    assert_eq!("Prefix parser expected a keyword but hit EOF", e.message());
}

#[test]
fn select_with_every_clause() {
    assert_eq!(
        select(
            vec![id("id"), id("fname"), id("lname")],
            Some(id("customer")),
            Some(binary(id("id"), SQLOperator::EQ, literal(1))),
            Some(literal(5)),
        ),
        tree_of("SELECT id, fname, lname FROM customer WHERE id = 1 LIMIT 5")
    );
}

#[test]
fn select_clauses_are_optional() {
    assert_eq!(select(vec![id("a")], None, None, None), tree_of("SELECT a"));
    assert_eq!(select(vec![id("a")], Some(id("t")), None, None), tree_of("SELECT a FROM t"));
    assert_eq!(
        select(vec![id("a")], None, Some(binary(id("a"), SQLOperator::GT, literal(0))), None),
        tree_of("SELECT a WHERE a > 0")
    );
    assert_eq!(select(vec![id("a")], None, None, Some(literal(0))), tree_of("SELECT a LIMIT 0"));
    assert_eq!(select(vec![id("a")], None, None, None), tree_of("SELECT a LIMIT ALL"));
    assert_eq!(
        select(vec![id("a")], Some(id("t")), None, Some(literal(10))),
        tree_of("SELECT a FROM t LIMIT 10")
    );
}

#[test]
fn select_clauses_come_in_order() {
    assert_eq!(
        "Unexpected token at end of SELECT: FROM",
        message_of("SELECT a WHERE b = 1 FROM t")
    );
    assert_eq!("Unexpected token at end of SELECT: WHERE", message_of("SELECT a LIMIT 1 WHERE b"));
    assert_eq!("Unexpected token at end of SELECT: ORDER", message_of("SELECT a FROM t ORDER BY a"));
}

#[test]
fn tokens_after_select_are_an_error() {
    assert_eq!("Unexpected token at end of SELECT: c", message_of("SELECT a FROM b c"));
    assert_eq!("Unexpected token at end of SELECT: )", message_of("SELECT a )"));
    assert_eq!("Unexpected token at end of SELECT: 2", message_of("SELECT a LIMIT 1 2"));
    assert_eq!("Unexpected token at end of SELECT: 5", message_of("SELECT a LIMIT ALL 5"));
}

#[test]
fn select_needs_a_projection() {
    assert_eq!("Prefix parser expected a keyword but hit EOF", message_of("SELECT"));
    assert_eq!("No prefix parser for keyword FROM", message_of("SELECT FROM t"));
    assert_eq!("Prefix parser expected a keyword but hit EOF", message_of("SELECT a,"));
    assert_eq!("Prefix parser expected a keyword but found ,", message_of("SELECT a,,b"));
    assert_eq!("Prefix parser expected a keyword but found *", message_of("SELECT * FROM t"));
}

#[test]
fn limit_takes_all_or_an_integer() {
    assert_eq!("Expected literal int", message_of("SELECT a LIMIT"));
    assert_eq!("Expected literal int", message_of("SELECT a LIMIT b"));
    assert_eq!(
        "Could not parse '99999999999999999999' as i64",
        message_of("SELECT a LIMIT 99999999999999999999")
    );
    assert_eq!(
        select(vec![id("a")], None, None, Some(literal(i64::MAX))),
        tree_of("SELECT a LIMIT 9223372036854775807")
    );
}

#[test]
fn select_in_a_clause() {
    assert_eq!(
        select(vec![id("a")], Some(select(vec![id("b")], Some(id("t")), None, None)), None, None),
        tree_of("SELECT a FROM SELECT b FROM t")
    );
}

#[test]
fn function_calls() {
    assert_eq!(call("sqrt", vec![literal(1)]), tree_of("sqrt(1)"));
    assert_eq!(
        call("f", vec![id("a"), call("g", vec![literal(1), id("b")]), binary(id("c"), SQLOperator::LTEQ, literal(2))]),
        tree_of("f(a, g(1, b), c <= 2)")
    );
    assert_eq!(
        select(vec![call("sqrt", vec![id("id")])], Some(id("foo")), None, None),
        tree_of("SELECT sqrt(id) FROM foo")
    );
    assert_eq!(
        binary(call("f", vec![id("x")]), SQLOperator::EQ, call("g", vec![id("y")])),
        tree_of("f(x) = g(y)")
    );
}

#[test]
fn unterminated_function_call_is_an_error() {
    assert_eq!("expected token ) but was EOF", message_of("sqrt(1"));
    assert_eq!("expected token ) but was EOF", message_of("SELECT sqrt(id"));
    assert_eq!("expected token ) but was FROM", message_of("SELECT sqrt(id FROM foo"));
    assert_eq!("expected token ) but was b", message_of("f(a b)"));
    assert_eq!("Prefix parser expected a keyword but hit EOF", message_of("sqrt("));
    assert_eq!("Prefix parser expected a keyword but hit EOF", message_of("f(a,"));
    assert_eq!("Prefix parser expected a keyword but found )", message_of("f()"));
    assert_eq!("expected token ) but was EOF", message_of("f(g(1)"));
}

#[test]
fn create_external_table_columns() {
    assert_eq!(
        ASTNode::SQLCreateTable {
            name: String::from("uk_cities"),
            columns: vec![
                column("name", SQLType::Varchar(100)),
                column("lat", SQLType::Double),
                column("lng", SQLType::Double),
            ],
        },
        tree_of(
            "CREATE EXTERNAL TABLE uk_cities (name VARCHAR(100) NOT NULL, lat DOUBLE NULL, lng DOUBLE)"
        )
    );
    assert_eq!(
        ASTNode::SQLCreateTable {
            name: String::from("t"),
            columns: vec![column("a", SQLType::Varchar(0))],
        },
        tree_of("CREATE EXTERNAL TABLE t (a VARCHAR(0))")
    );
}

#[test]
fn unterminated_column_list_is_an_error() {
    assert_eq!(
        "Expected ',' or ')' after column definition",
        message_of("CREATE EXTERNAL TABLE t (a DOUBLE")
    );
    assert_eq!(
        "Expected ',' or ')' after column definition",
        message_of("CREATE EXTERNAL TABLE t (a DOUBLE NOT NULL")
    );
    assert_eq!("Error parsing column name", message_of("CREATE EXTERNAL TABLE t (a DOUBLE,"));
    assert_eq!("Error parsing column name", message_of("CREATE EXTERNAL TABLE t ("));
    assert_eq!(
        "Error parsing data type in column definition",
        message_of("CREATE EXTERNAL TABLE t (a")
    );
    assert_eq!(
        "Error parsing data type in column definition",
        message_of("CREATE EXTERNAL TABLE t (a VARCHAR(10")
    );
}

#[test]
fn malformed_table_definitions() {
    assert_eq!("Unexpected token after CREATE: EOF", message_of("CREATE"));
    assert_eq!("Unexpected token after CREATE: TABLE", message_of("CREATE TABLE t (a DOUBLE)"));
    assert_eq!(
        "Unexpected token after CREATE: EXTERNAL",
        message_of("CREATE EXTERNAL t (a DOUBLE)")
    );
    assert_eq!(
        "Unexpected token after CREATE EXTERNAL TABLE: (",
        message_of("CREATE EXTERNAL TABLE (a DOUBLE)")
    );
    assert_eq!(
        "Unexpected token after CREATE EXTERNAL TABLE: EOF",
        message_of("CREATE EXTERNAL TABLE")
    );
    assert_eq!("expected token ( but was a", message_of("CREATE EXTERNAL TABLE t a DOUBLE"));
    assert_eq!("expected token ( but was EOF", message_of("CREATE EXTERNAL TABLE t"));
    assert_eq!("Error parsing column name", message_of("CREATE EXTERNAL TABLE t ()"));
    assert_eq!("Error parsing column name", message_of("CREATE EXTERNAL TABLE t (1 DOUBLE)"));
    assert_eq!(
        "Error parsing data type in column definition",
        message_of("CREATE EXTERNAL TABLE t (a INT)")
    );
    assert_eq!(
        "Error parsing data type in column definition",
        message_of("CREATE EXTERNAL TABLE t (a SELECT)")
    );
    assert_eq!(
        "Error parsing data type in column definition",
        message_of("CREATE EXTERNAL TABLE t (a VARCHAR)")
    );
    assert_eq!(
        "Error parsing data type in column definition",
        message_of("CREATE EXTERNAL TABLE t (a VARCHAR(x))")
    );
    assert_eq!(
        "Expected ',' or ')' after column definition",
        message_of("CREATE EXTERNAL TABLE t (a DOUBLE NOT)")
    );
    assert_eq!(
        "Expected ',' or ')' after column definition",
        message_of("CREATE EXTERNAL TABLE t (a DOUBLE b DOUBLE)")
    );
    assert_eq!(
        "Expected ',' or ')' after column definition",
        message_of("CREATE EXTERNAL TABLE t (a DOUBLE NULL NULL)")
    );
}

#[test]
fn tokens_after_a_table_definition_are_left() {
    let tokens = tokens_of("CREATE EXTERNAL TABLE t (a DOUBLE) x y");
    let mut parser = Parser::new(&tokens);
    let tree = parser.parse().unwrap();
    assert_eq!(
        ASTNode::SQLCreateTable { name: String::from("t"), columns: vec![column("a", SQLType::Double)] },
        tree
    );
    assert_eq!(Some(&identifier("x")), parser.peek_token());
    assert_eq!(Some(&Token::RParen), parser.prev_token());
}

#[test]
fn comparisons_group_to_the_left() {
    assert_eq!(
        binary(binary(id("a"), SQLOperator::EQ, id("b")), SQLOperator::EQ, id("c")),
        tree_of("a = b = c")
    );
    assert_eq!(
        binary(
            binary(binary(id("a"), SQLOperator::LT, literal(1)), SQLOperator::GTEQ, id("b")),
            SQLOperator::LTEQ,
            literal(2)
        ),
        tree_of("a < 1 >= b <= 2")
    );
}

#[test]
fn every_comparison_has_its_operator() {
    assert_eq!(binary(id("a"), SQLOperator::EQ, id("b")), tree_of("a = b"));
    assert_eq!(binary(id("a"), SQLOperator::LT, id("b")), tree_of("a < b"));
    assert_eq!(binary(id("a"), SQLOperator::LTEQ, id("b")), tree_of("a <= b"));
    assert_eq!(binary(id("a"), SQLOperator::GT, id("b")), tree_of("a > b"));
    assert_eq!(binary(id("a"), SQLOperator::GTEQ, id("b")), tree_of("a >= b"));
}

#[test]
fn arithmetic_and_not_equal_do_not_parse() {
    assert_eq!("No infix parser for token +", message_of("1 + 2"));
    assert_eq!("No infix parser for token -", message_of("a - b"));
    assert_eq!("No infix parser for token *", message_of("a * b"));
    assert_eq!("No infix parser for token /", message_of("a / b"));
    assert_eq!("No infix parser for token <>", message_of("a <> b"));
    assert_eq!("No infix parser for token +", message_of("a = b + c"));
    assert_eq!("No infix parser for token <>", message_of("a = b <> c"));
    assert_eq!("No infix parser for token *", message_of("SELECT a * 2 FROM t"));
}

#[test]
fn comparison_needs_a_right_operand() {
    assert_eq!("Prefix parser expected a keyword but hit EOF", message_of("a ="));
    assert_eq!("Prefix parser expected a keyword but found =", message_of("a = = b"));
    assert_eq!("Prefix parser expected a keyword but found <", message_of("< a"));
}

#[test]
fn prefix_productions() {
    assert_eq!(id("a"), tree_of("a"));
    assert_eq!(literal(42), tree_of("42"));
    assert_eq!(literal(7), tree_of("007"));
    assert_eq!(id("select"), tree_of("select 1"));
    assert_eq!("No prefix parser for keyword FROM", message_of("FROM"));
    assert_eq!("No prefix parser for keyword DOUBLE", message_of("DOUBLE"));
    assert_eq!("Prefix parser expected a keyword but found )", message_of(")"));
    assert_eq!("Prefix parser expected a keyword but found -", message_of("-5"));
    assert_eq!(
        "Could not parse '9223372036854775808' as i64",
        message_of("9223372036854775808")
    );
}

#[test]
fn tokens_after_an_expression_are_left() {
    let tokens = tokens_of("a b");
    let mut parser = Parser::new(&tokens);
    assert_eq!(id("a"), parser.parse().unwrap());
    assert_eq!(Some(&identifier("b")), parser.peek_token());
    assert_eq!(id("b"), parser.parse().unwrap());
    assert_eq!(None, parser.peek_token());
    assert_eq!(
        "Prefix parser expected a keyword but hit EOF",
        parser.parse().unwrap_err().message()
    );
}

#[test]
fn keywords_match_without_case() {
    let tokens = vec![
        keyword("select"),
        identifier("a"),
        keyword("From"),
        identifier("t"),
        keyword("where"),
        identifier("a"),
        Token::Eq,
        number("1"),
        keyword("limit"),
        keyword("all"),
    ];
    let mut parser = Parser::new(&tokens);
    assert_eq!(
        select(vec![id("a")], Some(id("t")), Some(binary(id("a"), SQLOperator::EQ, literal(1))), None),
        parser.parse().unwrap()
    );
    let tokens = vec![
        keyword("create"),
        keyword("External"),
        keyword("table"),
        identifier("t"),
        Token::LParen,
        identifier("a"),
        keyword("varchar"),
        Token::LParen,
        number("3"),
        Token::RParen,
        keyword("not"),
        keyword("null"),
        Token::RParen,
    ];
    let mut parser = Parser::new(&tokens);
    assert_eq!(
        ASTNode::SQLCreateTable {
            name: String::from("t"),
            columns: vec![column("a", SQLType::Varchar(3))],
        },
        parser.parse().unwrap()
    );
}

#[test]
fn number_tokens_made_by_hand() {
    let tokens = vec![number("+7")];
    assert_eq!(literal(7), Parser::new(&tokens).parse().unwrap());
    let tokens = vec![number("-7")];
    assert_eq!(literal(-7), Parser::new(&tokens).parse().unwrap());
    let tokens = vec![number("")];
    assert_eq!("Could not parse '' as i64", Parser::new(&tokens).parse().unwrap_err().message());
    let tokens = vec![number("seven")];
    assert_eq!(
        "Could not parse 'seven' as i64",
        Parser::new(&tokens).parse().unwrap_err().message()
    );
    let tokens = vec![Token::Whitespace];
    assert_eq!(
        "Prefix parser expected a keyword but found  ",
        Parser::new(&tokens).parse().unwrap_err().message()
    );
}

#[test]
fn data_types() {
    let tokens = tokens_of("DOUBLE VARCHAR(10) VARCHAR 5");
    let mut parser = Parser::new(&tokens);
    assert_eq!(SQLType::Double, parser.parse_data_type().unwrap());
    assert_eq!(SQLType::Varchar(10), parser.parse_data_type().unwrap());
    assert_eq!("expected token ( but was 5", parser.parse_data_type().unwrap_err().message());
    assert_eq!(Some(&number("5")), parser.peek_token());
    assert_eq!("Invalid data type", parser.parse_data_type().unwrap_err().message());
    let tokens = tokens_of("TABLE");
    assert_eq!(
        "Invalid data type",
        Parser::new(&tokens).parse_data_type().unwrap_err().message()
    );
    let tokens = tokens_of("x");
    assert_eq!(
        "Invalid data type",
        Parser::new(&tokens).parse_data_type().unwrap_err().message()
    );
    let tokens = tokens_of("VARCHAR(10");
    assert_eq!(
        "expected token ) but was EOF",
        Parser::new(&tokens).parse_data_type().unwrap_err().message()
    );
    let tokens = tokens_of("VARCHAR()");
    assert_eq!(
        "Expected literal int",
        Parser::new(&tokens).parse_data_type().unwrap_err().message()
    );
    let tokens = vec![keyword("VARCHAR"), Token::LParen, number("-1"), Token::RParen];
    assert_eq!(
        "Invalid length for VARCHAR",
        Parser::new(&tokens).parse_data_type().unwrap_err().message()
    );
}

#[test]
fn cursor_movement() {
    let tokens = tokens_of("a , b");
    let mut parser = Parser::new(&tokens);
    assert_eq!(None, parser.prev_token());
    assert_eq!(Some(&identifier("a")), parser.peek_token());
    assert_eq!(Some(&identifier("a")), parser.peek_token());
    assert_eq!(Some(&identifier("a")), parser.next_token());
    assert_eq!(Some(&identifier("a")), parser.prev_token());
    assert_eq!(Some(&Token::Comma), parser.next_token());
    assert_eq!(Some(&identifier("b")), parser.next_token());
    assert_eq!(None, parser.peek_token());
    assert_eq!(None, parser.next_token());
    assert_eq!(None, parser.next_token());
    assert_eq!(Some(&identifier("b")), parser.prev_token());
}

#[test]
fn keyword_matching() {
    let tokens = tokens_of("NOT NULL x NOT y");
    let mut parser = Parser::new(&tokens);
    assert!(!parser.parse_keyword("NULL"));
    assert_eq!(Some(&keyword("NOT")), parser.peek_token());
    assert!(parser.parse_keyword("not"));
    assert!(parser.parse_keyword("NULL"));
    assert!(!parser.parse_keyword("x"));
    assert_eq!(Some(&identifier("x")), parser.next_token());
    assert!(!parser.parse_keywords(vec!["NOT", "NULL"]));
    assert_eq!(Some(&keyword("NOT")), parser.peek_token());
    assert!(parser.parse_keywords(vec![]));
    assert_eq!(Some(&keyword("NOT")), parser.peek_token());
    assert!(parser.parse_keywords(vec!["NOT"]));
    assert_eq!(Some(&identifier("y")), parser.next_token());
    assert!(!parser.parse_keyword("NOT"));
    assert!(!parser.parse_keywords(vec!["NOT", "NULL"]));

    let tokens = tokens_of("EXTERNAL TABLE t");
    let mut parser = Parser::new(&tokens);
    assert!(!parser.parse_keywords(vec!["EXTERNAL", "TABLE", "DOUBLE"]));
    assert_eq!(Some(&keyword("EXTERNAL")), parser.peek_token());
    assert!(parser.parse_keywords(vec!["EXTERNAL", "TABLE"]));
    assert_eq!(Some(&identifier("t")), parser.peek_token());
}

#[test]
fn consuming_an_expected_token() {
    let tokens = tokens_of("( a )");
    let mut parser = Parser::new(&tokens);
    assert!(parser.consume_token(&Token::LParen).is_ok());
    let e = parser.consume_token(&Token::RParen).unwrap_err();
    assert!(matches!(e, ParserError::ParserError(_)));
    assert_eq!("expected token ) but was a", e.message());
    assert_eq!(Some(&identifier("a")), parser.peek_token());
    assert!(parser.consume_token(&identifier("a")).is_ok());
    assert!(parser.consume_token(&Token::RParen).is_ok());
    assert_eq!(
        "expected token , but was EOF",
        parser.consume_token(&Token::Comma).unwrap_err().message()
    );
    let tokens = tokens_of("a");
    let mut parser = Parser::new(&tokens);
    assert_eq!(
        "expected token b but was a",
        parser.consume_token(&identifier("b")).unwrap_err().message()
    );
    let mut parser = Parser::new(&tokens);
    assert!(parser.consume_token(&identifier("a")).is_ok());
}

#[test]
fn literal_integers() {
    let tokens = tokens_of("12 x 99999999999999999999");
    let mut parser = Parser::new(&tokens);
    assert_eq!(12, parser.parse_literal_int().unwrap());
    assert_eq!("Expected literal int", parser.parse_literal_int().unwrap_err().message());
    assert_eq!(
        "Could not parse '99999999999999999999' as i64",
        parser.parse_literal_int().unwrap_err().message()
    );
    assert_eq!("Expected literal int", parser.parse_literal_int().unwrap_err().message());
}

#[test]
fn precedences() {
    let tokens: Vec<Token> = Vec::new();
    let parser = Parser::new(&tokens);
    for token in [Token::Eq, Token::Lt, Token::LtEq, Token::Neq, Token::Gt, Token::GtEq] {
        assert_eq!(20, parser.get_precedence(&token));
    }
    for token in [Token::Plus, Token::Minus] {
        assert_eq!(30, parser.get_precedence(&token));
    }
    for token in [Token::Mult, Token::Div] {
        assert_eq!(40, parser.get_precedence(&token));
    }
    for token in [
        Token::Comma,
        Token::LParen,
        Token::RParen,
        Token::Whitespace,
        identifier("a"),
        keyword("SELECT"),
        number("1"),
    ] {
        assert_eq!(0, parser.get_precedence(&token));
    }
    assert_eq!(0, parser.get_next_precedence());
    let tokens = tokens_of("* a");
    let mut parser = Parser::new(&tokens);
    assert_eq!(40, parser.get_next_precedence());
    parser.next_token();
    assert_eq!(0, parser.get_next_precedence());
}

#[test]
fn operators_of_tokens() {
    let tokens: Vec<Token> = Vec::new();
    let parser = Parser::new(&tokens);
    assert_eq!(SQLOperator::EQ, parser.to_sql_operator(&Token::Eq).unwrap());
    assert_eq!(SQLOperator::LT, parser.to_sql_operator(&Token::Lt).unwrap());
    assert_eq!(SQLOperator::LTEQ, parser.to_sql_operator(&Token::LtEq).unwrap());
    assert_eq!(SQLOperator::GT, parser.to_sql_operator(&Token::Gt).unwrap());
    assert_eq!(SQLOperator::GTEQ, parser.to_sql_operator(&Token::GtEq).unwrap());
    assert_eq!(
        "Unsupported operator <>",
        parser.to_sql_operator(&Token::Neq).unwrap_err().message()
    );
    assert_eq!("Unsupported operator +", parser.to_sql_operator(&Token::Plus).unwrap_err().message());
    assert_eq!(
        "Unsupported operator x",
        parser.to_sql_operator(&identifier("x")).unwrap_err().message()
    );
}

#[test]
fn infix_production() {
    let tokens = tokens_of("= b");
    let mut parser = Parser::new(&tokens);
    assert_eq!(
        Some(binary(id("a"), SQLOperator::EQ, id("b"))),
        parser.parse_infix(id("a"), 20).unwrap()
    );
    assert_eq!(None, parser.parse_infix(id("a"), 20).unwrap());
    let tokens = tokens_of("b");
    let mut parser = Parser::new(&tokens);
    assert_eq!(
        "No infix parser for token b",
        parser.parse_infix(id("a"), 0).unwrap_err().message()
    );
}

#[test]
fn lists_of_expressions() {
    let tokens = tokens_of("a, 1, f(b) c");
    let mut parser = Parser::new(&tokens);
    assert_eq!(vec![id("a"), literal(1), call("f", vec![id("b")])], parser.parse_expr_list().unwrap());
    assert_eq!(Some(&identifier("c")), parser.peek_token());
    assert_eq!((id("c"), false), parser.parse_list_item().unwrap());
    let tokens = tokens_of("a, b");
    let mut parser = Parser::new(&tokens);
    assert_eq!((id("a"), true), parser.parse_list_item().unwrap());
    assert_eq!(Some(&identifier("b")), parser.peek_token());
}

#[test]
fn syntax_tree_clone_is_equal() {
    for query in [
        "SELECT id, f(a, 1) FROM customer WHERE id = 1 LIMIT 5",
        "SELECT a FROM SELECT b WHERE c < d",
        "CREATE EXTERNAL TABLE t (a VARCHAR(10), b DOUBLE NOT NULL)",
        "a = b >= 3",
        "x",
    ] {
        let tree = tree_of(query);
        assert_eq!(tree, tree.clone());
    }
    let ordered = ASTNode::SQLSelect {
        projection: vec![id("a")],
        relation: None,
        selection: None,
        limit: None,
        order: Some(vec![id("a"), id("b")]),
    };
    assert_eq!(ordered, ordered.clone());
    assert_ne!(ordered, tree_of("SELECT a"));
}

#[test]
fn column_definitions() {
    let tokens = tokens_of("a DOUBLE NOT NULL, b VARCHAR(7) NULL, c DOUBLE) x");
    let mut parser = Parser::new(&tokens);
    assert_eq!(column("a", SQLType::Double), parser.parse_column().unwrap());
    assert_eq!(Some(&Token::Comma), parser.next_token());
    assert_eq!(
        vec![column("b", SQLType::Varchar(7)), column("c", SQLType::Double)],
        parser.parse_columns().unwrap()
    );
    assert_eq!(Some(&identifier("x")), parser.peek_token());
    assert_eq!(
        "Error parsing data type in column definition",
        parser.parse_column().unwrap_err().message()
    );
    let tokens = tokens_of("a DOUBLE NOT b");
    let mut parser = Parser::new(&tokens);
    assert_eq!(column("a", SQLType::Double), parser.parse_column().unwrap());
    assert_eq!(Some(&keyword("NOT")), parser.peek_token());
    let tokens = tokens_of(")");
    assert_eq!(
        "Error parsing column name",
        Parser::new(&tokens).parse_columns().unwrap_err().message()
    );
}

#[test]
fn optional_clauses() {
    let tokens = tokens_of("FROM t WHERE");
    let mut parser = Parser::new(&tokens);
    assert_eq!(None, parser.parse_clause("WHERE").unwrap());
    assert_eq!(Some(Box::new(id("t"))), parser.parse_clause("from").unwrap());
    assert_eq!(
        "Prefix parser expected a keyword but hit EOF",
        parser.parse_clause("WHERE").unwrap_err().message()
    );
    let tokens = tokens_of("ALL 3 x");
    let mut parser = Parser::new(&tokens);
    assert_eq!(None, parser.parse_limit().unwrap());
    assert_eq!(Some(Box::new(literal(3))), parser.parse_limit().unwrap());
    assert_eq!("Expected literal int", parser.parse_limit().unwrap_err().message());
}
