use jx2json::ast::AstNode;
use jx2json::scanner::{scan_token, token_match, MatchResult};
use jx2json::symbol_tab::{Symbol, SymbolTable, ValueType};
use jx2json::text::int_to_string;
use jx2json::token::Token;

#[test]
fn token_to_str_literals() {
    assert_eq!("5", Token::INTCONST(5).to_str());
    assert_eq!("-534", Token::INTCONST(-534).to_str());
    assert_eq!("1.5", Token::DOUBLECONST(String::from("1.5")).to_str());
    assert_eq!("true", Token::BOOLCONST(true).to_str());
    assert_eq!("false", Token::BOOLCONST(false).to_str());
    assert_eq!("foo bar", Token::STRCONST(String::from("foo bar")).to_str());
    assert_eq!("null", Token::NULL.to_str());
    assert_eq!("x1", Token::ID(String::from("x1")).to_str());
}

#[test]
fn token_to_str_symbols() {
    assert_eq!("{", Token::LBRAC.to_str());
    assert_eq!("}", Token::RBRAC.to_str());
    assert_eq!("[", Token::LSQBRAC.to_str());
    assert_eq!("]", Token::RSQBRAC.to_str());
    assert_eq!("(", Token::LPAREN.to_str());
    assert_eq!(")", Token::RPAREN.to_str());
    assert_eq!(":", Token::COLON.to_str());
    assert_eq!(",", Token::COMMA.to_str());
    assert_eq!("+", Token::ADD.to_str());
    assert_eq!("-", Token::MINUS.to_str());
    assert_eq!("*", Token::MUL.to_str());
    assert_eq!("/", Token::DIV.to_str());
    assert_eq!("%", Token::MOD.to_str());
    assert_eq!("not", Token::NOT.to_str());
    assert_eq!("and", Token::AND.to_str());
    assert_eq!("or", Token::OR.to_str());
    assert_eq!("==", Token::EQ.to_str());
    assert_eq!("!=", Token::NE.to_str());
    assert_eq!("<", Token::LT.to_str());
    assert_eq!("<=", Token::LE.to_str());
    assert_eq!(">", Token::GT.to_str());
    assert_eq!(">=", Token::GE.to_str());
    assert_eq!("for", Token::FOR.to_str());
    assert_eq!("in", Token::IN.to_str());
    assert_eq!("if", Token::IF.to_str());
}

#[test]
fn token_describe() {
    assert_eq!("INTCONST(5)", Token::INTCONST(5).describe());
    assert_eq!("INTCONST(-12)", Token::INTCONST(-12).describe());
    assert_eq!(
        "DOUBLECONST(0.25)",
        Token::DOUBLECONST(String::from("0.25")).describe()
    );
    assert_eq!("BOOLCONST(true)", Token::BOOLCONST(true).describe());
    assert_eq!(
        "STRCONST(rules)",
        Token::STRCONST(String::from("rules")).describe()
    );
    assert_eq!("ID(x1)", Token::ID(String::from("x1")).describe());
    assert_eq!("LBRAC", Token::LBRAC.describe());
    assert_eq!("NULL", Token::NULL.describe());
}

/// Rendering a literal token's text and scanning it again gives back a
/// token of the same kind and value.
#[test]
fn literal_render_rescan_round_trip() {
    for token in [
        Token::INTCONST(9),
        Token::INTCONST(-534),
        Token::INTCONST(2147483647),
        Token::DOUBLECONST(String::from("0.0")),
        Token::DOUBLECONST(String::from("2.14523124695")),
        Token::BOOLCONST(true),
        Token::BOOLCONST(false),
    ] {
        let text = token.to_str();
        let rescanned = scan_token(text).unwrap();
        assert_eq!(1, rescanned.len());
        assert!(rescanned[0] == token);
    }
    // a string literal re-scans from its quoted source form
    let content = String::from("foo bar");
    let quoted = format!("\"{}\"", content);
    let rescanned = scan_token(quoted).unwrap();
    assert_eq!(1, rescanned.len());
    assert!(rescanned[0] == Token::STRCONST(content));
}

#[test]
fn ast_render_scalars() {
    assert_eq!("12", AstNode::INTVAL(12).to_str());
    assert_eq!("-12", AstNode::INTVAL(-12).to_str());
    assert_eq!("-2147483648", AstNode::INTVAL(i32::MIN).to_str());
    assert_eq!("1.5", AstNode::DOUBLEVAL(String::from("1.5")).to_str());
    assert_eq!("abc", AstNode::STRVAL(String::from("abc")).to_str());
    assert_eq!("true", AstNode::BOOLVAL(true).to_str());
    assert_eq!("null", AstNode::NULLVAL.to_str());
    assert_eq!("x1", AstNode::VAR(String::from("x1")).to_str());
}

#[test]
fn ast_render_containers() {
    let empty_obj = AstNode::OBJECT(Vec::new());
    assert_eq!("{  }", empty_obj.to_str());
    let empty_list = AstNode::LIST(Vec::new());
    assert_eq!("[  ]", empty_list.to_str());

    let obj = AstNode::OBJECT(vec![(
        String::from("a"),
        Box::new(AstNode::INTVAL(1)),
    )]);
    assert_eq!("{ \"a\" : 1 }", obj.to_str());

    let list = AstNode::LIST(vec![
        Box::new(AstNode::INTVAL(1)),
        Box::new(AstNode::INTVAL(2)),
        Box::new(AstNode::BOOLVAL(false)),
    ]);
    assert_eq!("[ 1 2 false ]", list.to_str());
}

#[test]
fn ast_render_operations() {
    let add = AstNode::ADD {
        left: Box::new(AstNode::STRVAL(String::from("out"))),
        right: Box::new(AstNode::STRVAL(String::from(".txt"))),
    };
    assert_eq!("out + .txt", add.to_str());
    let le = AstNode::LE {
        left: Box::new(AstNode::INTVAL(1)),
        right: Box::new(AstNode::INTVAL(2)),
    };
    assert_eq!("1 <= 2", le.to_str());
    let and = AstNode::AND {
        left: Box::new(AstNode::BOOLVAL(true)),
        right: Box::new(AstNode::BOOLVAL(false)),
    };
    assert_eq!("true && false", and.to_str());
}

#[test]
fn ast_render_comprehension_and_func() {
    let compre = AstNode::COMPRE {
        expr: Box::new(AstNode::STRVAL(String::from("x"))),
        var: String::from("v"),
        iter_expr: Box::new(AstNode::LIST(vec![Box::new(AstNode::INTVAL(1))])),
    };
    assert_eq!("[ x for v in [ 1 ] ]", compre.to_str());

    let func = AstNode::FUNC {
        name: String::from("f"),
        params: vec![
            Box::new(AstNode::INTVAL(1)),
            Box::new(AstNode::INTVAL(2)),
        ],
    };
    assert_eq!("f(1, 2)", func.to_str());
    let nullary = AstNode::FUNC {
        name: String::from("g"),
        params: Vec::new(),
    };
    assert_eq!("g()", nullary.to_str());
}

#[test]
fn int_to_string_extremes() {
    assert_eq!("0", int_to_string(0));
    assert_eq!("2147483647", int_to_string(i32::MAX));
    assert_eq!("-2147483648", int_to_string(i32::MIN));
}

#[test]
fn symbol_table_starts_empty() {
    let tab = SymbolTable::new();
    assert_eq!(0, tab.count());
    assert!(tab.find(&String::from("x")).is_none());
}

#[test]
fn symbol_table_insert_find_count() {
    let mut tab = SymbolTable::new();
    tab.insert(String::from("x"), Symbol::INT(4));
    tab.insert(String::from("y"), Symbol::BOOL(true));
    assert_eq!(2, tab.count());
    match tab.find(&String::from("x")) {
        Some(Symbol::INT(v)) => assert_eq!(4, *v),
        _ => panic!("x should be INT"),
    }
    // overwriting keeps the name unique
    tab.insert(String::from("x"), Symbol::INT(7));
    assert_eq!(2, tab.count());
    match tab.find(&String::from("x")) {
        Some(Symbol::INT(v)) => assert_eq!(7, *v),
        _ => panic!("x should be INT"),
    }
    assert!(tab.find(&String::from("z")).is_none());
}

#[test]
fn symbol_render() {
    assert_eq!("4", Symbol::INT(4).to_str());
    assert_eq!("0.5", Symbol::DOUBLE(String::from("0.5")).to_str());
    assert_eq!("true", Symbol::BOOL(true).to_str());
    assert_eq!(
        "[ 1true ]",
        Symbol::LIST(vec![Symbol::INT(1), Symbol::BOOL(true)]).to_str()
    );
    assert_eq!(
        "{ a : 1, }",
        Symbol::OBJECT(vec![(String::from("a"), Symbol::INT(1))]).to_str()
    );
    assert_eq!(
        "fn -> INT",
        Symbol::FUNC { return_type: ValueType::INT }.to_str()
    );
}

#[test]
fn value_type_render() {
    assert_eq!("LIST", ValueType::LIST.to_str());
    assert_eq!("OBJECT", ValueType::OBJECT.to_str());
    assert_eq!("INT", ValueType::INT.to_str());
    assert_eq!("DOUBLE", ValueType::DOUBLE.to_str());
    assert_eq!("BOOL", ValueType::BOOL.to_str());
    assert_eq!("NULL", ValueType::NULL.to_str());
}

#[test]
fn token_match_exponent_doubles() {
    match token_match("1e5") {
        MatchResult::More(Some(Token::DOUBLECONST(t))) => assert_eq!(t, "1e5"),
        _ => panic!("1e5 should be a double candidate"),
    }
    match token_match("2.5e-3") {
        MatchResult::More(Some(Token::DOUBLECONST(t))) => assert_eq!(t, "2.5e-3"),
        _ => panic!("2.5e-3 should be a double candidate"),
    }
    match token_match("7E+2") {
        MatchResult::More(Some(Token::DOUBLECONST(t))) => assert_eq!(t, "7E+2"),
        _ => panic!("7E+2 should be a double candidate"),
    }
    // incomplete exponents cannot be completed
    assert!(matches!(token_match("12e"), MatchResult::No));
    assert!(matches!(token_match("12e+"), MatchResult::No));
    assert!(matches!(token_match("1.5e"), MatchResult::No));
    assert!(matches!(token_match("-1e5"), MatchResult::More(Some(Token::DOUBLECONST(_)))));
}

#[test]
fn scan_skips_unicode_whitespace() {
    let tokens = scan_token(String::from("{\u{00A0}}")).unwrap();
    assert_eq!(2, tokens.len());
    assert!(matches!(tokens[0], Token::LBRAC));
    assert!(matches!(tokens[1], Token::RBRAC));
    let tokens = scan_token(String::from("1\u{2003}2")).unwrap();
    assert_eq!(2, tokens.len());
    assert!(matches!(tokens[0], Token::INTCONST(1)));
    assert!(matches!(tokens[1], Token::INTCONST(2)));
}

#[test]
fn token_match_full_input_classifications() {
    assert!(matches!(token_match("{"), MatchResult::Matched(Token::LBRAC)));
    assert!(matches!(token_match("<"), MatchResult::More(Some(Token::LT))));
    assert!(matches!(token_match("<="), MatchResult::Matched(Token::LE)));
    assert!(matches!(token_match("-"), MatchResult::More(Some(Token::MINUS))));
    assert!(matches!(token_match("=="), MatchResult::Matched(Token::EQ)));
    assert!(matches!(token_match("="), MatchResult::More(None)));
    assert!(matches!(token_match("@"), MatchResult::No));
    assert!(matches!(token_match("for"), MatchResult::More(Some(Token::FOR))));
    assert!(matches!(token_match("in"), MatchResult::More(Some(Token::IN))));
    assert!(matches!(token_match("if"), MatchResult::More(Some(Token::IF))));
}
