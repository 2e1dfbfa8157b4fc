use jx2json::scanner::{scan_token, token_match, MatchResult};
use jx2json::token::Token;

fn compare_tokens(tokens: &Vec<Token>, expected: &Vec<Token>) -> bool {
    let matching = tokens
        .iter()
        .zip(expected)
        .filter(|&(token, expect)| {
            if token != expect {
                println!(
                    "token mismatched, got {}, expect {}",
                    token.describe(),
                    expect.describe()
                );
            };
            token == expect
        })
        .count();
    tokens.len() == matching
}

#[test]
fn match_intconst1() {
    let input = String::from("9");
    let token = match token_match(&input) {
        MatchResult::More(opt) => match opt {
            Some(token) => token,
            _ => panic!("Should match MORE(token)"),
        },
        _ => panic!("Should match MORE"),
    };
    match token {
        Token::INTCONST(val) => assert_eq!(val, 9),
        _ => panic!("Should match INTCONST"),
    }
}

#[test]
fn match_intconst2() {
    let input = String::from("12345abc");
    match token_match(&input) {
        MatchResult::No => return,
        _ => panic!("Should not match"),
    };
}

#[test]
fn match_intconst3() {
    let input = String::from("143241");
    let token = match token_match(&input) {
        MatchResult::More(opt) => match opt {
            Some(token) => token,
            _ => panic!("Should match MORE(token)"),
        },
        _ => panic!("Should match MORE"),
    };
    match token {
        Token::INTCONST(val) => assert_eq!(val, 143241),
        _ => panic!("Should match INTCONST"),
    }
}

#[test]
fn match_negative_intconst() {
    let input = String::from("-534");
    let token = match token_match(&input) {
        MatchResult::More(opt) => match opt {
            Some(token) => token,
            _ => panic!("Should match MORE(token)"),
        },
        _ => panic!("Should match MORE"),
    };
    match token {
        Token::INTCONST(val) => assert_eq!(val, -534),
        _ => panic!("Should match INTCONST"),
    }
}

#[test]
fn match_strconst_single_quotes() {
    let input = String::from("'foo bar'");
    let token = match token_match(&input) {
        MatchResult::Matched(token) => token,
        _ => panic!("Should Matched"),
    };
    match token {
        Token::STRCONST(val) => assert_eq!(val, "foo bar"),
        _ => panic!("Should match STRCONST"),
    }
}

#[test]
fn match_strconst_double_quotes() {
    let input = String::from("\"foo bar\"");
    let token = match token_match(&input) {
        MatchResult::Matched(token) => token,
        _ => panic!("Should Matched"),
    };
    match token {
        Token::STRCONST(val) => assert_eq!(val, "foo bar"),
        _ => panic!("Should match STRCONST"),
    }
}

#[test]
fn match_strconst_mixed_quotes1() {
    let input = String::from("'foo_bar\"");
    match token_match(&input) {
        MatchResult::More(opt) => match opt {
            None => return,
            _ => panic!("Should matched MORE(None)"),
        },
        _ => panic!("Should matched More"),
    };
}

#[test]
fn match_strconst_mixed_quotes2() {
    let input = String::from("\"foo_bar'");
    match token_match(&input) {
        MatchResult::More(opt) => match opt {
            None => return,
            _ => panic!("Should matched MORE(None)"),
        },
        _ => panic!("Should matched More"),
    };
}

#[test]
fn match_id1() {
    let input = String::from("a");
    let token = match token_match(&input) {
        MatchResult::More(opt) => match opt {
            Some(token) => token,
            _ => panic!("Should match MORE(token)"),
        },
        _ => panic!("Should match MORE"),
    };
    match token {
        Token::ID(val) => assert_eq!(val, "a"),
        _ => panic!("Should match ID"),
    }
}

#[test]
fn match_id2() {
    let input = String::from("foo_bar");
    let token = match token_match(&input) {
        MatchResult::More(opt) => match opt {
            Some(token) => token,
            _ => panic!("Should match MORE(token)"),
        },
        _ => panic!("Should match MORE"),
    };
    match token {
        Token::ID(val) => assert_eq!(val, "foo_bar"),
        _ => panic!("Should match ID"),
    }
}

#[test]
fn match_id3() {
    let input = String::from("FOO_BAR");
    let token = match token_match(&input) {
        MatchResult::More(opt) => match opt {
            Some(token) => token,
            _ => panic!("Should match MORE(token)"),
        },
        _ => panic!("Should match MORE"),
    };
    match token {
        Token::ID(val) => assert_eq!(val, "FOO_BAR"),
        _ => panic!("Should match ID"),
    }
}

#[test]
fn match_id_whitespace() {
    let input = String::from("foo bar");
    match token_match(&input) {
        MatchResult::No => return,
        _ => panic!("Should Not matched"),
    };
}

#[test]
fn match_bool_true() {
    let input = String::from("true");
    let token = match token_match(&input) {
        MatchResult::More(opt) => match opt {
            Some(token) => token,
            None => panic!("Should matched More(token)"),
        },
        _ => panic!("Should matched More"),
    };
    match token {
        Token::BOOLCONST(true) => return,
        Token::BOOLCONST(false) => panic!("Should match true"),
        _ => panic!("Should match BOOLCONST"),
    }
}

#[test]
fn match_bool_false() {
    let input = String::from("false");
    let token = match token_match(&input) {
        MatchResult::More(opt) => match opt {
            Some(token) => token,
            None => panic!("Should matched More(token)"),
        },
        _ => panic!("Should matched More"),
    };
    match token {
        Token::BOOLCONST(true) => panic!("should match false"),
        Token::BOOLCONST(false) => return,
        _ => panic!("Should match BOOLCONST"),
    }
}

#[test]
fn match_double_zero() {
    let input = String::from("0.0");
    let token = match token_match(&input) {
        MatchResult::More(opt) => match opt {
            Some(token) => token,
            None => panic!("Should matched More(token)"),
        },
        _ => panic!("Should matched More"),
    };
    match token {
        Token::DOUBLECONST(t) => assert_eq!(t, "0.0"),
        _ => panic!("Should match DOUBLECONST"),
    }
}

#[test]
fn match_double1() {
    let input = String::from("1.0");
    let token = match token_match(&input) {
        MatchResult::More(opt) => match opt {
            Some(token) => token,
            None => panic!("Should matched More(token)"),
        },
        _ => panic!("Should matched More"),
    };
    match token {
        Token::DOUBLECONST(t) => assert_eq!(t, "1.0"),
        _ => panic!("Should match DOUBLECONST"),
    }
}

#[test]
fn match_double2() {
    let input = String::from("2.14523124695");
    let token = match token_match(&input) {
        MatchResult::More(opt) => match opt {
            Some(token) => token,
            None => panic!("Should matched More(token)"),
        },
        _ => panic!("Should matched More"),
    };
    match token {
        Token::DOUBLECONST(t) => assert_eq!(t, "2.14523124695"),
        _ => panic!("Should match DOUBLECONST"),
    }
}

#[test]
fn match_double_end_with_dot() {
    let input = String::from("2.");
    match token_match(&input) {
        MatchResult::More(opt) => match opt {
            None => return,
            Some(_) => panic!("Should matched More(None)"),
        },
        _ => panic!("Should matched More"),
    };
}

#[test]
fn match_null() {
    let input = String::from("null");
    let token = match token_match(&input) {
        MatchResult::More(opt) => match opt {
            Some(token) => token,
            _ => panic!("Should matched More(token)"),
        },
        _ => panic!("Should matched More"),
    };
    match token {
        Token::NULL => return,
        _ => panic!("Should matched NULL"),
    }
}

#[test]
fn match_null_cap() {
    let input = String::from("NULL");
    let token = match token_match(&input) {
        MatchResult::More(opt) => match opt {
            Some(token) => token,
            _ => panic!("Should matched More(token)"),
        },
        _ => panic!("Should matched More"),
    };
    match token {
        Token::ID(name) => assert_eq!("NULL", name),
        _ => panic!("Should matched ID"),
    }
}

#[test]
fn scanner_scan_tokens1() {
    let input = String::from("{\"rules\": []}");
    let result = scan_token(input);
    let expected = vec![
        Token::LBRAC,
        Token::STRCONST(String::from("rules")),
        Token::COLON,
        Token::LSQBRAC,
        Token::RSQBRAC,
        Token::RBRAC,
    ];

    match result {
        Ok(tokens) => {
            let matching = tokens
                .iter()
                .zip(&expected)
                .filter(|&(token, expect)| token == expect)
                .count();
            assert_eq!(tokens.len(), matching);
        }
        Err(err) => {
            println!("Error: {}", err.message());
            panic!("Should not have error")
        }
    }
}

#[test]
fn test_scanner_scan_tokens1() {
    let input = String::from("{\"rules\": []}");
    let result = scan_token(input);
    let expected = vec![
        Token::LBRAC,
        Token::STRCONST(String::from("rules")),
        Token::COLON,
        Token::LSQBRAC,
        Token::RSQBRAC,
        Token::RBRAC,
    ];

    match result {
        Ok(tokens) => {
            assert_eq!(true, compare_tokens(&tokens, &expected));
        }
        Err(err) => {
            println!("Error: {}", err.message());
            panic!("Should not have error")
        }
    }
}

#[test]
fn scan_tokens2() {
    let raw = "{
    \"rules\": [
                {
                    \"command\" : \"/bin/echo 'foo bar' > out.txt\",
                    \"outputs\" : [ \"out.txt\" ],
                    \"inputs\"  : [ ]
                }
            ]
}";

    let input = String::from(raw);
    let result = scan_token(input);
    let expected = vec![
        Token::LBRAC,
        Token::STRCONST(String::from("rules")),
        Token::COLON,
        Token::LSQBRAC,
        Token::LBRAC,
        Token::STRCONST(String::from("command")),
        Token::COLON,
        Token::STRCONST(String::from("/bin/echo 'foo bar' > out.txt")),
        Token::COMMA,
        Token::STRCONST(String::from("outputs")),
        Token::COLON,
        Token::LSQBRAC,
        Token::STRCONST(String::from("out.txt")),
        Token::RSQBRAC,
        Token::COMMA,
        Token::STRCONST(String::from("inputs")),
        Token::COLON,
        Token::LSQBRAC,
        Token::RSQBRAC,
        Token::RBRAC,
        Token::RSQBRAC,
        Token::RBRAC,
    ];

    match result {
        Ok(tokens) => {
            assert_eq!(true, compare_tokens(&tokens, &expected));
        }
        Err(err) => {
            println!("Error: {}", err.message());
            panic!("Should not have error")
        }
    }
}

#[test]
fn scan_tokens3() {
    let raw = "{
    \"rules\": [
                {
                    \"command\" : \"/bin/echo 'foo bar' > out.txt\",
                    \"outputs\" : [ \"out\" + \".txt\" ],
                    \"inputs\"  : [ \"in\" + x1 + \".txt\" for x1 in [\"a\", \"b\", \"c\"] ]
                }
            ]
}";
    let input = String::from(raw);
    let result = scan_token(input);
    let expected = vec![
        Token::LBRAC,
        Token::STRCONST(String::from("rules")),
        Token::COLON,
        Token::LSQBRAC,
        Token::LBRAC,
        Token::STRCONST(String::from("command")),
        Token::COLON,
        Token::STRCONST(String::from("/bin/echo 'foo bar' > out.txt")),
        Token::COMMA,
        Token::STRCONST(String::from("outputs")),
        Token::COLON,
        Token::LSQBRAC,
        Token::STRCONST(String::from("out")),
        Token::ADD,
        Token::STRCONST(String::from(".txt")),
        Token::RSQBRAC,
        Token::COMMA,
        Token::STRCONST(String::from("inputs")),
        Token::COLON,
        Token::LSQBRAC,
        Token::STRCONST(String::from("in")),
        Token::ADD,
        Token::ID(String::from("x1")),
        Token::ADD,
        Token::STRCONST(String::from(".txt")),
        Token::FOR,
        Token::ID(String::from("x1")),
        Token::IN,
        Token::LSQBRAC,
        Token::STRCONST(String::from("a")),
        Token::COMMA,
        Token::STRCONST(String::from("b")),
        Token::COMMA,
        Token::STRCONST(String::from("c")),
        Token::RSQBRAC,
        Token::RSQBRAC,
        Token::RBRAC,
        Token::RSQBRAC,
        Token::RBRAC,
    ];

    match result {
        Ok(tokens) => {
            assert_eq!(true, compare_tokens(&tokens, &expected));
        }
        Err(err) => {
            println!("Error: {}", err.message());
            panic!("Should not have error")
        }
    }
}

#[test]
fn scan_negative_int_is_single_token() {
    let tokens = scan_token(String::from("-534")).unwrap();
    assert_eq!(tokens.len(), 1);
    match &tokens[0] {
        Token::INTCONST(val) => assert_eq!(*val, -534),
        _ => panic!("Should be a single INTCONST"),
    }
}

#[test]
fn scan_big_int_becomes_double() {
    let tokens = scan_token(String::from("2147483648")).unwrap();
    assert_eq!(tokens.len(), 1);
    match &tokens[0] {
        Token::DOUBLECONST(t) => assert_eq!(t, "2147483648"),
        _ => panic!("Should be a DOUBLECONST"),
    }
}

#[test]
fn scan_if_keyword() {
    let tokens = scan_token(String::from("if")).unwrap();
    assert_eq!(tokens.len(), 1);
    assert!(matches!(tokens[0], Token::IF));
}

#[test]
fn scan_relational_operators() {
    let tokens = scan_token(String::from("a <= b == c < d")).unwrap();
    let expected = vec![
        Token::ID(String::from("a")),
        Token::LE,
        Token::ID(String::from("b")),
        Token::EQ,
        Token::ID(String::from("c")),
        Token::LT,
        Token::ID(String::from("d")),
    ];
    assert_eq!(tokens.len(), expected.len());
    assert!(compare_tokens(&tokens, &expected));
}

#[test]
fn scan_empty_input_cannot_read() {
    let err = scan_token(String::from("")).unwrap_err();
    assert_eq!(err.message(), "can not read characters from input ");
}

#[test]
fn scan_whitespace_only_cannot_read() {
    let err = scan_token(String::from("   \n\t ")).unwrap_err();
    assert_eq!(err.message(), "can not read characters from input ");
}

#[test]
fn scan_unresolvable_lexeme_fails() {
    let err = scan_token(String::from("@")).unwrap_err();
    assert_eq!(err.message(), "unable to match \"\"");
}

#[test]
fn scan_trailing_dot_fails() {
    let err = scan_token(String::from("12.")).unwrap_err();
    assert_eq!(err.message(), "unable to match \"12.\"");
}

#[test]
fn scan_unterminated_string_fails() {
    let err = scan_token(String::from("'never closed")).unwrap_err();
    assert_eq!(err.message(), "unable to match \"'never closed\"");
}

#[test]
fn move_forward_skips_whitespace_between_tokens() {
    let mut src: Vec<char> = "ba  ".chars().collect();
    let mut matching: Vec<char> = Vec::new();
    assert!(jx2json::scanner::move_forward(&mut src, &mut matching));
    assert_eq!(matching, vec!['a']);
    assert_eq!(src, vec!['b']);
}

#[test]
fn move_forward_keeps_whitespace_inside_lexeme() {
    let mut src: Vec<char> = vec!['x', ' '];
    let mut matching: Vec<char> = vec!['\'', 'a'];
    assert!(jx2json::scanner::move_forward(&mut src, &mut matching));
    assert_eq!(matching, vec!['\'', 'a', ' ']);
    assert_eq!(src, vec!['x']);
}

#[test]
fn move_backward_returns_one_char() {
    let mut src: Vec<char> = vec!['x'];
    let mut matching: Vec<char> = vec!['a', 'b'];
    assert!(jx2json::scanner::move_backward(&mut src, &mut matching));
    assert_eq!(matching, vec!['a']);
    assert_eq!(src, vec!['x', 'b']);
    let mut empty: Vec<char> = Vec::new();
    assert!(!jx2json::scanner::move_backward(&mut src, &mut empty));
}
