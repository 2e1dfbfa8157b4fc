use jx2json::ast::AstNode;
use jx2json::parser::parse_tokens;
use jx2json::scanner::scan_token;
use jx2json::token::Token;

/// Checks that the root holds exactly the one key `"rules"` mapped to a
/// one-element list, and returns that element.
fn check_if_1_rule_wf(root: &AstNode) -> &AstNode {
    let keyval_pairs = match root {
        AstNode::OBJECT(keyval_list) => keyval_list,
        _ => panic!("{} should be OBJECT", root.to_str()),
    };
    assert_eq!(1, keyval_pairs.len());
    assert_eq!("rules", &keyval_pairs[0].0);
    let rules = &keyval_pairs[0].1;
    let rule = match rules.as_ref() {
        AstNode::LIST(list) => {
            assert_eq!(1, list.len());
            list.first().unwrap()
        }
        _ => panic!("{} should be LIST", rules.to_str()),
    };
    rule
}

#[test]
fn parse_empty_workflow1() {
    let input = vec![Token::LBRAC, Token::RBRAC];
    let result = match parse_tokens(input) {
        Ok(result) => result,
        Err(err) => panic!("{}", err.message()),
    };
    if let AstNode::OBJECT(keyval_list) = result.root.as_ref() {
        assert!(keyval_list.is_empty());
    } else {
        panic!("{} should be OBJECT", result.root.to_str());
    }
    assert!(result.tab.count() == 0);
}

#[test]
fn parse_empty_workflow2() {
    let input = vec![
        Token::LBRAC,
        Token::STRCONST(String::from("rules")),
        Token::COLON,
        Token::LSQBRAC,
        Token::RSQBRAC,
        Token::RBRAC,
    ];
    let result = match parse_tokens(input) {
        Ok(result) => result,
        Err(err) => panic!("{}", err.message()),
    };
    if let AstNode::OBJECT(keyval_pairs) = result.root.as_ref() {
        assert_eq!(1, keyval_pairs.len());
        for (key, val) in keyval_pairs {
            assert_eq!("rules", key);
            match val.as_ref() {
                // empty list
                AstNode::LIST(list) => assert!(list.is_empty()),
                _ => panic!("{} should be LIST", val.to_str()),
            };
        }
    } else {
        panic!("{} should be OBJECT", result.root.to_str());
    }
    assert_eq!(0, result.tab.count());
}

#[test]
fn parse_workflow1() {
    let input = vec![
        Token::LBRAC,
        Token::STRCONST(String::from("rules")),
        Token::COLON,
        Token::LSQBRAC,
        Token::LBRAC,
        Token::STRCONST(String::from("command")),
        Token::COLON,
        Token::STRCONST(String::from("/bin/echo 'foo bar' > out.txt")),
        Token::COMMA,
        Token::STRCONST(String::from("outputs")),
        Token::COLON,
        Token::LSQBRAC,
        Token::STRCONST(String::from("out.txt")),
        Token::RSQBRAC,
        Token::COMMA,
        Token::STRCONST(String::from("inputs")),
        Token::COLON,
        Token::LSQBRAC,
        Token::RSQBRAC,
        Token::RBRAC,
        Token::RSQBRAC,
        Token::RBRAC,
    ];
    let result = match parse_tokens(input) {
        Ok(result) => result,
        Err(err) => panic!("{}", err.message()),
    };
    let rule = check_if_1_rule_wf(&result.root);

    // rule has 3 keys (command, outputs, inputs)
    let keyval_pairs = match rule {
        AstNode::OBJECT(keyval_pairs) => {
            assert_eq!(3, keyval_pairs.len());
            keyval_pairs
        }
        _ => panic!("{} should be OBJECT", rule.to_str()),
    };
    for (key, val) in keyval_pairs {
        match key.as_str() {
            // command should be a string
            "command" => match val.as_ref() {
                AstNode::STRVAL(cmd) => assert_eq!("/bin/echo 'foo bar' > out.txt", cmd),
                _ => panic!("{} should be STRVAL", val.to_str()),
            },
            // outputs should be list contains 1 string
            "outputs" => match val.as_ref() {
                AstNode::LIST(outputs) => {
                    assert_eq!(1, outputs.len());
                    let elem = outputs.first().unwrap();
                    match elem.as_ref() {
                        AstNode::STRVAL(val) => assert_eq!("out.txt", val),
                        _ => panic!("{} should be STRVAL", elem.to_str()),
                    }
                }
                _ => panic!("{} should be STRVAL", val.to_str()),
            },
            // inputs should be empty list
            "inputs" => match val.as_ref() {
                AstNode::LIST(inputs) => assert!(inputs.is_empty()),
                _ => panic!("{} should be STRVAL", val.to_str()),
            },
            _ => (),
        };
    }

    assert!(result.tab.count() == 0);
}

#[test]
fn parse_end_to_end_rules() {
    let raw = "{\"rules\": [{\"command\": \"/bin/echo 'foo bar' > out.txt\", \"outputs\": [\"out.txt\"], \"inputs\": []}]}";
    let tokens = scan_token(String::from(raw)).unwrap();
    let result = parse_tokens(tokens).unwrap();
    let rule = check_if_1_rule_wf(&result.root);
    let keyval_pairs = match rule {
        AstNode::OBJECT(keyval_pairs) => keyval_pairs,
        _ => panic!("{} should be OBJECT", rule.to_str()),
    };
    assert_eq!(3, keyval_pairs.len());
    assert_eq!("command", &keyval_pairs[0].0);
    match keyval_pairs[0].1.as_ref() {
        AstNode::STRVAL(cmd) => assert_eq!("/bin/echo 'foo bar' > out.txt", cmd),
        _ => panic!("command should be STRVAL"),
    }
    assert_eq!("outputs", &keyval_pairs[1].0);
    match keyval_pairs[1].1.as_ref() {
        AstNode::LIST(outputs) => {
            assert_eq!(1, outputs.len());
            match outputs[0].as_ref() {
                AstNode::STRVAL(val) => assert_eq!("out.txt", val),
                _ => panic!("outputs[0] should be STRVAL"),
            }
        }
        _ => panic!("outputs should be LIST"),
    }
    assert_eq!("inputs", &keyval_pairs[2].0);
    match keyval_pairs[2].1.as_ref() {
        AstNode::LIST(inputs) => assert!(inputs.is_empty()),
        _ => panic!("inputs should be LIST"),
    }
    assert_eq!(0, result.tab.count());
}

#[test]
fn parse_empty_object_text() {
    let tokens = scan_token(String::from("{}")).unwrap();
    let result = parse_tokens(tokens).unwrap();
    match result.root.as_ref() {
        AstNode::OBJECT(pairs) => assert!(pairs.is_empty()),
        _ => panic!("{{}} should parse to an OBJECT"),
    }
}

#[test]
fn parse_nested_empty_object() {
    let raw = "{\"a\": {}, \"b\": 1}";
    let tokens = scan_token(String::from(raw)).unwrap();
    let result = parse_tokens(tokens).unwrap();
    let pairs = match result.root.as_ref() {
        AstNode::OBJECT(pairs) => pairs,
        _ => panic!("should be OBJECT"),
    };
    assert_eq!(2, pairs.len());
    assert_eq!("a", &pairs[0].0);
    match pairs[0].1.as_ref() {
        AstNode::OBJECT(inner) => assert!(inner.is_empty()),
        _ => panic!("a should be an empty OBJECT"),
    }
    assert_eq!("b", &pairs[1].0);
    match pairs[1].1.as_ref() {
        AstNode::INTVAL(v) => assert_eq!(1, *v),
        _ => panic!("b should be INTVAL"),
    }
}

#[test]
fn parse_empty_rule_in_list() {
    let raw = "{\"rules\": [{}]}";
    let tokens = scan_token(String::from(raw)).unwrap();
    let result = parse_tokens(tokens).unwrap();
    let pairs = match result.root.as_ref() {
        AstNode::OBJECT(pairs) => pairs,
        _ => panic!("should be OBJECT"),
    };
    assert_eq!(1, pairs.len());
    match pairs[0].1.as_ref() {
        AstNode::LIST(items) => {
            assert_eq!(1, items.len());
            match items[0].as_ref() {
                AstNode::OBJECT(inner) => assert!(inner.is_empty()),
                _ => panic!("rule should be an empty OBJECT"),
            }
        }
        _ => panic!("rules should be LIST"),
    }
}

#[test]
fn parse_prefers_arith_on_plus() {
    // "out" + ".txt" inside a list: the arithmetic expression wins
    let raw = "{\"outputs\": [\"out\" + \".txt\"]}";
    let tokens = scan_token(String::from(raw)).unwrap();
    let result = parse_tokens(tokens).unwrap();
    let pairs = match result.root.as_ref() {
        AstNode::OBJECT(pairs) => pairs,
        _ => panic!("should be OBJECT"),
    };
    let items = match pairs[0].1.as_ref() {
        AstNode::LIST(items) => items,
        _ => panic!("should be LIST"),
    };
    assert_eq!(1, items.len());
    match items[0].as_ref() {
        AstNode::ADD { left, right } => {
            match left.as_ref() {
                AstNode::STRVAL(val) => assert_eq!("out", val),
                _ => panic!("left should be STRVAL"),
            }
            match right.as_ref() {
                AstNode::STRVAL(val) => assert_eq!(".txt", val),
                _ => panic!("right should be STRVAL"),
            }
        }
        _ => panic!("should be ADD"),
    }
}

#[test]
fn parse_falls_to_comprehension_on_for() {
    // "x.txt" for f in ["a"]: the comprehension wins when `for` follows,
    // and the bound variable is kept as an empty placeholder name
    let raw = "{\"inputs\": [\"x.txt\" for f in [\"a\", \"b\"]]}";
    let tokens = scan_token(String::from(raw)).unwrap();
    let result = parse_tokens(tokens).unwrap();
    let pairs = match result.root.as_ref() {
        AstNode::OBJECT(pairs) => pairs,
        _ => panic!("should be OBJECT"),
    };
    let items = match pairs[0].1.as_ref() {
        AstNode::LIST(items) => items,
        _ => panic!("should be LIST"),
    };
    assert_eq!(1, items.len());
    match items[0].as_ref() {
        AstNode::COMPRE { expr, var, iter_expr } => {
            match expr.as_ref() {
                AstNode::STRVAL(val) => assert_eq!("x.txt", val),
                _ => panic!("expr should be STRVAL"),
            }
            assert_eq!("", var);
            match iter_expr.as_ref() {
                AstNode::LIST(elems) => assert_eq!(2, elems.len()),
                _ => panic!("iter_expr should be LIST"),
            }
        }
        _ => panic!("should be COMPRE"),
    }
}

#[test]
fn parse_int_addition() {
    let raw = "{\"n\": 1 + 2}";
    let tokens = scan_token(String::from(raw)).unwrap();
    let result = parse_tokens(tokens).unwrap();
    let pairs = match result.root.as_ref() {
        AstNode::OBJECT(pairs) => pairs,
        _ => panic!("should be OBJECT"),
    };
    match pairs[0].1.as_ref() {
        AstNode::ADD { left, right } => {
            assert!(left.is_int());
            assert!(right.is_int());
            match (left.as_ref(), right.as_ref()) {
                (AstNode::INTVAL(a), AstNode::INTVAL(b)) => {
                    assert_eq!(1, *a);
                    assert_eq!(2, *b);
                }
                _ => panic!("operands should be INTVAL"),
            }
        }
        _ => panic!("should be ADD"),
    }
}

#[test]
fn parse_duplicate_key_overwrites() {
    let raw = "{\"a\": 1, \"a\": 2}";
    let tokens = scan_token(String::from(raw)).unwrap();
    let result = parse_tokens(tokens).unwrap();
    let pairs = match result.root.as_ref() {
        AstNode::OBJECT(pairs) => pairs,
        _ => panic!("should be OBJECT"),
    };
    assert_eq!(1, pairs.len());
    assert_eq!("a", &pairs[0].0);
    match pairs[0].1.as_ref() {
        AstNode::INTVAL(v) => assert_eq!(2, *v),
        _ => panic!("value should be INTVAL"),
    }
}

#[test]
fn parse_scalar_values() {
    let raw = "{\"i\": -3, \"d\": 2.5, \"b\": true, \"s\": \"txt\"}";
    let tokens = scan_token(String::from(raw)).unwrap();
    let result = parse_tokens(tokens).unwrap();
    let pairs = match result.root.as_ref() {
        AstNode::OBJECT(pairs) => pairs,
        _ => panic!("should be OBJECT"),
    };
    assert_eq!(4, pairs.len());
    assert!(pairs[0].1.is_int());
    assert!(pairs[1].1.is_double());
    assert!(pairs[2].1.is_bool());
    assert!(pairs[3].1.is_str());
    assert!(!pairs[0].1.is_double());
    assert!(!pairs[0].1.is_obj());
    assert!(!pairs[0].1.is_list());
    assert!(!pairs[0].1.is_var());
    assert!(!pairs[0].1.is_list_compre());
}

#[test]
fn parse_rejects_bad_start() {
    let input = vec![Token::RBRAC];
    let err = parse_tokens(input).unwrap_err();
    assert_eq!("parser error", err.message());
}

#[test]
fn parse_rejects_truncated_object() {
    let input = vec![
        Token::LBRAC,
        Token::STRCONST(String::from("a")),
        Token::COLON,
    ];
    assert!(parse_tokens(input).is_err());
}

#[test]
fn parse_rejects_missing_colon() {
    let input = vec![
        Token::LBRAC,
        Token::STRCONST(String::from("a")),
        Token::INTCONST(1),
        Token::RBRAC,
    ];
    assert!(parse_tokens(input).is_err());
}
