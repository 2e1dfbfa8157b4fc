//! The lexical units of the JX language.  A `Token` is an immutable value;
//! literal tokens carry the literal's value.  A floating-point literal
//! carries its exact source text (its digits), so that no inexact machine
//! representation enters the token stream.

use vstd::prelude::*;
use vstd::string::StringExecFns;
use crate::num::int_text;
use crate::text::int_to_string;

verus! {

/// A lexical token.
#[allow(missing_docs)]
#[derive(Debug)]
pub enum Token {
    LBRAC,
    RBRAC,
    LSQBRAC,
    RSQBRAC,
    LPAREN,
    RPAREN,
    COLON,
    COMMA,
    INTCONST(i32),
    /// A floating-point literal, carried as its source text (an optional
    /// `-`, a digit run, optionally a `.` and a further digit run,
    /// optionally an exponent part).
    DOUBLECONST(String),
    BOOLCONST(bool),
    STRCONST(String),
    NULL,
    FOR,
    IN,
    IF,
    ADD,
    MINUS,
    MUL,
    DIV,
    MOD,
    NOT,
    AND,
    OR,
    EQ,
    NE,
    LT,
    LE,
    GT,
    GE,
    ID(String),
}

/// The mathematical value of a token: strings as character sequences,
/// integers as unbounded integers.
#[allow(missing_docs)]
pub enum TokS {
    LBRAC,
    RBRAC,
    LSQBRAC,
    RSQBRAC,
    LPAREN,
    RPAREN,
    COLON,
    COMMA,
    INTCONST(int),
    DOUBLECONST(Seq<char>),
    BOOLCONST(bool),
    STRCONST(Seq<char>),
    NULL,
    FOR,
    IN,
    IF,
    ADD,
    MINUS,
    MUL,
    DIV,
    MOD,
    NOT,
    AND,
    OR,
    EQ,
    NE,
    LT,
    LE,
    GT,
    GE,
    ID(Seq<char>),
}

impl View for Token {
    type V = TokS;

    open spec fn view(&self) -> TokS {
        match self {
            Token::LBRAC => TokS::LBRAC,
            Token::RBRAC => TokS::RBRAC,
            Token::LSQBRAC => TokS::LSQBRAC,
            Token::RSQBRAC => TokS::RSQBRAC,
            Token::LPAREN => TokS::LPAREN,
            Token::RPAREN => TokS::RPAREN,
            Token::COLON => TokS::COLON,
            Token::COMMA => TokS::COMMA,
            Token::INTCONST(i) => TokS::INTCONST(*i as int),
            Token::DOUBLECONST(t) => TokS::DOUBLECONST(t@),
            Token::BOOLCONST(b) => TokS::BOOLCONST(*b),
            Token::STRCONST(s) => TokS::STRCONST(s@),
            Token::NULL => TokS::NULL,
            Token::FOR => TokS::FOR,
            Token::IN => TokS::IN,
            Token::IF => TokS::IF,
            Token::ADD => TokS::ADD,
            Token::MINUS => TokS::MINUS,
            Token::MUL => TokS::MUL,
            Token::DIV => TokS::DIV,
            Token::MOD => TokS::MOD,
            Token::NOT => TokS::NOT,
            Token::AND => TokS::AND,
            Token::OR => TokS::OR,
            Token::EQ => TokS::EQ,
            Token::NE => TokS::NE,
            Token::LT => TokS::LT,
            Token::LE => TokS::LE,
            Token::GT => TokS::GT,
            Token::GE => TokS::GE,
            Token::ID(s) => TokS::ID(s@),
        }
    }
}

impl PartialEq for Token {
    /// Structural equality: same kind and, for literal kinds, equal value.
    #[verifier::rlimit(50)]
    fn eq(&self, other: &Token) -> (r: bool) {
        match self {
            Token::LBRAC => matches!(other, Token::LBRAC),
            Token::RBRAC => matches!(other, Token::RBRAC),
            Token::LSQBRAC => matches!(other, Token::LSQBRAC),
            Token::RSQBRAC => matches!(other, Token::RSQBRAC),
            Token::LPAREN => matches!(other, Token::LPAREN),
            Token::RPAREN => matches!(other, Token::RPAREN),
            Token::COLON => matches!(other, Token::COLON),
            Token::COMMA => matches!(other, Token::COMMA),
            Token::INTCONST(a) => match other {
                Token::INTCONST(b) => *a == *b,
                _ => false,
            },
            Token::DOUBLECONST(a) => match other {
                Token::DOUBLECONST(b) => *a == *b,
                _ => false,
            },
            Token::BOOLCONST(a) => match other {
                Token::BOOLCONST(b) => *a == *b,
                _ => false,
            },
            Token::STRCONST(a) => match other {
                Token::STRCONST(b) => *a == *b,
                _ => false,
            },
            Token::NULL => matches!(other, Token::NULL),
            Token::FOR => matches!(other, Token::FOR),
            Token::IN => matches!(other, Token::IN),
            Token::IF => matches!(other, Token::IF),
            Token::ADD => matches!(other, Token::ADD),
            Token::MINUS => matches!(other, Token::MINUS),
            Token::MUL => matches!(other, Token::MUL),
            Token::DIV => matches!(other, Token::DIV),
            Token::MOD => matches!(other, Token::MOD),
            Token::NOT => matches!(other, Token::NOT),
            Token::AND => matches!(other, Token::AND),
            Token::OR => matches!(other, Token::OR),
            Token::EQ => matches!(other, Token::EQ),
            Token::NE => matches!(other, Token::NE),
            Token::LT => matches!(other, Token::LT),
            Token::LE => matches!(other, Token::LE),
            Token::GT => matches!(other, Token::GT),
            Token::GE => matches!(other, Token::GE),
            Token::ID(a) => match other {
                Token::ID(b) => *a == *b,
                _ => false,
            },
        }
    }
}

impl vstd::std_specs::cmp::PartialEqSpecImpl for Token {
    open spec fn obeys_eq_spec() -> bool {
        true
    }

    open spec fn eq_spec(&self, other: &Token) -> bool {
        self@ == other@
    }
}

/// The source text a token stands for: the literal form for literal tokens,
/// the operator or punctuator symbol, the keyword, or the identifier name.
/// String literals render verbatim, without their quote marks.
pub open spec fn tok_text(t: TokS) -> Seq<char> {
    match t {
        TokS::LBRAC => "{"@,
        TokS::RBRAC => "}"@,
        TokS::LSQBRAC => "["@,
        TokS::RSQBRAC => "]"@,
        TokS::LPAREN => "("@,
        TokS::RPAREN => ")"@,
        TokS::COLON => ":"@,
        TokS::COMMA => ","@,
        TokS::INTCONST(i) => int_text(i),
        TokS::DOUBLECONST(t) => t,
        TokS::BOOLCONST(b) => if b {
            "true"@
        } else {
            "false"@
        },
        TokS::STRCONST(s) => s,
        TokS::NULL => "null"@,
        TokS::FOR => "for"@,
        TokS::IN => "in"@,
        TokS::IF => "if"@,
        TokS::ADD => "+"@,
        TokS::MINUS => "-"@,
        TokS::MUL => "*"@,
        TokS::DIV => "/"@,
        TokS::MOD => "%"@,
        TokS::NOT => "not"@,
        TokS::AND => "and"@,
        TokS::OR => "or"@,
        TokS::EQ => "=="@,
        TokS::NE => "!="@,
        TokS::LT => "<"@,
        TokS::LE => "<="@,
        TokS::GT => ">"@,
        TokS::GE => ">="@,
        TokS::ID(s) => s,
    }
}

/// A token's descriptive form: the kind's name, with the literal payload in
/// parentheses where there is one.
pub open spec fn tok_desc(t: TokS) -> Seq<char> {
    match t {
        TokS::LBRAC => "LBRAC"@,
        TokS::RBRAC => "RBRAC"@,
        TokS::LSQBRAC => "LSQBRAC"@,
        TokS::RSQBRAC => "RSQBRAC"@,
        TokS::LPAREN => "LPAREN"@,
        TokS::RPAREN => "RPAREN"@,
        TokS::COLON => "COLON"@,
        TokS::COMMA => "COMMA"@,
        TokS::INTCONST(i) => "INTCONST("@ + int_text(i) + ")"@,
        TokS::DOUBLECONST(t) => "DOUBLECONST("@ + t + ")"@,
        TokS::BOOLCONST(b) => "BOOLCONST("@ + (if b {
            "true"@
        } else {
            "false"@
        }) + ")"@,
        TokS::STRCONST(s) => "STRCONST("@ + s + ")"@,
        TokS::NULL => "NULL"@,
        TokS::FOR => "FOR"@,
        TokS::IN => "IN"@,
        TokS::IF => "IF"@,
        TokS::ADD => "ADD"@,
        TokS::MINUS => "MINUS"@,
        TokS::MUL => "MUL"@,
        TokS::DIV => "DIV"@,
        TokS::MOD => "MOD"@,
        TokS::NOT => "NOT"@,
        TokS::AND => "AND"@,
        TokS::OR => "OR"@,
        TokS::EQ => "EQ"@,
        TokS::NE => "NE"@,
        TokS::LT => "LT"@,
        TokS::LE => "LE"@,
        TokS::GT => "GT"@,
        TokS::GE => "GE"@,
        TokS::ID(s) => "ID("@ + s + ")"@,
    }
}

impl Token {
    /// The source text this token stands for, per `tok_text`.
    pub fn to_str(&self) -> (r: String)
        ensures
            r@ == tok_text(self@),
    {
        match self {
            Token::LBRAC => String::from_str("{"),
            Token::RBRAC => String::from_str("}"),
            Token::LSQBRAC => String::from_str("["),
            Token::RSQBRAC => String::from_str("]"),
            Token::LPAREN => String::from_str("("),
            Token::RPAREN => String::from_str(")"),
            Token::COLON => String::from_str(":"),
            Token::COMMA => String::from_str(","),
            Token::INTCONST(i) => int_to_string(*i),
            Token::DOUBLECONST(t) => t.clone(),
            Token::BOOLCONST(b) => if *b {
                String::from_str("true")
            } else {
                String::from_str("false")
            },
            Token::STRCONST(s) => s.clone(),
            Token::NULL => String::from_str("null"),
            Token::FOR => String::from_str("for"),
            Token::IN => String::from_str("in"),
            Token::IF => String::from_str("if"),
            Token::ADD => String::from_str("+"),
            Token::MINUS => String::from_str("-"),
            Token::MUL => String::from_str("*"),
            Token::DIV => String::from_str("/"),
            Token::MOD => String::from_str("%"),
            Token::NOT => String::from_str("not"),
            Token::AND => String::from_str("and"),
            Token::OR => String::from_str("or"),
            Token::EQ => String::from_str("=="),
            Token::NE => String::from_str("!="),
            Token::LT => String::from_str("<"),
            Token::LE => String::from_str("<="),
            Token::GT => String::from_str(">"),
            Token::GE => String::from_str(">="),
            Token::ID(s) => s.clone(),
        }
    }

    /// The token's descriptive form, per `tok_desc`: kind name plus payload.
    pub fn describe(&self) -> (r: String)
        ensures
            r@ == tok_desc(self@),
    {
        match self {
            Token::LBRAC => String::from_str("LBRAC"),
            Token::RBRAC => String::from_str("RBRAC"),
            Token::LSQBRAC => String::from_str("LSQBRAC"),
            Token::RSQBRAC => String::from_str("RSQBRAC"),
            Token::LPAREN => String::from_str("LPAREN"),
            Token::RPAREN => String::from_str("RPAREN"),
            Token::COLON => String::from_str("COLON"),
            Token::COMMA => String::from_str("COMMA"),
            Token::INTCONST(i) => {
                let mut r = String::from_str("INTCONST(");
                let payload = int_to_string(*i);
                r.append(payload.as_str());
                r.append(")");
                r
            },
            Token::DOUBLECONST(t) => {
                let mut r = String::from_str("DOUBLECONST(");
                r.append(t.as_str());
                r.append(")");
                r
            },
            Token::BOOLCONST(b) => {
                let mut r = String::from_str("BOOLCONST(");
                r.append(if *b {
                    "true"
                } else {
                    "false"
                });
                r.append(")");
                r
            },
            Token::STRCONST(s) => {
                let mut r = String::from_str("STRCONST(");
                r.append(s.as_str());
                r.append(")");
                r
            },
            Token::NULL => String::from_str("NULL"),
            Token::FOR => String::from_str("FOR"),
            Token::IN => String::from_str("IN"),
            Token::IF => String::from_str("IF"),
            Token::ADD => String::from_str("ADD"),
            Token::MINUS => String::from_str("MINUS"),
            Token::MUL => String::from_str("MUL"),
            Token::DIV => String::from_str("DIV"),
            Token::MOD => String::from_str("MOD"),
            Token::NOT => String::from_str("NOT"),
            Token::AND => String::from_str("AND"),
            Token::OR => String::from_str("OR"),
            Token::EQ => String::from_str("EQ"),
            Token::NE => String::from_str("NE"),
            Token::LT => String::from_str("LT"),
            Token::LE => String::from_str("LE"),
            Token::GT => String::from_str("GT"),
            Token::GE => String::from_str("GE"),
            Token::ID(s) => {
                let mut r = String::from_str("ID(");
                r.append(s.as_str());
                r.append(")");
                r
            },
        }
    }
}

/// The view of a token sequence, element by element.
pub open spec fn tokens_view(ts: Seq<Token>) -> Seq<TokS> {
    Seq::new(ts.len(), |i: int| ts[i]@)
}

} // verus!
