//! The scanner: turns raw source text into a token sequence, or fails with
//! a diagnostic.
//!
//! The algorithm is incremental maximal munch with a one-step backtrack.
//! A pending lexeme buffer grows one character at a time; after each step
//! the buffer is classified (`token_match`) as a definite match, as
//! extensible (possibly with a complete candidate token), or as invalid.
//! On invalid, the scanner retracts exactly one character and resolves with
//! the candidate the retracted buffer had; a second invalid in a row is a
//! hard failure.  Whitespace is skipped only between tokens — never inside
//! a pending lexeme, so string literal content is kept verbatim.
//!
//! The whole process is specified by the pure functions `token_match_spec`
//! and `scan_spec`; the executable scanner returns exactly what they
//! describe.

use vstd::prelude::*;
use vstd::string::StringExecFns;
use crate::num::{is_digit, is_digits, digits_val};
use crate::text::{chars_to_string, chars_eq_str, chars_substring};
use crate::text::str_to_chars;
use crate::token::{Token, TokS, tokens_view};

verus! {

/// Whitespace that separates tokens: the Unicode white-space characters
/// (tab through carriage return, space, next line, no-break space, ogham
/// space mark, the en-quad..hair-space range, the line and paragraph
/// separators, narrow no-break space, medium mathematical space, and the
/// ideographic space).
pub open spec fn is_ws(c: char) -> bool {
    let u = c as u32;
    ||| (9 <= u && u <= 13)
    ||| u == 0x20
    ||| u == 0x85
    ||| u == 0xA0
    ||| u == 0x1680
    ||| (0x2000 <= u && u <= 0x200A)
    ||| u == 0x2028
    ||| u == 0x2029
    ||| u == 0x202F
    ||| u == 0x205F
    ||| u == 0x3000
}

/// A character that may stand in an identifier: a letter, a digit or `_`.
pub open spec fn is_id_char(c: char) -> bool {
    (97 <= c as u32 && c as u32 <= 122) || (65 <= c as u32 && c as u32 <= 90) || is_digit(c) || c
        == '_'
}

/// The end of the digit run that starts at `i`: the first index at or
/// after `i` that is out of range or holds a non-digit.
pub open spec fn digits_end(s: Seq<char>, i: int) -> int
    decreases s.len() - i,
{
    if i < 0 || i >= s.len() || !is_digit(s[i]) {
        i
    } else {
        digits_end(s, i + 1)
    }
}

/// The digit run `[i, digits_end)` is maximal: all digits, ended by the
/// end of the text or a non-digit.
pub proof fn lemma_digits_end(s: Seq<char>, i: int)
    requires
        0 <= i <= s.len(),
    ensures
        i <= digits_end(s, i) <= s.len(),
        forall|m: int| i <= m < digits_end(s, i) ==> is_digit(#[trigger] s[m]),
        digits_end(s, i) < s.len() ==> !is_digit(s[digits_end(s, i)]),
    decreases s.len() - i,
{
    if i < s.len() && is_digit(s[i]) {
        lemma_digits_end(s, i + 1);
    }
}

/// A maximal digit run determines `digits_end`.
pub proof fn lemma_digits_end_is(s: Seq<char>, i: int, j: int)
    requires
        0 <= i <= j <= s.len(),
        forall|m: int| i <= m < j ==> is_digit(#[trigger] s[m]),
        j < s.len() ==> !is_digit(s[j]),
    ensures
        digits_end(s, i) == j,
    decreases j - i,
{
    if i < j {
        lemma_digits_end_is(s, i + 1, j);
    }
}

/// An exponent part: `e` or `E`, an optional sign, then digits only (at
/// least one).
pub open spec fn exp_text(s: Seq<char>) -> bool {
    &&& s.len() >= 2
    &&& (s[0] == 'e' || s[0] == 'E')
    &&& if s[1] == '+' || s[1] == '-' {
        s.len() >= 3 && is_digits(s.skip(2))
    } else {
        is_digits(s.skip(1))
    }
}

/// The text of a floating-point literal without its sign, read as a
/// general number parse reads it: a digit run (an integer too large for
/// `INTCONST` arrives here too), optionally a `.` with a further digit
/// run, optionally an exponent part.
pub open spec fn is_double_text(s: Seq<char>) -> bool {
    let d1 = digits_end(s, 0);
    if d1 <= 0 {
        false
    } else {
        let k = if d1 < s.len() && s[d1] == '.' {
            digits_end(s, d1 + 1)
        } else {
            d1
        };
        k == s.len() || exp_text(s.skip(k))
    }
}

/// Classification of a pending lexeme buffer.
pub enum MatchResult {
    /// A definite match: the buffer is this token and cannot extend.
    Matched(Token),
    /// The buffer may extend into a longer token; when it also already
    /// resolves to a complete token, that candidate is carried along.
    More(Option<Token>),
    /// The buffer cannot be completed into any token.
    No,
}

/// The mathematical value of a `MatchResult`.
pub enum MatchS {
    /// See `MatchResult::Matched`.
    Matched(TokS),
    /// See `MatchResult::More`.
    More(Option<TokS>),
    /// See `MatchResult::No`.
    No,
}

impl View for MatchResult {
    type V = MatchS;

    open spec fn view(&self) -> MatchS {
        match self {
            MatchResult::Matched(t) => MatchS::Matched(t@),
            MatchResult::More(opt) => MatchS::More(
                match opt {
                    Some(t) => Some(t@),
                    None => None,
                },
            ),
            MatchResult::No => MatchS::No,
        }
    }
}

/// A token of exactly one character: matched alone, invalid when extended.
pub open spec fn match_one_char_spec(s: Seq<char>, t: TokS) -> MatchS {
    if s.len() > 1 {
        MatchS::No
    } else {
        MatchS::Matched(t)
    }
}

/// A numeric lexeme.  A digit string whose value fits a 32-bit integer is
/// an integer candidate; a digit string ending in `.` may still extend (or
/// is invalid when nothing could precede the dot); any other double text is
/// a double candidate.
pub open spec fn match_numeric_spec(s: Seq<char>) -> MatchS {
    if s.len() > 0 && is_digits(s) && digits_val(s) <= i32::MAX {
        MatchS::More(Some(TokS::INTCONST(digits_val(s) as int)))
    } else if s.len() > 0 && s.last() == '.' {
        if s.len() > 1 && is_digits(s.drop_last()) && digits_val(s.drop_last()) <= i32::MAX {
            MatchS::More(None)
        } else {
            MatchS::No
        }
    } else if is_double_text(s) {
        MatchS::More(Some(TokS::DOUBLECONST(s)))
    } else {
        MatchS::No
    }
}

/// A lexeme that starts with `-`: the minus operator alone, or a negative
/// numeric literal.  A negative number is one token, never a minus token
/// followed by a positive number.
pub open spec fn match_negative_spec(s: Seq<char>) -> MatchS {
    if s.len() <= 1 {
        MatchS::More(Some(TokS::MINUS))
    } else {
        match match_numeric_spec(s.skip(1)) {
            MatchS::More(Some(TokS::INTCONST(v))) => MatchS::More(Some(TokS::INTCONST(-v))),
            MatchS::More(Some(TokS::DOUBLECONST(_))) => MatchS::More(Some(TokS::DOUBLECONST(s))),
            _ => MatchS::No,
        }
    }
}

/// An identifier lexeme: letters, digits and underscores throughout.
pub open spec fn match_id_spec(s: Seq<char>) -> MatchS {
    if forall|i: int| 0 <= i < s.len() ==> is_id_char(#[trigger] s[i]) {
        MatchS::More(Some(TokS::ID(s)))
    } else {
        MatchS::No
    }
}

/// A lexeme that starts with a lower-case letter: one of the reserved
/// words `true false null for in if`, or an identifier.
pub open spec fn match_alpha_spec(s: Seq<char>) -> MatchS {
    if s == "false"@ {
        MatchS::More(Some(TokS::BOOLCONST(false)))
    } else if s == "for"@ {
        MatchS::More(Some(TokS::FOR))
    } else if s == "true"@ {
        MatchS::More(Some(TokS::BOOLCONST(true)))
    } else if s == "null"@ {
        MatchS::More(Some(TokS::NULL))
    } else if s == "in"@ {
        MatchS::More(Some(TokS::IN))
    } else if s == "if"@ {
        MatchS::More(Some(TokS::IF))
    } else {
        match_id_spec(s)
    }
}

/// A string literal lexeme delimited by `q`: complete once a second `q`
/// appears, with the content taken verbatim in between (no escapes).
pub open spec fn match_str_spec(s: Seq<char>, q: char) -> MatchS {
    if s.len() > 1 && s.last() == q {
        MatchS::Matched(TokS::STRCONST(s.subrange(1, s.len() - 1)))
    } else {
        MatchS::More(None)
    }
}

/// Classifies a pending lexeme buffer against the whole token grammar,
/// dispatching on the buffer's first character.
pub open spec fn token_match_spec(s: Seq<char>) -> MatchS {
    if s.len() == 0 {
        MatchS::No
    } else {
        let c = s[0];
        if c == '{' {
            match_one_char_spec(s, TokS::LBRAC)
        } else if c == '}' {
            match_one_char_spec(s, TokS::RBRAC)
        } else if c == '[' {
            match_one_char_spec(s, TokS::LSQBRAC)
        } else if c == ']' {
            match_one_char_spec(s, TokS::RSQBRAC)
        } else if c == '(' {
            match_one_char_spec(s, TokS::LPAREN)
        } else if c == ')' {
            match_one_char_spec(s, TokS::RPAREN)
        } else if c == ':' {
            match_one_char_spec(s, TokS::COLON)
        } else if c == ',' {
            match_one_char_spec(s, TokS::COMMA)
        } else if c == '+' {
            match_one_char_spec(s, TokS::ADD)
        } else if c == '-' {
            match_negative_spec(s)
        } else if c == '*' {
            match_one_char_spec(s, TokS::MUL)
        } else if c == '/' {
            match_one_char_spec(s, TokS::DIV)
        } else if c == '%' {
            match_one_char_spec(s, TokS::MOD)
        } else if c == '=' {
            if s == "=="@ {
                MatchS::Matched(TokS::EQ)
            } else {
                MatchS::More(None)
            }
        } else if c == '!' {
            if s == "!="@ {
                MatchS::Matched(TokS::NE)
            } else {
                MatchS::More(None)
            }
        } else if c == '<' {
            if s == "<="@ {
                MatchS::Matched(TokS::LE)
            } else if s.len() == 1 {
                MatchS::More(Some(TokS::LT))
            } else {
                MatchS::No
            }
        } else if c == '>' {
            if s.len() >= 2 && s[1] == '=' {
                MatchS::Matched(TokS::GE)
            } else if s.len() == 1 {
                MatchS::More(Some(TokS::GT))
            } else {
                MatchS::No
            }
        } else if is_digit(c) {
            match_numeric_spec(s)
        } else if 97 <= c as u32 && c as u32 <= 122 {
            match_alpha_spec(s)
        } else if 65 <= c as u32 && c as u32 <= 90 {
            match_id_spec(s)
        } else if c == '\'' {
            match_str_spec(s, '\'')
        } else if c == '"' {
            match_str_spec(s, '"')
        } else {
            MatchS::No
        }
    }
}

fn is_ws_char(c: char) -> (r: bool)
    ensures
        r == is_ws(c),
{
    let u = c as u32;
    (9 <= u && u <= 13) || u == 0x20 || u == 0x85 || u == 0xA0 || u == 0x1680 || (0x2000 <= u && u
        <= 0x200A) || u == 0x2028 || u == 0x2029 || u == 0x202F || u == 0x205F || u == 0x3000
}

fn is_digit_exec(c: char) -> (r: bool)
    ensures
        r == is_digit(c),
{
    let u = c as u32;
    48 <= u && u <= 57
}

fn is_lower_exec(c: char) -> (r: bool)
    ensures
        r == (97 <= c as u32 && c as u32 <= 122),
{
    let u = c as u32;
    97 <= u && u <= 122
}

fn is_upper_exec(c: char) -> (r: bool)
    ensures
        r == (65 <= c as u32 && c as u32 <= 90),
{
    let u = c as u32;
    65 <= u && u <= 90
}

fn is_id_char_exec(c: char) -> (r: bool)
    ensures
        r == is_id_char(c),
{
    let u = c as u32;
    (97 <= u && u <= 122) || (65 <= u && u <= 90) || (48 <= u && u <= 57) || c == '_'
}

/// The index of the first non-digit at or after `start`, or the length
/// when there is none.
fn first_non_digit(v: &Vec<char>, start: usize) -> (r: usize)
    requires
        start <= v@.len(),
    ensures
        start <= r <= v@.len(),
        forall|j: int| start <= j < r ==> is_digit(#[trigger] v@[j]),
        r < v@.len() ==> !is_digit(v@[r as int]),
{
    let n = v.len();
    let mut i: usize = start;
    while i < n
        invariant
            start <= i <= n == v@.len(),
            forall|j: int| start <= j < i ==> is_digit(#[trigger] v@[j]),
        decreases n - i,
    {
        if !is_digit_exec(v[i]) {
            return i;
        }
        i = i + 1;
    }
    i
}

/// Decides `is_double_text` for `v[start..]`: a leading digit run, an
/// optional `.` with a further digit run, and an optional exponent part.
fn is_double_chars(v: &Vec<char>, start: usize) -> (r: bool)
    requires
        start <= v@.len(),
    ensures
        r == is_double_text(v@.skip(start as int)),
{
    let ghost s = v@.skip(start as int);
    proof {
        assert(forall|m: int| 0 <= m < s.len() ==> #[trigger] s[m] == v@[start + m]);
    }
    let n = v.len();
    let d1 = first_non_digit(v, start);
    proof {
        lemma_digits_end_is(s, 0, d1 - start);
    }
    if d1 == start {
        return false;
    }
    // the optional fraction: a dot followed by a digit run
    let k: usize = if d1 < n && v[d1] == '.' {
        let k2 = first_non_digit(v, d1 + 1);
        proof {
            lemma_digits_end_is(s, d1 + 1 - start, k2 - start);
        }
        k2
    } else {
        d1
    };
    let ghost ks = k - start;
    if k == n {
        return true;
    }
    // the optional exponent part
    let ghost e = s.skip(ks);
    proof {
        assert(forall|m: int| 0 <= m < e.len() ==> #[trigger] e[m] == v@[k + m]);
    }
    let c = v[k];
    proof {
        assert(e[0] == c);
    }
    if !(c == 'e' || c == 'E') {
        proof {
            assert(!exp_text(e));
        }
        return false;
    }
    if k + 1 >= n {
        proof {
            assert(e.len() < 2);
            assert(!exp_text(e));
        }
        return false;
    }
    let c1 = v[k + 1];
    proof {
        assert(e[1] == c1);
    }
    let digs_from: usize = if c1 == '+' || c1 == '-' {
        if k + 2 >= n {
            proof {
                assert(e.len() < 3);
                assert(!exp_text(e));
            }
            return false;
        }
        k + 2
    } else {
        k + 1
    };
    let r = crate::num::all_digits(v, digs_from, n);
    proof {
        if c1 == '+' || c1 == '-' {
            assert(e.skip(2) =~= v@.subrange(k + 2, n as int));
        } else {
            assert(e.skip(1) =~= v@.subrange(k + 1, n as int));
        }
        assert(r == exp_text(e));
    }
    r
}

/// Matches a token that consists of exactly one character.
fn match_1_char_token(v: &Vec<char>, token: Token) -> (r: MatchResult)
    ensures
        r@ == match_one_char_spec(v@, token@),
{
    if v.len() > 1 {
        return MatchResult::No;
    }
    MatchResult::Matched(token)
}

/// Matches a numeric lexeme beginning at `start`, per `match_numeric_spec`.
fn match_numeric(v: &Vec<char>, start: usize) -> (r: MatchResult)
    requires
        start <= v@.len(),
    ensures
        r@ == match_numeric_spec(v@.skip(start as int)),
{
    let ghost s = v@.skip(start as int);
    let n = v.len();
    proof {
        assert(s =~= v@.subrange(start as int, n as int));
    }
    match crate::num::parse_digits(v, start, n) {
        Some(val) => {
            return MatchResult::More(Some(Token::INTCONST(val)));
        },
        None => {},
    }
    if n > start && v[n - 1] == '.' {
        proof {
            assert(s.last() == v@[n - 1]);
            assert(s.drop_last() =~= v@.subrange(start as int, n - 1));
        }
        if n - start > 1 {
            match crate::num::parse_digits(v, start, n - 1) {
                Some(_) => MatchResult::More(None),
                None => MatchResult::No,
            }
        } else {
            MatchResult::No
        }
    } else {
        proof {
            if s.len() > 0 {
                assert(s.last() == v@[n - 1]);
            }
        }
        if is_double_chars(v, start) {
            MatchResult::More(Some(Token::DOUBLECONST(chars_substring(v, start, n))))
        } else {
            MatchResult::No
        }
    }
}

/// Matches a lexeme that starts with `-`, per `match_negative_spec`.
fn match_negative_or_minus(v: &Vec<char>) -> (r: MatchResult)
    ensures
        r@ == match_negative_spec(v@),
{
    if v.len() <= 1 {
        return MatchResult::More(Some(Token::MINUS));
    }
    match match_numeric(v, 1) {
        MatchResult::More(opt) => match opt {
            Some(token) => match token {
                Token::INTCONST(val) => {
                    proof {
                        assert(val as int == digits_val(v@.skip(1)));
                    }
                    MatchResult::More(Some(Token::INTCONST(-val)))
                },
                Token::DOUBLECONST(_) => {
                    let text = chars_substring(v, 0, v.len());
                    proof {
                        assert(text@ =~= v@);
                    }
                    MatchResult::More(Some(Token::DOUBLECONST(text)))
                },
                _ => MatchResult::No,
            },
            None => MatchResult::No,
        },
        _ => MatchResult::No,
    }
}

/// Matches an identifier lexeme, per `match_id_spec`.
fn match_id(v: &Vec<char>) -> (r: MatchResult)
    ensures
        r@ == match_id_spec(v@),
{
    let n = v.len();
    let mut i: usize = 0;
    while i < n
        invariant
            i <= n == v@.len(),
            forall|j: int| 0 <= j < i ==> is_id_char(#[trigger] v@[j]),
        decreases n - i,
    {
        if !is_id_char_exec(v[i]) {
            return MatchResult::No;
        }
        i = i + 1;
    }
    MatchResult::More(Some(Token::ID(chars_to_string(v))))
}

/// Matches a lexeme that starts with a lower-case letter: a reserved word
/// before an identifier, per `match_alpha_spec`.
fn match_alphabetic(v: &Vec<char>) -> (r: MatchResult)
    ensures
        r@ == match_alpha_spec(v@),
{
    if chars_eq_str(v, "false") {
        MatchResult::More(Some(Token::BOOLCONST(false)))
    } else if chars_eq_str(v, "for") {
        MatchResult::More(Some(Token::FOR))
    } else if chars_eq_str(v, "true") {
        MatchResult::More(Some(Token::BOOLCONST(true)))
    } else if chars_eq_str(v, "null") {
        MatchResult::More(Some(Token::NULL))
    } else if chars_eq_str(v, "in") {
        MatchResult::More(Some(Token::IN))
    } else if chars_eq_str(v, "if") {
        MatchResult::More(Some(Token::IF))
    } else {
        match_id(v)
    }
}

/// Matches a string literal delimited by `quote`, per `match_str_spec`.
fn match_strconst(v: &Vec<char>, quote: char) -> (r: MatchResult)
    ensures
        r@ == match_str_spec(v@, quote),
{
    let n = v.len();
    if n > 1 && v[n - 1] == quote {
        proof {
            assert(v@.last() == v@[n - 1]);
        }
        MatchResult::Matched(Token::STRCONST(chars_substring(v, 1, n - 1)))
    } else {
        proof {
            if n > 0 {
                assert(v@.last() == v@[n - 1]);
            }
        }
        MatchResult::More(None)
    }
}

/// Classifies a pending lexeme buffer, per `token_match_spec`.
#[verifier::rlimit(50)]
fn token_match_chars(v: &Vec<char>) -> (r: MatchResult)
    ensures
        r@ == token_match_spec(v@),
{
    if v.len() == 0 {
        return MatchResult::No;
    }
    let c = v[0];
    if c == '{' {
        match_1_char_token(v, Token::LBRAC)
    } else if c == '}' {
        match_1_char_token(v, Token::RBRAC)
    } else if c == '[' {
        match_1_char_token(v, Token::LSQBRAC)
    } else if c == ']' {
        match_1_char_token(v, Token::RSQBRAC)
    } else if c == '(' {
        match_1_char_token(v, Token::LPAREN)
    } else if c == ')' {
        match_1_char_token(v, Token::RPAREN)
    } else if c == ':' {
        match_1_char_token(v, Token::COLON)
    } else if c == ',' {
        match_1_char_token(v, Token::COMMA)
    } else if c == '+' {
        match_1_char_token(v, Token::ADD)
    } else if c == '-' {
        match_negative_or_minus(v)
    } else if c == '*' {
        match_1_char_token(v, Token::MUL)
    } else if c == '/' {
        match_1_char_token(v, Token::DIV)
    } else if c == '%' {
        match_1_char_token(v, Token::MOD)
    } else if c == '=' {
        if chars_eq_str(v, "==") {
            MatchResult::Matched(Token::EQ)
        } else {
            MatchResult::More(None)
        }
    } else if c == '!' {
        if chars_eq_str(v, "!=") {
            MatchResult::Matched(Token::NE)
        } else {
            MatchResult::More(None)
        }
    } else if c == '<' {
        if chars_eq_str(v, "<=") {
            MatchResult::Matched(Token::LE)
        } else if v.len() == 1 {
            MatchResult::More(Some(Token::LT))
        } else {
            MatchResult::No
        }
    } else if c == '>' {
        if v.len() >= 2 && v[1] == '=' {
            MatchResult::Matched(Token::GE)
        } else if v.len() == 1 {
            MatchResult::More(Some(Token::GT))
        } else {
            MatchResult::No
        }
    } else if is_digit_exec(c) {
        proof {
            assert(v@.skip(0) =~= v@);
        }
        match_numeric(v, 0)
    } else if is_lower_exec(c) {
        match_alphabetic(v)
    } else if is_upper_exec(c) {
        match_id(v)
    } else if c == '\'' {
        match_strconst(v, '\'')
    } else if c == '"' {
        match_strconst(v, '"')
    } else {
        MatchResult::No
    }
}

/// Classifies a lexeme given as a string slice, per `token_match_spec`.
pub fn token_match(input: &str) -> (r: MatchResult)
    ensures
        r@ == token_match_spec(input@),
{
    let v = str_to_chars(input);
    token_match_chars(&v)
}


/// One step of reading: with a non-empty buffer the next character is
/// taken as it is; with an empty buffer (between tokens) whitespace is
/// skipped first.  `src` is the unread input held as a stack, its top (the
/// next character) at the end.  Returns the new stack, the new buffer, and
/// whether a character was read.
pub open spec fn move_forward_spec(src: Seq<char>, matching: Seq<char>) -> (Seq<char>, Seq<
    char,
>, bool)
    decreases src.len(),
{
    if matching.len() > 0 {
        if src.len() == 0 {
            (src, matching, false)
        } else {
            (src.drop_last(), matching.push(src.last()), true)
        }
    } else {
        if src.len() == 0 {
            (src, matching, false)
        } else if is_ws(src.last()) {
            move_forward_spec(src.drop_last(), matching)
        } else {
            (src.drop_last(), matching.push(src.last()), true)
        }
    }
}

/// Reading a character never grows the stack, and on success moves exactly
/// one character into the buffer.
pub proof fn lemma_move_forward_bounds(src: Seq<char>, matching: Seq<char>)
    ensures
        ({
            let (s2, m2, ok) = move_forward_spec(src, matching);
            &&& s2.len() <= src.len()
            &&& (ok ==> m2.len() == matching.len() + 1 && s2.len() < src.len())
            &&& (!ok ==> m2 == matching)
        }),
    decreases src.len(),
{
    if matching.len() == 0 && src.len() > 0 && is_ws(src.last()) {
        lemma_move_forward_bounds(src.drop_last(), matching);
    }
}

/// One step of retracting: the last buffered character moves back onto the
/// input stack.  Fails only on an empty buffer.
pub open spec fn move_backward_spec(src: Seq<char>, matching: Seq<char>) -> (Seq<char>, Seq<
    char,
>, bool) {
    if matching.len() == 0 {
        (src, matching, false)
    } else {
        (src.push(matching.last()), matching.drop_last(), true)
    }
}

/// Moves one character of input into the lexeme buffer, skipping
/// whitespace when the buffer is empty (between tokens); `false` when the
/// input is exhausted.  `src` holds the unread input with its top at the
/// end.
pub fn move_forward(src: &mut Vec<char>, matching: &mut Vec<char>) -> (ok: bool)
    ensures
        (final(src)@, final(matching)@, ok) == move_forward_spec(old(src)@, old(matching)@),
{
    if matching.len() > 0 {
        match src.pop() {
            Some(c) => {
                matching.push(c);
                true
            },
            None => false,
        }
    } else {
        loop
            invariant
                matching@ == old(matching)@,
                matching@.len() == 0,
                move_forward_spec(src@, matching@) == move_forward_spec(
                    old(src)@,
                    old(matching)@,
                ),
            decreases src@.len(),
        {
            match src.pop() {
                Some(c) => {
                    if !is_ws_char(c) {
                        matching.push(c);
                        return true;
                    }
                },
                None => {
                    return false;
                },
            }
        }
    }
}

/// Moves the last buffered character back onto the input stack; `false`
/// when the buffer is empty.
pub fn move_backward(src: &mut Vec<char>, matching: &mut Vec<char>) -> (ok: bool)
    ensures
        (final(src)@, final(matching)@, ok) == move_backward_spec(old(src)@, old(matching)@),
{
    match matching.pop() {
        Some(c) => {
            src.push(c);
            true
        },
        None => false,
    }
}

/// A scan failure, as a value: the input could not be read at all, or some
/// lexeme could not be matched.
pub enum ScanErrS {
    /// No character could be read from the input (empty or all whitespace).
    CannotRead(Seq<char>),
    /// The lexeme text could not be resolved to any token.
    Unable(Seq<char>),
}

/// Which of the two scan failures a `ScannerError` reports.
#[derive(Debug)]
enum ScanErrKind {
    CannotRead,
    Unable,
}

/// A scan failure: carries the offending text (no source position is
/// recorded).
#[derive(Debug)]
pub struct ScannerError {
    kind: ScanErrKind,
    text: String,
}

impl View for ScannerError {
    type V = ScanErrS;

    closed spec fn view(&self) -> ScanErrS {
        match self.kind {
            ScanErrKind::CannotRead => ScanErrS::CannotRead(self.text@),
            ScanErrKind::Unable => ScanErrS::Unable(self.text@),
        }
    }
}

/// The diagnostic text of a scan failure.
pub open spec fn scan_err_message(e: ScanErrS) -> Seq<char> {
    match e {
        ScanErrS::CannotRead(t) => "can not read characters from input "@ + t,
        ScanErrS::Unable(t) => "unable to match \""@ + t + "\""@,
    }
}

impl ScannerError {
    /// The human-readable diagnostic message, naming the offending text.
    pub fn message(&self) -> (r: String)
        ensures
            r@ == scan_err_message(self@),
    {
        match self.kind {
            ScanErrKind::CannotRead => {
                let mut r = String::from_str("can not read characters from input ");
                r.append(self.text.as_str());
                r
            },
            ScanErrKind::Unable => {
                let mut r = String::from_str("unable to match \"");
                r.append(self.text.as_str());
                r.append("\"");
                r
            },
        }
    }
}

fn unable_err(matching: &Vec<char>) -> (r: ScannerError)
    ensures
        r@ == ScanErrS::Unable(matching@),
{
    ScannerError { kind: ScanErrKind::Unable, text: chars_to_string(matching) }
}

/// The scan loop, one classification step at a time.  `src` is the unread
/// input (a stack, top at the end), `matching` the pending lexeme,
/// `tokens` what has been emitted, and `back_track` whether the last step
/// retracted a character.  When the input ends with a pending lexeme, a
/// complete candidate token is emitted; a pending lexeme without one is an
/// error.
pub open spec fn scan_spec_rec(
    src: Seq<char>,
    matching: Seq<char>,
    tokens: Seq<TokS>,
    back_track: bool,
) -> Result<Seq<TokS>, ScanErrS>
    decreases src.len() + matching.len(), (if back_track { 0int } else { 1int }), src.len(),
    via scan_spec_rec_decreases
{
    if matching.len() == 0 {
        Err(ScanErrS::Unable(matching))
    } else {
        match token_match_spec(matching) {
            MatchS::Matched(t) => {
                let (s2, m2, ok) = move_forward_spec(src, Seq::<char>::empty());
                if !ok {
                    Ok(tokens.push(t))
                } else {
                    scan_spec_rec(s2, m2, tokens.push(t), false)
                }
            },
            MatchS::More(opt) => {
                if back_track {
                    match opt {
                        Some(t) => {
                            let (s2, m2, ok) = move_forward_spec(src, Seq::<char>::empty());
                            if !ok {
                                Ok(tokens.push(t))
                            } else {
                                scan_spec_rec(s2, m2, tokens.push(t), false)
                            }
                        },
                        None => Err(ScanErrS::Unable(matching)),
                    }
                } else {
                    if src.len() == 0 {
                        match opt {
                            Some(t) => Ok(tokens.push(t)),
                            None => Err(ScanErrS::Unable(matching)),
                        }
                    } else {
                        scan_spec_rec(src.drop_last(), matching.push(src.last()), tokens, false)
                    }
                }
            },
            MatchS::No => {
                if back_track {
                    Err(ScanErrS::Unable(matching))
                } else {
                    scan_spec_rec(src.push(matching.last()), matching.drop_last(), tokens, true)
                }
            },
        }
    }
}

#[via_fn]
proof fn scan_spec_rec_decreases(
    src: Seq<char>,
    matching: Seq<char>,
    tokens: Seq<TokS>,
    back_track: bool,
) {
    lemma_move_forward_bounds(src, Seq::<char>::empty());
}

/// What scanning a whole text yields: the token sequence, or the first
/// failure.  The text is reversed into a stack and read one character at a
/// time; an empty or all-whitespace text cannot be read at all.
pub open spec fn scan_spec(input: Seq<char>) -> Result<Seq<TokS>, ScanErrS> {
    let src0 = input.reverse();
    let (src1, m1, ok) = move_forward_spec(src0, Seq::<char>::empty());
    if !ok {
        Err(ScanErrS::CannotRead(src1.reverse()))
    } else {
        scan_spec_rec(src1, m1, Seq::<TokS>::empty(), false)
    }
}

/// Pushing a token commutes with taking the view of the sequence.
proof fn lemma_tokens_view_push(ts: Seq<Token>, t: Token)
    ensures
        tokens_view(ts.push(t)) == tokens_view(ts).push(t@),
{
    assert(tokens_view(ts.push(t)) =~= tokens_view(ts).push(t@));
}

/// Scans the raw source text into its token sequence, or fails with the
/// diagnostic that `scan_spec` prescribes.  A pure function of the text.
pub fn scan_token(raw: String) -> (r: Result<Vec<Token>, ScannerError>)
    ensures
        ({
            match (r, scan_spec(raw@)) {
                (Ok(ts), Ok(ss)) => tokens_view(ts@) == ss,
                (Err(e), Err(es)) => e@ == es,
                _ => false,
            }
        }),
{
    let chars = str_to_chars(raw.as_str());
    let mut src = crate::text::reverse_chars(&chars);
    let mut matching: Vec<char> = Vec::new();
    let mut tokens: Vec<Token> = Vec::new();
    proof {
        assert(tokens_view(tokens@) =~= Seq::<TokS>::empty());
    }
    if !move_forward(&mut src, &mut matching) {
        let text = chars_to_string(&crate::text::reverse_chars(&src));
        return Err(ScannerError { kind: ScanErrKind::CannotRead, text });
    }
    let mut back_track = false;
    loop
        invariant
            scan_spec(raw@) == scan_spec_rec(src@, matching@, tokens_view(tokens@), back_track),
        decreases src@.len() + matching@.len(), (if back_track { 0int } else { 1int }), src@.len(),
    {
        let ghost pre_src = src@;
        match token_match_chars(&matching) {
            MatchResult::Matched(t) => {
                proof {
                    lemma_tokens_view_push(tokens@, t);
                }
                tokens.push(t);
                matching.clear();
                if !move_forward(&mut src, &mut matching) {
                    return Ok(tokens);
                }
                back_track = false;
                proof {
                    lemma_move_forward_bounds(pre_src, Seq::<char>::empty());
                }
            },
            MatchResult::More(opt) => {
                if back_track {
                    back_track = false;
                    match opt {
                        Some(t) => {
                            proof {
                                lemma_tokens_view_push(tokens@, t);
                            }
                            tokens.push(t);
                            matching.clear();
                            if !move_forward(&mut src, &mut matching) {
                                return Ok(tokens);
                            }
                            proof {
                                lemma_move_forward_bounds(pre_src, Seq::<char>::empty());
                            }
                        },
                        None => {
                            return Err(unable_err(&matching));
                        },
                    }
                } else {
                    if !move_forward(&mut src, &mut matching) {
                        match opt {
                            Some(t) => {
                                proof {
                                    lemma_tokens_view_push(tokens@, t);
                                }
                                tokens.push(t);
                                return Ok(tokens);
                            },
                            None => {
                                return Err(unable_err(&matching));
                            },
                        }
                    }
                }
            },
            MatchResult::No => {
                if back_track {
                    return Err(unable_err(&matching));
                }
                if !move_backward(&mut src, &mut matching) {
                    return Err(unable_err(&matching));
                }
                back_track = true;
            },
        }
    }
}

} // verus!
