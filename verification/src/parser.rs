//! The parser: recursive descent over the token sequence, producing a
//! single root node (an object, for a well-formed program) and an empty
//! symbol table.
//!
//! Local grammar ambiguities are resolved by speculative parsing: an
//! alternative is attempted and, when it fails, the cursor is rewound to
//! where the attempt began and the next alternative is tried.  The
//! ordering is part of the contract: at `expr`, a JX expression is tried
//! before a plain value; inside a JX expression an arithmetic expression
//! is tried before a list comprehension.
//!
//! The grammar, as an interpreter over the token views, is the family of
//! `parse_*_spec` functions; every executable rule returns exactly what
//! its spec function describes, or `None` exactly when it describes no
//! parse.

use vstd::prelude::*;
use crate::ast::{AstNode, AstS, ast_view, entries_view_from, nodes_view_from, kv_insert, obj_insert};
use crate::symbol_tab::{SymbolTable, SymS};
use crate::token::{Token, TokS, tokens_view};
use vstd::string::StringExecFns;

verus! {

/// A rewindable, read-only cursor over the token sequence.  Rewinding is
/// an integer assignment, which is what makes speculative parsing cheap:
/// a failed attempt rewinds to exactly where it began.
pub struct TokenSrc {
    tokens: Vec<Token>,
    curr_index: usize,
}

impl TokenSrc {
    /// The token views this cursor reads.
    pub closed spec fn toks(&self) -> Seq<TokS> {
        tokens_view(self.tokens@)
    }

    /// The cursor position: the index of the next token to read.
    pub closed spec fn pos(&self) -> int {
        self.curr_index as int
    }

    /// The position never leaves the token sequence (one past the end
    /// means exhausted).
    pub open spec fn wf(&self) -> bool {
        0 <= self.pos() <= self.toks().len()
    }

    /// A cursor over `tokens`, at the start.
    pub fn from(tokens: Vec<Token>) -> (r: TokenSrc)
        ensures
            r.toks() == tokens_view(tokens@),
            r.pos() == 0,
            r.wf(),
    {
        TokenSrc { tokens, curr_index: 0 }
    }

    /// Advances past the current token.
    pub fn consume(&mut self)
        requires
            old(self).wf(),
            old(self).pos() < old(self).toks().len(),
        ensures
            final(self).toks() == old(self).toks(),
            final(self).pos() == old(self).pos() + 1,
            final(self).wf(),
    {
        let n = self.tokens.len();
        if self.curr_index < n {
            self.curr_index = self.curr_index + 1;
        }
    }

    /// Steps one token backward.
    pub fn backtrack_one(&mut self)
        requires
            old(self).pos() >= 1,
        ensures
            final(self).toks() == old(self).toks(),
            final(self).pos() == old(self).pos() - 1,
    {
        self.curr_index = self.curr_index - 1;
    }

    /// Rewinds to `index`.  Rewinding only moves backward; after the call
    /// the position is exactly `index` and the tokens are untouched, so a
    /// failed speculative attempt leaves no trace.
    pub fn backtrack_to(&mut self, index: usize)
        requires
            index as int <= old(self).pos(),
        ensures
            final(self).toks() == old(self).toks(),
            final(self).pos() == index as int,
    {
        self.curr_index = index;
    }

    /// The current token, or `None` when the sequence is exhausted.
    pub fn curr(&self) -> (r: Option<&Token>)
        requires
            self.wf(),
        ensures
            match r {
                Some(t) => self.pos() < self.toks().len() && t@ == self.toks()[self.pos()],
                None => self.pos() == self.toks().len(),
            },
    {
        if self.curr_index < self.tokens.len() {
            proof {
                assert(self.toks()[self.pos()] == self.tokens@[self.pos()]@);
            }
            Some(&self.tokens[self.curr_index])
        } else {
            None
        }
    }

    /// The token after the current one, or `None` when there is none.
    pub fn next_token(&self) -> (r: Option<&Token>)
        requires
            self.wf(),
        ensures
            match r {
                Some(t) => self.pos() + 1 < self.toks().len() && t@ == self.toks()[self.pos() + 1],
                None => self.pos() + 1 >= self.toks().len(),
            },
    {
        if self.curr_index < self.tokens.len() && self.curr_index + 1 < self.tokens.len() {
            proof {
                assert(self.toks()[self.pos() + 1] == self.tokens@[self.pos() + 1]@);
            }
            Some(&self.tokens[self.curr_index + 1])
        } else {
            None
        }
    }

    /// The cursor position, for a later rewind.
    pub fn curr_index(&self) -> (r: usize)
        ensures
            r as int == self.pos(),
    {
        self.curr_index
    }
}

/// What parsing an object at `i` yields: `'{' '}'` or
/// `'{' keyval (',' keyval)* '}'`, the closing brace consumed in both
/// forms, with duplicate keys overwritten, last write wins.
pub open spec fn parse_object_spec(toks: Seq<TokS>, i: int) -> Option<(AstS, int)>
    decreases toks.len() - i, 1int,
{
    if !(0 <= i < toks.len()) || !(toks[i] is LBRAC) {
        None
    } else {
        let j = i + 1;
        if j < toks.len() && toks[j] is RBRAC {
            Some((AstS::OBJECT(Seq::empty()), j + 1))
        } else {
            match parse_key_val_list_spec(toks, j, Seq::empty()) {
                Some((pairs, k)) => {
                    if k < toks.len() && toks[k] is RBRAC {
                        Some((AstS::OBJECT(pairs), k + 1))
                    } else {
                        None
                    }
                },
                None => None,
            }
        }
    }
}

/// What parsing a key/value list at `i` yields, accumulating into `acc`
/// with last-write-wins inserts.
pub open spec fn parse_key_val_list_spec(
    toks: Seq<TokS>,
    i: int,
    acc: Seq<(Seq<char>, AstS)>,
) -> Option<(Seq<(Seq<char>, AstS)>, int)>
    decreases toks.len() - i, 10int,
{
    match parse_key_val_spec(toks, i) {
        Some((kv, j)) => {
            let acc2 = kv_insert(acc, kv.0, kv.1);
            if j < toks.len() && toks[j] is COMMA {
                if i < j && j + 1 <= toks.len() {
                    parse_key_val_list_spec(toks, j + 1, acc2)
                } else {
                    None
                }
            } else {
                Some((acc2, j))
            }
        },
        None => None,
    }
}

/// What parsing one `STRING ':' expr` pair at `i` yields.
pub open spec fn parse_key_val_spec(toks: Seq<TokS>, i: int) -> Option<((Seq<char>, AstS), int)>
    decreases toks.len() - i, 9int,
{
    if 0 <= i < toks.len() && toks[i] is STRCONST {
        if i + 1 < toks.len() && toks[i + 1] is COLON {
            match parse_expr_spec(toks, i + 2) {
                Some((v, j)) => Some((((toks[i]->STRCONST_0), v), j)),
                None => None,
            }
        } else {
            None
        }
    } else {
        None
    }
}

/// What parsing an expression at `i` yields.  The disambiguation contract:
/// a lookahead that could begin either form tries the JX expression first
/// and falls back to a plain value; an identifier routes to the JX
/// expression alone; anything else is no expression.
pub open spec fn parse_expr_spec(toks: Seq<TokS>, i: int) -> Option<(AstS, int)>
    decreases toks.len() - i, 8int,
{
    if !(0 <= i < toks.len()) {
        None
    } else {
        match toks[i] {
            TokS::ID(_) => parse_jx_expr_spec(toks, i),
            TokS::STRCONST(_) => parse_expr_both_spec(toks, i),
            TokS::INTCONST(_) => parse_expr_both_spec(toks, i),
            TokS::DOUBLECONST(_) => parse_expr_both_spec(toks, i),
            TokS::BOOLCONST(_) => parse_expr_both_spec(toks, i),
            TokS::LBRAC => parse_expr_both_spec(toks, i),
            TokS::LSQBRAC => parse_expr_both_spec(toks, i),
            _ => None,
        }
    }
}

/// The speculative step at `expr`: the JX expression first, then, after a
/// rewind, the plain value.
pub open spec fn parse_expr_both_spec(toks: Seq<TokS>, i: int) -> Option<(AstS, int)>
    decreases toks.len() - i, 7int,
{
    match parse_jx_expr_spec(toks, i) {
        Some(r) => Some(r),
        None => parse_value_spec(toks, i),
    }
}

/// What parsing a plain value at `i` yields: a literal token, an object
/// or a list.
pub open spec fn parse_value_spec(toks: Seq<TokS>, i: int) -> Option<(AstS, int)>
    decreases toks.len() - i, 2int,
{
    if !(0 <= i < toks.len()) {
        None
    } else {
        match toks[i] {
            TokS::STRCONST(s) => Some((AstS::STRVAL(s), i + 1)),
            TokS::INTCONST(v) => Some((AstS::INTVAL(v), i + 1)),
            TokS::DOUBLECONST(t) => Some((AstS::DOUBLEVAL(t), i + 1)),
            TokS::BOOLCONST(b) => Some((AstS::BOOLVAL(b), i + 1)),
            TokS::LBRAC => parse_object_spec(toks, i),
            TokS::LSQBRAC => parse_list_spec(toks, i),
            _ => None,
        }
    }
}

/// What parsing a list at `i` yields: `'[' ']'` or
/// `'[' expr (',' expr)* ']'`, both with the closing bracket consumed.
pub open spec fn parse_list_spec(toks: Seq<TokS>, i: int) -> Option<(AstS, int)>
    decreases toks.len() - i, 1int,
{
    if !(0 <= i < toks.len()) || !(toks[i] is LSQBRAC) {
        None
    } else {
        let j = i + 1;
        if j < toks.len() && toks[j] is RSQBRAC {
            Some((AstS::LIST(Seq::empty()), j + 1))
        } else {
            match parse_expr_list_spec(toks, j, Seq::empty()) {
                Some((items, k)) => {
                    if k < toks.len() && toks[k] is RSQBRAC {
                        Some((AstS::LIST(items), k + 1))
                    } else {
                        None
                    }
                },
                None => None,
            }
        }
    }
}

/// What parsing an expression list at `i` yields, the elements in order.
pub open spec fn parse_expr_list_spec(toks: Seq<TokS>, i: int, acc: Seq<AstS>) -> Option<
    (Seq<AstS>, int),
>
    decreases toks.len() - i, 9int,
{
    match parse_expr_spec(toks, i) {
        Some((v, j)) => {
            let acc2 = acc.push(v);
            if j < toks.len() && toks[j] is COMMA {
                if i < j && j + 1 <= toks.len() {
                    parse_expr_list_spec(toks, j + 1, acc2)
                } else {
                    None
                }
            } else {
                Some((acc2, j))
            }
        },
        None => None,
    }
}

/// What parsing a JX expression at `i` yields.  A literal lookahead tries
/// the arithmetic expression first and falls back, after a rewind, to the
/// list comprehension; a boolean, object or list lookahead can only start
/// a comprehension.
pub open spec fn parse_jx_expr_spec(toks: Seq<TokS>, i: int) -> Option<(AstS, int)>
    decreases toks.len() - i, 6int,
{
    if !(0 <= i < toks.len()) {
        None
    } else {
        match toks[i] {
            TokS::STRCONST(_) => parse_jx_both_spec(toks, i),
            TokS::INTCONST(_) => parse_jx_both_spec(toks, i),
            TokS::DOUBLECONST(_) => parse_jx_both_spec(toks, i),
            TokS::BOOLCONST(_) => parse_compre_spec(toks, i),
            TokS::LBRAC => parse_compre_spec(toks, i),
            TokS::LSQBRAC => parse_compre_spec(toks, i),
            _ => None,
        }
    }
}

/// The speculative step inside a JX expression: arithmetic first, then,
/// after a rewind, the comprehension.
pub open spec fn parse_jx_both_spec(toks: Seq<TokS>, i: int) -> Option<(AstS, int)>
    decreases toks.len() - i, 5int,
{
    match parse_arith_spec(toks, i) {
        Some(r) => Some(r),
        None => parse_compre_spec(toks, i),
    }
}

/// What parsing an arithmetic expression at `i` yields: exactly two
/// literal operands of one kind (string, integer or double) joined by
/// `+` — the declared grammar reaches no other operator.
pub open spec fn parse_arith_spec(toks: Seq<TokS>, i: int) -> Option<(AstS, int)>
    decreases toks.len() - i, 3int,
{
    if !(0 <= i < toks.len()) {
        None
    } else if i + 2 < toks.len() && toks[i + 1] is ADD {
        match (toks[i], toks[i + 2]) {
            (TokS::STRCONST(s1), TokS::STRCONST(s2)) => Some(
                (
                    AstS::ADD {
                        left: Box::new(AstS::STRVAL(s1)),
                        right: Box::new(AstS::STRVAL(s2)),
                    },
                    i + 3,
                ),
            ),
            (TokS::INTCONST(v1), TokS::INTCONST(v2)) => Some(
                (
                    AstS::ADD {
                        left: Box::new(AstS::INTVAL(v1)),
                        right: Box::new(AstS::INTVAL(v2)),
                    },
                    i + 3,
                ),
            ),
            (TokS::DOUBLECONST(t1), TokS::DOUBLECONST(t2)) => Some(
                (
                    AstS::ADD {
                        left: Box::new(AstS::DOUBLEVAL(t1)),
                        right: Box::new(AstS::DOUBLEVAL(t2)),
                    },
                    i + 3,
                ),
            ),
            _ => None,
        }
    } else {
        None
    }
}

/// What parsing a list comprehension at `i` yields:
/// `value 'for' ID 'in' list`.  The bound variable is read and checked
/// but not kept: the node stores an empty placeholder name in its place,
/// the grammar's documented baseline behaviour.
pub open spec fn parse_compre_spec(toks: Seq<TokS>, i: int) -> Option<(AstS, int)>
    decreases toks.len() - i, 4int,
{
    match parse_value_spec(toks, i) {
        Some((v, j)) => {
            if j < toks.len() && toks[j] is FOR && j + 1 < toks.len() && toks[j + 1] is ID && j + 2
                < toks.len() && toks[j + 2] is IN {
                if i < j {
                    match parse_list_spec(toks, j + 3) {
                        Some((lst, k)) => Some(
                            (
                                AstS::COMPRE {
                                    expr: Box::new(v),
                                    var: Seq::empty(),
                                    iter_expr: Box::new(lst),
                                },
                                k,
                            ),
                        ),
                        None => None,
                    }
                } else {
                    None
                }
            } else {
                None
            }
        },
        None => None,
    }
}

/// What parsing a whole program yields: the root object.
pub open spec fn parse_workflow_spec(toks: Seq<TokS>) -> Option<(AstS, int)> {
    parse_object_spec(toks, 0)
}

/// What parsing a token sequence yields: the root node of the program, or
/// nothing when no rule matches.  Tokens after the root object are
/// ignored, as the descent has always done.
pub open spec fn parse_tokens_spec(toks: Seq<TokS>) -> Option<AstS> {
    match parse_workflow_spec(toks) {
        Some((n, _)) => Some(n),
        None => None,
    }
}


/// Every successful parse consumes at least one token and lands within
/// the sequence: the advance property, one claim per grammar rule.
pub proof fn lemma_adv_object(toks: Seq<TokS>, i: int)
    ensures
        match parse_object_spec(toks, i) {
            Some((n, j)) => i < j <= toks.len(),
            None => true,
        },
    decreases toks.len() - i, 1int,
{
    if 0 <= i < toks.len() && toks[i] is LBRAC {
        let j = i + 1;
        if !(j < toks.len() && toks[j] is RBRAC) {
            lemma_adv_key_val_list(toks, j, Seq::empty());
        }
    }
}

/// See `lemma_adv_object`.
pub proof fn lemma_adv_key_val_list(toks: Seq<TokS>, i: int, acc: Seq<(Seq<char>, AstS)>)
    ensures
        match parse_key_val_list_spec(toks, i, acc) {
            Some((pairs, j)) => i < j <= toks.len(),
            None => true,
        },
    decreases toks.len() - i, 10int,
{
    lemma_adv_key_val(toks, i);
    match parse_key_val_spec(toks, i) {
        Some((kv, j)) => {
            if j < toks.len() && toks[j] is COMMA {
                if i < j && j + 1 <= toks.len() {
                    lemma_adv_key_val_list(toks, j + 1, kv_insert(acc, kv.0, kv.1));
                }
            }
        },
        None => {},
    }
}

/// See `lemma_adv_object`.
pub proof fn lemma_adv_key_val(toks: Seq<TokS>, i: int)
    ensures
        match parse_key_val_spec(toks, i) {
            Some((kv, j)) => i < j <= toks.len(),
            None => true,
        },
    decreases toks.len() - i, 9int,
{
    if 0 <= i < toks.len() && toks[i] is STRCONST {
        if i + 1 < toks.len() && toks[i + 1] is COLON {
            lemma_adv_expr(toks, i + 2);
        }
    }
}

/// See `lemma_adv_object`.
pub proof fn lemma_adv_expr(toks: Seq<TokS>, i: int)
    ensures
        match parse_expr_spec(toks, i) {
            Some((n, j)) => i < j <= toks.len(),
            None => true,
        },
    decreases toks.len() - i, 8int,
{
    if 0 <= i < toks.len() {
        lemma_adv_jx_expr(toks, i);
        lemma_adv_expr_both(toks, i);
    }
}

/// See `lemma_adv_object`.
pub proof fn lemma_adv_expr_both(toks: Seq<TokS>, i: int)
    ensures
        match parse_expr_both_spec(toks, i) {
            Some((n, j)) => i < j <= toks.len(),
            None => true,
        },
    decreases toks.len() - i, 7int,
{
    lemma_adv_jx_expr(toks, i);
    lemma_adv_value(toks, i);
}

/// See `lemma_adv_object`.
pub proof fn lemma_adv_jx_expr(toks: Seq<TokS>, i: int)
    ensures
        match parse_jx_expr_spec(toks, i) {
            Some((n, j)) => i < j <= toks.len(),
            None => true,
        },
    decreases toks.len() - i, 6int,
{
    if 0 <= i < toks.len() {
        lemma_adv_jx_both(toks, i);
        lemma_adv_compre(toks, i);
    }
}

/// See `lemma_adv_object`.
pub proof fn lemma_adv_jx_both(toks: Seq<TokS>, i: int)
    ensures
        match parse_jx_both_spec(toks, i) {
            Some((n, j)) => i < j <= toks.len(),
            None => true,
        },
    decreases toks.len() - i, 5int,
{
    lemma_adv_arith(toks, i);
    lemma_adv_compre(toks, i);
}

/// See `lemma_adv_object`.
pub proof fn lemma_adv_arith(toks: Seq<TokS>, i: int)
    ensures
        match parse_arith_spec(toks, i) {
            Some((n, j)) => i < j <= toks.len(),
            None => true,
        },
    decreases toks.len() - i, 3int,
{
}

/// See `lemma_adv_object`.
pub proof fn lemma_adv_compre(toks: Seq<TokS>, i: int)
    ensures
        match parse_compre_spec(toks, i) {
            Some((n, j)) => i < j <= toks.len(),
            None => true,
        },
    decreases toks.len() - i, 4int,
{
    lemma_adv_value(toks, i);
    match parse_value_spec(toks, i) {
        Some((v, j)) => {
            if j < toks.len() && toks[j] is FOR && j + 1 < toks.len() && toks[j + 1] is ID && j + 2
                < toks.len() && toks[j + 2] is IN && i < j {
                lemma_adv_list(toks, j + 3);
            }
        },
        None => {},
    }
}

/// See `lemma_adv_object`.
pub proof fn lemma_adv_value(toks: Seq<TokS>, i: int)
    ensures
        match parse_value_spec(toks, i) {
            Some((n, j)) => i < j <= toks.len(),
            None => true,
        },
    decreases toks.len() - i, 2int,
{
    if 0 <= i < toks.len() {
        lemma_adv_object(toks, i);
        lemma_adv_list(toks, i);
    }
}

/// See `lemma_adv_object`.
pub proof fn lemma_adv_list(toks: Seq<TokS>, i: int)
    ensures
        match parse_list_spec(toks, i) {
            Some((n, j)) => i < j <= toks.len(),
            None => true,
        },
    decreases toks.len() - i, 1int,
{
    if 0 <= i < toks.len() && toks[i] is LSQBRAC {
        let j = i + 1;
        if !(j < toks.len() && toks[j] is RSQBRAC) {
            lemma_adv_expr_list(toks, j, Seq::empty());
        }
    }
}

/// See `lemma_adv_object`.
pub proof fn lemma_adv_expr_list(toks: Seq<TokS>, i: int, acc: Seq<AstS>)
    ensures
        match parse_expr_list_spec(toks, i, acc) {
            Some((items, j)) => i < j <= toks.len(),
            None => true,
        },
    decreases toks.len() - i, 9int,
{
    lemma_adv_expr(toks, i);
    match parse_expr_spec(toks, i) {
        Some((v, j)) => {
            if j < toks.len() && toks[j] is COMMA {
                if i < j && j + 1 <= toks.len() {
                    lemma_adv_expr_list(toks, j + 1, acc.push(v));
                }
            }
        },
        None => {},
    }
}


/// The executable result of a rule matches the spec parse at the entry
/// position: a node with the spec's value and the cursor at the spec's
/// position, or no node exactly when the spec has no parse.
pub open spec fn node_result_matches(
    spec_r: Option<(AstS, int)>,
    r: Option<Box<AstNode>>,
    post: TokenSrc,
) -> bool {
    match spec_r {
        Some((n, j)) => r is Some && ast_view(*(r->Some_0)) == n && post.pos() == j,
        None => r is None,
    }
}

/// The cursor's tokens are untouched and it has only moved forward.
pub open spec fn cursor_ok(pre: TokenSrc, post: TokenSrc) -> bool {
    &&& post.wf()
    &&& post.toks() == pre.toks()
    &&& pre.pos() <= post.pos()
}

/// Consumes the current token when it equals `terminal`; otherwise leaves
/// the cursor in place.
fn match_terminal(src: &mut TokenSrc, terminal: Token) -> (r: bool)
    requires
        old(src).wf(),
    ensures
        cursor_ok(*old(src), *final(src)),
        r == (old(src).pos() < old(src).toks().len() && old(src).toks()[old(src).pos()]
            == terminal@),
        r ==> final(src).pos() == old(src).pos() + 1,
        !r ==> final(src).pos() == old(src).pos(),
{
    let eq = match src.curr() {
        Some(t) => *t == terminal,
        None => false,
    };
    if eq {
        src.consume();
        true
    } else {
        false
    }
}

/// Consumes a string literal token and yields its value.
#[allow(non_snake_case)]
fn match_STRVAL(src: &mut TokenSrc) -> (r: Option<String>)
    requires
        old(src).wf(),
    ensures
        cursor_ok(*old(src), *final(src)),
        match r {
            Some(val) => old(src).pos() < old(src).toks().len() && old(src).toks()[old(src).pos()]
                == TokS::STRCONST(val@) && final(src).pos() == old(src).pos() + 1,
            None => !(old(src).pos() < old(src).toks().len() && old(src).toks()[old(src).pos()]
                is STRCONST) && final(src).pos() == old(src).pos(),
        },
{
    let val = match src.curr() {
        Some(Token::STRCONST(v)) => Some(v.clone()),
        _ => None,
    };
    match val {
        Some(v) => {
            src.consume();
            Some(v)
        },
        None => None,
    }
}

/// Consumes an integer literal token and yields its value.
fn match_int(src: &mut TokenSrc) -> (r: Option<i32>)
    requires
        old(src).wf(),
    ensures
        cursor_ok(*old(src), *final(src)),
        match r {
            Some(val) => old(src).pos() < old(src).toks().len() && old(src).toks()[old(src).pos()]
                == TokS::INTCONST(val as int) && final(src).pos() == old(src).pos() + 1,
            None => !(old(src).pos() < old(src).toks().len() && old(src).toks()[old(src).pos()]
                is INTCONST) && final(src).pos() == old(src).pos(),
        },
{
    let val = match src.curr() {
        Some(Token::INTCONST(v)) => Some(*v),
        _ => None,
    };
    match val {
        Some(v) => {
            src.consume();
            Some(v)
        },
        None => None,
    }
}

/// Consumes a floating-point literal token and yields its text.
fn match_double(src: &mut TokenSrc) -> (r: Option<String>)
    requires
        old(src).wf(),
    ensures
        cursor_ok(*old(src), *final(src)),
        match r {
            Some(val) => old(src).pos() < old(src).toks().len() && old(src).toks()[old(src).pos()]
                == TokS::DOUBLECONST(val@) && final(src).pos() == old(src).pos() + 1,
            None => !(old(src).pos() < old(src).toks().len() && old(src).toks()[old(src).pos()]
                is DOUBLECONST) && final(src).pos() == old(src).pos(),
        },
{
    let val = match src.curr() {
        Some(Token::DOUBLECONST(v)) => Some(v.clone()),
        _ => None,
    };
    match val {
        Some(v) => {
            src.consume();
            Some(v)
        },
        None => None,
    }
}

/// Consumes an identifier token and yields a variable-reference node.
fn match_id(src: &mut TokenSrc) -> (r: Option<Box<AstNode>>)
    requires
        old(src).wf(),
    ensures
        cursor_ok(*old(src), *final(src)),
        match r {
            Some(node) => old(src).pos() < old(src).toks().len() && old(src).toks()[old(
                src,
            ).pos()] is ID && ast_view(*node) == AstS::VAR(
                old(src).toks()[old(src).pos()]->ID_0,
            ) && final(src).pos() == old(src).pos() + 1,
            None => !(old(src).pos() < old(src).toks().len() && old(src).toks()[old(src).pos()]
                is ID) && final(src).pos() == old(src).pos(),
        },
{
    let val = match src.curr() {
        Some(Token::ID(name)) => Some(name.clone()),
        _ => None,
    };
    match val {
        Some(name) => {
            src.consume();
            Some(Box::new(AstNode::VAR(name)))
        },
        None => None,
    }
}

/// Matches a plain value: a literal token, an object or a list, per
/// `parse_value_spec`.
fn match_value(src: &mut TokenSrc) -> (r: Option<Box<AstNode>>)
    requires
        old(src).wf(),
    ensures
        cursor_ok(*old(src), *final(src)),
        node_result_matches(
            parse_value_spec(old(src).toks(), old(src).pos()),
            r,
            *final(src),
        ),
    decreases src.toks().len() - src.pos(), 2int,
{
    let node_opt: Option<Box<AstNode>> = match src.curr() {
        Some(Token::STRCONST(val)) => Some(Box::new(AstNode::STRVAL(val.clone()))),
        Some(Token::INTCONST(val)) => Some(Box::new(AstNode::INTVAL(*val))),
        Some(Token::DOUBLECONST(val)) => Some(Box::new(AstNode::DOUBLEVAL(val.clone()))),
        Some(Token::BOOLCONST(val)) => Some(Box::new(AstNode::BOOLVAL(*val))),
        _ => None,
    };
    match node_opt {
        Some(node) => {
            src.consume();
            return Some(node);
        },
        None => {},
    }
    let is_obj = matches!(src.curr(), Some(Token::LBRAC));
    if is_obj {
        return match_object(src);
    }
    let is_list = matches!(src.curr(), Some(Token::LSQBRAC));
    if is_list {
        return match_list(src);
    }
    None
}

/// Matches an object, per `parse_object_spec`.
fn match_object(src: &mut TokenSrc) -> (r: Option<Box<AstNode>>)
    requires
        old(src).wf(),
    ensures
        cursor_ok(*old(src), *final(src)),
        node_result_matches(
            parse_object_spec(old(src).toks(), old(src).pos()),
            r,
            *final(src),
        ),
    decreases src.toks().len() - src.pos(), 1int,
{
    if !match_terminal(src, Token::LBRAC) {
        return None;
    }
    let empty = matches!(src.curr(), Some(Token::RBRAC));
    if empty {
        let node = Box::new(AstNode::OBJECT(Vec::new()));
        proof {
            assert(entries_view_from(Seq::<(String, Box<AstNode>)>::empty(), 0)
                =~= Seq::<(Seq<char>, AstS)>::empty());
        }
        src.consume();
        return Some(node);
    }
    let pairs = match match_key_val_list(src, Vec::new()) {
        Some(pairs) => pairs,
        None => {
            return None;
        },
    };
    let obj = Box::new(AstNode::OBJECT(pairs));
    if !match_terminal(src, Token::RBRAC) {
        return None;
    }
    Some(obj)
}

/// Matches one or more comma-separated key/value pairs, inserting each
/// into the accumulated pairs, per `parse_key_val_list_spec`.
fn match_key_val_list(src: &mut TokenSrc, keyval_pairs: Vec<(String, Box<AstNode>)>) -> (r:
    Option<Vec<(String, Box<AstNode>)>>)
    requires
        old(src).wf(),
    ensures
        cursor_ok(*old(src), *final(src)),
        match parse_key_val_list_spec(
            old(src).toks(),
            old(src).pos(),
            entries_view_from(keyval_pairs@, 0),
        ) {
            Some((pairs, j)) => r is Some && entries_view_from((r->Some_0)@, 0) == pairs
                && final(src).pos() == j,
            None => r is None,
        },
    decreases src.toks().len() - src.pos(), 10int,
{
    let ghost toks = src.toks();
    let ghost i = src.pos();
    proof {
        lemma_adv_key_val(toks, i);
    }
    let (k, v) = match match_key_val(src) {
        Some(kv) => kv,
        None => {
            return None;
        },
    };
    let mut pairs = keyval_pairs;
    obj_insert(&mut pairs, k, v);
    let more = matches!(src.curr(), Some(Token::COMMA));
    if !more {
        return Some(pairs);
    }
    if !match_terminal(src, Token::COMMA) {
        return None;
    }
    match_key_val_list(src, pairs)
}

/// Matches one `STRING ':' expr` pair, per `parse_key_val_spec`.
fn match_key_val(src: &mut TokenSrc) -> (r: Option<(String, Box<AstNode>)>)
    requires
        old(src).wf(),
    ensures
        cursor_ok(*old(src), *final(src)),
        match parse_key_val_spec(old(src).toks(), old(src).pos()) {
            Some((kv, j)) => r is Some && (r->Some_0).0@ == kv.0 && ast_view(*(r->Some_0).1)
                == kv.1 && final(src).pos() == j,
            None => r is None,
        },
    decreases src.toks().len() - src.pos(), 9int,
{
    let key = match match_STRVAL(src) {
        Some(k) => k,
        None => {
            return None;
        },
    };
    if !match_terminal(src, Token::COLON) {
        return None;
    }
    let value = match match_expr(src) {
        Some(v) => v,
        None => {
            return None;
        },
    };
    Some((key, value))
}

/// Matches an expression, per `parse_expr_spec`: a JX expression is tried
/// first where the lookahead is ambiguous, with a rewind before the plain
/// value is tried.
fn match_expr(src: &mut TokenSrc) -> (r: Option<Box<AstNode>>)
    requires
        old(src).wf(),
    ensures
        cursor_ok(*old(src), *final(src)),
        node_result_matches(
            parse_expr_spec(old(src).toks(), old(src).pos()),
            r,
            *final(src),
        ),
    decreases src.toks().len() - src.pos(), 8int,
{
    let route: u8 = match src.curr() {
        Some(Token::STRCONST(_)) => 0,
        Some(Token::INTCONST(_)) => 0,
        Some(Token::DOUBLECONST(_)) => 0,
        Some(Token::BOOLCONST(_)) => 0,
        Some(Token::LBRAC) => 0,
        Some(Token::LSQBRAC) => 0,
        Some(Token::ID(_)) => 1,
        _ => 2,
    };
    if route == 1 {
        return match_jx_expr(src);
    }
    if route == 2 {
        return None;
    }
    let index = src.curr_index();
    match match_jx_expr(src) {
        Some(expr) => {
            return Some(expr);
        },
        None => {
            src.backtrack_to(index);
            // the failed attempt left no trace: the cursor is back where
            // the attempt began
            proof {
                assert(src.pos() == index as int);
            }
        },
    }
    match_value(src)
}

/// Matches a JX expression, per `parse_jx_expr_spec`: an arithmetic
/// expression is tried first for a literal lookahead, with a rewind
/// before the comprehension is tried.
fn match_jx_expr(src: &mut TokenSrc) -> (r: Option<Box<AstNode>>)
    requires
        old(src).wf(),
    ensures
        cursor_ok(*old(src), *final(src)),
        node_result_matches(
            parse_jx_expr_spec(old(src).toks(), old(src).pos()),
            r,
            *final(src),
        ),
    decreases src.toks().len() - src.pos(), 6int,
{
    let route: u8 = match src.curr() {
        Some(Token::STRCONST(_)) => 0,
        Some(Token::INTCONST(_)) => 0,
        Some(Token::DOUBLECONST(_)) => 0,
        Some(Token::BOOLCONST(_)) => 1,
        Some(Token::LBRAC) => 1,
        Some(Token::LSQBRAC) => 1,
        _ => 2,
    };
    if route == 2 {
        return None;
    }
    if route == 1 {
        return match_list_compre_expr(src);
    }
    let index = src.curr_index();
    match match_jx_arith_expr(src) {
        Some(ast) => {
            return Some(ast);
        },
        None => {
            src.backtrack_to(index);
            // the failed attempt left no trace: the cursor is back where
            // the attempt began
            proof {
                assert(src.pos() == index as int);
            }
        },
    }
    match_list_compre_expr(src)
}

/// Matches an arithmetic expression, per `parse_arith_spec`: two
/// homogeneous literal operands joined by `+`.
#[verifier::rlimit(100)]
fn match_jx_arith_expr(src: &mut TokenSrc) -> (r: Option<Box<AstNode>>)
    requires
        old(src).wf(),
    ensures
        cursor_ok(*old(src), *final(src)),
        node_result_matches(
            parse_arith_spec(old(src).toks(), old(src).pos()),
            r,
            *final(src),
        ),
    decreases src.toks().len() - src.pos(), 3int,
{
    let ghost toks = src.toks();
    let ghost i = src.pos();
    let route: u8 = match src.curr() {
        Some(Token::STRCONST(_)) => 1,
        Some(Token::INTCONST(_)) => 2,
        Some(Token::DOUBLECONST(_)) => 3,
        _ => 0,
    };
    if route == 1 {
        let s1 = match match_STRVAL(src) {
            Some(val) => val,
            None => {
                return None;
            },
        };
        if !match_terminal(src, Token::ADD) {
            return None;
        }
        let s2 = match match_STRVAL(src) {
            Some(val) => val,
            None => {
                return None;
            },
        };
        let node = Box::new(AstNode::ADD {
            left: Box::new(AstNode::STRVAL(s1)),
            right: Box::new(AstNode::STRVAL(s2)),
        });
        proof {
            reveal_with_fuel(ast_view, 2);
        }
        Some(node)
    } else if route == 2 {
        let i1 = match match_int(src) {
            Some(val) => val,
            None => {
                return None;
            },
        };
        if !match_terminal(src, Token::ADD) {
            return None;
        }
        let i2 = match match_int(src) {
            Some(val) => val,
            None => {
                return None;
            },
        };
        let node = Box::new(AstNode::ADD {
            left: Box::new(AstNode::INTVAL(i1)),
            right: Box::new(AstNode::INTVAL(i2)),
        });
        proof {
            reveal_with_fuel(ast_view, 2);
        }
        Some(node)
    } else if route == 3 {
        let d1 = match match_double(src) {
            Some(val) => val,
            None => {
                return None;
            },
        };
        if !match_terminal(src, Token::ADD) {
            return None;
        }
        let d2 = match match_double(src) {
            Some(val) => val,
            None => {
                return None;
            },
        };
        let node = Box::new(AstNode::ADD {
            left: Box::new(AstNode::DOUBLEVAL(d1)),
            right: Box::new(AstNode::DOUBLEVAL(d2)),
        });
        proof {
            reveal_with_fuel(ast_view, 2);
        }
        Some(node)
    } else {
        None
    }
}

/// Matches a list comprehension, per `parse_compre_spec`.  The bound
/// variable is consumed and validated, but the node keeps an empty name
/// in its place: the baseline behaviour of this grammar.
fn match_list_compre_expr(src: &mut TokenSrc) -> (r: Option<Box<AstNode>>)
    requires
        old(src).wf(),
    ensures
        cursor_ok(*old(src), *final(src)),
        node_result_matches(
            parse_compre_spec(old(src).toks(), old(src).pos()),
            r,
            *final(src),
        ),
    decreases src.toks().len() - src.pos(), 4int,
{
    let ghost toks = src.toks();
    let ghost i = src.pos();
    proof {
        lemma_adv_value(toks, i);
    }
    let expr = match match_value(src) {
        Some(val) => val,
        None => {
            return None;
        },
    };
    if !match_terminal(src, Token::FOR) {
        return None;
    }
    let _variable = match match_id(src) {
        Some(val) => val,
        None => {
            return None;
        },
    };
    if !match_terminal(src, Token::IN) {
        return None;
    }
    let list = match match_list(src) {
        Some(val) => val,
        None => {
            return None;
        },
    };
    Some(Box::new(AstNode::COMPRE { expr, var: String::new(), iter_expr: list }))
}

/// Matches a list, per `parse_list_spec`.
fn match_list(src: &mut TokenSrc) -> (r: Option<Box<AstNode>>)
    requires
        old(src).wf(),
    ensures
        cursor_ok(*old(src), *final(src)),
        node_result_matches(
            parse_list_spec(old(src).toks(), old(src).pos()),
            r,
            *final(src),
        ),
    decreases src.toks().len() - src.pos(), 1int,
{
    if !match_terminal(src, Token::LSQBRAC) {
        return None;
    }
    let empty = matches!(src.curr(), Some(Token::RSQBRAC));
    let list: Box<AstNode>;
    if empty {
        list = Box::new(AstNode::LIST(Vec::new()));
        proof {
            assert(nodes_view_from(Seq::<Box<AstNode>>::empty(), 0) =~= Seq::<AstS>::empty());
        }
    } else {
        let expr_list = match match_expr_list(src, Vec::new()) {
            Some(l) => l,
            None => {
                return None;
            },
        };
        list = Box::new(AstNode::LIST(expr_list));
    }
    if !match_terminal(src, Token::RSQBRAC) {
        return None;
    }
    Some(list)
}

/// Matches one or more comma-separated expressions, per
/// `parse_expr_list_spec`.
fn match_expr_list(src: &mut TokenSrc, list: Vec<Box<AstNode>>) -> (r: Option<
    Vec<Box<AstNode>>,
>)
    requires
        old(src).wf(),
    ensures
        cursor_ok(*old(src), *final(src)),
        match parse_expr_list_spec(
            old(src).toks(),
            old(src).pos(),
            nodes_view_from(list@, 0),
        ) {
            Some((items, j)) => r is Some && nodes_view_from((r->Some_0)@, 0) == items
                && final(src).pos() == j,
            None => r is None,
        },
    decreases src.toks().len() - src.pos(), 9int,
{
    let ghost toks = src.toks();
    let ghost i = src.pos();
    proof {
        lemma_adv_expr(toks, i);
    }
    let expr = match match_expr(src) {
        Some(e) => e,
        None => {
            return None;
        },
    };
    let mut list = list;
    let ghost lv = nodes_view_from(list@, 0);
    proof {
        crate::ast::lemma_nodes_view(list@, 0);
    }
    list.push(expr);
    proof {
        crate::ast::lemma_nodes_view(list@, 0);
        assert(nodes_view_from(list@, 0) =~= lv.push(ast_view(*list@.last())));
    }
    let more = matches!(src.curr(), Some(Token::COMMA));
    if !more {
        return Some(list);
    }
    if !match_terminal(src, Token::COMMA) {
        return None;
    }
    match_expr_list(src, list)
}

/// The declared optional further `for`-clause of a comprehension.  It
/// recognises the clause's shape and then rejects: the grammar keeps
/// multi-clause comprehensions outside the accepted language, and this
/// production documents that boundary.
#[allow(dead_code)]
fn match_opt_list_compre_expr(src: &mut TokenSrc) -> (r: Option<Box<AstNode>>)
    requires
        old(src).wf(),
    ensures
        cursor_ok(*old(src), *final(src)),
        r is None,
    decreases src.toks().len() - src.pos(), 4int,
{
    if !match_terminal(src, Token::FOR) {
        return None;
    }
    let _variable = match match_id(src) {
        Some(val) => val,
        None => {
            return None;
        },
    };
    if !match_terminal(src, Token::IN) {
        return None;
    }
    let _list = match match_list(src) {
        Some(val) => val,
        None => {
            return None;
        },
    };
    None
}

/// Matches the whole program: the root object at the cursor.
fn parse_workflow(src: &mut TokenSrc) -> (r: Option<Box<AstNode>>)
    requires
        old(src).wf(),
    ensures
        cursor_ok(*old(src), *final(src)),
        node_result_matches(
            parse_object_spec(old(src).toks(), old(src).pos()),
            r,
            *final(src),
        ),
{
    match_object(src)
}

/// What a successful parse yields: the root node and the (empty) symbol
/// table.
#[derive(Debug)]
pub struct ParserResult {
    /// The root of the syntax tree; an object for a well-formed program.
    pub root: Box<AstNode>,
    /// The symbol table: created empty, returned empty.
    pub tab: SymbolTable,
}

/// The parse failure: one opaque value, with no further detail and no
/// location, raised when a grammar rule and all its alternatives fail.
#[derive(Debug)]
pub struct ParserErr {}

impl ParserErr {
    /// The diagnostic text of a parse failure.
    pub fn message(&self) -> (r: String)
        ensures
            r@ == "parser error"@,
    {
        String::from_str("parser error")
    }
}

/// Parses a token sequence into the program's syntax tree and a fresh,
/// empty symbol table, exactly as `parse_tokens_spec` prescribes; tokens
/// after the root object are ignored.
pub fn parse_tokens(tokens: Vec<Token>) -> (r: Result<ParserResult, ParserErr>)
    ensures
        match parse_tokens_spec(tokens_view(tokens@)) {
            Some(n) => r is Ok && ast_view(*(r->Ok_0).root) == n && (r->Ok_0).tab@ == Seq::<
                (Seq<char>, SymS),
            >::empty(),
            None => r is Err,
        },
{
    let mut src = TokenSrc::from(tokens);
    match parse_workflow(&mut src) {
        Some(node) => Ok(ParserResult { root: node, tab: SymbolTable::new() }),
        None => Err(ParserErr {  }),
    }
}

} // verus!
