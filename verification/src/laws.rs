//! Laws of the library, stated once and proved against the scanner's and
//! the parser's specifications: what re-scanning a rendered literal
//! yields, the shape of a parsed program's root, the tree invariant that
//! every parsed object keeps unique keys, and the disambiguation ordering
//! of the grammar.

use vstd::prelude::*;
use crate::ast::{AstS, ast_wf, asts_wf_from, entries_wf_from, unique_keys, kv_insert, lemma_kv_insert_unique, lemma_kv_insert_wf, lemma_asts_wf_index};
use crate::num::{is_digit, is_digits, digits_val, dec_text, int_text, lemma_dec_text_val, lemma_digits_val_prefix};
use crate::scanner::{is_ws, token_match_spec, scan_spec, scan_spec_rec, move_forward_spec, MatchS, ScanErrS};
use crate::token::{TokS, tok_text};
use crate::parser::{parse_tokens_spec, parse_object_spec, parse_key_val_list_spec, parse_key_val_spec, parse_expr_list_spec, parse_expr_spec, parse_expr_both_spec, parse_jx_expr_spec, parse_jx_both_spec, parse_arith_spec, parse_compre_spec, parse_value_spec, parse_list_spec};

verus! {

/// A parsed program's root is always an object node: whichever way the
/// object rule succeeds, it builds an `OBJECT`.
pub proof fn lemma_root_is_object(toks: Seq<TokS>)
    ensures
        match parse_tokens_spec(toks) {
            Some(n) => n is OBJECT,
            None => true,
        },
{
}

/// Scanning one complete lexeme: when every proper prefix of `s` is still
/// extensible and `s` itself resolves to the token `t` (outright, or as
/// the candidate at the end of input), the scan yields exactly that one
/// token.
proof fn lemma_scan_one_token_rec(s: Seq<char>, t: TokS, k: int)
    requires
        1 <= k <= s.len(),
        forall|j: int| 1 <= j < s.len() ==> (#[trigger] token_match_spec(s.take(j))) is More,
        token_match_spec(s) == MatchS::Matched(t) || token_match_spec(s) == MatchS::More(
            Some(t),
        ),
    ensures
        scan_spec_rec(s.skip(k).reverse(), s.take(k), Seq::<TokS>::empty(), false) == Ok::<
            Seq<TokS>,
            ScanErrS,
        >(seq![t]),
    decreases s.len() - k,
{
    let src = s.skip(k).reverse();
    let matching = s.take(k);
    assert(matching.len() == k);
    if k == s.len() {
        assert(s.take(k) =~= s);
        assert(src.len() == 0);
        match token_match_spec(s) {
            MatchS::Matched(t0) => {
                assert(move_forward_spec(src, Seq::<char>::empty()) == (
                    src,
                    Seq::<char>::empty(),
                    false,
                ));
                assert(Seq::<TokS>::empty().push(t0) =~= seq![t]);
            },
            MatchS::More(opt) => {
                assert(Seq::<TokS>::empty().push(t) =~= seq![t]);
            },
            MatchS::No => {
                assert(false);
            },
        }
    } else {
        assert(token_match_spec(s.take(k)) is More);
        assert(src.len() == s.len() - k);
        assert(src.last() == s.skip(k)[0]);
        assert(src.last() == s[k]);
        assert(src.drop_last() =~= s.skip(k + 1).reverse()) by {
            assert(src.drop_last().len() == s.len() - k - 1);
            assert(forall|m: int|
                0 <= m < s.len() - k - 1 ==> #[trigger] src.drop_last()[m] == s[s.len() - 1 - m]);
            assert(forall|m: int|
                0 <= m < s.len() - k - 1 ==> #[trigger] s.skip(k + 1).reverse()[m] == s[s.len() - 1
                    - m]);
        }
        assert(matching.push(s[k]) =~= s.take(k + 1));
        lemma_scan_one_token_rec(s, t, k + 1);
    }
}

/// See `lemma_scan_one_token_rec`: the whole scan of one lexeme.
proof fn lemma_scan_one_token(s: Seq<char>, t: TokS)
    requires
        s.len() > 0,
        !is_ws(s[0]),
        forall|j: int| 1 <= j < s.len() ==> (#[trigger] token_match_spec(s.take(j))) is More,
        token_match_spec(s) == MatchS::Matched(t) || token_match_spec(s) == MatchS::More(
            Some(t),
        ),
    ensures
        scan_spec(s) == Ok::<Seq<TokS>, ScanErrS>(seq![t]),
{
    let src0 = s.reverse();
    assert(src0.len() == s.len());
    assert(src0.last() == s[0]);
    assert(!is_ws(src0.last()));
    assert(src0.drop_last() =~= s.skip(1).reverse()) by {
        assert(src0.drop_last().len() == s.len() - 1);
        assert(forall|m: int|
            0 <= m < s.len() - 1 ==> #[trigger] src0.drop_last()[m] == s[s.len() - 1 - m]);
        assert(forall|m: int|
            0 <= m < s.len() - 1 ==> #[trigger] s.skip(1).reverse()[m] == s[s.len() - 1 - m]);
    }
    assert(move_forward_spec(src0, Seq::<char>::empty()) == (
        s.skip(1).reverse(),
        Seq::<char>::empty().push(s[0]),
        true,
    ));
    assert(Seq::<char>::empty().push(s[0]) =~= s.take(1));
    lemma_scan_one_token_rec(s, t, 1);
}


/// Idempotent integer rendering: re-scanning an integer literal's text
/// yields exactly that one integer token.  (The one magnitude the scanner
/// itself can never produce, the most negative 32-bit value, is left out.)
pub proof fn lemma_rescan_int(v: i32)
    requires
        v != i32::MIN,
    ensures
        scan_spec(tok_text(TokS::INTCONST(v as int))) == Ok::<Seq<TokS>, ScanErrS>(
            seq![TokS::INTCONST(v as int)],
        ),
{
    if v >= 0 {
        let s = dec_text(v as nat);
        lemma_dec_text_val(v as nat);
        assert(int_text(v as int) == s);
        assert(is_digit(s[0]));
        assert(!is_ws(s[0]));
        assert forall|j: int| 1 <= j < s.len() implies (#[trigger] token_match_spec(
            s.take(j),
        )) is More by {
            let p = s.take(j);
            assert(p[0] == s[0]);
            assert(forall|m: int| 0 <= m < p.len() ==> #[trigger] p[m] == s[m]);
            assert(is_digits(p));
            lemma_digits_val_prefix(s, j);
            assert(p =~= s.subrange(0, j));
            assert(digits_val(p) <= i32::MAX);
        }
        assert(token_match_spec(s) == MatchS::More(Some(TokS::INTCONST(v as int)))) by {
            assert(is_digits(s) && digits_val(s) == v as nat);
        }
        lemma_scan_one_token(s, TokS::INTCONST(v as int));
    } else {
        let m = (-(v as int)) as nat;
        let d = dec_text(m);
        lemma_dec_text_val(m);
        let s = seq!['-'] + d;
        assert(int_text(v as int) == s);
        assert(s[0] == '-');
        assert(!is_ws(s[0]));
        assert(s.len() == d.len() + 1);
        assert forall|j: int| 1 <= j < s.len() implies (#[trigger] token_match_spec(
            s.take(j),
        )) is More by {
            let p = s.take(j);
            assert(p[0] == '-');
            if j == 1 {
                assert(p.len() == 1);
            } else {
                let q = p.skip(1);
                assert(q =~= d.subrange(0, j - 1));
                assert(forall|k: int| 0 <= k < q.len() ==> #[trigger] q[k] == d[k]);
                assert(is_digits(q));
                lemma_digits_val_prefix(d, j - 1);
                assert(digits_val(q) <= i32::MAX);
                assert(q.len() > 0);
                assert(token_match_spec(p) == MatchS::More(
                    Some(TokS::INTCONST(-(digits_val(q) as int))),
                ));
            }
        }
        assert(token_match_spec(s) == MatchS::More(Some(TokS::INTCONST(v as int)))) by {
            let q = s.skip(1);
            assert(q =~= d);
            assert(is_digits(q) && digits_val(q) == m);
            assert(digits_val(q) <= i32::MAX);
            assert(-(m as int) == v as int);
        }
        lemma_scan_one_token(s, TokS::INTCONST(v as int));
    }
}

/// Idempotent double rendering, fractional form: re-scanning the text
/// `a.b` (integer part small enough for the scanner to have passed it as
/// an extensible integer first) yields exactly that one double token.
pub proof fn lemma_rescan_double_frac(a: Seq<char>, b: Seq<char>)
    requires
        is_digits(a),
        a.len() >= 1,
        digits_val(a) <= i32::MAX,
        is_digits(b),
        b.len() >= 1,
    ensures
        ({
            let s = a + seq!['.'] + b;
            scan_spec(tok_text(TokS::DOUBLECONST(s))) == Ok::<Seq<TokS>, ScanErrS>(
                seq![TokS::DOUBLECONST(s)],
            )
        }),
{
    let s = a + seq!['.'] + b;
    let alen = a.len() as int;
    assert(s.len() == a.len() + 1 + b.len());
    assert(s[alen] == '.');
    assert(forall|m: int| 0 <= m < alen ==> #[trigger] s[m] == a[m]);
    assert(forall|m: int| alen + 1 <= m < s.len() ==> #[trigger] s[m] == b[m - alen - 1]);
    assert(is_digit(s[0]));
    assert(!is_ws(s[0]));
    assert forall|j: int| 1 <= j < s.len() implies (#[trigger] token_match_spec(
        s.take(j),
    )) is More by {
        let p = s.take(j);
        assert(forall|m: int| 0 <= m < j ==> #[trigger] p[m] == s[m]);
        assert(is_digit(p[0]));
        if j <= alen {
            assert(p =~= a.subrange(0, j));
            assert(is_digits(p));
            lemma_digits_val_prefix(a, j);
            assert(digits_val(p) <= i32::MAX);
        } else if j == alen + 1 {
            assert(p.last() == '.');
            assert(p.drop_last() =~= a);
            assert(!is_digit(p[alen]));
            assert(!(is_digits(p) && digits_val(p) <= i32::MAX));
            assert(p.len() > 1);
            assert(token_match_spec(p) == MatchS::More(None));
        } else {
            assert(!is_digit(p[alen]));
            assert(!is_digits(p));
            assert(p.last() == s[j - 1]);
            assert(is_digit(p.last()));
            assert(p.last() != '.');
            assert(crate::scanner::is_double_text(p)) by {
                crate::scanner::lemma_digits_end_is(p, 0, alen);
                crate::scanner::lemma_digits_end_is(p, alen + 1, p.len() as int);
            }
            assert(token_match_spec(p) == MatchS::More(Some(TokS::DOUBLECONST(p))));
        }
    }
    assert(token_match_spec(s) == MatchS::More(Some(TokS::DOUBLECONST(s)))) by {
        assert(!is_digit(s[alen]));
        assert(!is_digits(s));
        assert(s.last() == b.last());
        assert(is_digit(s.last()));
        assert(s.last() != '.');
        assert(crate::scanner::is_double_text(s)) by {
            crate::scanner::lemma_digits_end_is(s, 0, alen);
            crate::scanner::lemma_digits_end_is(s, alen + 1, s.len() as int);
        }
    }
    lemma_scan_one_token(s, TokS::DOUBLECONST(s));
}

/// Idempotent double rendering, plain-digit form: a digit string too
/// large for a 32-bit integer is one double token, and re-scanning its
/// text yields it again.
pub proof fn lemma_rescan_double_big(t: Seq<char>)
    requires
        is_digits(t),
        t.len() >= 1,
        digits_val(t) > i32::MAX,
    ensures
        scan_spec(tok_text(TokS::DOUBLECONST(t))) == Ok::<Seq<TokS>, ScanErrS>(
            seq![TokS::DOUBLECONST(t)],
        ),
{
    assert(is_digit(t[0]));
    assert(!is_ws(t[0]));
    assert forall|j: int| 1 <= j < t.len() implies (#[trigger] token_match_spec(
        t.take(j),
    )) is More by {
        let p = t.take(j);
        assert(forall|m: int| 0 <= m < j ==> #[trigger] p[m] == t[m]);
        assert(is_digits(p));
        assert(is_digit(p[0]));
        assert(p.last() == t[j - 1]);
        assert(p.last() != '.');
        if digits_val(p) <= i32::MAX {
        } else {
            assert(crate::scanner::is_double_text(p)) by {
                crate::scanner::lemma_digits_end_is(p, 0, p.len() as int);
            }
            assert(token_match_spec(p) == MatchS::More(Some(TokS::DOUBLECONST(p))));
        }
    }
    assert(token_match_spec(t) == MatchS::More(Some(TokS::DOUBLECONST(t)))) by {
        assert(t.last() != '.');
        assert(crate::scanner::is_double_text(t)) by {
            crate::scanner::lemma_digits_end_is(t, 0, t.len() as int);
        }
    }
    lemma_scan_one_token(t, TokS::DOUBLECONST(t));
}

/// Idempotent double rendering, negative plain-digit form: the sign
/// followed by a digit string too large for a 32-bit integer is one
/// double token, and re-scanning its text yields it again.
pub proof fn lemma_rescan_double_neg_big(t: Seq<char>)
    requires
        is_digits(t),
        t.len() >= 1,
        digits_val(t) > i32::MAX,
    ensures
        scan_spec(tok_text(TokS::DOUBLECONST(seq!['-'] + t))) == Ok::<Seq<TokS>, ScanErrS>(
            seq![TokS::DOUBLECONST(seq!['-'] + t)],
        ),
{
    let s = seq!['-'] + t;
    assert(s[0] == '-');
    assert(!is_ws(s[0]));
    assert(forall|m: int| 1 <= m < s.len() ==> #[trigger] s[m] == t[m - 1]);
    assert forall|j: int| 1 <= j < s.len() implies (#[trigger] token_match_spec(
        s.take(j),
    )) is More by {
        let p = s.take(j);
        assert(forall|m: int| 0 <= m < j ==> #[trigger] p[m] == s[m]);
        assert(p[0] == '-');
        if j == 1 {
            assert(p.len() == 1);
        } else {
            let q = p.skip(1);
            assert(q =~= t.subrange(0, j - 1));
            assert(forall|m: int| 0 <= m < q.len() ==> #[trigger] q[m] == t[m]);
            assert(is_digits(q));
            assert(q.len() > 0);
            assert(q.last() != '.');
            if digits_val(q) <= i32::MAX {
                assert(token_match_spec(p) == MatchS::More(
                    Some(TokS::INTCONST(-(digits_val(q) as int))),
                ));
            } else {
                assert(crate::scanner::is_double_text(q)) by {
                    crate::scanner::lemma_digits_end_is(q, 0, q.len() as int);
                }
                assert(token_match_spec(p) == MatchS::More(Some(TokS::DOUBLECONST(p))));
            }
        }
    }
    assert(token_match_spec(s) == MatchS::More(Some(TokS::DOUBLECONST(s)))) by {
        let q = s.skip(1);
        assert(q =~= t);
        assert(q.last() != '.');
        assert(crate::scanner::is_double_text(q)) by {
            crate::scanner::lemma_digits_end_is(q, 0, q.len() as int);
        }
    }
    lemma_scan_one_token(s, TokS::DOUBLECONST(s));
}

/// Idempotent string rendering: re-scanning a string literal's source
/// form — its content between two quote marks of one kind — yields
/// exactly that one string token, whatever the content holds, as long as
/// it does not hold the delimiting quote itself.
pub proof fn lemma_rescan_string(content: Seq<char>, q: char)
    requires
        q == '"' || q == '\'',
        forall|m: int| 0 <= m < content.len() ==> #[trigger] content[m] != q,
    ensures
        scan_spec(seq![q] + content + seq![q]) == Ok::<Seq<TokS>, ScanErrS>(
            seq![TokS::STRCONST(content)],
        ),
{
    let s = seq![q] + content + seq![q];
    let n = content.len() as int;
    assert(s.len() == n + 2);
    assert(s[0] == q);
    assert(!is_ws(s[0]));
    assert(forall|m: int| 1 <= m < n + 1 ==> #[trigger] s[m] == content[m - 1]);
    assert(s[n + 1] == q);
    assert forall|j: int| 1 <= j < s.len() implies (#[trigger] token_match_spec(
        s.take(j),
    )) is More by {
        let p = s.take(j);
        assert(forall|m: int| 0 <= m < j ==> #[trigger] p[m] == s[m]);
        assert(p[0] == q);
        if j == 1 {
            assert(p.len() == 1);
            assert(token_match_spec(p) == MatchS::More(None));
        } else {
            assert(p.last() == s[j - 1]);
            assert(p.last() == content[j - 2]);
            assert(p.last() != q);
            assert(token_match_spec(p) == MatchS::More(None));
        }
    }
    assert(token_match_spec(s) == MatchS::Matched(TokS::STRCONST(content))) by {
        assert(s.last() == q);
        assert(s.len() > 1);
        assert(s.subrange(1, s.len() - 1) =~= content);
    }
    lemma_scan_one_token(s, TokS::STRCONST(content));
}

/// Idempotent boolean rendering: re-scanning `true` or `false` yields
/// exactly that one boolean token.
pub proof fn lemma_rescan_bool(b: bool)
    ensures
        scan_spec(tok_text(TokS::BOOLCONST(b))) == Ok::<Seq<TokS>, ScanErrS>(
            seq![TokS::BOOLCONST(b)],
        ),
{
    reveal_strlit("true");
    reveal_strlit("false");
    reveal_strlit("for");
    reveal_strlit("null");
    reveal_strlit("in");
    reveal_strlit("if");
    if b {
        let s = "true"@;
        assert(s.len() == 4);
        assert forall|j: int| 1 <= j < s.len() implies (#[trigger] token_match_spec(
            s.take(j),
        )) is More by {
            let p = s.take(j);
            assert(forall|m: int| 0 <= m < j ==> #[trigger] p[m] == s[m]);
            assert(p[0] == 't');
            assert(p != "false"@ && p != "for"@ && p != "true"@ && p != "null"@ && p != "in"@ && p
                != "if"@);
            assert(forall|m: int| 0 <= m < p.len() ==> crate::scanner::is_id_char(#[trigger] p[m]));
        }
        assert(token_match_spec(s) == MatchS::More(Some(TokS::BOOLCONST(true)))) by {
            assert(s[0] == 't');
            assert(s != "false"@ && s != "for"@);
            assert(s == "true"@);
        }
        lemma_scan_one_token(s, TokS::BOOLCONST(true));
    } else {
        let s = "false"@;
        assert(s.len() == 5);
        assert forall|j: int| 1 <= j < s.len() implies (#[trigger] token_match_spec(
            s.take(j),
        )) is More by {
            let p = s.take(j);
            assert(forall|m: int| 0 <= m < j ==> #[trigger] p[m] == s[m]);
            assert(p[0] == 'f');
            assert(p != "false"@ && p != "for"@ && p != "true"@ && p != "null"@ && p != "in"@ && p
                != "if"@);
            assert(forall|m: int| 0 <= m < p.len() ==> crate::scanner::is_id_char(#[trigger] p[m]));
        }
        assert(token_match_spec(s) == MatchS::More(Some(TokS::BOOLCONST(false)))) by {
            assert(s[0] == 'f');
            assert(s == "false"@);
        }
        lemma_scan_one_token(s, TokS::BOOLCONST(false));
    }
}


/// Disambiguation, first half: a literal that could begin either an
/// arithmetic expression or a comprehension is read as the arithmetic
/// expression when `+` follows — the arithmetic attempt comes first.
pub proof fn lemma_prefer_arith(toks: Seq<TokS>, i: int)
    requires
        0 <= i,
        i + 2 < toks.len(),
        toks[i] is STRCONST,
        toks[i + 1] is ADD,
        toks[i + 2] is STRCONST,
    ensures
        parse_expr_spec(toks, i) == Some(
            (
                AstS::ADD {
                    left: Box::new(AstS::STRVAL(toks[i]->STRCONST_0)),
                    right: Box::new(AstS::STRVAL(toks[i + 2]->STRCONST_0)),
                },
                i + 3,
            ),
        ),
{
    let node = AstS::ADD {
        left: Box::new(AstS::STRVAL(toks[i]->STRCONST_0)),
        right: Box::new(AstS::STRVAL(toks[i + 2]->STRCONST_0)),
    };
    assert(parse_arith_spec(toks, i) == Some((node, i + 3)));
    assert(parse_jx_both_spec(toks, i) == Some((node, i + 3)));
    assert(parse_jx_expr_spec(toks, i) == Some((node, i + 3)));
    assert(parse_expr_both_spec(toks, i) == Some((node, i + 3)));
}

/// Disambiguation, second half: the same literal falls through to the
/// list comprehension when `for` follows instead — the arithmetic attempt
/// fails without consuming anything and the comprehension is tried next.
pub proof fn lemma_prefer_compre(toks: Seq<TokS>, i: int)
    requires
        0 <= i,
        i + 3 < toks.len(),
        toks[i] is STRCONST,
        toks[i + 1] is FOR,
        toks[i + 2] is ID,
        toks[i + 3] is IN,
        parse_list_spec(toks, i + 4) is Some,
    ensures
        ({
            let (lst, k) = parse_list_spec(toks, i + 4)->Some_0;
            parse_expr_spec(toks, i) == Some(
                (
                    AstS::COMPRE {
                        expr: Box::new(AstS::STRVAL(toks[i]->STRCONST_0)),
                        var: Seq::<char>::empty(),
                        iter_expr: Box::new(lst),
                    },
                    k,
                ),
            )
        }),
{
    assert(parse_arith_spec(toks, i) is None);
    assert(parse_value_spec(toks, i) == Some((AstS::STRVAL(toks[i]->STRCONST_0), i + 1)));
    let (lst, k) = parse_list_spec(toks, i + 4)->Some_0;
    let node = AstS::COMPRE {
        expr: Box::new(AstS::STRVAL(toks[i]->STRCONST_0)),
        var: Seq::<char>::empty(),
        iter_expr: Box::new(lst),
    };
    assert(parse_compre_spec(toks, i) == Some((node, k)));
    assert(parse_jx_both_spec(toks, i) == Some((node, k)));
    assert(parse_jx_expr_spec(toks, i) == Some((node, k)));
    assert(parse_expr_both_spec(toks, i) == Some((node, k)));
}


/// Every tree the grammar yields is well-formed: each object anywhere in
/// it holds unique keys.  One claim per grammar rule, proved together.
pub proof fn lemma_wf_object(toks: Seq<TokS>, i: int)
    ensures
        match parse_object_spec(toks, i) {
            Some((n, j)) => ast_wf(n),
            None => true,
        },
    decreases toks.len() - i, 1int,
{
    if 0 <= i < toks.len() && toks[i] is LBRAC {
        let j = i + 1;
        if j < toks.len() && toks[j] is RBRAC {
            assert(unique_keys(Seq::<(Seq<char>, AstS)>::empty()));
            assert(entries_wf_from(Seq::<(Seq<char>, AstS)>::empty(), 0));
            assert(ast_wf(AstS::OBJECT(Seq::<(Seq<char>, AstS)>::empty())));
        } else {
            lemma_wf_key_val_list(toks, j, Seq::empty());
        }
    }
}

/// See `lemma_wf_object`.
pub proof fn lemma_wf_key_val_list(toks: Seq<TokS>, i: int, acc: Seq<(Seq<char>, AstS)>)
    requires
        unique_keys(acc),
        entries_wf_from(acc, 0),
    ensures
        match parse_key_val_list_spec(toks, i, acc) {
            Some((pairs, j)) => unique_keys(pairs) && entries_wf_from(pairs, 0),
            None => true,
        },
    decreases toks.len() - i, 10int,
{
    lemma_wf_key_val(toks, i);
    crate::parser::lemma_adv_key_val(toks, i);
    match parse_key_val_spec(toks, i) {
        Some((kv, j)) => {
            let acc2 = kv_insert(acc, kv.0, kv.1);
            lemma_kv_insert_unique(acc, kv.0, kv.1);
            lemma_kv_insert_wf(acc, kv.0, kv.1);
            if j < toks.len() && toks[j] is COMMA {
                if i < j && j + 1 <= toks.len() {
                    lemma_wf_key_val_list(toks, j + 1, acc2);
                }
            }
        },
        None => {},
    }
}

/// See `lemma_wf_object`.
pub proof fn lemma_wf_key_val(toks: Seq<TokS>, i: int)
    ensures
        match parse_key_val_spec(toks, i) {
            Some((kv, j)) => ast_wf(kv.1),
            None => true,
        },
    decreases toks.len() - i, 9int,
{
    if 0 <= i < toks.len() && toks[i] is STRCONST {
        if i + 1 < toks.len() && toks[i + 1] is COLON {
            lemma_wf_expr(toks, i + 2);
        }
    }
}

/// See `lemma_wf_object`.
pub proof fn lemma_wf_expr(toks: Seq<TokS>, i: int)
    ensures
        match parse_expr_spec(toks, i) {
            Some((n, j)) => ast_wf(n),
            None => true,
        },
    decreases toks.len() - i, 8int,
{
    if 0 <= i < toks.len() {
        lemma_wf_jx_expr(toks, i);
        lemma_wf_expr_both(toks, i);
    }
}

/// See `lemma_wf_object`.
pub proof fn lemma_wf_expr_both(toks: Seq<TokS>, i: int)
    ensures
        match parse_expr_both_spec(toks, i) {
            Some((n, j)) => ast_wf(n),
            None => true,
        },
    decreases toks.len() - i, 7int,
{
    lemma_wf_jx_expr(toks, i);
    lemma_wf_value(toks, i);
}

/// See `lemma_wf_object`.
pub proof fn lemma_wf_jx_expr(toks: Seq<TokS>, i: int)
    ensures
        match parse_jx_expr_spec(toks, i) {
            Some((n, j)) => ast_wf(n),
            None => true,
        },
    decreases toks.len() - i, 6int,
{
    if 0 <= i < toks.len() {
        lemma_wf_jx_both(toks, i);
        lemma_wf_compre(toks, i);
    }
}

/// See `lemma_wf_object`.
pub proof fn lemma_wf_jx_both(toks: Seq<TokS>, i: int)
    ensures
        match parse_jx_both_spec(toks, i) {
            Some((n, j)) => ast_wf(n),
            None => true,
        },
    decreases toks.len() - i, 5int,
{
    lemma_wf_arith(toks, i);
    lemma_wf_compre(toks, i);
}

/// See `lemma_wf_object`.
pub proof fn lemma_wf_arith(toks: Seq<TokS>, i: int)
    ensures
        match parse_arith_spec(toks, i) {
            Some((n, j)) => ast_wf(n),
            None => true,
        },
    decreases toks.len() - i, 3int,
{
    reveal_with_fuel(ast_wf, 2);
}

/// See `lemma_wf_object`.
pub proof fn lemma_wf_compre(toks: Seq<TokS>, i: int)
    ensures
        match parse_compre_spec(toks, i) {
            Some((n, j)) => ast_wf(n),
            None => true,
        },
    decreases toks.len() - i, 4int,
{
    lemma_wf_value(toks, i);
    crate::parser::lemma_adv_value(toks, i);
    match parse_value_spec(toks, i) {
        Some((v, j)) => {
            if j < toks.len() && toks[j] is FOR && j + 1 < toks.len() && toks[j + 1] is ID && j + 2
                < toks.len() && toks[j + 2] is IN && i < j {
                lemma_wf_list(toks, j + 3);
            }
        },
        None => {},
    }
}

/// See `lemma_wf_object`.
pub proof fn lemma_wf_value(toks: Seq<TokS>, i: int)
    ensures
        match parse_value_spec(toks, i) {
            Some((n, j)) => ast_wf(n),
            None => true,
        },
    decreases toks.len() - i, 2int,
{
    if 0 <= i < toks.len() {
        lemma_wf_object(toks, i);
        lemma_wf_list(toks, i);
    }
}

/// See `lemma_wf_object`.
pub proof fn lemma_wf_list(toks: Seq<TokS>, i: int)
    ensures
        match parse_list_spec(toks, i) {
            Some((n, j)) => ast_wf(n),
            None => true,
        },
    decreases toks.len() - i, 1int,
{
    if 0 <= i < toks.len() && toks[i] is LSQBRAC {
        let j = i + 1;
        if j < toks.len() && toks[j] is RSQBRAC {
            assert(asts_wf_from(Seq::<AstS>::empty(), 0));
            assert(ast_wf(AstS::LIST(Seq::<AstS>::empty())));
        } else {
            lemma_wf_expr_list(toks, j, Seq::empty());
        }
    }
}

/// See `lemma_wf_object`.
pub proof fn lemma_wf_expr_list(toks: Seq<TokS>, i: int, acc: Seq<AstS>)
    requires
        asts_wf_from(acc, 0),
    ensures
        match parse_expr_list_spec(toks, i, acc) {
            Some((items, j)) => asts_wf_from(items, 0),
            None => true,
        },
    decreases toks.len() - i, 9int,
{
    lemma_wf_expr(toks, i);
    crate::parser::lemma_adv_expr(toks, i);
    match parse_expr_spec(toks, i) {
        Some((v, j)) => {
            let acc2 = acc.push(v);
            assert(asts_wf_from(acc2, 0)) by {
                lemma_asts_wf_index(acc, 0);
                lemma_asts_wf_index(acc2, 0);
                assert(forall|m: int| 0 <= m < acc.len() ==> acc2[m] == acc[m]);
                assert(acc2[acc.len() as int] == v);
            }
            if j < toks.len() && toks[j] is COMMA {
                if i < j && j + 1 <= toks.len() {
                    lemma_wf_expr_list(toks, j + 1, acc2);
                }
            }
        },
        None => {},
    }
}

/// The tree invariant of the whole parse: whatever program the parser
/// accepts, every object in its tree holds unique keys.
pub proof fn lemma_parse_tokens_wf(toks: Seq<TokS>)
    ensures
        match parse_tokens_spec(toks) {
            Some(n) => ast_wf(n),
            None => true,
        },
{
    lemma_wf_object(toks, 0);
}

} // verus!
