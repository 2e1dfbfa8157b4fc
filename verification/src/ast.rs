//! The syntax tree of the JX language: a closed set of node kinds, each
//! node exclusively owning its children.
//!
//! An object holds its key/value pairs in an order-preserving vector with
//! unique keys; inserting a duplicate key overwrites the earlier value in
//! place (last write wins), never rejects.  A floating-point literal node
//! carries its source text, as the corresponding token does.  The data
//! model deliberately declares more structure than the grammar can build:
//! thirteen further binary-operation kinds and the `FUNC` node document the
//! intended language superset and stay unreachable from the parser.

use vstd::prelude::*;

verus! {

broadcast use vstd::std_specs::vec::axiom_vec_index_decreases, vstd::std_specs::vec::axiom_vec_decreases_to_view, vstd::seq::axiom_seq_index_decreases;

/// A node of the syntax tree.
#[allow(missing_docs)]
#[derive(Debug)]
pub enum AstNode {
    INTVAL(i32),
    /// A floating-point literal, carried as its source text.
    DOUBLEVAL(String),
    STRVAL(String),
    BOOLVAL(bool),
    NULLVAL,
    /// Key/value pairs in insertion order; keys are unique.
    OBJECT(Vec<(String, Box<AstNode>)>),
    /// An ordered sequence of nodes; order is significant.
    LIST(Vec<Box<AstNode>>),
    /// A bare identifier reference, with no binding information.
    VAR(String),
    ADD { left: Box<AstNode>, right: Box<AstNode> },
    SUB { left: Box<AstNode>, right: Box<AstNode> },
    MUL { left: Box<AstNode>, right: Box<AstNode> },
    DIV { left: Box<AstNode>, right: Box<AstNode> },
    MOD { left: Box<AstNode>, right: Box<AstNode> },
    AND { left: Box<AstNode>, right: Box<AstNode> },
    OR { left: Box<AstNode>, right: Box<AstNode> },
    EQ { left: Box<AstNode>, right: Box<AstNode> },
    NE { left: Box<AstNode>, right: Box<AstNode> },
    GT { left: Box<AstNode>, right: Box<AstNode> },
    GE { left: Box<AstNode>, right: Box<AstNode> },
    LT { left: Box<AstNode>, right: Box<AstNode> },
    LE { left: Box<AstNode>, right: Box<AstNode> },
    /// A list comprehension: result expression, bound variable name, and
    /// the iterated expression.
    COMPRE { expr: Box<AstNode>, var: String, iter_expr: Box<AstNode> },
    /// A function application (reserved: the grammar cannot produce it).
    FUNC { name: String, params: Vec<Box<AstNode>> },
}

/// The mathematical value of a syntax tree: strings as character
/// sequences, integers as unbounded integers, children as sequences.
#[allow(missing_docs)]
pub enum AstS {
    INTVAL(int),
    DOUBLEVAL(Seq<char>),
    STRVAL(Seq<char>),
    BOOLVAL(bool),
    NULLVAL,
    OBJECT(Seq<(Seq<char>, AstS)>),
    LIST(Seq<AstS>),
    VAR(Seq<char>),
    ADD { left: Box<AstS>, right: Box<AstS> },
    SUB { left: Box<AstS>, right: Box<AstS> },
    MUL { left: Box<AstS>, right: Box<AstS> },
    DIV { left: Box<AstS>, right: Box<AstS> },
    MOD { left: Box<AstS>, right: Box<AstS> },
    AND { left: Box<AstS>, right: Box<AstS> },
    OR { left: Box<AstS>, right: Box<AstS> },
    EQ { left: Box<AstS>, right: Box<AstS> },
    NE { left: Box<AstS>, right: Box<AstS> },
    GT { left: Box<AstS>, right: Box<AstS> },
    GE { left: Box<AstS>, right: Box<AstS> },
    LT { left: Box<AstS>, right: Box<AstS> },
    LE { left: Box<AstS>, right: Box<AstS> },
    COMPRE { expr: Box<AstS>, var: Seq<char>, iter_expr: Box<AstS> },
    FUNC { name: Seq<char>, params: Seq<AstS> },
}

/// The views of the list elements `v[i..]`, in order.
pub open spec fn nodes_view_from(v: Seq<Box<AstNode>>, i: int) -> Seq<AstS>
    decreases v, v.len() - i,
{
    if i < 0 || i >= v.len() {
        Seq::empty()
    } else {
        seq![ast_view(*v[i])] + nodes_view_from(v, i + 1)
    }
}

/// The views of the key/value pairs `v[i..]`, in order.
pub open spec fn entries_view_from(v: Seq<(String, Box<AstNode>)>, i: int) -> Seq<
    (Seq<char>, AstS),
>
    decreases v, v.len() - i,
{
    if i < 0 || i >= v.len() {
        Seq::empty()
    } else {
        seq![(v[i].0@, ast_view(*v[i].1))] + entries_view_from(v, i + 1)
    }
}

/// The mathematical value of a node.
pub open spec fn ast_view(n: AstNode) -> AstS
    decreases n, 0int,
{
    match n {
        AstNode::INTVAL(i) => AstS::INTVAL(i as int),
        AstNode::DOUBLEVAL(t) => AstS::DOUBLEVAL(t@),
        AstNode::STRVAL(s) => AstS::STRVAL(s@),
        AstNode::BOOLVAL(b) => AstS::BOOLVAL(b),
        AstNode::NULLVAL => AstS::NULLVAL,
        AstNode::OBJECT(pairs) => AstS::OBJECT(entries_view_from(pairs@, 0)),
        AstNode::LIST(items) => AstS::LIST(nodes_view_from(items@, 0)),
        AstNode::VAR(name) => AstS::VAR(name@),
        AstNode::ADD { left, right } => AstS::ADD {
            left: Box::new(ast_view(*left)),
            right: Box::new(ast_view(*right)),
        },
        AstNode::SUB { left, right } => AstS::SUB {
            left: Box::new(ast_view(*left)),
            right: Box::new(ast_view(*right)),
        },
        AstNode::MUL { left, right } => AstS::MUL {
            left: Box::new(ast_view(*left)),
            right: Box::new(ast_view(*right)),
        },
        AstNode::DIV { left, right } => AstS::DIV {
            left: Box::new(ast_view(*left)),
            right: Box::new(ast_view(*right)),
        },
        AstNode::MOD { left, right } => AstS::MOD {
            left: Box::new(ast_view(*left)),
            right: Box::new(ast_view(*right)),
        },
        AstNode::AND { left, right } => AstS::AND {
            left: Box::new(ast_view(*left)),
            right: Box::new(ast_view(*right)),
        },
        AstNode::OR { left, right } => AstS::OR {
            left: Box::new(ast_view(*left)),
            right: Box::new(ast_view(*right)),
        },
        AstNode::EQ { left, right } => AstS::EQ {
            left: Box::new(ast_view(*left)),
            right: Box::new(ast_view(*right)),
        },
        AstNode::NE { left, right } => AstS::NE {
            left: Box::new(ast_view(*left)),
            right: Box::new(ast_view(*right)),
        },
        AstNode::GT { left, right } => AstS::GT {
            left: Box::new(ast_view(*left)),
            right: Box::new(ast_view(*right)),
        },
        AstNode::GE { left, right } => AstS::GE {
            left: Box::new(ast_view(*left)),
            right: Box::new(ast_view(*right)),
        },
        AstNode::LT { left, right } => AstS::LT {
            left: Box::new(ast_view(*left)),
            right: Box::new(ast_view(*right)),
        },
        AstNode::LE { left, right } => AstS::LE {
            left: Box::new(ast_view(*left)),
            right: Box::new(ast_view(*right)),
        },
        AstNode::COMPRE { expr, var, iter_expr } => AstS::COMPRE {
            expr: Box::new(ast_view(*expr)),
            var: var@,
            iter_expr: Box::new(ast_view(*iter_expr)),
        },
        AstNode::FUNC { name, params } => AstS::FUNC {
            name: name@,
            params: nodes_view_from(params@, 0),
        },
    }
}

impl View for AstNode {
    type V = AstS;

    open spec fn view(&self) -> AstS {
        ast_view(*self)
    }
}

impl AstNode {
    /// The node is an integer literal.
    pub fn is_int(&self) -> (r: bool)
        ensures
            r == (self@ is INTVAL),
    {
        matches!(self, AstNode::INTVAL(_))
    }

    /// The node is a floating-point literal.
    pub fn is_double(&self) -> (r: bool)
        ensures
            r == (self@ is DOUBLEVAL),
    {
        matches!(self, AstNode::DOUBLEVAL(_))
    }

    /// The node is a string literal.
    pub fn is_str(&self) -> (r: bool)
        ensures
            r == (self@ is STRVAL),
    {
        matches!(self, AstNode::STRVAL(_))
    }

    /// The node is a boolean literal.
    pub fn is_bool(&self) -> (r: bool)
        ensures
            r == (self@ is BOOLVAL),
    {
        matches!(self, AstNode::BOOLVAL(_))
    }

    /// The node is an object.
    pub fn is_obj(&self) -> (r: bool)
        ensures
            r == (self@ is OBJECT),
    {
        matches!(self, AstNode::OBJECT(_))
    }

    /// The node is a list.
    pub fn is_list(&self) -> (r: bool)
        ensures
            r == (self@ is LIST),
    {
        matches!(self, AstNode::LIST(_))
    }

    /// The node is a variable reference.
    pub fn is_var(&self) -> (r: bool)
        ensures
            r == (self@ is VAR),
    {
        matches!(self, AstNode::VAR(_))
    }

    /// The node is a list comprehension.
    pub fn is_list_compre(&self) -> (r: bool)
        ensures
            r == (self@ is COMPRE),
    {
        matches!(self, AstNode::COMPRE { .. })
    }
}

/// Inserting into an object's pairs: a pair with the same key is
/// overwritten in place (last write wins, insertion order kept); a new key
/// goes to the end.
pub open spec fn kv_insert(
    pairs: Seq<(Seq<char>, AstS)>,
    k: Seq<char>,
    v: AstS,
) -> Seq<(Seq<char>, AstS)>
    decreases pairs.len(),
{
    if pairs.len() == 0 {
        seq![(k, v)]
    } else if pairs.first().0 == k {
        seq![(k, v)] + pairs.drop_first()
    } else {
        seq![pairs.first()] + kv_insert(pairs.drop_first(), k, v)
    }
}


/// Lengths and elements of the viewed pair list.
pub proof fn lemma_entries_view(v: Seq<(String, Box<AstNode>)>, i: int)
    requires
        0 <= i <= v.len(),
    ensures
        entries_view_from(v, i).len() == v.len() - i,
        forall|k: int|
            0 <= k < v.len() - i ==> #[trigger] entries_view_from(v, i)[k] == (
                v[i + k].0@,
                ast_view(*v[i + k].1),
            ),
    decreases v.len() - i,
{
    if i < v.len() {
        lemma_entries_view(v, i + 1);
    }
}

/// Lengths and elements of the viewed node list.
pub proof fn lemma_nodes_view(v: Seq<Box<AstNode>>, i: int)
    requires
        0 <= i <= v.len(),
    ensures
        nodes_view_from(v, i).len() == v.len() - i,
        forall|k: int|
            0 <= k < v.len() - i ==> #[trigger] nodes_view_from(v, i)[k] == ast_view(*v[i + k]),
    decreases v.len() - i,
{
    if i < v.len() {
        lemma_nodes_view(v, i + 1);
    }
}

/// The operator symbol of a binary-operation node; empty for other kinds.
pub open spec fn binop_sym(n: AstS) -> Seq<char> {
    match n {
        AstS::ADD { .. } => "+"@,
        AstS::SUB { .. } => "-"@,
        AstS::MUL { .. } => "*"@,
        AstS::DIV { .. } => "/"@,
        AstS::MOD { .. } => "%"@,
        AstS::AND { .. } => "&&"@,
        AstS::OR { .. } => "||"@,
        AstS::EQ { .. } => "=="@,
        AstS::NE { .. } => "!="@,
        AstS::GT { .. } => ">"@,
        AstS::GE { .. } => ">="@,
        AstS::LT { .. } => "<"@,
        AstS::LE { .. } => "<="@,
        _ => ""@,
    }
}

/// The left and right operands of a binary-operation node.
pub open spec fn binop_operands(n: AstS) -> Option<(AstS, AstS)> {
    match n {
        AstS::ADD { left, right } => Some((*left, *right)),
        AstS::SUB { left, right } => Some((*left, *right)),
        AstS::MUL { left, right } => Some((*left, *right)),
        AstS::DIV { left, right } => Some((*left, *right)),
        AstS::MOD { left, right } => Some((*left, *right)),
        AstS::AND { left, right } => Some((*left, *right)),
        AstS::OR { left, right } => Some((*left, *right)),
        AstS::EQ { left, right } => Some((*left, *right)),
        AstS::NE { left, right } => Some((*left, *right)),
        AstS::GT { left, right } => Some((*left, *right)),
        AstS::GE { left, right } => Some((*left, *right)),
        AstS::LT { left, right } => Some((*left, *right)),
        AstS::LE { left, right } => Some((*left, *right)),
        _ => None,
    }
}

/// The rendered object entries from index `i` on, concatenated with no
/// separator between pairs: `"key" : value` each.
pub open spec fn render_entries_from(pairs: Seq<(Seq<char>, AstS)>, i: int) -> Seq<char>
    decreases pairs, pairs.len() - i,
{
    if i < 0 || i >= pairs.len() {
        Seq::empty()
    } else {
        "\""@ + pairs[i].0 + "\" : "@ + render_spec(pairs[i].1) + render_entries_from(
            pairs,
            i + 1,
        )
    }
}

/// The rendered list elements from index `i` on, joined by single spaces.
pub open spec fn render_items_from(items: Seq<AstS>, i: int) -> Seq<char>
    decreases items, items.len() - i,
{
    if i < 0 || i >= items.len() {
        Seq::empty()
    } else if i == items.len() - 1 {
        render_spec(items[i])
    } else {
        render_spec(items[i]) + " "@ + render_items_from(items, i + 1)
    }
}

/// The rendered arguments from index `i` on, comma-separated, no trailing
/// comma.
pub open spec fn render_args_from(params: Seq<AstS>, i: int) -> Seq<char>
    decreases params, params.len() - i,
{
    if i < 0 || i >= params.len() {
        Seq::empty()
    } else if i == params.len() - 1 {
        render_spec(params[i])
    } else {
        render_spec(params[i]) + ", "@ + render_args_from(params, i + 1)
    }
}

/// The deterministic text rendering of a tree: scalars as their literal
/// form, objects as `{ "k" : v ... }` with entries concatenated without a
/// separator, lists as `[ v v ... ]` space-joined, binary operations as
/// `left op right`, comprehensions as `[ expr for var in iter ]`, and
/// function applications as `name(arg, ..., arg)`.
pub open spec fn render_spec(n: AstS) -> Seq<char>
    decreases n, 1int,
{
    match n {
        AstS::INTVAL(i) => crate::num::int_text(i),
        AstS::DOUBLEVAL(t) => t,
        AstS::STRVAL(s) => s,
        AstS::BOOLVAL(b) => if b {
            "true"@
        } else {
            "false"@
        },
        AstS::NULLVAL => "null"@,
        AstS::OBJECT(pairs) => "{ "@ + render_entries_from(pairs, 0) + " }"@,
        AstS::LIST(items) => "[ "@ + render_items_from(items, 0) + " ]"@,
        AstS::VAR(name) => name,
        AstS::COMPRE { expr, var, iter_expr } => "[ "@ + render_spec(*expr) + " for "@ + var
            + " in "@ + render_spec(*iter_expr) + " ]"@,
        AstS::FUNC { name, params } => name + "("@ + render_args_from(params, 0) + ")"@,
        _ => {
            let (left, right) = binop_operands(n)->Some_0;
            render_spec(left) + " "@ + binop_sym(n) + " "@ + render_spec(right)
        },
    }
}


/// Appends the rendered object entries (per `render_entries_from`) of the
/// viewed pairs to `out`.
fn push_entries(pairs: &Vec<(String, Box<AstNode>)>, out: &mut Vec<char>)
    ensures
        final(out)@ == old(out)@ + render_entries_from(entries_view_from(pairs@, 0), 0),
    decreases *pairs, 0int,
{
    let ghost pv = entries_view_from(pairs@, 0);
    proof {
        lemma_entries_view(pairs@, 0);
    }
    let n = pairs.len();
    let mut i: usize = 0;
    while i < n
        invariant
            i <= n == pairs@.len(),
            pv == entries_view_from(pairs@, 0),
            pv.len() == n,
            forall|k: int|
                0 <= k < n ==> #[trigger] pv[k] == (pairs@[k].0@, ast_view(*pairs@[k].1)),
            out@ + render_entries_from(pv, i as int) == old(out)@ + render_entries_from(pv, 0),
        decreases n - i,
    {
        let ghost pre = out@;
        crate::text::push_str_chars("\"", out);
        crate::text::push_str_chars(pairs[i].0.as_str(), out);
        crate::text::push_str_chars("\" : ", out);
        pairs[i].1.push_render(out);
        proof {
            assert(out@ =~= pre + ("\""@ + pv[i as int].0 + "\" : "@ + render_spec(
                pv[i as int].1,
            )));
            assert(render_entries_from(pv, i as int) == "\""@ + pv[i as int].0 + "\" : "@
                + render_spec(pv[i as int].1) + render_entries_from(pv, i + 1));
            assert(out@ + render_entries_from(pv, i + 1) =~= pre + render_entries_from(
                pv,
                i as int,
            ));
        }
        i = i + 1;
    }
    proof {
        assert(render_entries_from(pv, n as int) =~= Seq::<char>::empty());
        assert(out@ =~= old(out)@ + render_entries_from(pv, 0));
    }
}

/// Appends the rendered elements (per `render_items_from`, space-joined,
/// or per `render_args_from`, comma-joined, when `commas` is set) of the
/// viewed nodes to `out`.
fn push_elems(items: &Vec<Box<AstNode>>, commas: bool, out: &mut Vec<char>)
    ensures
        !commas ==> final(out)@ == old(out)@ + render_items_from(nodes_view_from(items@, 0), 0),
        commas ==> final(out)@ == old(out)@ + render_args_from(nodes_view_from(items@, 0), 0),
    decreases *items, 0int,
{
    let ghost iv = nodes_view_from(items@, 0);
    proof {
        lemma_nodes_view(items@, 0);
    }
    let n = items.len();
    let mut i: usize = 0;
    while i < n
        invariant
            i <= n == items@.len(),
            iv == nodes_view_from(items@, 0),
            iv.len() == n,
            forall|k: int| 0 <= k < n ==> #[trigger] iv[k] == ast_view(*items@[k]),
            !commas ==> out@ + render_items_from(iv, i as int) == old(out)@ + render_items_from(
                iv,
                0,
            ),
            commas ==> out@ + render_args_from(iv, i as int) == old(out)@ + render_args_from(
                iv,
                0,
            ),
        decreases n - i,
    {
        let ghost pre = out@;
        items[i].push_render(out);
        if i + 1 < n {
            if commas {
                crate::text::push_str_chars(", ", out);
                proof {
                    assert(out@ =~= pre + (render_spec(iv[i as int]) + ", "@));
                    assert(out@ + render_args_from(iv, i + 1) =~= pre + render_args_from(
                        iv,
                        i as int,
                    ));
                }
            } else {
                crate::text::push_str_chars(" ", out);
                proof {
                    assert(out@ =~= pre + (render_spec(iv[i as int]) + " "@));
                    assert(out@ + render_items_from(iv, i + 1) =~= pre + render_items_from(
                        iv,
                        i as int,
                    ));
                }
            }
        } else {
            proof {
                assert(render_items_from(iv, i + 1) =~= Seq::<char>::empty());
                assert(render_args_from(iv, i + 1) =~= Seq::<char>::empty());
                assert(out@ + render_items_from(iv, i + 1) =~= pre + render_items_from(
                    iv,
                    i as int,
                ));
                assert(out@ + render_args_from(iv, i + 1) =~= pre + render_args_from(
                    iv,
                    i as int,
                ));
            }
        }
        i = i + 1;
    }
    proof {
        if n == 0 {
            assert(render_items_from(iv, 0) =~= Seq::<char>::empty());
            assert(render_args_from(iv, 0) =~= Seq::<char>::empty());
        }
        assert(render_items_from(iv, n as int) =~= Seq::<char>::empty());
        assert(render_args_from(iv, n as int) =~= Seq::<char>::empty());
        assert(out@ + Seq::<char>::empty() =~= out@);
    }
}

impl AstNode {
    /// The textual symbol of a binary-operation node (empty for others).
    fn operator_str(&self) -> (r: &str)
        ensures
            r@ == binop_sym(self@),
    {
        match self {
            AstNode::ADD { .. } => "+",
            AstNode::SUB { .. } => "-",
            AstNode::MUL { .. } => "*",
            AstNode::DIV { .. } => "/",
            AstNode::MOD { .. } => "%",
            AstNode::AND { .. } => "&&",
            AstNode::OR { .. } => "||",
            AstNode::EQ { .. } => "==",
            AstNode::NE { .. } => "!=",
            AstNode::GT { .. } => ">",
            AstNode::GE { .. } => ">=",
            AstNode::LT { .. } => "<",
            AstNode::LE { .. } => "<=",
            _ => "",
        }
    }

    /// Appends this node's rendering, per `render_spec`, to `out`.
    #[verifier::rlimit(50)]
    fn push_render(&self, out: &mut Vec<char>)
        ensures
            final(out)@ == old(out)@ + render_spec(self@),
        decreases *self, 1int,
    {
        match self {
            AstNode::INTVAL(i) => {
                crate::num::push_int(*i, out);
            },
            AstNode::DOUBLEVAL(t) => {
                crate::text::push_str_chars(t.as_str(), out);
            },
            AstNode::STRVAL(s) => {
                crate::text::push_str_chars(s.as_str(), out);
            },
            AstNode::BOOLVAL(b) => {
                crate::text::push_str_chars(if *b { "true" } else { "false" }, out);
            },
            AstNode::NULLVAL => {
                crate::text::push_str_chars("null", out);
            },
            AstNode::VAR(name) => {
                crate::text::push_str_chars(name.as_str(), out);
            },
            AstNode::OBJECT(pairs) => {
                crate::text::push_str_chars("{ ", out);
                push_entries(pairs, out);
                crate::text::push_str_chars(" }", out);
                proof {
                    assert(out@ =~= old(out)@ + render_spec(self@));
                }
            },
            AstNode::LIST(items) => {
                crate::text::push_str_chars("[ ", out);
                push_elems(items, false, out);
                crate::text::push_str_chars(" ]", out);
                proof {
                    assert(out@ =~= old(out)@ + render_spec(self@));
                }
            },
            AstNode::COMPRE { expr, var, iter_expr } => {
                crate::text::push_str_chars("[ ", out);
                expr.push_render(out);
                crate::text::push_str_chars(" for ", out);
                crate::text::push_str_chars(var.as_str(), out);
                crate::text::push_str_chars(" in ", out);
                iter_expr.push_render(out);
                crate::text::push_str_chars(" ]", out);
                proof {
                    assert(out@ =~= old(out)@ + render_spec(self@));
                }
            },
            AstNode::FUNC { name, params } => {
                crate::text::push_str_chars(name.as_str(), out);
                crate::text::push_str_chars("(", out);
                push_elems(params, true, out);
                crate::text::push_str_chars(")", out);
                proof {
                    assert(out@ =~= old(out)@ + render_spec(self@));
                }
            },
            AstNode::ADD { left, right } => {
                left.push_render(out);
                crate::text::push_str_chars(" ", out);
                crate::text::push_str_chars(self.operator_str(), out);
                crate::text::push_str_chars(" ", out);
                right.push_render(out);
                proof {
                    assert(out@ =~= old(out)@ + render_spec(self@));
                }
            },
            AstNode::SUB { left, right } => {
                left.push_render(out);
                crate::text::push_str_chars(" ", out);
                crate::text::push_str_chars(self.operator_str(), out);
                crate::text::push_str_chars(" ", out);
                right.push_render(out);
                proof {
                    assert(out@ =~= old(out)@ + render_spec(self@));
                }
            },
            AstNode::MUL { left, right } => {
                left.push_render(out);
                crate::text::push_str_chars(" ", out);
                crate::text::push_str_chars(self.operator_str(), out);
                crate::text::push_str_chars(" ", out);
                right.push_render(out);
                proof {
                    assert(out@ =~= old(out)@ + render_spec(self@));
                }
            },
            AstNode::DIV { left, right } => {
                left.push_render(out);
                crate::text::push_str_chars(" ", out);
                crate::text::push_str_chars(self.operator_str(), out);
                crate::text::push_str_chars(" ", out);
                right.push_render(out);
                proof {
                    assert(out@ =~= old(out)@ + render_spec(self@));
                }
            },
            AstNode::MOD { left, right } => {
                left.push_render(out);
                crate::text::push_str_chars(" ", out);
                crate::text::push_str_chars(self.operator_str(), out);
                crate::text::push_str_chars(" ", out);
                right.push_render(out);
                proof {
                    assert(out@ =~= old(out)@ + render_spec(self@));
                }
            },
            AstNode::AND { left, right } => {
                left.push_render(out);
                crate::text::push_str_chars(" ", out);
                crate::text::push_str_chars(self.operator_str(), out);
                crate::text::push_str_chars(" ", out);
                right.push_render(out);
                proof {
                    assert(out@ =~= old(out)@ + render_spec(self@));
                }
            },
            AstNode::OR { left, right } => {
                left.push_render(out);
                crate::text::push_str_chars(" ", out);
                crate::text::push_str_chars(self.operator_str(), out);
                crate::text::push_str_chars(" ", out);
                right.push_render(out);
                proof {
                    assert(out@ =~= old(out)@ + render_spec(self@));
                }
            },
            AstNode::EQ { left, right } => {
                left.push_render(out);
                crate::text::push_str_chars(" ", out);
                crate::text::push_str_chars(self.operator_str(), out);
                crate::text::push_str_chars(" ", out);
                right.push_render(out);
                proof {
                    assert(out@ =~= old(out)@ + render_spec(self@));
                }
            },
            AstNode::NE { left, right } => {
                left.push_render(out);
                crate::text::push_str_chars(" ", out);
                crate::text::push_str_chars(self.operator_str(), out);
                crate::text::push_str_chars(" ", out);
                right.push_render(out);
                proof {
                    assert(out@ =~= old(out)@ + render_spec(self@));
                }
            },
            AstNode::GT { left, right } => {
                left.push_render(out);
                crate::text::push_str_chars(" ", out);
                crate::text::push_str_chars(self.operator_str(), out);
                crate::text::push_str_chars(" ", out);
                right.push_render(out);
                proof {
                    assert(out@ =~= old(out)@ + render_spec(self@));
                }
            },
            AstNode::GE { left, right } => {
                left.push_render(out);
                crate::text::push_str_chars(" ", out);
                crate::text::push_str_chars(self.operator_str(), out);
                crate::text::push_str_chars(" ", out);
                right.push_render(out);
                proof {
                    assert(out@ =~= old(out)@ + render_spec(self@));
                }
            },
            AstNode::LT { left, right } => {
                left.push_render(out);
                crate::text::push_str_chars(" ", out);
                crate::text::push_str_chars(self.operator_str(), out);
                crate::text::push_str_chars(" ", out);
                right.push_render(out);
                proof {
                    assert(out@ =~= old(out)@ + render_spec(self@));
                }
            },
            AstNode::LE { left, right } => {
                left.push_render(out);
                crate::text::push_str_chars(" ", out);
                crate::text::push_str_chars(self.operator_str(), out);
                crate::text::push_str_chars(" ", out);
                right.push_render(out);
                proof {
                    assert(out@ =~= old(out)@ + render_spec(self@));
                }
            },
        }
    }

    /// The deterministic text rendering of the tree, per `render_spec`.
    pub fn to_str(&self) -> (r: String)
        ensures
            r@ == render_spec(self@),
    {
        let mut out: Vec<char> = Vec::new();
        self.push_render(&mut out);
        proof {
            assert(Seq::<char>::empty() + render_spec(self@) =~= render_spec(self@));
        }
        crate::text::chars_to_string(&out)
    }
}


/// Inserting at the first occurrence of an existing key overwrites that
/// pair in place.
proof fn lemma_kv_insert_update(pv: Seq<(Seq<char>, AstS)>, k: Seq<char>, v: AstS, i: int)
    requires
        0 <= i < pv.len(),
        pv[i].0 == k,
        forall|j: int| 0 <= j < i ==> (#[trigger] pv[j]).0 != k,
    ensures
        kv_insert(pv, k, v) == pv.update(i, (k, v)),
    decreases i,
{
    if i == 0 {
        assert(kv_insert(pv, k, v) =~= pv.update(0, (k, v)));
    } else {
        assert(pv[0].0 != k);
        lemma_kv_insert_update(pv.drop_first(), k, v, i - 1);
        assert(seq![pv.first()] + pv.drop_first().update(i - 1, (k, v)) =~= pv.update(i, (k, v)));
    }
}

/// Inserting a fresh key appends the pair at the end.
proof fn lemma_kv_insert_append(pv: Seq<(Seq<char>, AstS)>, k: Seq<char>, v: AstS)
    requires
        forall|j: int| 0 <= j < pv.len() ==> (#[trigger] pv[j]).0 != k,
    ensures
        kv_insert(pv, k, v) == pv.push((k, v)),
    decreases pv.len(),
{
    if pv.len() == 0 {
        assert(kv_insert(pv, k, v) =~= pv.push((k, v)));
    } else {
        assert(pv[0].0 != k);
        lemma_kv_insert_append(pv.drop_first(), k, v);
        assert(seq![pv.first()] + pv.drop_first().push((k, v)) =~= pv.push((k, v)));
    }
}

/// The position of the first pair whose key is `k`, when there is one.
fn find_key(pairs: &Vec<(String, Box<AstNode>)>, k: &String) -> (r: Option<usize>)
    ensures
        match r {
            Some(i) => i < pairs@.len() && pairs@[i as int].0@ == k@ && forall|j: int|
                0 <= j < i ==> (#[trigger] pairs@[j]).0@ != k@,
            None => forall|j: int| 0 <= j < pairs@.len() ==> (#[trigger] pairs@[j]).0@ != k@,
        },
{
    let n = pairs.len();
    let mut i: usize = 0;
    while i < n
        invariant
            i <= n == pairs@.len(),
            forall|j: int| 0 <= j < i ==> (#[trigger] pairs@[j]).0@ != k@,
        decreases n - i,
    {
        if pairs[i].0 == *k {
            return Some(i);
        }
        i = i + 1;
    }
    None
}

/// Inserts a key/value pair into an object's pair list, per `kv_insert`:
/// an existing key is overwritten in place, a new key goes to the end.
pub fn obj_insert(pairs: &mut Vec<(String, Box<AstNode>)>, k: String, v: Box<AstNode>)
    ensures
        entries_view_from(final(pairs)@, 0) == kv_insert(
            entries_view_from(old(pairs)@, 0),
            k@,
            ast_view(*v),
        ),
{
    let ghost pv = entries_view_from(pairs@, 0);
    proof {
        lemma_entries_view(pairs@, 0);
    }
    match find_key(pairs, &k) {
        Some(i) => {
            proof {
                assert(pv[i as int].0 == k@);
                assert(forall|j: int| 0 <= j < i ==> (#[trigger] pv[j]).0 != k@);
                lemma_kv_insert_update(pv, k@, ast_view(*v), i as int);
            }
            pairs[i] = (k, v);
            proof {
                lemma_entries_view(pairs@, 0);
                assert(entries_view_from(pairs@, 0) =~= pv.update(i as int, (k@, ast_view(*v))));
            }
        },
        None => {
            proof {
                assert(forall|j: int| 0 <= j < pv.len() ==> (#[trigger] pv[j]).0 != k@);
                lemma_kv_insert_append(pv, k@, ast_view(*v));
            }
            pairs.push((k, v));
            proof {
                lemma_entries_view(pairs@, 0);
                assert(entries_view_from(pairs@, 0) =~= pv.push((k@, ast_view(*v))));
            }
        },
    }
}


/// The key `key` occurs among the pairs.
pub open spec fn key_in(pairs: Seq<(Seq<char>, AstS)>, key: Seq<char>) -> bool {
    exists|j: int| 0 <= j < pairs.len() && (#[trigger] pairs[j]).0 == key
}

/// No key occurs twice among the pairs.
pub open spec fn unique_keys(pairs: Seq<(Seq<char>, AstS)>) -> bool {
    forall|i: int, j: int|
        0 <= i < j < pairs.len() ==> (#[trigger] pairs[i]).0 != (#[trigger] pairs[j]).0
}

/// Inserting introduces no key but the inserted one.
pub proof fn lemma_kv_insert_keys(pairs: Seq<(Seq<char>, AstS)>, k: Seq<char>, v: AstS)
    ensures
        forall|m: int|
            0 <= m < kv_insert(pairs, k, v).len() ==> (#[trigger] kv_insert(pairs, k, v)[m]).0
                == k || key_in(pairs, kv_insert(pairs, k, v)[m].0),
    decreases pairs.len(),
{
    let r = kv_insert(pairs, k, v);
    if pairs.len() == 0 {
    } else if pairs.first().0 == k {
        assert forall|m: int| 0 <= m < r.len() implies (#[trigger] r[m]).0 == k || key_in(
            pairs,
            r[m].0,
        ) by {
            if m > 0 {
                assert(r[m] == pairs[m]);
            }
        }
    } else {
        lemma_kv_insert_keys(pairs.drop_first(), k, v);
        let rr = kv_insert(pairs.drop_first(), k, v);
        assert forall|m: int| 0 <= m < r.len() implies (#[trigger] r[m]).0 == k || key_in(
            pairs,
            r[m].0,
        ) by {
            if m == 0 {
                assert(r[0] == pairs[0]);
            } else {
                assert(r[m] == rr[m - 1]);
                if rr[m - 1].0 != k {
                    assert(key_in(pairs.drop_first(), rr[m - 1].0));
                    let j = choose|j: int|
                        0 <= j < pairs.drop_first().len() && (#[trigger] pairs.drop_first()[j]).0
                            == rr[m - 1].0;
                    assert(pairs[j + 1].0 == rr[m - 1].0);
                }
            }
        }
    }
}

/// Last-write-wins insertion keeps the keys unique: the one invariant of
/// an object's pair list, preserved by every insert.
pub proof fn lemma_kv_insert_unique(pairs: Seq<(Seq<char>, AstS)>, k: Seq<char>, v: AstS)
    requires
        unique_keys(pairs),
    ensures
        unique_keys(kv_insert(pairs, k, v)),
    decreases pairs.len(),
{
    let r = kv_insert(pairs, k, v);
    if pairs.len() == 0 {
    } else if pairs.first().0 == k {
        assert forall|i: int, j: int| 0 <= i < j < r.len() implies (#[trigger] r[i]).0 != (
        #[trigger] r[j]).0 by {
            assert(r[j] == pairs[j]);
            if i == 0 {
                assert(pairs[0].0 == k);
            } else {
                assert(r[i] == pairs[i]);
            }
        }
    } else {
        assert(unique_keys(pairs.drop_first())) by {
            assert(forall|i: int, j: int|
                0 <= i < j < pairs.drop_first().len() ==> (#[trigger] pairs.drop_first()[i]).0 != (
                #[trigger] pairs.drop_first()[j]).0) by {
                assert(forall|i: int|
                    0 <= i < pairs.drop_first().len() ==> (#[trigger] pairs.drop_first()[i]) == pairs[i
                        + 1]);
            }
        }
        lemma_kv_insert_unique(pairs.drop_first(), k, v);
        lemma_kv_insert_keys(pairs.drop_first(), k, v);
        let rr = kv_insert(pairs.drop_first(), k, v);
        assert forall|i: int, j: int| 0 <= i < j < r.len() implies (#[trigger] r[i]).0 != (
        #[trigger] r[j]).0 by {
            if i == 0 {
                assert(r[0] == pairs[0]);
                assert(r[j] == rr[j - 1]);
                if rr[j - 1].0 == k {
                } else {
                    assert(key_in(pairs.drop_first(), rr[j - 1].0));
                    let m = choose|m: int|
                        0 <= m < pairs.drop_first().len() && (#[trigger] pairs.drop_first()[m]).0
                            == rr[j - 1].0;
                    assert(pairs[m + 1].0 == rr[j - 1].0);
                    assert(pairs[0].0 != pairs[m + 1].0);
                }
            } else {
                assert(r[i] == rr[i - 1]);
                assert(r[j] == rr[j - 1]);
            }
        }
    }
}


/// Well-formedness of the nodes `items[i..]`.
pub open spec fn asts_wf_from(items: Seq<AstS>, i: int) -> bool
    decreases items, items.len() - i,
{
    if i < 0 || i >= items.len() {
        true
    } else {
        ast_wf(items[i]) && asts_wf_from(items, i + 1)
    }
}

/// Well-formedness of the values of the pairs `pairs[i..]`.
pub open spec fn entries_wf_from(pairs: Seq<(Seq<char>, AstS)>, i: int) -> bool
    decreases pairs, pairs.len() - i,
{
    if i < 0 || i >= pairs.len() {
        true
    } else {
        ast_wf(pairs[i].1) && entries_wf_from(pairs, i + 1)
    }
}

/// The tree invariant: every object, anywhere in the tree, holds unique
/// keys (duplicates having been overwritten at insertion, never kept).
pub open spec fn ast_wf(n: AstS) -> bool
    decreases n, 1int,
{
    match n {
        AstS::INTVAL(_) => true,
        AstS::DOUBLEVAL(_) => true,
        AstS::STRVAL(_) => true,
        AstS::BOOLVAL(_) => true,
        AstS::NULLVAL => true,
        AstS::VAR(_) => true,
        AstS::OBJECT(pairs) => unique_keys(pairs) && entries_wf_from(pairs, 0),
        AstS::LIST(items) => asts_wf_from(items, 0),
        AstS::COMPRE { expr, var, iter_expr } => ast_wf(*expr) && ast_wf(*iter_expr),
        AstS::FUNC { name, params } => asts_wf_from(params, 0),
        _ => {
            let (left, right) = binop_operands(n)->Some_0;
            ast_wf(left) && ast_wf(right)
        },
    }
}

/// `asts_wf_from` holds exactly when every node from `i` on is
/// well-formed.
pub proof fn lemma_asts_wf_index(items: Seq<AstS>, i: int)
    requires
        0 <= i <= items.len(),
    ensures
        asts_wf_from(items, i) <==> (forall|m: int|
            i <= m < items.len() ==> ast_wf(#[trigger] items[m])),
    decreases items.len() - i,
{
    if i < items.len() {
        lemma_asts_wf_index(items, i + 1);
    }
}

/// `entries_wf_from` holds exactly when every pair's value from `i` on is
/// well-formed.
pub proof fn lemma_entries_wf_index(pairs: Seq<(Seq<char>, AstS)>, i: int)
    requires
        0 <= i <= pairs.len(),
    ensures
        entries_wf_from(pairs, i) <==> (forall|m: int|
            i <= m < pairs.len() ==> ast_wf((#[trigger] pairs[m]).1)),
    decreases pairs.len() - i,
{
    if i < pairs.len() {
        lemma_entries_wf_index(pairs, i + 1);
    }
}

/// Every pair after an insert is the inserted pair or one of the old
/// pairs.
pub proof fn lemma_kv_insert_pairs(pairs: Seq<(Seq<char>, AstS)>, k: Seq<char>, v: AstS)
    ensures
        forall|m: int|
            0 <= m < kv_insert(pairs, k, v).len() ==> #[trigger] kv_insert(pairs, k, v)[m] == (
                k,
                v,
            ) || exists|j: int| 0 <= j < pairs.len() && #[trigger] pairs[j] == kv_insert(
                pairs,
                k,
                v,
            )[m],
    decreases pairs.len(),
{
    let r = kv_insert(pairs, k, v);
    if pairs.len() == 0 {
    } else if pairs.first().0 == k {
        assert forall|m: int| 0 <= m < r.len() implies #[trigger] r[m] == (k, v) || exists|j: int|
            0 <= j < pairs.len() && #[trigger] pairs[j] == r[m] by {
            if m > 0 {
                assert(pairs[m] == r[m]);
            }
        }
    } else {
        lemma_kv_insert_pairs(pairs.drop_first(), k, v);
        let rr = kv_insert(pairs.drop_first(), k, v);
        assert forall|m: int| 0 <= m < r.len() implies #[trigger] r[m] == (k, v) || exists|j: int|
            0 <= j < pairs.len() && #[trigger] pairs[j] == r[m] by {
            if m == 0 {
                assert(pairs[0] == r[0]);
            } else {
                assert(r[m] == rr[m - 1]);
                if rr[m - 1] != (k, v) {
                    let j = choose|j: int|
                        0 <= j < pairs.drop_first().len() && #[trigger] pairs.drop_first()[j] == rr[m
                            - 1];
                    assert(pairs[j + 1] == rr[m - 1]);
                }
            }
        }
    }
}

/// An insert of a well-formed value keeps every value well-formed.
pub proof fn lemma_kv_insert_wf(pairs: Seq<(Seq<char>, AstS)>, k: Seq<char>, v: AstS)
    requires
        entries_wf_from(pairs, 0),
        ast_wf(v),
    ensures
        entries_wf_from(kv_insert(pairs, k, v), 0),
{
    let r = kv_insert(pairs, k, v);
    lemma_entries_wf_index(pairs, 0);
    lemma_kv_insert_pairs(pairs, k, v);
    assert forall|m: int| 0 <= m < r.len() implies ast_wf((#[trigger] r[m]).1) by {
        if r[m] != (k, v) {
            let j = choose|j: int| 0 <= j < pairs.len() && #[trigger] pairs[j] == r[m];
            assert(ast_wf(pairs[j].1));
        }
    }
    lemma_entries_wf_index(r, 0);
}

} // verus!
