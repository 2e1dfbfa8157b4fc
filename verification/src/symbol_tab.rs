//! The symbol table: a mapping from names to symbols.  The parser creates
//! it empty and returns it empty; no grammar rule inserts into it yet — it
//! is the extension point for a later semantic pass.

use vstd::prelude::*;
use vstd::string::StringExecFns;

verus! {

broadcast use vstd::std_specs::vec::axiom_vec_index_decreases, vstd::std_specs::vec::axiom_vec_decreases_to_view, vstd::seq::axiom_seq_index_decreases;

/// The type a symbol's value would have.
#[allow(missing_docs)]
#[derive(Debug)]
pub enum ValueType {
    LIST,
    OBJECT,
    INT,
    DOUBLE,
    BOOL,
    NULL,
}

/// A symbol's value.  A floating-point value is carried as its source
/// text, as everywhere in this crate.
#[allow(missing_docs)]
#[derive(Debug)]
pub enum Symbol {
    LIST(Vec<Symbol>),
    OBJECT(Vec<(String, Symbol)>),
    INT(i32),
    DOUBLE(String),
    BOOL(bool),
    FUNC { return_type: ValueType },
}

/// The mathematical value of a symbol.
#[allow(missing_docs)]
pub enum SymS {
    LIST(Seq<SymS>),
    OBJECT(Seq<(Seq<char>, SymS)>),
    INT(int),
    DOUBLE(Seq<char>),
    BOOL(bool),
    FUNC { return_type: ValueType },
}

/// The views of the symbols `v[i..]`, in order.
pub open spec fn syms_view_from(v: Seq<Symbol>, i: int) -> Seq<SymS>
    decreases v, v.len() - i,
{
    if i < 0 || i >= v.len() {
        Seq::empty()
    } else {
        seq![sym_view(v[i])] + syms_view_from(v, i + 1)
    }
}

/// The views of the named symbols `v[i..]`, in order.
pub open spec fn sym_entries_view_from(v: Seq<(String, Symbol)>, i: int) -> Seq<(Seq<char>, SymS)>
    decreases v, v.len() - i,
{
    if i < 0 || i >= v.len() {
        Seq::empty()
    } else {
        seq![(v[i].0@, sym_view(v[i].1))] + sym_entries_view_from(v, i + 1)
    }
}

/// The mathematical value of a symbol.
pub open spec fn sym_view(s: Symbol) -> SymS
    decreases s, 0int,
{
    match s {
        Symbol::LIST(items) => SymS::LIST(syms_view_from(items@, 0)),
        Symbol::OBJECT(entries) => SymS::OBJECT(sym_entries_view_from(entries@, 0)),
        Symbol::INT(i) => SymS::INT(i as int),
        Symbol::DOUBLE(t) => SymS::DOUBLE(t@),
        Symbol::BOOL(b) => SymS::BOOL(b),
        Symbol::FUNC { return_type } => SymS::FUNC { return_type },
    }
}

impl View for Symbol {
    type V = SymS;

    open spec fn view(&self) -> SymS {
        sym_view(*self)
    }
}

/// The name of a value type.
pub open spec fn value_type_text(t: ValueType) -> Seq<char> {
    match t {
        ValueType::LIST => "LIST"@,
        ValueType::OBJECT => "OBJECT"@,
        ValueType::INT => "INT"@,
        ValueType::DOUBLE => "DOUBLE"@,
        ValueType::BOOL => "BOOL"@,
        ValueType::NULL => "NULL"@,
    }
}

impl ValueType {
    /// The type's name, per `value_type_text`.
    pub fn to_str(&self) -> (r: String)
        ensures
            r@ == value_type_text(*self),
    {
        match self {
            ValueType::LIST => String::from_str("LIST"),
            ValueType::OBJECT => String::from_str("OBJECT"),
            ValueType::INT => String::from_str("INT"),
            ValueType::DOUBLE => String::from_str("DOUBLE"),
            ValueType::BOOL => String::from_str("BOOL"),
            ValueType::NULL => String::from_str("NULL"),
        }
    }
}

/// The rendered symbols from index `i` on, concatenated without separators.
pub open spec fn sym_render_items_from(items: Seq<SymS>, i: int) -> Seq<char>
    decreases items, items.len() - i,
{
    if i < 0 || i >= items.len() {
        Seq::empty()
    } else {
        sym_render_spec(items[i]) + sym_render_items_from(items, i + 1)
    }
}

/// The rendered named symbols from index `i` on: `name : value,` each.
pub open spec fn sym_render_entries_from(entries: Seq<(Seq<char>, SymS)>, i: int) -> Seq<char>
    decreases entries, entries.len() - i,
{
    if i < 0 || i >= entries.len() {
        Seq::empty()
    } else {
        entries[i].0 + " : "@ + sym_render_spec(entries[i].1) + ","@ + sym_render_entries_from(
            entries,
            i + 1,
        )
    }
}

/// The text rendering of a symbol: scalars as their value, lists as
/// `[ v... ]`, objects as `{ name : v, ... }`, functions as
/// `fn -> type`.
pub open spec fn sym_render_spec(s: SymS) -> Seq<char>
    decreases s, 1int,
{
    match s {
        SymS::LIST(items) => "[ "@ + sym_render_items_from(items, 0) + " ]"@,
        SymS::OBJECT(entries) => "{ "@ + sym_render_entries_from(entries, 0) + " }"@,
        SymS::INT(i) => crate::num::int_text(i),
        SymS::DOUBLE(t) => t,
        SymS::BOOL(b) => if b {
            "true"@
        } else {
            "false"@
        },
        SymS::FUNC { return_type } => "fn -> "@ + value_type_text(return_type),
    }
}

/// Lengths and elements of the viewed symbol list.
proof fn lemma_syms_view(v: Seq<Symbol>, i: int)
    requires
        0 <= i <= v.len(),
    ensures
        syms_view_from(v, i).len() == v.len() - i,
        forall|k: int|
            0 <= k < v.len() - i ==> #[trigger] syms_view_from(v, i)[k] == sym_view(v[i + k]),
    decreases v.len() - i,
{
    if i < v.len() {
        lemma_syms_view(v, i + 1);
    }
}

/// Lengths and elements of the viewed named-symbol list.
proof fn lemma_sym_entries_view(v: Seq<(String, Symbol)>, i: int)
    requires
        0 <= i <= v.len(),
    ensures
        sym_entries_view_from(v, i).len() == v.len() - i,
        forall|k: int|
            0 <= k < v.len() - i ==> #[trigger] sym_entries_view_from(v, i)[k] == (
                v[i + k].0@,
                sym_view(v[i + k].1),
            ),
    decreases v.len() - i,
{
    if i < v.len() {
        lemma_sym_entries_view(v, i + 1);
    }
}

/// Appends the renderings of the symbols to `out`.
fn push_syms(items: &Vec<Symbol>, out: &mut Vec<char>)
    ensures
        final(out)@ == old(out)@ + sym_render_items_from(syms_view_from(items@, 0), 0),
    decreases *items, 0int,
{
    let ghost iv = syms_view_from(items@, 0);
    proof {
        lemma_syms_view(items@, 0);
    }
    let n = items.len();
    let mut i: usize = 0;
    while i < n
        invariant
            i <= n == items@.len(),
            iv == syms_view_from(items@, 0),
            iv.len() == n,
            forall|k: int| 0 <= k < n ==> #[trigger] iv[k] == sym_view(items@[k]),
            out@ + sym_render_items_from(iv, i as int) == old(out)@ + sym_render_items_from(iv, 0),
        decreases n - i,
    {
        let ghost pre = out@;
        items[i].push_render(out);
        proof {
            assert(out@ + sym_render_items_from(iv, i + 1) =~= pre + sym_render_items_from(
                iv,
                i as int,
            ));
        }
        i = i + 1;
    }
    proof {
        assert(sym_render_items_from(iv, n as int) =~= Seq::<char>::empty());
        assert(out@ =~= old(out)@ + sym_render_items_from(iv, 0));
    }
}

/// Appends the renderings of the named symbols to `out`.
fn push_sym_entries(entries: &Vec<(String, Symbol)>, out: &mut Vec<char>)
    ensures
        final(out)@ == old(out)@ + sym_render_entries_from(sym_entries_view_from(entries@, 0), 0),
    decreases *entries, 0int,
{
    let ghost ev = sym_entries_view_from(entries@, 0);
    proof {
        lemma_sym_entries_view(entries@, 0);
    }
    let n = entries.len();
    let mut i: usize = 0;
    while i < n
        invariant
            i <= n == entries@.len(),
            ev == sym_entries_view_from(entries@, 0),
            ev.len() == n,
            forall|k: int|
                0 <= k < n ==> #[trigger] ev[k] == (entries@[k].0@, sym_view(entries@[k].1)),
            out@ + sym_render_entries_from(ev, i as int) == old(out)@ + sym_render_entries_from(
                ev,
                0,
            ),
        decreases n - i,
    {
        let ghost pre = out@;
        crate::text::push_str_chars(entries[i].0.as_str(), out);
        crate::text::push_str_chars(" : ", out);
        entries[i].1.push_render(out);
        crate::text::push_str_chars(",", out);
        proof {
            assert(out@ =~= pre + (ev[i as int].0 + " : "@ + sym_render_spec(ev[i as int].1)
                + ","@));
            assert(out@ + sym_render_entries_from(ev, i + 1) =~= pre + sym_render_entries_from(
                ev,
                i as int,
            ));
        }
        i = i + 1;
    }
    proof {
        assert(sym_render_entries_from(ev, n as int) =~= Seq::<char>::empty());
        assert(out@ =~= old(out)@ + sym_render_entries_from(ev, 0));
    }
}

impl Symbol {
    /// Appends this symbol's rendering, per `sym_render_spec`, to `out`.
    fn push_render(&self, out: &mut Vec<char>)
        ensures
            final(out)@ == old(out)@ + sym_render_spec(self@),
        decreases *self, 1int,
    {
        match self {
            Symbol::LIST(items) => {
                crate::text::push_str_chars("[ ", out);
                push_syms(items, out);
                crate::text::push_str_chars(" ]", out);
                proof {
                    assert(out@ =~= old(out)@ + sym_render_spec(self@));
                }
            },
            Symbol::OBJECT(entries) => {
                crate::text::push_str_chars("{ ", out);
                push_sym_entries(entries, out);
                crate::text::push_str_chars(" }", out);
                proof {
                    assert(out@ =~= old(out)@ + sym_render_spec(self@));
                }
            },
            Symbol::INT(i) => {
                crate::num::push_int(*i, out);
            },
            Symbol::DOUBLE(t) => {
                crate::text::push_str_chars(t.as_str(), out);
            },
            Symbol::BOOL(b) => {
                crate::text::push_str_chars(if *b { "true" } else { "false" }, out);
            },
            Symbol::FUNC { return_type } => {
                crate::text::push_str_chars("fn -> ", out);
                let t = return_type.to_str();
                crate::text::push_str_chars(t.as_str(), out);
                proof {
                    assert(out@ =~= old(out)@ + sym_render_spec(self@));
                }
            },
        }
    }

    /// The text rendering of the symbol, per `sym_render_spec`.
    pub fn to_str(&self) -> (r: String)
        ensures
            r@ == sym_render_spec(self@),
    {
        let mut out: Vec<char> = Vec::new();
        self.push_render(&mut out);
        proof {
            assert(Seq::<char>::empty() + sym_render_spec(self@) =~= sym_render_spec(self@));
        }
        crate::text::chars_to_string(&out)
    }
}

/// A mapping from names to symbols, held in insertion order with unique
/// names; inserting an existing name overwrites its symbol in place.
#[derive(Debug)]
pub struct SymbolTable {
    symbols: Vec<(String, Symbol)>,
}

impl View for SymbolTable {
    type V = Seq<(Seq<char>, SymS)>;

    closed spec fn view(&self) -> Seq<(Seq<char>, SymS)> {
        sym_entries_view_from(self.symbols@, 0)
    }
}

/// Inserting into the table: an existing name is overwritten in place, a
/// new name goes to the end.
pub open spec fn sym_insert(
    entries: Seq<(Seq<char>, SymS)>,
    k: Seq<char>,
    v: SymS,
) -> Seq<(Seq<char>, SymS)>
    decreases entries.len(),
{
    if entries.len() == 0 {
        seq![(k, v)]
    } else if entries.first().0 == k {
        seq![(k, v)] + entries.drop_first()
    } else {
        seq![entries.first()] + sym_insert(entries.drop_first(), k, v)
    }
}

/// What looking a name up yields: the symbol of the first pair with that
/// name.
pub open spec fn sym_lookup(entries: Seq<(Seq<char>, SymS)>, k: Seq<char>) -> Option<SymS>
    decreases entries.len(),
{
    if entries.len() == 0 {
        None
    } else if entries.first().0 == k {
        Some(entries.first().1)
    } else {
        sym_lookup(entries.drop_first(), k)
    }
}

/// Overwriting the first occurrence realises `sym_insert`.
proof fn lemma_sym_insert_update(pv: Seq<(Seq<char>, SymS)>, k: Seq<char>, v: SymS, i: int)
    requires
        0 <= i < pv.len(),
        pv[i].0 == k,
        forall|j: int| 0 <= j < i ==> (#[trigger] pv[j]).0 != k,
    ensures
        sym_insert(pv, k, v) == pv.update(i, (k, v)),
    decreases i,
{
    if i == 0 {
        assert(sym_insert(pv, k, v) =~= pv.update(0, (k, v)));
    } else {
        assert(pv[0].0 != k);
        lemma_sym_insert_update(pv.drop_first(), k, v, i - 1);
        assert(seq![pv.first()] + pv.drop_first().update(i - 1, (k, v)) =~= pv.update(i, (k, v)));
    }
}

/// Appending a fresh name realises `sym_insert`.
proof fn lemma_sym_insert_append(pv: Seq<(Seq<char>, SymS)>, k: Seq<char>, v: SymS)
    requires
        forall|j: int| 0 <= j < pv.len() ==> (#[trigger] pv[j]).0 != k,
    ensures
        sym_insert(pv, k, v) == pv.push((k, v)),
    decreases pv.len(),
{
    if pv.len() == 0 {
        assert(sym_insert(pv, k, v) =~= pv.push((k, v)));
    } else {
        assert(pv[0].0 != k);
        lemma_sym_insert_append(pv.drop_first(), k, v);
        assert(seq![pv.first()] + pv.drop_first().push((k, v)) =~= pv.push((k, v)));
    }
}

/// The position of the first pair whose name is `k`, when there is one.
fn find_sym(symbols: &Vec<(String, Symbol)>, k: &String) -> (r: Option<usize>)
    ensures
        match r {
            Some(i) => i < symbols@.len() && symbols@[i as int].0@ == k@ && forall|j: int|
                0 <= j < i ==> (#[trigger] symbols@[j]).0@ != k@,
            None => forall|j: int| 0 <= j < symbols@.len() ==> (#[trigger] symbols@[j]).0@ != k@,
        },
{
    let n = symbols.len();
    let mut i: usize = 0;
    while i < n
        invariant
            i <= n == symbols@.len(),
            forall|j: int| 0 <= j < i ==> (#[trigger] symbols@[j]).0@ != k@,
        decreases n - i,
    {
        if symbols[i].0 == *k {
            return Some(i);
        }
        i = i + 1;
    }
    None
}

impl SymbolTable {
    /// A fresh, empty table.
    pub fn new() -> (r: SymbolTable)
        ensures
            r@ == Seq::<(Seq<char>, SymS)>::empty(),
    {
        let r = SymbolTable { symbols: Vec::new() };
        proof {
            assert(r@ =~= Seq::<(Seq<char>, SymS)>::empty());
        }
        r
    }

    /// Inserts a symbol under a name, per `sym_insert` (an existing name
    /// is overwritten, a new one appended).
    pub fn insert(&mut self, name: String, symbol: Symbol)
        ensures
            final(self)@ == sym_insert(old(self)@, name@, symbol@),
    {
        let ghost pv = self@;
        proof {
            lemma_sym_entries_view(self.symbols@, 0);
        }
        match find_sym(&self.symbols, &name) {
            Some(i) => {
                proof {
                    assert(pv[i as int].0 == name@);
                    assert(forall|j: int| 0 <= j < i ==> (#[trigger] pv[j]).0 != name@);
                    lemma_sym_insert_update(pv, name@, sym_view(symbol), i as int);
                }
                self.symbols[i] = (name, symbol);
                proof {
                    lemma_sym_entries_view(self.symbols@, 0);
                    assert(self@ =~= pv.update(i as int, (name@, sym_view(symbol))));
                }
            },
            None => {
                proof {
                    assert(forall|j: int| 0 <= j < pv.len() ==> (#[trigger] pv[j]).0 != name@);
                    lemma_sym_insert_append(pv, name@, sym_view(symbol));
                }
                self.symbols.push((name, symbol));
                proof {
                    lemma_sym_entries_view(self.symbols@, 0);
                    assert(self@ =~= pv.push((name@, sym_view(symbol))));
                }
            },
        }
    }

    /// Looks a name up, per `sym_lookup`: the symbol stored under it, or
    /// `None` when the name is absent.
    pub fn find(&self, name: &String) -> (r: Option<&Symbol>)
        ensures
            match r {
                Some(s) => sym_lookup(self@, name@) == Some(s@),
                None => sym_lookup(self@, name@) is None,
            },
    {
        proof {
            lemma_sym_entries_view(self.symbols@, 0);
        }
        match find_sym(&self.symbols, name) {
            Some(i) => {
                proof {
                    lemma_sym_lookup_at(self@, name@, i as int);
                }
                Some(&self.symbols[i].1)
            },
            None => {
                proof {
                    lemma_sym_lookup_absent(self@, name@);
                }
                None
            },
        }
    }

    /// The number of names in the table.
    pub fn count(&self) -> (r: usize)
        ensures
            r == self@.len(),
    {
        proof {
            lemma_sym_entries_view(self.symbols@, 0);
        }
        self.symbols.len()
    }
}

/// Looking up finds the symbol at the first occurrence of the name.
proof fn lemma_sym_lookup_at(pv: Seq<(Seq<char>, SymS)>, k: Seq<char>, i: int)
    requires
        0 <= i < pv.len(),
        pv[i].0 == k,
        forall|j: int| 0 <= j < i ==> (#[trigger] pv[j]).0 != k,
    ensures
        sym_lookup(pv, k) == Some(pv[i].1),
    decreases i,
{
    if i > 0 {
        assert(pv[0].0 != k);
        lemma_sym_lookup_at(pv.drop_first(), k, i - 1);
    }
}

/// Looking up an absent name yields nothing.
proof fn lemma_sym_lookup_absent(pv: Seq<(Seq<char>, SymS)>, k: Seq<char>)
    requires
        forall|j: int| 0 <= j < pv.len() ==> (#[trigger] pv[j]).0 != k,
    ensures
        sym_lookup(pv, k) is None,
    decreases pv.len(),
{
    if pv.len() > 0 {
        assert(pv[0].0 != k);
        lemma_sym_lookup_absent(pv.drop_first(), k);
    }
}

} // verus!
