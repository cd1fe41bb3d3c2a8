//! The syntax model that the analysis reads, and the statements it emits.

use vstd::prelude::*;

verus! {

/// An expression of the analysed function, reduced to what the analysis
/// looks at.
#[derive(Debug, PartialEq, Eq)]
pub enum Term {
    /// A path such as `x` or `a::b`. `ident` holds the identifier when the
    /// path is a single plain identifier; `last` is its last segment.
    Path { ident: Option<Vec<char>>, last: Vec<char> },
    /// A binary operation, compound assignments such as `x += 1` included.
    Binary { left: Box<Term>, right: Box<Term> },
    /// A unary operation; `deref` tells a dereference `*e` from `!e` and `-e`.
    Unary { deref: bool, operand: Box<Term> },
    /// A field access `base.field`.
    Field { base: Box<Term> },
    /// An index expression `base[index]`; `index_text` is the index rendered
    /// as source text.
    Index { base: Box<Term>, index: Box<Term>, index_text: Vec<char> },
    /// An assignment `left = right`.
    Assign { left: Box<Term>, right: Box<Term> },
    /// `if .. { then_branch } else else_branch`; the condition is not analysed.
    If { then_branch: Vec<Statement>, else_branch: Option<Box<Term>> },
    /// A block `{ .. }`.
    Block { stmts: Vec<Statement> },
    /// An `unsafe { .. }` block.
    Unsafe { stmts: Vec<Statement> },
    /// A call; its arguments are not analysed.
    Call { callee: Box<Term> },
    /// Any other expression.
    Other,
}

/// A statement of the analysed function.
#[derive(Debug, PartialEq, Eq)]
pub enum Statement {
    /// A `let` binding.
    Local,
    /// An expression statement, with or without a semicolon.
    Term(Term),
    /// An item or a macro statement.
    Other,
}

/// A storage location that the analysis tracks.
#[derive(Debug, PartialEq, Eq)]
pub enum Place {
    /// A variable `x`.
    Var(Vec<char>),
    /// The target `*p` of a pointer variable `p`.
    Deref(Vec<char>),
    /// The element `a[index]` of an array variable `a`, with the index as text.
    Elem(Vec<char>, Vec<char>),
}

/// The mathematical value of a [`Place`].
pub enum PlaceView {
    Var(Seq<char>),
    Deref(Seq<char>),
    Elem(Seq<char>, Seq<char>),
}

impl View for Place {
    type V = PlaceView;

    open spec fn view(&self) -> PlaceView {
        match self {
            Place::Var(n) => PlaceView::Var(n@),
            Place::Deref(n) => PlaceView::Deref(n@),
            Place::Elem(a, t) => PlaceView::Elem(a@, t@),
        }
    }
}

/// A `save_variables(..)` call that the analysis inserts; the variants
/// differ in the tokens that the call is written with.
#[derive(Debug, PartialEq, Eq)]
pub enum SaveCall {
    /// `save_variables(&x as *const _, std::mem::size_of_val(&x));`
    Reference(Vec<char>),
    /// `save_variables(p as *const _, std::mem::size_of_val(p));`
    Pointer(Vec<char>),
    /// `save_variables(p as *const _, core::mem::size_of_val(p));`
    PointerCore(Vec<char>),
    /// `save_variables(&a[i] as *const _, std::mem::size_of_val(&a[i]));`
    /// with the index expression given as text.
    Element(Vec<char>, Vec<char>),
    /// `unsafe { save_variables(&x as *const _, std::mem::size_of_val(&x)); }`
    UnsafeReference(Vec<char>),
}

/// The mathematical value of a [`SaveCall`].
pub enum SaveView {
    Reference(Seq<char>),
    Pointer(Seq<char>),
    PointerCore(Seq<char>),
    Element(Seq<char>, Seq<char>),
    UnsafeReference(Seq<char>),
}

impl View for SaveCall {
    type V = SaveView;

    open spec fn view(&self) -> SaveView {
        match self {
            SaveCall::Reference(n) => SaveView::Reference(n@),
            SaveCall::Pointer(n) => SaveView::Pointer(n@),
            SaveCall::PointerCore(n) => SaveView::PointerCore(n@),
            SaveCall::Element(a, t) => SaveView::Element(a@, t@),
            SaveCall::UnsafeReference(n) => SaveView::UnsafeReference(n@),
        }
    }
}

/// A statement of the instrumented body: a statement of the input, by its
/// position in the input, or an inserted save.
#[derive(Debug, PartialEq, Eq)]
pub enum OutStmt {
    Keep(usize),
    Save(SaveCall),
}

/// The mathematical value of an [`OutStmt`].
pub enum OutView {
    Keep(nat),
    Save(SaveView),
}

impl View for OutStmt {
    type V = OutView;

    open spec fn view(&self) -> OutView {
        match self {
            OutStmt::Keep(i) => OutView::Keep(*i as nat),
            OutStmt::Save(c) => OutView::Save(c@),
        }
    }
}

/// The views of a sequence of places.
pub open spec fn place_views(v: Seq<Place>) -> Seq<PlaceView> {
    v.map_values(|p: Place| p@)
}

/// The views of a sequence of emitted statements.
pub open spec fn out_views(v: Seq<OutStmt>) -> Seq<OutView> {
    v.map_values(|o: OutStmt| o@)
}

/// The number of syntax nodes of an expression.
pub open spec fn expr_nodes(e: Term) -> nat
    decreases e,
{
    match e {
        Term::Binary { left, right } => 1 + expr_nodes(*left) + expr_nodes(*right),
        Term::Unary { operand, .. } => 1 + expr_nodes(*operand),
        Term::Field { base } => 1 + expr_nodes(*base),
        Term::Index { base, index, .. } => 1 + expr_nodes(*base) + expr_nodes(*index),
        Term::Assign { left, right } => 1 + expr_nodes(*left) + expr_nodes(*right),
        Term::If { then_branch, else_branch } => 1 + stmts_nodes(then_branch@) + match else_branch {
            Some(b) => expr_nodes(*b),
            None => 0,
        },
        Term::Block { stmts } => 1 + stmts_nodes(stmts@),
        Term::Unsafe { stmts } => 1 + stmts_nodes(stmts@),
        Term::Call { callee } => 1 + expr_nodes(*callee),
        _ => 1,
    }
}

/// The number of syntax nodes of a statement.
pub open spec fn stmt_nodes(s: Statement) -> nat
    decreases s,
{
    match s {
        Statement::Term(e) => 1 + expr_nodes(e),
        _ => 1,
    }
}

/// The number of syntax nodes of a sequence of statements.
pub open spec fn stmts_nodes(s: Seq<Statement>) -> nat
    decreases s,
{
    if s.len() == 0 {
        0
    } else {
        stmts_nodes(s.drop_last()) + stmt_nodes(s.last())
    }
}

/// The number of syntax nodes of a sequence of expressions.
pub open spec fn exprs_nodes(s: Seq<Term>) -> nat
    decreases s.len(),
{
    if s.len() == 0 {
        0
    } else {
        exprs_nodes(s.drop_last()) + expr_nodes(s.last())
    }
}

/// A copy of a character sequence.
pub(crate) fn copy_chars(n: &Vec<char>) -> (r: Vec<char>)
    ensures
        r@ == n@,
{
    let mut r: Vec<char> = Vec::new();
    let mut i: usize = 0;
    while i < n.len()
        invariant
            i <= n.len(),
            r@ == n@.subrange(0, i as int),
        decreases n.len() - i,
    {
        r.push(n[i]);
        i = i + 1;
        assert(r@ =~= n@.subrange(0, i as int));
    }
    assert(r@ =~= n@);
    r
}

/// Whether two character sequences are equal.
pub(crate) fn same_chars(a: &Vec<char>, b: &Vec<char>) -> (r: bool)
    ensures
        r == (a@ == b@),
{
    if a.len() != b.len() {
        return false;
    }
    let mut i: usize = 0;
    while i < a.len()
        invariant
            i <= a.len(),
            a.len() == b.len(),
            a@.subrange(0, i as int) == b@.subrange(0, i as int),
        decreases a.len() - i,
    {
        if a[i] != b[i] {
            assert(a@[i as int] != b@[i as int]);
            return false;
        }
        assert(a@.subrange(0, i + 1) =~= a@.subrange(0, i as int).push(a@[i as int]));
        assert(b@.subrange(0, i + 1) =~= b@.subrange(0, i as int).push(b@[i as int]));
        i = i + 1;
    }
    assert(a@ =~= a@.subrange(0, i as int));
    assert(b@ =~= b@.subrange(0, i as int));
    true
}

/// A copy of a place.
pub(crate) fn copy_place(p: &Place) -> (r: Place)
    ensures
        r@ == p@,
{
    match p {
        Place::Var(n) => Place::Var(copy_chars(n)),
        Place::Deref(n) => Place::Deref(copy_chars(n)),
        Place::Elem(a, t) => Place::Elem(copy_chars(a), copy_chars(t)),
    }
}

/// Whether two places are the same location.
pub(crate) fn same_place(p: &Place, q: &Place) -> (r: bool)
    ensures
        r == (p@ == q@),
{
    match (p, q) {
        (Place::Var(a), Place::Var(b)) => same_chars(a, b),
        (Place::Deref(a), Place::Deref(b)) => same_chars(a, b),
        (Place::Elem(a, s), Place::Elem(b, t)) => same_chars(a, b) && same_chars(s, t),
        _ => false,
    }
}

} // verus!
