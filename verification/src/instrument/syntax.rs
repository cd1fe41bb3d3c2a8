//! Reading a function item with `syn` into the analysis' model.
//!
//! `syn` parses the source text; the small functions below each make one
//! call into it or take one step of its syntax tree apart, and the
//! verified functions put the model together from what they return.

use vstd::prelude::*;
use quote::ToTokens;
use syn::visit_mut::VisitMut;
use super::ast::{Term, Statement, OutStmt, expr_nodes, stmt_nodes, stmts_nodes, exprs_nodes, out_views};
use super::analysis::{war_instrument, InstrumentError};
use super::places::{answer_keys, index_texts};
use super::spec::instrumented;

verus! {

#[verifier::external_type_specification]
#[verifier::external_body]
pub struct ExSynExpr(syn::Expr);

#[verifier::external_type_specification]
#[verifier::external_body]
pub struct ExSynStmt(syn::Stmt);

#[verifier::external_type_specification]
#[verifier::external_body]
pub struct ExSynItemFn(syn::ItemFn);

#[verifier::external_type_specification]
#[verifier::external_body]
pub struct ExSynExprPath(syn::ExprPath);

#[verifier::external_type_specification]
#[verifier::external_body]
pub struct ExSynUnOp(syn::UnOp);

/// A step of an expression taken apart: its kind and its parts.
pub(crate) enum ExprForm<'a> {
    Path(&'a syn::ExprPath),
    Binary(&'a syn::Expr, &'a syn::Expr),
    Unary(&'a syn::UnOp, &'a syn::Expr),
    Field(&'a syn::Expr),
    Index(&'a syn::Expr, &'a syn::Expr),
    Assign(&'a syn::Expr, &'a syn::Expr),
    Call(&'a syn::Expr),
    /// Any other kind, among them the block kinds of [`BlockForm`].
    Other,
}

/// A step of an expression with a block taken apart.
pub(crate) enum BlockForm<'a> {
    /// `if`: the statements of the `then` block and the `else` part.
    If(&'a Vec<syn::Stmt>, Option<&'a syn::Expr>),
    Block(&'a Vec<syn::Stmt>),
    Unsafe(&'a Vec<syn::Stmt>),
    Other,
}

/// A step of a statement taken apart.
pub(crate) enum StmtForm<'a> {
    Local,
    Eval(&'a syn::Expr),
    Other,
}

/// The function item that `text` parses as, with
/// `syn::parse_str::<syn::ItemFn>`, or the message of the parse error.
/// Nothing is stated of the outcome: inside a procedural macro the
/// compiler's own lexer has a say in it.
#[verifier::external_body]
fn parse_item_fn(text: &Vec<char>) -> Result<syn::ItemFn, Vec<char>> {
    let s: String = text.iter().collect();
    syn::parse_str::<syn::ItemFn>(&s).map_err(|e| e.to_string().chars().collect())
}

/// Tells the kinds of `syn::Expr` apart that [`ExprForm`] names.
#[verifier::external_body]
fn expr_form(e: &syn::Expr) -> ExprForm<'_> {
    match e {
        syn::Expr::Path(p) => ExprForm::Path(p),
        syn::Expr::Binary(b) => ExprForm::Binary(&b.left, &b.right),
        syn::Expr::Unary(u) => ExprForm::Unary(&u.op, &u.expr),
        syn::Expr::Field(f) => ExprForm::Field(&f.base),
        syn::Expr::Index(i) => ExprForm::Index(&i.expr, &i.index),
        syn::Expr::Assign(a) => ExprForm::Assign(&a.left, &a.right),
        syn::Expr::Call(c) => ExprForm::Call(&c.func),
        _ => ExprForm::Other,
    }
}

/// Tells the kinds of `syn::Expr` apart that [`BlockForm`] names.
#[verifier::external_body]
fn block_form(e: &syn::Expr) -> BlockForm<'_> {
    match e {
        syn::Expr::If(i) => BlockForm::If(&i.then_branch.stmts, i.else_branch.as_ref().map(|b| &*b.1)),
        syn::Expr::Block(b) => BlockForm::Block(&b.block.stmts),
        syn::Expr::Unsafe(u) => BlockForm::Unsafe(&u.block.stmts),
        _ => BlockForm::Other,
    }
}

/// Tells the kinds of `syn::Stmt` apart.
#[verifier::external_body]
fn stmt_form(s: &syn::Stmt) -> StmtForm<'_> {
    match s {
        syn::Stmt::Local(_) => StmtForm::Local,
        syn::Stmt::Expr(e, _) => StmtForm::Eval(e),
        _ => StmtForm::Other,
    }
}

/// The identifier of a path, with `syn::Path::get_ident`, where the path
/// is a single plain identifier.
#[verifier::external_body]
fn path_ident(p: &syn::ExprPath) -> Option<Vec<char>> {
    p.path.get_ident().map(|i| i.to_string().chars().collect())
}

/// The last segment of a path, where it has one.
#[verifier::external_body]
fn path_last(p: &syn::ExprPath) -> Option<Vec<char>> {
    p.path.segments.last().map(|s| s.ident.to_string().chars().collect())
}

/// Whether a unary operator is the dereference `*`.
#[verifier::external_body]
fn is_deref(op: &syn::UnOp) -> bool {
    matches!(op, syn::UnOp::Deref(_))
}

/// An expression rendered as source text, with `ToTokens::to_token_stream`
/// and `TokenStream`'s `to_string`.
#[verifier::external_body]
fn expr_text(e: &syn::Expr) -> Vec<char> {
    e.to_token_stream().to_string().chars().collect()
}

/// The statements of a function item's body.
#[verifier::external_body]
fn body_stmts(f: &syn::ItemFn) -> &Vec<syn::Stmt> {
    &f.block.stmts
}

/// Collects the expressions that syn's walk meets, without walking into
/// them.
pub struct PreambleCollector {
    exprs: Vec<syn::Expr>,
}

impl VisitMut for PreambleCollector {
    #[verifier::external_body]
    fn visit_expr_mut(&mut self, e: &mut syn::Expr) {
        self.exprs.push(e.clone());
    }
}

/// The expressions of a function item's attributes, visibility and
/// signature, in the order of syn's walk of the item (`visit_item_fn_mut`
/// walks those parts in this order before the body).
#[verifier::external_body]
fn preamble_exprs(f: &mut syn::ItemFn) -> Vec<syn::Expr> {
    let mut c = PreambleCollector { exprs: Vec::new() };
    c.visit_attributes_mut(&mut f.attrs);
    c.visit_visibility_mut(&mut f.vis);
    c.visit_signature_mut(&mut f.sig);
    c.exprs
}

/// Whether a model has the kind of the expression form it was built from.
pub(crate) open spec fn expr_agrees(form: ExprForm, t: Term) -> bool {
    match form {
        ExprForm::Path(_) => t is Path || t is Other,
        ExprForm::Binary(_, _) => t is Binary,
        ExprForm::Unary(_, _) => t is Unary,
        ExprForm::Field(_) => t is Field,
        ExprForm::Index(_, _) => t is Index,
        ExprForm::Assign(_, _) => t is Assign,
        ExprForm::Call(_) => t is Call,
        ExprForm::Other => t is Other,
    }
}

/// Whether a model has the kind and the parts of the block form it was
/// built from: an `if` keeps its `then` statements, one model each, and
/// has an `else` part exactly when the form has one; a block keeps its
/// statements, one model each.
pub(crate) open spec fn block_agrees(form: BlockForm, t: Term) -> bool {
    match form {
        BlockForm::If(ts, else_part) => match t {
            Term::If { then_branch, else_branch } => then_branch@.len() == ts@.len() && (
            else_branch is Some <==> else_part is Some),
            _ => false,
        },
        BlockForm::Block(ss) => match t {
            Term::Block { stmts } => stmts@.len() == ss@.len(),
            _ => false,
        },
        BlockForm::Unsafe(ss) => match t {
            Term::Unsafe { stmts } => stmts@.len() == ss@.len(),
            _ => false,
        },
        BlockForm::Other => t is Other,
    }
}

/// The model of a `syn` expression, built within a budget of `budget`
/// syntax nodes; `None` where the budget does not suffice. The model and
/// the budget left over come back; the model has at most as many nodes as
/// were spent. A path without a segment, which `syn` does not build, is
/// read as [`Term::Other`].
pub(crate) fn term_of(e: &syn::Expr, budget: usize) -> (r: Option<(Term, usize)>)
    ensures
        r matches Some((t, rest)) ==> rest < budget && expr_nodes(t) <= budget - rest,
    decreases budget, 2usize,
{
    if budget == 0 {
        return None;
    }
    match expr_form(e) {
        ExprForm::Other => term_of_block(block_form(e), budget),
        form => term_of_form(form, budget),
    }
}

/// The model of an expression of one of the forms of [`ExprForm`], within
/// a budget as in [`term_of`]; its kind is that of the form.
pub(crate) fn term_of_form(form: ExprForm, budget: usize) -> (r: Option<(Term, usize)>)
    requires
        budget > 0,
    ensures
        r matches Some((t, rest)) ==> rest < budget && expr_nodes(t) <= budget - rest && expr_agrees(
            form,
            t,
        ),
    decreases budget, 1usize,
{
    let b = budget - 1;
    match form {
        ExprForm::Path(p) => match path_last(p) {
            Some(last) => Some((Term::Path { ident: path_ident(p), last }, b)),
            None => Some((Term::Other, b)),
        },
        ExprForm::Binary(l, r) => {
            let (lt, b1) = term_of(l, b)?;
            let (rt, b2) = term_of(r, b1)?;
            Some((Term::Binary { left: Box::new(lt), right: Box::new(rt) }, b2))
        },
        ExprForm::Unary(op, x) => {
            let (xt, b1) = term_of(x, b)?;
            Some((Term::Unary { deref: is_deref(op), operand: Box::new(xt) }, b1))
        },
        ExprForm::Field(x) => {
            let (xt, b1) = term_of(x, b)?;
            Some((Term::Field { base: Box::new(xt) }, b1))
        },
        ExprForm::Index(x, i) => {
            let (xt, b1) = term_of(x, b)?;
            let (it, b2) = term_of(i, b1)?;
            Some((Term::Index { base: Box::new(xt), index: Box::new(it), index_text: expr_text(i) }, b2))
        },
        ExprForm::Assign(l, r) => {
            let (lt, b1) = term_of(l, b)?;
            let (rt, b2) = term_of(r, b1)?;
            Some((Term::Assign { left: Box::new(lt), right: Box::new(rt) }, b2))
        },
        ExprForm::Call(f) => {
            let (ft, b1) = term_of(f, b)?;
            Some((Term::Call { callee: Box::new(ft) }, b1))
        },
        ExprForm::Other => Some((Term::Other, b)),
    }
}

/// The model of an expression of one of the forms of [`BlockForm`],
/// within a budget as in [`term_of`]; it agrees with the form (see
/// [`block_agrees`]).
pub(crate) fn term_of_block(form: BlockForm, budget: usize) -> (r: Option<(Term, usize)>)
    requires
        budget > 0,
    ensures
        r matches Some((t, rest)) ==> rest < budget && expr_nodes(t) <= budget - rest && block_agrees(
            form,
            t,
        ),
    decreases budget, 1usize,
{
    let b = budget - 1;
    match form {
        BlockForm::If(then_stmts, else_part) => {
            let (ts, b1) = statements_of(then_stmts, b)?;
            match else_part {
                Some(x) => {
                    let (xt, b2) = term_of(x, b1)?;
                    Some((Term::If { then_branch: ts, else_branch: Some(Box::new(xt)) }, b2))
                },
                None => Some((Term::If { then_branch: ts, else_branch: None }, b1)),
            }
        },
        BlockForm::Block(ss) => {
            let (ts, b1) = statements_of(ss, b)?;
            Some((Term::Block { stmts: ts }, b1))
        },
        BlockForm::Unsafe(ss) => {
            let (ts, b1) = statements_of(ss, b)?;
            Some((Term::Unsafe { stmts: ts }, b1))
        },
        BlockForm::Other => Some((Term::Other, b)),
    }
}

/// Whether a statement model has the kind of the statement form it was
/// built from.
pub(crate) open spec fn stmt_agrees(form: StmtForm, st: Statement) -> bool {
    match form {
        StmtForm::Local => st is Local,
        StmtForm::Eval(_) => st is Term,
        StmtForm::Other => st is Other,
    }
}

/// The model of a statement of the form `form`, within a budget as in
/// [`term_of`]; its kind is that of the form.
pub(crate) fn statement_of(form: StmtForm, budget: usize) -> (r: Option<(Statement, usize)>)
    requires
        budget > 0,
    ensures
        r matches Some((st, rest)) ==> rest < budget && stmt_nodes(st) <= budget - rest && stmt_agrees(
            form,
            st,
        ),
    decreases budget, 0usize,
{
    match form {
        StmtForm::Local => Some((Statement::Local, budget - 1)),
        StmtForm::Eval(x) => {
            let (xt, b1) = term_of(x, budget - 1)?;
            Some((Statement::Term(xt), b1))
        },
        StmtForm::Other => Some((Statement::Other, budget - 1)),
    }
}

/// The models of `syn` statements, within a budget of syntax nodes as in
/// [`term_of`].
pub(crate) fn statements_of(ss: &Vec<syn::Stmt>, budget: usize) -> (r: Option<(Vec<Statement>, usize)>)
    ensures
        r matches Some((v, rest)) ==> rest <= budget && stmts_nodes(v@) <= budget - rest && v@.len()
            == ss@.len(),
    decreases budget, 1usize,
{
    let mut out: Vec<Statement> = Vec::new();
    let mut left: usize = budget;
    let mut i: usize = 0;
    while i < ss.len()
        invariant
            i <= ss.len(),
            left <= budget,
            stmts_nodes(out@) <= budget - left,
            out@.len() == i,
        decreases ss.len() - i,
    {
        if left == 0 {
            return None;
        }
        let ghost before = left;
        let (st, rest) = statement_of(stmt_form(&ss[i]), left)?;
        left = rest;
        proof {
            let v = out@.push(st);
            assert(v.drop_last() =~= out@);
            assert(v.last() == st);
            assert(stmts_nodes(v) == stmts_nodes(out@) + stmt_nodes(st));
            assert(stmt_nodes(st) <= before - left);
        }
        out.push(st);
        i = i + 1;
    }
    Some((out, left))
}

/// Why a function item could not be instrumented.
pub enum FnInstrumentError {
    /// The text is not a function item; the parser's message.
    Unparsed(Vec<char>),
    /// The function has more syntax nodes than a `usize` counts.
    TooLarge,
    /// See [`InstrumentError::UnnamedUnsafeWrite`].
    UnnamedUnsafeWrite,
}

/// A function item read and instrumented: the parsed item, its model (the
/// attribute and signature expressions, and the body statements) and the
/// instrumented body.
pub struct InstrumentedFn {
    pub item: syn::ItemFn,
    pub preamble: Vec<Term>,
    pub body: Vec<Statement>,
    pub out: Vec<OutStmt>,
}

/// The models of the preamble expressions, within a budget as in
/// [`term_of`].
fn terms_of(es: &Vec<syn::Expr>, budget: usize) -> (r: Option<(Vec<Term>, usize)>)
    ensures
        r matches Some((v, rest)) ==> rest <= budget && exprs_nodes(v@) <= budget - rest,
{
    let mut out: Vec<Term> = Vec::new();
    let mut left: usize = budget;
    let mut i: usize = 0;
    while i < es.len()
        invariant
            i <= es.len(),
            left <= budget,
            exprs_nodes(out@) <= budget - left,
        decreases es.len() - i,
    {
        let (t, b1) = term_of(&es[i], left)?;
        left = b1;
        proof {
            assert(out@.push(t).drop_last() =~= out@);
        }
        out.push(t);
        i = i + 1;
    }
    Some((out, left))
}

/// Reads the function item in `text` with `syn` and instruments it: the
/// preamble and body models are those of the parsed item, and the
/// instrumented body is what [`war_instrument`] makes of them.
///
/// Whether `text` parses, and which index texts parse, is `syn`'s answer,
/// which this library does not state; whatever it is, a successful result
/// is the instrumentation of the model under some answers for exactly the
/// model's index texts, in order.
pub fn instrument_fn(text: &Vec<char>) -> (r: Result<InstrumentedFn, FnInstrumentError>)
    ensures
        r matches Ok(f) ==> exists|t: Seq<(Seq<char>, bool)>|
            {
                &&& answer_keys(t) == index_texts(f.preamble@, f.body@)
                &&& instrumented(f.preamble@, f.body@, t) == Some(out_views(f.out@))
            },
{
    let mut item = match parse_item_fn(text) {
        Ok(item) => item,
        Err(msg) => return Err(FnInstrumentError::Unparsed(msg)),
    };
    let pre_exprs = preamble_exprs(&mut item);
    let (preamble, left) = match terms_of(&pre_exprs, usize::MAX) {
        Some(p) => p,
        None => return Err(FnInstrumentError::TooLarge),
    };
    let (body, _rest) = match statements_of(body_stmts(&item), left) {
        Some(b) => b,
        None => return Err(FnInstrumentError::TooLarge),
    };
    match war_instrument(&preamble, &body) {
        Ok(out) => Ok(InstrumentedFn { item, preamble, body, out }),
        Err(InstrumentError::UnnamedUnsafeWrite) => Err(FnInstrumentError::UnnamedUnsafeWrite),
    }
}

} // verus!
