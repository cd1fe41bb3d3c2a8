//! The analysis as a function on mathematical values: a state that the
//! statements of the body update one after the other.

use vstd::prelude::*;
use super::ast::{Term, Statement, PlaceView, OutView, SaveView};
use super::places::{add_place, add_places, reads_of, writes_of, before_close, lookup_answer};

verus! {

/// The state of the analysis.
///
/// `reads` and `writes` are the places seen read and already logged,
/// `cond` counts, for each place written in a branch of an `if`, the
/// writes seen (in order of the first write), `branches` counts the
/// branches of the current `if` chain, `in_region` tells whether the
/// walk is inside an atomic region, `out` is the body emitted so far, and
/// `failed` records a logged write that is not a plain identifier, which
/// the emitted code cannot name. `ticks` counts the updates of `cond` and
/// `branches`; it bounds both. `table` holds the answers, given to the
/// analysis, of whether index texts parse as expressions.
#[verifier::ext_equal]
pub struct Analysis {
    pub reads: Seq<PlaceView>,
    pub writes: Seq<PlaceView>,
    pub cond: Seq<(PlaceView, nat)>,
    pub branches: nat,
    pub in_region: bool,
    pub out: Seq<OutView>,
    pub failed: bool,
    pub ticks: nat,
    pub table: Seq<(Seq<char>, bool)>,
}

/// The state at the start of the walk, with the parse answers `table`.
pub open spec fn initial_analysis(table: Seq<(Seq<char>, bool)>) -> Analysis {
    Analysis {
        reads: Seq::empty(),
        writes: Seq::empty(),
        cond: Seq::empty(),
        branches: 0,
        in_region: false,
        out: Seq::empty(),
        failed: false,
        ticks: 0,
        table,
    }
}

/// Logs a place: marks it written and emits the save that fits its form.
/// An array element whose index text the table answers as not parsing is
/// marked written but not saved.
pub open spec fn save_place(s: Analysis, p: PlaceView) -> Analysis {
    let s1 = Analysis { writes: add_place(s.writes, p), ..s };
    match p {
        PlaceView::Deref(n) => Analysis {
            out: s1.out.push(OutView::Save(SaveView::Pointer(n))),
            ..s1
        },
        PlaceView::Elem(a, t) => if lookup_answer(s.table, before_close(t)) {
            Analysis { out: s1.out.push(OutView::Save(SaveView::Element(a, before_close(t)))), ..s1 }
        } else {
            s1
        },
        PlaceView::Var(n) => Analysis {
            out: s1.out.push(OutView::Save(SaveView::Reference(n))),
            ..s1
        },
    }
}

/// Logs a place that is not logged yet.
pub open spec fn save_if_new(s: Analysis, p: PlaceView) -> Analysis {
    if !s.writes.contains(p) {
        save_place(s, p)
    } else {
        s
    }
}

/// Logs a place that is written after it was read, unless it is logged.
pub open spec fn save_if_war(s: Analysis, p: PlaceView) -> Analysis {
    if s.reads.contains(p) && !s.writes.contains(p) {
        save_place(s, p)
    } else {
        s
    }
}

/// Logs each of `ps` that is not logged yet, in order.
pub open spec fn save_all_new(s: Analysis, ps: Seq<PlaceView>) -> Analysis
    decreases ps.len(),
{
    if ps.len() == 0 {
        s
    } else {
        save_if_new(save_all_new(s, ps.drop_last()), ps.last())
    }
}

/// Whether `cond` counts writes of `p`.
pub open spec fn has_key(cond: Seq<(PlaceView, nat)>, p: PlaceView) -> bool {
    exists|i: int| 0 <= i < cond.len() && cond[i].0 == p
}

/// Whether no place is counted twice.
pub open spec fn keys_unique(cond: Seq<(PlaceView, nat)>) -> bool {
    forall|i: int, j: int| 0 <= i < j < cond.len() ==> cond[i].0 != cond[j].0
}

/// Counts one more write of `p`.
pub open spec fn bump(cond: Seq<(PlaceView, nat)>, p: PlaceView) -> Seq<(PlaceView, nat)> {
    if has_key(cond, p) {
        let i = choose|i: int| 0 <= i < cond.len() && cond[i].0 == p;
        cond.update(i, (p, cond[i].1 + 1))
    } else {
        cond.push((p, 1))
    }
}

/// Counts a write of `p` in a branch.
pub open spec fn count_write(s: Analysis, p: PlaceView) -> Analysis {
    Analysis { cond: bump(s.cond, p), ticks: s.ticks + 1, ..s }
}

/// Counts a write of each of `ps`, in order.
pub open spec fn count_all(s: Analysis, ps: Seq<PlaceView>) -> Analysis
    decreases ps.len(),
{
    if ps.len() == 0 {
        s
    } else {
        count_write(count_all(s, ps.drop_last()), ps.last())
    }
}

/// Counts the writes of a `then` branch: each statement that assigns to a
/// plain identifier counts one write of it.
pub open spec fn count_then(s: Analysis, stmts: Seq<Statement>) -> Analysis
    decreases stmts.len(),
{
    if stmts.len() == 0 {
        s
    } else {
        let s1 = count_then(s, stmts.drop_last());
        match stmts.last() {
            Statement::Term(Term::Assign { left, .. }) => match *left {
                Term::Path { ident: Some(n), .. } => count_write(s1, PlaceView::Var(n@)),
                _ => s1,
            },
            _ => s1,
        }
    }
}

/// Counts the writes of a final `else` block: each expression statement
/// counts one write of each place it writes.
pub open spec fn count_else_block(s: Analysis, stmts: Seq<Statement>) -> Analysis
    decreases stmts.len(),
{
    if stmts.len() == 0 {
        s
    } else {
        let s1 = count_else_block(s, stmts.drop_last());
        match stmts.last() {
            Statement::Term(x) => count_all(s1, writes_of(x)),
            _ => s1,
        }
    }
}

/// Counts a new branch.
pub open spec fn new_branch(s: Analysis) -> Analysis {
    Analysis { branches: s.branches + 1, ticks: s.ticks + 1, ..s }
}

/// Walks an `if` and the `else` chain behind it, counting branches and writes.
pub open spec fn visit_if(s: Analysis, then_branch: Seq<Statement>, else_branch: Option<Box<Term>>) -> Analysis
    decreases else_branch,
{
    let s2 = count_then(new_branch(s), then_branch);
    match else_branch {
        Some(e) => visit_else(s2, *e),
        None => s2,
    }
}

/// Walks the `else` part of an `if`.
pub open spec fn visit_else(s: Analysis, e: Term) -> Analysis
    decreases e,
{
    match e {
        Term::If { then_branch, else_branch } => visit_if(s, then_branch@, else_branch),
        Term::Block { stmts } => count_else_block(new_branch(s), stmts@),
        _ => new_branch(s),
    }
}

/// The places whose count of writes differs from the number of branches,
/// in counting order: those not written in every branch.
pub open spec fn pending(cond: Seq<(PlaceView, nat)>, b: nat) -> Seq<PlaceView>
    decreases cond.len(),
{
    if cond.len() == 0 {
        Seq::empty()
    } else {
        let r = pending(cond.drop_last(), b);
        if cond.last().1 != b {
            r.push(cond.last().0)
        } else {
            r
        }
    }
}

/// Emits an unsafe save of each written place; a place other than a plain
/// identifier cannot be named and fails the analysis.
pub open spec fn save_unsafe(s: Analysis, ws: Seq<PlaceView>) -> Analysis
    decreases ws.len(),
{
    if ws.len() == 0 {
        s
    } else {
        let s1 = save_unsafe(s, ws.drop_last());
        match ws.last() {
            PlaceView::Var(n) => Analysis {
                out: s1.out.push(OutView::Save(SaveView::UnsafeReference(n))),
                ..s1
            },
            _ => Analysis { failed: true, ..s1 },
        }
    }
}

/// Walks the statements of an `unsafe` block.
pub open spec fn visit_unsafe(s: Analysis, stmts: Seq<Statement>) -> Analysis
    decreases stmts.len(),
{
    if stmts.len() == 0 {
        s
    } else {
        let s1 = visit_unsafe(s, stmts.drop_last());
        match stmts.last() {
            Statement::Term(x) => save_unsafe(
                Analysis { reads: add_places(s1.reads, reads_of(x)), ..s1 },
                writes_of(x),
            ),
            _ => s1,
        }
    }
}

/// Analyses one expression.
pub open spec fn visit_expr(s: Analysis, e: Term) -> Analysis {
    match e {
        Term::Assign { left, right } => match *left {
            Term::Unary { operand, .. } => match *operand {
                Term::Path { ident: Some(n), .. } => save_if_war(s, PlaceView::Var(n@)),
                _ => s,
            },
            Term::Path { ident, .. } => {
                let s1 = Analysis { reads: add_places(s.reads, reads_of(*right)), ..s };
                match ident {
                    Some(n) => save_if_war(s1, PlaceView::Var(n@)),
                    None => s1,
                }
            },
            _ => s,
        },
        Term::Path { last, .. } => Analysis { reads: add_place(s.reads, PlaceView::Var(last@)), ..s },
        Term::Binary { left, right } => match *left {
            Term::Index { base, index_text, .. } => match *base {
                Term::Path { ident: Some(a), .. } => {
                    let loc = PlaceView::Elem(a@, index_text@);
                    let s1 = Analysis {
                        reads: add_place(add_places(s.reads, reads_of(*right)), loc),
                        ..s
                    };
                    save_if_war(s1, loc)
                },
                _ => s,
            },
            Term::Unary { deref: true, operand } => match *operand {
                Term::Path { ident: Some(n), .. } => {
                    let s1 = Analysis { reads: add_place(s.reads, PlaceView::Var(n@)), ..s };
                    if !s1.writes.contains(PlaceView::Deref(n@)) {
                        Analysis {
                            out: s1.out.push(OutView::Save(SaveView::PointerCore(n@))),
                            writes: add_place(s1.writes, PlaceView::Deref(n@)),
                            ..s1
                        }
                    } else {
                        s1
                    }
                },
                _ => s,
            },
            Term::Path { ident: Some(n), .. } => {
                let s1 = Analysis { reads: add_place(s.reads, PlaceView::Var(n@)), ..s };
                save_if_war(s1, PlaceView::Var(n@))
            },
            _ => s,
        },
        Term::If { then_branch, else_branch } => {
            let s1 = visit_if(s, then_branch@, else_branch);
            let s2 = save_all_new(s1, pending(s1.cond, s1.branches));
            Analysis { branches: 0, ..s2 }
        },
        Term::Unsafe { stmts } => visit_unsafe(s, stmts@),
        _ => s,
    }
}

/// The identifier `start_atomic`.
pub open spec fn start_atomic_name() -> Seq<char> {
    seq!['s', 't', 'a', 'r', 't', '_', 'a', 't', 'o', 'm', 'i', 'c']
}

/// The identifier `end_atomic`.
pub open spec fn end_atomic_name() -> Seq<char> {
    seq!['e', 'n', 'd', '_', 'a', 't', 'o', 'm', 'i', 'c']
}

/// How a statement moves the walk in or out of an atomic region: a call
/// of `start_atomic` enters one, a call of `end_atomic` leaves it.
pub open spec fn region_after(in_region: bool, stmt: Statement) -> bool {
    match stmt {
        Statement::Term(Term::Call { callee }) => match *callee {
            Term::Path { ident: Some(n), .. } => if n@ == start_atomic_name() {
                true
            } else if n@ == end_atomic_name() {
                false
            } else {
                in_region
            },
            _ => in_region,
        },
        _ => in_region,
    }
}

/// Whether a statement is an expression statement that the analysis
/// looks into: any expression statement but a call.
pub open spec fn is_analysed(stmt: Statement) -> bool {
    match stmt {
        Statement::Term(Term::Call { .. }) => false,
        Statement::Term(_) => true,
        _ => false,
    }
}

/// Analyses the statement at position `i` of the body and emits it after
/// the saves it calls for.
pub open spec fn visit_stmt(s: Analysis, i: nat, stmt: Statement) -> Analysis {
    let s1 = match stmt {
        Statement::Term(e) => if is_analysed(stmt) && s.in_region {
            visit_expr(s, e)
        } else {
            s
        },
        _ => s,
    };
    Analysis { in_region: region_after(s.in_region, stmt), out: s1.out.push(OutView::Keep(i)), ..s1 }
}

/// Analyses the statements of the body in order.
pub open spec fn visit_stmts(s: Analysis, stmts: Seq<Statement>) -> Analysis
    decreases stmts.len(),
{
    if stmts.len() == 0 {
        s
    } else {
        visit_stmt(visit_stmts(s, stmts.drop_last()), (stmts.len() - 1) as nat, stmts.last())
    }
}

/// Analyses, in order, the expressions met before the body (those of the
/// attributes and of the signature).
pub open spec fn visit_exprs(s: Analysis, es: Seq<Term>) -> Analysis
    decreases es.len(),
{
    if es.len() == 0 {
        s
    } else {
        visit_expr(visit_exprs(s, es.drop_last()), es.last())
    }
}

/// The state after the whole function, with the parse answers `table`.
pub open spec fn analysis_of(preamble: Seq<Term>, body: Seq<Statement>, table: Seq<(Seq<char>, bool)>) -> Analysis {
    visit_stmts(visit_exprs(initial_analysis(table), preamble), body)
}

/// The instrumented body, or `None` where the analysis fails, with the
/// parse answers `table`.
pub open spec fn instrumented(preamble: Seq<Term>, body: Seq<Statement>, table: Seq<(Seq<char>, bool)>) -> Option<Seq<OutView>> {
    let s = analysis_of(preamble, body, table);
    if s.failed {
        None
    } else {
        Some(s.out)
    }
}

} // verus!
