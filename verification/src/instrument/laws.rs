//! What the instrumentation keeps of a function: every input statement,
//! in order, and nothing new outside atomic regions.

use vstd::prelude::*;
use super::ast::{Term, Statement, PlaceView, OutView, SaveView};
use super::spec::{
    Analysis, save_place, save_if_new, save_if_war, save_all_new, count_write, count_all,
    count_then, count_else_block, new_branch, visit_if, visit_else, save_unsafe, visit_unsafe,
    visit_expr, region_after, is_analysed, visit_stmt, visit_stmts, visit_exprs, analysis_of,
    initial_analysis, instrumented, start_atomic_name, end_atomic_name, has_key, pending,
};
use super::places::{add_place, add_places, reads_of, writes_of, before_close, lookup_answer};

verus! {

/// The positions of the input statements in an emitted body, in order.
pub open spec fn kept(out: Seq<OutView>) -> Seq<nat>
    decreases out.len(),
{
    if out.len() == 0 {
        Seq::empty()
    } else {
        match out.last() {
            OutView::Keep(i) => kept(out.drop_last()).push(i),
            OutView::Save(_) => kept(out.drop_last()),
        }
    }
}

/// `b` is `a` followed by saves only.
pub open spec fn only_saves_after(a: Seq<OutView>, b: Seq<OutView>) -> bool {
    &&& a.len() <= b.len()
    &&& b.take(a.len() as int) == a
    &&& forall|k: int| a.len() <= k < b.len() ==> b[k] is Save
}

/// Whether the walk is inside an atomic region when it reaches statement
/// `i` of `body`.
pub open spec fn region_before(body: Seq<Statement>, i: int) -> bool
    decreases i,
{
    if i <= 0 {
        false
    } else {
        region_after(region_before(body, i - 1), body[i - 1])
    }
}

proof fn lemma_trans(a: Seq<OutView>, b: Seq<OutView>, c: Seq<OutView>)
    requires
        only_saves_after(a, b),
        only_saves_after(b, c),
    ensures
        only_saves_after(a, c),
{
    assert(c.take(a.len() as int) =~= c.take(b.len() as int).take(a.len() as int));
    assert forall|k: int| a.len() <= k < c.len() implies c[k] is Save by {
        if k < b.len() {
            assert(c.take(b.len() as int)[k] == c[k]);
        }
    }
}

proof fn lemma_refl(a: Seq<OutView>)
    ensures
        only_saves_after(a, a),
{
    assert(a.take(a.len() as int) =~= a);
}

proof fn lemma_push_save(a: Seq<OutView>, o: OutView)
    requires
        o is Save,
    ensures
        only_saves_after(a, a.push(o)),
{
    assert(a.push(o).take(a.len() as int) =~= a);
}

proof fn lemma_save_place(s: Analysis, p: PlaceView)
    ensures
        only_saves_after(s.out, save_place(s, p).out),
{
    lemma_refl(s.out);
    match p {
        PlaceView::Elem(a, t) => {
            if save_place(s, p).out != s.out {
                lemma_push_save(s.out, save_place(s, p).out.last());
                assert(save_place(s, p).out =~= s.out.push(save_place(s, p).out.last()));
            }
        },
        _ => {
            lemma_push_save(s.out, save_place(s, p).out.last());
            assert(save_place(s, p).out =~= s.out.push(save_place(s, p).out.last()));
        },
    }
}

proof fn lemma_save_if(s: Analysis, p: PlaceView)
    ensures
        only_saves_after(s.out, save_if_new(s, p).out),
        only_saves_after(s.out, save_if_war(s, p).out),
{
    lemma_refl(s.out);
    lemma_save_place(s, p);
}

proof fn lemma_save_all_new(s: Analysis, ps: Seq<PlaceView>)
    ensures
        only_saves_after(s.out, save_all_new(s, ps).out),
    decreases ps.len(),
{
    if ps.len() == 0 {
        lemma_refl(s.out);
    } else {
        let s1 = save_all_new(s, ps.drop_last());
        lemma_save_all_new(s, ps.drop_last());
        lemma_save_if(s1, ps.last());
        lemma_trans(s.out, s1.out, save_if_new(s1, ps.last()).out);
    }
}

proof fn lemma_count_all(s: Analysis, ps: Seq<PlaceView>)
    ensures
        count_all(s, ps).out == s.out,
        count_all(s, ps).in_region == s.in_region,
        count_all(s, ps).writes == s.writes,
    decreases ps.len(),
{
    if ps.len() > 0 {
        lemma_count_all(s, ps.drop_last());
    }
}

proof fn lemma_count_then(s: Analysis, stmts: Seq<Statement>)
    ensures
        count_then(s, stmts).out == s.out,
        count_then(s, stmts).in_region == s.in_region,
        count_then(s, stmts).writes == s.writes,
    decreases stmts.len(),
{
    if stmts.len() > 0 {
        lemma_count_then(s, stmts.drop_last());
    }
}

proof fn lemma_count_else_block(s: Analysis, stmts: Seq<Statement>)
    ensures
        count_else_block(s, stmts).out == s.out,
        count_else_block(s, stmts).in_region == s.in_region,
        count_else_block(s, stmts).writes == s.writes,
    decreases stmts.len(),
{
    if stmts.len() > 0 {
        let s1 = count_else_block(s, stmts.drop_last());
        lemma_count_else_block(s, stmts.drop_last());
        match stmts.last() {
            Statement::Term(x) => lemma_count_all(s1, writes_of(x)),
            _ => {},
        }
    }
}

proof fn lemma_visit_if(s: Analysis, then_branch: Seq<Statement>, else_branch: Option<Box<Term>>)
    ensures
        visit_if(s, then_branch, else_branch).out == s.out,
        visit_if(s, then_branch, else_branch).in_region == s.in_region,
        visit_if(s, then_branch, else_branch).writes == s.writes,
    decreases else_branch,
{
    let s2 = count_then(new_branch(s), then_branch);
    lemma_count_then(new_branch(s), then_branch);
    match else_branch {
        Some(e) => lemma_visit_else(s2, *e),
        None => {},
    }
}

proof fn lemma_visit_else(s: Analysis, e: Term)
    ensures
        visit_else(s, e).out == s.out,
        visit_else(s, e).in_region == s.in_region,
        visit_else(s, e).writes == s.writes,
    decreases e,
{
    match e {
        Term::If { then_branch, else_branch } => lemma_visit_if(s, then_branch@, else_branch),
        Term::Block { stmts } => lemma_count_else_block(new_branch(s), stmts@),
        _ => {},
    }
}

proof fn lemma_save_unsafe(s: Analysis, ws: Seq<PlaceView>)
    ensures
        only_saves_after(s.out, save_unsafe(s, ws).out),
    decreases ws.len(),
{
    if ws.len() == 0 {
        lemma_refl(s.out);
    } else {
        let s1 = save_unsafe(s, ws.drop_last());
        lemma_save_unsafe(s, ws.drop_last());
        match ws.last() {
            PlaceView::Var(n) => {
                lemma_push_save(s1.out, save_unsafe(s, ws).out.last());
                assert(save_unsafe(s, ws).out =~= s1.out.push(save_unsafe(s, ws).out.last()));
                lemma_trans(s.out, s1.out, save_unsafe(s, ws).out);
            },
            _ => {},
        }
    }
}

proof fn lemma_visit_unsafe(s: Analysis, stmts: Seq<Statement>)
    ensures
        only_saves_after(s.out, visit_unsafe(s, stmts).out),
    decreases stmts.len(),
{
    if stmts.len() == 0 {
        lemma_refl(s.out);
    } else {
        let s1 = visit_unsafe(s, stmts.drop_last());
        lemma_visit_unsafe(s, stmts.drop_last());
        match stmts.last() {
            Statement::Term(x) => {
                let s2 = Analysis { reads: add_places(s1.reads, reads_of(x)), ..s1 };
                lemma_save_unsafe(s2, writes_of(x));
                lemma_trans(s.out, s1.out, visit_unsafe(s, stmts).out);
            },
            _ => {},
        }
    }
}

proof fn lemma_visit_expr(s: Analysis, e: Term)
    ensures
        only_saves_after(s.out, visit_expr(s, e).out),
{
    lemma_refl(s.out);
    match e {
        Term::Assign { left, right } => match *left {
            Term::Unary { operand, .. } => match *operand {
                Term::Path { ident: Some(n), .. } => lemma_save_if(s, PlaceView::Var(n@)),
                _ => {},
            },
            Term::Path { ident, .. } => {
                let s1 = Analysis { reads: add_places(s.reads, reads_of(*right)), ..s };
                match ident {
                    Some(n) => lemma_save_if(s1, PlaceView::Var(n@)),
                    None => {},
                }
            },
            _ => {},
        },
        Term::Binary { left, right } => match *left {
            Term::Index { base, index_text, .. } => match *base {
                Term::Path { ident: Some(a), .. } => {
                    let loc = PlaceView::Elem(a@, index_text@);
                    let s1 = Analysis {
                        reads: add_place(
                            add_places(s.reads, reads_of(*right)),
                            loc,
                        ),
                        ..s
                    };
                    lemma_save_if(s1, loc);
                },
                _ => {},
            },
            Term::Unary { deref: true, operand } => match *operand {
                Term::Path { ident: Some(n), .. } => {
                    if visit_expr(s, e).out != s.out {
                        lemma_push_save(s.out, visit_expr(s, e).out.last());
                        assert(visit_expr(s, e).out =~= s.out.push(visit_expr(s, e).out.last()));
                    }
                },
                _ => {},
            },
            Term::Path { ident: Some(n), .. } => {
                let s1 = Analysis {
                    reads: add_place(s.reads, PlaceView::Var(n@)),
                    ..s
                };
                lemma_save_if(s1, PlaceView::Var(n@));
            },
            _ => {},
        },
        Term::If { then_branch, else_branch } => {
            let s1 = visit_if(s, then_branch@, else_branch);
            lemma_visit_if(s, then_branch@, else_branch);
            lemma_save_all_new(s1, super::spec::pending(s1.cond, s1.branches));
        },
        Term::Unsafe { stmts } => lemma_visit_unsafe(s, stmts@),
        _ => {},
    }
}

proof fn lemma_visit_exprs(s: Analysis, es: Seq<Term>)
    ensures
        only_saves_after(s.out, visit_exprs(s, es).out),
        visit_exprs(s, es).in_region == s.in_region,
    decreases es.len(),
{
    if es.len() == 0 {
        lemma_refl(s.out);
    } else {
        let s1 = visit_exprs(s, es.drop_last());
        lemma_visit_exprs(s, es.drop_last());
        lemma_visit_expr(s1, es.last());
        lemma_visit_expr_region(s1, es.last());
        lemma_trans(s.out, s1.out, visit_expr(s1, es.last()).out);
    }
}

proof fn lemma_save_place_region(s: Analysis, p: PlaceView)
    ensures
        save_place(s, p).in_region == s.in_region,
        save_if_new(s, p).in_region == s.in_region,
        save_if_war(s, p).in_region == s.in_region,
{
}

proof fn lemma_save_all_new_region(s: Analysis, ps: Seq<PlaceView>)
    ensures
        save_all_new(s, ps).in_region == s.in_region,
    decreases ps.len(),
{
    if ps.len() > 0 {
        lemma_save_all_new_region(s, ps.drop_last());
    }
}

proof fn lemma_save_unsafe_region(s: Analysis, ws: Seq<PlaceView>)
    ensures
        save_unsafe(s, ws).in_region == s.in_region,
    decreases ws.len(),
{
    if ws.len() > 0 {
        lemma_save_unsafe_region(s, ws.drop_last());
    }
}

proof fn lemma_visit_unsafe_region(s: Analysis, stmts: Seq<Statement>)
    ensures
        visit_unsafe(s, stmts).in_region == s.in_region,
    decreases stmts.len(),
{
    if stmts.len() > 0 {
        let s1 = visit_unsafe(s, stmts.drop_last());
        lemma_visit_unsafe_region(s, stmts.drop_last());
        match stmts.last() {
            Statement::Term(x) => {
                let s2 = Analysis { reads: add_places(s1.reads, reads_of(x)), ..s1 };
                lemma_save_unsafe_region(s2, writes_of(x));
            },
            _ => {},
        }
    }
}

proof fn lemma_visit_expr_region(s: Analysis, e: Term)
    ensures
        visit_expr(s, e).in_region == s.in_region,
{
    match e {
        Term::If { then_branch, else_branch } => {
            let s1 = visit_if(s, then_branch@, else_branch);
            lemma_visit_if(s, then_branch@, else_branch);
            lemma_save_all_new_region(s1, super::spec::pending(s1.cond, s1.branches));
        },
        Term::Unsafe { stmts } => lemma_visit_unsafe_region(s, stmts@),
        _ => {},
    }
}

proof fn lemma_kept_saves(a: Seq<OutView>, b: Seq<OutView>)
    requires
        only_saves_after(a, b),
    ensures
        kept(b) == kept(a),
    decreases b.len(),
{
    if b.len() > a.len() {
        let c = b.drop_last();
        assert(c.take(a.len() as int) =~= b.take(a.len() as int));
        assert(b[b.len() - 1] is Save);
        lemma_kept_saves(a, c);
    } else {
        assert(b =~= b.take(a.len() as int));
    }
}

proof fn lemma_visit_stmts(s: Analysis, stmts: Seq<Statement>)
    ensures
        kept(visit_stmts(s, stmts).out) == kept(s.out) + Seq::new(stmts.len(), |i: int| i as nat),
    decreases stmts.len(),
{
    if stmts.len() == 0 {
        assert(kept(s.out) + Seq::new(0, |i: int| i as nat) =~= kept(s.out));
    } else {
        let n = stmts.len() - 1;
        let s1 = visit_stmts(s, stmts.drop_last());
        lemma_visit_stmts(s, stmts.drop_last());
        let stmt = stmts.last();
        let s2 = match stmt {
            Statement::Term(e) => if is_analysed(stmt) && s1.in_region {
                visit_expr(s1, e)
            } else {
                s1
            },
            _ => s1,
        };
        lemma_refl(s1.out);
        match stmt {
            Statement::Term(e) => lemma_visit_expr(s1, e),
            _ => {},
        }
        lemma_kept_saves(s1.out, s2.out);
        let out = visit_stmts(s, stmts).out;
        assert(out == s2.out.push(OutView::Keep(n as nat)));
        assert(out.drop_last() =~= s2.out);
        assert(kept(s.out) + Seq::new(stmts.len(), |i: int| i as nat) =~= (kept(s.out) + Seq::new(
            n as nat,
            |i: int| i as nat,
        )).push(n as nat));
    }
}

/// The instrumentation keeps the body: the input statements appear in
/// the emitted body each once, in their order, with only saves between
/// them.
pub proof fn lemma_instrumentation_keeps_body(
    preamble: Seq<Term>,
    body: Seq<Statement>,
    table: Seq<(Seq<char>, bool)>,
)
    ensures
        kept(analysis_of(preamble, body, table).out) == Seq::new(body.len(), |i: int| i as nat),
        instrumented(preamble, body, table) matches Some(out) ==> kept(out) == Seq::new(
            body.len(),
            |i: int| i as nat,
        ),
{
    let s0 = visit_exprs(initial_analysis(table), preamble);
    lemma_visit_exprs(initial_analysis(table), preamble);
    lemma_kept_saves(initial_analysis(table).out, s0.out);
    assert(kept(initial_analysis(table).out) == Seq::<nat>::empty());
    lemma_visit_stmts(s0, body);
    assert(Seq::<nat>::empty() + Seq::new(body.len(), |i: int| i as nat) =~= Seq::new(
        body.len(),
        |i: int| i as nat,
    ));
}

proof fn lemma_visit_stmts_outside(s: Analysis, body: Seq<Statement>, n: int)
    requires
        0 <= n <= body.len(),
        !s.in_region,
        forall|i: int| 0 <= i < n ==> !(region_before(body, i) && is_analysed(body[i])),
    ensures
        visit_stmts(s, body.take(n)).out == s.out + Seq::new(n as nat, |i: int| OutView::Keep(i as nat)),
        visit_stmts(s, body.take(n)).in_region == region_before(body, n),
    decreases n,
{
    if n == 0 {
        assert(body.take(0) =~= Seq::<Statement>::empty());
        assert(s.out + Seq::new(0, |i: int| OutView::Keep(i as nat)) =~= s.out);
    } else {
        lemma_visit_stmts_outside(s, body, n - 1);
        let t = body.take(n);
        assert(t.drop_last() =~= body.take(n - 1));
        assert(t.last() == body[n - 1]);
        let s1 = visit_stmts(s, body.take(n - 1));
        assert(!(s1.in_region && is_analysed(body[n - 1])));
        assert(visit_stmts(s, t).out =~= s.out + Seq::new(n as nat, |i: int| OutView::Keep(i as nat)));
    }
}

/// Statements outside atomic regions get no saves: if no statement that
/// the analysis looks into lies inside a region, the emitted body is what
/// the attribute and signature expressions emit, followed by the input
/// statements unchanged.
pub proof fn lemma_no_region_no_saves(
    preamble: Seq<Term>,
    body: Seq<Statement>,
    table: Seq<(Seq<char>, bool)>,
)
    requires
        forall|i: int| 0 <= i < body.len() ==> !(region_before(body, i) && is_analysed(body[i])),
    ensures
        analysis_of(preamble, body, table).out == visit_exprs(initial_analysis(table), preamble).out + Seq::new(
            body.len(),
            |i: int| OutView::Keep(i as nat),
        ),
{
    let s0 = visit_exprs(initial_analysis(table), preamble);
    lemma_visit_exprs(initial_analysis(table), preamble);
    lemma_visit_stmts_outside(s0, body, body.len() as int);
    assert(body.take(body.len() as int) =~= body);
}


/// Whether an emitted statement is a save by reference or through a
/// pointer (by `std::mem` or by `core::mem`): the saves that the analysis
/// makes at most once per place.
pub open spec fn is_once_save(o: OutView) -> bool {
    ||| o matches OutView::Save(SaveView::Reference(_))
    ||| o matches OutView::Save(SaveView::Pointer(_))
    ||| o matches OutView::Save(SaveView::PointerCore(_))
}

/// No save by reference or through a pointer occurs twice in `out`.
pub open spec fn once_saves_distinct(out: Seq<OutView>) -> bool {
    forall|j: int, k: int|
        0 <= j < k < out.len() && is_once_save(out[k]) ==> #[trigger] out[j] != #[trigger] out[k]
}

/// Every save by reference or through a pointer in `out` is of a place
/// recorded in `writes`, and none occurs twice.
pub open spec fn once_inv(out: Seq<OutView>, writes: Seq<PlaceView>) -> bool {
    &&& forall|k: int|
        0 <= k < out.len() ==> (#[trigger] out[k] matches OutView::Save(SaveView::Reference(n))
            ==> writes.contains(PlaceView::Var(n)))
    &&& forall|k: int|
        0 <= k < out.len() ==> (#[trigger] out[k] matches OutView::Save(SaveView::Pointer(n))
            ==> writes.contains(PlaceView::Deref(n)))
    &&& forall|k: int|
        0 <= k < out.len() ==> (#[trigger] out[k] matches OutView::Save(SaveView::PointerCore(n))
            ==> writes.contains(PlaceView::Deref(n)))
    &&& once_saves_distinct(out)
}

/// `b` records every place that `a` records.
pub open spec fn grows(a: Seq<PlaceView>, b: Seq<PlaceView>) -> bool {
    forall|p: PlaceView| a.contains(p) ==> b.contains(p)
}

proof fn lemma_once_grow(out: Seq<OutView>, w1: Seq<PlaceView>, w2: Seq<PlaceView>)
    requires
        once_inv(out, w1),
        grows(w1, w2),
    ensures
        once_inv(out, w2),
{
}

proof fn lemma_add_place_grows(w: Seq<PlaceView>, p: PlaceView)
    ensures
        grows(w, add_place(w, p)),
        add_place(w, p).contains(p),
{
    if !w.contains(p) {
        assert(w.push(p)[w.len() as int] == p);
        assert forall|q: PlaceView| w.contains(q) implies w.push(p).contains(q) by {
            let i = choose|i: int| 0 <= i < w.len() && w[i] == q;
            assert(w.push(p)[i] == q);
        }
    }
}

proof fn lemma_once_push_other(out: Seq<OutView>, w: Seq<PlaceView>, o: OutView)
    requires
        once_inv(out, w),
        !is_once_save(o),
    ensures
        once_inv(out.push(o), w),
{
    let out2 = out.push(o);
    assert forall|k: int| 0 <= k < out.len() implies out2[k] == out[k] by {}
}

proof fn lemma_once_push_ref(out: Seq<OutView>, w: Seq<PlaceView>, n: Seq<char>)
    requires
        once_inv(out, w),
        !w.contains(PlaceView::Var(n)),
    ensures
        once_inv(out.push(OutView::Save(SaveView::Reference(n))), add_place(w, PlaceView::Var(n))),
{
    let o = OutView::Save(SaveView::Reference(n));
    let out2 = out.push(o);
    let w2 = add_place(w, PlaceView::Var(n));
    lemma_add_place_grows(w, PlaceView::Var(n));
    lemma_once_grow(out, w, w2);
    assert forall|k: int| 0 <= k < out.len() implies out2[k] == out[k] by {}
    assert forall|j: int| 0 <= j < out.len() implies out2[j] != o by {
        if out[j] == o {
            assert(out[j] matches OutView::Save(SaveView::Reference(m)) && m == n);
        }
    }
}

proof fn lemma_once_push_ptr(out: Seq<OutView>, w: Seq<PlaceView>, n: Seq<char>)
    requires
        once_inv(out, w),
        !w.contains(PlaceView::Deref(n)),
    ensures
        once_inv(out.push(OutView::Save(SaveView::Pointer(n))), add_place(w, PlaceView::Deref(n))),
{
    let o = OutView::Save(SaveView::Pointer(n));
    let out2 = out.push(o);
    let w2 = add_place(w, PlaceView::Deref(n));
    lemma_add_place_grows(w, PlaceView::Deref(n));
    lemma_once_grow(out, w, w2);
    assert forall|k: int| 0 <= k < out.len() implies out2[k] == out[k] by {}
    assert forall|j: int| 0 <= j < out.len() implies out2[j] != o by {
        if out[j] == o {
            assert(out[j] matches OutView::Save(SaveView::Pointer(m)) && m == n);
        }
    }
}

proof fn lemma_once_push_core(out: Seq<OutView>, w: Seq<PlaceView>, n: Seq<char>)
    requires
        once_inv(out, w),
        !w.contains(PlaceView::Deref(n)),
    ensures
        once_inv(out.push(OutView::Save(SaveView::PointerCore(n))), add_place(w, PlaceView::Deref(n))),
{
    let o = OutView::Save(SaveView::PointerCore(n));
    let out2 = out.push(o);
    let w2 = add_place(w, PlaceView::Deref(n));
    lemma_add_place_grows(w, PlaceView::Deref(n));
    lemma_once_grow(out, w, w2);
    assert forall|k: int| 0 <= k < out.len() implies out2[k] == out[k] by {}
    assert forall|j: int| 0 <= j < out.len() implies out2[j] != o by {
        if out[j] == o {
            assert(out[j] matches OutView::Save(SaveView::PointerCore(m)) && m == n);
        }
    }
}

proof fn lemma_once_save_place(s: Analysis, p: PlaceView)
    requires
        once_inv(s.out, s.writes),
        !s.writes.contains(p),
    ensures
        once_inv(save_place(s, p).out, save_place(s, p).writes),
        grows(s.writes, save_place(s, p).writes),
{
    lemma_add_place_grows(s.writes, p);
    match p {
        PlaceView::Var(n) => lemma_once_push_ref(s.out, s.writes, n),
        PlaceView::Deref(n) => lemma_once_push_ptr(s.out, s.writes, n),
        PlaceView::Elem(a, t) => {
            lemma_once_grow(s.out, s.writes, add_place(s.writes, p));
            if save_place(s, p).out != s.out {
                lemma_once_push_other(s.out, add_place(s.writes, p), save_place(s, p).out.last());
                assert(save_place(s, p).out =~= s.out.push(save_place(s, p).out.last()));
            }
        },
    }
}

proof fn lemma_once_save_if(s: Analysis, p: PlaceView)
    requires
        once_inv(s.out, s.writes),
    ensures
        once_inv(save_if_new(s, p).out, save_if_new(s, p).writes),
        grows(s.writes, save_if_new(s, p).writes),
        once_inv(save_if_war(s, p).out, save_if_war(s, p).writes),
        grows(s.writes, save_if_war(s, p).writes),
{
    if !s.writes.contains(p) {
        lemma_once_save_place(s, p);
    }
}

proof fn lemma_once_save_all_new(s: Analysis, ps: Seq<PlaceView>)
    requires
        once_inv(s.out, s.writes),
    ensures
        once_inv(save_all_new(s, ps).out, save_all_new(s, ps).writes),
        grows(s.writes, save_all_new(s, ps).writes),
    decreases ps.len(),
{
    if ps.len() > 0 {
        let s1 = save_all_new(s, ps.drop_last());
        lemma_once_save_all_new(s, ps.drop_last());
        lemma_once_save_if(s1, ps.last());
    }
}

proof fn lemma_once_save_unsafe(s: Analysis, ws: Seq<PlaceView>)
    requires
        once_inv(s.out, s.writes),
    ensures
        once_inv(save_unsafe(s, ws).out, save_unsafe(s, ws).writes),
        save_unsafe(s, ws).writes == s.writes,
    decreases ws.len(),
{
    if ws.len() > 0 {
        let s1 = save_unsafe(s, ws.drop_last());
        lemma_once_save_unsafe(s, ws.drop_last());
        match ws.last() {
            PlaceView::Var(n) => {
                lemma_once_push_other(s1.out, s1.writes, OutView::Save(SaveView::UnsafeReference(n)));
            },
            _ => {},
        }
    }
}

proof fn lemma_once_visit_unsafe(s: Analysis, stmts: Seq<Statement>)
    requires
        once_inv(s.out, s.writes),
    ensures
        once_inv(visit_unsafe(s, stmts).out, visit_unsafe(s, stmts).writes),
        visit_unsafe(s, stmts).writes == s.writes,
    decreases stmts.len(),
{
    if stmts.len() > 0 {
        let s1 = visit_unsafe(s, stmts.drop_last());
        lemma_once_visit_unsafe(s, stmts.drop_last());
        match stmts.last() {
            Statement::Term(x) => {
                let s2 = Analysis { reads: add_places(s1.reads, reads_of(x)), ..s1 };
                lemma_once_save_unsafe(s2, writes_of(x));
            },
            _ => {},
        }
    }
}

proof fn lemma_once_visit_expr(s: Analysis, e: Term)
    requires
        once_inv(s.out, s.writes),
    ensures
        once_inv(visit_expr(s, e).out, visit_expr(s, e).writes),
        grows(s.writes, visit_expr(s, e).writes),
{
    match e {
        Term::Assign { left, right } => match *left {
            Term::Unary { operand, .. } => match *operand {
                Term::Path { ident: Some(n), .. } => lemma_once_save_if(s, PlaceView::Var(n@)),
                _ => {},
            },
            Term::Path { ident, .. } => {
                let s1 = Analysis { reads: add_places(s.reads, reads_of(*right)), ..s };
                match ident {
                    Some(n) => lemma_once_save_if(s1, PlaceView::Var(n@)),
                    None => {},
                }
            },
            _ => {},
        },
        Term::Binary { left, right } => match *left {
            Term::Index { base, index_text, .. } => match *base {
                Term::Path { ident: Some(a), .. } => {
                    let loc = PlaceView::Elem(a@, index_text@);
                    let s1 = Analysis {
                        reads: add_place(add_places(s.reads, reads_of(*right)), loc),
                        ..s
                    };
                    lemma_once_save_if(s1, loc);
                },
                _ => {},
            },
            Term::Unary { deref: true, operand } => match *operand {
                Term::Path { ident: Some(n), .. } => {
                    let s1 = Analysis { reads: add_place(s.reads, PlaceView::Var(n@)), ..s };
                    if !s1.writes.contains(PlaceView::Deref(n@)) {
                        lemma_once_push_core(s1.out, s1.writes, n@);
                        lemma_add_place_grows(s1.writes, PlaceView::Deref(n@));
                    }
                },
                _ => {},
            },
            Term::Path { ident: Some(n), .. } => {
                let s1 = Analysis { reads: add_place(s.reads, PlaceView::Var(n@)), ..s };
                lemma_once_save_if(s1, PlaceView::Var(n@));
            },
            _ => {},
        },
        Term::If { then_branch, else_branch } => {
            let s1 = visit_if(s, then_branch@, else_branch);
            lemma_visit_if(s, then_branch@, else_branch);
            lemma_once_save_all_new(s1, super::spec::pending(s1.cond, s1.branches));
        },
        Term::Unsafe { stmts } => lemma_once_visit_unsafe(s, stmts@),
        _ => {},
    }
}

proof fn lemma_once_visit_exprs(s: Analysis, es: Seq<Term>)
    requires
        once_inv(s.out, s.writes),
    ensures
        once_inv(visit_exprs(s, es).out, visit_exprs(s, es).writes),
    decreases es.len(),
{
    if es.len() > 0 {
        lemma_once_visit_exprs(s, es.drop_last());
        lemma_once_visit_expr(visit_exprs(s, es.drop_last()), es.last());
    }
}

proof fn lemma_once_visit_stmts(s: Analysis, stmts: Seq<Statement>)
    requires
        once_inv(s.out, s.writes),
    ensures
        once_inv(visit_stmts(s, stmts).out, visit_stmts(s, stmts).writes),
    decreases stmts.len(),
{
    if stmts.len() > 0 {
        let s1 = visit_stmts(s, stmts.drop_last());
        lemma_once_visit_stmts(s, stmts.drop_last());
        let stmt = stmts.last();
        let s2 = match stmt {
            Statement::Term(e) => if is_analysed(stmt) && s1.in_region {
                visit_expr(s1, e)
            } else {
                s1
            },
            _ => s1,
        };
        match stmt {
            Statement::Term(e) => lemma_once_visit_expr(s1, e),
            _ => {},
        }
        lemma_once_push_other(s2.out, s2.writes, OutView::Keep((stmts.len() - 1) as nat));
    }
}

/// A variable is saved by reference at most once per function, and a
/// pointer target at most once through `std::mem` and at most once through
/// `core::mem`: once logged, a place counts as written and is not logged by
/// those saves again.
pub proof fn lemma_saved_at_most_once(
    preamble: Seq<Term>,
    body: Seq<Statement>,
    table: Seq<(Seq<char>, bool)>,
)
    ensures
        once_saves_distinct(analysis_of(preamble, body, table).out),
        instrumented(preamble, body, table) matches Some(out) ==> once_saves_distinct(out),
{
    let s0 = initial_analysis(table);
    lemma_once_visit_exprs(s0, preamble);
    lemma_once_visit_stmts(visit_exprs(s0, preamble), body);
}

/// Logging a place unless it is logged is idempotent: a second call
/// changes nothing. One call leaves the state as it is when the place is
/// logged already, and otherwise logs it.
pub proof fn lemma_save_if_new_idempotent(s: Analysis, p: PlaceView)
    ensures
        save_if_new(save_if_new(s, p), p) == save_if_new(s, p),
        s.writes.contains(p) ==> save_if_new(s, p) == s,
        !s.writes.contains(p) ==> save_if_new(s, p) == save_place(s, p),
{
    if !s.writes.contains(p) {
        lemma_add_place_grows(s.writes, p);
    }
}


/// A compound assignment `x op= e` to a plain variable both reads and
/// writes `x`: analysed, it logs `x` by reference before the write unless
/// `x` is logged already, and afterwards `x` counts as read and as logged.
pub proof fn lemma_compound_assignment_logs_variable(s: Analysis, x: Vec<char>, last: Vec<char>, rhs: Term)
    ensures
        ({
            let e = Term::Binary {
                left: Box::new(Term::Path { ident: Some(x), last }),
                right: Box::new(rhs),
            };
            let r = visit_expr(s, e);
            &&& r.out == (if s.writes.contains(PlaceView::Var(x@)) {
                s.out
            } else {
                s.out.push(OutView::Save(SaveView::Reference(x@)))
            })
            &&& r.writes.contains(PlaceView::Var(x@))
            &&& r.reads.contains(PlaceView::Var(x@))
            &&& r.failed == s.failed
            &&& r.in_region == s.in_region
        }),
{
    let v = PlaceView::Var(x@);
    lemma_add_place_grows(s.reads, v);
    lemma_add_place_grows(s.writes, v);
}

/// A compound assignment `*p op= e` through a pointer variable logs the
/// target `*p` (with `core::mem`) before the write unless `*p` is logged
/// already; afterwards `p` counts as read and `*p` as logged.
pub proof fn lemma_compound_assignment_logs_target(s: Analysis, p: Vec<char>, last: Vec<char>, rhs: Term)
    ensures
        ({
            let e = Term::Binary {
                left: Box::new(Term::Unary {
                    deref: true,
                    operand: Box::new(Term::Path { ident: Some(p), last }),
                }),
                right: Box::new(rhs),
            };
            let r = visit_expr(s, e);
            &&& r.out == (if s.writes.contains(PlaceView::Deref(p@)) {
                s.out
            } else {
                s.out.push(OutView::Save(SaveView::PointerCore(p@)))
            })
            &&& r.writes.contains(PlaceView::Deref(p@))
            &&& r.reads.contains(PlaceView::Var(p@))
            &&& r.failed == s.failed
        }),
{
    lemma_add_place_grows(s.reads, PlaceView::Var(p@));
    lemma_add_place_grows(s.writes, PlaceView::Deref(p@));
}

/// An atomic region that holds one compound assignment `x op= e` to a
/// plain variable is instrumented by logging `x` right before it, in every
/// function without attribute or signature expressions and under any parse
/// answers.
pub proof fn lemma_region_logs_compound_assignment(
    start: Vec<char>,
    start_last: Vec<char>,
    end: Vec<char>,
    end_last: Vec<char>,
    x: Vec<char>,
    last: Vec<char>,
    rhs: Term,
    table: Seq<(Seq<char>, bool)>,
)
    requires
        start@ == start_atomic_name(),
        end@ == end_atomic_name(),
    ensures
        instrumented(
            seq![],
            seq![
                Statement::Term(Term::Call { callee: Box::new(Term::Path { ident: Some(start), last: start_last }) }),
                Statement::Term(Term::Binary {
                    left: Box::new(Term::Path { ident: Some(x), last }),
                    right: Box::new(rhs),
                }),
                Statement::Term(Term::Call { callee: Box::new(Term::Path { ident: Some(end), last: end_last }) }),
            ],
            table,
        ) == Some(seq![
            OutView::Keep(0),
            OutView::Save(SaveView::Reference(x@)),
            OutView::Keep(1),
            OutView::Keep(2),
        ]),
{
    let st0 = Statement::Term(Term::Call { callee: Box::new(Term::Path { ident: Some(start), last: start_last }) });
    let e = Term::Binary { left: Box::new(Term::Path { ident: Some(x), last }), right: Box::new(rhs) };
    let st1 = Statement::Term(e);
    let st2 = Statement::Term(Term::Call { callee: Box::new(Term::Path { ident: Some(end), last: end_last }) });
    let body = seq![st0, st1, st2];
    let s0 = initial_analysis(table);
    assert(visit_exprs(s0, seq![]) == s0);
    assert(body.drop_last().drop_last().drop_last() =~= Seq::<Statement>::empty());
    assert(body.drop_last().drop_last() =~= seq![st0]);
    assert(body.drop_last() =~= seq![st0, st1]);
    assert(seq![st0].drop_last() =~= Seq::<Statement>::empty());
    assert(visit_stmts(s0, Seq::<Statement>::empty()) == s0);
    let s1 = visit_stmts(s0, seq![st0]);
    assert(s1 == visit_stmt(s0, 0, st0));
    assert(s1.in_region);
    assert(s1.out =~= seq![OutView::Keep(0)]);
    assert(!s1.writes.contains(PlaceView::Var(x@)));
    lemma_compound_assignment_logs_variable(s1, x, last, rhs);
    assert(seq![st0, st1].drop_last() =~= seq![st0]);
    let s2 = visit_stmts(s0, seq![st0, st1]);
    assert(s2 == visit_stmt(s1, 1, st1));
    assert(s2.out =~= seq![OutView::Keep(0), OutView::Save(SaveView::Reference(x@)), OutView::Keep(1)]);
    let s3 = visit_stmts(s0, body);
    assert(s3 == visit_stmt(s2, 2, st2));
    assert(s3.out =~= seq![
        OutView::Keep(0),
        OutView::Save(SaveView::Reference(x@)),
        OutView::Keep(1),
        OutView::Keep(2),
    ]);
}


/// A compound assignment `a[i] op= e` to an element of an array variable
/// reads and writes the element: it logs the element before the write
/// unless it is logged already, provided that the index text (cut at its
/// first closing bracket) parses; afterwards the element counts as read and
/// as logged.
pub proof fn lemma_compound_assignment_logs_element(
    s: Analysis,
    a: Vec<char>,
    last: Vec<char>,
    index: Term,
    text: Vec<char>,
    rhs: Term,
)
    ensures
        ({
            let e = Term::Binary {
                left: Box::new(Term::Index {
                    base: Box::new(Term::Path { ident: Some(a), last }),
                    index: Box::new(index),
                    index_text: text,
                }),
                right: Box::new(rhs),
            };
            let loc = PlaceView::Elem(a@, text@);
            let r = visit_expr(s, e);
            &&& r.out == (if !s.writes.contains(loc) && lookup_answer(s.table, before_close(text@)) {
                s.out.push(OutView::Save(SaveView::Element(a@, before_close(text@))))
            } else {
                s.out
            })
            &&& r.writes.contains(loc)
            &&& r.reads.contains(loc)
            &&& r.failed == s.failed
        }),
{
    let loc = PlaceView::Elem(a@, text@);
    let r1 = add_places(s.reads, reads_of(rhs));
    lemma_add_place_grows(r1, loc);
    lemma_add_place_grows(s.writes, loc);
}

/// An assignment `x = e` to a plain variable logs `x` before the write
/// exactly when `x` was read before, or is read by `e`, and is not logged
/// yet; afterwards the places that `e` reads count as read, and `x` counts
/// as logged when it was read.
pub proof fn lemma_assignment_logs_read_variable(s: Analysis, x: Vec<char>, last: Vec<char>, rhs: Term)
    ensures
        ({
            let e = Term::Assign { left: Box::new(Term::Path { ident: Some(x), last }), right: Box::new(rhs) };
            let v = PlaceView::Var(x@);
            let reads = add_places(s.reads, reads_of(rhs));
            let r = visit_expr(s, e);
            &&& r.out == (if reads.contains(v) && !s.writes.contains(v) {
                s.out.push(OutView::Save(SaveView::Reference(x@)))
            } else {
                s.out
            })
            &&& r.reads == reads
            &&& reads.contains(v) ==> r.writes.contains(v)
            &&& r.failed == s.failed
        }),
{
    lemma_add_place_grows(s.writes, PlaceView::Var(x@));
}


/// An `if` with an `else` block, the first conditional of a walk, where
/// the `then` branch assigns `x` and the `else` block assigns `y`: a
/// variable written in only one of the branches is logged after the `if`
/// is walked (`x` and then `y`, each unless logged already), while a
/// variable written in both branches is not logged.
pub proof fn lemma_if_else_logs_one_branch_writes(
    s: Analysis,
    then_stmts: Vec<Statement>,
    else_stmts: Vec<Statement>,
    x: Vec<char>,
    lx: Vec<char>,
    r1: Term,
    y: Vec<char>,
    ly: Vec<char>,
    r2: Term,
)
    requires
        s.cond.len() == 0,
        s.branches == 0,
        then_stmts@ == seq![
            Statement::Term(Term::Assign { left: Box::new(Term::Path { ident: Some(x), last: lx }), right: Box::new(r1) }),
        ],
        else_stmts@ == seq![
            Statement::Term(Term::Assign { left: Box::new(Term::Path { ident: Some(y), last: ly }), right: Box::new(r2) }),
        ],
    ensures
        ({
            let e = Term::If {
                then_branch: then_stmts,
                else_branch: Some(Box::new(Term::Block { stmts: else_stmts })),
            };
            let vx = PlaceView::Var(x@);
            let vy = PlaceView::Var(y@);
            let r = visit_expr(s, e);
            &&& x@ != y@ ==> r.out == s.out + (if s.writes.contains(vx) {
                Seq::empty()
            } else {
                seq![OutView::Save(SaveView::Reference(x@))]
            }) + (if s.writes.contains(vy) {
                Seq::empty()
            } else {
                seq![OutView::Save(SaveView::Reference(y@))]
            })
            &&& x@ == y@ ==> r.out == s.out
        }),
{
    let vx = PlaceView::Var(x@);
    let vy = PlaceView::Var(y@);
    let ax = Statement::Term(Term::Assign { left: Box::new(Term::Path { ident: Some(x), last: lx }), right: Box::new(r1) });
    let ay_term = Term::Assign { left: Box::new(Term::Path { ident: Some(y), last: ly }), right: Box::new(r2) };
    let n1 = new_branch(s);
    assert(then_stmts@.drop_last() =~= Seq::<Statement>::empty());
    assert(count_then(n1, Seq::<Statement>::empty()) == n1);
    let c1 = count_then(n1, then_stmts@);
    assert(!has_key(n1.cond, vx));
    assert(c1.cond =~= seq![(vx, 1nat)]);
    assert(c1.branches == 1);
    let n2 = new_branch(c1);
    assert(else_stmts@.drop_last() =~= Seq::<Statement>::empty());
    assert(writes_of(ay_term) =~= seq![vy]);
    assert(seq![vy].drop_last() =~= Seq::<PlaceView>::empty());
    let s1 = visit_if(s, then_stmts@, Some(Box::new(Term::Block { stmts: else_stmts })));
    assert(visit_else(c1, Term::Block { stmts: else_stmts }) == count_else_block(n2, else_stmts@));
    assert(s1 == count_else_block(n2, else_stmts@));
    assert(count_else_block(n2, Seq::<Statement>::empty()) == n2);
    assert(else_stmts@.last() == Statement::Term(ay_term));
    assert(s1 == count_all(n2, writes_of(ay_term)));
    assert(count_all(n2, Seq::<PlaceView>::empty()) == n2);
    assert(s1 == count_write(n2, vy));
    assert(s1.branches == 2);
    if x@ != y@ {
        assert(!has_key(n2.cond, vy)) by {
            if has_key(n2.cond, vy) {
                let i = choose|i: int| 0 <= i < n2.cond.len() && n2.cond[i].0 == vy;
                assert(i == 0);
            }
        }
        assert(s1.cond =~= seq![(vx, 1nat), (vy, 1nat)]);
        let ps = pending(s1.cond, 2);
        assert(s1.cond.drop_last() =~= seq![(vx, 1nat)]);
        assert(s1.cond.drop_last().drop_last() =~= Seq::<(PlaceView, nat)>::empty());
        assert(pending(Seq::<(PlaceView, nat)>::empty(), 2) == Seq::<PlaceView>::empty());
        assert(pending(s1.cond.drop_last(), 2) =~= seq![vx]);
        assert(ps =~= seq![vx, vy]);
        assert(ps.drop_last() =~= seq![vx]);
        assert(ps.drop_last().drop_last() =~= Seq::<PlaceView>::empty());
        let t0 = save_all_new(s1, Seq::<PlaceView>::empty());
        assert(t0 == s1);
        let t1 = save_if_new(s1, vx);
        assert(save_all_new(s1, seq![vx]) == t1);
        lemma_add_place_grows(s1.writes, vx);
        assert(t1.writes.contains(vy) == s1.writes.contains(vy)) by {
            if !s1.writes.contains(vx) {
                if t1.writes.contains(vy) {
                    let i = choose|i: int| 0 <= i < t1.writes.len() && t1.writes[i] == vy;
                    if i < s1.writes.len() {
                        assert(s1.writes[i] == vy);
                    }
                }
            }
        }
        assert(s1.out == s.out);
        assert(s1.writes == s.writes);
        let t2 = save_if_new(t1, vy);
        assert(save_all_new(s1, ps) == t2);
        assert(t2.out =~= s.out + (if s.writes.contains(vx) {
            Seq::empty()
        } else {
            seq![OutView::Save(SaveView::Reference(x@))]
        }) + (if s.writes.contains(vy) {
            Seq::empty()
        } else {
            seq![OutView::Save(SaveView::Reference(y@))]
        }));
    } else {
        assert(vx == vy);
        assert(has_key(n2.cond, vy)) by {
            assert(n2.cond[0].0 == vy);
        }
        assert(s1.cond =~= seq![(vx, 2nat)]);
        let ps = pending(s1.cond, 2);
        assert(s1.cond.drop_last() =~= Seq::<(PlaceView, nat)>::empty());
        assert(pending(Seq::<(PlaceView, nat)>::empty(), 2) == Seq::<PlaceView>::empty());
        assert(ps =~= Seq::<PlaceView>::empty());
        assert(s1.out == s.out);
    }
}

} // verus!
