//! The analysis as executable code, proved to compute [`instrumented`].

use vstd::prelude::*;
use super::ast::{
    Term, Statement, Place, PlaceView, SaveCall, OutStmt, OutView, place_views, out_views,
    expr_nodes, stmt_nodes, stmts_nodes, exprs_nodes, copy_chars, copy_place, same_place,
    same_chars,
};
use super::places::{
    add_place, add_places, reads_of, writes_of, contains_place, insert_place, insert_places,
    places_read, places_written, truncate_index, answer_views, answer_keys, lookup_parse,
    index_texts, exprs_texts, stmts_texts, ask_expr, ask_stmts,
};
use super::spec::{
    Analysis, initial_analysis, save_place, save_if_new, save_if_war, save_all_new, has_key,
    keys_unique, bump, count_write, count_all, count_then, count_else_block, new_branch, visit_if,
    visit_else, pending, save_unsafe, visit_unsafe, visit_expr, start_atomic_name,
    end_atomic_name, region_after, is_analysed, visit_stmt, visit_stmts, visit_exprs,
    analysis_of, instrumented,
};

verus! {

/// Why the analysis gives up.
#[derive(Debug, PartialEq, Eq)]
pub enum InstrumentError {
    /// An `unsafe` block inside an atomic region writes a place that is not
    /// a plain identifier; the save the analysis emits there takes an
    /// identifier.
    UnnamedUnsafeWrite,
}

/// The views of the write counts.
pub open spec fn cond_views(v: Seq<(Place, usize)>) -> Seq<(PlaceView, nat)> {
    v.map_values(|e: (Place, usize)| (e.0@, e.1 as nat))
}

/// The nodes of an optional `else` part.
pub open spec fn else_nodes(e: Option<Box<Term>>) -> nat {
    match e {
        Some(b) => expr_nodes(*b),
        None => 0,
    }
}

proof fn lemma_add_places_len(s: Seq<PlaceView>, ps: Seq<PlaceView>)
    ensures
        add_places(s, ps).len() <= s.len() + ps.len(),
    decreases ps.len(),
{
    if ps.len() > 0 {
        lemma_add_places_len(s, ps.drop_last());
    }
}

proof fn lemma_reads_len(e: Term)
    ensures
        reads_of(e).len() <= expr_nodes(e),
        writes_of(e).len() <= expr_nodes(e),
    decreases e,
{
    match e {
        Term::Binary { left, right } => {
            lemma_reads_len(*left);
            lemma_reads_len(*right);
            lemma_add_places_len(reads_of(*left), reads_of(*right));
        },
        Term::Unary { operand, .. } => {
            lemma_reads_len(*operand);
        },
        Term::Field { base } => {
            lemma_reads_len(*base);
        },
        Term::Index { base, index, index_text } => {
            lemma_reads_len(*index);
            let first: Seq<PlaceView> = match *base {
                Term::Path { ident: Some(a), .. } => seq![PlaceView::Elem(a@, index_text@)],
                _ => Seq::empty(),
            };
            lemma_add_places_len(first, reads_of(*index));
        },
        Term::Assign { left, right } => {
            lemma_reads_len(*left);
            lemma_reads_len(*right);
        },
        _ => {},
    }
}

proof fn lemma_stmts_nodes_prefix(s: Seq<Statement>, i: int)
    requires
        0 <= i <= s.len(),
    ensures
        stmts_nodes(s.take(i)) <= stmts_nodes(s),
    decreases s.len(),
{
    if i == s.len() {
        assert(s.take(i) =~= s);
    } else {
        assert(s.take(i) =~= s.drop_last().take(i));
        lemma_stmts_nodes_prefix(s.drop_last(), i);
    }
}

proof fn lemma_exprs_nodes_prefix(s: Seq<Term>, i: int)
    requires
        0 <= i <= s.len(),
    ensures
        exprs_nodes(s.take(i)) <= exprs_nodes(s),
    decreases s.len(),
{
    if i == s.len() {
        assert(s.take(i) =~= s);
    } else {
        assert(s.take(i) =~= s.drop_last().take(i));
        lemma_exprs_nodes_prefix(s.drop_last(), i);
    }
}

proof fn lemma_bump_found(cond: Seq<(PlaceView, nat)>, p: PlaceView, i: int)
    requires
        keys_unique(cond),
        0 <= i < cond.len(),
        cond[i].0 == p,
    ensures
        bump(cond, p) == cond.update(i, (p, cond[i].1 + 1)),
        keys_unique(bump(cond, p)),
{
    assert(has_key(cond, p));
    let j = choose|j: int| 0 <= j < cond.len() && cond[j].0 == p;
    assert(j == i);
}

proof fn lemma_bump_absent(cond: Seq<(PlaceView, nat)>, p: PlaceView)
    requires
        keys_unique(cond),
        !has_key(cond, p),
    ensures
        bump(cond, p) == cond.push((p, 1)),
        keys_unique(bump(cond, p)),
{
}

fn find_key(cond: &Vec<(Place, usize)>, p: &Place) -> (r: Option<usize>)
    ensures
        match r {
            Some(i) => i < cond.len() && cond@[i as int].0@ == p@,
            None => !has_key(cond_views(cond@), p@),
        },
{
    let mut i: usize = 0;
    while i < cond.len()
        invariant
            i <= cond.len(),
            forall|k: int| 0 <= k < i ==> cond@[k].0@ != p@,
        decreases cond.len() - i,
    {
        if same_place(&cond[i].0, p) {
            return Some(i);
        }
        i = i + 1;
    }
    proof {
        if has_key(cond_views(cond@), p@) {
            let k = choose|k: int| 0 <= k < cond_views(cond@).len() && cond_views(cond@)[k].0 == p@;
            assert(cond@[k].0@ == p@);
        }
    }
    None
}

/// The executable state of the analysis.
struct Walker {
    reads: Vec<Place>,
    writes: Vec<Place>,
    cond: Vec<(Place, usize)>,
    branches: usize,
    in_region: bool,
    out: Vec<OutStmt>,
    failed: bool,
    ticks: Ghost<nat>,
    table: Vec<(Vec<char>, bool)>,
}

impl Walker {
    spec fn view(&self) -> Analysis {
        Analysis {
            reads: place_views(self.reads@),
            writes: place_views(self.writes@),
            cond: cond_views(self.cond@),
            branches: self.branches as nat,
            in_region: self.in_region,
            out: out_views(self.out@),
            failed: self.failed,
            ticks: self.ticks@,
            table: answer_views(self.table@),
        }
    }

    spec fn inv(&self) -> bool {
        &&& keys_unique(cond_views(self.cond@))
        &&& forall|i: int| 0 <= i < self.cond@.len() ==> self.cond@[i].1 <= self.ticks@
        &&& self.branches <= self.ticks@
        &&& self.ticks@ <= usize::MAX
    }

    fn new(table: Vec<(Vec<char>, bool)>) -> (w: Self)
        ensures
            w@ == initial_analysis(answer_views(table@)),
            w.inv(),
    {
        let w = Walker {
            reads: Vec::new(),
            writes: Vec::new(),
            cond: Vec::new(),
            branches: 0,
            in_region: false,
            out: Vec::new(),
            failed: false,
            ticks: Ghost(0),
            table,
        };
        assert(w@ =~= initial_analysis(answer_views(w.table@)));
        w
    }

    fn emit(&mut self, o: OutStmt)
        requires
            old(self).inv(),
        ensures
            final(self).inv(),
            final(self)@ == (Analysis { out: old(self)@.out.push(o@), ..old(self)@ }),
    {
        self.out.push(o);
        assert(out_views(self.out@) =~= out_views(old(self).out@).push(o@));
    }

    fn save_place(&mut self, p: &Place)
        requires
            old(self).inv(),
        ensures
            final(self).inv(),
            final(self)@ == save_place(old(self)@, p@),
            final(self)@.ticks == old(self)@.ticks,
    {
        insert_place(&mut self.writes, p);
        match p {
            Place::Deref(n) => self.emit(OutStmt::Save(SaveCall::Pointer(copy_chars(n)))),
            Place::Elem(a, t) => {
                let tt = truncate_index(t);
                if lookup_parse(&self.table, &tt) {
                    self.emit(OutStmt::Save(SaveCall::Element(copy_chars(a), tt)));
                }
            },
            Place::Var(n) => self.emit(OutStmt::Save(SaveCall::Reference(copy_chars(n)))),
        }
    }

    fn save_if_new(&mut self, p: &Place)
        requires
            old(self).inv(),
        ensures
            final(self).inv(),
            final(self)@ == save_if_new(old(self)@, p@),
            final(self)@.ticks == old(self)@.ticks,
    {
        if !contains_place(&self.writes, p) {
            self.save_place(p);
        }
    }

    fn save_if_war(&mut self, p: &Place)
        requires
            old(self).inv(),
        ensures
            final(self).inv(),
            final(self)@ == save_if_war(old(self)@, p@),
            final(self)@.ticks == old(self)@.ticks,
    {
        if contains_place(&self.reads, p) && !contains_place(&self.writes, p) {
            self.save_place(p);
        }
    }

    fn save_all_new(&mut self, ps: &Vec<Place>)
        requires
            old(self).inv(),
        ensures
            final(self).inv(),
            final(self)@ == save_all_new(old(self)@, place_views(ps@)),
            final(self)@.ticks == old(self)@.ticks,
    {
        let mut i: usize = 0;
        while i < ps.len()
            invariant
                i <= ps.len(),
                self.inv(),
                self@ == save_all_new(old(self)@, place_views(ps@).take(i as int)),
                self@.ticks == old(self)@.ticks,
            decreases ps.len() - i,
        {
            proof {
                let t = place_views(ps@).take(i + 1);
                assert(t.drop_last() =~= place_views(ps@).take(i as int));
            }
            self.save_if_new(&ps[i]);
            i = i + 1;
        }
        assert(place_views(ps@).take(i as int) =~= place_views(ps@));
    }

    fn count_write(&mut self, p: &Place)
        requires
            old(self).inv(),
            old(self)@.ticks + 1 <= usize::MAX,
        ensures
            final(self).inv(),
            final(self)@ == count_write(old(self)@, p@),
    {
        match find_key(&self.cond, p) {
            Some(i) => {
                let c = self.cond[i].1;
                proof {
                    lemma_bump_found(cond_views(self.cond@), p@, i as int);
                }
                self.cond.set(i, (copy_place(p), c + 1));
                assert(cond_views(self.cond@) =~= bump(cond_views(old(self).cond@), p@));
            },
            None => {
                proof {
                    lemma_bump_absent(cond_views(self.cond@), p@);
                }
                self.cond.push((copy_place(p), 1));
                assert(cond_views(self.cond@) =~= bump(cond_views(old(self).cond@), p@));
            },
        }
        self.ticks = Ghost(self.ticks@ + 1);
        assert(self@ =~= count_write(old(self)@, p@));
    }

    fn count_all(&mut self, ps: &Vec<Place>)
        requires
            old(self).inv(),
            old(self)@.ticks + ps.len() <= usize::MAX,
        ensures
            final(self).inv(),
            final(self)@ == count_all(old(self)@, place_views(ps@)),
            final(self)@.ticks == old(self)@.ticks + ps.len(),
    {
        let mut i: usize = 0;
        while i < ps.len()
            invariant
                i <= ps.len(),
                self.inv(),
                self@ == count_all(old(self)@, place_views(ps@).take(i as int)),
                self@.ticks == old(self)@.ticks + i,
                old(self)@.ticks + ps.len() <= usize::MAX,
            decreases ps.len() - i,
        {
            proof {
                let t = place_views(ps@).take(i + 1);
                assert(t.drop_last() =~= place_views(ps@).take(i as int));
            }
            self.count_write(&ps[i]);
            i = i + 1;
        }
        assert(place_views(ps@).take(i as int) =~= place_views(ps@));
    }

    fn new_branch(&mut self)
        requires
            old(self).inv(),
            old(self)@.ticks + 1 <= usize::MAX,
        ensures
            final(self).inv(),
            final(self)@ == new_branch(old(self)@),
    {
        self.branches = self.branches + 1;
        self.ticks = Ghost(self.ticks@ + 1);
        assert(self@ =~= new_branch(old(self)@));
    }

    fn count_then(&mut self, stmts: &Vec<Statement>)
        requires
            old(self).inv(),
            old(self)@.ticks + stmts_nodes(stmts@) <= usize::MAX,
        ensures
            final(self).inv(),
            final(self)@ == count_then(old(self)@, stmts@),
            final(self)@.ticks <= old(self)@.ticks + stmts_nodes(stmts@),
    {
        let mut i: usize = 0;
        while i < stmts.len()
            invariant
                i <= stmts.len(),
                self.inv(),
                self@ == count_then(old(self)@, stmts@.take(i as int)),
                self@.ticks <= old(self)@.ticks + stmts_nodes(stmts@.take(i as int)),
                old(self)@.ticks + stmts_nodes(stmts@) <= usize::MAX,
            decreases stmts.len() - i,
        {
            proof {
                let t = stmts@.take(i + 1);
                assert(t.drop_last() =~= stmts@.take(i as int));
                assert(t.last() == stmts@[i as int]);
                assert(stmts_nodes(t) == stmts_nodes(stmts@.take(i as int)) + stmt_nodes(stmts@[i as int]));
                lemma_stmts_nodes_prefix(stmts@, i + 1);
                assert(stmt_nodes(stmts@[i as int]) >= 1);
            }
            match &stmts[i] {
                Statement::Term(Term::Assign { left, .. }) => match &**left {
                    Term::Path { ident: Some(n), .. } => {
                        self.count_write(&Place::Var(copy_chars(n)));
                    },
                    _ => {},
                },
                _ => {},
            }
            i = i + 1;
        }
        assert(stmts@.take(i as int) =~= stmts@);
    }

    fn count_else_block(&mut self, stmts: &Vec<Statement>)
        requires
            old(self).inv(),
            old(self)@.ticks + stmts_nodes(stmts@) <= usize::MAX,
        ensures
            final(self).inv(),
            final(self)@ == count_else_block(old(self)@, stmts@),
            final(self)@.ticks <= old(self)@.ticks + stmts_nodes(stmts@),
    {
        let mut i: usize = 0;
        while i < stmts.len()
            invariant
                i <= stmts.len(),
                self.inv(),
                self@ == count_else_block(old(self)@, stmts@.take(i as int)),
                self@.ticks <= old(self)@.ticks + stmts_nodes(stmts@.take(i as int)),
                old(self)@.ticks + stmts_nodes(stmts@) <= usize::MAX,
            decreases stmts.len() - i,
        {
            proof {
                let t = stmts@.take(i + 1);
                assert(t.drop_last() =~= stmts@.take(i as int));
                assert(t.last() == stmts@[i as int]);
                assert(stmts_nodes(t) == stmts_nodes(stmts@.take(i as int)) + stmt_nodes(stmts@[i as int]));
                lemma_stmts_nodes_prefix(stmts@, i + 1);
                assert(stmt_nodes(stmts@[i as int]) >= 1);
            }
            match &stmts[i] {
                Statement::Term(x) => {
                    assert(stmt_nodes(stmts@[i as int]) == 1 + expr_nodes(*x));
                    let ws = places_written(x);
                    proof {
                        lemma_reads_len(*x);
                    }
                    self.count_all(&ws);
                },
                _ => {},
            }
            i = i + 1;
        }
        assert(stmts@.take(i as int) =~= stmts@);
    }

    fn visit_if(&mut self, then_branch: &Vec<Statement>, else_branch: &Option<Box<Term>>)
        requires
            old(self).inv(),
            old(self)@.ticks + 1 + stmts_nodes(then_branch@) + else_nodes(*else_branch)
                <= usize::MAX,
        ensures
            final(self).inv(),
            final(self)@ == visit_if(old(self)@, then_branch@, *else_branch),
            final(self)@.ticks <= old(self)@.ticks + 1 + stmts_nodes(then_branch@) + else_nodes(
                *else_branch,
            ),
        decreases else_branch,
    {
        self.new_branch();
        self.count_then(then_branch);
        match else_branch {
            Some(e) => self.visit_else(e),
            None => {},
        }
    }

    fn visit_else(&mut self, e: &Term)
        requires
            old(self).inv(),
            old(self)@.ticks + expr_nodes(*e) <= usize::MAX,
        ensures
            final(self).inv(),
            final(self)@ == visit_else(old(self)@, *e),
            final(self)@.ticks <= old(self)@.ticks + expr_nodes(*e),
        decreases e,
    {
        match e {
            Term::If { then_branch, else_branch } => self.visit_if(then_branch, else_branch),
            Term::Block { stmts } => {
                self.new_branch();
                self.count_else_block(stmts);
            },
            _ => self.new_branch(),
        }
    }

    fn save_unsafe(&mut self, ws: &Vec<Place>)
        requires
            old(self).inv(),
        ensures
            final(self).inv(),
            final(self)@ == save_unsafe(old(self)@, place_views(ws@)),
            final(self)@.ticks == old(self)@.ticks,
    {
        let mut i: usize = 0;
        while i < ws.len()
            invariant
                i <= ws.len(),
                self.inv(),
                self@ == save_unsafe(old(self)@, place_views(ws@).take(i as int)),
                self@.ticks == old(self)@.ticks,
            decreases ws.len() - i,
        {
            proof {
                let t = place_views(ws@).take(i + 1);
                assert(t.drop_last() =~= place_views(ws@).take(i as int));
            }
            match &ws[i] {
                Place::Var(n) => self.emit(OutStmt::Save(SaveCall::UnsafeReference(copy_chars(n)))),
                _ => {
                    self.failed = true;
                },
            }
            i = i + 1;
        }
        assert(place_views(ws@).take(i as int) =~= place_views(ws@));
    }

    fn visit_unsafe(&mut self, stmts: &Vec<Statement>)
        requires
            old(self).inv(),
        ensures
            final(self).inv(),
            final(self)@ == visit_unsafe(old(self)@, stmts@),
            final(self)@.ticks == old(self)@.ticks,
    {
        let mut i: usize = 0;
        while i < stmts.len()
            invariant
                i <= stmts.len(),
                self.inv(),
                self@ == visit_unsafe(old(self)@, stmts@.take(i as int)),
                self@.ticks == old(self)@.ticks,
            decreases stmts.len() - i,
        {
            proof {
                let t = stmts@.take(i + 1);
                assert(t.drop_last() =~= stmts@.take(i as int));
            }
            match &stmts[i] {
                Statement::Term(x) => {
                    let rs = places_read(x);
                    insert_places(&mut self.reads, &rs);
                    let ws = places_written(x);
                    self.save_unsafe(&ws);
                },
                _ => {},
            }
            i = i + 1;
        }
        assert(stmts@.take(i as int) =~= stmts@);
    }

    fn pending_places(&self) -> (r: Vec<Place>)
        ensures
            place_views(r@) == pending(self@.cond, self@.branches),
    {
        let mut r: Vec<Place> = Vec::new();
        let mut i: usize = 0;
        while i < self.cond.len()
            invariant
                i <= self.cond.len(),
                place_views(r@) == pending(cond_views(self.cond@).take(i as int), self.branches as nat),
            decreases self.cond.len() - i,
        {
            proof {
                let t = cond_views(self.cond@).take(i + 1);
                assert(t.drop_last() =~= cond_views(self.cond@).take(i as int));
            }
            if self.cond[i].1 != self.branches {
                r.push(copy_place(&self.cond[i].0));
                assert(place_views(r@) =~= pending(
                    cond_views(self.cond@).take(i + 1),
                    self.branches as nat,
                ));
            }
            i = i + 1;
        }
        assert(cond_views(self.cond@).take(i as int) =~= cond_views(self.cond@));
        r
    }

    fn visit_expr(&mut self, e: &Term)
        requires
            old(self).inv(),
            old(self)@.ticks + expr_nodes(*e) <= usize::MAX,
        ensures
            final(self).inv(),
            final(self)@ == visit_expr(old(self)@, *e),
            final(self)@.ticks <= old(self)@.ticks + expr_nodes(*e),
    {
        match e {
            Term::Assign { left, right } => match &**left {
                Term::Unary { operand, .. } => match &**operand {
                    Term::Path { ident: Some(n), .. } => self.save_if_war(&Place::Var(copy_chars(n))),
                    _ => {},
                },
                Term::Path { ident, .. } => {
                    let rs = places_read(right);
                    insert_places(&mut self.reads, &rs);
                    match ident {
                        Some(n) => self.save_if_war(&Place::Var(copy_chars(n))),
                        None => {},
                    }
                },
                _ => {},
            },
            Term::Path { last, .. } => {
                insert_place(&mut self.reads, &Place::Var(copy_chars(last)));
            },
            Term::Binary { left, right } => match &**left {
                Term::Index { base, index_text, .. } => match &**base {
                    Term::Path { ident: Some(a), .. } => {
                        let loc = Place::Elem(copy_chars(a), copy_chars(index_text));
                        let rs = places_read(right);
                        insert_places(&mut self.reads, &rs);
                        insert_place(&mut self.reads, &loc);
                        self.save_if_war(&loc);
                    },
                    _ => {},
                },
                Term::Unary { deref, operand } => {
                    if *deref {
                        match &**operand {
                            Term::Path { ident: Some(n), .. } => {
                                let v = Place::Var(copy_chars(n));
                                insert_place(&mut self.reads, &v);
                                let d = Place::Deref(copy_chars(n));
                                if !contains_place(&self.writes, &d) {
                                    self.emit(OutStmt::Save(SaveCall::PointerCore(copy_chars(n))));
                                    insert_place(&mut self.writes, &d);
                                }
                            },
                            _ => {},
                        }
                    }
                },
                Term::Path { ident: Some(n), .. } => {
                    let v = Place::Var(copy_chars(n));
                    insert_place(&mut self.reads, &v);
                    self.save_if_war(&v);
                },
                _ => {},
            },
            Term::If { then_branch, else_branch } => {
                self.visit_if(then_branch, else_branch);
                let ps = self.pending_places();
                self.save_all_new(&ps);
                self.branches = 0;
            },
            Term::Unsafe { stmts } => self.visit_unsafe(stmts),
            _ => {},
        }
        assert(self@ =~= visit_expr(old(self)@, *e));
    }

    fn visit_stmt(&mut self, i: usize, stmt: &Statement)
        requires
            old(self).inv(),
            old(self)@.ticks + stmt_nodes(*stmt) <= usize::MAX,
        ensures
            final(self).inv(),
            final(self)@ == visit_stmt(old(self)@, i as nat, *stmt),
            final(self)@.ticks <= old(self)@.ticks + stmt_nodes(*stmt),
    {
        let in_region = self.in_region;
        let mut next = in_region;
        match stmt {
            Statement::Term(Term::Call { callee }) => {
                match &**callee {
                    Term::Path { ident: Some(n), .. } => {
                        if is_start_atomic(n) {
                            next = true;
                        } else if is_end_atomic(n) {
                            next = false;
                        }
                    },
                    _ => {},
                }
            },
            Statement::Term(e) => {
                if in_region {
                    self.visit_expr(e);
                }
            },
            _ => {},
        }
        self.emit(OutStmt::Keep(i));
        self.in_region = next;
        assert(self@ =~= visit_stmt(old(self)@, i as nat, *stmt));
    }
}

fn is_start_atomic(n: &Vec<char>) -> (r: bool)
    ensures
        r == (n@ == start_atomic_name()),
{
    let w: Vec<char> = vec!['s', 't', 'a', 'r', 't', '_', 'a', 't', 'o', 'm', 'i', 'c'];
    assert(w@ =~= start_atomic_name());
    same_chars(n, &w)
}

fn is_end_atomic(n: &Vec<char>) -> (r: bool)
    ensures
        r == (n@ == end_atomic_name()),
{
    let w: Vec<char> = vec!['e', 'n', 'd', '_', 'a', 't', 'o', 'm', 'i', 'c'];
    assert(w@ =~= end_atomic_name());
    same_chars(n, &w)
}

/// Instruments a function: `preamble` holds the expressions met in its
/// attributes and signature, in order, and `body` the statements of its
/// body. On success the result lists the statements of the new body:
/// each input statement by its position, with the inserted saves.
/// Where the saves for one statement could come in any order (the
/// conditionally written places after an `if`, the writes of an `unsafe`
/// block), they come in the order in which their places were first met.
/// `answers` tells, for index texts, whether they parse as expressions
/// (see [`lookup_answer`](super::places::lookup_answer)); an element save
/// is emitted only for an index text answered as parsing.
/// The requirement bounds the size of the syntax tree by the address
/// space, which keeps the write counters from overflowing.
pub fn war_instrument_with(preamble: &Vec<Term>, body: &Vec<Statement>, answers: Vec<(Vec<char>, bool)>) -> (r: Result<
    Vec<OutStmt>,
    InstrumentError,
>)
    requires
        exprs_nodes(preamble@) + stmts_nodes(body@) <= usize::MAX,
    ensures
        match r {
            Ok(out) => instrumented(preamble@, body@, answer_views(answers@)) == Some(out_views(out@)),
            Err(_) => instrumented(preamble@, body@, answer_views(answers@)) is None,
        },
{
    let ghost table = answer_views(answers@);
    let mut w = Walker::new(answers);
    let mut i: usize = 0;
    while i < preamble.len()
        invariant
            i <= preamble.len(),
            w.inv(),
            w@ == visit_exprs(initial_analysis(table), preamble@.take(i as int)),
            w@.ticks <= exprs_nodes(preamble@.take(i as int)),
            exprs_nodes(preamble@) + stmts_nodes(body@) <= usize::MAX,
        decreases preamble.len() - i,
    {
        proof {
            let t = preamble@.take(i + 1);
            assert(t.drop_last() =~= preamble@.take(i as int));
            lemma_exprs_nodes_prefix(preamble@, i + 1);
        }
        w.visit_expr(&preamble[i]);
        i = i + 1;
    }
    assert(preamble@.take(i as int) =~= preamble@);
    let ghost start = w@;
    let mut j: usize = 0;
    while j < body.len()
        invariant
            j <= body.len(),
            w.inv(),
            w@ == visit_stmts(start, body@.take(j as int)),
            w@.ticks <= exprs_nodes(preamble@) + stmts_nodes(body@.take(j as int)),
            exprs_nodes(preamble@) + stmts_nodes(body@) <= usize::MAX,
        decreases body.len() - j,
    {
        proof {
            let t = body@.take(j + 1);
            assert(t.drop_last() =~= body@.take(j as int));
            lemma_stmts_nodes_prefix(body@, j + 1);
        }
        w.visit_stmt(j, &body[j]);
        j = j + 1;
    }
    assert(body@.take(j as int) =~= body@);
    if w.failed {
        Err(InstrumentError::UnnamedUnsafeWrite)
    } else {
        Ok(w.out)
    }
}

/// Instruments a function, as [`war_instrument_with`] does, asking
/// `syn` whether each index text of the function (see
/// [`index_texts`](super::places::index_texts)) parses as an expression.
/// The answers come from outside and are not stated; the result is the
/// analysis under some answers for exactly those texts, in that order.
pub fn war_instrument(preamble: &Vec<Term>, body: &Vec<Statement>) -> (r: Result<
    Vec<OutStmt>,
    InstrumentError,
>)
    requires
        exprs_nodes(preamble@) + stmts_nodes(body@) <= usize::MAX,
    ensures
        exists|t: Seq<(Seq<char>, bool)>|
            {
                &&& answer_keys(t) == index_texts(preamble@, body@)
                &&& match r {
                    Ok(out) => instrumented(preamble@, body@, t) == Some(out_views(out@)),
                    Err(_) => instrumented(preamble@, body@, t) is None,
                }
            },
{
    let mut answers: Vec<(Vec<char>, bool)> = Vec::new();
    let mut i: usize = 0;
    while i < preamble.len()
        invariant
            i <= preamble.len(),
            answer_keys(answer_views(answers@)) == exprs_texts(preamble@.take(i as int)),
        decreases preamble.len() - i,
    {
        proof {
            let t = preamble@.take(i + 1);
            assert(t.drop_last() =~= preamble@.take(i as int));
        }
        ask_expr(&preamble[i], &mut answers);
        i = i + 1;
    }
    assert(preamble@.take(i as int) =~= preamble@);
    ask_stmts(body, &mut answers);
    let ghost t = answer_views(answers@);
    let r = war_instrument_with(preamble, body, answers);
    assert(answer_keys(t) == index_texts(preamble@, body@));
    r
}

} // verus!
