//! Operations on places: the places an expression reads and writes, and
//! the index text that a logged array element is written with.

use vstd::prelude::*;
use super::ast::{Term, Statement, Place, PlaceView, place_views, copy_place, same_place, copy_chars, same_chars};

verus! {

/// Adds a place to a collection kept as a sequence in first-insertion order.
pub open spec fn add_place(s: Seq<PlaceView>, p: PlaceView) -> Seq<PlaceView> {
    if s.contains(p) {
        s
    } else {
        s.push(p)
    }
}

/// Adds each of `ps`, in order, to `s`.
pub open spec fn add_places(s: Seq<PlaceView>, ps: Seq<PlaceView>) -> Seq<PlaceView>
    decreases ps.len(),
{
    if ps.len() == 0 {
        s
    } else {
        add_place(add_places(s, ps.drop_last()), ps.last())
    }
}

/// The places that an expression reads, as the analysis counts them:
/// plain identifiers, dereferenced pointer variables, and indexed array
/// variables, gathered through binary operations, non-dereferencing unary
/// operations, field bases, index expressions and the right side of
/// assignments.
pub open spec fn reads_of(e: Term) -> Seq<PlaceView>
    decreases e,
{
    match e {
        Term::Path { ident: Some(n), .. } => seq![PlaceView::Var(n@)],
        Term::Binary { left, right } => add_places(reads_of(*left), reads_of(*right)),
        Term::Unary { deref, operand } => if deref {
            match *operand {
                Term::Path { ident: Some(n), .. } => seq![PlaceView::Deref(n@)],
                _ => Seq::empty(),
            }
        } else {
            reads_of(*operand)
        },
        Term::Field { base } => reads_of(*base),
        Term::Index { base, index, index_text } => add_places(
            match *base {
                Term::Path { ident: Some(a), .. } => seq![PlaceView::Elem(a@, index_text@)],
                _ => Seq::empty(),
            },
            reads_of(*index),
        ),
        Term::Assign { right, .. } => reads_of(*right),
        _ => Seq::empty(),
    }
}

/// The places that an expression writes, as the analysis counts them: the
/// places read by the left side of an assignment or of a binary operation,
/// looked up through field bases and index expressions.
pub open spec fn writes_of(e: Term) -> Seq<PlaceView>
    decreases e,
{
    match e {
        Term::Binary { left, .. } => reads_of(*left),
        Term::Field { base } => writes_of(*base),
        Term::Index { index, .. } => writes_of(*index),
        Term::Assign { left, .. } => reads_of(*left),
        _ => Seq::empty(),
    }
}

/// The position of the first `]` in `t`, or its length if it has none.
pub open spec fn first_close(t: Seq<char>) -> nat
    decreases t.len(),
{
    if t.len() == 0 {
        0
    } else if t[0] == ']' {
        0
    } else {
        1 + first_close(t.drop_first())
    }
}

/// The index text that a logged element is written with: what stands
/// between the opening bracket and the first closing bracket.
pub open spec fn before_close(t: Seq<char>) -> Seq<char> {
    t.take(first_close(t) as int)
}

proof fn lemma_first_close(t: Seq<char>, i: int)
    requires
        0 <= i <= t.len(),
        forall|k: int| 0 <= k < i ==> t[k] != ']',
    ensures
        first_close(t) >= i,
        i < t.len() && t[i] == ']' ==> first_close(t) == i,
        i == t.len() ==> first_close(t) == i,
    decreases i,
{
    if i > 0 {
        let u = t.drop_first();
        assert forall|k: int| 0 <= k < i - 1 implies u[k] != ']' by {
            assert(u[k] == t[k + 1]);
        }
        lemma_first_close(u, i - 1);
        if i < t.len() {
            assert(u[i - 1] == t[i]);
        }
    }
}

/// The index text before the first closing bracket.
pub fn truncate_index(t: &Vec<char>) -> (r: Vec<char>)
    ensures
        r@ == before_close(t@),
{
    let mut r: Vec<char> = Vec::new();
    let mut i: usize = 0;
    while i < t.len()
        invariant
            i <= t.len(),
            r@ == t@.subrange(0, i as int),
            forall|k: int| 0 <= k < i ==> t@[k] != ']',
        decreases t.len() - i,
    {
        if t[i] == ']' {
            proof {
                lemma_first_close(t@, i as int);
            }
            assert(r@ =~= before_close(t@));
            return r;
        }
        r.push(t[i]);
        i = i + 1;
        assert(r@ =~= t@.subrange(0, i as int));
    }
    proof {
        lemma_first_close(t@, i as int);
    }
    assert(r@ =~= before_close(t@));
    r
}

/// Whether `syn::parse_str::<syn::Expr>` parses `text`. Nothing is stated
/// of the answer: `syn` hands the text to `proc_macro2`, which inside a
/// procedural macro also asks the compiler's own lexer, so one text need
/// not get one answer in every process.
#[verifier::external_body]
pub(crate) fn parses_as_expr(text: &Vec<char>) -> bool {
    let s: String = text.iter().collect();
    syn::parse_str::<syn::Expr>(&s).is_ok()
}

/// The views of a table of parse answers: index texts, each with whether
/// it parses as an expression.
pub open spec fn answer_views(v: Seq<(Vec<char>, bool)>) -> Seq<(Seq<char>, bool)> {
    v.map_values(|e: (Vec<char>, bool)| (e.0@, e.1))
}

/// The texts that a table of parse answers answers for, in order.
pub open spec fn answer_keys(t: Seq<(Seq<char>, bool)>) -> Seq<Seq<char>> {
    t.map_values(|e: (Seq<char>, bool)| e.0)
}

/// The answer that a table gives for `text`: that of its last entry for
/// the text, and `false` where it has none.
pub open spec fn lookup_answer(t: Seq<(Seq<char>, bool)>, text: Seq<char>) -> bool
    decreases t.len(),
{
    if t.len() == 0 {
        false
    } else if t.last().0 == text {
        t.last().1
    } else {
        lookup_answer(t.drop_last(), text)
    }
}

/// Looks up the answer for `text`; see [`lookup_answer`].
pub fn lookup_parse(table: &Vec<(Vec<char>, bool)>, text: &Vec<char>) -> (r: bool)
    ensures
        r == lookup_answer(answer_views(table@), text@),
{
    let ghost t = answer_views(table@);
    let mut i: usize = table.len();
    assert(t.take(i as int) =~= t);
    while i > 0
        invariant
            i <= table.len(),
            t == answer_views(table@),
            lookup_answer(t, text@) == lookup_answer(t.take(i as int), text@),
        decreases i,
    {
        assert(t.take(i as int).drop_last() =~= t.take(i - 1));
        assert(t.take(i as int).last() == t[i - 1]);
        if same_chars(&table[i - 1].0, text) {
            return table[i - 1].1;
        }
        i = i - 1;
    }
    assert(t.take(0) =~= Seq::<(Seq<char>, bool)>::empty());
    false
}

/// Whether `v` holds a place with the same value as `p`.
pub(crate) fn contains_place(v: &Vec<Place>, p: &Place) -> (r: bool)
    ensures
        r == place_views(v@).contains(p@),
{
    let mut i: usize = 0;
    while i < v.len()
        invariant
            i <= v.len(),
            forall|k: int| 0 <= k < i ==> v@[k]@ != p@,
        decreases v.len() - i,
    {
        if same_place(&v[i], p) {
            assert(place_views(v@)[i as int] == p@);
            return true;
        }
        i = i + 1;
    }
    proof {
        if place_views(v@).contains(p@) {
            let k = choose|k: int| 0 <= k < place_views(v@).len() && place_views(v@)[k] == p@;
            assert(v@[k]@ == p@);
        }
    }
    false
}

/// Adds a copy of `p` to `v` unless a place of the same value is there.
pub(crate) fn insert_place(v: &mut Vec<Place>, p: &Place)
    ensures
        place_views(final(v)@) == add_place(place_views(old(v)@), p@),
{
    if !contains_place(v, p) {
        v.push(copy_place(p));
        assert(place_views(v@) =~= place_views(old(v)@).push(p@));
    }
}

/// Adds copies of the places of `ps`, in order, to `v`.
pub(crate) fn insert_places(v: &mut Vec<Place>, ps: &Vec<Place>)
    ensures
        place_views(final(v)@) == add_places(place_views(old(v)@), place_views(ps@)),
{
    let mut i: usize = 0;
    while i < ps.len()
        invariant
            i <= ps.len(),
            place_views(v@) == add_places(place_views(old(v)@), place_views(ps@).take(i as int)),
        decreases ps.len() - i,
    {
        proof {
            let t = place_views(ps@).take(i + 1);
            assert(t.drop_last() =~= place_views(ps@).take(i as int));
            assert(t.last() == ps@[i as int]@);
        }
        insert_place(v, &ps[i]);
        i = i + 1;
    }
    assert(place_views(ps@).take(i as int) =~= place_views(ps@));
}

fn single(p: Place) -> (r: Vec<Place>)
    ensures
        place_views(r@) == seq![p@],
{
    let mut r: Vec<Place> = Vec::new();
    r.push(p);
    assert(place_views(r@) =~= seq![p@]);
    r
}

fn empty_places() -> (r: Vec<Place>)
    ensures
        place_views(r@) == Seq::<PlaceView>::empty(),
{
    let r: Vec<Place> = Vec::new();
    assert(place_views(r@) =~= Seq::<PlaceView>::empty());
    r
}

/// The places that an expression reads; see [`reads_of`].
pub fn places_read(e: &Term) -> (r: Vec<Place>)
    ensures
        place_views(r@) == reads_of(*e),
    decreases e,
{
    match e {
        Term::Path { ident: Some(n), .. } => single(Place::Var(copy_chars(n))),
        Term::Binary { left, right } => {
            let mut r = places_read(left);
            let rr = places_read(right);
            insert_places(&mut r, &rr);
            r
        },
        Term::Unary { deref, operand } => {
            if *deref {
                match &**operand {
                    Term::Path { ident: Some(n), .. } => single(Place::Deref(copy_chars(n))),
                    _ => empty_places(),
                }
            } else {
                places_read(operand)
            }
        },
        Term::Field { base } => places_read(base),
        Term::Index { base, index, index_text } => {
            let mut r = match &**base {
                Term::Path { ident: Some(a), .. } => single(
                    Place::Elem(copy_chars(a), copy_chars(index_text)),
                ),
                _ => empty_places(),
            };
            let ir = places_read(index);
            insert_places(&mut r, &ir);
            r
        },
        Term::Assign { right, .. } => places_read(right),
        _ => empty_places(),
    }
}

/// The places that an expression writes; see [`writes_of`].
pub fn places_written(e: &Term) -> (r: Vec<Place>)
    ensures
        place_views(r@) == writes_of(*e),
    decreases e,
{
    match e {
        Term::Binary { left, .. } => places_read(left),
        Term::Field { base } => places_written(base),
        Term::Index { index, .. } => places_written(index),
        Term::Assign { left, .. } => places_read(left),
        _ => empty_places(),
    }
}

/// The index texts of an expression, cut at their first closing bracket,
/// in the order of a walk of the expression: those that the analysis may
/// ask about.
pub open spec fn expr_texts(e: Term) -> Seq<Seq<char>>
    decreases e,
{
    match e {
        Term::Binary { left, right } => expr_texts(*left) + expr_texts(*right),
        Term::Unary { operand, .. } => expr_texts(*operand),
        Term::Field { base } => expr_texts(*base),
        Term::Index { base, index, index_text } => expr_texts(*base) + expr_texts(*index) + seq![
            before_close(index_text@),
        ],
        Term::Assign { left, right } => expr_texts(*left) + expr_texts(*right),
        Term::If { then_branch, else_branch } => stmts_texts(then_branch@) + match else_branch {
            Some(b) => expr_texts(*b),
            None => Seq::empty(),
        },
        Term::Block { stmts } => stmts_texts(stmts@),
        Term::Unsafe { stmts } => stmts_texts(stmts@),
        Term::Call { callee } => expr_texts(*callee),
        _ => Seq::empty(),
    }
}

/// The index texts of a statement; see [`expr_texts`].
pub open spec fn stmt_texts(s: Statement) -> Seq<Seq<char>>
    decreases s,
{
    match s {
        Statement::Term(e) => expr_texts(e),
        _ => Seq::empty(),
    }
}

/// The index texts of a sequence of statements, in order.
pub open spec fn stmts_texts(s: Seq<Statement>) -> Seq<Seq<char>>
    decreases s,
{
    if s.len() == 0 {
        Seq::empty()
    } else {
        stmts_texts(s.drop_last()) + stmt_texts(s.last())
    }
}

/// The index texts of a sequence of expressions, in order.
pub open spec fn exprs_texts(s: Seq<Term>) -> Seq<Seq<char>>
    decreases s.len(),
{
    if s.len() == 0 {
        Seq::empty()
    } else {
        exprs_texts(s.drop_last()) + expr_texts(s.last())
    }
}

/// The index texts of a function: those of the expressions before its
/// body, then those of its body.
pub open spec fn index_texts(preamble: Seq<Term>, body: Seq<Statement>) -> Seq<Seq<char>> {
    exprs_texts(preamble) + stmts_texts(body)
}

fn ask_text(table: &mut Vec<(Vec<char>, bool)>, text: &Vec<char>)
    ensures
        answer_keys(answer_views(final(table)@)) == answer_keys(answer_views(old(table)@)).push(
            before_close(text@),
        ),
{
    let t = truncate_index(text);
    let answer = parses_as_expr(&t);
    table.push((t, answer));
    assert(answer_keys(answer_views(table@)) =~= answer_keys(answer_views(old(table)@)).push(
        before_close(text@),
    ));
}

/// Asks, for each index text of `e` in turn, whether it parses, and
/// appends the answers to `table`.
pub fn ask_expr(e: &Term, table: &mut Vec<(Vec<char>, bool)>)
    ensures
        answer_keys(answer_views(final(table)@)) == answer_keys(answer_views(old(table)@)) + expr_texts(
            *e,
        ),
    decreases e,
{
    let ghost k0 = answer_keys(answer_views(table@));
    match e {
        Term::Binary { left, right } => {
            ask_expr(left, table);
            ask_expr(right, table);
        },
        Term::Unary { operand, .. } => ask_expr(operand, table),
        Term::Field { base } => ask_expr(base, table),
        Term::Index { base, index, index_text } => {
            ask_expr(base, table);
            ask_expr(index, table);
            ask_text(table, index_text);
        },
        Term::Assign { left, right } => {
            ask_expr(left, table);
            ask_expr(right, table);
        },
        Term::If { then_branch, else_branch } => {
            ask_stmts(then_branch, table);
            match else_branch {
                Some(b) => ask_expr(b, table),
                None => {},
            }
        },
        Term::Block { stmts } => ask_stmts(stmts, table),
        Term::Unsafe { stmts } => ask_stmts(stmts, table),
        Term::Call { callee } => ask_expr(callee, table),
        _ => {},
    }
    assert(answer_keys(answer_views(table@)) =~= k0 + expr_texts(*e));
}

/// Asks, for each index text of the statements in turn, whether it
/// parses, and appends the answers to `table`.
pub fn ask_stmts(stmts: &Vec<Statement>, table: &mut Vec<(Vec<char>, bool)>)
    ensures
        answer_keys(answer_views(final(table)@)) == answer_keys(answer_views(old(table)@)) + stmts_texts(
            stmts@,
        ),
    decreases stmts,
{
    let ghost k0 = answer_keys(answer_views(table@));
    let mut i: usize = 0;
    while i < stmts.len()
        invariant
            i <= stmts.len(),
            answer_keys(answer_views(table@)) == k0 + stmts_texts(stmts@.take(i as int)),
        decreases stmts.len() - i,
    {
        let ghost before = answer_keys(answer_views(table@));
        proof {
            let t = stmts@.take(i + 1);
            assert(t.drop_last() =~= stmts@.take(i as int));
            assert(t.last() == stmts@[i as int]);
            assert(stmts_texts(t) == stmts_texts(stmts@.take(i as int)) + stmt_texts(stmts@[i as int]));
        }
        match &stmts[i] {
            Statement::Term(x) => {
                assert(decreases_to!(stmts => stmts@[i as int]));
                ask_expr(x, table);
                assert(stmt_texts(stmts@[i as int]) == expr_texts(*x));
            },
            _ => {
                assert(stmt_texts(stmts@[i as int]) =~= Seq::<Seq<char>>::empty());
            },
        }
        assert(answer_keys(answer_views(table@)) =~= before + stmt_texts(stmts@[i as int]));
        assert(answer_keys(answer_views(table@)) =~= k0 + stmts_texts(stmts@.take(i + 1)));
        i = i + 1;
    }
    assert(stmts@.take(i as int) =~= stmts@);
}

} // verus!
