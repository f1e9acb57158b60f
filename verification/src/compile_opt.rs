//! Analyses and rewrites that the compiler uses to optimize programs.
use vstd::prelude::*;
use crate::ast::{
    Statement, Expression, Literal, BinaryOperator, StmtV, ExprV, LitV, stmt_view, stmts_view,
    expr_view, exprs_view, branches_view, lemma_stmts_view_index, lemma_exprs_view_index,
    lemma_branches_view_index,
};
use crate::value::{Value, ValueV};
use crate::show::{nat_text, push_nat};

verus! {

// ---------------------------------------------------------------------------
// Names assigned in a body.
// ---------------------------------------------------------------------------

/// Names bound by a statement: assignment targets, loop variables and function names,
/// looking into nested blocks and function bodies (but not into expressions).
pub open spec fn assigned_stmt(s: StmtV) -> Set<Seq<char>>
    decreases s,
{
    match s {
        StmtV::Assignment { name, .. } => set![name],
        StmtV::If { branches, else_branch } => assigned_branches(branches) + match else_branch {
            Some(b) => assigned_list(b),
            None => Set::empty(),
        },
        StmtV::While { body, .. } => assigned_list(body),
        StmtV::ForIn { key_name, value_name, body, .. } => set![key_name] + match value_name {
            Some(v) => set![v],
            None => Set::empty(),
        } + assigned_list(body),
        StmtV::FunctionDef { name, body, .. } => set![name] + assigned_list(body),
        _ => Set::empty(),
    }
}

pub open spec fn assigned_list(ss: Seq<StmtV>) -> Set<Seq<char>>
    decreases ss,
{
    if ss.len() == 0 {
        Set::empty()
    } else {
        assigned_stmt(ss[0]) + assigned_list(ss.drop_first())
    }
}

pub open spec fn assigned_branches(bs: Seq<(ExprV, Seq<StmtV>)>) -> Set<Seq<char>>
    decreases bs,
{
    if bs.len() == 0 {
        Set::empty()
    } else {
        assigned_list(bs[0].1) + assigned_branches(bs.drop_first())
    }
}

/// The set of texts of a list of strings.
pub open spec fn text_set(ns: Seq<String>) -> Set<Seq<char>> {
    ns.map_values(|n: String| n@).to_set()
}

/// No text occurs twice in the list.
pub open spec fn distinct_texts(ns: Seq<String>) -> bool {
    forall|i: int, j: int| 0 <= i < j < ns.len() ==> ns[i]@ != ns[j]@
}

pub proof fn lemma_assigned_list_push(ss: Seq<StmtV>, x: StmtV)
    ensures
        assigned_list(ss.push(x)) == assigned_list(ss) + assigned_stmt(x),
    decreases ss.len(),
{
    if ss.len() == 0 {
        assert(ss.push(x).drop_first() =~= Seq::<StmtV>::empty());
        assert(ss.push(x)[0] == x);
        assert(assigned_list(Seq::<StmtV>::empty()) =~= Set::<Seq<char>>::empty());
        assert(assigned_list(ss.push(x)) =~= assigned_list(ss) + assigned_stmt(x));
    } else {
        assert(ss.push(x).drop_first() =~= ss.drop_first().push(x));
        lemma_assigned_list_push(ss.drop_first(), x);
        assert(assigned_list(ss.push(x)) =~= assigned_list(ss) + assigned_stmt(x));
    }
}

pub proof fn lemma_assigned_branches_push(bs: Seq<(ExprV, Seq<StmtV>)>, x: (ExprV, Seq<StmtV>))
    ensures
        assigned_branches(bs.push(x)) == assigned_branches(bs) + assigned_list(x.1),
    decreases bs.len(),
{
    if bs.len() == 0 {
        assert(bs.push(x).drop_first() =~= Seq::<(ExprV, Seq<StmtV>)>::empty());
        assert(bs.push(x)[0] == x);
        assert(assigned_branches(Seq::<(ExprV, Seq<StmtV>)>::empty()) =~= Set::<Seq<char>>::empty());
        assert(assigned_branches(bs.push(x)) =~= assigned_branches(bs) + assigned_list(x.1));
    } else {
        assert(bs.push(x).drop_first() =~= bs.drop_first().push(x));
        lemma_assigned_branches_push(bs.drop_first(), x);
        assert(assigned_branches(bs.push(x)) =~= assigned_branches(bs) + assigned_list(x.1));
    }
}

/// Adds `name` unless a name with the same text is already there.
fn insert_name(names: &mut Vec<String>, name: &String)
    requires
        distinct_texts(old(names)@),
    ensures
        distinct_texts(final(names)@),
        text_set(final(names)@) == text_set(old(names)@).insert(name@),
{
    let mut i: usize = 0;
    while i < names.len()
        invariant
            i <= names.len(),
            distinct_texts(names@),
            forall|j: int| 0 <= j < i ==> names@[j]@ != name@,
        decreases names.len() - i,
    {
        if names[i] == *name {
            proof {
                assert(text_set(names@).contains(name@)) by {
                    assert(names@.map_values(|n: String| n@)[i as int] == name@);
                }
                assert(text_set(names@).insert(name@) =~= text_set(names@));
            }
            return;
        }
        i = i + 1;
    }
    let ghost before = names@;
    names.push(name.clone());
    proof {
        assert(names@.map_values(|n: String| n@) =~= before.map_values(|n: String| n@).push(name@));
        before.map_values(|n: String| n@).lemma_push_to_set_commute(name@);
    }
}

fn assigned_in_block(block: &Vec<Statement>, names: &mut Vec<String>)
    requires
        distinct_texts(old(names)@),
    ensures
        distinct_texts(final(names)@),
        text_set(final(names)@) == text_set(old(names)@) + assigned_list(stmts_view(block@)),
    decreases block, 0nat,
{
    let ghost start = text_set(names@);
    let mut i: usize = 0;
    proof {
        lemma_stmts_view_index(block@);
        assert(stmts_view(block@).take(0) =~= Seq::<StmtV>::empty());
        assert(start + assigned_list(Seq::<StmtV>::empty()) =~= start);
    }
    while i < block.len()
        invariant
            i <= block.len(),
            distinct_texts(names@),
            stmts_view(block@).len() == block@.len(),
            forall|j: int| 0 <= j < block@.len() ==> #[trigger] stmts_view(block@)[j] == stmt_view(block@[j]),
            text_set(names@) == start + assigned_list(stmts_view(block@).take(i as int)),
        decreases block.len() - i,
    {
        assigned_in_statement(&block[i], names);
        proof {
            let v = stmts_view(block@);
            assert(v.take(i + 1) =~= v.take(i as int).push(v[i as int]));
            lemma_assigned_list_push(v.take(i as int), v[i as int]);
            assert(text_set(names@) =~= start + assigned_list(v.take(i + 1)));
        }
        i = i + 1;
    }
    proof {
        assert(stmts_view(block@).take(block.len() as int) =~= stmts_view(block@));
    }
}

fn assigned_in_statement(stmt: &Statement, names: &mut Vec<String>)
    requires
        distinct_texts(old(names)@),
    ensures
        distinct_texts(final(names)@),
        text_set(final(names)@) == text_set(old(names)@) + assigned_stmt(stmt@),
    decreases stmt, 1nat,
{
    let ghost start = text_set(names@);
    match stmt {
        Statement::Assignment { name, .. } => {
            insert_name(names, name);
            assert(text_set(names@) =~= start + assigned_stmt(stmt@));
        },
        Statement::If { branches, else_branch } => {
            let mut i: usize = 0;
            proof {
                lemma_branches_view_index(branches@);
                assert(branches_view(branches@).take(0) =~= Seq::<(ExprV, Seq<StmtV>)>::empty());
                assert(start + assigned_branches(Seq::<(ExprV, Seq<StmtV>)>::empty()) =~= start);
                assert(decreases_to!(*stmt => *branches));
            }
            while i < branches.len()
                invariant
                    i <= branches.len(),
                    decreases_to!(*stmt => *branches),
                    distinct_texts(names@),
                    branches_view(branches@).len() == branches@.len(),
                    forall|j: int|
                        0 <= j < branches@.len() ==> #[trigger] branches_view(branches@)[j] == (
                            expr_view(branches@[j].0),
                            stmts_view(branches@[j].1@),
                        ),
                    text_set(names@) == start + assigned_branches(
                        branches_view(branches@).take(i as int),
                    ),
                decreases branches.len() - i,
            {
                proof {
                    assert(decreases_to!(*branches => branches@[i as int]));
                    assert(decreases_to!(branches@[i as int] => branches@[i as int].1));
                }
                assigned_in_block(&branches[i].1, names);
                proof {
                    let v = branches_view(branches@);
                    assert(v.take(i + 1) =~= v.take(i as int).push(v[i as int]));
                    lemma_assigned_branches_push(v.take(i as int), v[i as int]);
                    assert(text_set(names@) =~= start + assigned_branches(v.take(i + 1)));
                }
                i = i + 1;
            }
            proof {
                assert(branches_view(branches@).take(branches.len() as int) =~= branches_view(
                    branches@,
                ));
            }
            let ghost mid = text_set(names@);
            match else_branch {
                Some(block) => {
                    assigned_in_block(block, names);
                },
                None => {},
            }
            assert(text_set(names@) =~= start + assigned_stmt(stmt@));
        },
        Statement::While { body, .. } => {
            assigned_in_block(body, names);
        },
        Statement::ForIn { body, key_name, value_name, .. } => {
            insert_name(names, key_name);
            match value_name {
                Some(v) => {
                    insert_name(names, v);
                },
                None => {},
            }
            assigned_in_block(body, names);
            assert(text_set(names@) =~= start + assigned_stmt(stmt@));
        },
        Statement::FunctionDef { name, body, .. } => {
            insert_name(names, name);
            assigned_in_block(body, names);
            assert(text_set(names@) =~= start + assigned_stmt(stmt@));
        },
        _ => {
            assert(text_set(names@) =~= start + assigned_stmt(stmt@));
        },
    }
}

/// Names assigned anywhere in `body`: assignment targets, loop variables and function
/// names, in nested blocks too. Each name occurs once.
pub fn assigned_in_body(body: &Vec<Statement>) -> (names: Vec<String>)
    ensures
        distinct_texts(names@),
        text_set(names@) == assigned_list(stmts_view(body@)),
{
    let mut names: Vec<String> = Vec::new();
    proof {
        assert(text_set(names@) =~= Set::<Seq<char>>::empty());
    }
    assigned_in_block(body, &mut names);
    assert(text_set(names@) =~= assigned_list(stmts_view(body@)));
    names
}


// ---------------------------------------------------------------------------
// Member reads that can be hoisted.
// ---------------------------------------------------------------------------

pub type NamePair = (Seq<char>, Seq<char>);

/// Occurrences, in reading order, of `obj.member` reads whose object is a plain identifier
/// that is not in `assigned`: every expression is walked, the bodies of function
/// expressions, input prompts and the elements and values of literals included.
pub open spec fn member_uses_expr(e: ExprV, assigned: Set<Seq<char>>) -> Seq<NamePair>
    decreases e,
{
    match e {
        ExprV::MemberAccess { object, member } => (match *object {
            ExprV::Identifier(o) => if assigned.contains(o) {
                Seq::empty()
            } else {
                seq![(o, member)]
            },
            _ => Seq::empty(),
        }) + member_uses_expr(*object, assigned),
        ExprV::BinaryOp { left, right, .. } => member_uses_expr(*left, assigned) + member_uses_expr(
            *right,
            assigned,
        ),
        ExprV::UnaryOp { expr, .. } => member_uses_expr(*expr, assigned),
        ExprV::Index { object, index } => member_uses_expr(*object, assigned) + member_uses_expr(
            *index,
            assigned,
        ),
        ExprV::FunctionCall { args, .. } => member_uses_exprs(args, assigned),
        ExprV::Call { callee, args } => member_uses_expr(*callee, assigned) + member_uses_exprs(
            args,
            assigned,
        ),
        ExprV::FunctionExpr { body, .. } => member_uses_stmts(body, assigned),
        ExprV::Input { prompt, .. } => member_uses_expr(*prompt, assigned),
        ExprV::Literal(LitV::Array { elements, .. }) => member_uses_exprs(elements, assigned),
        ExprV::Literal(LitV::Object { fields }) => member_uses_fields(fields, assigned),
        _ => Seq::empty(),
    }
}

/// The member reads in the values of an object literal's fields, in order.
pub open spec fn member_uses_fields(fs: Seq<(Seq<char>, ExprV)>, assigned: Set<Seq<char>>) -> Seq<NamePair>
    decreases fs,
{
    if fs.len() == 0 {
        Seq::empty()
    } else {
        member_uses_expr(fs[0].1, assigned) + member_uses_fields(fs.drop_first(), assigned)
    }
}

pub open spec fn member_uses_exprs(es: Seq<ExprV>, assigned: Set<Seq<char>>) -> Seq<NamePair>
    decreases es,
{
    if es.len() == 0 {
        Seq::empty()
    } else {
        member_uses_expr(es[0], assigned) + member_uses_exprs(es.drop_first(), assigned)
    }
}

pub open spec fn member_uses_stmt(s: StmtV, assigned: Set<Seq<char>>) -> Seq<NamePair>
    decreases s,
{
    match s {
        StmtV::Assignment { value, .. } => member_uses_expr(value, assigned),
        StmtV::Print(value) => member_uses_expr(value, assigned),
        StmtV::Return(Some(value)) => member_uses_expr(value, assigned),
        StmtV::Expression(value) => member_uses_expr(value, assigned),
        StmtV::If { branches, else_branch } => member_uses_branches(branches, assigned) + match else_branch {
            Some(b) => member_uses_stmts(b, assigned),
            None => Seq::empty(),
        },
        StmtV::While { condition, body } => member_uses_expr(condition, assigned)
            + member_uses_stmts(body, assigned),
        StmtV::ForIn { iterable, body, .. } => member_uses_expr(iterable, assigned)
            + member_uses_stmts(body, assigned),
        StmtV::IndexAssign { object, index, value } => member_uses_expr(object, assigned)
            + member_uses_expr(index, assigned) + member_uses_expr(value, assigned),
        StmtV::PropertyAssign { target, value } => (match target {
            ExprV::MemberAccess { object, .. } => member_uses_expr(*object, assigned),
            _ => member_uses_expr(target, assigned),
        }) + member_uses_expr(value, assigned),
        StmtV::FunctionDef { body, .. } => member_uses_stmts(body, assigned),
        _ => Seq::empty(),
    }
}

pub open spec fn member_uses_stmts(ss: Seq<StmtV>, assigned: Set<Seq<char>>) -> Seq<NamePair>
    decreases ss,
{
    if ss.len() == 0 {
        Seq::empty()
    } else {
        member_uses_stmt(ss[0], assigned) + member_uses_stmts(ss.drop_first(), assigned)
    }
}

pub open spec fn member_uses_branches(
    bs: Seq<(ExprV, Seq<StmtV>)>,
    assigned: Set<Seq<char>>,
) -> Seq<NamePair>
    decreases bs,
{
    if bs.len() == 0 {
        Seq::empty()
    } else {
        member_uses_expr(bs[0].0, assigned) + member_uses_stmts(bs[0].1, assigned)
            + member_uses_branches(bs.drop_first(), assigned)
    }
}

/// `acc` followed by the elements of `xs` that are new, each once, in first-seen order.
pub open spec fn add_new(acc: Seq<NamePair>, xs: Seq<NamePair>) -> Seq<NamePair>
    decreases xs.len(),
{
    if xs.len() == 0 {
        acc
    } else {
        add_new(if acc.contains(xs[0]) { acc } else { acc.push(xs[0]) }, xs.drop_first())
    }
}

pub proof fn lemma_add_new_concat(acc: Seq<NamePair>, xs: Seq<NamePair>, ys: Seq<NamePair>)
    ensures
        add_new(acc, xs + ys) == add_new(add_new(acc, xs), ys),
    decreases xs.len(),
{
    if xs.len() == 0 {
        assert(xs + ys =~= ys);
    } else {
        assert((xs + ys).drop_first() =~= xs.drop_first() + ys);
        assert((xs + ys)[0] == xs[0]);
        lemma_add_new_concat(
            if acc.contains(xs[0]) { acc } else { acc.push(xs[0]) },
            xs.drop_first(),
            ys,
        );
    }
}

pub proof fn lemma_add_new_single(acc: Seq<NamePair>, x: NamePair)
    ensures
        add_new(acc, seq![x]) == (if acc.contains(x) { acc } else { acc.push(x) }),
{
    assert(seq![x].drop_first() =~= Seq::<NamePair>::empty());
    assert(seq![x][0] == x);
    let next = if acc.contains(x) { acc } else { acc.push(x) };
    assert(add_new(next, Seq::<NamePair>::empty()) == next);
}

/// Adding only repeats of what is there adds nothing; the result never loses elements.
pub proof fn lemma_add_new_distinct(acc: Seq<NamePair>, xs: Seq<NamePair>)
    requires
        acc.no_duplicates(),
    ensures
        add_new(acc, xs).no_duplicates(),
        forall|p: NamePair| add_new(acc, xs).contains(p) <==> (acc.contains(p) || xs.contains(p)),
    decreases xs.len(),
{
    if xs.len() > 0 {
        let next = if acc.contains(xs[0]) { acc } else { acc.push(xs[0]) };
        assert forall|p: NamePair| next.contains(p) <==> (acc.contains(p) || p == xs[0]) by {
            if !acc.contains(xs[0]) && p == xs[0] {
                assert(next[acc.len() as int] == p);
            }
            if acc.contains(p) && !acc.contains(xs[0]) {
                let k = choose|k: int| 0 <= k < acc.len() && acc[k] == p;
                assert(next[k] == p);
            }
            if next.contains(p) && !acc.contains(xs[0]) {
                let k = choose|k: int| 0 <= k < next.len() && next[k] == p;
                if k < acc.len() {
                    assert(acc[k] == p);
                }
            }
        }
        lemma_add_new_distinct(next, xs.drop_first());
        assert forall|p: NamePair| xs.contains(p) <==> (p == xs[0] || xs.drop_first().contains(p)) by {
            if xs.contains(p) && p != xs[0] {
                let k = choose|k: int| 0 <= k < xs.len() && xs[k] == p;
                assert(xs.drop_first()[k - 1] == p);
            }
            if xs.drop_first().contains(p) {
                let k = choose|k: int| 0 <= k < xs.drop_first().len() && xs.drop_first()[k] == p;
                assert(xs[k + 1] == p);
            }
            if p == xs[0] {
                assert(xs[0] == p);
            }
        }
    }
}

pub open spec fn pairs_view(ps: Seq<(String, String)>) -> Seq<NamePair> {
    ps.map_values(|p: (String, String)| (p.0@, p.1@))
}

fn contains_text(names: &Vec<String>, name: &String) -> (r: bool)
    ensures
        r == text_set(names@).contains(name@),
{
    let mut i: usize = 0;
    while i < names.len()
        invariant
            i <= names.len(),
            forall|j: int| 0 <= j < i ==> names@[j]@ != name@,
        decreases names.len() - i,
    {
        if names[i] == *name {
            assert(names@.map_values(|n: String| n@)[i as int] == name@);
            return true;
        }
        i = i + 1;
    }
    proof {
        let ms = names@.map_values(|n: String| n@);
        if text_set(names@).contains(name@) {
            let k = choose|k: int| 0 <= k < ms.len() && #[trigger] ms[k] == name@;
            assert(names@[k]@ == name@);
        }
    }
    false
}

/// Adds the pair unless an equal pair is already there.
fn add_pair(pairs: &mut Vec<(String, String)>, obj: &String, member: &String)
    ensures
        pairs_view(final(pairs)@) == add_new(pairs_view(old(pairs)@), seq![(obj@, member@)]),
{
    proof {
        lemma_add_new_single(pairs_view(pairs@), (obj@, member@));
    }
    let mut i: usize = 0;
    while i < pairs.len()
        invariant
            i <= pairs.len(),
            pairs@ == old(pairs)@,
            forall|j: int| 0 <= j < i ==> pairs_view(pairs@)[j] != (obj@, member@),
        decreases pairs.len() - i,
    {
        if pairs[i].0 == *obj && pairs[i].1 == *member {
            assert(pairs_view(pairs@)[i as int] == (obj@, member@));
            proof {
                lemma_add_new_single(pairs_view(pairs@), (obj@, member@));
            }
            return;
        }
        i = i + 1;
    }
    let ghost before = pairs@;
    pairs.push((obj.clone(), member.clone()));
    proof {
        assert(pairs_view(pairs@) =~= pairs_view(before).push((obj@, member@)));
        lemma_add_new_single(pairs_view(before), (obj@, member@));
    }
}

proof fn lemma_member_uses_exprs_push(es: Seq<ExprV>, x: ExprV, a: Set<Seq<char>>)
    ensures
        member_uses_exprs(es.push(x), a) == member_uses_exprs(es, a) + member_uses_expr(x, a),
    decreases es.len(),
{
    if es.len() == 0 {
        assert(es.push(x).drop_first() =~= Seq::<ExprV>::empty());
        assert(es.push(x)[0] == x);
        assert(member_uses_exprs(Seq::<ExprV>::empty(), a) =~= Seq::<NamePair>::empty());
        assert(member_uses_exprs(es.push(x), a) =~= member_uses_exprs(es, a) + member_uses_expr(x, a));
    } else {
        assert(es.push(x).drop_first() =~= es.drop_first().push(x));
        lemma_member_uses_exprs_push(es.drop_first(), x, a);
        assert(member_uses_exprs(es.push(x), a) =~= member_uses_exprs(es, a) + member_uses_expr(x, a));
    }
}

proof fn lemma_member_uses_stmts_push(ss: Seq<StmtV>, x: StmtV, a: Set<Seq<char>>)
    ensures
        member_uses_stmts(ss.push(x), a) == member_uses_stmts(ss, a) + member_uses_stmt(x, a),
    decreases ss.len(),
{
    if ss.len() == 0 {
        assert(ss.push(x).drop_first() =~= Seq::<StmtV>::empty());
        assert(ss.push(x)[0] == x);
        assert(member_uses_stmts(Seq::<StmtV>::empty(), a) =~= Seq::<NamePair>::empty());
        assert(member_uses_stmts(ss.push(x), a) =~= member_uses_stmts(ss, a) + member_uses_stmt(x, a));
    } else {
        assert(ss.push(x).drop_first() =~= ss.drop_first().push(x));
        lemma_member_uses_stmts_push(ss.drop_first(), x, a);
        assert(member_uses_stmts(ss.push(x), a) =~= member_uses_stmts(ss, a) + member_uses_stmt(x, a));
    }
}

proof fn lemma_member_uses_branches_push(
    bs: Seq<(ExprV, Seq<StmtV>)>,
    x: (ExprV, Seq<StmtV>),
    a: Set<Seq<char>>,
)
    ensures
        member_uses_branches(bs.push(x), a) == member_uses_branches(bs, a) + (member_uses_expr(x.0, a)
            + member_uses_stmts(x.1, a)),
    decreases bs.len(),
{
    if bs.len() == 0 {
        assert(bs.push(x).drop_first() =~= Seq::<(ExprV, Seq<StmtV>)>::empty());
        assert(bs.push(x)[0] == x);
        assert(member_uses_branches(Seq::<(ExprV, Seq<StmtV>)>::empty(), a) =~= Seq::<NamePair>::empty());
        assert(member_uses_branches(bs.push(x), a) =~= member_uses_branches(bs, a) + (
        member_uses_expr(x.0, a) + member_uses_stmts(x.1, a)));
    } else {
        assert(bs.push(x).drop_first() =~= bs.drop_first().push(x));
        lemma_member_uses_branches_push(bs.drop_first(), x, a);
        assert(member_uses_branches(bs.push(x), a) =~= member_uses_branches(bs, a) + (
        member_uses_expr(x.0, a) + member_uses_stmts(x.1, a)));
    }
}

proof fn lemma_member_uses_fields_push(fs: Seq<(Seq<char>, ExprV)>, x: (Seq<char>, ExprV), a: Set<Seq<char>>)
    ensures
        member_uses_fields(fs.push(x), a) == member_uses_fields(fs, a) + member_uses_expr(x.1, a),
    decreases fs.len(),
{
    if fs.len() == 0 {
        assert(fs.push(x).drop_first() =~= Seq::<(Seq<char>, ExprV)>::empty());
        assert(fs.push(x)[0] == x);
        assert(member_uses_fields(Seq::<(Seq<char>, ExprV)>::empty(), a) =~= Seq::<NamePair>::empty());
        assert(member_uses_fields(fs.push(x), a) =~= member_uses_fields(fs, a) + member_uses_expr(x.1, a));
    } else {
        assert(fs.push(x).drop_first() =~= fs.drop_first().push(x));
        lemma_member_uses_fields_push(fs.drop_first(), x, a);
        assert(member_uses_fields(fs.push(x), a) =~= member_uses_fields(fs, a) + member_uses_expr(x.1, a));
    }
}

fn collect_member_pairs_fields(
    fs: &Vec<(String, Expression)>,
    assigned: &Vec<String>,
    pairs: &mut Vec<(String, String)>,
)
    ensures
        pairs_view(final(pairs)@) == add_new(
            pairs_view(old(pairs)@),
            member_uses_fields(crate::ast::fields_view(fs@), text_set(assigned@)),
        ),
    decreases fs, 0nat,
{
    let ghost a = text_set(assigned@);
    let ghost start = pairs_view(pairs@);
    proof {
        crate::ast::lemma_fields_view_index(fs@);
        assert(crate::ast::fields_view(fs@).take(0) =~= Seq::<(Seq<char>, ExprV)>::empty());
        assert(add_new(start, member_uses_fields(Seq::<(Seq<char>, ExprV)>::empty(), a)) == start);
    }
    let mut i: usize = 0;
    while i < fs.len()
        invariant
            i <= fs.len(),
            a == text_set(assigned@),
            crate::ast::fields_view(fs@).len() == fs@.len(),
            forall|j: int| 0 <= j < fs@.len() ==> #[trigger] crate::ast::fields_view(fs@)[j] == (fs@[j].0@, expr_view(fs@[j].1)),
            pairs_view(pairs@) == add_new(start, member_uses_fields(crate::ast::fields_view(fs@).take(i as int), a)),
        decreases fs.len() - i,
    {
        proof {
            assert(decreases_to!(*fs => fs@[i as int]));
            assert(decreases_to!(fs@[i as int] => fs@[i as int].1));
        }
        collect_member_pairs_expr(&fs[i].1, assigned, pairs);
        proof {
            let v = crate::ast::fields_view(fs@);
            assert(v.take(i + 1) =~= v.take(i as int).push(v[i as int]));
            lemma_member_uses_fields_push(v.take(i as int), v[i as int], a);
            lemma_add_new_concat(
                start,
                member_uses_fields(v.take(i as int), a),
                member_uses_expr(v[i as int].1, a),
            );
        }
        i = i + 1;
    }
    proof {
        assert(crate::ast::fields_view(fs@).take(fs.len() as int) =~= crate::ast::fields_view(fs@));
    }
}

fn collect_member_pairs_exprs(
    es: &Vec<Expression>,
    assigned: &Vec<String>,
    pairs: &mut Vec<(String, String)>,
)
    ensures
        pairs_view(final(pairs)@) == add_new(
            pairs_view(old(pairs)@),
            member_uses_exprs(exprs_view(es@), text_set(assigned@)),
        ),
    decreases es, 0nat,
{
    let ghost a = text_set(assigned@);
    let ghost start = pairs_view(pairs@);
    proof {
        lemma_exprs_view_index(es@);
        assert(exprs_view(es@).take(0) =~= Seq::<ExprV>::empty());
        assert(add_new(start, member_uses_exprs(Seq::<ExprV>::empty(), a)) == start);
    }
    let mut i: usize = 0;
    while i < es.len()
        invariant
            i <= es.len(),
            a == text_set(assigned@),
            exprs_view(es@).len() == es@.len(),
            forall|j: int| 0 <= j < es@.len() ==> #[trigger] exprs_view(es@)[j] == expr_view(es@[j]),
            pairs_view(pairs@) == add_new(start, member_uses_exprs(exprs_view(es@).take(i as int), a)),
        decreases es.len() - i,
    {
        collect_member_pairs_expr(&es[i], assigned, pairs);
        proof {
            let v = exprs_view(es@);
            assert(v.take(i + 1) =~= v.take(i as int).push(v[i as int]));
            lemma_member_uses_exprs_push(v.take(i as int), v[i as int], a);
            lemma_add_new_concat(
                start,
                member_uses_exprs(v.take(i as int), a),
                member_uses_expr(v[i as int], a),
            );
        }
        i = i + 1;
    }
    proof {
        assert(exprs_view(es@).take(es.len() as int) =~= exprs_view(es@));
    }
}

fn collect_member_pairs_expr(
    expr: &Expression,
    assigned: &Vec<String>,
    pairs: &mut Vec<(String, String)>,
)
    ensures
        pairs_view(final(pairs)@) == add_new(
            pairs_view(old(pairs)@),
            member_uses_expr(expr@, text_set(assigned@)),
        ),
    decreases expr, 1nat,
{
    let ghost a = text_set(assigned@);
    let ghost start = pairs_view(pairs@);
    proof {
        reveal_with_fuel(crate::ast::expr_view, 2);
    }
    match expr {
        Expression::MemberAccess { object, member } => {
            let ghost first = match expr_view(**object) {
                ExprV::Identifier(o) => if a.contains(o) {
                    Seq::<NamePair>::empty()
                } else {
                    seq![(o, member@)]
                },
                _ => Seq::<NamePair>::empty(),
            };
            match &**object {
                Expression::Identifier(obj) => {
                    if !contains_text(assigned, obj) {
                        add_pair(pairs, obj, member);
                    }
                },
                _ => {},
            }
            assert(pairs_view(pairs@) == add_new(start, first));
            collect_member_pairs_expr(object, assigned, pairs);
            proof {
                lemma_add_new_concat(start, first, member_uses_expr(expr_view(**object), a));
            }
        },
        Expression::BinaryOp { left, right, .. } => {
            collect_member_pairs_expr(left, assigned, pairs);
            collect_member_pairs_expr(right, assigned, pairs);
            proof {
                lemma_add_new_concat(
                    start,
                    member_uses_expr(expr_view(**left), a),
                    member_uses_expr(expr_view(**right), a),
                );
            }
        },
        Expression::UnaryOp { expr: inner, .. } => {
            collect_member_pairs_expr(inner, assigned, pairs);
        },
        Expression::Index { object, index } => {
            collect_member_pairs_expr(object, assigned, pairs);
            collect_member_pairs_expr(index, assigned, pairs);
            proof {
                lemma_add_new_concat(
                    start,
                    member_uses_expr(expr_view(**object), a),
                    member_uses_expr(expr_view(**index), a),
                );
            }
        },
        Expression::FunctionCall { args, .. } => {
            collect_member_pairs_exprs(args, assigned, pairs);
        },
        Expression::Call { callee, args } => {
            collect_member_pairs_expr(callee, assigned, pairs);
            collect_member_pairs_exprs(args, assigned, pairs);
            proof {
                lemma_add_new_concat(
                    start,
                    member_uses_expr(expr_view(**callee), a),
                    member_uses_exprs(exprs_view(args@), a),
                );
            }
        },
        Expression::FunctionExpr { body, .. } => {
            collect_member_pairs_block(body, assigned, pairs);
        },
        Expression::Input { prompt, .. } => {
            collect_member_pairs_expr(prompt, assigned, pairs);
        },
        Expression::Literal(Literal::Array { elements, .. }) => {
            collect_member_pairs_exprs(elements, assigned, pairs);
        },
        Expression::Literal(Literal::Object { fields }) => {
            collect_member_pairs_fields(fields, assigned, pairs);
        },
        _ => {
            assert(member_uses_expr(expr@, a) =~= Seq::<NamePair>::empty());
        },
    }
}


fn collect_member_pairs_block(
    block: &Vec<Statement>,
    assigned: &Vec<String>,
    pairs: &mut Vec<(String, String)>,
)
    ensures
        pairs_view(final(pairs)@) == add_new(
            pairs_view(old(pairs)@),
            member_uses_stmts(stmts_view(block@), text_set(assigned@)),
        ),
    decreases block, 0nat,
{
    let ghost a = text_set(assigned@);
    let ghost start = pairs_view(pairs@);
    proof {
        lemma_stmts_view_index(block@);
        assert(stmts_view(block@).take(0) =~= Seq::<StmtV>::empty());
        assert(add_new(start, member_uses_stmts(Seq::<StmtV>::empty(), a)) == start);
    }
    let mut i: usize = 0;
    while i < block.len()
        invariant
            i <= block.len(),
            a == text_set(assigned@),
            stmts_view(block@).len() == block@.len(),
            forall|j: int| 0 <= j < block@.len() ==> #[trigger] stmts_view(block@)[j] == stmt_view(block@[j]),
            pairs_view(pairs@) == add_new(start, member_uses_stmts(stmts_view(block@).take(i as int), a)),
        decreases block.len() - i,
    {
        collect_member_pairs_stmt(&block[i], assigned, pairs);
        proof {
            let v = stmts_view(block@);
            assert(v.take(i + 1) =~= v.take(i as int).push(v[i as int]));
            lemma_member_uses_stmts_push(v.take(i as int), v[i as int], a);
            lemma_add_new_concat(
                start,
                member_uses_stmts(v.take(i as int), a),
                member_uses_stmt(v[i as int], a),
            );
        }
        i = i + 1;
    }
    proof {
        assert(stmts_view(block@).take(block.len() as int) =~= stmts_view(block@));
    }
}

fn collect_member_pairs_stmt(
    stmt: &Statement,
    assigned: &Vec<String>,
    pairs: &mut Vec<(String, String)>,
)
    ensures
        pairs_view(final(pairs)@) == add_new(
            pairs_view(old(pairs)@),
            member_uses_stmt(stmt@, text_set(assigned@)),
        ),
    decreases stmt, 1nat,
{
    let ghost a = text_set(assigned@);
    let ghost start = pairs_view(pairs@);
    match stmt {
        Statement::Assignment { value, .. } => {
            collect_member_pairs_expr(value, assigned, pairs);
        },
        Statement::Print(value) => {
            collect_member_pairs_expr(value, assigned, pairs);
        },
        Statement::Return(Some(value)) => {
            collect_member_pairs_expr(value, assigned, pairs);
        },
        Statement::Expression(value) => {
            collect_member_pairs_expr(value, assigned, pairs);
        },
        Statement::If { branches, else_branch } => {
            proof {
                lemma_branches_view_index(branches@);
                assert(branches_view(branches@).take(0) =~= Seq::<(ExprV, Seq<StmtV>)>::empty());
                assert(add_new(start, member_uses_branches(Seq::<(ExprV, Seq<StmtV>)>::empty(), a))
                    == start);
                assert(decreases_to!(*stmt => *branches));
            }
            let mut i: usize = 0;
            while i < branches.len()
                invariant
                    i <= branches.len(),
                    a == text_set(assigned@),
                    decreases_to!(*stmt => *branches),
                    branches_view(branches@).len() == branches@.len(),
                    forall|j: int|
                        0 <= j < branches@.len() ==> #[trigger] branches_view(branches@)[j] == (
                            expr_view(branches@[j].0),
                            stmts_view(branches@[j].1@),
                        ),
                    pairs_view(pairs@) == add_new(
                        start,
                        member_uses_branches(branches_view(branches@).take(i as int), a),
                    ),
                decreases branches.len() - i,
            {
                let ghost before = pairs_view(pairs@);
                proof {
                    assert(decreases_to!(*branches => branches@[i as int]));
                    assert(decreases_to!(branches@[i as int] => branches@[i as int].0));
                    assert(decreases_to!(branches@[i as int] => branches@[i as int].1));
                }
                collect_member_pairs_expr(&branches[i].0, assigned, pairs);
                collect_member_pairs_block(&branches[i].1, assigned, pairs);
                proof {
                    let v = branches_view(branches@);
                    assert(v.take(i + 1) =~= v.take(i as int).push(v[i as int]));
                    lemma_member_uses_branches_push(v.take(i as int), v[i as int], a);
                    lemma_add_new_concat(
                        before,
                        member_uses_expr(v[i as int].0, a),
                        member_uses_stmts(v[i as int].1, a),
                    );
                    lemma_add_new_concat(
                        start,
                        member_uses_branches(v.take(i as int), a),
                        member_uses_expr(v[i as int].0, a) + member_uses_stmts(v[i as int].1, a),
                    );
                }
                i = i + 1;
            }
            proof {
                assert(branches_view(branches@).take(branches.len() as int) =~= branches_view(
                    branches@,
                ));
            }
            let ghost mid = pairs_view(pairs@);
            match else_branch {
                Some(block) => {
                    collect_member_pairs_block(block, assigned, pairs);
                    proof {
                        lemma_add_new_concat(
                            start,
                            member_uses_branches(branches_view(branches@), a),
                            member_uses_stmts(stmts_view(block@), a),
                        );
                    }
                },
                None => {
                    assert(member_uses_branches(branches_view(branches@), a) + Seq::<NamePair>::empty()
                        =~= member_uses_branches(branches_view(branches@), a));
                },
            }
        },
        Statement::While { condition, body } => {
            collect_member_pairs_expr(condition, assigned, pairs);
            collect_member_pairs_block(body, assigned, pairs);
            proof {
                lemma_add_new_concat(
                    start,
                    member_uses_expr(expr_view(*condition), a),
                    member_uses_stmts(stmts_view(body@), a),
                );
            }
        },
        Statement::ForIn { iterable, body, .. } => {
            collect_member_pairs_expr(iterable, assigned, pairs);
            collect_member_pairs_block(body, assigned, pairs);
            proof {
                lemma_add_new_concat(
                    start,
                    member_uses_expr(expr_view(**iterable), a),
                    member_uses_stmts(stmts_view(body@), a),
                );
            }
        },
        Statement::IndexAssign { object, index, value } => {
            collect_member_pairs_expr(object, assigned, pairs);
            let ghost mid = pairs_view(pairs@);
            collect_member_pairs_expr(index, assigned, pairs);
            collect_member_pairs_expr(value, assigned, pairs);
            proof {
                lemma_add_new_concat(
                    mid,
                    member_uses_expr(expr_view(**index), a),
                    member_uses_expr(expr_view(**value), a),
                );
                lemma_add_new_concat(
                    start,
                    member_uses_expr(expr_view(**object), a),
                    member_uses_expr(expr_view(**index), a) + member_uses_expr(expr_view(**value), a),
                );
                assert(member_uses_expr(expr_view(**object), a) + member_uses_expr(expr_view(**index), a)
                    + member_uses_expr(expr_view(**value), a) =~= member_uses_expr(expr_view(**object), a)
                    + (member_uses_expr(expr_view(**index), a) + member_uses_expr(expr_view(**value), a)));
            }
        },
        Statement::PropertyAssign { target, value } => {
            let ghost first = match expr_view(**target) {
                ExprV::MemberAccess { object, .. } => member_uses_expr(*object, a),
                _ => member_uses_expr(expr_view(**target), a),
            };
            match &**target {
                Expression::MemberAccess { object, .. } => {
                    collect_member_pairs_expr(object, assigned, pairs);
                },
                _ => {
                    collect_member_pairs_expr(target, assigned, pairs);
                },
            }
            assert(pairs_view(pairs@) == add_new(start, first));
            collect_member_pairs_expr(value, assigned, pairs);
            proof {
                lemma_add_new_concat(start, first, member_uses_expr(expr_view(**value), a));
            }
        },
        Statement::FunctionDef { body, .. } => {
            collect_member_pairs_block(body, assigned, pairs);
        },
        _ => {
            assert(member_uses_stmt(stmt@, a) =~= Seq::<NamePair>::empty());
        },
    }
}

/// `(object, member)` pairs read as `object.member` under `body`, where `object` is an
/// identifier that `body` never assigns; each pair once, in the order first read.
pub fn hoistable_member_pairs(body: &Vec<Statement>) -> (pairs: Vec<(String, String)>)
    ensures
        pairs_view(pairs@) == add_new(
            Seq::empty(),
            member_uses_stmts(stmts_view(body@), assigned_list(stmts_view(body@))),
        ),
        pairs_view(pairs@).no_duplicates(),
{
    let assigned = assigned_in_body(body);
    let mut pairs: Vec<(String, String)> = Vec::new();
    assert(pairs_view(pairs@) =~= Seq::<NamePair>::empty());
    collect_member_pairs_block(body, &assigned, &mut pairs);
    proof {
        lemma_add_new_distinct(
            Seq::empty(),
            member_uses_stmts(stmts_view(body@), assigned_list(stmts_view(body@))),
        );
    }
    pairs
}


// ---------------------------------------------------------------------------
// Constant folding.
// ---------------------------------------------------------------------------

/// A number when it fits an `i64`.
pub open spec fn in_i64(n: int) -> Option<ValueV> {
    if i64::MIN <= n <= i64::MAX {
        Some(ValueV::Number(n as i64))
    } else {
        None
    }
}

/// The value of `l op r` for two literal operands, when it can be computed at compile
/// time. An integer result that overflows, and division by zero, are left to run time, where
/// the machine reports them.
pub open spec fn fold_spec(left: ExprV, op: BinaryOperator, right: ExprV) -> Option<ValueV> {
    match (left, right) {
        (ExprV::Literal(LitV::Number(l)), ExprV::Literal(LitV::Number(r))) => match op {
            BinaryOperator::Add => in_i64(l + r),
            BinaryOperator::Subtract => in_i64(l - r),
            BinaryOperator::Multiply => in_i64(l * r),
            BinaryOperator::Divide => match l.checked_div(r) {
                Some(q) => Some(ValueV::Number(q)),
                None => None,
            },
            BinaryOperator::Equals => Some(ValueV::Boolean(l == r)),
            BinaryOperator::NotEquals => Some(ValueV::Boolean(l != r)),
            BinaryOperator::GreaterThan => Some(ValueV::Boolean(l > r)),
            BinaryOperator::LessThan => Some(ValueV::Boolean(l < r)),
            BinaryOperator::GreaterOrEqual => Some(ValueV::Boolean(l >= r)),
            BinaryOperator::LessOrEqual => Some(ValueV::Boolean(l <= r)),
            BinaryOperator::And | BinaryOperator::Or => None,
        },
        (ExprV::Literal(LitV::Boolean(l)), ExprV::Literal(LitV::Boolean(r))) => match op {
            BinaryOperator::And => Some(ValueV::Boolean(l && r)),
            BinaryOperator::Or => Some(ValueV::Boolean(l || r)),
            _ => None,
        },
        (ExprV::Literal(LitV::Str(l)), ExprV::Literal(LitV::Str(r))) => match op {
            BinaryOperator::Add => Some(ValueV::Str(l + r)),
            _ => None,
        },
        _ => None,
    }
}

/// Folds a binary operation on two literals into its value, or `None` when it cannot.
pub fn fold_binary_literal(left: &Expression, op: BinaryOperator, right: &Expression) -> (r: Option<
    Value,
>)
    ensures
        match (r, fold_spec(left@, op, right@)) {
            (Some(v), Some(sv)) => v@ == sv,
            (None, None) => true,
            _ => false,
        },
{
    proof {
        reveal_with_fuel(crate::ast::expr_view, 2);
        reveal_with_fuel(crate::value::value_view, 2);
    }
    match (left, right) {
        (Expression::Literal(Literal::Number(l)), Expression::Literal(Literal::Number(r))) => {
            let (l, r) = (*l, *r);
            match op {
                BinaryOperator::Add => match l.checked_add(r) {
                    Some(n) => Some(Value::Number(n)),
                    None => None,
                },
                BinaryOperator::Subtract => match l.checked_sub(r) {
                    Some(n) => Some(Value::Number(n)),
                    None => None,
                },
                BinaryOperator::Multiply => match l.checked_mul(r) {
                    Some(n) => Some(Value::Number(n)),
                    None => None,
                },
                BinaryOperator::Divide => {
                    if r == 0 {
                        return None;
                    }
                    match l.checked_div(r) {
                        Some(q) => Some(Value::Number(q)),
                        None => None,
                    }
                },
                BinaryOperator::Equals => Some(Value::Boolean(l == r)),
                BinaryOperator::NotEquals => Some(Value::Boolean(l != r)),
                BinaryOperator::GreaterThan => Some(Value::Boolean(l > r)),
                BinaryOperator::LessThan => Some(Value::Boolean(l < r)),
                BinaryOperator::GreaterOrEqual => Some(Value::Boolean(l >= r)),
                BinaryOperator::LessOrEqual => Some(Value::Boolean(l <= r)),
                BinaryOperator::And | BinaryOperator::Or => None,
            }
        },
        (Expression::Literal(Literal::Boolean(l)), Expression::Literal(Literal::Boolean(r))) => {
            match op {
                BinaryOperator::And => Some(Value::Boolean(*l && *r)),
                BinaryOperator::Or => Some(Value::Boolean(*l || *r)),
                _ => None,
            }
        },
        (Expression::Literal(Literal::String(l)), Expression::Literal(Literal::String(r))) => {
            match op {
                BinaryOperator::Add => {
                    let mut s = l.clone();
                    s.append(r.as_str());
                    Some(Value::String(s))
                },
                _ => None,
            }
        },
        _ => None,
    }
}

// ---------------------------------------------------------------------------
// Names of hoisted globals.
// ---------------------------------------------------------------------------

/// The global that holds the `index`-th hoisted member read: `__hoist_<index>_<member>`.
pub open spec fn hoist_name(index: nat, member: Seq<char>) -> Seq<char> {
    "__hoist_"@ + nat_text(index) + "_"@ + member
}

/// Each pair maps to the name built from its position; a later repeat of a pair wins.
pub open spec fn hoist_map(ps: Seq<NamePair>) -> Map<NamePair, Seq<char>>
    decreases ps.len(),
{
    if ps.len() == 0 {
        Map::empty()
    } else {
        hoist_map(ps.drop_last()).insert(ps.last(), hoist_name((ps.len() - 1) as nat, ps.last().1))
    }
}

pub type HoistEntry = ((String, String), String);

pub open spec fn entry_key(e: HoistEntry) -> NamePair {
    (e.0.0@, e.0.1@)
}

/// An association list read as a map; each key occurs once.
pub open spec fn entries_map(es: Seq<HoistEntry>) -> Map<NamePair, Seq<char>>
    decreases es.len(),
{
    if es.len() == 0 {
        Map::empty()
    } else {
        entries_map(es.drop_last()).insert(entry_key(es.last()), es.last().1@)
    }
}

pub open spec fn keys_distinct(es: Seq<HoistEntry>) -> bool {
    forall|i: int, j: int| 0 <= i < j < es.len() ==> entry_key(es[i]) != entry_key(es[j])
}

proof fn lemma_entries_map_update(es: Seq<HoistEntry>, k: int, e: HoistEntry)
    requires
        keys_distinct(es),
        0 <= k < es.len(),
        entry_key(es[k]) == entry_key(e),
    ensures
        keys_distinct(es.update(k, e)),
        entries_map(es.update(k, e)) == entries_map(es).insert(entry_key(e), e.1@),
    decreases es.len(),
{
    let u = es.update(k, e);
    assert forall|i: int, j: int| 0 <= i < j < u.len() implies entry_key(u[i]) != entry_key(u[j]) by {
        assert(entry_key(u[i]) == entry_key(es[i]));
        assert(entry_key(u[j]) == entry_key(es[j]));
    }
    if k == es.len() - 1 {
        assert(u.drop_last() =~= es.drop_last());
        assert(entries_map(u) =~= entries_map(es).insert(entry_key(e), e.1@));
    } else {
        assert(u.drop_last() =~= es.drop_last().update(k, e));
        lemma_entries_map_update(es.drop_last(), k, e);
        assert(entry_key(es.last()) != entry_key(e));
        assert(entries_map(u) =~= entries_map(es).insert(entry_key(e), e.1@));
    }
}

fn find_entry(es: &Vec<HoistEntry>, key: &(String, String)) -> (r: Option<usize>)
    ensures
        match r {
            Some(k) => k < es@.len() && entry_key(es@[k as int]) == (key.0@, key.1@),
            None => forall|j: int| 0 <= j < es@.len() ==> entry_key(es@[j]) != (key.0@, key.1@),
        },
{
    let mut k: usize = 0;
    while k < es.len()
        invariant
            k <= es.len(),
            forall|j: int| 0 <= j < k ==> entry_key(es@[j]) != (key.0@, key.1@),
        decreases es.len() - k,
    {
        if es[k].0.0 == key.0 && es[k].0.1 == key.1 {
            return Some(k);
        }
        k = k + 1;
    }
    None
}

fn hoist_name_for(index: usize, member: &String) -> (r: String)
    ensures
        r@ == hoist_name(index as nat, member@),
{
    let mut s = "__hoist_".to_owned();
    push_nat(&mut s, index as u64);
    s.append("_");
    s.append(member.as_str());
    s
}

/// Maps each `(object, member)` pair to the global that holds its hoisted value.
pub fn hoist_global_names(pairs: &Vec<(String, String)>) -> (names: Vec<HoistEntry>)
    ensures
        keys_distinct(names@),
        entries_map(names@) == hoist_map(pairs_view(pairs@)),
{
    let mut out: Vec<HoistEntry> = Vec::new();
    let mut i: usize = 0;
    assert(pairs_view(pairs@).take(0) =~= Seq::<NamePair>::empty());
    while i < pairs.len()
        invariant
            i <= pairs.len(),
            keys_distinct(out@),
            entries_map(out@) == hoist_map(pairs_view(pairs@).take(i as int)),
        decreases pairs.len() - i,
    {
        let name = hoist_name_for(i, &pairs[i].1);
        let entry = ((pairs[i].0.clone(), pairs[i].1.clone()), name);
        let ghost key = entry_key(entry);
        let found_at = find_entry(&out, &entry.0);
        let ghost before = out@;
        proof {
            let ps = pairs_view(pairs@);
            assert(ps.take(i + 1).drop_last() =~= ps.take(i as int));
            assert(ps.take(i + 1).last() == key);
        }
        if let Some(k) = found_at {
            proof {
                lemma_entries_map_update(before, k as int, entry);
            }
            out.set(k, entry);
        } else {
            out.push(entry);
            proof {
                assert(out@.drop_last() =~= before);
                assert forall|a: int, b: int| 0 <= a < b < out@.len() implies entry_key(out@[a])
                    != entry_key(out@[b]) by {
                    if b == out@.len() - 1 {
                        assert(entry_key(out@[a]) == entry_key(before[a]));
                        assert(entry_key(out@[b]) == key);
                    } else {
                        assert(out@[a] == before[a] && out@[b] == before[b]);
                    }
                }
            }
        }
        i = i + 1;
    }
    assert(pairs_view(pairs@).take(pairs.len() as int) =~= pairs_view(pairs@));
    out
}

} // verus!
