//! Abstract syntax tree of Kria programs, and its mathematical view.
use vstd::prelude::*;

verus! {

#[derive(Debug)]
pub enum Statement {
    Assignment { name: String, value: Expression },
    Print(Expression),
    If { branches: Vec<(Expression, Vec<Statement>)>, else_branch: Option<Vec<Statement>> },
    While { condition: Expression, body: Vec<Statement> },
    FunctionDef { name: String, params: Vec<String>, body: Vec<Statement>, exported: bool },
    Return(Option<Expression>),
    IndexAssign { object: Box<Expression>, index: Box<Expression>, value: Box<Expression> },
    PropertyAssign { target: Box<Expression>, value: Box<Expression> },
    ForIn {
        key_name: String,
        value_name: Option<String>,
        iterable: Box<Expression>,
        body: Vec<Statement>,
    },
    Break,
    Continue,
    Expression(Expression),
    Import { alias: String, path: String },
}

#[derive(Debug)]
pub enum Expression {
    Literal(Literal),
    Identifier(String),
    UnaryOp { op: UnaryOperator, expr: Box<Expression> },
    BinaryOp { left: Box<Expression>, op: BinaryOperator, right: Box<Expression> },
    FunctionCall { name: String, args: Vec<Expression> },
    FunctionExpr { params: Vec<String>, body: Vec<Statement> },
    Input { types: Vec<InputType>, prompt: Box<Expression> },
    Index { object: Box<Expression>, index: Box<Expression> },
    MemberAccess { object: Box<Expression>, member: String },
    Call { callee: Box<Expression>, args: Vec<Expression> },
}

#[derive(Debug, Clone, Copy, PartialEq, Eq, Structural)]
pub enum InputType {
    String,
    Int,
    Float,
}

#[derive(Debug, Clone, Copy, PartialEq, Eq, Structural)]
pub enum UnaryOperator {
    Not,
}

#[derive(Debug)]
pub enum Literal {
    Number(i64),
    String(String),
    Boolean(bool),
    Null,
    Array { elements: Vec<Expression>, mutable: bool },
    Object { fields: Vec<(String, Expression)> },
}

#[derive(Debug, Clone, Copy, PartialEq, Eq, Structural)]
pub enum BinaryOperator {
    Add,
    Subtract,
    Multiply,
    Divide,
    Equals,
    NotEquals,
    GreaterThan,
    LessThan,
    GreaterOrEqual,
    LessOrEqual,
    And,
    Or,
}

// ---------------------------------------------------------------------------
// Mathematical view: names are character sequences, lists are sequences.
// ---------------------------------------------------------------------------

pub enum StmtV {
    Assignment { name: Seq<char>, value: ExprV },
    Print(ExprV),
    If { branches: Seq<(ExprV, Seq<StmtV>)>, else_branch: Option<Seq<StmtV>> },
    While { condition: ExprV, body: Seq<StmtV> },
    FunctionDef { name: Seq<char>, params: Seq<Seq<char>>, body: Seq<StmtV>, exported: bool },
    Return(Option<ExprV>),
    IndexAssign { object: ExprV, index: ExprV, value: ExprV },
    PropertyAssign { target: ExprV, value: ExprV },
    ForIn {
        key_name: Seq<char>,
        value_name: Option<Seq<char>>,
        iterable: ExprV,
        body: Seq<StmtV>,
    },
    Break,
    Continue,
    Expression(ExprV),
    Import { alias: Seq<char>, path: Seq<char> },
}

pub enum ExprV {
    Literal(LitV),
    Identifier(Seq<char>),
    UnaryOp { op: UnaryOperator, expr: Box<ExprV> },
    BinaryOp { left: Box<ExprV>, op: BinaryOperator, right: Box<ExprV> },
    FunctionCall { name: Seq<char>, args: Seq<ExprV> },
    FunctionExpr { params: Seq<Seq<char>>, body: Seq<StmtV> },
    Input { types: Seq<InputType>, prompt: Box<ExprV> },
    Index { object: Box<ExprV>, index: Box<ExprV> },
    MemberAccess { object: Box<ExprV>, member: Seq<char> },
    Call { callee: Box<ExprV>, args: Seq<ExprV> },
}

pub enum LitV {
    Number(i64),
    Str(Seq<char>),
    Boolean(bool),
    Null,
    Array { elements: Seq<ExprV>, mutable: bool },
    Object { fields: Seq<(Seq<char>, ExprV)> },
}

pub open spec fn names_view(ns: Seq<String>) -> Seq<Seq<char>> {
    ns.map_values(|n: String| n@)
}

pub open spec fn expr_view(e: Expression) -> ExprV
    decreases e,
{
    match e {
        Expression::Literal(l) => ExprV::Literal(lit_view(l)),
        Expression::Identifier(n) => ExprV::Identifier(n@),
        Expression::UnaryOp { op, expr } => ExprV::UnaryOp { op, expr: Box::new(expr_view(*expr)) },
        Expression::BinaryOp { left, op, right } => ExprV::BinaryOp {
            left: Box::new(expr_view(*left)),
            op,
            right: Box::new(expr_view(*right)),
        },
        Expression::FunctionCall { name, args } => ExprV::FunctionCall {
            name: name@,
            args: exprs_view(args@),
        },
        Expression::FunctionExpr { params, body } => ExprV::FunctionExpr {
            params: names_view(params@),
            body: stmts_view(body@),
        },
        Expression::Input { types, prompt } => ExprV::Input {
            types: types@,
            prompt: Box::new(expr_view(*prompt)),
        },
        Expression::Index { object, index } => ExprV::Index {
            object: Box::new(expr_view(*object)),
            index: Box::new(expr_view(*index)),
        },
        Expression::MemberAccess { object, member } => ExprV::MemberAccess {
            object: Box::new(expr_view(*object)),
            member: member@,
        },
        Expression::Call { callee, args } => ExprV::Call {
            callee: Box::new(expr_view(*callee)),
            args: exprs_view(args@),
        },
    }
}

pub open spec fn lit_view(l: Literal) -> LitV
    decreases l,
{
    match l {
        Literal::Number(n) => LitV::Number(n),
        Literal::String(s) => LitV::Str(s@),
        Literal::Boolean(b) => LitV::Boolean(b),
        Literal::Null => LitV::Null,
        Literal::Array { elements, mutable } => LitV::Array {
            elements: exprs_view(elements@),
            mutable,
        },
        Literal::Object { fields } => LitV::Object { fields: fields_view(fields@) },
    }
}

pub open spec fn exprs_view(es: Seq<Expression>) -> Seq<ExprV>
    decreases es,
{
    if es.len() == 0 {
        Seq::empty()
    } else {
        seq![expr_view(es[0])] + exprs_view(es.drop_first())
    }
}

pub open spec fn fields_view(fs: Seq<(String, Expression)>) -> Seq<(Seq<char>, ExprV)>
    decreases fs,
{
    if fs.len() == 0 {
        Seq::empty()
    } else {
        seq![(fs[0].0@, expr_view(fs[0].1))] + fields_view(fs.drop_first())
    }
}

pub open spec fn stmt_view(s: Statement) -> StmtV
    decreases s,
{
    match s {
        Statement::Assignment { name, value } => StmtV::Assignment {
            name: name@,
            value: expr_view(value),
        },
        Statement::Print(e) => StmtV::Print(expr_view(e)),
        Statement::If { branches, else_branch } => StmtV::If {
            branches: branches_view(branches@),
            else_branch: match else_branch {
                Some(b) => Some(stmts_view(b@)),
                None => None,
            },
        },
        Statement::While { condition, body } => StmtV::While {
            condition: expr_view(condition),
            body: stmts_view(body@),
        },
        Statement::FunctionDef { name, params, body, exported } => StmtV::FunctionDef {
            name: name@,
            params: names_view(params@),
            body: stmts_view(body@),
            exported,
        },
        Statement::Return(e) => StmtV::Return(
            match e {
                Some(x) => Some(expr_view(x)),
                None => None,
            },
        ),
        Statement::IndexAssign { object, index, value } => StmtV::IndexAssign {
            object: expr_view(*object),
            index: expr_view(*index),
            value: expr_view(*value),
        },
        Statement::PropertyAssign { target, value } => StmtV::PropertyAssign {
            target: expr_view(*target),
            value: expr_view(*value),
        },
        Statement::ForIn { key_name, value_name, iterable, body } => StmtV::ForIn {
            key_name: key_name@,
            value_name: match value_name {
                Some(v) => Some(v@),
                None => None,
            },
            iterable: expr_view(*iterable),
            body: stmts_view(body@),
        },
        Statement::Break => StmtV::Break,
        Statement::Continue => StmtV::Continue,
        Statement::Expression(e) => StmtV::Expression(expr_view(e)),
        Statement::Import { alias, path } => StmtV::Import { alias: alias@, path: path@ },
    }
}

pub open spec fn stmts_view(ss: Seq<Statement>) -> Seq<StmtV>
    decreases ss,
{
    if ss.len() == 0 {
        Seq::empty()
    } else {
        seq![stmt_view(ss[0])] + stmts_view(ss.drop_first())
    }
}

pub open spec fn branches_view(bs: Seq<(Expression, Vec<Statement>)>) -> Seq<(ExprV, Seq<StmtV>)>
    decreases bs,
{
    if bs.len() == 0 {
        Seq::empty()
    } else {
        seq![(expr_view(bs[0].0), stmts_view(bs[0].1@))] + branches_view(bs.drop_first())
    }
}

impl View for Expression {
    type V = ExprV;

    open spec fn view(&self) -> ExprV {
        expr_view(*self)
    }
}

impl View for Statement {
    type V = StmtV;

    open spec fn view(&self) -> StmtV {
        stmt_view(*self)
    }
}

impl View for Literal {
    type V = LitV;

    open spec fn view(&self) -> LitV {
        lit_view(*self)
    }
}


// ---------------------------------------------------------------------------
// Facts about the views of lists.
// ---------------------------------------------------------------------------

pub proof fn lemma_stmts_view_push(ss: Seq<Statement>, x: Statement)
    ensures
        stmts_view(ss.push(x)) == stmts_view(ss).push(stmt_view(x)),
    decreases ss.len(),
{
    if ss.len() == 0 {
        assert(ss.push(x).drop_first() =~= Seq::<Statement>::empty());
        assert(ss.push(x)[0] == x);
        assert(stmts_view(Seq::<Statement>::empty()) =~= Seq::<StmtV>::empty());
        assert(stmts_view(ss.push(x)) =~= seq![stmt_view(x)]);
    } else {
        assert(ss.push(x).drop_first() =~= ss.drop_first().push(x));
        lemma_stmts_view_push(ss.drop_first(), x);
        assert(stmts_view(ss.push(x)) =~= stmts_view(ss).push(stmt_view(x)));
    }
}

pub proof fn lemma_stmts_view_index(ss: Seq<Statement>)
    ensures
        stmts_view(ss).len() == ss.len(),
        forall|i: int| 0 <= i < ss.len() ==> #[trigger] stmts_view(ss)[i] == stmt_view(ss[i]),
    decreases ss.len(),
{
    if ss.len() > 0 {
        lemma_stmts_view_index(ss.drop_first());
        assert forall|i: int| 0 <= i < ss.len() implies #[trigger] stmts_view(ss)[i] == stmt_view(
            ss[i],
        ) by {
            if i > 0 {
                assert(stmts_view(ss)[i] == stmts_view(ss.drop_first())[i - 1]);
            }
        }
    }
}

pub proof fn lemma_exprs_view_push(es: Seq<Expression>, x: Expression)
    ensures
        exprs_view(es.push(x)) == exprs_view(es).push(expr_view(x)),
    decreases es.len(),
{
    if es.len() == 0 {
        assert(es.push(x).drop_first() =~= Seq::<Expression>::empty());
        assert(es.push(x)[0] == x);
        assert(exprs_view(Seq::<Expression>::empty()) =~= Seq::<ExprV>::empty());
        assert(exprs_view(es.push(x)) =~= seq![expr_view(x)]);
    } else {
        assert(es.push(x).drop_first() =~= es.drop_first().push(x));
        lemma_exprs_view_push(es.drop_first(), x);
        assert(exprs_view(es.push(x)) =~= exprs_view(es).push(expr_view(x)));
    }
}

pub proof fn lemma_exprs_view_index(es: Seq<Expression>)
    ensures
        exprs_view(es).len() == es.len(),
        forall|i: int| 0 <= i < es.len() ==> #[trigger] exprs_view(es)[i] == expr_view(es[i]),
    decreases es.len(),
{
    if es.len() > 0 {
        lemma_exprs_view_index(es.drop_first());
        assert forall|i: int| 0 <= i < es.len() implies #[trigger] exprs_view(es)[i] == expr_view(
            es[i],
        ) by {
            if i > 0 {
                assert(exprs_view(es)[i] == exprs_view(es.drop_first())[i - 1]);
            }
        }
    }
}

pub proof fn lemma_branches_view_push(bs: Seq<(Expression, Vec<Statement>)>, x: (Expression, Vec<Statement>))
    ensures
        branches_view(bs.push(x)) == branches_view(bs).push((expr_view(x.0), stmts_view(x.1@))),
    decreases bs.len(),
{
    if bs.len() == 0 {
        assert(bs.push(x).drop_first() =~= Seq::<(Expression, Vec<Statement>)>::empty());
        assert(bs.push(x)[0] == x);
        assert(branches_view(Seq::<(Expression, Vec<Statement>)>::empty()) =~= Seq::<(ExprV, Seq<StmtV>)>::empty());
        assert(branches_view(bs.push(x)) =~= seq![(expr_view(x.0), stmts_view(x.1@))]);
    } else {
        assert(bs.push(x).drop_first() =~= bs.drop_first().push(x));
        lemma_branches_view_push(bs.drop_first(), x);
        assert(branches_view(bs.push(x)) =~= branches_view(bs).push(
            (expr_view(x.0), stmts_view(x.1@)),
        ));
    }
}

pub proof fn lemma_branches_view_index(bs: Seq<(Expression, Vec<Statement>)>)
    ensures
        branches_view(bs).len() == bs.len(),
        forall|i: int|
            0 <= i < bs.len() ==> #[trigger] branches_view(bs)[i] == (
                expr_view(bs[i].0),
                stmts_view(bs[i].1@),
            ),
    decreases bs.len(),
{
    if bs.len() > 0 {
        lemma_branches_view_index(bs.drop_first());
        assert forall|i: int| 0 <= i < bs.len() implies #[trigger] branches_view(bs)[i] == (
            expr_view(bs[i].0),
            stmts_view(bs[i].1@),
        ) by {
            if i > 0 {
                assert(branches_view(bs)[i] == branches_view(bs.drop_first())[i - 1]);
            }
        }
    }
}

pub proof fn lemma_fields_view_index(fs: Seq<(String, Expression)>)
    ensures
        fields_view(fs).len() == fs.len(),
        forall|i: int|
            0 <= i < fs.len() ==> #[trigger] fields_view(fs)[i] == (fs[i].0@, expr_view(fs[i].1)),
    decreases fs.len(),
{
    if fs.len() > 0 {
        lemma_fields_view_index(fs.drop_first());
        assert forall|i: int| 0 <= i < fs.len() implies #[trigger] fields_view(fs)[i] == (
            fs[i].0@,
            expr_view(fs[i].1),
        ) by {
            if i > 0 {
                assert(fields_view(fs)[i] == fields_view(fs.drop_first())[i - 1]);
            }
        }
    }
}

pub proof fn lemma_names_view_index(ns: Seq<String>)
    ensures
        names_view(ns).len() == ns.len(),
        forall|i: int| 0 <= i < ns.len() ==> #[trigger] names_view(ns)[i] == ns[i]@,
{
}

} // verus!
