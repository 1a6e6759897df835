use vstd::prelude::*;

verus! {

/// A whole program: its statements in source order.
#[derive(Debug, PartialEq, Eq)]
pub struct Program {
    pub statements: Vec<Statement>,
}

#[derive(Debug, Clone, PartialEq, Eq)]
pub struct Ident(pub String);

#[derive(Debug, PartialEq, Eq)]
pub enum Statement {
    Expression(Expression),
    /// A function declaration: its name, its parameters and its body.
    Fn { ident: Ident, args: Vec<Ident>, blocks: Vec<Statement> },
}

#[derive(Debug, PartialEq, Eq)]
pub enum Expression {
    Ident(Ident),
    Literal(Literal),
    Infix(Infix, Box<Expression>, Box<Expression>),
}

#[derive(Debug, Clone, Copy, PartialEq, Eq, Structural)]
pub enum Literal {
    Int(i64),
}

#[derive(Debug, Clone, Copy, PartialEq, Eq, Structural)]
pub enum Infix {
    Plus,
    Minus,
    Asterisk,
    Slash,
}

/// The mathematical value of an expression.
pub enum ExprView {
    Ident(Seq<char>),
    Literal(i64),
    Infix(Infix, Box<ExprView>, Box<ExprView>),
}

/// The mathematical value of a statement.
pub enum StmtView {
    Expression(ExprView),
    Function { name: Seq<char>, params: Seq<Seq<char>>, body: Seq<StmtView> },
}

impl View for Ident {
    type V = Seq<char>;

    open spec fn view(&self) -> Seq<char> {
        self.0@
    }
}

impl View for Expression {
    type V = ExprView;

    open spec fn view(&self) -> ExprView
        decreases self,
    {
        match self {
            Expression::Ident(i) => ExprView::Ident(i@),
            Expression::Literal(Literal::Int(v)) => ExprView::Literal(*v),
            Expression::Infix(op, l, r) => ExprView::Infix(*op, Box::new((**l).view()), Box::new((**r).view())),
        }
    }
}

pub open spec fn idents_view(s: Seq<Ident>) -> Seq<Seq<char>> {
    s.map_values(|i: Ident| i@)
}

pub open spec fn stmt_view(s: Statement) -> StmtView
    decreases s, 0nat,
{
    match s {
        Statement::Expression(e) => StmtView::Expression(e@),
        Statement::Fn { ident, args, blocks } => StmtView::Function {
            name: ident@,
            params: idents_view(args@),
            body: stmts_view(blocks@),
        },
    }
}

pub open spec fn stmts_view(s: Seq<Statement>) -> Seq<StmtView>
    decreases s, s.len(),
{
    if s.len() == 0 {
        Seq::empty()
    } else {
        stmts_view(s.drop_last()).push(stmt_view(s.last()))
    }
}

impl View for Statement {
    type V = StmtView;

    open spec fn view(&self) -> StmtView {
        stmt_view(*self)
    }
}

impl View for Program {
    type V = Seq<StmtView>;

    open spec fn view(&self) -> Seq<StmtView> {
        stmts_view(self.statements@)
    }
}

pub proof fn lemma_stmts_view_push(v: Seq<Statement>, s: Statement)
    ensures
        stmts_view(v.push(s)) == stmts_view(v).push(stmt_view(s)),
{
    assert(v.push(s).drop_last() =~= v);
}

pub proof fn lemma_idents_view_push(v: Seq<Ident>, i: Ident)
    ensures
        idents_view(v.push(i)) == idents_view(v).push(i@),
{
    assert(idents_view(v.push(i)) =~= idents_view(v).push(i@));
}

pub proof fn lemma_stmts_view_index(v: Seq<Statement>)
    ensures
        stmts_view(v).len() == v.len(),
        forall|i: int| 0 <= i < v.len() ==> #[trigger] stmts_view(v)[i] == stmt_view(v[i]),
    decreases v.len(),
{
    if v.len() > 0 {
        lemma_stmts_view_index(v.drop_last());
    }
}

} // verus!
