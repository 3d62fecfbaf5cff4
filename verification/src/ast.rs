//! The syntax tree of a Jolang program. Every node keeps the tokens it was read from.

use vstd::prelude::*;
use crate::lexer::{Token, TokenKind};
use crate::source::SourceCursor;

verus! {

/// What a token is, as the syntax tree's specification sees it.
pub struct TokV {
    pub kind: TokenKind,
    pub start: SourceCursor,
    pub size: usize,
    pub data: Seq<char>,
}

impl View for Token {
    type V = TokV;

    open spec fn view(&self) -> TokV {
        TokV { kind: self.kind, start: self.span.start, size: self.span.size, data: self.span.data@ }
    }
}

pub open spec fn opt_tok_view(t: Option<Token>) -> Option<TokV> {
    match t {
        Some(t) => Some(t@),
        None => None,
    }
}

/// A whole program: its statements in order.
pub struct Program(pub Vec<Statement>);

/// `{ statements }`
pub struct Block {
    pub lcurly: Token,
    pub body: Vec<Statement>,
    pub rcurly: Token,
}

/// `if (cond) then` with an optional `else` branch.
pub struct If {
    pub if_kw: Token,
    pub lparen: Token,
    pub cond: Expr,
    pub rparen: Token,
    pub then_branch: Box<Statement>,
    pub else_kw: Option<Token>,
    pub _else: Option<Box<Statement>>,
}

/// `while (cond) body`
pub struct While {
    pub while_kw: Token,
    pub lparen: Token,
    pub cond: Expr,
    pub rparen: Token,
    pub body: Box<Statement>,
}

/// `loop body`
pub struct Loop {
    pub loop_kw: Token,
    pub body: Box<Statement>,
}

/// `break;`
pub struct Break {
    pub break_kw: Token,
    pub semicolon: Token,
}

/// `continue;`
pub struct Continue {
    pub continue_kw: Token,
    pub semicolon: Token,
}

/// `return value;`
pub struct Return {
    pub return_kw: Token,
    pub value: Expr,
    pub semicolon: Token,
}

/// `let name : type = value;` where the type and the value may be left out.
pub struct VarDecl {
    pub let_kw: Token,
    pub name: Token,
    pub colon_token: Option<Token>,
    pub var_type: Option<Token>,
    pub eq_token: Option<Token>,
    pub value: Option<Expr>,
    pub semicolon: Token,
}

/// `name = value;`
pub struct Assignment {
    pub name: Token,
    pub eq_token: Token,
    pub value: Box<Expr>,
    pub semicolon: Token,
}

/// An expression used as a statement: `expr;`
pub struct ExprStmt {
    pub expr: Box<Expr>,
    pub semicolon: Token,
}

pub enum Statement {
    Block(Block),
    If(If),
    While(While),
    Loop(Loop),
    Return(Return),
    Break(Break),
    Continue(Continue),
    VarDecl(VarDecl),
    Assignment(Assignment),
    Expr(ExprStmt),
}

pub enum Expr {
    BinExpr(BinExpr),
    UnaryExpr(UnaryExpr),
    PrimaryExpr(PrimaryExpr),
}

/// `left op right`
pub struct BinExpr {
    pub left: Box<Expr>,
    pub right: Box<Expr>,
    pub op: BinOp,
}

pub struct BinOp {
    pub token: Token,
    pub kind: BinOpKind,
}

#[derive(Clone, Copy, Debug, PartialEq, Eq, Structural)]
pub enum BinOpKind {
    Add,
    Sub,
    Mul,
    Div,
    Equal,
    NotEqual,
    Greater,
    GreaterEqual,
    LesserEqual,
    Lesser,
    LShift,
    RShift,
}

/// How tightly an operator binds: products over sums over everything else.
pub open spec fn spec_precedence(k: BinOpKind) -> u8 {
    match k {
        BinOpKind::Add => 1,
        BinOpKind::Sub => 1,
        BinOpKind::Mul => 2,
        BinOpKind::Div => 2,
        _ => 0,
    }
}

impl BinOpKind {
    pub fn precedence(&self) -> (r: u8)
        ensures
            r == spec_precedence(*self),
    {
        match self {
            Self::Add => 1,
            Self::Sub => 1,
            Self::Mul => 2,
            Self::Div => 2,
            Self::Equal => 0,
            Self::NotEqual => 0,
            Self::Greater => 0,
            Self::GreaterEqual => 0,
            Self::LesserEqual => 0,
            Self::Lesser => 0,
            Self::LShift => 0,
            Self::RShift => 0,
        }
    }
}

/// `op primary`
pub struct UnaryExpr {
    pub primary: PrimaryExpr,
    pub op: UnaryOp,
}

pub struct UnaryOp {
    pub token: Token,
    pub kind: UnaryOpKind,
}

#[derive(Clone, Copy, Debug, PartialEq, Eq, Structural)]
pub enum UnaryOpKind {
    Plus,
    Minus,
}

/// `( expr )`
pub struct ParenExpr {
    pub lparen: Token,
    pub expr: Box<Expr>,
    pub rparen: Token,
}

pub enum PrimaryExpr {
    Call(Call),
    Ident(Token),
    IntLit(i128),
    VoidLit(),
    /// (Expr) (e. g. (5 + 5))
    Paren(ParenExpr),
}

/// `name(first_arg, other_args...)`; each further argument keeps its comma.
pub struct Call {
    pub name: Token,
    pub lparen: Token,
    pub first_arg: Option<Box<Expr>>,
    // (comma, value)
    pub other_args: Vec<(Token, Expr)>,
    pub rparen: Token,
}

// ---------------------------------------------------------------------------------
// The tree as the specification sees it.
// ---------------------------------------------------------------------------------

pub enum SExpr {
    Bin(Box<SExpr>, Box<SExpr>, TokV, BinOpKind),
    Unary(SPrim, TokV, UnaryOpKind),
    Prim(SPrim),
}

pub enum SPrim {
    Call(SCall),
    Ident(TokV),
    IntLit(i128),
    VoidLit,
    Paren(TokV, Box<SExpr>, TokV),
}

pub struct SCall {
    pub name: TokV,
    pub lparen: TokV,
    pub first_arg: Option<Box<SExpr>>,
    pub other_args: Seq<(TokV, SExpr)>,
    pub rparen: TokV,
}

pub enum SStmt {
    Block(TokV, Seq<SStmt>, TokV),
    /// if, (, cond, ), then, else, else branch
    If(TokV, TokV, SExpr, TokV, Box<SStmt>, Option<TokV>, Option<Box<SStmt>>),
    /// while, (, cond, ), body
    While(TokV, TokV, SExpr, TokV, Box<SStmt>),
    Loop(TokV, Box<SStmt>),
    Return(TokV, SExpr, TokV),
    Break(TokV, TokV),
    Continue(TokV, TokV),
    /// let, name, colon, type, =, value, ;
    VarDecl(TokV, TokV, Option<TokV>, Option<TokV>, Option<TokV>, Option<SExpr>, TokV),
    /// name, =, value, ;
    Assignment(TokV, TokV, SExpr, TokV),
    Expr(SExpr, TokV),
}

pub open spec fn expr_view(e: Expr) -> SExpr
    decreases e,
{
    match e {
        Expr::BinExpr(b) => SExpr::Bin(Box::new(expr_view(*b.left)), Box::new(expr_view(*b.right)), b.op.token@, b.op.kind),
        Expr::UnaryExpr(u) => SExpr::Unary(prim_view(u.primary), u.op.token@, u.op.kind),
        Expr::PrimaryExpr(p) => SExpr::Prim(prim_view(p)),
    }
}

pub open spec fn prim_view(p: PrimaryExpr) -> SPrim
    decreases p,
{
    match p {
        PrimaryExpr::Call(c) => SPrim::Call(call_view(c)),
        PrimaryExpr::Ident(t) => SPrim::Ident(t@),
        PrimaryExpr::IntLit(v) => SPrim::IntLit(v),
        PrimaryExpr::VoidLit() => SPrim::VoidLit,
        PrimaryExpr::Paren(pe) => SPrim::Paren(pe.lparen@, Box::new(expr_view(*pe.expr)), pe.rparen@),
    }
}

pub open spec fn call_view(c: Call) -> SCall
    decreases c,
{
    SCall {
        name: c.name@,
        lparen: c.lparen@,
        first_arg: match c.first_arg {
            Some(a) => Some(Box::new(expr_view(*a))),
            None => None,
        },
        other_args: args_view(c.other_args@),
        rparen: c.rparen@,
    }
}

pub open spec fn args_view(s: Seq<(Token, Expr)>) -> Seq<(TokV, SExpr)>
    decreases s,
{
    if s.len() == 0 {
        Seq::empty()
    } else {
        args_view(s.drop_last()).push((s.last().0@, expr_view(s.last().1)))
    }
}

pub open spec fn opt_expr_view(e: Option<Expr>) -> Option<SExpr> {
    match e {
        Some(e) => Some(expr_view(e)),
        None => None,
    }
}

pub open spec fn stmt_view(s: Statement) -> SStmt
    decreases s,
{
    match s {
        Statement::Block(b) => SStmt::Block(b.lcurly@, stmts_view(b.body@), b.rcurly@),
        Statement::If(i) => SStmt::If(
            i.if_kw@,
            i.lparen@,
            expr_view(i.cond),
            i.rparen@,
            Box::new(stmt_view(*i.then_branch)),
            opt_tok_view(i.else_kw),
            match i._else {
                Some(e) => Some(Box::new(stmt_view(*e))),
                None => None,
            },
        ),
        Statement::While(w) => SStmt::While(w.while_kw@, w.lparen@, expr_view(w.cond), w.rparen@, Box::new(stmt_view(*w.body))),
        Statement::Loop(l) => SStmt::Loop(l.loop_kw@, Box::new(stmt_view(*l.body))),
        Statement::Return(r) => SStmt::Return(r.return_kw@, expr_view(r.value), r.semicolon@),
        Statement::Break(b) => SStmt::Break(b.break_kw@, b.semicolon@),
        Statement::Continue(c) => SStmt::Continue(c.continue_kw@, c.semicolon@),
        Statement::VarDecl(v) => SStmt::VarDecl(
            v.let_kw@,
            v.name@,
            opt_tok_view(v.colon_token),
            opt_tok_view(v.var_type),
            opt_tok_view(v.eq_token),
            match v.value {
                Some(e) => Some(expr_view(e)),
                None => None,
            },
            v.semicolon@,
        ),
        Statement::Assignment(a) => SStmt::Assignment(a.name@, a.eq_token@, expr_view(*a.value), a.semicolon@),
        Statement::Expr(e) => SStmt::Expr(expr_view(*e.expr), e.semicolon@),
    }
}

pub open spec fn stmts_view(s: Seq<Statement>) -> Seq<SStmt>
    decreases s,
{
    if s.len() == 0 {
        Seq::empty()
    } else {
        stmts_view(s.drop_last()).push(stmt_view(s.last()))
    }
}

// ---------------------------------------------------------------------------------
// Operator precedence.
// ---------------------------------------------------------------------------------

pub open spec fn sexpr_size(e: SExpr) -> nat
    decreases e,
{
    match e {
        SExpr::Bin(l, r, _, _) => 1 + sexpr_size(*l) + sexpr_size(*r),
        _ => 1,
    }
}

/// Rebalances `left op1 (l2 op2 r2)` into `(left op1 l2) op2 r2` when `op1` binds
/// tighter than `op2`, repeating on the new left operand. The parser reads operators
/// right to left, so this restores the precedence of products over sums over
/// comparisons and shifts.
pub open spec fn spec_apply_precedence(e: SExpr) -> SExpr
    decreases sexpr_size(e),
{
    match e {
        SExpr::Bin(l1, r1, t1, k1) => match *r1 {
            SExpr::Bin(l2, r2, t2, k2) => {
                if spec_precedence(k1) > spec_precedence(k2) {
                    proof {
                        lemma_sexpr_size_pos(*r2);
                        assert(sexpr_size(e) == 1 + sexpr_size(*l1) + sexpr_size(*r1));
                        assert(sexpr_size(*r1) == 1 + sexpr_size(*l2) + sexpr_size(*r2));
                        assert(sexpr_size(SExpr::Bin(l1, l2, t1, k1)) == 1 + sexpr_size(*l1) + sexpr_size(*l2));
                    }
                    SExpr::Bin(Box::new(spec_apply_precedence(SExpr::Bin(l1, l2, t1, k1))), r2, t2, k2)
                } else {
                    e
                }
            },
            _ => e,
        },
        _ => e,
    }
}

/// The pieces of an expression in reading order: each operand that is no binary
/// expression, and each binary operator's token between its operands.
pub enum Piece {
    Operand(SExpr),
    Operator(TokV, BinOpKind),
}

pub open spec fn in_order(e: SExpr) -> Seq<Piece>
    decreases e,
{
    match e {
        SExpr::Bin(l, r, t, k) => in_order(*l) + seq![Piece::Operator(t, k)] + in_order(*r),
        _ => seq![Piece::Operand(e)],
    }
}

/// Restoring precedence only regroups: the operands and operators stay in the order
/// they were read.
pub proof fn lemma_precedence_keeps_order(e: SExpr)
    ensures
        in_order(spec_apply_precedence(e)) == in_order(e),
    decreases sexpr_size(e),
{
    if let SExpr::Bin(l1, r1, t1, k1) = e {
        if let SExpr::Bin(l2, r2, t2, k2) = *r1 {
            if spec_precedence(k1) > spec_precedence(k2) {
                lemma_sexpr_size_pos(*r2);
                let inner = SExpr::Bin(l1, l2, t1, k1);
                assert(sexpr_size(e) == 1 + sexpr_size(*l1) + sexpr_size(*r1));
                assert(sexpr_size(*r1) == 1 + sexpr_size(*l2) + sexpr_size(*r2));
                assert(sexpr_size(inner) == 1 + sexpr_size(*l1) + sexpr_size(*l2));
                lemma_precedence_keeps_order(inner);
                let a = in_order(*l1);
                let b = in_order(*l2);
                let c = in_order(*r2);
                let o1 = seq![Piece::Operator(t1, k1)];
                let o2 = seq![Piece::Operator(t2, k2)];
                assert(in_order(*r1) == b + o2 + c);
                assert(in_order(e) == a + o1 + in_order(*r1));
                assert(in_order(inner) == a + o1 + b);
                assert(in_order(spec_apply_precedence(e)) == (a + o1 + b) + o2 + c);
                assert(a + o1 + (b + o2 + c) =~= (a + o1 + b) + o2 + c);
            }
        }
    }
}

/// Operators bind in three levels: `*` and `/` tighter than `+` and `-`, which bind
/// tighter than the comparisons and shifts; operators of one level bind alike.
pub proof fn lemma_precedence_levels(a: BinOpKind, b: BinOpKind)
    ensures
        ((a == BinOpKind::Mul || a == BinOpKind::Div) && (b == BinOpKind::Add || b == BinOpKind::Sub))
            ==> spec_precedence(a) > spec_precedence(b),
        ((a == BinOpKind::Add || a == BinOpKind::Sub) && !(b == BinOpKind::Add || b == BinOpKind::Sub
            || b == BinOpKind::Mul || b == BinOpKind::Div)) ==> spec_precedence(a) > spec_precedence(b),
        ((a == BinOpKind::Mul || a == BinOpKind::Div) == (b == BinOpKind::Mul || b == BinOpKind::Div)
            && (a == BinOpKind::Add || a == BinOpKind::Sub) == (b == BinOpKind::Add || b == BinOpKind::Sub))
            ==> spec_precedence(a) == spec_precedence(b),
{
}

/// Read as `x op1 (y op2 z)`, an expression whose first operator binds tighter than
/// its second is regrouped as `(x op1 y) op2 z`: `a + b < c` compares the sum, and
/// `a * b + c` adds the product. Where the first binds no tighter, the grouping stays.
pub proof fn lemma_precedence_groups(x: SExpr, y: SExpr, z: SExpr, t1: TokV, k1: BinOpKind, t2: TokV, k2: BinOpKind)
    requires
        !(x is Bin),
        !(y is Bin),
    ensures
        spec_apply_precedence(SExpr::Bin(Box::new(x), Box::new(SExpr::Bin(Box::new(y), Box::new(z), t2, k2)), t1, k1))
            == if spec_precedence(k1) > spec_precedence(k2) {
                SExpr::Bin(Box::new(SExpr::Bin(Box::new(x), Box::new(y), t1, k1)), Box::new(z), t2, k2)
            } else {
                SExpr::Bin(Box::new(x), Box::new(SExpr::Bin(Box::new(y), Box::new(z), t2, k2)), t1, k1)
            },
{
    let inner = SExpr::Bin(Box::new(x), Box::new(y), t1, k1);
    assert(spec_apply_precedence(inner) == inner);
}

/// A sum followed by a comparison or shift, `x + y < z`, groups as `(x + y) < z`; a
/// comparison or shift followed by a sum, `x < y + z`, groups as `x < (y + z)`.
pub proof fn lemma_sum_before_comparison(x: SExpr, y: SExpr, z: SExpr, t1: TokV, k1: BinOpKind, t2: TokV, k2: BinOpKind)
    requires
        !(x is Bin),
        !(y is Bin),
        k1 == BinOpKind::Add || k1 == BinOpKind::Sub,
        !(k2 == BinOpKind::Add || k2 == BinOpKind::Sub || k2 == BinOpKind::Mul || k2 == BinOpKind::Div),
    ensures
        spec_apply_precedence(SExpr::Bin(Box::new(x), Box::new(SExpr::Bin(Box::new(y), Box::new(z), t2, k2)), t1, k1))
            == SExpr::Bin(Box::new(SExpr::Bin(Box::new(x), Box::new(y), t1, k1)), Box::new(z), t2, k2),
        spec_apply_precedence(SExpr::Bin(Box::new(x), Box::new(SExpr::Bin(Box::new(y), Box::new(z), t1, k1)), t2, k2))
            == SExpr::Bin(Box::new(x), Box::new(SExpr::Bin(Box::new(y), Box::new(z), t1, k1)), t2, k2),
{
    lemma_precedence_levels(k1, k2);
    lemma_precedence_groups(x, y, z, t1, k1, t2, k2);
    lemma_precedence_groups(x, y, z, t2, k2, t1, k1);
}

pub proof fn lemma_sexpr_size_pos(e: SExpr)
    ensures
        sexpr_size(e) >= 1,
{
}

pub proof fn lemma_expr_size_pos(e: Expr)
    ensures
        expr_size(e) >= 1,
{
}

pub open spec fn expr_size(e: Expr) -> nat
    decreases e,
{
    match e {
        Expr::BinExpr(b) => 1 + expr_size(*b.left) + expr_size(*b.right),
        _ => 1,
    }
}

pub proof fn lemma_expr_size(e: Expr)
    ensures
        sexpr_size(expr_view(e)) == expr_size(e),
    decreases e,
{
    if let Expr::BinExpr(b) = e {
        lemma_expr_size(*b.left);
        lemma_expr_size(*b.right);
    }
}

/// The expression with precedence restored (see `spec_apply_precedence`).
pub fn apply_precedence(expr: Expr) -> (r: Expr)
    ensures
        expr_view(r) == spec_apply_precedence(expr_view(expr)),
    decreases expr_size(expr),
{
    match expr {
        Expr::BinExpr(e1) => {
            let BinExpr { left: l1, right: r1, op: op1 } = e1;
            match *r1 {
                Expr::BinExpr(e2) => {
                    let prec1 = op1.kind.precedence();
                    let prec2 = e2.op.kind.precedence();
                    if prec1 > prec2 {
                        let BinExpr { left: l2, right: r2, op: op2 } = e2;
                        proof {
                            lemma_expr_size_pos(*r2);
                            assert(expr_size(*r1) == 1 + expr_size(*l2) + expr_size(*r2));
                            assert(expr_size(Expr::BinExpr(BinExpr { left: l1, right: l2, op: op1 })) == 1 + expr_size(*l1) + expr_size(*l2));
                        }
                        let inner = Expr::BinExpr(BinExpr { left: l1, right: l2, op: op1 });
                        let new_left = apply_precedence(inner);
                        let r = Expr::BinExpr(BinExpr { left: Box::new(new_left), right: r2, op: op2 });
                        proof {
                            assert(expr_view(inner) == SExpr::Bin(Box::new(expr_view(*l1)), Box::new(expr_view(*l2)), op1.token@, op1.kind));
                            assert(expr_view(*r1) == SExpr::Bin(Box::new(expr_view(*l2)), Box::new(expr_view(*r2)), op2.token@, op2.kind));
                            assert(spec_apply_precedence(expr_view(expr)) == expr_view(r));
                        }
                        r
                    } else {
                        let r = Expr::BinExpr(BinExpr { left: l1, right: Box::new(Expr::BinExpr(e2)), op: op1 });
                        proof {
                            assert(expr_view(r) == expr_view(expr));
                            assert(spec_apply_precedence(expr_view(expr)) == expr_view(r));
                        }
                        r
                    }
                },
                other => {
                    let r = Expr::BinExpr(BinExpr { left: l1, right: Box::new(other), op: op1 });
                    proof {
                        assert(expr_view(r) == expr_view(expr));
                        assert(spec_apply_precedence(expr_view(expr)) == expr_view(r));
                    }
                    r
                },
            }
        },
        other => other,
    }
}

} // verus!
