//! The parser: builds the syntax tree of a program from the tokens of the lexer.

use vstd::prelude::*;
use crate::ast::{
    TokV, SExpr, SPrim, SCall, SStmt, opt_tok_view, expr_view, stmt_view, stmts_view, call_view,
    args_view, prim_view, opt_expr_view, spec_apply_precedence, apply_precedence,
    Program, Statement, Expr, PrimaryExpr, Call, Block, If, While, Loop, Return, Break, Continue,
    VarDecl, Assignment, ExprStmt, BinExpr, BinOp, BinOpKind, UnaryExpr, UnaryOp, UnaryOpKind,
    ParenExpr,
};
use crate::lexer::{
    Lexer, Token, TokenKind, KeywordType, LexStep, spec_next, spec_lex_error,
    spec_line_text, spec_token_kind_name, lemma_next_progress,
};
use crate::source::{SourceBuffer, SourceCursor, spec_advance, cursor_ok, lemma_advance};
use crate::compiler_error::{CompilerError, CompilerErrorKind, spec_error_is};
use crate::chars::spec_utf8_len;
use crate::numbers::{parse_i128, spec_parse_i128};
use crate::text::push_str;

verus! {

/// Where the parser stands: the reader's cursor and the current token.
pub struct PState {
    pub cursor: SourceCursor,
    pub cur: Option<TokV>,
}

/// Why parsing stopped.
pub enum PErr {
    /// The lexer failed at this cursor with this message.
    Lex(SourceCursor, Seq<char>),
    /// Something named was expected where the reader stood.
    Expected(Seq<char>, SourceCursor),
    /// This token cannot stand here.
    Unexpected(TokV),
    /// This integer literal does not fit.
    BadInt(TokV),
}

/// The token of kind `k` over `[s, e)`, read from cursor `c`.
pub open spec fn mk_tok(text: Seq<char>, c: SourceCursor, k: TokenKind, s: nat, e: nat) -> TokV {
    TokV {
        kind: k,
        start: spec_advance(text, c, (s - c.pos) as nat),
        size: spec_utf8_len(text.subrange(s as int, e as int)) as usize,
        data: text.subrange(s as int, e as int),
    }
}

/// Reading the next token: whether one was read, and the state after.
#[verifier::opaque]
pub open spec fn sp_next(text: Seq<char>, st: PState) -> Result<(bool, PState), PErr> {
    let (step, np) = spec_next(text, st.cursor.pos as nat);
    let nc = spec_advance(text, st.cursor, (np - st.cursor.pos) as nat);
    match step {
        LexStep::End => Ok((false, PState { cursor: nc, cur: st.cur })),
        LexStep::Token(k, s, e) => Ok((true, PState { cursor: nc, cur: Some(mk_tok(text, st.cursor, k, s, e)) })),
        LexStep::Error(at, msg) => Err(PErr::Lex(spec_advance(text, st.cursor, (at - st.cursor.pos) as nat), msg)),
    }
}

pub open spec fn cur_is(st: PState, k: TokenKind) -> bool {
    st.cur matches Some(t) && t.kind == k
}

/// `b` lies strictly after `a`, inside the text.
pub open spec fn adv(text: Seq<char>, a: PState, b: PState) -> bool {
    a.cursor.pos < b.cursor.pos <= text.len()
}

/// `b` lies at or after `a`, inside the text.
pub open spec fn fwd(text: Seq<char>, a: PState, b: PState) -> bool {
    a.cursor.pos <= b.cursor.pos <= text.len()
}

pub open spec fn unary_kind(k: TokenKind) -> Option<UnaryOpKind> {
    match k {
        TokenKind::Plus => Some(UnaryOpKind::Plus),
        TokenKind::Minus => Some(UnaryOpKind::Minus),
        _ => None,
    }
}

pub open spec fn binop_kind(k: TokenKind) -> Option<BinOpKind> {
    match k {
        TokenKind::Plus => Some(BinOpKind::Add),
        TokenKind::Minus => Some(BinOpKind::Sub),
        TokenKind::Times => Some(BinOpKind::Mul),
        TokenKind::Divider => Some(BinOpKind::Div),
        TokenKind::DoubleEqual => Some(BinOpKind::Equal),
        TokenKind::NotEqual => Some(BinOpKind::NotEqual),
        TokenKind::Greater => Some(BinOpKind::Greater),
        TokenKind::GreaterEqual => Some(BinOpKind::GreaterEqual),
        TokenKind::LesserEqual => Some(BinOpKind::LesserEqual),
        TokenKind::Lesser => Some(BinOpKind::Lesser),
        TokenKind::LShift => Some(BinOpKind::LShift),
        TokenKind::RShift => Some(BinOpKind::RShift),
        _ => None,
    }
}

/// An expression: an optional `+` or `-`, a primary expression, and optionally an
/// operator followed by another expression (operators are then rebalanced by
/// precedence). Leaves the token after the expression current.
pub open spec fn sp_parse_expr(text: Seq<char>, st: PState) -> Result<(SExpr, PState), PErr>
    decreases text.len() - st.cursor.pos, 3int,
{
    match st.cur {
        None => Err(PErr::Expected("expression"@, st.cursor)),
        Some(tok) => match unary_kind(tok.kind) {
            Some(uk) => match sp_next(text, st) {
                Err(e) => Err(e),
                Ok((got, st1)) => if !got {
                    Err(PErr::Expected("expression"@, st1.cursor))
                } else if adv(text, st, st1) {
                    sp_parse_primary(text, st1, Some((tok, uk)))
                } else {
                    Err(PErr::Expected("expression"@, st1.cursor))
                },
            },
            None => sp_parse_primary(text, st, None),
        },
    }
}

/// The primary expression at the current token, then what follows it.
pub open spec fn sp_parse_primary(text: Seq<char>, st: PState, unary: Option<(TokV, UnaryOpKind)>) -> Result<(SExpr, PState), PErr>
    decreases text.len() - st.cursor.pos, 2int,
{
    match st.cur {
        None => Err(PErr::Expected("expression"@, st.cursor)),
        Some(tok) => {
            if tok.kind == TokenKind::Int {
                match spec_parse_i128(tok.data) {
                    None => Err(PErr::BadInt(tok)),
                    Some(v) => match sp_next(text, st) {
                        Err(e) => Err(e),
                        Ok((_, st1)) => if fwd(text, st, st1) {
                            sp_after_primary(text, st1, SPrim::IntLit(v), unary)
                        } else {
                            Err(PErr::Unexpected(tok))
                        },
                    },
                }
            } else if tok.kind == TokenKind::LParan {
                match sp_next(text, st) {
                    Err(e) => Err(e),
                    Ok((got, st1)) => if !got || !adv(text, st, st1) {
                        Err(PErr::Expected("expr"@, st1.cursor))
                    } else {
                        match sp_parse_expr(text, st1) {
                            Err(e) => Err(e),
                            Ok((inner, st2)) => if cur_is(st2, TokenKind::RParan) {
                                match sp_next(text, st2) {
                                    Err(e) => Err(e),
                                    Ok((_, st3)) => if fwd(text, st, st3) {
                                        sp_after_primary(text, st3, SPrim::Paren(tok, Box::new(inner), st2.cur->0), unary)
                                    } else {
                                        Err(PErr::Unexpected(tok))
                                    },
                                }
                            } else {
                                Err(PErr::Expected("\")\""@, st2.cursor))
                            },
                        }
                    },
                }
            } else if tok.kind == TokenKind::Ident {
                match sp_next(text, st) {
                    Err(e) => Err(e),
                    Ok((got, st1)) => if got && cur_is(st1, TokenKind::LParan) && adv(text, st, st1) {
                        match sp_call_after(text, st1, tok) {
                            Err(e) => Err(e),
                            Ok((c, st2)) => match sp_next(text, st2) {
                                Err(e) => Err(e),
                                Ok((_, st3)) => if fwd(text, st, st3) {
                                    sp_after_primary(text, st3, SPrim::Call(c), unary)
                                } else {
                                    Err(PErr::Unexpected(tok))
                                },
                            },
                        }
                    } else if fwd(text, st, st1) {
                        sp_after_primary(text, st1, SPrim::Ident(tok), unary)
                    } else {
                        Err(PErr::Unexpected(tok))
                    },
                }
            } else {
                Err(PErr::Unexpected(tok))
            }
        },
    }
}

/// After a primary expression, with the token that follows it current: either the
/// expression ends, or an operator joins it to the expression after.
pub open spec fn sp_after_primary(text: Seq<char>, st: PState, prim: SPrim, unary: Option<(TokV, UnaryOpKind)>) -> Result<(SExpr, PState), PErr>
    decreases text.len() - st.cursor.pos, 1int,
{
    let expr = match unary {
        Some((t, k)) => SExpr::Unary(prim, t, k),
        None => SExpr::Prim(prim),
    };
    match st.cur {
        None => Ok((expr, st)),
        Some(optok) => match binop_kind(optok.kind) {
            None => Ok((expr, st)),
            Some(bk) => match sp_next(text, st) {
                Err(e) => Err(e),
                Ok((got, st1)) => if !got || !adv(text, st, st1) {
                    Err(PErr::Expected("expr"@, st1.cursor))
                } else {
                    match sp_parse_expr(text, st1) {
                        Err(e) => Err(e),
                        Ok((rhs, st2)) => Ok((spec_apply_precedence(SExpr::Bin(Box::new(expr), Box::new(rhs), optok, bk)), st2)),
                    }
                },
            },
        },
    }
}

/// The arguments of a call whose name and `(` have been read, the `(` current.
pub open spec fn sp_call_after(text: Seq<char>, st: PState, name: TokV) -> Result<(SCall, PState), PErr>
    decreases text.len() - st.cursor.pos, 1int,
{
    let lparen = st.cur->0;
    match sp_next(text, st) {
        Err(e) => Err(e),
        Ok((got, st1)) => if !got {
            Err(PErr::Expected("\")\""@, st1.cursor))
        } else if cur_is(st1, TokenKind::RParan) {
            Ok((SCall { name, lparen, first_arg: None, other_args: Seq::empty(), rparen: st1.cur->0 }, st1))
        } else if !adv(text, st, st1) {
            Err(PErr::Expected("\")\""@, st1.cursor))
        } else {
            match sp_parse_expr(text, st1) {
                Err(e) => Err(e),
                Ok((first, st2)) => if !adv(text, st, st2) {
                    Err(PErr::Expected("\")\""@, st2.cursor))
                } else {
                    match sp_args(text, st2, Seq::empty()) {
                        Err(e) => Err(e),
                        Ok((args, rparen, st3)) => Ok((SCall { name, lparen, first_arg: Some(Box::new(first)), other_args: args, rparen }, st3)),
                    }
                },
            }
        },
    }
}

/// The further arguments of a call, each after a comma, up to the `)`.
pub open spec fn sp_args(text: Seq<char>, st: PState, acc: Seq<(TokV, SExpr)>) -> Result<(Seq<(TokV, SExpr)>, TokV, PState), PErr>
    decreases text.len() - st.cursor.pos, 0int,
{
    match st.cur {
        None => Err(PErr::Expected("\")\""@, st.cursor)),
        Some(t) => if t.kind == TokenKind::RParan {
            Ok((acc, t, st))
        } else if t.kind != TokenKind::Comma {
            Err(PErr::Expected("\",\""@, st.cursor))
        } else {
            match sp_next(text, st) {
                Err(e) => Err(e),
                Ok((got, st1)) => if !got || !adv(text, st, st1) {
                    Err(PErr::Unexpected(t))
                } else {
                    match sp_parse_expr(text, st1) {
                        Err(e) => Err(e),
                        Ok((arg, st2)) => if !adv(text, st, st2) {
                            Err(PErr::Unexpected(t))
                        } else {
                            sp_args(text, st2, acc.push((t, arg)))
                        },
                    }
                },
            }
        },
    }
}


/// A call statement's or expression's call, starting before its name: the name, then
/// `(`, then the arguments.
pub open spec fn sp_parse_call(text: Seq<char>, st: PState) -> Result<(SCall, PState), PErr> {
    match sp_next(text, st) {
        Err(e) => Err(e),
        Ok((_, st1)) => {
            let name = st1.cur->0;
            match sp_next(text, st1) {
                Err(e) => Err(e),
                Ok((got, st2)) => if got && cur_is(st2, TokenKind::LParan) {
                    sp_call_after(text, st2, name)
                } else {
                    Err(PErr::Expected("\"(\""@, st2.cursor))
                },
            }
        },
    }
}

/// `return value;`, the `return` current.
pub open spec fn sp_return(text: Seq<char>, st: PState, kw: TokV) -> Result<(SStmt, PState), PErr> {
    match sp_next(text, st) {
        Err(e) => Err(e),
        Ok((got, st1)) => if !got {
            Err(PErr::Expected("expr"@, st1.cursor))
        } else {
            match sp_parse_expr(text, st1) {
                Err(e) => Err(e),
                Ok((v, st2)) => if cur_is(st2, TokenKind::Semicolon) {
                    Ok((SStmt::Return(kw, v, st2.cur->0), st2))
                } else {
                    Err(PErr::Expected("\";\""@, st2.cursor))
                },
            }
        },
    }
}

/// `break;` or `continue;`, the keyword current.
pub open spec fn sp_jump(text: Seq<char>, st: PState, kw: TokV, is_continue: bool) -> Result<(SStmt, PState), PErr> {
    match sp_next(text, st) {
        Err(e) => Err(e),
        Ok((got, st1)) => if got && cur_is(st1, TokenKind::Semicolon) {
            if is_continue {
                Ok((SStmt::Continue(kw, st1.cur->0), st1))
            } else {
                Ok((SStmt::Break(kw, st1.cur->0), st1))
            }
        } else {
            Err(PErr::Expected("\";\""@, st1.cursor))
        },
    }
}

/// The `: type` part of a declaration, with the token after the name current:
/// the colon, the type and the state after them. When the colon is followed by the
/// end of the text, the colon itself stands for the type.
pub open spec fn sp_let_type(text: Seq<char>, st: PState) -> Result<(Option<TokV>, Option<TokV>, PState), PErr> {
    if cur_is(st, TokenKind::Colon) {
        let colon = st.cur->0;
        match sp_next(text, st) {
            Err(e) => Err(e),
            Ok((got, st1)) => if got && !cur_is(st1, TokenKind::Ident) {
                Err(PErr::Expected("identifier"@, st1.cursor))
            } else {
                match sp_next(text, st1) {
                    Err(e) => Err(e),
                    Ok((_, st2)) => Ok((Some(colon), st1.cur, st2)),
                }
            },
        }
    } else {
        Ok((None, None, st))
    }
}

/// The `= value` part of a declaration, with the token after the name or type current.
pub open spec fn sp_let_value(text: Seq<char>, st: PState) -> Result<(Option<TokV>, Option<SExpr>, PState), PErr> {
    if cur_is(st, TokenKind::Equal) {
        let eq = st.cur->0;
        match sp_next(text, st) {
            Err(e) => Err(e),
            Ok((got, st1)) => if !got {
                Err(PErr::Expected("expression"@, st1.cursor))
            } else {
                match sp_parse_expr(text, st1) {
                    Err(e) => Err(e),
                    Ok((v, st2)) => Ok((Some(eq), Some(v), st2)),
                }
            },
        }
    } else {
        Ok((None, None, st))
    }
}

/// `let name : type = value;`, the `let` current.
pub open spec fn sp_let(text: Seq<char>, st: PState, kw: TokV) -> Result<(SStmt, PState), PErr> {
    match sp_next(text, st) {
        Err(e) => Err(e),
        Ok((got, st1)) => if !(got && cur_is(st1, TokenKind::Ident)) {
            Err(PErr::Expected("identifier"@, st1.cursor))
        } else {
            match sp_next(text, st1) {
                Err(e) => Err(e),
                Ok((_, st2)) => match sp_let_type(text, st2) {
                    Err(e) => Err(e),
                    Ok((colon, ty, st3)) => match sp_let_value(text, st3) {
                        Err(e) => Err(e),
                        Ok((eq, v, st4)) => if cur_is(st4, TokenKind::Semicolon) {
                            Ok((SStmt::VarDecl(kw, st1.cur->0, colon, ty, eq, v, st4.cur->0), st4))
                        } else {
                            Err(PErr::Expected("\";\""@, st4.cursor))
                        },
                    },
                },
            }
        },
    }
}

/// A statement that starts with a name, the name current: a call `name(args);` or an
/// assignment `name = value;`.
pub open spec fn sp_ident_stmt(text: Seq<char>, st: PState, name: TokV) -> Result<(SStmt, PState), PErr> {
    match sp_next(text, st) {
        Err(e) => Err(e),
        Ok((got, st1)) => if got && cur_is(st1, TokenKind::LParan) {
            match sp_call_after(text, st1, name) {
                Err(e) => Err(e),
                Ok((c, st2)) => match sp_next(text, st2) {
                    Err(e) => Err(e),
                    Ok((got3, st3)) => if got3 && cur_is(st3, TokenKind::Semicolon) {
                        Ok((SStmt::Expr(SExpr::Prim(SPrim::Call(c)), st3.cur->0), st3))
                    } else {
                        Err(PErr::Expected("\";\""@, st3.cursor))
                    },
                },
            }
        } else if !cur_is(st1, TokenKind::Equal) {
            Err(PErr::Unexpected(name))
        } else {
            let eq = st1.cur->0;
            match sp_next(text, st1) {
                Err(e) => Err(e),
                Ok((got2, st2)) => if !got2 {
                    Err(PErr::Expected("expression"@, st2.cursor))
                } else {
                    match sp_parse_expr(text, st2) {
                        Err(e) => Err(e),
                        Ok((v, st3)) => if cur_is(st3, TokenKind::Semicolon) {
                            Ok((SStmt::Assignment(name, eq, v, st3.cur->0), st3))
                        } else {
                            Err(PErr::Expected("\";\""@, st3.cursor))
                        },
                    }
                },
            }
        },
    }
}

/// The statement whose first token is current. Leaves its last token current.
pub open spec fn sp_parse_stmt(text: Seq<char>, st: PState) -> Result<(SStmt, PState), PErr>
    decreases text.len() - st.cursor.pos, 2int,
{
    match st.cur {
        None => Err(PErr::Expected("statement"@, st.cursor)),
        Some(first) => match first.kind {
            TokenKind::LCurly => sp_block(text, st, first, Seq::empty()),
            TokenKind::Keyword(KeywordType::If) => sp_if(text, st, first),
            TokenKind::Keyword(KeywordType::While) => sp_while(text, st, first),
            TokenKind::Keyword(KeywordType::Loop) => sp_loop(text, st, first),
            TokenKind::Keyword(KeywordType::Return) => sp_return(text, st, first),
            TokenKind::Keyword(KeywordType::Break) => sp_jump(text, st, first, false),
            TokenKind::Keyword(KeywordType::Continue) => sp_jump(text, st, first, true),
            TokenKind::Keyword(KeywordType::Let) => sp_let(text, st, first),
            TokenKind::Ident => sp_ident_stmt(text, st, first),
            _ => Err(PErr::Unexpected(first)),
        },
    }
}

/// The statements of a block up to its `}`, with `lcurly` opening it and the last
/// token read current.
pub open spec fn sp_block(text: Seq<char>, st: PState, lcurly: TokV, acc: Seq<SStmt>) -> Result<(SStmt, PState), PErr>
    decreases text.len() - st.cursor.pos, 1int,
{
    match sp_next(text, st) {
        Err(e) => Err(e),
        Ok((got, st1)) => if !got {
            Err(PErr::Expected("\"}\""@, st1.cursor))
        } else if cur_is(st1, TokenKind::RCurly) {
            Ok((SStmt::Block(lcurly, acc, st1.cur->0), st1))
        } else if !adv(text, st, st1) {
            Err(PErr::Expected("\"}\""@, st1.cursor))
        } else {
            match sp_parse_stmt(text, st1) {
                Err(e) => Err(e),
                Ok((s, st2)) => if adv(text, st, st2) {
                    sp_block(text, st2, lcurly, acc.push(s))
                } else {
                    Err(PErr::Expected("\"}\""@, st2.cursor))
                },
            }
        },
    }
}

/// `( cond )` after a keyword, the keyword current: the parentheses, the condition and
/// the state with `)` current.
pub open spec fn sp_condition(text: Seq<char>, st: PState) -> Result<(TokV, SExpr, TokV, PState), PErr> {
    match sp_next(text, st) {
        Err(e) => Err(e),
        Ok((got, st1)) => if !(got && cur_is(st1, TokenKind::LParan)) {
            Err(PErr::Expected("\"(\""@, st1.cursor))
        } else {
            match sp_next(text, st1) {
                Err(e) => Err(e),
                Ok((got2, st2)) => if !got2 {
                    Err(PErr::Expected("expr"@, st2.cursor))
                } else {
                    match sp_parse_expr(text, st2) {
                        Err(e) => Err(e),
                        Ok((c, st3)) => if cur_is(st3, TokenKind::RParan) {
                            Ok((st1.cur->0, c, st3.cur->0, st3))
                        } else {
                            Err(PErr::Expected("\")\""@, st3.cursor))
                        },
                    }
                },
            }
        },
    }
}

/// `if (cond) stmt` with an optional `else stmt`, the `if` current. Without an
/// `else`, the reader goes back to where it stood after the first branch.
pub open spec fn sp_if(text: Seq<char>, st: PState, kw: TokV) -> Result<(SStmt, PState), PErr>
    decreases text.len() - st.cursor.pos, 1int,
{
    match sp_condition(text, st) {
        Err(e) => Err(e),
        Ok((lp, c, rp, st1)) => match sp_next(text, st1) {
            Err(e) => Err(e),
            Ok((got, st2)) => if !got || !adv(text, st, st2) {
                Err(PErr::Expected("statement"@, st2.cursor))
            } else {
                match sp_parse_stmt(text, st2) {
                    Err(e) => Err(e),
                    Ok((then_s, st3)) => match sp_next(text, st3) {
                        Err(e) => Err(e),
                        Ok((got4, st4)) => if got4 && cur_is(st4, TokenKind::Keyword(KeywordType::Else)) {
                            match sp_next(text, st4) {
                                Err(e) => Err(e),
                                Ok((got5, st5)) => if !got5 || !adv(text, st, st5) {
                                    Err(PErr::Expected("statement"@, st5.cursor))
                                } else {
                                    match sp_parse_stmt(text, st5) {
                                        Err(e) => Err(e),
                                        Ok((else_s, st6)) => Ok((
                                            SStmt::If(kw, lp, c, rp, Box::new(then_s), st4.cur, Some(Box::new(else_s))),
                                            st6,
                                        )),
                                    }
                                },
                            }
                        } else {
                            Ok((
                                SStmt::If(kw, lp, c, rp, Box::new(then_s), None, None),
                                PState { cursor: st3.cursor, cur: st4.cur },
                            ))
                        },
                    },
                }
            },
        },
    }
}

/// `while (cond) stmt`, the `while` current.
pub open spec fn sp_while(text: Seq<char>, st: PState, kw: TokV) -> Result<(SStmt, PState), PErr>
    decreases text.len() - st.cursor.pos, 1int,
{
    match sp_condition(text, st) {
        Err(e) => Err(e),
        Ok((lp, c, rp, st1)) => match sp_next(text, st1) {
            Err(e) => Err(e),
            Ok((got, st2)) => if !got || !adv(text, st, st2) {
                Err(PErr::Expected("statement"@, st2.cursor))
            } else {
                match sp_parse_stmt(text, st2) {
                    Err(e) => Err(e),
                    Ok((body, st3)) => Ok((SStmt::While(kw, lp, c, rp, Box::new(body)), st3)),
                }
            },
        },
    }
}

/// `loop stmt`, the `loop` current.
pub open spec fn sp_loop(text: Seq<char>, st: PState, kw: TokV) -> Result<(SStmt, PState), PErr>
    decreases text.len() - st.cursor.pos, 1int,
{
    match sp_next(text, st) {
        Err(e) => Err(e),
        Ok((got, st1)) => if !got || !adv(text, st, st1) {
            Err(PErr::Expected("statement"@, st1.cursor))
        } else {
            match sp_parse_stmt(text, st1) {
                Err(e) => Err(e),
                Ok((body, st2)) => Ok((SStmt::Loop(kw, Box::new(body)), st2)),
            }
        },
    }
}

/// The statements of a program from the one whose first token is current, added to
/// `acc`, until the text ends.
pub open spec fn sp_program_items(text: Seq<char>, st: PState, acc: Seq<SStmt>) -> Result<Seq<SStmt>, PErr>
    decreases text.len() - st.cursor.pos,
{
    match sp_parse_stmt(text, st) {
        Err(e) => Err(e),
        Ok((s, st1)) => match sp_next(text, st1) {
            Err(e) => Err(e),
            Ok((got, st2)) => if !got {
                Ok(acc.push(s))
            } else if adv(text, st, st2) {
                sp_program_items(text, st2, acc.push(s))
            } else {
                Err(PErr::Expected("statement"@, st2.cursor))
            },
        },
    }
}

/// A whole program: at least one statement, then statements until the text ends.
pub open spec fn sp_program(text: Seq<char>, st: PState) -> Result<Seq<SStmt>, PErr> {
    match sp_next(text, st) {
        Err(e) => Err(e),
        Ok((got, st1)) => if !got {
            Err(PErr::Expected("statement"@, st1.cursor))
        } else {
            sp_program_items(text, st1, Seq::empty())
        },
    }
}


/// The message of an unexpected token.
pub open spec fn spec_unexpected_msg(t: TokV) -> Seq<char> {
    "Unexpected token: "@ + spec_token_kind_name(t.kind) + " (\""@ + t.data + "\")"@
}

/// `e` is the error the parser reports for `pe`, located in `source`, with no hint.
pub open spec fn spec_perr_is(source: SourceBuffer, pe: PErr, e: CompilerError) -> bool {
    let text = source.text();
    &&& e.hint is None
    &&& match pe {
        PErr::Lex(c, msg) => spec_lex_error(source, c, msg, e),
        PErr::Expected(name, c) => spec_error_is(
            e,
            CompilerErrorKind::Expected,
            "Expected : "@ + name,
            source.path_view(),
            spec_line_text(text, c.line as int),
            c.line as u32,
            c.collumn as u32,
        ),
        PErr::Unexpected(t) => spec_error_is(
            e,
            CompilerErrorKind::UnexpectedToken,
            spec_unexpected_msg(t),
            source.path_view(),
            spec_line_text(text, t.start.line as int),
            t.start.line as u32,
            t.start.collumn as u32,
        ),
        PErr::BadInt(t) => spec_error_is(
            e,
            CompilerErrorKind::BadToken,
            "cannot parse integer litteral"@,
            source.path_view(),
            spec_line_text(text, t.start.line as int),
            t.start.line as u32,
            t.start.collumn as u32,
        ),
    }
}

/// Reading a token from a valid cursor moves forward, at least one character when a
/// token was read, and leaves the current token as it was at the end of the text.
pub proof fn lemma_sp_next(text: Seq<char>, st: PState)
    requires
        cursor_ok(text.len(), st.cursor),
    ensures
        match sp_next(text, st) {
            Ok((got, st1)) => {
                &&& fwd(text, st, st1)
                &&& cursor_ok(text.len(), st1.cursor)
                &&& (got ==> adv(text, st, st1) && st1.cur is Some)
                &&& (!got ==> st1.cur == st.cur)
            },
            Err(_) => true,
        },
{
    reveal(sp_next);
    lemma_next_progress(text, st.cursor.pos as nat);
    let (step, np) = spec_next(text, st.cursor.pos as nat);
    lemma_advance(text, st.cursor, (np - st.cursor.pos) as nat);
}

pub open spec fn opt_unary_view(u: Option<UnaryOp>) -> Option<(TokV, UnaryOpKind)> {
    match u {
        Some(op) => Some((op.token@, op.kind)),
        None => None,
    }
}

/// The text of line `line` of `source`, empty when there is no such line.
fn line_text(source: &SourceBuffer, line: usize) -> (r: String)
    ensures
        r@ == spec_line_text(source.text(), line as int),
{
    if line >= 1 {
        match source.get_line(line) {
            Some(l) => l,
            None => String::new(),
        }
    } else {
        String::new()
    }
}

fn binop_of(k: TokenKind) -> (r: Option<BinOpKind>)
    ensures
        r == binop_kind(k),
{
    match k {
        TokenKind::Plus => Some(BinOpKind::Add),
        TokenKind::Minus => Some(BinOpKind::Sub),
        TokenKind::Times => Some(BinOpKind::Mul),
        TokenKind::Divider => Some(BinOpKind::Div),
        TokenKind::DoubleEqual => Some(BinOpKind::Equal),
        TokenKind::NotEqual => Some(BinOpKind::NotEqual),
        TokenKind::Greater => Some(BinOpKind::Greater),
        TokenKind::GreaterEqual => Some(BinOpKind::GreaterEqual),
        TokenKind::LesserEqual => Some(BinOpKind::LesserEqual),
        TokenKind::Lesser => Some(BinOpKind::Lesser),
        TokenKind::LShift => Some(BinOpKind::LShift),
        TokenKind::RShift => Some(BinOpKind::RShift),
        _ => None,
    }
}

/// Builds the syntax tree of a program from the tokens of its lexer, one token ahead.
pub struct AstBuilder<'a> {
    lexer: Lexer<'a>,
    current: Option<Token>,
}

/// `b` reads the same source as `a`.
pub open spec fn keeps(a: AstBuilder, b: AstBuilder) -> bool {
    &&& b.text() == a.text()
    &&& b.source_view() == a.source_view()
}

impl<'a> AstBuilder<'a> {
    /// The text being parsed.
    pub closed spec fn text(&self) -> Seq<char> {
        self.lexer.reader.text()
    }

    /// The buffer being parsed.
    pub closed spec fn source_view(&self) -> SourceBuffer {
        self.lexer.reader.source_view()
    }

    /// The reader's cursor and the current token.
    pub closed spec fn state(&self) -> PState {
        PState { cursor: self.lexer.reader.cursor(), cur: opt_tok_view(self.current) }
    }

    /// A builder over `lexer`, with no current token yet.
    pub fn from(lexer: Lexer<'a>) -> (r: Self)
        ensures
            r.text() == lexer.reader.text(),
            r.source_view() == lexer.reader.source_view(),
            r.state() == (PState { cursor: lexer.reader.cursor(), cur: None }),
    {
        let _ = lexer.reader.source();
        AstBuilder { lexer, current: None }
    }

    /// The current token.
    pub fn peek_token(&self) -> (r: &Option<Token>)
        ensures
            opt_tok_view(*r) == self.state().cur,
    {
        &self.current
    }

    /// The error "Expected : `name`" at the reader's cursor.
    pub fn expected(&self, name: &str) -> (e: CompilerError)
        ensures
            spec_perr_is(self.source_view(), PErr::Expected(name@, self.state().cursor), e),
    {
        let c = self.lexer.reader.get_cursor();
        let source = self.lexer.reader.source();
        let mut message = "Expected : ".to_owned();
        push_str(&mut message, name);
        let line = line_text(source, c.line);
        CompilerError::new(
            CompilerErrorKind::Expected,
            message.as_str(),
            source.path().as_str(),
            line.as_str(),
            c.line as u32,
            c.collumn as u32,
            None,
        )
    }

    /// The error that `token` cannot stand where it stands.
    pub fn unexpected(&self, token: &Token) -> (e: CompilerError)
        ensures
            spec_perr_is(self.source_view(), PErr::Unexpected(token@), e),
    {
        let source = self.lexer.reader.source();
        let mut message = "Unexpected token: ".to_owned();
        push_str(&mut message, token.kind.to_str());
        push_str(&mut message, " (\"");
        push_str(&mut message, token.span.data.as_str());
        push_str(&mut message, "\")");
        let line = line_text(source, token.span.start.line);
        CompilerError::new(
            CompilerErrorKind::UnexpectedToken,
            message.as_str(),
            source.path().as_str(),
            line.as_str(),
            token.span.start.line as u32,
            token.span.start.collumn as u32,
            None,
        )
    }

    /// The error that the integer literal `token` does not fit.
    fn bad_int(&self, token: &Token) -> (e: CompilerError)
        ensures
            spec_perr_is(self.source_view(), PErr::BadInt(token@), e),
    {
        let source = self.lexer.reader.source();
        let line = line_text(source, token.span.start.line);
        CompilerError::new(
            CompilerErrorKind::BadToken,
            "cannot parse integer litteral",
            source.path().as_str(),
            line.as_str(),
            token.span.start.line as u32,
            token.span.start.collumn as u32,
            None,
        )
    }

    /// Reads the next token and makes it current; at the end of the text, or where the
    /// token cannot be read, the current token stays and `None` or the error is returned.
    pub fn next_token(&mut self) -> (r: Result<Option<Token>, CompilerError>)
        ensures
            keeps(*old(self), *final(self)),
            match sp_next(old(self).text(), old(self).state()) {
                Ok((got, st1)) => {
                    &&& final(self).state() == st1
                    &&& fwd(old(self).text(), old(self).state(), st1)
                    &&& (got ==> adv(old(self).text(), old(self).state(), st1) && (r matches Ok(Some(t)) && st1.cur == Some(t@)))
                    &&& (!got ==> (r matches Ok(None)) && st1.cur == old(self).state().cur)
                },
                Err(pe) => {
                    &&& r matches Err(e) && spec_perr_is(old(self).source_view(), pe, e)
                    &&& final(self).state().cur == old(self).state().cur
                },
            },
    {
        let ghost text = self.lexer.reader.text();
        let ghost st = self.state();
        let c0 = self.lexer.reader.get_cursor();
        let _ = self.lexer.reader.source();
        proof {
            lemma_sp_next(text, st);
            reveal(sp_next);
        }
        match self.lexer.next_token() {
            None => Ok(None),
            Some(Ok(t)) => {
                let copy = t.duplicate();
                self.current = Some(t);
                Ok(Some(copy))
            },
            Some(Err(e)) => Err(e),
        }
    }
}


impl<'a> AstBuilder<'a> {
    /// An expression, starting at the current token; leaves the token after it current.
    pub fn parse_expr(&mut self) -> (r: Result<Expr, CompilerError>)
        requires
            old(self).state().cur is Some,
        ensures
            keeps(*old(self), *final(self)),
            match sp_parse_expr(old(self).text(), old(self).state()) {
                Ok((e, st)) => r matches Ok(x) && expr_view(x) == e && final(self).state() == st,
                Err(pe) => r matches Err(err) && spec_perr_is(old(self).source_view(), pe, err),
            },
            r is Ok ==> fwd(old(self).text(), old(self).state(), final(self).state()),
        decreases old(self).text().len() - old(self).state().cursor.pos, 3int,
    {
        let unary: Option<UnaryOp> = match &self.current {
            None => {
                return Err(self.expected("expression"));
            },
            Some(tok) => match tok.kind {
                TokenKind::Plus => Some(UnaryOp { token: tok.duplicate(), kind: UnaryOpKind::Plus }),
                TokenKind::Minus => Some(UnaryOp { token: tok.duplicate(), kind: UnaryOpKind::Minus }),
                _ => None,
            },
        };
        match unary {
            Some(op) => match self.next_token() {
                Err(e) => Err(e),
                Ok(None) => Err(self.expected("expression")),
                Ok(Some(_)) => self.parse_primary(Some(op)),
            },
            None => self.parse_primary(None),
        }
    }

    /// The primary expression at the current token, then what follows it.
    fn parse_primary(&mut self, unary: Option<UnaryOp>) -> (r: Result<Expr, CompilerError>)
        ensures
            keeps(*old(self), *final(self)),
            match sp_parse_primary(old(self).text(), old(self).state(), opt_unary_view(unary)) {
                Ok((e, st)) => r matches Ok(x) && expr_view(x) == e && final(self).state() == st,
                Err(pe) => r matches Err(err) && spec_perr_is(old(self).source_view(), pe, err),
            },
            r is Ok ==> fwd(old(self).text(), old(self).state(), final(self).state()),
        decreases old(self).text().len() - old(self).state().cursor.pos, 2int,
    {
        let tok = match &self.current {
            None => {
                return Err(self.expected("expression"));
            },
            Some(t) => t.duplicate(),
        };
        if tok.kind == TokenKind::Int {
            match parse_i128(tok.as_str()) {
                None => Err(self.bad_int(&tok)),
                Some(v) => match self.next_token() {
                    Err(e) => Err(e),
                    Ok(_) => self.after_primary(PrimaryExpr::IntLit(v), unary),
                },
            }
        } else if tok.kind == TokenKind::LParan {
            match self.next_token() {
                Err(e) => Err(e),
                Ok(None) => Err(self.expected("expr")),
                Ok(Some(_)) => match self.parse_expr() {
                    Err(e) => Err(e),
                    Ok(inner) => {
                        let rp = match &self.current {
                            Some(t) => if t.kind == TokenKind::RParan {
                                t.duplicate()
                            } else {
                                return Err(self.expected("\")\""));
                            },
                            None => {
                                return Err(self.expected("\")\""));
                            },
                        };
                        match self.next_token() {
                            Err(e) => Err(e),
                            Ok(_) => {
                                let p = PrimaryExpr::Paren(ParenExpr { lparen: tok, expr: Box::new(inner), rparen: rp });
                                self.after_primary(p, unary)
                            },
                        }
                    },
                },
            }
        } else if tok.kind == TokenKind::Ident {
            match self.next_token() {
                Err(e) => Err(e),
                Ok(got) => {
                    let is_call = match &got {
                        Some(t) => t.kind == TokenKind::LParan,
                        None => false,
                    };
                    if is_call {
                        match self.call_after(tok) {
                            Err(e) => Err(e),
                            Ok(c) => match self.next_token() {
                                Err(e) => Err(e),
                                Ok(_) => self.after_primary(PrimaryExpr::Call(c), unary),
                            },
                        }
                    } else {
                        self.after_primary(PrimaryExpr::Ident(tok), unary)
                    }
                },
            }
        } else {
            Err(self.unexpected(&tok))
        }
    }

    /// After a primary expression, with the token that follows it current.
    fn after_primary(&mut self, prim: PrimaryExpr, unary: Option<UnaryOp>) -> (r: Result<Expr, CompilerError>)
        ensures
            keeps(*old(self), *final(self)),
            match sp_after_primary(old(self).text(), old(self).state(), prim_view(prim), opt_unary_view(unary)) {
                Ok((e, st)) => r matches Ok(x) && expr_view(x) == e && final(self).state() == st,
                Err(pe) => r matches Err(err) && spec_perr_is(old(self).source_view(), pe, err),
            },
            r is Ok ==> fwd(old(self).text(), old(self).state(), final(self).state()),
        decreases old(self).text().len() - old(self).state().cursor.pos, 1int,
    {
        let expr = match unary {
            Some(op) => Expr::UnaryExpr(UnaryExpr { primary: prim, op }),
            None => Expr::PrimaryExpr(prim),
        };
        let _ = self.lexer.reader.get_cursor();
        let optok = match &self.current {
            None => {
                return Ok(expr);
            },
            Some(t) => t.duplicate(),
        };
        let bk = match binop_of(optok.kind) {
            None => {
                return Ok(expr);
            },
            Some(k) => k,
        };
        match self.next_token() {
            Err(e) => Err(e),
            Ok(None) => Err(self.expected("expr")),
            Ok(Some(_)) => match self.parse_expr() {
                Err(e) => Err(e),
                Ok(rhs) => {
                    let ghost ev = expr_view(expr);
                    let b = Expr::BinExpr(BinExpr { left: Box::new(expr), right: Box::new(rhs), op: BinOp { token: optok, kind: bk } });
                    proof {
                        assert(ev == match opt_unary_view(unary) {
                            Some((t, k)) => SExpr::Unary(prim_view(prim), t, k),
                            None => SExpr::Prim(prim_view(prim)),
                        });
                        assert(expr_view(b) == SExpr::Bin(Box::new(ev), Box::new(expr_view(rhs)), optok@, bk));
                    }
                    Ok(apply_precedence(b))
                },
            },
        }
    }

    /// The arguments of a call named `name`, its `(` current; leaves the `)` current.
    fn call_after(&mut self, name: Token) -> (r: Result<Call, CompilerError>)
        requires
            old(self).state().cur is Some,
        ensures
            keeps(*old(self), *final(self)),
            match sp_call_after(old(self).text(), old(self).state(), name@) {
                Ok((c, st)) => r matches Ok(x) && call_view(x) == c && final(self).state() == st,
                Err(pe) => r matches Err(err) && spec_perr_is(old(self).source_view(), pe, err),
            },
            r is Ok ==> fwd(old(self).text(), old(self).state(), final(self).state()),
        decreases old(self).text().len() - old(self).state().cursor.pos, 1int,
    {
        let lparen = match &self.current {
            Some(t) => t.duplicate(),
            None => {
                return Err(self.expected("\"(\""));
            },
        };
        match self.next_token() {
            Err(e) => Err(e),
            Ok(None) => Err(self.expected("\")\"")),
            Ok(Some(t1)) => {
                if t1.kind == TokenKind::RParan {
                    let r = Call { name, lparen, first_arg: None, other_args: Vec::new(), rparen: t1 };
                    proof {
                        assert(r.other_args@ == Seq::<(Token, Expr)>::empty());
                    }
                    Ok(r)
                } else {
                    match self.parse_expr() {
                        Err(e) => Err(e),
                        Ok(first) => {
                            let empty: Vec<(Token, Expr)> = Vec::new();
                            proof {
                                assert(args_view(empty@) == Seq::<(TokV, SExpr)>::empty());
                            }
                            match self.args(empty) {
                                Err(e) => Err(e),
                                Ok((args, rparen)) => Ok(Call { name, lparen, first_arg: Some(Box::new(first)), other_args: args, rparen }),
                            }
                        },
                    }
                }
            },
        }
    }

    /// The further arguments of a call, each after a comma, added to `acc`; leaves the
    /// `)` current and returns it.
    fn args(&mut self, acc: Vec<(Token, Expr)>) -> (r: Result<(Vec<(Token, Expr)>, Token), CompilerError>)
        ensures
            keeps(*old(self), *final(self)),
            match sp_args(old(self).text(), old(self).state(), args_view(acc@)) {
                Ok((a, rp, st)) => r matches Ok(x) && args_view(x.0@) == a && x.1@ == rp && final(self).state() == st,
                Err(pe) => r matches Err(err) && spec_perr_is(old(self).source_view(), pe, err),
            },
            r is Ok ==> fwd(old(self).text(), old(self).state(), final(self).state()),
        decreases old(self).text().len() - old(self).state().cursor.pos, 0int,
    {
        let t = match &self.current {
            None => {
                return Err(self.expected("\")\""));
            },
            Some(t) => t.duplicate(),
        };
        let _ = self.lexer.reader.get_cursor();
        if t.kind == TokenKind::RParan {
            return Ok((acc, t));
        }
        if t.kind != TokenKind::Comma {
            return Err(self.expected("\",\""));
        }
        match self.next_token() {
            Err(e) => Err(e),
            Ok(None) => Err(self.unexpected(&t)),
            Ok(Some(_)) => match self.parse_expr() {
                Err(e) => Err(e),
                Ok(arg) => {
                    let mut acc = acc;
                    let ghost before = acc@;
                    acc.push((t, arg));
                    proof {
                        assert(acc@.drop_last() == before);
                    }
                    self.args(acc)
                },
            },
        }
    }

    /// A call: reads its name, then `(`, then the arguments up to the `)`, which is
    /// left current.
    pub fn parse_call(&mut self) -> (r: Result<Call, CompilerError>)
        requires
            !(sp_next(old(self).text(), old(self).state()) matches Ok((false, _))),
        ensures
            keeps(*old(self), *final(self)),
            match sp_parse_call(old(self).text(), old(self).state()) {
                Ok((c, st)) => r matches Ok(x) && call_view(x) == c && final(self).state() == st,
                Err(pe) => r matches Err(err) && spec_perr_is(old(self).source_view(), pe, err),
            },
    {
        let name = match self.next_token() {
            Err(e) => {
                return Err(e);
            },
            Ok(None) => {
                return Err(self.expected("identifier"));
            },
            Ok(Some(t)) => t,
        };
        match self.next_token() {
            Err(e) => Err(e),
            Ok(None) => Err(self.expected("\"(\"")),
            Ok(Some(t)) => if t.kind == TokenKind::LParan {
                self.call_after(name)
            } else {
                Err(self.expected("\"(\""))
            },
        }
    }
}


impl<'a> AstBuilder<'a> {
    /// `return value;`, the `return` current.
    fn return_stmt(&mut self, kw: Token) -> (r: Result<Statement, CompilerError>)
        ensures
            keeps(*old(self), *final(self)),
            match sp_return(old(self).text(), old(self).state(), kw@) {
                Ok((s, st)) => r matches Ok(x) && stmt_view(x) == s && final(self).state() == st,
                Err(pe) => r matches Err(err) && spec_perr_is(old(self).source_view(), pe, err),
            },
            r is Ok ==> fwd(old(self).text(), old(self).state(), final(self).state()),
    {
        match self.next_token() {
            Err(e) => Err(e),
            Ok(None) => Err(self.expected("expr")),
            Ok(Some(_)) => match self.parse_expr() {
                Err(e) => Err(e),
                Ok(value) => {
                    let semi = match &self.current {
                        Some(t) => if t.kind == TokenKind::Semicolon {
                            t.duplicate()
                        } else {
                            return Err(self.expected("\";\""));
                        },
                        None => {
                            return Err(self.expected("\";\""));
                        },
                    };
                    Ok(Statement::Return(Return { return_kw: kw, value, semicolon: semi }))
                },
            },
        }
    }

    /// `break;` or `continue;`, the keyword current.
    fn jump_stmt(&mut self, kw: Token, is_continue: bool) -> (r: Result<Statement, CompilerError>)
        ensures
            keeps(*old(self), *final(self)),
            match sp_jump(old(self).text(), old(self).state(), kw@, is_continue) {
                Ok((s, st)) => r matches Ok(x) && stmt_view(x) == s && final(self).state() == st,
                Err(pe) => r matches Err(err) && spec_perr_is(old(self).source_view(), pe, err),
            },
            r is Ok ==> fwd(old(self).text(), old(self).state(), final(self).state()),
    {
        match self.next_token() {
            Err(e) => Err(e),
            Ok(None) => Err(self.expected("\";\"")),
            Ok(Some(t)) => if t.kind == TokenKind::Semicolon {
                if is_continue {
                    Ok(Statement::Continue(Continue { continue_kw: kw, semicolon: t }))
                } else {
                    Ok(Statement::Break(Break { break_kw: kw, semicolon: t }))
                }
            } else {
                Err(self.expected("\";\""))
            },
        }
    }

    /// The `: type` part of a declaration, the token after the name current.
    fn let_type(&mut self) -> (r: Result<(Option<Token>, Option<Token>), CompilerError>)
        ensures
            keeps(*old(self), *final(self)),
            match sp_let_type(old(self).text(), old(self).state()) {
                Ok((c, t, st)) => r matches Ok(x) && opt_tok_view(x.0) == c && opt_tok_view(x.1) == t && final(self).state() == st,
                Err(pe) => r matches Err(err) && spec_perr_is(old(self).source_view(), pe, err),
            },
            r is Ok ==> fwd(old(self).text(), old(self).state(), final(self).state()),
    {
        let _ = self.lexer.reader.get_cursor();
        let colon = match &self.current {
            Some(t) => if t.kind == TokenKind::Colon {
                t.duplicate()
            } else {
                return Ok((None, None));
            },
            None => {
                return Ok((None, None));
            },
        };
        match self.next_token() {
            Err(e) => Err(e),
            Ok(got) => {
                let bad = match &got {
                    Some(t) => t.kind != TokenKind::Ident,
                    None => false,
                };
                if bad {
                    return Err(self.expected("identifier"));
                }
                let ty = match &self.current {
                    Some(t) => Some(t.duplicate()),
                    None => None,
                };
                match self.next_token() {
                    Err(e) => Err(e),
                    Ok(_) => Ok((Some(colon), ty)),
                }
            },
        }
    }

    /// The `= value` part of a declaration, the token after the name or type current.
    fn let_value(&mut self) -> (r: Result<(Option<Token>, Option<Expr>), CompilerError>)
        ensures
            keeps(*old(self), *final(self)),
            match sp_let_value(old(self).text(), old(self).state()) {
                Ok((q, v, st)) => r matches Ok(x) && opt_tok_view(x.0) == q && opt_expr_view(x.1) == v && final(self).state() == st,
                Err(pe) => r matches Err(err) && spec_perr_is(old(self).source_view(), pe, err),
            },
            r is Ok ==> fwd(old(self).text(), old(self).state(), final(self).state()),
    {
        let _ = self.lexer.reader.get_cursor();
        let eq = match &self.current {
            Some(t) => if t.kind == TokenKind::Equal {
                t.duplicate()
            } else {
                return Ok((None, None));
            },
            None => {
                return Ok((None, None));
            },
        };
        match self.next_token() {
            Err(e) => Err(e),
            Ok(None) => Err(self.expected("expression")),
            Ok(Some(_)) => match self.parse_expr() {
                Err(e) => Err(e),
                Ok(v) => Ok((Some(eq), Some(v))),
            },
        }
    }

    /// `let name : type = value;`, the `let` current.
    fn let_stmt(&mut self, kw: Token) -> (r: Result<Statement, CompilerError>)
        ensures
            keeps(*old(self), *final(self)),
            match sp_let(old(self).text(), old(self).state(), kw@) {
                Ok((s, st)) => r matches Ok(x) && stmt_view(x) == s && final(self).state() == st,
                Err(pe) => r matches Err(err) && spec_perr_is(old(self).source_view(), pe, err),
            },
            r is Ok ==> fwd(old(self).text(), old(self).state(), final(self).state()),
    {
        let name = match self.next_token() {
            Err(e) => {
                return Err(e);
            },
            Ok(None) => {
                return Err(self.expected("identifier"));
            },
            Ok(Some(t)) => if t.kind == TokenKind::Ident {
                t
            } else {
                return Err(self.expected("identifier"));
            },
        };
        match self.next_token() {
            Err(e) => {
                return Err(e);
            },
            Ok(_) => {},
        }
        let (colon_token, var_type) = match self.let_type() {
            Err(e) => {
                return Err(e);
            },
            Ok(x) => x,
        };
        let (eq_token, value) = match self.let_value() {
            Err(e) => {
                return Err(e);
            },
            Ok(x) => x,
        };
        let semi = match &self.current {
            Some(t) => if t.kind == TokenKind::Semicolon {
                t.duplicate()
            } else {
                return Err(self.expected("\";\""));
            },
            None => {
                return Err(self.expected("\";\""));
            },
        };
        Ok(Statement::VarDecl(VarDecl { let_kw: kw, name, colon_token, var_type, eq_token, value, semicolon: semi }))
    }

    /// A statement that starts with the name `name`, the name current: a call or an
    /// assignment.
    fn ident_stmt(&mut self, name: Token) -> (r: Result<Statement, CompilerError>)
        ensures
            keeps(*old(self), *final(self)),
            match sp_ident_stmt(old(self).text(), old(self).state(), name@) {
                Ok((s, st)) => r matches Ok(x) && stmt_view(x) == s && final(self).state() == st,
                Err(pe) => r matches Err(err) && spec_perr_is(old(self).source_view(), pe, err),
            },
            r is Ok ==> fwd(old(self).text(), old(self).state(), final(self).state()),
    {
        let got = match self.next_token() {
            Err(e) => {
                return Err(e);
            },
            Ok(g) => g,
        };
        let is_call = match &got {
            Some(t) => t.kind == TokenKind::LParan,
            None => false,
        };
        if is_call {
            let c = match self.call_after(name) {
                Err(e) => {
                    return Err(e);
                },
                Ok(c) => c,
            };
            match self.next_token() {
                Err(e) => Err(e),
                Ok(None) => Err(self.expected("\";\"")),
                Ok(Some(t)) => if t.kind == TokenKind::Semicolon {
                    let ghost cv = call_view(c);
                    let x = Statement::Expr(ExprStmt { expr: Box::new(Expr::PrimaryExpr(PrimaryExpr::Call(c))), semicolon: t });
                    proof {
                        assert(prim_view(PrimaryExpr::Call(c)) == SPrim::Call(cv));
                        assert(expr_view(Expr::PrimaryExpr(PrimaryExpr::Call(c))) == SExpr::Prim(SPrim::Call(cv)));
                        assert(stmt_view(x) == SStmt::Expr(SExpr::Prim(SPrim::Call(cv)), t@));
                    }
                    Ok(x)
                } else {
                    Err(self.expected("\";\""))
                },
            }
        } else {
            let eq = match &self.current {
                Some(t) => if t.kind == TokenKind::Equal {
                    t.duplicate()
                } else {
                    return Err(self.unexpected(&name));
                },
                None => {
                    return Err(self.unexpected(&name));
                },
            };
            match self.next_token() {
                Err(e) => Err(e),
                Ok(None) => Err(self.expected("expression")),
                Ok(Some(_)) => match self.parse_expr() {
                    Err(e) => Err(e),
                    Ok(v) => {
                        let semi = match &self.current {
                            Some(t) => if t.kind == TokenKind::Semicolon {
                                t.duplicate()
                            } else {
                                return Err(self.expected("\";\""));
                            },
                            None => {
                                return Err(self.expected("\";\""));
                            },
                        };
                        Ok(Statement::Assignment(Assignment { name, eq_token: eq, value: Box::new(v), semicolon: semi }))
                    },
                },
            }
        }
    }

    /// `( cond )` after `if` or `while`, the keyword current; leaves the `)` current.
    fn condition(&mut self) -> (r: Result<(Token, Expr, Token), CompilerError>)
        ensures
            keeps(*old(self), *final(self)),
            match sp_condition(old(self).text(), old(self).state()) {
                Ok((lp, c, rp, st)) => r matches Ok(x) && x.0@ == lp && expr_view(x.1) == c && x.2@ == rp && final(self).state() == st,
                Err(pe) => r matches Err(err) && spec_perr_is(old(self).source_view(), pe, err),
            },
            r is Ok ==> fwd(old(self).text(), old(self).state(), final(self).state()),
    {
        let lp = match self.next_token() {
            Err(e) => {
                return Err(e);
            },
            Ok(None) => {
                return Err(self.expected("\"(\""));
            },
            Ok(Some(t)) => if t.kind == TokenKind::LParan {
                t
            } else {
                return Err(self.expected("\"(\""));
            },
        };
        match self.next_token() {
            Err(e) => Err(e),
            Ok(None) => Err(self.expected("expr")),
            Ok(Some(_)) => match self.parse_expr() {
                Err(e) => Err(e),
                Ok(c) => {
                    let rp = match &self.current {
                        Some(t) => if t.kind == TokenKind::RParan {
                            t.duplicate()
                        } else {
                            return Err(self.expected("\")\""));
                        },
                        None => {
                            return Err(self.expected("\")\""));
                        },
                    };
                    Ok((lp, c, rp))
                },
            },
        }
    }
}


impl<'a> AstBuilder<'a> {
    /// The statement whose first token is current; leaves its last token current.
    pub fn parse_statment(&mut self) -> (r: Result<Statement, CompilerError>)
        requires
            old(self).state().cur is Some,
        ensures
            keeps(*old(self), *final(self)),
            match sp_parse_stmt(old(self).text(), old(self).state()) {
                Ok((s, st)) => r matches Ok(x) && stmt_view(x) == s && final(self).state() == st,
                Err(pe) => r matches Err(err) && spec_perr_is(old(self).source_view(), pe, err),
            },
            r is Ok ==> fwd(old(self).text(), old(self).state(), final(self).state()),
        decreases old(self).text().len() - old(self).state().cursor.pos, 2int,
    {
        let first = match &self.current {
            Some(t) => t.duplicate(),
            None => {
                return Err(self.expected("statement"));
            },
        };
        match first.kind {
            TokenKind::LCurly => {
                let empty: Vec<Statement> = Vec::new();
                proof {
                    assert(stmts_view(empty@) == Seq::<SStmt>::empty());
                }
                self.block_items(first, empty)
            },
            TokenKind::Keyword(KeywordType::If) => self.if_stmt(first),
            TokenKind::Keyword(KeywordType::While) => self.while_stmt(first),
            TokenKind::Keyword(KeywordType::Loop) => self.loop_stmt(first),
            TokenKind::Keyword(KeywordType::Return) => self.return_stmt(first),
            TokenKind::Keyword(KeywordType::Break) => self.jump_stmt(first, false),
            TokenKind::Keyword(KeywordType::Continue) => self.jump_stmt(first, true),
            TokenKind::Keyword(KeywordType::Let) => self.let_stmt(first),
            TokenKind::Ident => self.ident_stmt(first),
            _ => Err(self.unexpected(&first)),
        }
    }

    /// The statements of a block opened by `lcurly`, added to `acc`, up to its `}`,
    /// which is left current.
    fn block_items(&mut self, lcurly: Token, acc: Vec<Statement>) -> (r: Result<Statement, CompilerError>)
        ensures
            keeps(*old(self), *final(self)),
            match sp_block(old(self).text(), old(self).state(), lcurly@, stmts_view(acc@)) {
                Ok((s, st)) => r matches Ok(x) && stmt_view(x) == s && final(self).state() == st,
                Err(pe) => r matches Err(err) && spec_perr_is(old(self).source_view(), pe, err),
            },
            r is Ok ==> fwd(old(self).text(), old(self).state(), final(self).state()),
        decreases old(self).text().len() - old(self).state().cursor.pos, 1int,
    {
        match self.next_token() {
            Err(e) => Err(e),
            Ok(None) => Err(self.expected("\"}\"")),
            Ok(Some(t)) => if t.kind == TokenKind::RCurly {
                Ok(Statement::Block(Block { lcurly, body: acc, rcurly: t }))
            } else {
                match self.parse_statment() {
                    Err(e) => Err(e),
                    Ok(s) => {
                        let mut acc = acc;
                        let ghost before = acc@;
                        acc.push(s);
                        proof {
                            assert(acc@.drop_last() == before);
                        }
                        self.block_items(lcurly, acc)
                    },
                }
            },
        }
    }

    /// `if (cond) stmt` with an optional `else stmt`, the `if` current.
    fn if_stmt(&mut self, kw: Token) -> (r: Result<Statement, CompilerError>)
        ensures
            keeps(*old(self), *final(self)),
            match sp_if(old(self).text(), old(self).state(), kw@) {
                Ok((s, st)) => r matches Ok(x) && stmt_view(x) == s && final(self).state() == st,
                Err(pe) => r matches Err(err) && spec_perr_is(old(self).source_view(), pe, err),
            },
            r is Ok ==> fwd(old(self).text(), old(self).state(), final(self).state()),
        decreases old(self).text().len() - old(self).state().cursor.pos, 1int,
    {
        let (lparen, cond, rparen) = match self.condition() {
            Err(e) => {
                return Err(e);
            },
            Ok(x) => x,
        };
        match self.next_token() {
            Err(e) => {
                return Err(e);
            },
            Ok(None) => {
                return Err(self.expected("statement"));
            },
            Ok(Some(_)) => {},
        }
        let then_s = match self.parse_statment() {
            Err(e) => {
                return Err(e);
            },
            Ok(s) => s,
        };
        let saved = self.lexer.reader.get_cursor();
        let after = match self.next_token() {
            Err(e) => {
                return Err(e);
            },
            Ok(t) => t,
        };
        let is_else = match &after {
            Some(t) => t.kind == TokenKind::Keyword(KeywordType::Else),
            None => false,
        };
        if is_else {
            match self.next_token() {
                Err(e) => Err(e),
                Ok(None) => Err(self.expected("statement")),
                Ok(Some(_)) => match self.parse_statment() {
                    Err(e) => Err(e),
                    Ok(else_s) => Ok(Statement::If(If {
                        if_kw: kw,
                        lparen,
                        cond,
                        rparen,
                        then_branch: Box::new(then_s),
                        else_kw: after,
                        _else: Some(Box::new(else_s)),
                    })),
                },
            }
        } else {
            self.lexer.reader.goto(saved);
            Ok(Statement::If(If {
                if_kw: kw,
                lparen,
                cond,
                rparen,
                then_branch: Box::new(then_s),
                else_kw: None,
                _else: None,
            }))
        }
    }

    /// `while (cond) stmt`, the `while` current.
    fn while_stmt(&mut self, kw: Token) -> (r: Result<Statement, CompilerError>)
        ensures
            keeps(*old(self), *final(self)),
            match sp_while(old(self).text(), old(self).state(), kw@) {
                Ok((s, st)) => r matches Ok(x) && stmt_view(x) == s && final(self).state() == st,
                Err(pe) => r matches Err(err) && spec_perr_is(old(self).source_view(), pe, err),
            },
            r is Ok ==> fwd(old(self).text(), old(self).state(), final(self).state()),
        decreases old(self).text().len() - old(self).state().cursor.pos, 1int,
    {
        let (lparen, cond, rparen) = match self.condition() {
            Err(e) => {
                return Err(e);
            },
            Ok(x) => x,
        };
        match self.next_token() {
            Err(e) => Err(e),
            Ok(None) => Err(self.expected("statement")),
            Ok(Some(_)) => match self.parse_statment() {
                Err(e) => Err(e),
                Ok(body) => Ok(Statement::While(While { while_kw: kw, lparen, cond, rparen, body: Box::new(body) })),
            },
        }
    }

    /// `loop stmt`, the `loop` current.
    fn loop_stmt(&mut self, kw: Token) -> (r: Result<Statement, CompilerError>)
        ensures
            keeps(*old(self), *final(self)),
            match sp_loop(old(self).text(), old(self).state(), kw@) {
                Ok((s, st)) => r matches Ok(x) && stmt_view(x) == s && final(self).state() == st,
                Err(pe) => r matches Err(err) && spec_perr_is(old(self).source_view(), pe, err),
            },
            r is Ok ==> fwd(old(self).text(), old(self).state(), final(self).state()),
        decreases old(self).text().len() - old(self).state().cursor.pos, 1int,
    {
        match self.next_token() {
            Err(e) => Err(e),
            Ok(None) => Err(self.expected("statement")),
            Ok(Some(_)) => match self.parse_statment() {
                Err(e) => Err(e),
                Ok(body) => Ok(Statement::Loop(Loop { loop_kw: kw, body: Box::new(body) })),
            },
        }
    }

    /// A whole program: statements until the end of the text, at least one.
    pub fn parse_program(&mut self) -> (r: Result<Program, CompilerError>)
        ensures
            keeps(*old(self), *final(self)),
            match sp_program(old(self).text(), old(self).state()) {
                Ok(ss) => r matches Ok(p) && stmts_view(p.0@) == ss,
                Err(pe) => r matches Err(err) && spec_perr_is(old(self).source_view(), pe, err),
            },
    {
        let ghost text = self.text();
        let ghost st0 = self.state();
        match self.next_token() {
            Err(e) => {
                return Err(e);
            },
            Ok(None) => {
                return Err(self.expected("statement"));
            },
            Ok(Some(_)) => {},
        }
        let ghost st1 = self.state();
        let mut stmts: Vec<Statement> = Vec::new();
        proof {
            assert(stmts_view(stmts@) == Seq::<SStmt>::empty());
        }
        loop
            invariant
                keeps(*old(self), *self),
                self.text() == text,
                text == old(self).text(),
                st0 == old(self).state(),
                self.state().cur is Some,
                self.state().cursor.pos <= text.len(),
                sp_program(text, st0) == sp_program_items(text, self.state(), stmts_view(stmts@)),
            decreases text.len() - self.state().cursor.pos,
        {
            let ghost st = self.state();
            let s = match self.parse_statment() {
                Err(e) => {
                    return Err(e);
                },
                Ok(s) => s,
            };
            let ghost before = stmts@;
            let got = match self.next_token() {
                Err(e) => {
                    return Err(e);
                },
                Ok(g) => g,
            };
            stmts.push(s);
            proof {
                assert(stmts@.drop_last() == before);
            }
            match got {
                None => {
                    return Ok(Program(stmts));
                },
                Some(_) => {},
            }
        }
    }
}

} // verus!
