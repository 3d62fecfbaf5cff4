use jolang::ast::{BinOpKind, Expr, PrimaryExpr, Program, Statement, UnaryOpKind};
use jolang::builder::AstBuilder;
use jolang::compiler_error::{CompilerError, CompilerErrorKind};
use jolang::lexer::{KeywordType, Lexer, Token, TokenKind};
use jolang::source::SourceBuffer;

fn buffer(text: &str) -> SourceBuffer {
    SourceBuffer::new(String::from("test.jol"), String::from(text))
}

fn parse(text: &str) -> Result<Program, CompilerError> {
    let buf = buffer(text);
    let mut b = AstBuilder::from(Lexer::new(&buf));
    b.parse_program()
}

fn check_token(t: &Token, kind: TokenKind, data: &str, line: usize, col: usize) {
    assert_eq!(t.kind, kind);
    assert_eq!(t.span.data, data);
    assert_eq!(t.span.size, data.len());
    assert_eq!(t.span.start.line, line);
    assert_eq!(t.span.start.collumn, col);
}

fn int_value(e: &Expr) -> i128 {
    match e {
        Expr::PrimaryExpr(PrimaryExpr::IntLit(v)) => *v,
        _ => panic!("not an integer literal"),
    }
}

#[test]
fn parser_var_decl() {
    let p = parse("let n;\nlet _m6 : i64 = 1;").unwrap();
    assert_eq!(p.0.len(), 2);
    match &p.0[0] {
        Statement::VarDecl(v) => {
            check_token(&v.let_kw, TokenKind::Keyword(KeywordType::Let), "let", 1, 1);
            check_token(&v.name, TokenKind::Ident, "n", 1, 5);
            assert!(v.colon_token.is_none());
            assert!(v.var_type.is_none());
            assert!(v.eq_token.is_none());
            assert!(v.value.is_none());
            check_token(&v.semicolon, TokenKind::Semicolon, ";", 1, 6);
        },
        _ => panic!("expected a declaration"),
    }
    match &p.0[1] {
        Statement::VarDecl(v) => {
            check_token(&v.let_kw, TokenKind::Keyword(KeywordType::Let), "let", 2, 1);
            check_token(&v.name, TokenKind::Ident, "_m6", 2, 5);
            check_token(v.colon_token.as_ref().unwrap(), TokenKind::Colon, ":", 2, 9);
            check_token(v.var_type.as_ref().unwrap(), TokenKind::Ident, "i64", 2, 11);
            check_token(v.eq_token.as_ref().unwrap(), TokenKind::Equal, "=", 2, 15);
            assert_eq!(int_value(v.value.as_ref().unwrap()), 1);
            check_token(&v.semicolon, TokenKind::Semicolon, ";", 2, 18);
        },
        _ => panic!("expected a declaration"),
    }
}

#[test]
fn parser_return_break_continue() {
    let p = parse("return 0;\nbreak;continue;").unwrap();
    assert_eq!(p.0.len(), 3);
    match &p.0[0] {
        Statement::Return(r) => {
            check_token(&r.return_kw, TokenKind::Keyword(KeywordType::Return), "return", 1, 1);
            assert_eq!(int_value(&r.value), 0);
            check_token(&r.semicolon, TokenKind::Semicolon, ";", 1, 9);
        },
        _ => panic!("expected a return"),
    }
    match &p.0[1] {
        Statement::Break(b) => {
            check_token(&b.break_kw, TokenKind::Keyword(KeywordType::Break), "break", 2, 1);
            check_token(&b.semicolon, TokenKind::Semicolon, ";", 2, 6);
        },
        _ => panic!("expected a break"),
    }
    match &p.0[2] {
        Statement::Continue(c) => {
            check_token(&c.continue_kw, TokenKind::Keyword(KeywordType::Continue), "continue", 2, 7);
            check_token(&c.semicolon, TokenKind::Semicolon, ";", 2, 15);
        },
        _ => panic!("expected a continue"),
    }
}

#[test]
fn parser_if_else() {
    let p = parse("if (1) {} if (0) { return 1; } else return 0;").unwrap();
    assert_eq!(p.0.len(), 2);
    match &p.0[0] {
        Statement::If(i) => {
            check_token(&i.if_kw, TokenKind::Keyword(KeywordType::If), "if", 1, 1);
            check_token(&i.lparen, TokenKind::LParan, "(", 1, 4);
            assert_eq!(int_value(&i.cond), 1);
            check_token(&i.rparen, TokenKind::RParan, ")", 1, 6);
            match &*i.then_branch {
                Statement::Block(b) => {
                    check_token(&b.lcurly, TokenKind::LCurly, "{", 1, 8);
                    assert!(b.body.is_empty());
                    check_token(&b.rcurly, TokenKind::RCurly, "}", 1, 9);
                },
                _ => panic!("expected a block"),
            }
            assert!(i.else_kw.is_none());
            assert!(i._else.is_none());
        },
        _ => panic!("expected an if"),
    }
    match &p.0[1] {
        Statement::If(i) => {
            check_token(&i.if_kw, TokenKind::Keyword(KeywordType::If), "if", 1, 11);
            check_token(&i.lparen, TokenKind::LParan, "(", 1, 14);
            assert_eq!(int_value(&i.cond), 0);
            check_token(&i.rparen, TokenKind::RParan, ")", 1, 16);
            match &*i.then_branch {
                Statement::Block(b) => {
                    check_token(&b.lcurly, TokenKind::LCurly, "{", 1, 18);
                    assert_eq!(b.body.len(), 1);
                    match &b.body[0] {
                        Statement::Return(r) => {
                            check_token(&r.return_kw, TokenKind::Keyword(KeywordType::Return), "return", 1, 20);
                            assert_eq!(int_value(&r.value), 1);
                            check_token(&r.semicolon, TokenKind::Semicolon, ";", 1, 28);
                        },
                        _ => panic!("expected a return"),
                    }
                    check_token(&b.rcurly, TokenKind::RCurly, "}", 1, 30);
                },
                _ => panic!("expected a block"),
            }
            check_token(i.else_kw.as_ref().unwrap(), TokenKind::Keyword(KeywordType::Else), "else", 1, 32);
            match &**i._else.as_ref().unwrap() {
                Statement::Return(r) => {
                    check_token(&r.return_kw, TokenKind::Keyword(KeywordType::Return), "return", 1, 37);
                    assert_eq!(int_value(&r.value), 0);
                    check_token(&r.semicolon, TokenKind::Semicolon, ";", 1, 45);
                },
                _ => panic!("expected a return"),
            }
        },
        _ => panic!("expected an if"),
    }
}

fn call_of(s: &Statement) -> &jolang::ast::Call {
    match s {
        Statement::Expr(e) => match &*e.expr {
            Expr::PrimaryExpr(PrimaryExpr::Call(c)) => c,
            _ => panic!("expected a call"),
        },
        _ => panic!("expected an expression statement"),
    }
}

#[test]
fn parser_call() {
    let p = parse("print(0);return pow(input(), 2);").unwrap();
    assert_eq!(p.0.len(), 2);
    let c = call_of(&p.0[0]);
    assert_eq!(c.name.span.data, "print");
    assert_eq!(int_value(c.first_arg.as_ref().unwrap()), 0);
    assert!(c.other_args.is_empty());
    match &p.0[1] {
        Statement::Return(r) => match &r.value {
            Expr::PrimaryExpr(PrimaryExpr::Call(c)) => {
                assert_eq!(c.name.span.data, "pow");
                match &**c.first_arg.as_ref().unwrap() {
                    Expr::PrimaryExpr(PrimaryExpr::Call(inner)) => {
                        assert_eq!(inner.name.span.data, "input");
                        assert!(inner.first_arg.is_none());
                        assert!(inner.other_args.is_empty());
                    },
                    _ => panic!("expected a call"),
                }
                assert_eq!(c.other_args.len(), 1);
                assert_eq!(c.other_args[0].0.kind, TokenKind::Comma);
                assert_eq!(int_value(&c.other_args[0].1), 2);
            },
            _ => panic!("expected a call"),
        },
        _ => panic!("expected a return"),
    }
}

#[test]
fn parser_assignment() {
    let p = parse("n = 1;").unwrap();
    assert_eq!(p.0.len(), 1);
    match &p.0[0] {
        Statement::Assignment(a) => {
            check_token(&a.name, TokenKind::Ident, "n", 1, 1);
            check_token(&a.eq_token, TokenKind::Equal, "=", 1, 3);
            assert_eq!(int_value(&a.value), 1);
            check_token(&a.semicolon, TokenKind::Semicolon, ";", 1, 6);
        },
        _ => panic!("expected an assignment"),
    }
}

#[test]
fn parser_while_loop() {
    let p = parse("while (1) {} loop print(0);").unwrap();
    assert_eq!(p.0.len(), 2);
    match &p.0[0] {
        Statement::While(w) => {
            assert_eq!(int_value(&w.cond), 1);
            match &*w.body {
                Statement::Block(b) => assert!(b.body.is_empty()),
                _ => panic!("expected a block"),
            }
        },
        _ => panic!("expected a while"),
    }
    match &p.0[1] {
        Statement::Loop(l) => {
            let c = call_of(&l.body);
            assert_eq!(c.name.span.data, "print");
        },
        _ => panic!("expected a loop"),
    }
}

#[test]
fn parser_unary_expr() {
    let p = parse("print(-1);print(+2);").unwrap();
    let c = call_of(&p.0[0]);
    match &**c.first_arg.as_ref().unwrap() {
        Expr::UnaryExpr(u) => {
            assert_eq!(u.op.kind, UnaryOpKind::Minus);
            match &u.primary {
                PrimaryExpr::IntLit(v) => assert_eq!(*v, 1),
                _ => panic!("expected a literal"),
            }
        },
        _ => panic!("expected a unary expression"),
    }
    let c = call_of(&p.0[1]);
    match &**c.first_arg.as_ref().unwrap() {
        Expr::UnaryExpr(u) => assert_eq!(u.op.kind, UnaryOpKind::Plus),
        _ => panic!("expected a unary expression"),
    }
}

/// The shape of an expression: operators and literals, in prefix form.
fn shape(e: &Expr) -> String {
    match e {
        Expr::BinExpr(b) => format!("({:?} {} {})", b.op.kind, shape(&b.left), shape(&b.right)),
        Expr::UnaryExpr(u) => format!("({:?} {})", u.op.kind, prim_shape(&u.primary)),
        Expr::PrimaryExpr(p) => prim_shape(p),
    }
}

fn prim_shape(p: &PrimaryExpr) -> String {
    match p {
        PrimaryExpr::IntLit(v) => format!("{}", v),
        PrimaryExpr::Ident(t) => t.span.data.clone(),
        PrimaryExpr::Paren(pe) => format!("[{}]", shape(&pe.expr)),
        PrimaryExpr::Call(c) => format!("{}()", c.name.span.data),
        PrimaryExpr::VoidLit() => String::from("void"),
    }
}

#[test]
fn parser_binexpr_each_operator() {
    let p = parse("print(1+1);print(1-1);print(1*1);print(1/1);print(1==1);print(1!=1);print(1>1);print(1>=1);print(1<=1);print(1<1);print(1<<1);print(1>>1);").unwrap();
    let kinds = [
        BinOpKind::Add,
        BinOpKind::Sub,
        BinOpKind::Mul,
        BinOpKind::Div,
        BinOpKind::Equal,
        BinOpKind::NotEqual,
        BinOpKind::Greater,
        BinOpKind::GreaterEqual,
        BinOpKind::LesserEqual,
        BinOpKind::Lesser,
        BinOpKind::LShift,
        BinOpKind::RShift,
    ];
    assert_eq!(p.0.len(), kinds.len());
    for (s, k) in p.0.iter().zip(kinds.iter()) {
        let c = call_of(s);
        match &**c.first_arg.as_ref().unwrap() {
            Expr::BinExpr(b) => assert_eq!(b.op.kind, *k),
            _ => panic!("expected a binary expression"),
        }
    }
}

#[test]
fn parser_binexpr_precedence() {
    let p = parse("print(-1*5+5==(+2-5)*5/8-5);").unwrap();
    let c = call_of(&p.0[0]);
    assert_eq!(
        shape(c.first_arg.as_ref().unwrap()),
        "(Equal (Add (Mul (Minus 1) 5) 5) (Sub (Mul [(Sub (Plus 2) 5)] (Div 5 8)) 5))"
    );
}

#[test]
fn parser_precedence_products_first() {
    let p = parse("return 1 + 2 * 3;").unwrap();
    match &p.0[0] {
        Statement::Return(r) => assert_eq!(shape(&r.value), "(Add 1 (Mul 2 3))"),
        _ => panic!("expected a return"),
    }
    let p = parse("return 1 * 2 + 3;").unwrap();
    match &p.0[0] {
        Statement::Return(r) => assert_eq!(shape(&r.value), "(Add (Mul 1 2) 3)"),
        _ => panic!("expected a return"),
    }
}

#[test]
fn parser_empty_program_expects_a_statement() {
    let e = parse("").err().unwrap();
    assert_eq!(e.kind, CompilerErrorKind::Expected);
    assert_eq!(e.message, "Expected : statement");
}

#[test]
fn parser_let_without_name() {
    let e = parse("let 5;").err().unwrap();
    assert_eq!(e.kind, CompilerErrorKind::Expected);
    assert_eq!(e.message, "Expected : identifier");
    assert_eq!(e.line, "let 5;");
    assert_eq!(e.line_number, 1);
}

#[test]
fn parser_name_alone_is_unexpected() {
    let e = parse("x + 1;").err().unwrap();
    assert_eq!(e.kind, CompilerErrorKind::UnexpectedToken);
    assert_eq!(e.message, "Unexpected token: Ident (\"x\")");
    assert_eq!(e.col_number, 1);
}

#[test]
fn parser_missing_semicolon() {
    let e = parse("return 1").err().unwrap();
    assert_eq!(e.kind, CompilerErrorKind::Expected);
    assert_eq!(e.message, "Expected : \";\"");
}

#[test]
fn parser_unclosed_call() {
    let e = parse("print(1").err().unwrap();
    assert_eq!(e.kind, CompilerErrorKind::Expected);
    assert_eq!(e.message, "Expected : \",\"");
}

#[test]
fn parser_integer_too_large() {
    let e = parse("return 170141183460469231731687303715884105728;").err().unwrap();
    assert_eq!(e.kind, CompilerErrorKind::BadToken);
    assert_eq!(e.message, "cannot parse integer litteral");
    let p = parse("return 170141183460469231731687303715884105727;").unwrap();
    match &p.0[0] {
        Statement::Return(r) => assert_eq!(int_value(&r.value), i128::MAX),
        _ => panic!("expected a return"),
    }
}

#[test]
fn parser_hex_literal_does_not_parse() {
    let e = parse("return 0x10;").err().unwrap();
    assert_eq!(e.kind, CompilerErrorKind::BadToken);
}

#[test]
fn parser_top_level_keyword_is_unexpected() {
    let e = parse("else;").err().unwrap();
    assert_eq!(e.kind, CompilerErrorKind::UnexpectedToken);
    assert_eq!(e.message, "Unexpected token: Keyword (\"else\")");
}

#[test]
fn parser_lexing_error_is_reported() {
    let e = parse("let x = @;").err().unwrap();
    assert_eq!(e.kind, CompilerErrorKind::BadToken);
    assert_eq!(e.message, "bad token : @");
}

#[test]
fn parser_parse_call_directly() {
    let buf = buffer("f(1, 2, 3)");
    let mut b = AstBuilder::from(Lexer::new(&buf));
    let c = b.parse_call().unwrap();
    assert_eq!(c.name.span.data, "f");
    assert_eq!(c.other_args.len(), 2);
    assert_eq!(c.rparen.kind, TokenKind::RParan);
    assert!(b.peek_token().as_ref().unwrap().kind == TokenKind::RParan);
}

#[test]
fn parser_next_and_peek_token() {
    let buf = buffer("a b");
    let mut b = AstBuilder::from(Lexer::new(&buf));
    assert!(b.peek_token().is_none());
    let t = b.next_token().unwrap().unwrap();
    assert_eq!(t.span.data, "a");
    assert_eq!(b.peek_token().as_ref().unwrap().span.data, "a");
    let t = b.next_token().unwrap().unwrap();
    assert_eq!(t.span.data, "b");
    assert!(b.next_token().unwrap().is_none());
    assert_eq!(b.peek_token().as_ref().unwrap().span.data, "b");
}

#[test]
fn parser_whole_program() {
    let text = "// this is a line comment
/* block comment*/
builtin_function(arg1, arg2); // call to a builtin function
let varible; // variable declaration
varible = input(); // variable assigment
if (varible == sqrt(4)) { // if statement
    print(variable);
} else {
    return 1;
}
let i = 0;
while(i <= 4) {
    i = i + 1;
    print(i*i);
}
loop {
    let v = input();
    print(v-1);
    if ( v < 0 ) {
        break; // exit the loop
    }else
        continue;
}
return 0; // exit the program with exit code 0
";
    let p = parse(text).unwrap();
    assert_eq!(p.0.len(), 8);
    assert!(matches!(p.0[0], Statement::Expr(_)));
    assert!(matches!(p.0[1], Statement::VarDecl(_)));
    assert!(matches!(p.0[2], Statement::Assignment(_)));
    assert!(matches!(p.0[3], Statement::If(_)));
    assert!(matches!(p.0[4], Statement::VarDecl(_)));
    assert!(matches!(p.0[5], Statement::While(_)));
    assert!(matches!(p.0[6], Statement::Loop(_)));
    assert!(matches!(p.0[7], Statement::Return(_)));
    match &p.0[5] {
        Statement::While(w) => match &*w.body {
            Statement::Block(b) => {
                assert_eq!(b.body.len(), 2);
                match &b.body[0] {
                    Statement::Assignment(a) => assert_eq!(shape(&a.value), "(Add i 1)"),
                    _ => panic!("expected an assignment"),
                }
            },
            _ => panic!("expected a block"),
        },
        _ => panic!("expected a while"),
    }
}
