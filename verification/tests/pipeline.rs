use ssagen::ast::{Ast, AstKind, Asts, Expr, FnCall, Type, VarDecl};
use ssagen::compiler::{Compiler, LowerError};
use ssagen::ctx::{Ctx, SymMap};
use ssagen::error::{Expected, ParseError};
use ssagen::expr_parser::ExprParser;
use ssagen::fpu::{FloatOp, FloatTable, Stop};
use ssagen::lexer::{FilePath, Lexer, Loc, Token, TokenKind};
use ssagen::parser::Parser;

const EPILOGUE: &str = "export function w $_start() {\n@start\n\t%argc =l call $argc()\n\tcall $main(l %argc)\n\tcall $syscall1(w 60, w 0)\n\tret\n}\n";

fn ieee(op: &FloatOp) -> u64 {
    match op {
        FloatOp::Parse(text) => {
            let s = std::str::from_utf8(text).unwrap();
            s.parse::<f64>().unwrap().to_bits()
        }
        FloatOp::FromInt(v) => (*v as f64).to_bits(),
        FloatOp::Add(a, b) => (f64::from_bits(*a) + f64::from_bits(*b)).to_bits(),
        FloatOp::Sub(a, b) => (f64::from_bits(*a) - f64::from_bits(*b)).to_bits(),
        FloatOp::Mul(a, b) => (f64::from_bits(*a) * f64::from_bits(*b)).to_bits(),
        FloatOp::Div(a, b) => (f64::from_bits(*a) / f64::from_bits(*b)).to_bits(),
    }
}

fn tokens_of(src: &str) -> Vec<Vec<Token>> {
    let mut lexer = Lexer::new("main.src", src);
    lexer.lex().unwrap();
    lexer.tokens
}

fn parse_source(src: &str) -> Result<Asts, ParseError> {
    let tokens = tokens_of(src);
    let mut table = FloatTable::new();
    loop {
        let mut parser = Parser::new(&tokens);
        match parser.parse(&table) {
            Ok(asts) => return Ok(asts),
            Err(Stop::Float(op)) => {
                let value = ieee(&op);
                table.record(op, value);
            }
            Err(Stop::Error(e)) => return Err(e),
        }
    }
}

fn compile_source(src: &str) -> String {
    let asts = parse_source(src).unwrap();
    let mut compiler = Compiler::new("main.src");
    compiler.compile(asts).unwrap();
    String::from_utf8(compiler.out).unwrap()
}

fn resolve_ints(src: &str) -> Expr {
    let rows = tokens_of(src);
    let syms = SymMap::new();
    let table = FloatTable::new();
    let mut parser = ExprParser::new(&rows[0], &syms, &table);
    match parser.parse() {
        Ok(e) => e,
        Err(s) => panic!("{:?}", s),
    }
}

#[test]
fn test_add_expression() {
    let add_expr = Expr::Add(
        Box::new(Expr::I64(1)),
        Box::new(Expr::Add(Box::new(Expr::I64(2)), Box::new(Expr::I64(3)))),
    );

    println!("{:?}", add_expr);
}

#[test]
fn test_add_and_subexpression() {
    let add_sub_expr = Expr::Add(
        Box::new(Expr::I64(1)),
        Box::new(Expr::Sub(Box::new(Expr::I64(2)), Box::new(Expr::I64(3)))),
    );

    println!("add_sub_expr = {:?}", add_sub_expr);

    let sub_add_expr = Expr::Sub(
        Box::new(Expr::Add(Box::new(Expr::I64(1)), Box::new(Expr::I64(2)))),
        Box::new(Expr::I64(3)),
    );

    println!("sub_add_expr = {:?}", sub_add_expr);
}

#[test]
fn subtraction_associates_to_the_right() {
    let e = resolve_ints("8 - 4 - 2");
    match &e {
        Expr::Sub(l, r) => {
            assert!(matches!(**l, Expr::I64(8)));
            match &**r {
                Expr::Sub(a, b) => {
                    assert!(matches!(**a, Expr::I64(4)));
                    assert!(matches!(**b, Expr::I64(2)));
                }
                other => panic!("{:?}", other),
            }
        }
        other => panic!("{:?}", other),
    }
    assert_eq!(e.eval_int(&SymMap::new()), 6);
}

#[test]
fn division_associates_to_the_right() {
    let e = resolve_ints("100 / 10 / 5");
    assert_eq!(e.eval_int(&SymMap::new()), 50);
    let e = resolve_ints("2 * 3 + 4 * 5");
    assert_eq!(e.eval_int(&SymMap::new()), 26);
    let e = resolve_ints("(8 - 4) - 2");
    assert_eq!(e.eval_int(&SymMap::new()), 2);
}

#[test]
fn integer_declaration_and_print() {
    let out = compile_source("i64 x = 2 + 3;\nprint(x);\n");
    assert_eq!(
        out,
        format!("\t%x =l copy 5\n\tcall $print_i64(l %x, w 1)\n{}", EPILOGUE)
    );
}

#[test]
fn division_by_zero_is_zero() {
    let out = compile_source("fn main() { i64 y = 10 / 0; print(y); }");
    assert_eq!(
        out,
        format!(
            "function  $main() {{\n@start\n\t%y =l copy 0\n\tcall $print_i64(l %y, w 1)\n\tret\n}}\n{}",
            EPILOGUE
        )
    );
}

#[test]
fn unknown_call_target_is_lowered() {
    let out = compile_source("unknown_fn(1, 2)");
    assert_eq!(out, format!("\tcall $unknown_fn(l 1, l 2)\n{}", EPILOGUE));
}

#[test]
fn global_is_not_visible_in_function_body() {
    let err = parse_source("i64 x = 1;\nfn f() { i64 y = x; }\n").unwrap_err();
    match err {
        ParseError::UndefinedSymbol { name, loc } => {
            assert_eq!(name, b"x".to_vec());
            assert_eq!(loc.row, 1);
            assert_eq!(loc.col, 17);
            assert_eq!(loc.file_path.bytes, b"main.src".to_vec());
        }
        other => panic!("{:?}", other),
    }
    assert!(parse_source("i64 x = 1;\ni64 y = x;\n").is_ok());
}

#[test]
fn global_scope_is_active_again_after_a_function() {
    let out = compile_source("i64 x = 7;\nfn f() { i64 y = 1; }\ni64 z = x + 1;\n");
    assert!(out.contains("\t%z =l copy 8\n"));
    let err = parse_source("fn f() { i64 y = 1; }\ni64 z = y;\n").unwrap_err();
    assert!(matches!(err, ParseError::UndefinedSymbol { .. }));
}

#[test]
fn literal_declarations_carry_tag_and_encoding() {
    assert_eq!(
        compile_source("i64 n = 42;"),
        format!("\t%n =l copy 42\n{}", EPILOGUE)
    );
    assert_eq!(
        compile_source("f64 n = 2.5;"),
        format!("\t%n =d copy {}\n{}", 2.5f64.to_bits(), EPILOGUE)
    );
    assert_eq!(
        compile_source("f64 n = 3;"),
        format!("\t%n =d copy {}\n{}", 3.0f64.to_bits(), EPILOGUE)
    );
    assert_eq!(
        compile_source("i64 n = 2.75;"),
        format!("\t%n =l copy 2\n{}", EPILOGUE)
    );
    assert_eq!(
        compile_source("i64 n = 9223372036854775807;"),
        format!("\t%n =l copy 9223372036854775807\n{}", EPILOGUE)
    );
}

#[test]
fn floating_point_folding() {
    assert_eq!(
        compile_source("f64 z = 1.5 + 2;\nprint(z);"),
        format!(
            "\t%z =d copy {}\n\tcall $print_f64(d %z, w 1)\n{}",
            3.5f64.to_bits(),
            EPILOGUE
        )
    );
    assert_eq!(
        compile_source("f64 z = 1.5 / 0.0;"),
        format!("\t%z =d copy 0\n{}", EPILOGUE)
    );
    assert_eq!(
        compile_source("f64 z = 1.5 / 0;"),
        format!("\t%z =d copy 0\n{}", EPILOGUE)
    );
    assert_eq!(
        compile_source("f64 a = 0.1;\nf64 b = a * 3 - 1.0 / 4;"),
        format!(
            "\t%a =d copy {}\n\t%b =d copy {}\n{}",
            0.1f64.to_bits(),
            (0.1f64 * 3.0 - 1.0 / 4.0).to_bits(),
            EPILOGUE
        )
    );
    assert_eq!(
        compile_source("f64 a = 7.9;\ni64 b = a + 1;"),
        format!(
            "\t%a =d copy {}\n\t%b =l copy 8\n{}",
            7.9f64.to_bits(),
            EPILOGUE
        )
    );
}

#[test]
fn print_of_literals() {
    assert_eq!(
        compile_source("print(1, 2.5)"),
        format!(
            "\tcall $print_i64(l 1, w 1)\n\tcall $print_f64(d {}, w 1)\n{}",
            2.5f64.to_bits(),
            EPILOGUE
        )
    );
    assert_eq!(compile_source("print()"), EPILOGUE.to_string());
}

#[test]
fn call_arguments() {
    assert_eq!(
        compile_source("i64 x = 4;\nf(x, 1 + 2, (1 + 2) * 3, 2.5, x * 2)"),
        format!(
            "\t%x =l copy 4\n\tcall $f(l %x, l 3, l 9, d {}, l 8)\n{}",
            2.5f64.to_bits(),
            EPILOGUE
        )
    );
    assert_eq!(compile_source("f()"), format!("\tcall $f()\n{}", EPILOGUE));
    assert_eq!(
        compile_source("f(1 + 2.5)"),
        format!("\tcall $f(l 3)\n{}", EPILOGUE)
    );
    assert_eq!(
        compile_source("f(2.5 + 1)"),
        format!("\tcall $f(d {})\n{}", 3.5f64.to_bits(), EPILOGUE)
    );
}

#[test]
fn function_definitions() {
    assert_eq!(
        compile_source("fn add(i64 a, f64 b) -> i64 {\n  i64 c = 1;\n}\n"),
        format!(
            "function l $add(l %a, d %b) {{\n@start\n\t%c =l copy 1\n\tret 0\n}}\n{}",
            EPILOGUE
        )
    );
    assert_eq!(
        compile_source("fn g(i64 a) -> f64 { }"),
        format!("function d $g(l %a) {{\n@start\n\tret 0\n}}\n{}", EPILOGUE)
    );
    assert_eq!(
        compile_source("fn outer() { fn inner() { } }"),
        format!(
            "function  $outer() {{\n@start\nfunction  $inner() {{\n@start\n\tret\n}}\n\tret\n}}\n{}",
            EPILOGUE
        )
    );
}

#[test]
fn node_ids_count_from_zero_in_each_list() {
    let asts = parse_source("i64 a = 1;\nfn f() { i64 b = 2; i64 c = 3; }\nprint(a);").unwrap();
    assert_eq!(asts.id, 3);
    assert_eq!(asts.asts.len(), 3);
    for (i, ast) in asts.asts.iter().enumerate() {
        assert_eq!(ast.id, i);
        assert_eq!(ast.next, i + 1);
    }
    match &asts.asts[1].kind {
        AstKind::Fn(f) => {
            assert_eq!(f.body.len(), 2);
            assert_eq!(f.body[0].id, 0);
            assert_eq!(f.body[1].id, 1);
            assert_eq!(f.body[1].next, 2);
            assert!(f.ret_ty.is_none());
            assert_eq!(f.name_token.string, b"f".to_vec());
        }
        other => panic!("{:?}", other),
    }
    assert_eq!(asts.asts[2].loc.row, 2);
    assert_eq!(asts.asts[2].loc.col, 0);
}

#[test]
fn blank_lines_and_stray_tokens_are_passed_over() {
    assert_eq!(
        compile_source("\n\n;;\ni64 x = 1;\n\n   \n= ) 5\nprint(x);\n"),
        format!("\t%x =l copy 1\n\tcall $print_i64(l %x, w 1)\n{}", EPILOGUE)
    );
    assert_eq!(compile_source(""), EPILOGUE.to_string());
}

#[test]
fn later_declaration_wins() {
    assert_eq!(
        compile_source("i64 x = 1;\ni64 x = x + 1;\ni64 y = x * 10;"),
        format!(
            "\t%x =l copy 1\n\t%x =l copy 2\n\t%y =l copy 20\n{}",
            EPILOGUE
        )
    );
}

fn unexpected(src: &str) -> (Expected, Vec<u8>, usize, usize) {
    match parse_source(src).unwrap_err() {
        ParseError::UnexpectedToken { expected, found, loc } => (expected, found, loc.row, loc.col),
        other => panic!("{:?}", other),
    }
}

#[test]
fn syntax_errors() {
    assert_eq!(
        unexpected("i64 = 3;"),
        (Expected::Kind(TokenKind::Lit), b"=".to_vec(), 0, 4)
    );
    assert_eq!(
        unexpected("i64 x 3;"),
        (Expected::Kind(TokenKind::Equal), b"3".to_vec(), 0, 6)
    );
    assert_eq!(
        unexpected("i64 x = 3"),
        (Expected::Kind(TokenKind::Semicolon), b"<eof>".to_vec(), 0, 8)
    );
    assert_eq!(
        unexpected("i64 x = ;"),
        (Expected::Operand, b";".to_vec(), 0, 8)
    );
    assert_eq!(
        unexpected("i64 x = 1 2;"),
        (Expected::Operator, b"2".to_vec(), 0, 10)
    );
    assert_eq!(
        unexpected("i64 x = 1 + ;"),
        (Expected::Operand, b"<eof>".to_vec(), 0, 10)
    );
    assert_eq!(
        unexpected("i64 x = (1 2);"),
        (Expected::Kind(TokenKind::RParen), b"2".to_vec(), 0, 11)
    );
    assert_eq!(
        unexpected("i64 x = * 2;"),
        (Expected::Operand, b"*".to_vec(), 0, 8)
    );
    assert_eq!(
        unexpected("foo 1"),
        (Expected::Kind(TokenKind::LParen), b"1".to_vec(), 0, 4)
    );
    assert_eq!(
        unexpected("foo(1,)"),
        (Expected::Operand, b")".to_vec(), 0, 6)
    );
    assert_eq!(
        unexpected("fn (i64 a) { }"),
        (Expected::Kind(TokenKind::Lit), b"(".to_vec(), 0, 3)
    );
    assert_eq!(
        unexpected("fn f i64 a) { }"),
        (Expected::Kind(TokenKind::LParen), b"i64".to_vec(), 0, 5)
    );
    assert_eq!(
        unexpected("fn f(a) { }"),
        (Expected::Kind(TokenKind::Type), b"a".to_vec(), 0, 5)
    );
    assert_eq!(
        unexpected("fn f(i64 a i64 b) { }"),
        (Expected::Kind(TokenKind::RParen), b"i64".to_vec(), 0, 11)
    );
    assert_eq!(
        unexpected("fn f() i64 { }"),
        (Expected::Kind(TokenKind::Arrow), b"i64".to_vec(), 0, 7)
    );
    assert_eq!(
        unexpected("fn f() -> { }"),
        (Expected::Kind(TokenKind::Type), b"{".to_vec(), 0, 10)
    );
    assert_eq!(
        unexpected("fn f() -> i64 x { }"),
        (Expected::Kind(TokenKind::LCurly), b"x".to_vec(), 0, 14)
    );
    assert_eq!(
        unexpected("i64 x = 1;\n}"),
        (Expected::Statement, b"}".to_vec(), 1, 0)
    );
}

fn unmatched(src: &str) -> (usize, usize) {
    match parse_source(src).unwrap_err() {
        ParseError::UnmatchedDelimiter { opening } => (opening.row, opening.col),
        other => panic!("{:?}", other),
    }
}

#[test]
fn unmatched_brace_reports_the_opening() {
    assert_eq!(unmatched("i64 a = 1;\nfn f() {\n  i64 x = 1;\n"), (1, 7));
    assert_eq!(unmatched("fn f() { fn g() { }"), (0, 7));
    assert_eq!(unmatched("fn f() { fn g() {"), (0, 16));
}

#[test]
fn unmatched_parenthesis_reports_the_opening() {
    assert_eq!(unmatched("i64 x = 2 * (1 + 2;"), (0, 12));
    assert_eq!(unmatched("i64 x = ((1);"), (0, 8));
    assert_eq!(unmatched("i64 a = 1;\n  foo(1, 2"), (1, 5));
    assert_eq!(unmatched("foo(1, (2)"), (0, 3));
    assert_eq!(unmatched("foo(1,"), (0, 3));
    assert_eq!(unmatched("foo("), (0, 3));
    assert_eq!(unmatched("fn f("), (0, 4));
    assert_eq!(unmatched("fn f(i64"), (0, 4));
    assert_eq!(unmatched("fn f(i64 a"), (0, 4));
    assert_eq!(unmatched("fn f(i64 a,"), (0, 4));
}

#[test]
fn undefined_symbol_in_expression_and_print() {
    match parse_source("i64 x = y + 1;").unwrap_err() {
        ParseError::UndefinedSymbol { name, loc } => {
            assert_eq!(name, b"y".to_vec());
            assert_eq!((loc.row, loc.col), (0, 8));
        }
        other => panic!("{:?}", other),
    }
    match parse_source("print(q)").unwrap_err() {
        ParseError::UndefinedSymbol { name, loc } => {
            assert_eq!(name, b"q".to_vec());
            assert_eq!((loc.row, loc.col), (0, 6));
        }
        other => panic!("{:?}", other),
    }
}

#[test]
fn lexer_errors() {
    let mut lexer = Lexer::new("a.src", "i64 x = 1;\ni64 y = 12ab;\n");
    match lexer.lex().unwrap_err() {
        ParseError::MalformedNumericLiteral { text, loc } => {
            assert_eq!(text, b"12ab".to_vec());
            assert_eq!((loc.row, loc.col), (1, 8));
            assert_eq!(loc.file_path.bytes, b"a.src".to_vec());
        }
        other => panic!("{:?}", other),
    }
    let mut lexer = Lexer::new("a.src", "  @x");
    match lexer.lex().unwrap_err() {
        ParseError::UnexpectedToken { expected, found, loc } => {
            assert_eq!(expected, Expected::Lexeme);
            assert_eq!(found, b"@x".to_vec());
            assert_eq!((loc.row, loc.col), (0, 2));
        }
        other => panic!("{:?}", other),
    }
}

#[test]
fn lowering_errors() {
    let loc = |col: usize| Loc { row: 3, col, file_path: FilePath::new("h.src") };
    let tok = |text: &str, col: usize| Token {
        loc: loc(col),
        kind: TokenKind::Lit,
        string: text.as_bytes().to_vec(),
    };
    // a reference that leads nowhere
    let mut asts = Asts::new();
    asts.append(
        Ctx::empty_global(),
        loc(0),
        AstKind::FnCall(FnCall { args: vec![Expr::Lit(tok("ghost", 6))], name_token: tok("print", 0) }),
    );
    let mut c = Compiler::new("h.src");
    match c.compile(asts).unwrap_err() {
        LowerError::UndefinedSymbol { name, loc } => {
            assert_eq!(name, b"ghost".to_vec());
            assert_eq!(loc.col, 6);
        }
        other => panic!("{:?}", other),
    }
    assert!(c.out.is_empty());
    // a chain of references is followed to its constant
    let mut ctx = Ctx::empty_global();
    ctx.declare(VarDecl { ty: Type::I64, value: Expr::I64(9), name_token: tok("a", 0) });
    ctx.declare(VarDecl { ty: Type::I64, value: Expr::Lit(tok("a", 0)), name_token: tok("b", 0) });
    let mut asts = Asts::new();
    asts.append(
        ctx.clone(),
        loc(0),
        AstKind::VarDecl(VarDecl { ty: Type::I64, value: Expr::Lit(tok("b", 8)), name_token: tok("c", 4) }),
    );
    let mut c = Compiler::new("h.src");
    c.compile(asts).unwrap();
    assert_eq!(String::from_utf8(c.out).unwrap(), format!("\t%c =l copy 9\n{}", EPILOGUE));
    // a chain that comes back to itself leads nowhere
    let mut ctx = Ctx::empty_global();
    ctx.declare(VarDecl { ty: Type::I64, value: Expr::Lit(tok("b", 1)), name_token: tok("a", 0) });
    ctx.declare(VarDecl { ty: Type::I64, value: Expr::Lit(tok("a", 2)), name_token: tok("b", 0) });
    let mut asts = Asts::new();
    asts.append(
        ctx,
        loc(0),
        AstKind::VarDecl(VarDecl { ty: Type::I64, value: Expr::Lit(tok("a", 8)), name_token: tok("c", 4) }),
    );
    let mut c = Compiler::new("h.src");
    match c.compile(asts).unwrap_err() {
        LowerError::UndefinedSymbol { name, loc } => {
            assert_eq!(name, b"a".to_vec());
            assert_eq!(loc.col, 2);
        }
        other => panic!("{:?}", other),
    }
    // a value that was not folded
    let mut asts = Asts::new();
    asts.append(
        Ctx::empty_global(),
        loc(5),
        AstKind::VarDecl(VarDecl {
            ty: Type::I64,
            value: Expr::Add(Box::new(Expr::I64(1)), Box::new(Expr::I64(2))),
            name_token: tok("c", 4),
        }),
    );
    let mut c = Compiler::new("h.src");
    match c.compile(asts).unwrap_err() {
        LowerError::NotConstant { loc } => assert_eq!((loc.row, loc.col), (3, 5)),
        other => panic!("{:?}", other),
    }
    let _ = Ast { id: 0, ctx: Ctx::empty_fncall(), loc: loc(0), kind: AstKind::FnCall(FnCall { args: vec![], name_token: tok("f", 0) }), next: 1 };
}

#[test]
fn parser_asks_for_missing_results() {
    let tokens = tokens_of("f64 z = 1.5 + 2;");
    let mut table = FloatTable::new();
    let mut asked = Vec::new();
    loop {
        let mut parser = Parser::new(&tokens);
        match parser.parse(&table) {
            Ok(_) => break,
            Err(Stop::Float(op)) => {
                asked.push(format!("{:?}", op));
                let v = ieee(&op);
                table.record(op, v);
            }
            Err(Stop::Error(e)) => panic!("{:?}", e),
        }
    }
    assert_eq!(asked.len(), 3);
    assert_eq!(asked[0], format!("{:?}", FloatOp::Parse(b"1.5".to_vec())));
    assert_eq!(asked[1], format!("{:?}", FloatOp::FromInt(2)));
    assert_eq!(
        asked[2],
        format!("{:?}", FloatOp::Add(1.5f64.to_bits(), 2.0f64.to_bits()))
    );
    assert_eq!(table.get(&FloatOp::FromInt(2)), Some(2.0f64.to_bits()));
    assert_eq!(table.get(&FloatOp::FromInt(3)), None);
    table.record(FloatOp::FromInt(2), 0);
    assert_eq!(table.get(&FloatOp::FromInt(2)), Some(2.0f64.to_bits()));
}

#[test]
fn messages_are_prefixed_with_the_place() {
    let err = parse_source("i64 x = 1;\n  i64 y = x + z;").unwrap_err();
    assert_eq!(
        String::from_utf8(err.to_text()).unwrap(),
        "main.src:2:15: error: undefined symbol: z"
    );
    let err = parse_source("foo 1").unwrap_err();
    assert_eq!(
        String::from_utf8(err.to_text()).unwrap(),
        "main.src:1:5: error: expected LParen, but got: 1"
    );
    let err = parse_source("i64 x = ;").unwrap_err();
    assert_eq!(
        String::from_utf8(err.to_text()).unwrap(),
        "main.src:1:9: error: expected an operand, but got: ;"
    );
    let err = parse_source("fn f() {").unwrap_err();
    assert_eq!(
        String::from_utf8(err.to_text()).unwrap(),
        "main.src:1:8: error: this `{` is never closed"
    );
    let mut lexer = Lexer::new("m.src", "i64 x = 1z;");
    let err = lexer.lex().unwrap_err();
    assert_eq!(
        String::from_utf8(err.to_text()).unwrap(),
        "m.src:1:9: error: failed to parse number: 1z"
    );
    let rows = tokens_of("  print(x)");
    assert_eq!(
        String::from_utf8(rows[0][0].to_text()).unwrap(),
        "main.src:1:3: Lit print"
    );
    assert_eq!(
        String::from_utf8(rows[0][1].loc.to_text()).unwrap(),
        "main.src:1:8:"
    );
    let err = LowerError::NotConstant { loc: Loc { row: 4, col: 0, file_path: FilePath::new("g.src") } };
    assert_eq!(
        String::from_utf8(err.to_text()).unwrap(),
        "g.src:5:1: error: the value is not a constant"
    );
}

#[test]
fn more_results_do_not_change_a_finished_parse() {
    let tokens = tokens_of("f64 a = 1.5 * 2;\ni64 b = a;\nprint(a, b)");
    let mut table = FloatTable::new();
    let first = loop {
        let mut parser = Parser::new(&tokens);
        match parser.parse(&table) {
            Ok(asts) => break asts,
            Err(Stop::Float(op)) => {
                assert_eq!(table.get(&op), None);
                let value = ieee(&op);
                table.record(op, value);
            }
            Err(Stop::Error(e)) => panic!("{:?}", e),
        }
    };
    table.record(FloatOp::FromInt(77), 1);
    table.record(FloatOp::Parse(b"9.9".to_vec()), 2);
    table.record(FloatOp::Mul(1.5f64.to_bits(), 2.0f64.to_bits()), 3);
    let mut parser = Parser::new(&tokens);
    let second = match parser.parse(&table) {
        Ok(asts) => asts,
        Err(s) => panic!("{:?}", s),
    };
    assert_eq!(format!("{:?}", first.asts), format!("{:?}", second.asts));
    let mut c = Compiler::new("main.src");
    c.compile(second).unwrap();
    assert_eq!(
        String::from_utf8(c.out).unwrap(),
        format!(
            "\t%a =d copy {}\n\t%b =l copy 3\n\tcall $print_f64(d %a, w 1)\n\tcall $print_i64(l %b, w 1)\n{}",
            3.0f64.to_bits(),
            EPILOGUE
        )
    );
}

#[test]
fn integer_token_with_a_sign() {
    let tok = |kind: TokenKind, text: &str, col: usize| Token {
        loc: Loc { row: 0, col, file_path: FilePath::new("s.src") },
        kind,
        string: text.as_bytes().to_vec(),
    };
    let syms = SymMap::new();
    let table = FloatTable::new();
    let tokens = vec![tok(TokenKind::Int, "-5", 0)];
    let e = ExprParser::new(&tokens, &syms, &table).parse().unwrap();
    assert!(matches!(e, Expr::I64(-5)));
    let tokens = vec![
        tok(TokenKind::Int, "+7", 0),
        tok(TokenKind::Asterisk, "*", 3),
        tok(TokenKind::Int, "-9223372036854775808", 5),
    ];
    let e = ExprParser::new(&tokens, &syms, &table).parse().unwrap();
    assert_eq!(e.eval_int(&syms), 0i64.wrapping_add(7i64.wrapping_mul(i64::MIN)));
    let tokens = vec![tok(TokenKind::Int, "-", 4)];
    match ExprParser::new(&tokens, &syms, &table).parse() {
        Err(Stop::Error(ParseError::MalformedNumericLiteral { text, loc })) => {
            assert_eq!(text, b"-".to_vec());
            assert_eq!(loc.col, 4);
        }
        other => panic!("{:?}", other),
    }
}

#[test]
fn tag_and_encoding_go_together() {
    let loc = |col: usize| Loc { row: 0, col, file_path: FilePath::new("t.src") };
    let name = Token { loc: loc(4), kind: TokenKind::Lit, string: b"n".to_vec() };
    let ctx = Ctx::empty_global();
    let ok = VarDecl { ty: Type::F64, value: Expr::F64(2.5f64.to_bits()), name_token: name.clone() };
    assert_eq!(
        String::from_utf8(Compiler::compile_var_decl(&ok, &ctx, &loc(0)).unwrap()).unwrap(),
        format!("\t%n =d copy {}\n", 2.5f64.to_bits())
    );
    let ok = VarDecl { ty: Type::I64, value: Expr::I64(-12), name_token: name.clone() };
    assert_eq!(
        String::from_utf8(Compiler::compile_var_decl(&ok, &ctx, &loc(0)).unwrap()).unwrap(),
        "\t%n =l copy -12\n"
    );
    let bad = VarDecl { ty: Type::F64, value: Expr::I64(2), name_token: name.clone() };
    match Compiler::compile_var_decl(&bad, &ctx, &loc(7)).unwrap_err() {
        LowerError::TypeMismatch { loc } => assert_eq!(loc.col, 7),
        other => panic!("{:?}", other),
    }
    let bad = VarDecl { ty: Type::I64, value: Expr::F64(2), name_token: name };
    let err = Compiler::compile_var_decl(&bad, &ctx, &loc(7)).unwrap_err();
    assert_eq!(
        String::from_utf8(err.to_text()).unwrap(),
        "t.src:1:8: error: the value is not of the declared type"
    );
}

fn undefined(src: &str) -> (Vec<u8>, usize, usize) {
    match parse_source(src).unwrap_err() {
        ParseError::UndefinedSymbol { name, loc } => (name, loc.row, loc.col),
        other => panic!("{:?}", other),
    }
}

#[test]
fn a_body_sees_only_its_own_declarations() {
    assert_eq!(
        undefined("i64 n = 1;\nfn f() {\n  i64 a = 2;\n  i64 b = a + n;\n}"),
        (b"n".to_vec(), 3, 14)
    );
    assert_eq!(
        undefined("i64 n = 1;\nfn f() {\n  i64 a = 2;\n  print(a, n)\n}"),
        (b"n".to_vec(), 3, 11)
    );
    assert_eq!(
        undefined("fn f(i64 a) { i64 y = a; }"),
        (b"a".to_vec(), 0, 22)
    );
    assert_eq!(
        undefined("fn f() { fn g() { i64 n = 1; } i64 y = n; }"),
        (b"n".to_vec(), 0, 39)
    );
    assert_eq!(
        undefined("fn f() { i64 n = 1; fn g() { i64 y = n; } }"),
        (b"n".to_vec(), 0, 37)
    );
    assert!(parse_source("i64 n = 1;\nfn f() { i64 n = 5; i64 y = n * 2; print(y, n) }\ni64 m = n;").is_ok());
}

#[test]
fn a_call_does_not_depend_on_declared_functions() {
    let with = parse_source("fn g() { }\ni64 x = 3;\ng(x, 1 + 1)").unwrap();
    let without = parse_source("i64 x = 3;\ng(x, 1 + 1)").unwrap();
    let call = |asts: &Asts| match &asts.asts[asts.asts.len() - 1].kind {
        AstKind::FnCall(c) => format!("{:?} {:?}", c.name_token.string, c.args.len()),
        other => panic!("{:?}", other),
    };
    assert_eq!(call(&with), call(&without));
    let text = |asts: Asts| {
        let mut c = Compiler::new("main.src");
        c.compile(asts).unwrap();
        String::from_utf8(c.out).unwrap()
    };
    let a = text(with);
    let b = text(without);
    assert!(a.ends_with(&format!("\tcall $g(l %x, l 2)\n{}", EPILOGUE)));
    assert!(b.ends_with(&format!("\tcall $g(l %x, l 2)\n{}", EPILOGUE)));
}
