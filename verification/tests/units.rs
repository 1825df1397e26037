use ssagen::ast::{Expr, Type, VarDecl};
use ssagen::ctx::{Ctx, SymMap};
use ssagen::fpu::{divide, is_zero, truncate, FloatOp, FloatTable, Stop};
use ssagen::lexer::{FilePath, Lexer, Loc, Token, TokenKind};
use ssagen::text::{
    bytes_eq, copy_range, parse_digits, parse_i64, parse_signed_i64, push_i64, push_u64, same_as,
};

fn here() -> Loc {
    Loc { row: 0, col: 0, file_path: FilePath::new("u.src") }
}

fn num(v: i64) -> Box<Expr> {
    Box::new(Expr::I64(v))
}

fn flt(v: f64) -> Box<Expr> {
    Box::new(Expr::F64(v.to_bits()))
}

fn ieee_table(ops: Vec<FloatOp>) -> FloatTable {
    let mut table = FloatTable::new();
    for op in ops {
        let v = match &op {
            FloatOp::Parse(t) => std::str::from_utf8(t).unwrap().parse::<f64>().unwrap().to_bits(),
            FloatOp::FromInt(v) => (*v as f64).to_bits(),
            FloatOp::Add(a, b) => (f64::from_bits(*a) + f64::from_bits(*b)).to_bits(),
            FloatOp::Sub(a, b) => (f64::from_bits(*a) - f64::from_bits(*b)).to_bits(),
            FloatOp::Mul(a, b) => (f64::from_bits(*a) * f64::from_bits(*b)).to_bits(),
            FloatOp::Div(a, b) => (f64::from_bits(*a) / f64::from_bits(*b)).to_bits(),
        };
        table.record(op, v);
    }
    table
}

#[test]
fn eval_int_is_total() {
    let syms = SymMap::new();
    assert_eq!(Expr::Div(num(10), num(0)).eval_int(&syms), 0);
    assert_eq!(Expr::Div(num(0), num(0)).eval_int(&syms), 0);
    assert_eq!(Expr::Div(num(-7), num(2)).eval_int(&syms), -3);
    assert_eq!(Expr::Div(num(7), num(-2)).eval_int(&syms), -3);
    assert_eq!(Expr::Div(num(-7), num(-2)).eval_int(&syms), 3);
    assert_eq!(Expr::Div(num(i64::MIN), num(-1)).eval_int(&syms), i64::MIN);
    assert_eq!(Expr::Div(num(i64::MIN), num(1)).eval_int(&syms), i64::MIN);
    assert_eq!(Expr::Add(num(i64::MAX), num(1)).eval_int(&syms), i64::MIN);
    assert_eq!(Expr::Sub(num(i64::MIN), num(1)).eval_int(&syms), i64::MAX);
    assert_eq!(Expr::Mul(num(i64::MAX), num(2)).eval_int(&syms), -2);
    assert_eq!(Expr::Add(flt(2.9), num(1)).eval_int(&syms), 3);
    assert_eq!(
        Expr::Div(num(1), Box::new(Expr::Sub(num(3), num(3)))).eval_int(&syms),
        0
    );
}

#[test]
fn eval_flt_division_by_zero_is_zero() {
    let syms = SymMap::new();
    let empty = FloatTable::new();
    assert_eq!(Expr::Div(flt(1.5), flt(0.0)).eval_flt(&syms, &empty).unwrap(), 0);
    assert_eq!(Expr::Div(flt(1.5), flt(-0.0)).eval_flt(&syms, &empty).unwrap(), 0);
    assert_eq!(Expr::F64(7).eval_flt(&syms, &empty).unwrap(), 7);
    match Expr::Div(flt(1.5), flt(2.0)).eval_flt(&syms, &empty) {
        Err(Stop::Float(FloatOp::Div(a, b))) => {
            assert_eq!(a, 1.5f64.to_bits());
            assert_eq!(b, 2.0f64.to_bits());
        }
        other => panic!("{:?}", other),
    }
    let table = ieee_table(vec![FloatOp::Div(1.5f64.to_bits(), 2.0f64.to_bits())]);
    assert_eq!(
        Expr::Div(flt(1.5), flt(2.0)).eval_flt(&syms, &table).unwrap(),
        0.75f64.to_bits()
    );
    match Expr::Add(num(1), flt(2.0)).eval_flt(&syms, &empty) {
        Err(Stop::Float(FloatOp::FromInt(1))) => {}
        other => panic!("{:?}", other),
    }
    let table = ieee_table(vec![
        FloatOp::FromInt(1),
        FloatOp::Add(1.0f64.to_bits(), 2.0f64.to_bits()),
    ]);
    assert_eq!(
        Expr::Add(num(1), flt(2.0)).eval_flt(&syms, &table).unwrap(),
        3.0f64.to_bits()
    );
}

#[test]
fn truncation_matches_the_cast() {
    let samples = [
        0.0, -0.0, 0.5, -0.5, 0.999, 1.0, -1.0, 1.5, -1.5, 2.9, -2.9, 1e10, -1e10, 4503599627370496.0,
        4503599627370497.0, 9007199254740992.0, 9007199254740993.0, 1e18, -1e18, 9.2e18, -9.2e18,
        9223372036854775807.0, -9223372036854775808.0, 9223372036854774784.0, 1e19, -1e19, 1e300,
        -1e300, f64::INFINITY, f64::NEG_INFINITY, f64::NAN, f64::MIN_POSITIVE, 5e-324, f64::MAX,
        f64::MIN, 123456789.987654321, -987654321.123456789, 4611686018427387904.0,
    ];
    for x in samples {
        assert_eq!(truncate(x.to_bits()), x as i64, "{}", x);
    }
    let mut bits: u64 = 0x9e3779b97f4a7c15;
    for _ in 0..20000 {
        bits ^= bits << 13;
        bits ^= bits >> 7;
        bits ^= bits << 17;
        assert_eq!(truncate(bits), f64::from_bits(bits) as i64);
        let near = (bits & 0x800f_ffff_ffff_ffff) | ((1000 + (bits >> 52) % 100) << 52);
        assert_eq!(truncate(near), f64::from_bits(near) as i64);
    }
}

#[test]
fn zero_patterns() {
    assert!(is_zero(0.0f64.to_bits()));
    assert!(is_zero((-0.0f64).to_bits()));
    assert!(!is_zero(5e-324f64.to_bits()));
    assert!(!is_zero(1.0f64.to_bits()));
    assert!(!is_zero(f64::NAN.to_bits()));
}

#[test]
fn division_rounds_towards_zero() {
    let values = [0i64, 1, -1, 2, -2, 3, -3, 7, -7, 10, -10, 1000, i64::MAX, i64::MIN, i64::MAX - 1, i64::MIN + 1];
    for l in values {
        for r in values {
            let expect = if r == 0 { 0 } else { l.wrapping_div(r) };
            assert_eq!(divide(l, r), expect, "{} / {}", l, r);
        }
    }
}

#[test]
fn bit_pattern_text_round_trips() {
    let samples = [0.0, -0.0, 1.0, 2.5, -3.75, 0.1, 1e-300, 1e300, f64::MAX, f64::MIN_POSITIVE, f64::INFINITY, f64::NAN];
    for x in samples {
        let mut text = Vec::new();
        push_u64(&mut text, x.to_bits());
        let s = String::from_utf8(text).unwrap();
        assert_eq!(s, x.to_bits().to_string());
        let back = f64::from_bits(s.parse::<u64>().unwrap());
        assert_eq!(back.to_bits(), x.to_bits());
    }
}

#[test]
fn decimal_numerals() {
    for v in [0i64, 1, -1, 9, 10, -10, 12345, -98765, i64::MAX, i64::MIN] {
        let mut text = Vec::new();
        push_i64(&mut text, v);
        assert_eq!(String::from_utf8(text).unwrap(), v.to_string());
    }
    for v in [0u64, 7, 10, 99, 100, u64::MAX] {
        let mut text = b"x=".to_vec();
        push_u64(&mut text, v);
        assert_eq!(String::from_utf8(text).unwrap(), format!("x={}", v));
    }
    assert_eq!(parse_i64(b"0"), Some(0));
    assert_eq!(parse_i64(b"007"), Some(7));
    assert_eq!(parse_i64(b"9223372036854775807"), Some(i64::MAX));
    assert_eq!(parse_i64(b"9223372036854775808"), None);
    assert_eq!(parse_i64(b"99999999999999999999999"), None);
    assert_eq!(parse_i64(b""), None);
    assert_eq!(parse_i64(b"12a"), None);
    assert_eq!(parse_i64(b"-1"), None);
    assert!(bytes_eq(b"abc", b"abc"));
    assert!(!bytes_eq(b"abc", b"abd"));
    assert!(!bytes_eq(b"abc", b"ab"));
    assert!(same_as(b"print", "print"));
    assert!(!same_as(b"printf", "print"));
    assert_eq!(copy_range(b"hello", 1, 3), b"el".to_vec());
}

#[test]
fn pieces_of_a_line() {
    let pieces = Lexer::split_whitespace_preserve_indices(b"  i64 x=(a+12)*b ;\t-> {,}>");
    let got: Vec<(usize, String)> = pieces
        .into_iter()
        .map(|(i, t)| (i, String::from_utf8(t).unwrap()))
        .collect();
    let want: Vec<(usize, String)> = [
        (2, "i64"), (6, "x"), (7, "="), (8, "("), (9, "a"), (10, "+"), (11, "12"), (13, ")"),
        (14, "*"), (15, "b"), (17, ";"), (19, "->"), (22, "{"), (23, ","), (24, "}"), (25, ">"),
    ]
    .iter()
    .map(|(i, t)| (*i, t.to_string()))
    .collect();
    assert_eq!(got, want);
    assert!(Lexer::split_whitespace_preserve_indices(b"").is_empty());
    assert!(Lexer::split_whitespace_preserve_indices(b" \t \r").is_empty());
    let one = Lexer::split_whitespace_preserve_indices(b"abc");
    assert_eq!(one, vec![(0usize, b"abc".to_vec())]);
    let two = Lexer::split_whitespace_preserve_indices(b"a-b");
    assert_eq!(two.len(), 3);
}

fn kind(text: &str) -> Option<TokenKind> {
    Lexer::token_kind(text.as_bytes(), &here()).ok()
}

#[test]
fn kinds_of_tokens() {
    assert_eq!(kind("+"), Some(TokenKind::Plus));
    assert_eq!(kind("-"), Some(TokenKind::Minus));
    assert_eq!(kind("*"), Some(TokenKind::Asterisk));
    assert_eq!(kind("/"), Some(TokenKind::Slash));
    assert_eq!(kind("("), Some(TokenKind::LParen));
    assert_eq!(kind(")"), Some(TokenKind::RParen));
    assert_eq!(kind("{"), Some(TokenKind::LCurly));
    assert_eq!(kind("}"), Some(TokenKind::RCurly));
    assert_eq!(kind(","), Some(TokenKind::Comma));
    assert_eq!(kind(";"), Some(TokenKind::Semicolon));
    assert_eq!(kind("="), Some(TokenKind::Equal));
    assert_eq!(kind("->"), Some(TokenKind::Arrow));
    assert_eq!(kind("fn"), Some(TokenKind::Fn));
    assert_eq!(kind("i64"), Some(TokenKind::Type));
    assert_eq!(kind("f64"), Some(TokenKind::Type));
    assert_eq!(kind("i32"), Some(TokenKind::Lit));
    assert_eq!(kind("fnord"), Some(TokenKind::Lit));
    assert_eq!(kind("x_1"), Some(TokenKind::Lit));
    assert_eq!(kind("Zed"), Some(TokenKind::Lit));
    assert_eq!(kind("0"), Some(TokenKind::Int));
    assert_eq!(kind("9223372036854775807"), Some(TokenKind::Int));
    assert_eq!(kind("9223372036854775808"), Some(TokenKind::Flt));
    assert_eq!(kind("_x"), None);
    assert_eq!(kind(">"), None);
    assert_eq!(kind(""), None);
    assert_eq!(kind("#"), None);
}

#[test]
fn numeric_text_is_classified_as_the_standard_parsers_do() {
    let samples = [
        "0", "1", "12", "1.", "1.5", "1.5e3", "1e5", "1E5", "1e+5", "1e-5", "1.e5", "1.5E-10", "1e",
        "1e+", "1.5.2", "1x", "0x10", "1_000", "12ab", "1..", "1.e", "1ee5", "1e5.", "1e5e5",
        "00012", "000.000", "123456789012345678901234567890", "1.7976931348623157e308", "1e999",
        "4.9e-324", "9.", "9e", "9.e+", "9.0e+0", "1 ", "1.5f",
    ];
    for s in samples {
        let is_int = s.parse::<i64>().is_ok();
        let is_float = s.parse::<f64>().is_ok();
        let want = if is_int {
            Some(TokenKind::Int)
        } else if is_float {
            Some(TokenKind::Flt)
        } else {
            None
        };
        assert_eq!(kind(s), want, "{:?}", s);
    }
}

#[test]
fn lines_and_rows() {
    let mut lexer = Lexer::new("rows.src", "i64 a = 1;\r\n\n  print(a)\nfn f() -> i64 { }");
    lexer.lex().unwrap();
    let rows = &lexer.tokens;
    assert_eq!(rows.len(), 4);
    assert_eq!(rows[0].len(), 5);
    assert_eq!(rows[1].len(), 0);
    assert_eq!(rows[2].len(), 4);
    assert_eq!(rows[3].len(), 8);
    assert_eq!(rows[2][0].kind, TokenKind::Lit);
    assert_eq!(rows[2][0].string, b"print".to_vec());
    assert_eq!((rows[2][0].loc.row, rows[2][0].loc.col), (2, 2));
    assert_eq!(rows[3][4].kind, TokenKind::Arrow);
    assert_eq!((rows[3][4].loc.row, rows[3][4].loc.col), (3, 7));
    assert_eq!(rows[3][5].kind, TokenKind::Type);
    assert_eq!(rows[0][0].loc.file_path.bytes, b"rows.src".to_vec());
    let mut lexer = Lexer::new("rows.src", "a\n");
    lexer.lex().unwrap();
    assert_eq!(lexer.tokens.len(), 1);
    let mut lexer = Lexer::new("rows.src", "a\n\n");
    lexer.lex().unwrap();
    assert_eq!(lexer.tokens.len(), 2);
    let mut lexer = Lexer::new("rows.src", "");
    lexer.lex().unwrap();
    assert_eq!(lexer.tokens.len(), 0);
    let mut lexer = Lexer::new("rows.src", "x");
    lexer.lex_line(b"one two").unwrap();
    assert_eq!(lexer.tokens.len(), 1);
    assert_eq!(lexer.tokens[0].len(), 2);
    assert!(lexer.lex_line(b"ok ?").is_err());
    assert_eq!(lexer.tokens.len(), 1);
}

#[test]
fn types_and_tags() {
    let tok = |kind: TokenKind, text: &str| Token { loc: here(), kind, string: text.as_bytes().to_vec() };
    assert_eq!(Type::try_from_token(&tok(TokenKind::Type, "i64")), Ok(Type::I64));
    assert_eq!(Type::try_from_token(&tok(TokenKind::Type, "f64")), Ok(Type::F64));
    assert_eq!(Type::try_from_token(&tok(TokenKind::Type, "u8")), Err(()));
    assert_eq!(Type::try_from_token(&tok(TokenKind::Lit, "i64")), Err(()));
    assert_eq!(Type::I64.to_il_str(), "l");
    assert_eq!(Type::F64.to_il_str(), "d");
}

#[test]
fn scopes() {
    let tok = |text: &str| Token { loc: here(), kind: TokenKind::Lit, string: text.as_bytes().to_vec() };
    let mut ctx = Ctx::empty_global();
    assert!(ctx.resolve(b"x").is_none());
    ctx.declare(VarDecl { ty: Type::I64, value: Expr::I64(1), name_token: tok("x") });
    ctx.declare(VarDecl { ty: Type::I64, value: Expr::I64(2), name_token: tok("y") });
    ctx.declare(VarDecl { ty: Type::F64, value: Expr::F64(3), name_token: tok("x") });
    assert!(matches!(ctx.resolve(b"x").unwrap().value, Expr::F64(3)));
    assert!(matches!(ctx.resolve(b"y").unwrap().value, Expr::I64(2)));
    assert!(ctx.resolve(b"z").is_none());
    let copy = ctx.clone();
    ctx.sym_map_mut().insert(VarDecl { ty: Type::I64, value: Expr::I64(4), name_token: tok("z") });
    assert!(ctx.sym_map().get(b"z").is_some());
    assert!(copy.sym_map().get(b"z").is_none());
    assert!(matches!(Ctx::empty_fn(), Ctx::Fn(_)));
    assert!(matches!(Ctx::empty_fncall(), Ctx::FnCall(_)));
    assert!(Ctx::empty_fn().resolve(b"x").is_none());
    assert!(Expr::Add(num(1), flt(1.0)).is_resolved());
    assert!(!Expr::Add(num(1), Box::new(Expr::Lit(tok("x")))).is_resolved());
}

#[test]
fn numeric_text_is_classified_as_the_standard_parsers_do_at_random() {
    let alphabet = b"0123456789..eeEE++--x_ ";
    let mut state: u64 = 0x2545f4914f6cdd1d;
    let mut next = move || {
        state ^= state << 13;
        state ^= state >> 7;
        state ^= state << 17;
        state
    };
    let mut floats = 0;
    let mut ints = 0;
    let mut malformed = 0;
    for _ in 0..200000 {
        let len = 1 + (next() % 8) as usize;
        let mut text = vec![b'0' + (next() % 10) as u8];
        for _ in 1..len {
            text.push(alphabet[(next() % alphabet.len() as u64) as usize]);
        }
        let s = std::str::from_utf8(&text).unwrap();
        let want = if s.parse::<i64>().is_ok() {
            ints += 1;
            Some(TokenKind::Int)
        } else if s.parse::<f64>().is_ok() {
            floats += 1;
            Some(TokenKind::Flt)
        } else {
            malformed += 1;
            None
        };
        assert_eq!(kind(s), want, "{:?}", s);
    }
    assert!(ints > 1000 && floats > 1000 && malformed > 1000);
}

fn texts(pieces: Vec<(usize, Vec<u8>)>) -> Vec<(usize, String)> {
    pieces
        .into_iter()
        .map(|(i, t)| (i, String::from_utf8(t).unwrap()))
        .collect()
}

#[test]
fn white_space_outside_ascii_cuts_too() {
    let got = texts(Lexer::split_whitespace_preserve_indices("a\u{a0}b".as_bytes()));
    assert_eq!(got, vec![(0, "a".to_string()), (3, "b".to_string())]);
    let got = texts(Lexer::split_whitespace_preserve_indices("a\u{2003}b".as_bytes()));
    assert_eq!(got, vec![(0, "a".to_string()), (4, "b".to_string())]);
    let mut lexer = Lexer::new("w.src", "1\u{a0}2");
    lexer.lex().unwrap();
    assert_eq!(lexer.tokens.len(), 1);
    assert_eq!(lexer.tokens[0].len(), 2);
    assert_eq!(lexer.tokens[0][0].kind, TokenKind::Int);
    assert_eq!(lexer.tokens[0][0].string, b"1".to_vec());
    assert_eq!(lexer.tokens[0][0].loc.col, 0);
    assert_eq!(lexer.tokens[0][1].kind, TokenKind::Int);
    assert_eq!(lexer.tokens[0][1].string, b"2".to_vec());
    assert_eq!(lexer.tokens[0][1].loc.col, 3);
}

#[test]
fn pieces_are_cut_at_every_white_space_character() {
    for code in 0u32..0x3100 {
        let c = match char::from_u32(code) {
            Some(c) => c,
            None => continue,
        };
        if b";=*/-+(){},>".contains(&(code as u8)) && code < 128 {
            continue;
        }
        let line = format!("ab{}cd{}", c, c);
        let got = texts(Lexer::split_whitespace_preserve_indices(line.as_bytes()));
        if c.is_whitespace() {
            assert_eq!(
                got,
                vec![(0, "ab".to_string()), (2 + c.len_utf8(), "cd".to_string())],
                "U+{:04X}",
                code
            );
        } else {
            assert_eq!(got, vec![(0, line.clone())], "U+{:04X}", code);
        }
    }
}

#[test]
fn pieces_match_a_walk_over_the_characters() {
    let alphabet: Vec<char> = "ab1 \t;=(->\u{85}\u{a0}\u{1680}\u{2000}\u{200a}\u{200b}\u{2028}\u{202f}\u{205f}\u{3000}\u{e9}\u{20ac}\u{c2}\u{e280}"
        .chars()
        .collect();
    let seps = [';', '=', '*', '/', '-', '+', '(', ')', '{', '}', ',', '>'];
    let mut state: u64 = 0x9e3779b97f4a7c15;
    let mut next = move || {
        state ^= state << 13;
        state ^= state >> 7;
        state ^= state << 17;
        state
    };
    for _ in 0..20000 {
        let len = (next() % 10) as usize;
        let line: String = (0..len)
            .map(|_| alphabet[(next() % alphabet.len() as u64) as usize])
            .collect();
        let mut want: Vec<(usize, String)> = Vec::new();
        let mut word: Option<usize> = None;
        let chars: Vec<(usize, char)> = line.char_indices().collect();
        let mut k = 0;
        while k < chars.len() {
            let (i, c) = chars[k];
            let is_sep = seps.contains(&c);
            if c.is_whitespace() || is_sep {
                if let Some(s) = word.take() {
                    want.push((s, line[s..i].to_string()));
                }
                if is_sep {
                    if c == '-' && k + 1 < chars.len() && chars[k + 1].1 == '>' {
                        want.push((i, "->".to_string()));
                        k += 1;
                    } else {
                        want.push((i, c.to_string()));
                    }
                }
            } else if word.is_none() {
                word = Some(i);
            }
            k += 1;
        }
        if let Some(s) = word.take() {
            want.push((s, line[s..].to_string()));
        }
        let got = texts(Lexer::split_whitespace_preserve_indices(line.as_bytes()));
        assert_eq!(got, want, "{:?}", line);
    }
}

#[test]
fn signed_numerals() {
    let samples = [
        "0", "5", "-5", "+5", "-0", "+0", "007", "-007", "9223372036854775807",
        "-9223372036854775808", "-9223372036854775809", "9223372036854775808",
        "+9223372036854775807", "+9223372036854775808", "", "-", "+", "--5", "+-5", "-+5", "5-",
        "- 5", "1a", "-1a", " 5", "99999999999999999999999", "-99999999999999999999999",
    ];
    for s in samples {
        assert_eq!(parse_signed_i64(s.as_bytes()), s.parse::<i64>().ok(), "{:?}", s);
    }
    assert_eq!(parse_digits(b"255", 255), Some(255));
    assert_eq!(parse_digits(b"256", 255), None);
    assert_eq!(parse_digits(b"18446744073709551615", u64::MAX), Some(u64::MAX));
    assert_eq!(parse_digits(b"18446744073709551616", u64::MAX), None);
    assert_eq!(parse_digits(b"", 9), None);
    assert_eq!(parse_digits(b"1x", 99), None);
}
