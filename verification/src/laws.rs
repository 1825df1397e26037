//! Properties of the whole pipeline, stated over the models of its
//! stages.

use vstd::prelude::*;
use crate::ast::{
    float_value, type_of_token, type_tag, AstKindView, AstView, ExprView, FnArgView,
    Type, VarDeclView,
};
use crate::compiler::{
    constant_of, decl_text, epilogue, node_text, nodes_text, program_text, Const, LowerErrorView,
};
use crate::ctx::CtxView;
use crate::error::ParseErrorView;
use crate::expr_parser::{expr_at, factor_at, int_literal, resolve, symbol_value, term_at};
use crate::fpu::{FloatOpView, StopView};
use crate::lexer::{LocView, TokenKind, TokenView};
use crate::parser::{
    after, arg_end, arg_value, args_from, block_from, call_at, decl_at, fn_at, folded, has_kind,
    head_at, node, params_from, program, semicolon_from, Block,
};
use crate::text::{
    all_digits, decimal, digits, digits_value, lemma_digits_round_trip, lit, signed_value,
};

verus! {

/// A declaration whose value is one literal of the declared type is
/// lowered to one copy instruction, which carries the tag of the declared
/// type and the encoding of the literal: the decimal numeral of an integer,
/// the decimal numeral of the bit pattern of a floating-point number.
pub proof fn lemma_literal_declaration(
    ty_tok: TokenView,
    name: TokenView,
    eq: TokenView,
    value: TokenView,
    semi: TokenView,
    table: Map<FloatOpView, u64>,
)
    requires
        type_of_token(ty_tok) is Ok,
        name.kind == TokenKind::Lit,
        eq.kind == TokenKind::Equal,
        semi.kind == TokenKind::Semicolon,
        match type_of_token(ty_tok)->Ok_0 {
            Type::I64 => value.kind == TokenKind::Int && int_literal(value) is Ok,
            Type::F64 => value.kind == TokenKind::Flt && table.dom().contains(
                FloatOpView::Parse(value.text),
            ),
        },
    ensures
        ({
            let toks = seq![ty_tok, name, eq, value, semi];
            let ty = type_of_token(ty_tok)->Ok_0;
            let encoding = match ty {
                Type::I64 => decimal(signed_value(value.text)->Some_0 as int),
                Type::F64 => digits(table[FloatOpView::Parse(value.text)] as nat),
            };
            &&& program(toks, table) is Ok
            &&& program_text(program(toks, table)->Ok_0) == Ok::<Seq<u8>, LowerErrorView>(
                lit("\t%") + name.text + lit(" =") + type_tag(ty) + lit(" copy ") + encoding + lit(
                    "\n",
                ) + epilogue(),
            )
        }),
{
    let toks = seq![ty_tok, name, eq, value, semi];
    let ty = type_of_token(ty_tok)->Ok_0;
    let syms = Map::<Seq<u8>, VarDeclView>::empty();
    let ctx = CtxView::Global(syms);
    assert(toks.len() == 5);
    assert(toks[0] == ty_tok && toks[1] == name && toks[2] == eq && toks[3] == value && toks[4]
        == semi);
    assert(ty_tok.kind == TokenKind::Type);
    // the expression is the one token before the `;`
    assert(semicolon_from(toks, 3) == 4) by {
        reveal_with_fuel(semicolon_from, 3);
    }
    let span = toks.subrange(3, 4);
    assert(span =~= seq![value]);
    assert(span.len() == 1 && span[0] == value);
    let c = match ty {
        Type::I64 => Const::Int(signed_value(value.text)->Some_0),
        Type::F64 => Const::Float(table[FloatOpView::Parse(value.text)]),
    };
    let e = match ty {
        Type::I64 => ExprView::I64(signed_value(value.text)->Some_0),
        Type::F64 => ExprView::F64(table[FloatOpView::Parse(value.text)]),
    };
    assert(factor_at(span, 0, syms, table) == Ok::<_, StopView>((e, 1int)));
    assert(term_at(span, 0, syms, table) == Ok::<_, StopView>((e, 1int)));
    assert(expr_at(span, 0, syms, table) == Ok::<_, StopView>((e, 1int)));
    assert(resolve(span, syms, table) == Ok::<_, StopView>(e));
    assert(folded(e, ty, table) == Ok::<_, StopView>(e));
    let d = VarDeclView { ty, value: e, name };
    assert(decl_at(toks, 0, syms, table) == Ok::<_, StopView>((d, 5int)));
    let n = node(Seq::empty(), ctx, ty_tok, AstKindView::VarDecl(d));
    let nodes = Seq::<AstView>::empty().push(n);
    let after_ctx = ctx.with_symbols(syms.insert(name.text, d));
    assert(after(toks, 0, 5) == 5);
    assert(block_from(toks, 5, after_ctx, table, false, nodes) == Ok::<_, StopView>(
        Block { nodes, pos: 5, ctx: after_ctx, closed: false },
    ));
    assert(block_from(toks, 0, ctx, table, false, Seq::empty()) == block_from(
        toks,
        5,
        after_ctx,
        table,
        false,
        nodes,
    ));
    assert(program(toks, table) == Ok::<_, StopView>(nodes));
    // the text of the one node
    assert(syms.dom().finite());
    assert(constant_of(e, syms, n.loc) == Ok::<Const, LowerErrorView>(c));
    assert(c.ty() == ty);
    let line = lit("\t%") + name.text + lit(" =") + type_tag(ty) + lit(" copy ") + c.text() + lit(
        "\n",
    );
    assert(decl_text(d, ctx, n.loc) == Ok::<Seq<u8>, LowerErrorView>(line));
    assert(node_text(n) == Ok::<Seq<u8>, LowerErrorView>(line));
    assert(nodes.len() == 1 && nodes[0] == n);
    assert(Seq::<u8>::empty() + line =~= line);
    assert(nodes_text(nodes, 1, line) == Ok::<Seq<u8>, LowerErrorView>(line));
    assert(nodes_text(nodes, 0, Seq::empty()) == Ok::<Seq<u8>, LowerErrorView>(line)) by {
        reveal_with_fuel(nodes_text, 2);
    }
}

/// The tags are single letters: `l` for the integer type and `d` for the
/// floating-point type.
pub proof fn lemma_type_tags()
    ensures
        type_tag(Type::I64) == seq![108u8],
        type_tag(Type::F64) == seq![100u8],
{
    reveal_strlit("l");
    reveal_strlit("d");
    vstd::string::is_ascii_spec_bytes("l");
    vstd::string::is_ascii_spec_bytes("d");
    assert(vstd::string::is_ascii("l"));
    assert(vstd::string::is_ascii("d"));
    assert(lit("l") =~= seq![108u8]);
    assert(lit("d") =~= seq![100u8]);
}

/// A declaration of the integer type whose value is the integer constant
/// `v` is lowered to one line: a tab, `%` and the name, ` =`, the tag `l`,
/// ` copy `, the signed decimal numeral of `v`, and a line feed. Nothing
/// else is written. Under the other type the same value is refused.
pub proof fn lemma_int_declaration_text(d: VarDeclView, v: i64, ctx: CtxView, loc: LocView)
    requires
        d.value == ExprView::I64(v),
        ctx.symbols().dom().finite(),
    ensures
        d.ty == Type::I64 ==> decl_text(d, ctx, loc) == Ok::<Seq<u8>, LowerErrorView>(
            lit("\t%") + d.name.text + lit(" =") + lit("l") + lit(" copy ") + decimal(v as int)
                + lit("\n"),
        ),
        d.ty == Type::F64 ==> decl_text(d, ctx, loc) == Err::<Seq<u8>, LowerErrorView>(
            LowerErrorView::TypeMismatch { loc },
        ),
{
    assert(constant_of(d.value, ctx.symbols(), loc) == Ok::<Const, LowerErrorView>(Const::Int(v)));
}

/// A declaration of the floating-point type whose value is the constant
/// with the bit pattern `bits` is lowered to one line: a tab, `%` and the
/// name, ` =`, the tag `d`, ` copy `, the decimal numeral of the bit
/// pattern, and a line feed. Nothing else is written. Under the other type
/// the same value is refused.
pub proof fn lemma_float_declaration_text(d: VarDeclView, bits: u64, ctx: CtxView, loc: LocView)
    requires
        d.value == ExprView::F64(bits),
        ctx.symbols().dom().finite(),
    ensures
        d.ty == Type::F64 ==> decl_text(d, ctx, loc) == Ok::<Seq<u8>, LowerErrorView>(
            lit("\t%") + d.name.text + lit(" =") + lit("d") + lit(" copy ") + digits(bits as nat)
                + lit("\n"),
        ),
        d.ty == Type::I64 ==> decl_text(d, ctx, loc) == Err::<Seq<u8>, LowerErrorView>(
            LowerErrorView::TypeMismatch { loc },
        ),
{
    assert(constant_of(d.value, ctx.symbols(), loc) == Ok::<Const, LowerErrorView>(
        Const::Float(bits),
    ));
}

/// The text of a floating-point constant gives back its bit pattern: the
/// text is a string of digits, and the number that the digits denote is the
/// pattern. (Whoever reads the number back and takes it as a bit pattern
/// has the exact value, not a decimal approximation of it.)
pub proof fn lemma_float_text_round_trip(bits: u64)
    ensures
        all_digits(Const::Float(bits).text()),
        digits_value(Const::Float(bits).text()) == bits,
{
    lemma_digits_round_trip(bits as nat);
}

/// The expression that an operator of the lower level makes of two
/// operands.
pub open spec fn additive(op: TokenKind, l: ExprView, r: ExprView) -> ExprView {
    if op == TokenKind::Plus {
        ExprView::Add(Box::new(l), Box::new(r))
    } else {
        ExprView::Sub(Box::new(l), Box::new(r))
    }
}

/// Operators of one level associate to the right: `x - y - z` is
/// `x - (y - z)`, for any three integer literals and any two of the
/// operators `+` and `-`. (With `8 - 4 - 2` the value is 6, not 2.)
pub proof fn lemma_right_associative(
    x: TokenView,
    o1: TokenView,
    y: TokenView,
    o2: TokenView,
    z: TokenView,
    syms: Map<Seq<u8>, VarDeclView>,
    table: Map<FloatOpView, u64>,
)
    requires
        x.kind == TokenKind::Int && int_literal(x) is Ok,
        y.kind == TokenKind::Int && int_literal(y) is Ok,
        z.kind == TokenKind::Int && int_literal(z) is Ok,
        o1.kind == TokenKind::Plus || o1.kind == TokenKind::Minus,
        o2.kind == TokenKind::Plus || o2.kind == TokenKind::Minus,
    ensures
        resolve(seq![x, o1, y, o2, z], syms, table) == Ok::<ExprView, StopView>(
            additive(
                o1.kind,
                int_literal(x)->Ok_0,
                additive(o2.kind, int_literal(y)->Ok_0, int_literal(z)->Ok_0),
            ),
        ),
{
    let toks = seq![x, o1, y, o2, z];
    let ex = int_literal(x)->Ok_0;
    let ey = int_literal(y)->Ok_0;
    let ez = int_literal(z)->Ok_0;
    assert(toks.len() == 5);
    assert(toks[0] == x && toks[1] == o1 && toks[2] == y && toks[3] == o2 && toks[4] == z);
    assert(factor_at(toks, 4, syms, table) == Ok::<_, StopView>((ez, 5int)));
    assert(term_at(toks, 4, syms, table) == Ok::<_, StopView>((ez, 5int)));
    assert(expr_at(toks, 4, syms, table) == Ok::<_, StopView>((ez, 5int)));
    assert(factor_at(toks, 2, syms, table) == Ok::<_, StopView>((ey, 3int)));
    assert(term_at(toks, 2, syms, table) == Ok::<_, StopView>((ey, 3int)));
    let inner = additive(o2.kind, ey, ez);
    assert(expr_at(toks, 2, syms, table) == Ok::<_, StopView>((inner, 5int)));
    assert(factor_at(toks, 0, syms, table) == Ok::<_, StopView>((ex, 1int)));
    assert(term_at(toks, 0, syms, table) == Ok::<_, StopView>((ex, 1int)));
    assert(expr_at(toks, 0, syms, table) == Ok::<_, StopView>(
        (additive(o1.kind, ex, inner), 5int),
    ));
}

/// The body of a function is parsed in a scope of its own, which starts
/// without any name. A declaration at the start of a body whose value is a
/// single identifier is therefore an undefined symbol, whatever the scope
/// `outer` in which the function is defined holds, that name included.
pub proof fn lemma_scope_isolation(
    toks: Seq<TokenView>,
    pos: int,
    outer: CtxView,
    table: Map<FloatOpView, u64>,
    expect_matching: bool,
    acc: Seq<AstView>,
)
    requires
        has_kind(toks, pos, TokenKind::Fn),
        head_at(toks, pos) is Ok,
        ({
            let open = head_at(toks, pos)->Ok_0.open;
            &&& open + 5 < toks.len()
            &&& type_of_token(toks[open + 1]) is Ok
            &&& has_kind(toks, open + 2, TokenKind::Lit)
            &&& has_kind(toks, open + 3, TokenKind::Equal)
            &&& has_kind(toks, open + 4, TokenKind::Lit)
            &&& has_kind(toks, open + 5, TokenKind::Semicolon)
        }),
    ensures
        ({
            let used = toks[head_at(toks, pos)->Ok_0.open + 4];
            block_from(toks, pos, outer, table, expect_matching, acc) == Err::<Block, StopView>(
                StopView::Error(
                    ParseErrorView::UndefinedSymbol { name: used.text, loc: used.loc },
                ),
            )
        }),
{
    let head = head_at(toks, pos)->Ok_0;
    let open = head.open;
    let used = toks[open + 4];
    let none = Map::<Seq<u8>, VarDeclView>::empty();
    let failure = StopView::Error(
        ParseErrorView::UndefinedSymbol { name: used.text, loc: used.loc },
    );
    crate::parser::lemma_head_bounds(toks, pos);
    assert(semicolon_from(toks, open + 4) == open + 5) by {
        reveal_with_fuel(semicolon_from, 3);
    }
    let span = toks.subrange(open + 4, open + 5);
    assert(span.len() == 1 && span[0] == used);
    assert(symbol_value(used, none) == Err::<ExprView, StopView>(failure));
    assert(factor_at(span, 0, none, table) == Err::<(ExprView, int), StopView>(failure));
    assert(term_at(span, 0, none, table) == Err::<(ExprView, int), StopView>(failure));
    assert(expr_at(span, 0, none, table) == Err::<(ExprView, int), StopView>(failure));
    assert(resolve(span, none, table) == Err::<ExprView, StopView>(failure));
    assert(toks[open + 1].kind == TokenKind::Type);
    assert(decl_at(toks, open + 1, none, table) == Err::<(VarDeclView, int), StopView>(failure));
    assert(block_from(toks, open + 1, CtxView::Fn(none), table, true, Seq::empty()) == Err::<
        Block,
        StopView,
    >(failure));
    assert(fn_at(toks, pos, table) == Err::<(crate::ast::FnView, int), StopView>(failure));
}

/// Whether every identifier among the tokens from `lo` up to `hi` is bound
/// in the table `syms`.
pub open spec fn names_bound(
    toks: Seq<TokenView>,
    lo: int,
    hi: int,
    syms: Map<Seq<u8>, VarDeclView>,
) -> bool {
    forall|j: int|
        lo <= j < hi && (#[trigger] toks[j]).kind == TokenKind::Lit ==> syms.dom().contains(
            toks[j].text,
        )
}

proof fn lemma_factor_bound(
    toks: Seq<TokenView>,
    pos: int,
    syms: Map<Seq<u8>, VarDeclView>,
    table: Map<FloatOpView, u64>,
)
    ensures
        factor_at(toks, pos, syms, table) matches Ok((_, p)) ==> pos < p <= toks.len()
            && names_bound(toks, pos, p, syms),
    decreases toks.len() - pos, 0int,
{
    if 0 <= pos < toks.len() && toks[pos].kind == TokenKind::LParen {
        lemma_expr_bound(toks, pos + 1, syms, table);
    }
}

proof fn lemma_term_bound(
    toks: Seq<TokenView>,
    pos: int,
    syms: Map<Seq<u8>, VarDeclView>,
    table: Map<FloatOpView, u64>,
)
    ensures
        term_at(toks, pos, syms, table) matches Ok((_, p)) ==> pos < p <= toks.len()
            && names_bound(toks, pos, p, syms),
    decreases toks.len() - pos, 1int,
{
    lemma_factor_bound(toks, pos, syms, table);
    match factor_at(toks, pos, syms, table) {
        Ok((_, p)) => {
            if pos < p < toks.len() && (toks[p].kind == TokenKind::Asterisk || toks[p].kind
                == TokenKind::Slash) {
                lemma_term_bound(toks, p + 1, syms, table);
            }
        },
        Err(_) => {},
    }
}

proof fn lemma_expr_bound(
    toks: Seq<TokenView>,
    pos: int,
    syms: Map<Seq<u8>, VarDeclView>,
    table: Map<FloatOpView, u64>,
)
    ensures
        expr_at(toks, pos, syms, table) matches Ok((_, p)) ==> pos < p <= toks.len()
            && names_bound(toks, pos, p, syms),
    decreases toks.len() - pos, 2int,
{
    lemma_term_bound(toks, pos, syms, table);
    match term_at(toks, pos, syms, table) {
        Ok((_, p)) => {
            if pos < p < toks.len() && (toks[p].kind == TokenKind::Plus || toks[p].kind
                == TokenKind::Minus) {
                lemma_expr_bound(toks, p + 1, syms, table);
            }
        },
        Err(_) => {},
    }
}

/// An expression resolves only if every identifier in it is bound: where
/// the tokens hold an identifier that the symbol table lacks, the result is
/// never an expression.
pub proof fn lemma_resolved_names_are_bound(
    toks: Seq<TokenView>,
    syms: Map<Seq<u8>, VarDeclView>,
    table: Map<FloatOpView, u64>,
)
    ensures
        resolve(toks, syms, table) is Ok ==> names_bound(toks, 0, toks.len() as int, syms),
{
    lemma_expr_bound(toks, 0, syms, table);
}

/// Whether an outcome is the error of an undefined symbol that names an
/// identifier among the tokens from `lo` on which the table `syms` lacks,
/// or is no such error at all.
pub open spec fn undefined_is_unbound<T>(
    r: Result<T, StopView>,
    toks: Seq<TokenView>,
    lo: int,
    syms: Map<Seq<u8>, VarDeclView>,
) -> bool {
    r matches Err(StopView::Error(ParseErrorView::UndefinedSymbol { name, loc })) ==> exists|
        j: int,
    |
        lo <= j < toks.len() && (#[trigger] toks[j]).kind == TokenKind::Lit && toks[j].text == name
            && toks[j].loc == loc && !syms.dom().contains(name)
}

proof fn lemma_factor_undefined(
    toks: Seq<TokenView>,
    pos: int,
    syms: Map<Seq<u8>, VarDeclView>,
    table: Map<FloatOpView, u64>,
)
    ensures
        undefined_is_unbound(factor_at(toks, pos, syms, table), toks, pos, syms),
    decreases toks.len() - pos, 0int,
{
    if 0 <= pos < toks.len() {
        if toks[pos].kind == TokenKind::LParen {
            lemma_expr_undefined(toks, pos + 1, syms, table);
        } else if toks[pos].kind == TokenKind::Lit {
            assert(toks[pos].kind == TokenKind::Lit);
        }
    }
}

proof fn lemma_term_undefined(
    toks: Seq<TokenView>,
    pos: int,
    syms: Map<Seq<u8>, VarDeclView>,
    table: Map<FloatOpView, u64>,
)
    ensures
        undefined_is_unbound(term_at(toks, pos, syms, table), toks, pos, syms),
    decreases toks.len() - pos, 1int,
{
    lemma_factor_undefined(toks, pos, syms, table);
    match factor_at(toks, pos, syms, table) {
        Ok((_, p)) => {
            if pos < p < toks.len() && (toks[p].kind == TokenKind::Asterisk || toks[p].kind
                == TokenKind::Slash) {
                lemma_term_undefined(toks, p + 1, syms, table);
            }
        },
        Err(_) => {},
    }
}

proof fn lemma_expr_undefined(
    toks: Seq<TokenView>,
    pos: int,
    syms: Map<Seq<u8>, VarDeclView>,
    table: Map<FloatOpView, u64>,
)
    ensures
        undefined_is_unbound(expr_at(toks, pos, syms, table), toks, pos, syms),
    decreases toks.len() - pos, 2int,
{
    lemma_term_undefined(toks, pos, syms, table);
    match term_at(toks, pos, syms, table) {
        Ok((_, p)) => {
            if pos < p < toks.len() && (toks[p].kind == TokenKind::Plus || toks[p].kind
                == TokenKind::Minus) {
                lemma_expr_undefined(toks, p + 1, syms, table);
            }
        },
        Err(_) => {},
    }
}

/// The error of an undefined symbol is never raised for a name that is
/// bound: it names an identifier of the expression that the symbol table
/// lacks, at the place of that identifier.
pub proof fn lemma_undefined_symbol_is_unbound(
    toks: Seq<TokenView>,
    syms: Map<Seq<u8>, VarDeclView>,
    table: Map<FloatOpView, u64>,
)
    ensures
        undefined_is_unbound(resolve(toks, syms, table), toks, 0, syms),
{
    lemma_expr_undefined(toks, 0, syms, table);
}

/// Whether the identifier at `j` is used as a value: it is not the name
/// that a declaration, a parameter or a function definition introduces,
/// and not the name of a call.
pub open spec fn is_use(toks: Seq<TokenView>, j: int) -> bool {
    &&& 0 <= j < toks.len()
    &&& toks[j].kind == TokenKind::Lit
    &&& !(j > 0 && (toks[j - 1].kind == TokenKind::Type || toks[j - 1].kind == TokenKind::Fn))
    &&& !(j + 1 < toks.len() && toks[j + 1].kind == TokenKind::LParen)
}

/// Whether a type keyword at `q` is followed by the identifier `name`.
pub open spec fn declares(toks: Seq<TokenView>, q: int, name: Seq<u8>) -> bool {
    &&& 0 <= q
    &&& q + 1 < toks.len()
    &&& toks[q].kind == TokenKind::Type
    &&& toks[q + 1].kind == TokenKind::Lit
    &&& toks[q + 1].text == name
}

/// Whether `name` is introduced after a type keyword somewhere from `lo`
/// on and before `hi`.
pub open spec fn declared_in(toks: Seq<TokenView>, lo: int, hi: int, name: Seq<u8>) -> bool {
    exists|q: int| lo <= q && q + 1 < hi && #[trigger] declares(toks, q, name)
}

/// Whether every name of the table `syms` is introduced from `lo` on and
/// before `hi`.
pub open spec fn scope_declared(
    toks: Seq<TokenView>,
    lo: int,
    hi: int,
    syms: Map<Seq<u8>, VarDeclView>,
) -> bool {
    forall|name: Seq<u8>| #[trigger]
        syms.dom().contains(name) ==> declared_in(toks, lo, hi, name)
}

/// Whether every identifier that is used as a value from `from` up to
/// `to` is introduced from `lo` on and before its use.
pub open spec fn uses_declared(toks: Seq<TokenView>, lo: int, from: int, to: int) -> bool {
    forall|j: int|
        from <= j < to && #[trigger] is_use(toks, j) ==> declared_in(toks, lo, j, toks[j].text)
}

proof fn lemma_declared_wider(toks: Seq<TokenView>, lo: int, hi: int, lo2: int, hi2: int, name: Seq<u8>)
    requires
        declared_in(toks, lo, hi, name),
        lo2 <= lo,
        hi <= hi2,
    ensures
        declared_in(toks, lo2, hi2, name),
{
    let q = choose|q: int| lo <= q && q + 1 < hi && #[trigger] declares(toks, q, name);
    assert(lo2 <= q && q + 1 < hi2 && declares(toks, q, name));
}

proof fn lemma_params_names(toks: Seq<TokenView>, open: int, p: int, acc: Seq<FnArgView>)
    requires
        1 <= p <= toks.len(),
    ensures
        params_from(toks, open, p, acc) matches Ok((_, q)) ==> p < q <= toks.len() && forall|
            j: int,
        |
            p <= j < q ==> !#[trigger] is_use(toks, j),
    decreases toks.len() - p,
{
    if p < toks.len() {
        match type_of_token(toks[p]) {
            Ok(ty) => {
                if has_kind(toks, p + 1, TokenKind::Lit) && !has_kind(toks, p + 2, TokenKind::RParen)
                    && has_kind(toks, p + 2, TokenKind::Comma) {
                    lemma_params_names(
                        toks,
                        open,
                        p + 3,
                        acc.push(FnArgView { ty, name: toks[p + 1] }),
                    );
                }
            },
            Err(_) => {},
        }
    }
}

proof fn lemma_head_names(toks: Seq<TokenView>, pos: int)
    requires
        0 <= pos < toks.len(),
        toks[pos].kind == TokenKind::Fn,
    ensures
        head_at(toks, pos) matches Ok(head) ==> pos + 4 <= head.open < toks.len() && forall|
            j: int,
        |
            pos <= j <= head.open ==> !#[trigger] is_use(toks, j),
{
    if has_kind(toks, pos + 1, TokenKind::Lit) && has_kind(toks, pos + 2, TokenKind::LParen) {
        if !has_kind(toks, pos + 3, TokenKind::RParen) {
            lemma_params_names(toks, pos + 2, pos + 3, Seq::empty());
        }
    }
}

proof fn lemma_arg_end_stops(toks: Seq<TokenView>, p: int, depth: nat)
    requires
        0 <= p <= toks.len(),
    ensures
        p <= arg_end(toks, p, depth) <= toks.len(),
        arg_end(toks, p, depth) < toks.len() ==> toks[arg_end(toks, p, depth)].kind
            == TokenKind::RParen || toks[arg_end(toks, p, depth)].kind == TokenKind::Comma,
    decreases toks.len() - p,
{
    if p < toks.len() {
        if toks[p].kind == TokenKind::LParen {
            lemma_arg_end_stops(toks, p + 1, depth + 1);
        } else if depth == 0 && (toks[p].kind == TokenKind::RParen || toks[p].kind
            == TokenKind::Comma) {
        } else if toks[p].kind == TokenKind::RParen {
            lemma_arg_end_stops(toks, p + 1, (depth - 1) as nat);
        } else {
            lemma_arg_end_stops(toks, p + 1, depth);
        }
    }
}

proof fn lemma_semicolon_stops(toks: Seq<TokenView>, p: int)
    requires
        0 <= p <= toks.len(),
    ensures
        p <= semicolon_from(toks, p) <= toks.len(),
        semicolon_from(toks, p) < toks.len() ==> toks[semicolon_from(toks, p)].kind
            == TokenKind::Semicolon,
    decreases toks.len() - p,
{
    if p < toks.len() && toks[p].kind != TokenKind::Semicolon {
        lemma_semicolon_stops(toks, p + 1);
    }
}

proof fn lemma_args_bound(
    toks: Seq<TokenView>,
    open: int,
    p: int,
    syms: Map<Seq<u8>, VarDeclView>,
    table: Map<FloatOpView, u64>,
    acc: Seq<ExprView>,
)
    requires
        0 <= p <= toks.len(),
    ensures
        args_from(toks, open, p, syms, table, acc) matches Ok((_, q)) ==> p < q <= toks.len()
            && names_bound(toks, p, q, syms),
    decreases toks.len() - p,
{
    lemma_arg_end_stops(toks, p, 0);
    let e = arg_end(toks, p, 0);
    if p < e < toks.len() {
        let span = toks.subrange(p, e);
        lemma_resolved_names_are_bound(span, syms, table);
        match arg_value(span, syms, table) {
            Ok(v) => {
                assert forall|j: int| p <= j < e && (#[trigger] toks[j]).kind
                    == TokenKind::Lit implies syms.dom().contains(toks[j].text) by {
                    assert(span[j - p] == toks[j]);
                }
                if toks[e].kind != TokenKind::RParen {
                    lemma_args_bound(toks, open, e + 1, syms, table, acc.push(v));
                }
            },
            Err(_) => {},
        }
    }
}

proof fn lemma_fn_uses(toks: Seq<TokenView>, pos: int, table: Map<FloatOpView, u64>)
    requires
        0 <= pos < toks.len(),
        toks[pos].kind == TokenKind::Fn,
    ensures
        fn_at(toks, pos, table) matches Ok((_, p)) ==> pos < p <= toks.len() && uses_declared(
            toks,
            head_at(toks, pos)->Ok_0.open + 1,
            pos,
            p,
        ),
    decreases toks.len() - pos, 0int,
{
    lemma_head_names(toks, pos);
    match head_at(toks, pos) {
        Ok(head) => {
            let inner = CtxView::Fn(Map::empty());
            lemma_block_uses(toks, head.open + 1, inner, table, true, Seq::empty(), head.open + 1);
        },
        Err(_) => {},
    }
}

proof fn lemma_block_uses(
    toks: Seq<TokenView>,
    pos: int,
    ctx: CtxView,
    table: Map<FloatOpView, u64>,
    expect_matching: bool,
    acc: Seq<AstView>,
    lo: int,
)
    requires
        0 <= lo <= pos <= toks.len(),
        scope_declared(toks, lo, pos, ctx.symbols()),
    ensures
        block_from(toks, pos, ctx, table, expect_matching, acc) matches Ok(b) ==> pos <= b.pos
            <= toks.len() && (b.closed ==> has_kind(toks, b.pos, TokenKind::RCurly))
            && uses_declared(toks, lo, pos, b.pos),
    decreases toks.len() - pos, 1int,
{
    if pos < toks.len() {
        let syms = ctx.symbols();
        match toks[pos].kind {
            TokenKind::RCurly => {},
            TokenKind::Fn => {
                lemma_fn_uses(toks, pos, table);
                match fn_at(toks, pos, table) {
                    Ok((f, p)) => {
                        let next = acc.push(node(acc, ctx, toks[pos], AstKindView::Fn(f)));
                        let inner = head_at(toks, pos)->Ok_0.open + 1;
                        assert forall|name: Seq<u8>| #[trigger]
                            syms.dom().contains(name) implies declared_in(toks, lo, p, name) by {
                            lemma_declared_wider(toks, lo, pos, lo, p, name);
                        }
                        lemma_block_uses(toks, p, ctx, table, expect_matching, next, lo);
                        assert forall|j: int| pos <= j < p && #[trigger] is_use(toks, j) implies declared_in(
                            toks,
                            lo,
                            j,
                            toks[j].text,
                        ) by {
                            lemma_declared_wider(toks, inner, j, lo, j, toks[j].text);
                        }
                    },
                    Err(_) => {},
                }
            },
            TokenKind::Lit => {
                if pos + 2 <= toks.len() {
                    lemma_args_bound(toks, pos + 1, pos + 2, syms, table, Seq::empty());
                }
                match call_at(toks, pos, syms, table) {
                    Ok((c, p)) => {
                        let next = acc.push(node(acc, ctx, toks[pos], AstKindView::FnCall(c)));
                        assert(pos < p <= toks.len());
                        assert forall|name: Seq<u8>| #[trigger]
                            syms.dom().contains(name) implies declared_in(toks, lo, p, name) by {
                            lemma_declared_wider(toks, lo, pos, lo, p, name);
                        }
                        lemma_block_uses(toks, p, ctx, table, expect_matching, next, lo);
                        assert forall|j: int| pos <= j < p && #[trigger] is_use(toks, j) implies declared_in(
                            toks,
                            lo,
                            j,
                            toks[j].text,
                        ) by {
                            assert(j >= pos + 2);
                            assert(syms.dom().contains(toks[j].text));
                            lemma_declared_wider(toks, lo, pos, lo, j, toks[j].text);
                        }
                    },
                    Err(_) => {},
                }
            },
            TokenKind::Type => {
                let semi = semicolon_from(toks, pos + 3);
                if pos + 3 <= toks.len() {
                    lemma_semicolon_stops(toks, pos + 3);
                }
                match decl_at(toks, pos, syms, table) {
                    Ok((d, p)) => {
                        let span = toks.subrange(pos + 3, semi);
                        lemma_resolved_names_are_bound(span, syms, table);
                        let next = acc.push(node(acc, ctx, toks[pos], AstKindView::VarDecl(d)));
                        let after_ctx = ctx.with_symbols(syms.insert(d.name.text, d));
                        assert(p == semi + 1);
                        assert forall|name: Seq<u8>| #[trigger]
                            after_ctx.symbols().dom().contains(name) implies declared_in(
                            toks,
                            lo,
                            p,
                            name,
                        ) by {
                            if name == d.name.text {
                                assert(declares(toks, pos, name));
                            } else {
                                lemma_declared_wider(toks, lo, pos, lo, p, name);
                            }
                        }
                        lemma_block_uses(toks, p, after_ctx, table, expect_matching, next, lo);
                        assert forall|j: int| pos <= j < p && #[trigger] is_use(toks, j) implies declared_in(
                            toks,
                            lo,
                            j,
                            toks[j].text,
                        ) by {
                            assert(pos + 3 <= j < semi);
                            assert(span[j - (pos + 3)] == toks[j]);
                            assert(syms.dom().contains(toks[j].text));
                            lemma_declared_wider(toks, lo, pos, lo, j, toks[j].text);
                        }
                    },
                    Err(_) => {},
                }
            },
            _ => {
                lemma_block_uses(toks, pos + 1, ctx, table, expect_matching, acc, lo);
                assert forall|name: Seq<u8>| #[trigger]
                    syms.dom().contains(name) implies declared_in(toks, lo, pos + 1, name) by {
                    lemma_declared_wider(toks, lo, pos, lo, pos + 1, name);
                }
            },
        }
    }
}

/// A name is visible in a function body only from its declaration in that
/// body on. In a function definition that parses, every identifier that is
/// used as a value in the body is introduced by a declaration that stands
/// in the body before the use. So a body that refers to a name before any
/// declaration of it in the body never parses, whatever the scope in which
/// the function is defined holds: the parse of a function takes no scope.
pub proof fn lemma_body_names_are_its_own(
    toks: Seq<TokenView>,
    pos: int,
    table: Map<FloatOpView, u64>,
)
    requires
        has_kind(toks, pos, TokenKind::Fn),
        fn_at(toks, pos, table) is Ok,
    ensures
        ({
            let body = head_at(toks, pos)->Ok_0.open + 1;
            let end = fn_at(toks, pos, table)->Ok_0.1;
            forall|j: int|
                body <= j < end && #[trigger] is_use(toks, j) ==> declared_in(
                    toks,
                    body,
                    j,
                    toks[j].text,
                )
        }),
{
    lemma_fn_uses(toks, pos, table);
}

/// Whether the tokens of `t1` from `p1` on are the tokens of `t2` from
/// `p2` on.
pub open spec fn same_from(t1: Seq<TokenView>, p1: int, t2: Seq<TokenView>, p2: int) -> bool {
    &&& 0 <= p1 <= t1.len()
    &&& 0 <= p2 <= t2.len()
    &&& t1.len() - p1 == t2.len() - p2
    &&& forall|j: int| p1 <= j < t1.len() ==> #[trigger] t1[j] == t2[j - p1 + p2]
}

proof fn lemma_arg_end_same(
    t1: Seq<TokenView>,
    p1: int,
    t2: Seq<TokenView>,
    p2: int,
    depth: nat,
)
    requires
        same_from(t1, p1, t2, p2),
    ensures
        arg_end(t1, p1, depth) - p1 == arg_end(t2, p2, depth) - p2,
        p1 <= arg_end(t1, p1, depth) <= t1.len(),
    decreases t1.len() - p1,
{
    if p1 < t1.len() {
        assert(t1[p1] == t2[p2]);
        if t1[p1].kind == TokenKind::LParen {
            lemma_arg_end_same(t1, p1 + 1, t2, p2 + 1, depth + 1);
        } else if depth == 0 && (t1[p1].kind == TokenKind::RParen || t1[p1].kind
            == TokenKind::Comma) {
        } else if t1[p1].kind == TokenKind::RParen {
            lemma_arg_end_same(t1, p1 + 1, t2, p2 + 1, (depth - 1) as nat);
        } else {
            lemma_arg_end_same(t1, p1 + 1, t2, p2 + 1, depth);
        }
    }
}

/// How the outcome `r1` of a parse at `p1` and the outcome `r2` of the
/// same parse at `p2` go together: the same value, ending as far behind the
/// start, or the same reason to stop.
pub open spec fn same_outcome<T>(
    r1: Result<(T, int), StopView>,
    p1: int,
    r2: Result<(T, int), StopView>,
    p2: int,
) -> bool {
    match r1 {
        Ok((v, q)) => r2 == Ok::<(T, int), StopView>((v, q - p1 + p2)),
        Err(s) => r2 == Err::<(T, int), StopView>(s),
    }
}

proof fn lemma_args_same(
    t1: Seq<TokenView>,
    o1: int,
    p1: int,
    t2: Seq<TokenView>,
    o2: int,
    p2: int,
    syms: Map<Seq<u8>, VarDeclView>,
    table: Map<FloatOpView, u64>,
    acc: Seq<ExprView>,
)
    requires
        same_from(t1, p1, t2, p2),
        t1[o1].loc == t2[o2].loc,
    ensures
        same_outcome(
            args_from(t1, o1, p1, syms, table, acc),
            p1,
            args_from(t2, o2, p2, syms, table, acc),
            p2,
        ),
    decreases t1.len() - p1,
{
    lemma_arg_end_same(t1, p1, t2, p2, 0);
    let e1 = arg_end(t1, p1, 0);
    let e2 = arg_end(t2, p2, 0);
    if p1 <= e1 < t1.len() {
        assert(t1[e1] == t2[e2]);
        assert(t1[p1] == t2[p2]);
        if e1 > p1 {
            assert(t1.subrange(p1, e1) =~= t2.subrange(p2, e2)) by {
                assert forall|k: int| 0 <= k < e1 - p1 implies t1.subrange(p1, e1)[k] == t2.subrange(
                    p2,
                    e2,
                )[k] by {
                    assert(t1[p1 + k] == t2[p2 + k]);
                }
            }
            match arg_value(t1.subrange(p1, e1), syms, table) {
                Ok(v) => {
                    if t1[e1].kind != TokenKind::RParen {
                        lemma_args_same(t1, o1, e1 + 1, t2, o2, e2 + 1, syms, table, acc.push(v));
                    }
                },
                Err(_) => {},
            }
        }
    }
}

/// A call parses to the same value wherever it stands. What the tokens
/// before it are makes no difference, function definitions or none, a
/// definition of the function that is called or not: with the same tokens
/// from the call on and the same scope, the call is the same, and so is an
/// error in it.
pub proof fn lemma_call_ignores_what_came_before(
    t1: Seq<TokenView>,
    p1: int,
    t2: Seq<TokenView>,
    p2: int,
    syms: Map<Seq<u8>, VarDeclView>,
    table: Map<FloatOpView, u64>,
)
    requires
        same_from(t1, p1, t2, p2),
        p1 < t1.len(),
    ensures
        same_outcome(call_at(t1, p1, syms, table), p1, call_at(t2, p2, syms, table), p2),
{
    assert(t1[p1] == t2[p2]);
    assert(t1[t1.len() - 1] == t2[t2.len() - 1]);
    if p1 + 1 < t1.len() {
        assert(t1[p1 + 1] == t2[p2 + 1]);
        if p1 + 2 < t1.len() {
            assert(t1[p1 + 2] == t2[p2 + 2]);
        }
        lemma_args_same(t1, p1 + 1, p1 + 2, t2, p2 + 1, p2 + 2, syms, table, Seq::empty());
    }
}

/// A function definition neither sees nor changes the scope in which it
/// stands: what it parses to is the same in every scope, an error in it is
/// the same error in every scope, and the statements after it are parsed in
/// the scope that was active before it.
pub proof fn lemma_function_scope(
    toks: Seq<TokenView>,
    pos: int,
    ctx: CtxView,
    table: Map<FloatOpView, u64>,
    expect_matching: bool,
    acc: Seq<AstView>,
)
    requires
        has_kind(toks, pos, TokenKind::Fn),
    ensures
        block_from(toks, pos, ctx, table, expect_matching, acc) == (match fn_at(toks, pos, table) {
            Err(s) => Err::<Block, StopView>(s),
            Ok((f, p)) => block_from(
                toks,
                p,
                ctx,
                table,
                expect_matching,
                acc.push(node(acc, ctx, toks[pos], AstKindView::Fn(f))),
            ),
        }),
{
    crate::parser::lemma_fn_advances(toks, pos, table);
}

/// Whether the table `b` holds every result of the table `a`.
pub open spec fn extends(b: Map<FloatOpView, u64>, a: Map<FloatOpView, u64>) -> bool {
    forall|op: FloatOpView| a.dom().contains(op) ==> b.dom().contains(op) && b[op] == a[op]
}

/// Whether an outcome is final: a value or an error, and not a request
/// for a result.
pub open spec fn settled<T>(r: Result<T, StopView>) -> bool {
    match r {
        Err(StopView::Float(_)) => false,
        _ => true,
    }
}

/// How the outcome `ra` under the table `a` and the outcome `rb` under a
/// table that extends `a` go together: where `ra` asks for a result, `a`
/// lacks it; where `ra` is final, `rb` is the same.
pub open spec fn stable<T>(ra: Result<T, StopView>, rb: Result<T, StopView>, a: Map<FloatOpView, u64>) -> bool {
    match ra {
        Err(StopView::Float(op)) => !a.dom().contains(op),
        _ => rb == ra,
    }
}

proof fn lemma_float_value_stable(e: ExprView, a: Map<FloatOpView, u64>, b: Map<FloatOpView, u64>)
    requires
        extends(b, a),
    ensures
        stable(float_value(e, a), float_value(e, b), a),
    decreases e,
{
    match e {
        ExprView::Add(l, r) => {
            lemma_float_value_stable(*l, a, b);
            lemma_float_value_stable(*r, a, b);
        },
        ExprView::Sub(l, r) => {
            lemma_float_value_stable(*l, a, b);
            lemma_float_value_stable(*r, a, b);
        },
        ExprView::Mul(l, r) => {
            lemma_float_value_stable(*l, a, b);
            lemma_float_value_stable(*r, a, b);
        },
        ExprView::Div(l, r) => {
            lemma_float_value_stable(*l, a, b);
            lemma_float_value_stable(*r, a, b);
        },
        _ => {},
    }
}

proof fn lemma_factor_stable(
    toks: Seq<TokenView>,
    pos: int,
    syms: Map<Seq<u8>, VarDeclView>,
    a: Map<FloatOpView, u64>,
    b: Map<FloatOpView, u64>,
)
    requires
        extends(b, a),
    ensures
        stable(factor_at(toks, pos, syms, a), factor_at(toks, pos, syms, b), a),
    decreases toks.len() - pos, 0int,
{
    if 0 <= pos < toks.len() && toks[pos].kind == TokenKind::LParen {
        lemma_expr_stable(toks, pos + 1, syms, a, b);
    }
}

proof fn lemma_term_stable(
    toks: Seq<TokenView>,
    pos: int,
    syms: Map<Seq<u8>, VarDeclView>,
    a: Map<FloatOpView, u64>,
    b: Map<FloatOpView, u64>,
)
    requires
        extends(b, a),
    ensures
        stable(term_at(toks, pos, syms, a), term_at(toks, pos, syms, b), a),
    decreases toks.len() - pos, 1int,
{
    lemma_factor_stable(toks, pos, syms, a, b);
    match factor_at(toks, pos, syms, a) {
        Ok((_, p)) => {
            if pos < p < toks.len() && (toks[p].kind == TokenKind::Asterisk || toks[p].kind
                == TokenKind::Slash) {
                lemma_term_stable(toks, p + 1, syms, a, b);
            }
        },
        Err(_) => {},
    }
}

proof fn lemma_expr_stable(
    toks: Seq<TokenView>,
    pos: int,
    syms: Map<Seq<u8>, VarDeclView>,
    a: Map<FloatOpView, u64>,
    b: Map<FloatOpView, u64>,
)
    requires
        extends(b, a),
    ensures
        stable(expr_at(toks, pos, syms, a), expr_at(toks, pos, syms, b), a),
    decreases toks.len() - pos, 2int,
{
    lemma_term_stable(toks, pos, syms, a, b);
    match term_at(toks, pos, syms, a) {
        Ok((_, p)) => {
            if pos < p < toks.len() && (toks[p].kind == TokenKind::Plus || toks[p].kind
                == TokenKind::Minus) {
                lemma_expr_stable(toks, p + 1, syms, a, b);
            }
        },
        Err(_) => {},
    }
}

proof fn lemma_folded_stable(e: ExprView, ty: Type, a: Map<FloatOpView, u64>, b: Map<FloatOpView, u64>)
    requires
        extends(b, a),
    ensures
        stable(folded(e, ty, a), folded(e, ty, b), a),
{
    lemma_float_value_stable(e, a, b);
}

proof fn lemma_decl_stable(
    toks: Seq<TokenView>,
    pos: int,
    syms: Map<Seq<u8>, VarDeclView>,
    a: Map<FloatOpView, u64>,
    b: Map<FloatOpView, u64>,
)
    requires
        extends(b, a),
    ensures
        stable(decl_at(toks, pos, syms, a), decl_at(toks, pos, syms, b), a),
{
    let semi = semicolon_from(toks, pos + 3);
    let span = toks.subrange(pos + 3, semi);
    lemma_expr_stable(span, 0, syms, a, b);
    match resolve(span, syms, a) {
        Ok(e) => {
            lemma_folded_stable(e, Type::I64, a, b);
            lemma_folded_stable(e, Type::F64, a, b);
        },
        Err(_) => {},
    }
}

proof fn lemma_arg_stable(
    span: Seq<TokenView>,
    syms: Map<Seq<u8>, VarDeclView>,
    a: Map<FloatOpView, u64>,
    b: Map<FloatOpView, u64>,
)
    requires
        extends(b, a),
    ensures
        stable(arg_value(span, syms, a), arg_value(span, syms, b), a),
{
    lemma_expr_stable(span, 0, syms, a, b);
    match resolve(span, syms, a) {
        Ok(e) => {
            lemma_folded_stable(e, Type::I64, a, b);
            lemma_folded_stable(e, Type::F64, a, b);
        },
        Err(_) => {},
    }
}

proof fn lemma_args_stable(
    toks: Seq<TokenView>,
    open: int,
    p: int,
    syms: Map<Seq<u8>, VarDeclView>,
    a: Map<FloatOpView, u64>,
    b: Map<FloatOpView, u64>,
    acc: Seq<ExprView>,
)
    requires
        extends(b, a),
    ensures
        stable(args_from(toks, open, p, syms, a, acc), args_from(toks, open, p, syms, b, acc), a),
    decreases toks.len() - p,
{
    let e = arg_end(toks, p, 0);
    if 0 <= p < e < toks.len() {
        lemma_arg_stable(toks.subrange(p, e), syms, a, b);
        match arg_value(toks.subrange(p, e), syms, a) {
            Ok(v) => {
                if toks[e].kind != TokenKind::RParen {
                    lemma_args_stable(toks, open, e + 1, syms, a, b, acc.push(v));
                }
            },
            Err(_) => {},
        }
    }
}

proof fn lemma_call_stable(
    toks: Seq<TokenView>,
    pos: int,
    syms: Map<Seq<u8>, VarDeclView>,
    a: Map<FloatOpView, u64>,
    b: Map<FloatOpView, u64>,
)
    requires
        extends(b, a),
    ensures
        stable(call_at(toks, pos, syms, a), call_at(toks, pos, syms, b), a),
{
    lemma_args_stable(toks, pos + 1, pos + 2, syms, a, b, Seq::empty());
}

proof fn lemma_params_settled(toks: Seq<TokenView>, open: int, p: int, acc: Seq<FnArgView>)
    ensures
        settled(params_from(toks, open, p, acc)),
    decreases toks.len() - p,
{
    if 0 <= p < toks.len() {
        match type_of_token(toks[p]) {
            Ok(ty) => {
                if has_kind(toks, p + 1, TokenKind::Lit) && !has_kind(toks, p + 2, TokenKind::RParen)
                    && has_kind(toks, p + 2, TokenKind::Comma) {
                    lemma_params_settled(
                        toks,
                        open,
                        p + 3,
                        acc.push(FnArgView { ty, name: toks[p + 1] }),
                    );
                }
            },
            Err(_) => {},
        }
    }
}

proof fn lemma_fn_stable(
    toks: Seq<TokenView>,
    pos: int,
    a: Map<FloatOpView, u64>,
    b: Map<FloatOpView, u64>,
)
    requires
        extends(b, a),
    ensures
        stable(fn_at(toks, pos, a), fn_at(toks, pos, b), a),
    decreases toks.len() - pos, 0int,
{
    lemma_params_settled(toks, pos + 2, pos + 3, Seq::empty());
    match head_at(toks, pos) {
        Ok(head) => {
            if 0 <= pos < head.open < toks.len() {
                lemma_block_stable(
                    toks,
                    head.open + 1,
                    CtxView::Fn(Map::empty()),
                    a,
                    b,
                    true,
                    Seq::empty(),
                );
            }
        },
        Err(_) => {},
    }
}

proof fn lemma_block_stable(
    toks: Seq<TokenView>,
    pos: int,
    ctx: CtxView,
    a: Map<FloatOpView, u64>,
    b: Map<FloatOpView, u64>,
    expect_matching: bool,
    acc: Seq<AstView>,
)
    requires
        extends(b, a),
    ensures
        stable(
            block_from(toks, pos, ctx, a, expect_matching, acc),
            block_from(toks, pos, ctx, b, expect_matching, acc),
            a,
        ),
    decreases toks.len() - pos, 1int,
{
    if 0 <= pos < toks.len() {
        match toks[pos].kind {
            TokenKind::RCurly => {},
            TokenKind::Fn => {
                lemma_fn_stable(toks, pos, a, b);
                match fn_at(toks, pos, a) {
                    Ok((f, p)) => {
                        lemma_block_stable(
                            toks,
                            after(toks, pos, p),
                            ctx,
                            a,
                            b,
                            expect_matching,
                            acc.push(node(acc, ctx, toks[pos], AstKindView::Fn(f))),
                        );
                    },
                    Err(_) => {},
                }
            },
            TokenKind::Lit => {
                lemma_call_stable(toks, pos, ctx.symbols(), a, b);
                match call_at(toks, pos, ctx.symbols(), a) {
                    Ok((c, p)) => {
                        lemma_block_stable(
                            toks,
                            after(toks, pos, p),
                            ctx,
                            a,
                            b,
                            expect_matching,
                            acc.push(node(acc, ctx, toks[pos], AstKindView::FnCall(c))),
                        );
                    },
                    Err(_) => {},
                }
            },
            TokenKind::Type => {
                lemma_decl_stable(toks, pos, ctx.symbols(), a, b);
                match decl_at(toks, pos, ctx.symbols(), a) {
                    Ok((d, p)) => {
                        lemma_block_stable(
                            toks,
                            after(toks, pos, p),
                            ctx.with_symbols(ctx.symbols().insert(d.name.text, d)),
                            a,
                            b,
                            expect_matching,
                            acc.push(node(acc, ctx, toks[pos], AstKindView::VarDecl(d))),
                        );
                    },
                    Err(_) => {},
                }
            },
            _ => {
                lemma_block_stable(toks, pos + 1, ctx, a, b, expect_matching, acc);
            },
        }
    }
}

/// The parser asks only for what is missing: an operation that it names
/// as needed has no result in the table. A caller that records the result
/// and parses again is therefore never asked for the same operation twice.
pub proof fn lemma_request_is_missing(toks: Seq<TokenView>, table: Map<FloatOpView, u64>)
    ensures
        program(toks, table) matches Err(StopView::Float(op)) ==> !table.dom().contains(op),
{
    lemma_block_stable(toks, 0, CtxView::Global(Map::empty()), table, table, false, Seq::empty());
}

/// More results change nothing that is final: where parsing with the
/// table `a` gives a program or an error, parsing with any table that
/// extends `a` gives the same.
pub proof fn lemma_more_results(
    toks: Seq<TokenView>,
    a: Map<FloatOpView, u64>,
    b: Map<FloatOpView, u64>,
)
    requires
        extends(b, a),
        settled(program(toks, a)),
    ensures
        program(toks, b) == program(toks, a),
{
    lemma_block_stable(toks, 0, CtxView::Global(Map::empty()), a, b, false, Seq::empty());
}

} // verus!
