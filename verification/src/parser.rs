//! The statement parser. It walks the tokens of a file, recognises
//! declarations, calls and function definitions, and builds the list of
//! nodes while it keeps the active scope.
//!
//! ```text
//! decl ::= TYPE IDENT '=' expr ';'
//! call ::= IDENT '(' (expr (',' expr)*)? ')'
//! fn   ::= 'fn' IDENT '(' (TYPE IDENT (',' TYPE IDENT)*)? ')' ('->' TYPE)? '{' body '}'
//! ```
//!
//! At the place of a statement a `}` ends the body it stands in, and any
//! token that starts none of the three statements is passed over.

use vstd::prelude::*;
use vstd::slice::slice_subrange;
use crate::ast::{
    float_value, int_value, is_resolved, type_of_token, AstKind, AstKindView, AstView, Asts,
    Expr, ExprView, Fn, FnArg, FnArgView, FnCall, FnCallView, FnView, Type, VarDecl, VarDeclView,
};
use crate::ctx::{all_resolved, Ctx, CtxView};
use crate::error::{Expected, ParseError, ParseErrorView};
use crate::expr_parser::{
    resolve, unclosed, unexpected, unexpected_at, unexpected_end, unexpected_inside, ExprParser,
};
use crate::fpu::{agrees, FloatOpView, FloatTable, Stop, StopView};
use crate::lexer::{rows_view, views, Loc, Token, TokenKind, TokenView, Tokens2D};
use crate::text::copy_bytes;

verus! {

/// The tokens of all lines, one after the other.
pub open spec fn flatten(rows: Seq<Seq<TokenView>>) -> Seq<TokenView>
    decreases rows.len(),
{
    if rows.len() == 0 {
        Seq::empty()
    } else {
        flatten(rows.drop_last()) + rows.last()
    }
}

/// Whether there is a token of kind `kind` at `i`.
pub open spec fn has_kind(toks: Seq<TokenView>, i: int, kind: TokenKind) -> bool {
    0 <= i < toks.len() && toks[i].kind == kind
}

/// Nothing if there is a token of kind `kind` at `i`, and else the error
/// for what is there.
pub open spec fn expect_kind(toks: Seq<TokenView>, i: int, kind: TokenKind) -> Result<
    (),
    StopView,
> {
    if has_kind(toks, i, kind) {
        Ok(())
    } else {
        Err(unexpected_at(toks, i, Expected::Kind(kind)))
    }
}

/// The place of the first `;` from `p` on, or the number of tokens if
/// there is none.
pub open spec fn semicolon_from(toks: Seq<TokenView>, p: int) -> int
    decreases toks.len() - p,
{
    if 0 <= p < toks.len() && toks[p].kind != TokenKind::Semicolon {
        semicolon_from(toks, p + 1)
    } else {
        p
    }
}

/// The end of the argument that starts at or before `p`: the place of the
/// first `,` or `)` from `p` on that stands outside `depth` open
/// parentheses, or the number of tokens if there is none.
pub open spec fn arg_end(toks: Seq<TokenView>, p: int, depth: nat) -> int
    decreases toks.len() - p,
{
    if !(0 <= p < toks.len()) {
        p
    } else if toks[p].kind == TokenKind::LParen {
        arg_end(toks, p + 1, depth + 1)
    } else if depth == 0 && (toks[p].kind == TokenKind::RParen || toks[p].kind
        == TokenKind::Comma) {
        p
    } else if toks[p].kind == TokenKind::RParen {
        arg_end(toks, p + 1, (depth - 1) as nat)
    } else {
        arg_end(toks, p + 1, depth)
    }
}

/// The type of the leftmost operand of an expression.
pub open spec fn leading_type(e: ExprView) -> Type
    decreases e,
{
    match e {
        ExprView::I64(_) => Type::I64,
        ExprView::F64(_) => Type::F64,
        ExprView::Lit(_) => Type::I64,
        ExprView::Add(l, _) => leading_type(*l),
        ExprView::Sub(l, _) => leading_type(*l),
        ExprView::Mul(l, _) => leading_type(*l),
        ExprView::Div(l, _) => leading_type(*l),
    }
}

/// The constant that an expression folds to when it is evaluated as a
/// value of type `ty`.
pub open spec fn folded(e: ExprView, ty: Type, table: Map<FloatOpView, u64>) -> Result<
    ExprView,
    StopView,
> {
    match ty {
        Type::I64 => Ok(ExprView::I64(int_value(e))),
        Type::F64 => match float_value(e, table) {
            Err(s) => Err(s),
            Ok(bits) => Ok(ExprView::F64(bits)),
        },
    }
}

/// The declaration that starts at `pos`, where a type keyword stands, and
/// the position after its `;`. The expression runs up to the first `;`; it
/// is resolved against `syms` and folded to a constant of the declared
/// type.
pub open spec fn decl_at(
    toks: Seq<TokenView>,
    pos: int,
    syms: Map<Seq<u8>, VarDeclView>,
    table: Map<FloatOpView, u64>,
) -> Result<(VarDeclView, int), StopView> {
    match type_of_token(toks[pos]) {
        Err(_) => Err(unexpected(toks[pos], Expected::Kind(TokenKind::Type))),
        Ok(ty) => {
            let semi = semicolon_from(toks, pos + 3);
            if !has_kind(toks, pos + 1, TokenKind::Lit) {
                Err(unexpected_at(toks, pos + 1, Expected::Kind(TokenKind::Lit)))
            } else if !has_kind(toks, pos + 2, TokenKind::Equal) {
                Err(unexpected_at(toks, pos + 2, Expected::Kind(TokenKind::Equal)))
            } else if !(semi < toks.len()) {
                Err(unexpected_end(toks, Expected::Kind(TokenKind::Semicolon)))
            } else if semi <= pos + 3 {
                Err(unexpected(toks[semi], Expected::Operand))
            } else {
                match resolve(toks.subrange(pos + 3, semi), syms, table) {
                    Err(s) => Err(s),
                    Ok(e) => match folded(e, ty, table) {
                        Err(s) => Err(s),
                        Ok(value) => Ok((VarDeclView { ty, value, name: toks[pos + 1] }, semi + 1)),
                    },
                }
            }
        },
    }
}

/// The value of one argument of a call, given as the tokens of the
/// argument. A single identifier that is declared stays a reference to its
/// variable. Any other expression is resolved and folded to a constant of
/// the type of its leftmost operand.
pub open spec fn arg_value(
    span: Seq<TokenView>,
    syms: Map<Seq<u8>, VarDeclView>,
    table: Map<FloatOpView, u64>,
) -> Result<ExprView, StopView> {
    match resolve(span, syms, table) {
        Err(s) => Err(s),
        Ok(e) => if span.len() == 1 && span[0].kind == TokenKind::Lit {
            Ok(ExprView::Lit(span[0]))
        } else {
            folded(e, leading_type(e), table)
        },
    }
}

/// The arguments of a call from `p` on, where an argument starts, after
/// the arguments `acc` before it; and the position after the closing `)`.
/// The `(` of the call stands at `open`.
pub open spec fn args_from(
    toks: Seq<TokenView>,
    open: int,
    p: int,
    syms: Map<Seq<u8>, VarDeclView>,
    table: Map<FloatOpView, u64>,
    acc: Seq<ExprView>,
) -> Result<(Seq<ExprView>, int), StopView>
    decreases toks.len() - p,
{
    let e = arg_end(toks, p, 0);
    if !(0 <= p <= e < toks.len()) {
        Err(unclosed(toks, open))
    } else if e == p {
        Err(unexpected(toks[p], Expected::Operand))
    } else {
        match arg_value(toks.subrange(p, e), syms, table) {
            Err(s) => Err(s),
            Ok(v) => if toks[e].kind == TokenKind::RParen {
                Ok((acc.push(v), e + 1))
            } else {
                args_from(toks, open, e + 1, syms, table, acc.push(v))
            },
        }
    }
}

/// The call that starts at `pos`, where an identifier stands, and the
/// position after its `)`.
pub open spec fn call_at(
    toks: Seq<TokenView>,
    pos: int,
    syms: Map<Seq<u8>, VarDeclView>,
    table: Map<FloatOpView, u64>,
) -> Result<(FnCallView, int), StopView> {
    if !has_kind(toks, pos + 1, TokenKind::LParen) {
        Err(unexpected_at(toks, pos + 1, Expected::Kind(TokenKind::LParen)))
    } else if has_kind(toks, pos + 2, TokenKind::RParen) {
        Ok((FnCallView { args: Seq::empty(), name: toks[pos] }, pos + 3))
    } else {
        match args_from(toks, pos + 1, pos + 2, syms, table, Seq::empty()) {
            Err(s) => Err(s),
            Ok((args, p)) => Ok((FnCallView { args, name: toks[pos] }, p)),
        }
    }
}

/// The parameters of a function from `p` on, where a parameter starts,
/// after the parameters `acc` before it; and the position after the closing
/// `)`. The `(` of the parameters stands at `open`.
pub open spec fn params_from(toks: Seq<TokenView>, open: int, p: int, acc: Seq<FnArgView>) -> Result<
    (Seq<FnArgView>, int),
    StopView,
>
    decreases toks.len() - p,
{
    if !(0 <= p < toks.len()) {
        Err(unclosed(toks, open))
    } else {
        match type_of_token(toks[p]) {
            Err(_) => Err(unexpected(toks[p], Expected::Kind(TokenKind::Type))),
            Ok(ty) => if !has_kind(toks, p + 1, TokenKind::Lit) {
                Err(unexpected_inside(toks, open, p + 1, Expected::Kind(TokenKind::Lit)))
            } else if has_kind(toks, p + 2, TokenKind::RParen) {
                Ok((acc.push(FnArgView { ty, name: toks[p + 1] }), p + 3))
            } else if has_kind(toks, p + 2, TokenKind::Comma) {
                params_from(toks, open, p + 3, acc.push(FnArgView { ty, name: toks[p + 1] }))
            } else {
                Err(unexpected_inside(toks, open, p + 2, Expected::Kind(TokenKind::RParen)))
            },
        }
    }
}

/// The head of a function definition: what stands before the body.
pub struct FnHead {
    pub name: TokenView,
    pub args: Seq<FnArgView>,
    pub ret_ty: Option<Type>,
    /// The place of the `{` that opens the body.
    pub open: int,
}

/// The return type that is given at `q`, after the parameters, and the
/// place after it: none if the body starts there, and else the type after
/// `->`.
pub open spec fn ret_at(toks: Seq<TokenView>, q: int) -> Result<(Option<Type>, int), StopView> {
    if has_kind(toks, q, TokenKind::LCurly) {
        Ok((None, q))
    } else if !has_kind(toks, q, TokenKind::Arrow) {
        Err(unexpected_at(toks, q, Expected::Kind(TokenKind::Arrow)))
    } else if !(q + 1 < toks.len()) {
        Err(unexpected_end(toks, Expected::Kind(TokenKind::Type)))
    } else {
        match type_of_token(toks[q + 1]) {
            Err(_) => Err(unexpected(toks[q + 1], Expected::Kind(TokenKind::Type))),
            Ok(ty) => Ok((Some(ty), q + 2)),
        }
    }
}

/// The head of the function definition that starts at `pos`, where `fn`
/// stands.
pub open spec fn head_at(toks: Seq<TokenView>, pos: int) -> Result<FnHead, StopView> {
    if !has_kind(toks, pos + 1, TokenKind::Lit) {
        Err(unexpected_at(toks, pos + 1, Expected::Kind(TokenKind::Lit)))
    } else if !has_kind(toks, pos + 2, TokenKind::LParen) {
        Err(unexpected_at(toks, pos + 2, Expected::Kind(TokenKind::LParen)))
    } else {
        let params = if has_kind(toks, pos + 3, TokenKind::RParen) {
            Ok((Seq::empty(), pos + 4))
        } else {
            params_from(toks, pos + 2, pos + 3, Seq::empty())
        };
        match params {
            Err(s) => Err(s),
            Ok((args, q)) => match ret_at(toks, q) {
                Err(s) => Err(s),
                Ok((ret_ty, open)) => match expect_kind(toks, open, TokenKind::LCurly) {
                    Err(s) => Err(s),
                    Ok(_) => Ok(FnHead { name: toks[pos + 1], args, ret_ty, open }),
                },
            },
        }
    }
}

/// What a run of statements comes to: the nodes, the position where the
/// run ended, the scope after it, and whether a `}` ended it.
pub struct Block {
    pub nodes: Seq<AstView>,
    pub pos: int,
    pub ctx: CtxView,
    pub closed: bool,
}

/// The node that is added to the list `acc` for a statement that starts
/// with the token `first` and is parsed in the scope `ctx`.
pub open spec fn node(acc: Seq<AstView>, ctx: CtxView, first: TokenView, kind: AstKindView) -> AstView {
    AstView {
        id: acc.len() as usize,
        ctx,
        loc: first.loc,
        kind,
        next: (acc.len() + 1) as usize,
    }
}

/// The position `p` after a statement that started at `pos`. (A statement
/// is at least one token long, and ends within the tokens.)
pub open spec fn after(toks: Seq<TokenView>, pos: int, p: int) -> int {
    if pos < p <= toks.len() {
        p
    } else {
        toks.len() as int
    }
}

/// The function definition that starts at `pos`, where `fn` stands, and
/// the position after its `}`. The body is parsed in a new function scope
/// without any name. The tokens ending before the `}` is the error of the
/// `{`.
pub open spec fn fn_at(toks: Seq<TokenView>, pos: int, table: Map<FloatOpView, u64>) -> Result<
    (FnView, int),
    StopView,
>
    decreases toks.len() - pos, 0int,
{
    match head_at(toks, pos) {
        Err(s) => Err(s),
        Ok(head) => if !(0 <= pos < head.open < toks.len()) {
            Err(unexpected_end(toks, Expected::Kind(TokenKind::LCurly)))
        } else {
            match block_from(
                toks,
                head.open + 1,
                CtxView::Fn(Map::empty()),
                table,
                true,
                Seq::empty(),
            ) {
                Err(s) => Err(s),
                Ok(body) => if body.closed {
                    Ok(
                        (
                            FnView {
                                ret_ty: head.ret_ty,
                                args: head.args,
                                body: body.nodes,
                                name: head.name,
                            },
                            body.pos + 1,
                        ),
                    )
                } else {
                    Err(
                        StopView::Error(
                            ParseErrorView::UnmatchedDelimiter { opening: toks[head.open].loc },
                        ),
                    )
                },
            }
        },
    }
}

/// The statements from `pos` on, parsed in the scope `ctx`, after the
/// nodes `acc` of the statements before them.
///
/// A declaration adds its name to the scope. A function definition leaves
/// the scope as it was. Where `expect_matching` holds, a `}` ends the run
/// and the position stays at it; where it does not, a `}` is an error. The
/// run also ends where the tokens end.
pub open spec fn block_from(
    toks: Seq<TokenView>,
    pos: int,
    ctx: CtxView,
    table: Map<FloatOpView, u64>,
    expect_matching: bool,
    acc: Seq<AstView>,
) -> Result<Block, StopView>
    decreases toks.len() - pos, 1int,
{
    if !(0 <= pos < toks.len()) {
        Ok(Block { nodes: acc, pos, ctx, closed: false })
    } else {
        match toks[pos].kind {
            TokenKind::RCurly => if expect_matching {
                Ok(Block { nodes: acc, pos, ctx, closed: true })
            } else {
                Err(unexpected(toks[pos], Expected::Statement))
            },
            TokenKind::Fn => match fn_at(toks, pos, table) {
                Err(s) => Err(s),
                Ok((f, p)) => block_from(
                    toks,
                    after(toks, pos, p),
                    ctx,
                    table,
                    expect_matching,
                    acc.push(node(acc, ctx, toks[pos], AstKindView::Fn(f))),
                ),
            },
            TokenKind::Lit => match call_at(toks, pos, ctx.symbols(), table) {
                Err(s) => Err(s),
                Ok((c, p)) => block_from(
                    toks,
                    after(toks, pos, p),
                    ctx,
                    table,
                    expect_matching,
                    acc.push(node(acc, ctx, toks[pos], AstKindView::FnCall(c))),
                ),
            },
            TokenKind::Type => match decl_at(toks, pos, ctx.symbols(), table) {
                Err(s) => Err(s),
                Ok((d, p)) => block_from(
                    toks,
                    after(toks, pos, p),
                    ctx.with_symbols(ctx.symbols().insert(d.name.text, d)),
                    table,
                    expect_matching,
                    acc.push(node(acc, ctx, toks[pos], AstKindView::VarDecl(d))),
                ),
            },
            _ => block_from(toks, pos + 1, ctx, table, expect_matching, acc),
        }
    }
}

/// The program that the tokens `toks` are: the nodes of its top-level
/// statements in order, parsed from the start in an empty global scope.
pub open spec fn program(toks: Seq<TokenView>, table: Map<FloatOpView, u64>) -> Result<
    Seq<AstView>,
    StopView,
> {
    match block_from(toks, 0, CtxView::Global(Map::empty()), table, false, Seq::empty()) {
        Err(s) => Err(s),
        Ok(b) => Ok(b.nodes),
    }
}

/// The search for a `;` ends at or after its start, within the tokens.
proof fn lemma_semicolon_bounds(toks: Seq<TokenView>, p: int)
    requires
        0 <= p <= toks.len(),
    ensures
        p <= semicolon_from(toks, p) <= toks.len(),
    decreases toks.len() - p,
{
    if p < toks.len() && toks[p].kind != TokenKind::Semicolon {
        lemma_semicolon_bounds(toks, p + 1);
    }
}

/// An argument ends at or after its start, within the tokens.
proof fn lemma_arg_end_bounds(toks: Seq<TokenView>, p: int, depth: nat)
    requires
        0 <= p <= toks.len(),
    ensures
        p <= arg_end(toks, p, depth) <= toks.len(),
    decreases toks.len() - p,
{
    if p < toks.len() {
        if toks[p].kind == TokenKind::LParen {
            lemma_arg_end_bounds(toks, p + 1, depth + 1);
        } else if depth == 0 && (toks[p].kind == TokenKind::RParen || toks[p].kind
            == TokenKind::Comma) {
        } else if toks[p].kind == TokenKind::RParen {
            lemma_arg_end_bounds(toks, p + 1, (depth - 1) as nat);
        } else {
            lemma_arg_end_bounds(toks, p + 1, depth);
        }
    }
}

/// The arguments of a call end after their start, within the tokens.
proof fn lemma_args_advance(
    toks: Seq<TokenView>,
    open: int,
    p: int,
    syms: Map<Seq<u8>, VarDeclView>,
    table: Map<FloatOpView, u64>,
    acc: Seq<ExprView>,
)
    requires
        0 <= p <= toks.len(),
    ensures
        args_from(toks, open, p, syms, table, acc) matches Ok((_, q)) ==> p < q <= toks.len(),
    decreases toks.len() - p,
{
    lemma_arg_end_bounds(toks, p, 0);
    let e = arg_end(toks, p, 0);
    if p < e < toks.len() {
        match arg_value(toks.subrange(p, e), syms, table) {
            Ok(v) => {
                if toks[e].kind != TokenKind::RParen {
                    lemma_args_advance(toks, open, e + 1, syms, table, acc.push(v));
                }
            },
            Err(_) => {},
        }
    }
}

/// The parameters of a function end after their start, within the tokens.
proof fn lemma_params_advance(toks: Seq<TokenView>, open: int, p: int, acc: Seq<FnArgView>)
    requires
        0 <= p <= toks.len(),
    ensures
        params_from(toks, open, p, acc) matches Ok((_, q)) ==> p < q <= toks.len(),
    decreases toks.len() - p,
{
    if p < toks.len() {
        match type_of_token(toks[p]) {
            Ok(ty) => {
                if has_kind(toks, p + 1, TokenKind::Lit) && !has_kind(toks, p + 2, TokenKind::RParen)
                    && has_kind(toks, p + 2, TokenKind::Comma) {
                    lemma_params_advance(
                        toks,
                        open,
                        p + 3,
                        acc.push(FnArgView { ty, name: toks[p + 1] }),
                    );
                }
            },
            Err(_) => {},
        }
    }
}

/// The body of a function opens after the `fn`, within the tokens.
pub(crate) proof fn lemma_head_bounds(toks: Seq<TokenView>, pos: int)
    requires
        0 <= pos < toks.len(),
    ensures
        head_at(toks, pos) matches Ok(head) ==> pos + 4 <= head.open < toks.len() && toks[head.open].kind
            == TokenKind::LCurly,
{
    if has_kind(toks, pos + 1, TokenKind::Lit) && has_kind(toks, pos + 2, TokenKind::LParen)
        && !has_kind(toks, pos + 3, TokenKind::RParen) {
        lemma_params_advance(toks, pos + 2, pos + 3, Seq::empty());
    }
}

/// A function definition ends after its start, within the tokens.
pub(crate) proof fn lemma_fn_advances(toks: Seq<TokenView>, pos: int, table: Map<FloatOpView, u64>)
    requires
        0 <= pos < toks.len(),
    ensures
        fn_at(toks, pos, table) matches Ok((_, p)) ==> pos < p <= toks.len(),
    decreases toks.len() - pos, 0int,
{
    lemma_head_bounds(toks, pos);
    match head_at(toks, pos) {
        Ok(head) => {
            lemma_block_bounds(
                toks,
                head.open + 1,
                CtxView::Fn(Map::empty()),
                table,
                true,
                Seq::empty(),
            );
        },
        Err(_) => {},
    }
}

/// A run of statements ends at or after its start, within the tokens; and
/// where a `}` ended it, at that `}`.
proof fn lemma_block_bounds(
    toks: Seq<TokenView>,
    pos: int,
    ctx: CtxView,
    table: Map<FloatOpView, u64>,
    expect_matching: bool,
    acc: Seq<AstView>,
)
    requires
        0 <= pos <= toks.len(),
    ensures
        block_from(toks, pos, ctx, table, expect_matching, acc) matches Ok(b) ==> pos <= b.pos
            <= toks.len() && (b.closed ==> has_kind(toks, b.pos, TokenKind::RCurly)),
    decreases toks.len() - pos, 1int,
{
    if pos < toks.len() {
        match toks[pos].kind {
            TokenKind::RCurly => {},
            TokenKind::Fn => {
                match fn_at(toks, pos, table) {
                    Ok((f, p)) => {
                        lemma_block_bounds(
                            toks,
                            after(toks, pos, p),
                            ctx,
                            table,
                            expect_matching,
                            acc.push(node(acc, ctx, toks[pos], AstKindView::Fn(f))),
                        );
                    },
                    Err(_) => {},
                }
            },
            TokenKind::Lit => {
                match call_at(toks, pos, ctx.symbols(), table) {
                    Ok((c, p)) => {
                        lemma_block_bounds(
                            toks,
                            after(toks, pos, p),
                            ctx,
                            table,
                            expect_matching,
                            acc.push(node(acc, ctx, toks[pos], AstKindView::FnCall(c))),
                        );
                    },
                    Err(_) => {},
                }
            },
            TokenKind::Type => {
                match decl_at(toks, pos, ctx.symbols(), table) {
                    Ok((d, p)) => {
                        lemma_block_bounds(
                            toks,
                            after(toks, pos, p),
                            ctx.with_symbols(ctx.symbols().insert(d.name.text, d)),
                            table,
                            expect_matching,
                            acc.push(node(acc, ctx, toks[pos], AstKindView::VarDecl(d))),
                        );
                    },
                    Err(_) => {},
                }
            },
            _ => {
                lemma_block_bounds(toks, pos + 1, ctx, table, expect_matching, acc);
            },
        }
    }
}

/// Every statement is at least one token long and ends within the
/// tokens: the position after a declaration, a call or a function
/// definition is after the position where it starts.
pub proof fn lemma_statement_advances(
    toks: Seq<TokenView>,
    pos: int,
    syms: Map<Seq<u8>, VarDeclView>,
    table: Map<FloatOpView, u64>,
)
    requires
        0 <= pos < toks.len(),
    ensures
        decl_at(toks, pos, syms, table) matches Ok((_, p)) ==> after(toks, pos, p) == p,
        call_at(toks, pos, syms, table) matches Ok((_, p)) ==> after(toks, pos, p) == p,
        fn_at(toks, pos, table) matches Ok((_, p)) ==> after(toks, pos, p) == p,
{
    lemma_fn_advances(toks, pos, table);
    if pos + 3 <= toks.len() {
        lemma_semicolon_bounds(toks, pos + 3);
    }
    if pos + 2 <= toks.len() {
        lemma_args_advance(toks, pos + 1, pos + 2, syms, table, Seq::empty());
    }
}

/// The type of the leftmost operand of `e`.
fn leading(e: &Expr) -> (r: Type)
    ensures
        r == leading_type(e@),
    decreases e,
{
    match e {
        Expr::I64(_) => Type::I64,
        Expr::F64(_) => Type::F64,
        Expr::Lit(_) => Type::I64,
        Expr::Add(l, _) => leading(l),
        Expr::Sub(l, _) => leading(l),
        Expr::Mul(l, _) => leading(l),
        Expr::Div(l, _) => leading(l),
    }
}

/// The statement parser: the tokens of the file one after the other, the
/// cursor, and the active scope.
pub struct Parser {
    pub idx: usize,
    pub tokens: Vec<Token>,
    pub ctx: Ctx,
}

impl Parser {
    /// The cursor is within the tokens, and no value in the active scope
    /// holds a reference to a variable.
    pub open spec fn wf(&self) -> bool {
        &&& self.idx <= self.tokens@.len()
        &&& all_resolved(self.ctx@.symbols())
    }

    /// A parser at the first token of `tokens`, in an empty global scope.
    pub fn new(tokens: &Tokens2D) -> (r: Parser)
        ensures
            r.wf(),
            r.idx == 0,
            views(r.tokens@) == flatten(rows_view(tokens@)),
            r.ctx@ == CtxView::Global(Map::empty()),
    {
        let mut flat: Vec<Token> = Vec::new();
        let mut i: usize = 0;
        while i < tokens.len()
            invariant
                i <= tokens@.len(),
                views(flat@) == flatten(rows_view(tokens@).take(i as int)),
            decreases tokens@.len() - i,
        {
            let row = &tokens[i];
            let mut j: usize = 0;
            let ghost before = views(flat@);
            while j < row.len()
                invariant
                    j <= row@.len(),
                    views(flat@) == before + views(row@).take(j as int),
                decreases row@.len() - j,
            {
                let ghost prev = views(flat@);
                let t = row[j].clone();
                flat.push(t);
                assert(views(flat@) =~= prev.push(t@));
                j += 1;
            }
            proof {
                let rows = rows_view(tokens@);
                assert(rows.take(i + 1).drop_last() =~= rows.take(i as int));
            }
            i += 1;
        }
        assert(rows_view(tokens@).take(tokens@.len() as int) =~= rows_view(tokens@));
        Parser { idx: 0, tokens: flat, ctx: Ctx::empty_global() }
    }

    /// The error for the token at `i`, or for the end of the tokens.
    fn fail_at(&self, i: usize, expected: Expected) -> (r: Stop)
        requires
            self.tokens@.len() > 0,
        ensures
            r@ == unexpected_at(views(self.tokens@), i as int, expected),
    {
        if i < self.tokens.len() {
            let t = &self.tokens[i];
            Stop::Error(
                ParseError::UnexpectedToken {
                    expected,
                    found: copy_bytes(t.string.as_slice()),
                    loc: t.loc.clone(),
                },
            )
        } else {
            let t = &self.tokens[self.tokens.len() - 1];
            Stop::Error(
                ParseError::UnexpectedToken {
                    expected,
                    found: copy_bytes("<eof>".as_bytes()),
                    loc: t.loc.clone(),
                },
            )
        }
    }

    /// The error for what stands at `i` inside the parentheses that open
    /// at `open`.
    fn fail_inside(&self, open: usize, i: usize, expected: Expected) -> (r: Stop)
        requires
            open < self.tokens@.len(),
        ensures
            r@ == unexpected_inside(views(self.tokens@), open as int, i as int, expected),
    {
        if i < self.tokens.len() {
            self.fail_at(i, expected)
        } else {
            Stop::Error(ParseError::UnmatchedDelimiter { opening: self.tokens[open].loc.clone() })
        }
    }

    /// Checks that the token at `i` is of kind `kind`.
    fn type_check_token(&self, i: usize, kind: TokenKind) -> (r: Result<(), Stop>)
        requires
            self.tokens@.len() > 0,
        ensures
            agrees(r, expect_kind(views(self.tokens@), i as int, kind)),
            r is Ok ==> i < self.tokens@.len(),
    {
        if i < self.tokens.len() && self.tokens[i].kind == kind {
            Ok(())
        } else {
            Err(self.fail_at(i, Expected::Kind(kind)))
        }
    }

    /// A copy of the token at `i`, which must be of kind `kind`.
    fn type_check_token_owned(&self, i: usize, kind: TokenKind) -> (r: Result<Token, Stop>)
        requires
            self.tokens@.len() > 0,
        ensures
            match expect_kind(views(self.tokens@), i as int, kind) {
                Ok(_) => r is Ok && i < self.tokens@.len() && r->Ok_0@ == self.tokens@[i as int]@,
                Err(s) => r is Err && r->Err_0@ == s,
            },
    {
        self.type_check_token(i, kind)?;
        Ok(self.tokens[i].clone())
    }

    /// Moves the cursor to the next token, if there is one.
    fn advance(&mut self)
        ensures
            final(self).tokens == old(self).tokens,
            final(self).ctx == old(self).ctx,
            final(self).idx == (if old(self).idx < old(self).tokens@.len() {
                old(self).idx + 1
            } else {
                old(self).idx as int
            }),
    {
        if self.idx < self.tokens.len() {
            self.idx += 1;
        }
    }

    /// Makes `ctx` the active scope.
    fn set_ctx(&mut self, ctx: Ctx)
        ensures
            final(self).tokens == old(self).tokens,
            final(self).idx == old(self).idx,
            final(self).ctx == ctx,
    {
        self.ctx = ctx;
    }

    /// Adds a node of the active scope to `asts`.
    fn append(&self, asts: &mut Asts, loc: Loc, kind: AstKind)
        requires
            old(asts).wf(),
            old(asts).id < usize::MAX,
        ensures
            final(asts).wf(),
            final(asts)@ == old(asts)@.push(
                AstView {
                    id: old(asts)@.len() as usize,
                    ctx: self.ctx@,
                    loc: loc@,
                    kind: kind@,
                    next: (old(asts)@.len() + 1) as usize,
                },
            ),
    {
        asts.append(self.ctx.clone(), loc, kind);
    }

    /// Parses the declaration at the cursor and moves past it.
    fn parse_decl(&mut self, table: &FloatTable) -> (r: Result<VarDecl, Stop>)
        requires
            old(self).wf(),
            old(self).idx < old(self).tokens@.len(),
        ensures
            final(self).tokens == old(self).tokens,
            final(self).ctx == old(self).ctx,
            match decl_at(
                views(old(self).tokens@),
                old(self).idx as int,
                old(self).ctx@.symbols(),
                table@,
            ) {
                Ok((d, p)) => {
                    &&& r is Ok
                    &&& r->Ok_0@ == d
                    &&& final(self).idx == p
                    &&& old(self).idx < p <= old(self).tokens@.len()
                    &&& is_resolved(d.value)
                },
                Err(s) => r is Err && r->Err_0@ == s,
            },
    {
        let pos: usize = self.idx;
        let ghost toks = views(self.tokens@);
        let len: usize = self.tokens.len();
        let ty = match Type::try_from_token(&self.tokens[pos]) {
            Ok(ty) => ty,
            Err(_) => {
                return Err(self.fail_at(pos, Expected::Kind(TokenKind::Type)));
            },
        };
        let name_token = self.type_check_token_owned(pos + 1, TokenKind::Lit)?;
        self.type_check_token(pos + 2, TokenKind::Equal)?;
        let mut semi: usize = pos + 3;
        while semi < len && self.tokens[semi].kind != TokenKind::Semicolon
            invariant
                pos + 3 <= semi <= len,
                len == self.tokens@.len(),
                toks == views(self.tokens@),
                semicolon_from(toks, pos + 3) == semicolon_from(toks, semi as int),
            decreases len - semi,
        {
            semi += 1;
        }
        if semi >= len {
            return Err(self.fail_at(semi, Expected::Kind(TokenKind::Semicolon)));
        }
        if semi == pos + 3 {
            return Err(self.fail_at(semi, Expected::Operand));
        }
        let span = slice_subrange(self.tokens.as_slice(), pos + 3, semi);
        assert(views(span@) =~= toks.subrange(pos + 3, semi as int));
        let mut resolver = ExprParser::new(span, self.ctx.sym_map(), table);
        let expr = resolver.parse()?;
        let value = match ty {
            Type::I64 => Expr::I64(expr.eval_int(self.ctx.sym_map())),
            Type::F64 => Expr::F64(expr.eval_flt(self.ctx.sym_map(), table)?),
        };
        self.idx = semi + 1;
        Ok(VarDecl { ty, value, name_token })
    }

    /// The value of the argument of a call that the tokens `span` are.
    fn parse_arg(&self, span: &[Token], table: &FloatTable) -> (r: Result<Expr, Stop>)
        requires
            span@.len() > 0,
            all_resolved(self.ctx@.symbols()),
        ensures
            agrees(r, arg_value(views(span@), self.ctx@.symbols(), table@)),
    {
        let mut resolver = ExprParser::new(span, self.ctx.sym_map(), table);
        let expr = resolver.parse()?;
        if span.len() == 1 && span[0].kind == TokenKind::Lit {
            return Ok(Expr::Lit(span[0].clone()));
        }
        match leading(&expr) {
            Type::I64 => Ok(Expr::I64(expr.eval_int(self.ctx.sym_map()))),
            Type::F64 => Ok(Expr::F64(expr.eval_flt(self.ctx.sym_map(), table)?)),
        }
    }

    /// Parses the call at the cursor and moves past it.
    fn parse_fn_call(&mut self, table: &FloatTable) -> (r: Result<FnCall, Stop>)
        requires
            old(self).wf(),
            old(self).idx < old(self).tokens@.len(),
        ensures
            final(self).tokens == old(self).tokens,
            final(self).ctx == old(self).ctx,
            match call_at(
                views(old(self).tokens@),
                old(self).idx as int,
                old(self).ctx@.symbols(),
                table@,
            ) {
                Ok((c, p)) => {
                    &&& r is Ok
                    &&& r->Ok_0@ == c
                    &&& final(self).idx == p
                    &&& old(self).idx < p <= old(self).tokens@.len()
                },
                Err(s) => r is Err && r->Err_0@ == s,
            },
    {
        let pos: usize = self.idx;
        let ghost toks = views(self.tokens@);
        let ghost syms = self.ctx@.symbols();
        let len: usize = self.tokens.len();
        let name_token = self.tokens[pos].clone();
        self.type_check_token(pos + 1, TokenKind::LParen)?;
        let mut args: Vec<Expr> = Vec::new();
        assert(views(args@) =~= Seq::empty());
        if pos + 2 < len && self.tokens[pos + 2].kind == TokenKind::RParen {
            self.idx = pos + 3;
            return Ok(FnCall { args, name_token });
        }
        let mut p: usize = pos + 2;
        loop
            invariant
                pos + 2 <= p <= self.tokens@.len(),
                pos == old(self).idx,
                *self == *old(self),
                self.wf(),
                toks == views(self.tokens@),
                syms == self.ctx@.symbols(),
                name_token@ == toks[pos as int],
                has_kind(toks, pos + 1, TokenKind::LParen),
                !has_kind(toks, pos + 2, TokenKind::RParen),
                args_from(toks, pos + 1, p as int, syms, table@, views(args@)) == args_from(
                    toks,
                    pos + 1,
                    pos + 2,
                    syms,
                    table@,
                    Seq::empty(),
                ),
            decreases self.tokens@.len() - p,
        {
            let mut e: usize = p;
            let mut depth: usize = 0;
            while e < self.tokens.len() && !(depth == 0 && (self.tokens[e].kind
                == TokenKind::RParen || self.tokens[e].kind == TokenKind::Comma))
                invariant
                    p <= e <= self.tokens@.len(),
                    depth <= e - p,
                    toks == views(self.tokens@),
                    arg_end(toks, e as int, depth as nat) == arg_end(toks, p as int, 0),
                decreases self.tokens@.len() - e,
            {
                if self.tokens[e].kind == TokenKind::LParen {
                    depth += 1;
                } else if self.tokens[e].kind == TokenKind::RParen {
                    depth -= 1;
                }
                e += 1;
            }
            if e >= self.tokens.len() {
                return Err(self.fail_inside(pos + 1, e, Expected::Kind(TokenKind::RParen)));
            }
            if e == p {
                return Err(self.fail_at(p, Expected::Operand));
            }
            let span = slice_subrange(self.tokens.as_slice(), p, e);
            assert(views(span@) =~= toks.subrange(p as int, e as int));
            let value = self.parse_arg(span, table)?;
            let ghost before = views(args@);
            args.push(value);
            assert(views(args@) =~= before.push(value@));
            if self.tokens[e].kind == TokenKind::RParen {
                self.idx = e + 1;
                return Ok(FnCall { args, name_token });
            }
            p = e + 1;
        }
    }

    /// The parameters of a function definition from `start` on, and the
    /// position after their `)`. Their `(` stands at `open`.
    fn parse_params(&self, open: usize, start: usize) -> (r: Result<(Vec<FnArg>, usize), Stop>)
        requires
            open < self.tokens@.len(),
            start <= self.tokens@.len(),
        ensures
            match params_from(views(self.tokens@), open as int, start as int, Seq::empty()) {
                Ok((args, q)) => {
                    &&& r is Ok
                    &&& views(r->Ok_0.0@) == args
                    &&& r->Ok_0.1 == q
                    &&& start < q <= self.tokens@.len()
                },
                Err(s) => r is Err && r->Err_0@ == s,
            },
    {
        let ghost toks = views(self.tokens@);
        let mut args: Vec<FnArg> = Vec::new();
        assert(views(args@) =~= Seq::empty());
        let mut p: usize = start;
        loop
            invariant
                start <= p <= self.tokens@.len(),
                open < self.tokens@.len(),
                toks == views(self.tokens@),
                params_from(toks, open as int, p as int, views(args@)) == params_from(
                    toks,
                    open as int,
                    start as int,
                    Seq::empty(),
                ),
            decreases self.tokens@.len() - p,
        {
            if p >= self.tokens.len() {
                return Err(self.fail_inside(open, p, Expected::Kind(TokenKind::Type)));
            }
            let ty = match Type::try_from_token(&self.tokens[p]) {
                Ok(ty) => ty,
                Err(_) => {
                    return Err(self.fail_at(p, Expected::Kind(TokenKind::Type)));
                },
            };
            if !(p + 1 < self.tokens.len() && self.tokens[p + 1].kind == TokenKind::Lit) {
                return Err(self.fail_inside(open, p + 1, Expected::Kind(TokenKind::Lit)));
            }
            let name_token = self.tokens[p + 1].clone();
            let ghost before = views(args@);
            let arg = FnArg { ty, name_token };
            args.push(arg);
            assert(views(args@) =~= before.push(arg@));
            if p + 2 < self.tokens.len() && self.tokens[p + 2].kind == TokenKind::RParen {
                return Ok((args, p + 3));
            } else if p + 2 < self.tokens.len() && self.tokens[p + 2].kind == TokenKind::Comma {
                p = p + 3;
            } else {
                return Err(self.fail_inside(open, p + 2, Expected::Kind(TokenKind::RParen)));
            }
        }
    }

    /// The return type given at `q`, and the position after it.
    fn parse_ret(&self, q: usize) -> (r: Result<(Option<Type>, usize), Stop>)
        requires
            self.tokens@.len() > 0,
            q <= self.tokens@.len(),
        ensures
            match ret_at(views(self.tokens@), q as int) {
                Ok((ret_ty, open)) => {
                    &&& r == Ok::<(Option<Type>, usize), Stop>((ret_ty, open as usize))
                    &&& q <= open <= self.tokens@.len()
                },
                Err(s) => r is Err && r->Err_0@ == s,
            },
    {
        if q < self.tokens.len() && self.tokens[q].kind == TokenKind::LCurly {
            return Ok((None, q));
        }
        self.type_check_token(q, TokenKind::Arrow)?;
        if q + 1 >= self.tokens.len() {
            return Err(self.fail_at(q + 1, Expected::Kind(TokenKind::Type)));
        }
        match Type::try_from_token(&self.tokens[q + 1]) {
            Ok(ty) => Ok((Some(ty), q + 2)),
            Err(_) => Err(self.fail_at(q + 1, Expected::Kind(TokenKind::Type))),
        }
    }

    /// Parses the function definition at the cursor and moves past it.
    /// The body is parsed in a new function scope; the scope that was
    /// active is active again afterwards.
    fn parse_fn(&mut self, table: &FloatTable) -> (r: Result<Fn, Stop>)
        requires
            old(self).wf(),
            old(self).idx < old(self).tokens@.len(),
        ensures
            final(self).tokens == old(self).tokens,
            match fn_at(views(old(self).tokens@), old(self).idx as int, table@) {
                Ok((f, p)) => {
                    &&& r is Ok
                    &&& r->Ok_0@ == f
                    &&& final(self).idx == p
                    &&& final(self).ctx@ == old(self).ctx@
                    &&& old(self).idx < p <= old(self).tokens@.len()
                },
                Err(s) => r is Err && r->Err_0@ == s,
            },
        decreases old(self).tokens@.len() - old(self).idx, 0int,
    {
        let pos: usize = self.idx;
        let len: usize = self.tokens.len();
        let name_token = self.type_check_token_owned(pos + 1, TokenKind::Lit)?;
        self.type_check_token(pos + 2, TokenKind::LParen)?;
        let (args, q) = if pos + 3 < len && self.tokens[pos + 3].kind == TokenKind::RParen {
            let none: Vec<FnArg> = Vec::new();
            assert(views(none@) =~= Seq::empty());
            (none, pos + 4)
        } else {
            self.parse_params(pos + 2, pos + 3)?
        };
        let (ret_ty, open) = self.parse_ret(q)?;
        self.type_check_token(open, TokenKind::LCurly)?;
        let outer = self.ctx.clone();
        self.set_ctx(Ctx::empty_fn());
        self.idx = open + 1;
        let mut body = Asts::new();
        let closed = self.parse_line(true, &mut body, table)?;
        if !closed {
            return Err(
                Stop::Error(
                    ParseError::UnmatchedDelimiter { opening: self.tokens[open].loc.clone() },
                ),
            );
        }
        self.advance();
        self.set_ctx(outer);
        Ok(Fn { ret_ty, args, body: body.asts, name_token })
    }

    /// Parses statements from the cursor on and adds their nodes to
    /// `asts`. The result says whether a `}` ended the run, at which the
    /// cursor is left; that is an error unless `expect_matching` holds.
    fn parse_line(&mut self, expect_matching: bool, asts: &mut Asts, table: &FloatTable) -> (r:
        Result<bool, Stop>)
        requires
            old(self).wf(),
            old(asts).wf(),
            old(asts)@.len() <= old(self).idx,
        ensures
            final(self).tokens == old(self).tokens,
            match block_from(
                views(old(self).tokens@),
                old(self).idx as int,
                old(self).ctx@,
                table@,
                expect_matching,
                old(asts)@,
            ) {
                Ok(b) => {
                    &&& r == Ok::<bool, Stop>(b.closed)
                    &&& final(asts)@ == b.nodes
                    &&& final(asts).wf()
                    &&& final(self).wf()
                    &&& final(self).idx == b.pos
                    &&& final(self).ctx@ == b.ctx
                    &&& old(self).idx <= b.pos
                    &&& b.closed ==> b.pos < old(self).tokens@.len()
                },
                Err(s) => r is Err && r->Err_0@ == s,
            },
        decreases old(self).tokens@.len() - old(self).idx, 1int,
    {
        let ghost toks = views(self.tokens@);
        while self.idx < self.tokens.len()
            invariant
                self.tokens == old(self).tokens,
                toks == views(self.tokens@),
                self.wf(),
                asts.wf(),
                asts@.len() <= self.idx,
                old(self).idx <= self.idx,
                block_from(toks, self.idx as int, self.ctx@, table@, expect_matching, asts@)
                    == block_from(
                    toks,
                    old(self).idx as int,
                    old(self).ctx@,
                    table@,
                    expect_matching,
                    old(asts)@,
                ),
            decreases self.tokens@.len() - self.idx,
        {
            let pos: usize = self.idx;
            match self.tokens[pos].kind {
                TokenKind::RCurly => {
                    if expect_matching {
                        return Ok(true);
                    } else {
                        return Err(self.fail_at(pos, Expected::Statement));
                    }
                },
                TokenKind::Fn => {
                    let f = self.parse_fn(table)?;
                    let loc = self.tokens[pos].loc.clone();
                    self.append(asts, loc, AstKind::Fn(f));
                },
                TokenKind::Lit => {
                    let c = self.parse_fn_call(table)?;
                    let loc = self.tokens[pos].loc.clone();
                    self.append(asts, loc, AstKind::FnCall(c));
                },
                TokenKind::Type => {
                    let d = self.parse_decl(table)?;
                    let loc = self.tokens[pos].loc.clone();
                    self.append(asts, loc, AstKind::VarDecl(d.clone()));
                    self.ctx.declare(d);
                },
                _ => {
                    self.advance();
                },
            }
        }
        Ok(false)
    }

    /// Parses the tokens from the cursor to the end and returns the nodes
    /// of the top-level statements in order. For a new parser that is the
    /// [`program`] of its tokens.
    pub fn parse(&mut self, table: &FloatTable) -> (r: Result<Asts, Stop>)
        requires
            old(self).wf(),
        ensures
            match block_from(
                views(old(self).tokens@),
                old(self).idx as int,
                old(self).ctx@,
                table@,
                false,
                Seq::empty(),
            ) {
                Ok(b) => r is Ok && r->Ok_0@ == b.nodes && r->Ok_0.wf(),
                Err(s) => r is Err && r->Err_0@ == s,
            },
    {
        let mut asts = Asts::new();
        self.parse_line(false, &mut asts, table)?;
        Ok(asts)
    }
}

} // verus!
