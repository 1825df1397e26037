//! The expression resolver: a recursive-descent parser over the tokens of
//! one expression, which replaces each variable by the value it was
//! declared with.
//!
//! ```text
//! expr   ::= term (('+' | '-') expr)?
//! term   ::= factor (('*' | '/') term)?
//! factor ::= '(' expr ')' | INT | FLOAT | IDENT
//! ```
//!
//! Both binary rules recurse on the right, so operators of one level
//! associate to the right: `a - b - c` is `a - (b - c)`.

use vstd::prelude::*;
use crate::ast::{is_resolved, Expr, ExprView, VarDeclView};
use crate::ctx::{all_resolved, SymMap};
use crate::error::{Expected, ParseError, ParseErrorView};
use crate::fpu::{agrees, ask, FloatOp, FloatOpView, FloatTable, Stop, StopView};
use crate::lexer::{views, Token, TokenKind, TokenView};
use crate::text::{copy_bytes, lit, parse_signed_i64, signed_value};

verus! {

/// The error for a token that cannot stand where it was found.
pub open spec fn unexpected(t: TokenView, expected: Expected) -> StopView {
    StopView::Error(ParseErrorView::UnexpectedToken { expected, found: t.text, loc: t.loc })
}

/// The error for tokens that end too early: it is reported at the last
/// token, with the text `<eof>`.
pub open spec fn unexpected_end(toks: Seq<TokenView>, expected: Expected) -> StopView {
    StopView::Error(
        ParseErrorView::UnexpectedToken { expected, found: lit("<eof>"), loc: toks.last().loc },
    )
}

/// The error for the token at `pos`, or for the end of the tokens if
/// there is none.
pub open spec fn unexpected_at(toks: Seq<TokenView>, pos: int, expected: Expected) -> StopView {
    if 0 <= pos < toks.len() {
        unexpected(toks[pos], expected)
    } else {
        unexpected_end(toks, expected)
    }
}

/// The error for a `(` or `{` at `open` that is never closed.
pub open spec fn unclosed(toks: Seq<TokenView>, open: int) -> StopView {
    StopView::Error(ParseErrorView::UnmatchedDelimiter { opening: toks[open].loc })
}

/// The error for what stands at `pos`, inside the parentheses that open
/// at `open`, where something else was looked for: the token there is
/// unexpected; if the tokens end there, the `(` is never closed.
pub open spec fn unexpected_inside(
    toks: Seq<TokenView>,
    open: int,
    pos: int,
    expected: Expected,
) -> StopView {
    if 0 <= pos < toks.len() {
        unexpected(toks[pos], expected)
    } else {
        unclosed(toks, open)
    }
}

/// The number that the text of an integer literal denotes. One sign may
/// stand before the digits.
pub open spec fn int_literal(t: TokenView) -> Result<ExprView, StopView> {
    match signed_value(t.text) {
        Some(v) => Ok(ExprView::I64(v)),
        None => Err(
            StopView::Error(ParseErrorView::MalformedNumericLiteral { text: t.text, loc: t.loc }),
        ),
    }
}

/// The value that an identifier stands for: the value of its declaration
/// in the table `syms`.
pub open spec fn symbol_value(t: TokenView, syms: Map<Seq<u8>, VarDeclView>) -> Result<
    ExprView,
    StopView,
> {
    if syms.dom().contains(t.text) {
        Ok(syms[t.text].value)
    } else {
        Err(StopView::Error(ParseErrorView::UndefinedSymbol { name: t.text, loc: t.loc }))
    }
}

/// The factor that starts at `pos`, and the position after it.
pub open spec fn factor_at(
    toks: Seq<TokenView>,
    pos: int,
    syms: Map<Seq<u8>, VarDeclView>,
    table: Map<FloatOpView, u64>,
) -> Result<(ExprView, int), StopView>
    decreases toks.len() - pos, 0int,
{
    if !(0 <= pos < toks.len()) {
        Err(unexpected_end(toks, Expected::Operand))
    } else {
        match toks[pos].kind {
            TokenKind::LParen => match expr_at(toks, pos + 1, syms, table) {
                Err(s) => Err(s),
                Ok((e, p)) => if 0 <= p < toks.len() && toks[p].kind == TokenKind::RParen {
                    Ok((e, p + 1))
                } else {
                    Err(unexpected_inside(toks, pos, p, Expected::Kind(TokenKind::RParen)))
                },
            },
            TokenKind::Int => match int_literal(toks[pos]) {
                Err(s) => Err(s),
                Ok(e) => Ok((e, pos + 1)),
            },
            TokenKind::Flt => match ask(table, FloatOpView::Parse(toks[pos].text)) {
                Err(s) => Err(s),
                Ok(bits) => Ok((ExprView::F64(bits), pos + 1)),
            },
            TokenKind::Lit => match symbol_value(toks[pos], syms) {
                Err(s) => Err(s),
                Ok(e) => Ok((e, pos + 1)),
            },
            _ => Err(unexpected(toks[pos], Expected::Operand)),
        }
    }
}

/// The term that starts at `pos`, and the position after it.
pub open spec fn term_at(
    toks: Seq<TokenView>,
    pos: int,
    syms: Map<Seq<u8>, VarDeclView>,
    table: Map<FloatOpView, u64>,
) -> Result<(ExprView, int), StopView>
    decreases toks.len() - pos, 1int,
{
    match factor_at(toks, pos, syms, table) {
        Err(s) => Err(s),
        Ok((f, p)) => if pos < p < toks.len() && toks[p].kind == TokenKind::Asterisk {
            match term_at(toks, p + 1, syms, table) {
                Err(s) => Err(s),
                Ok((t, q)) => Ok((ExprView::Mul(Box::new(f), Box::new(t)), q)),
            }
        } else if pos < p < toks.len() && toks[p].kind == TokenKind::Slash {
            match term_at(toks, p + 1, syms, table) {
                Err(s) => Err(s),
                Ok((t, q)) => Ok((ExprView::Div(Box::new(f), Box::new(t)), q)),
            }
        } else {
            Ok((f, p))
        },
    }
}

/// The expression that starts at `pos`, and the position after it.
pub open spec fn expr_at(
    toks: Seq<TokenView>,
    pos: int,
    syms: Map<Seq<u8>, VarDeclView>,
    table: Map<FloatOpView, u64>,
) -> Result<(ExprView, int), StopView>
    decreases toks.len() - pos, 2int,
{
    match term_at(toks, pos, syms, table) {
        Err(s) => Err(s),
        Ok((t, p)) => if pos < p < toks.len() && toks[p].kind == TokenKind::Plus {
            match expr_at(toks, p + 1, syms, table) {
                Err(s) => Err(s),
                Ok((e, q)) => Ok((ExprView::Add(Box::new(t), Box::new(e)), q)),
            }
        } else if pos < p < toks.len() && toks[p].kind == TokenKind::Minus {
            match expr_at(toks, p + 1, syms, table) {
                Err(s) => Err(s),
                Ok((e, q)) => Ok((ExprView::Sub(Box::new(t), Box::new(e)), q)),
            }
        } else {
            Ok((t, p))
        },
    }
}

/// The expression that the tokens `toks` are, with each variable replaced
/// by its value in `syms` and each floating-point literal by its bit
/// pattern from `table`. The tokens must be one expression and nothing
/// more.
pub open spec fn resolve(
    toks: Seq<TokenView>,
    syms: Map<Seq<u8>, VarDeclView>,
    table: Map<FloatOpView, u64>,
) -> Result<ExprView, StopView> {
    match expr_at(toks, 0, syms, table) {
        Err(s) => Err(s),
        Ok((e, p)) => if 0 <= p < toks.len() {
            Err(unexpected(toks[p], Expected::Operator))
        } else {
            Ok(e)
        },
    }
}

/// What one step of the parser returned and where it left the cursor,
/// against the model: the same expression and position, or the same reason
/// to stop. An expression is past at least one token, and it holds no
/// reference to a variable if no value in the symbol table does.
pub open spec fn step_agrees(
    r: Result<Expr, Stop>,
    before: ExprParser,
    after: ExprParser,
    model: Result<(ExprView, int), StopView>,
) -> bool {
    &&& after.tokens == before.tokens
    &&& after.sym_map == before.sym_map
    &&& after.table == before.table
    &&& match model {
        Ok((e, p)) => {
            &&& r is Ok
            &&& r->Ok_0@ == e
            &&& after.curr_idx == p
            &&& before.curr_idx < p <= before.tokens@.len()
            &&& all_resolved(before.sym_map@) ==> is_resolved(e)
        },
        Err(s) => r is Err && r->Err_0@ == s,
    }
}

/// The parser of one expression: the tokens, the cursor, the symbol
/// table that names are looked up in, and the table of floating-point
/// results.
pub struct ExprParser<'a> {
    pub curr_idx: usize,
    pub sym_map: &'a SymMap,
    pub table: &'a FloatTable,
    pub tokens: &'a [Token],
}

impl<'a> ExprParser<'a> {
    /// A parser at the start of `tokens`.
    pub fn new(tokens: &'a [Token], sym_map: &'a SymMap, table: &'a FloatTable) -> (r: Self)
        requires
            tokens@.len() > 0,
        ensures
            r.curr_idx == 0,
            r.tokens == tokens,
            r.sym_map == sym_map,
            r.table == table,
    {
        ExprParser { curr_idx: 0, sym_map, table, tokens }
    }

    /// The error for the token at the cursor, or for the end of the
    /// tokens.
    fn fail(&self, expected: Expected) -> (r: Stop)
        requires
            self.tokens@.len() > 0,
        ensures
            r@ == unexpected_at(views(self.tokens@), self.curr_idx as int, expected),
    {
        if self.curr_idx < self.tokens.len() {
            let t = &self.tokens[self.curr_idx];
            Stop::Error(
                ParseError::UnexpectedToken {
                    expected,
                    found: copy_bytes(t.string.as_slice()),
                    loc: t.loc.clone(),
                },
            )
        } else {
            let t = &self.tokens[self.tokens.len() - 1];
            Stop::Error(
                ParseError::UnexpectedToken {
                    expected,
                    found: copy_bytes("<eof>".as_bytes()),
                    loc: t.loc.clone(),
                },
            )
        }
    }

    /// The error for what stands at the cursor inside the parentheses
    /// that open at `open`.
    fn fail_inside(&self, open: usize, expected: Expected) -> (r: Stop)
        requires
            open < self.tokens@.len(),
        ensures
            r@ == unexpected_inside(
                views(self.tokens@),
                open as int,
                self.curr_idx as int,
                expected,
            ),
    {
        if self.curr_idx < self.tokens.len() {
            self.fail(expected)
        } else {
            Stop::Error(ParseError::UnmatchedDelimiter { opening: self.tokens[open].loc.clone() })
        }
    }

    /// Passes the token at the cursor, if there is one, and tells whether
    /// the cursor has come to the end of the tokens.
    fn accept_it(&mut self) -> (at_end: bool)
        ensures
            final(self).tokens == old(self).tokens,
            final(self).sym_map == old(self).sym_map,
            final(self).table == old(self).table,
            final(self).curr_idx == (if old(self).curr_idx < old(self).tokens@.len() {
                old(self).curr_idx + 1
            } else {
                old(self).curr_idx as int
            }),
            at_end == (final(self).curr_idx >= old(self).tokens@.len()),
    {
        if self.curr_idx < self.tokens.len() {
            self.curr_idx += 1;
        }
        self.curr_idx >= self.tokens.len()
    }

    /// Passes the token at the cursor, which must be of kind `tt` and is
    /// looked for inside the parentheses that open at `open`.
    fn accept(&mut self, open: usize, tt: TokenKind) -> (r: Result<(), Stop>)
        requires
            open < old(self).tokens@.len(),
        ensures
            final(self).tokens == old(self).tokens,
            final(self).sym_map == old(self).sym_map,
            final(self).table == old(self).table,
            match r {
                Ok(_) => {
                    &&& old(self).curr_idx < old(self).tokens@.len()
                    &&& old(self).tokens@[old(self).curr_idx as int]@.kind == tt
                    &&& final(self).curr_idx == old(self).curr_idx + 1
                },
                Err(s) => {
                    &&& !(old(self).curr_idx < old(self).tokens@.len() && old(
                        self,
                    ).tokens@[old(self).curr_idx as int]@.kind == tt)
                    &&& s@ == unexpected_inside(
                        views(old(self).tokens@),
                        open as int,
                        old(self).curr_idx as int,
                        Expected::Kind(tt),
                    )
                },
            },
    {
        if self.curr_idx < self.tokens.len() && self.tokens[self.curr_idx].kind == tt {
            self.accept_it();
            Ok(())
        } else {
            Err(self.fail_inside(open, Expected::Kind(tt)))
        }
    }

    /// Parses the whole of the tokens as one expression.
    pub fn parse(&mut self) -> (r: Result<Expr, Stop>)
        requires
            old(self).curr_idx == 0,
            old(self).tokens@.len() > 0,
        ensures
            agrees(r, resolve(views(old(self).tokens@), old(self).sym_map@, old(self).table@)),
            r is Ok && all_resolved(old(self).sym_map@) ==> is_resolved(r->Ok_0@),
    {
        let e = self.parse_expr()?;
        if self.curr_idx < self.tokens.len() {
            return Err(self.fail(Expected::Operator));
        }
        Ok(e)
    }

    fn parse_expr(&mut self) -> (r: Result<Expr, Stop>)
        requires
            old(self).tokens@.len() > 0,
            old(self).curr_idx <= old(self).tokens@.len(),
        ensures
            step_agrees(
                r,
                *old(self),
                *final(self),
                expr_at(
                    views(old(self).tokens@),
                    old(self).curr_idx as int,
                    old(self).sym_map@,
                    old(self).table@,
                ),
            ),
        decreases old(self).tokens@.len() - old(self).curr_idx, 2int,
    {
        let term = self.parse_term()?;
        if self.curr_idx < self.tokens.len() {
            match self.tokens[self.curr_idx].kind {
                TokenKind::Plus => {
                    self.accept_it();
                    let rest = self.parse_expr()?;
                    return Ok(Expr::Add(Box::new(term), Box::new(rest)));
                },
                TokenKind::Minus => {
                    self.accept_it();
                    let rest = self.parse_expr()?;
                    return Ok(Expr::Sub(Box::new(term), Box::new(rest)));
                },
                _ => {},
            }
        }
        Ok(term)
    }

    fn parse_term(&mut self) -> (r: Result<Expr, Stop>)
        requires
            old(self).tokens@.len() > 0,
            old(self).curr_idx <= old(self).tokens@.len(),
        ensures
            step_agrees(
                r,
                *old(self),
                *final(self),
                term_at(
                    views(old(self).tokens@),
                    old(self).curr_idx as int,
                    old(self).sym_map@,
                    old(self).table@,
                ),
            ),
        decreases old(self).tokens@.len() - old(self).curr_idx, 1int,
    {
        let factor = self.parse_factor()?;
        if self.curr_idx < self.tokens.len() {
            match self.tokens[self.curr_idx].kind {
                TokenKind::Asterisk => {
                    self.accept_it();
                    let rest = self.parse_term()?;
                    return Ok(Expr::Mul(Box::new(factor), Box::new(rest)));
                },
                TokenKind::Slash => {
                    self.accept_it();
                    let rest = self.parse_term()?;
                    return Ok(Expr::Div(Box::new(factor), Box::new(rest)));
                },
                _ => {},
            }
        }
        Ok(factor)
    }

    fn parse_factor(&mut self) -> (r: Result<Expr, Stop>)
        requires
            old(self).tokens@.len() > 0,
            old(self).curr_idx <= old(self).tokens@.len(),
        ensures
            step_agrees(
                r,
                *old(self),
                *final(self),
                factor_at(
                    views(old(self).tokens@),
                    old(self).curr_idx as int,
                    old(self).sym_map@,
                    old(self).table@,
                ),
            ),
        decreases old(self).tokens@.len() - old(self).curr_idx, 0int,
    {
        if self.curr_idx >= self.tokens.len() {
            return Err(self.fail(Expected::Operand));
        }
        let t = &self.tokens[self.curr_idx];
        match t.kind {
            TokenKind::LParen => {
                let open: usize = self.curr_idx;
                self.accept_it();
                let e = self.parse_expr()?;
                self.accept(open, TokenKind::RParen)?;
                Ok(e)
            },
            TokenKind::Int => {
                let v = self.get_int()?;
                Ok(Expr::I64(v))
            },
            TokenKind::Flt => {
                let bits = self.get_flt()?;
                Ok(Expr::F64(bits))
            },
            TokenKind::Lit => match self.sym_map.get(t.string.as_slice()) {
                Some(decl) => {
                    self.accept_it();
                    Ok(decl.value.clone())
                },
                None => Err(
                    Stop::Error(
                        ParseError::UndefinedSymbol {
                            name: copy_bytes(t.string.as_slice()),
                            loc: t.loc.clone(),
                        },
                    ),
                ),
            },
            _ => Err(self.fail(Expected::Operand)),
        }
    }

    /// The number of the integer literal at the cursor.
    fn get_int(&mut self) -> (r: Result<i64, Stop>)
        requires
            old(self).curr_idx < old(self).tokens@.len(),
        ensures
            final(self).tokens == old(self).tokens,
            final(self).sym_map == old(self).sym_map,
            final(self).table == old(self).table,
            match int_literal(old(self).tokens@[old(self).curr_idx as int]@) {
                Ok(e) => r is Ok && ExprView::I64(r->Ok_0) == e && final(self).curr_idx == old(
                    self,
                ).curr_idx + 1,
                Err(s) => r is Err && r->Err_0@ == s,
            },
    {
        let t = &self.tokens[self.curr_idx];
        match parse_signed_i64(t.string.as_slice()) {
            Some(v) => {
                self.accept_it();
                Ok(v)
            },
            None => Err(
                Stop::Error(
                    ParseError::MalformedNumericLiteral {
                        text: copy_bytes(t.string.as_slice()),
                        loc: t.loc.clone(),
                    },
                ),
            ),
        }
    }

    /// The bit pattern of the floating-point literal at the cursor.
    fn get_flt(&mut self) -> (r: Result<u64, Stop>)
        requires
            old(self).curr_idx < old(self).tokens@.len(),
        ensures
            final(self).tokens == old(self).tokens,
            final(self).sym_map == old(self).sym_map,
            final(self).table == old(self).table,
            agrees(
                r,
                ask(
                    old(self).table@,
                    FloatOpView::Parse(old(self).tokens@[old(self).curr_idx as int]@.text),
                ),
            ),
            r is Ok ==> final(self).curr_idx == old(self).curr_idx + 1,
    {
        let t = &self.tokens[self.curr_idx];
        let bits = self.table.ask(FloatOp::Parse(copy_bytes(t.string.as_slice())))?;
        self.accept_it();
        Ok(bits)
    }
}

} // verus!
