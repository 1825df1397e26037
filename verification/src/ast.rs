//! The syntax tree: types, constant expressions, declarations, calls and
//! function definitions, and the list of nodes that a parse produces.

use vstd::prelude::*;
use crate::ctx::{Ctx, CtxView, SymMap};
use crate::fpu::{
    agrees, ask, divide, float_to_int, is_zero, is_zero_bits, quotient, truncate, FloatOp,
    FloatOpView, FloatTable, Stop, StopView,
};
use crate::lexer::{float_keyword, views, Loc, LocView, Token, TokenKind, TokenView};
use crate::text::{lit, same_as};

verus! {

/// A type of the language: the 64-bit integer or the 64-bit
/// floating-point number.
#[derive(Clone, Copy, Debug, PartialEq, Eq, Structural)]
pub enum Type {
    I64,
    F64,
}

/// The type that a token names: a type keyword names its type, and no
/// other token names one.
pub open spec fn type_of_token(t: TokenView) -> Result<Type, ()> {
    if t.kind != TokenKind::Type {
        Err(())
    } else if t.text == lit("i64") {
        Ok(Type::I64)
    } else if t.text == float_keyword() {
        Ok(Type::F64)
    } else {
        Err(())
    }
}

/// The tag of a type in generated text: `l` for the integer and `d` for
/// the floating-point type.
pub open spec fn type_tag(ty: Type) -> Seq<u8> {
    match ty {
        Type::I64 => lit("l"),
        Type::F64 => lit("d"),
    }
}

impl Type {
    /// The type that the token `t` names.
    pub fn try_from_token(t: &Token) -> (r: Result<Type, ()>)
        ensures
            r == type_of_token(t@),
    {
        if t.kind != TokenKind::Type {
            return Err(());
        }
        if same_as(t.string.as_slice(), "i64") {
            Ok(Type::I64)
        } else if t.string.len() == 3 && t.string[0] == 102 && t.string[1] == 54 && t.string[2]
            == 52 {
            assert(t.string@ =~= float_keyword());
            Ok(Type::F64)
        } else {
            Err(())
        }
    }

    /// The tag of the type in generated text.
    pub fn to_il_str(&self) -> (r: &'static str)
        ensures
            lit(r) == type_tag(*self),
    {
        match self {
            Type::I64 => "l",
            Type::F64 => "d",
        }
    }
}

/// An expression. A floating-point constant is held as its bit pattern.
#[derive(Debug)]
pub enum Expr {
    I64(i64),
    F64(u64),
    /// A reference to a variable by the token that names it.
    Lit(Token),
    Add(Box<Expr>, Box<Expr>),
    Sub(Box<Expr>, Box<Expr>),
    Mul(Box<Expr>, Box<Expr>),
    Div(Box<Expr>, Box<Expr>),
}

/// The model of an [`Expr`].
pub enum ExprView {
    I64(i64),
    F64(u64),
    Lit(TokenView),
    Add(Box<ExprView>, Box<ExprView>),
    Sub(Box<ExprView>, Box<ExprView>),
    Mul(Box<ExprView>, Box<ExprView>),
    Div(Box<ExprView>, Box<ExprView>),
}

/// The model of an expression.
pub open spec fn expr_view(e: Expr) -> ExprView
    decreases e,
{
    match e {
        Expr::I64(v) => ExprView::I64(v),
        Expr::F64(b) => ExprView::F64(b),
        Expr::Lit(t) => ExprView::Lit(t@),
        Expr::Add(l, r) => ExprView::Add(Box::new(expr_view(*l)), Box::new(expr_view(*r))),
        Expr::Sub(l, r) => ExprView::Sub(Box::new(expr_view(*l)), Box::new(expr_view(*r))),
        Expr::Mul(l, r) => ExprView::Mul(Box::new(expr_view(*l)), Box::new(expr_view(*r))),
        Expr::Div(l, r) => ExprView::Div(Box::new(expr_view(*l)), Box::new(expr_view(*r))),
    }
}

impl View for Expr {
    type V = ExprView;

    open spec fn view(&self) -> ExprView {
        expr_view(*self)
    }
}

/// Whether an expression holds no reference to a variable.
pub open spec fn is_resolved(e: ExprView) -> bool
    decreases e,
{
    match e {
        ExprView::I64(_) => true,
        ExprView::F64(_) => true,
        ExprView::Lit(_) => false,
        ExprView::Add(l, r) => is_resolved(*l) && is_resolved(*r),
        ExprView::Sub(l, r) => is_resolved(*l) && is_resolved(*r),
        ExprView::Mul(l, r) => is_resolved(*l) && is_resolved(*r),
        ExprView::Div(l, r) => is_resolved(*l) && is_resolved(*r),
    }
}

/// The value of an expression as an integer. Sums, differences and
/// products wrap around; a quotient is rounded towards zero, and a division
/// by zero gives zero. A floating-point constant counts without its
/// fraction. (A reference to a variable has no value; it counts as zero.)
pub open spec fn int_value(e: ExprView) -> i64
    decreases e,
{
    match e {
        ExprView::I64(v) => v,
        ExprView::F64(b) => float_to_int(b),
        ExprView::Lit(_) => 0,
        ExprView::Add(l, r) => int_value(*l).wrapping_add(int_value(*r)),
        ExprView::Sub(l, r) => int_value(*l).wrapping_sub(int_value(*r)),
        ExprView::Mul(l, r) => int_value(*l).wrapping_mul(int_value(*r)),
        ExprView::Div(l, r) => quotient(int_value(*l), int_value(*r)),
    }
}

/// The result of one floating-point operation on two values, each of
/// which may instead be a reason to stop: the left one is looked at first.
pub open spec fn float_binary(
    table: Map<FloatOpView, u64>,
    l: Result<u64, StopView>,
    r: Result<u64, StopView>,
    op: spec_fn(u64, u64) -> FloatOpView,
) -> Result<u64, StopView> {
    match l {
        Err(s) => Err(s),
        Ok(a) => match r {
            Err(s) => Err(s),
            Ok(b) => ask(table, op(a, b)),
        },
    }
}

/// The value of an expression as a floating-point number, by the results
/// in `table`; or the first operation whose result the table lacks. An
/// integer constant is converted. A quotient whose divisor is a zero is
/// `+0.0`, whatever the dividend. (A reference to a variable has no value;
/// it counts as `+0.0`.)
pub open spec fn float_value(e: ExprView, table: Map<FloatOpView, u64>) -> Result<u64, StopView>
    decreases e,
{
    match e {
        ExprView::I64(v) => ask(table, FloatOpView::FromInt(v)),
        ExprView::F64(b) => Ok(b),
        ExprView::Lit(_) => Ok(0),
        ExprView::Add(l, r) => float_binary(
            table,
            float_value(*l, table),
            float_value(*r, table),
            |a: u64, b: u64| FloatOpView::Add(a, b),
        ),
        ExprView::Sub(l, r) => float_binary(
            table,
            float_value(*l, table),
            float_value(*r, table),
            |a: u64, b: u64| FloatOpView::Sub(a, b),
        ),
        ExprView::Mul(l, r) => float_binary(
            table,
            float_value(*l, table),
            float_value(*r, table),
            |a: u64, b: u64| FloatOpView::Mul(a, b),
        ),
        ExprView::Div(l, r) => match float_value(*r, table) {
            Err(s) => Err(s),
            Ok(b) => if is_zero_bits(b) {
                Ok(0)
            } else {
                match float_value(*l, table) {
                    Err(s) => Err(s),
                    Ok(a) => ask(table, FloatOpView::Div(a, b)),
                }
            },
        },
    }
}

/// A quotient whose divisor comes to zero is zero, whatever the dividend.
pub proof fn lemma_int_division_by_zero(l: ExprView, r: ExprView)
    requires
        int_value(r) == 0,
    ensures
        int_value(ExprView::Div(Box::new(l), Box::new(r))) == 0,
{
}

/// A floating-point quotient whose divisor comes to one of the zeros is
/// `+0.0`, whatever the dividend, and whether or not the table can give the
/// value of the dividend.
pub proof fn lemma_float_division_by_zero(l: ExprView, r: ExprView, table: Map<FloatOpView, u64>)
    requires
        float_value(r, table) is Ok,
        is_zero_bits(float_value(r, table)->Ok_0),
    ensures
        float_value(ExprView::Div(Box::new(l), Box::new(r)), table) == Ok::<u64, StopView>(0),
{
}

/// Evaluation as a floating-point number always comes to an end without
/// an error: it gives a value, or it names an operation that the table
/// lacks. With a table that lacks nothing it gives a value.
pub proof fn lemma_float_value_total(e: ExprView, table: Map<FloatOpView, u64>)
    ensures
        match float_value(e, table) {
            Ok(_) => true,
            Err(s) => s is Float && !table.dom().contains(s->Float_0),
        },
        (forall|op: FloatOpView| table.dom().contains(op)) ==> float_value(e, table) is Ok,
    decreases e,
{
    match e {
        ExprView::Add(l, r) => {
            lemma_float_value_total(*l, table);
            lemma_float_value_total(*r, table);
        },
        ExprView::Sub(l, r) => {
            lemma_float_value_total(*l, table);
            lemma_float_value_total(*r, table);
        },
        ExprView::Mul(l, r) => {
            lemma_float_value_total(*l, table);
            lemma_float_value_total(*r, table);
        },
        ExprView::Div(l, r) => {
            lemma_float_value_total(*l, table);
            lemma_float_value_total(*r, table);
        },
        _ => {},
    }
}

impl Clone for Expr {
    fn clone(&self) -> (r: Self)
        ensures
            r@ == self@,
        decreases self,
    {
        match self {
            Expr::I64(v) => Expr::I64(*v),
            Expr::F64(b) => Expr::F64(*b),
            Expr::Lit(t) => Expr::Lit(t.clone()),
            Expr::Add(l, r) => Expr::Add(Box::new((**l).clone()), Box::new((**r).clone())),
            Expr::Sub(l, r) => Expr::Sub(Box::new((**l).clone()), Box::new((**r).clone())),
            Expr::Mul(l, r) => Expr::Mul(Box::new((**l).clone()), Box::new((**r).clone())),
            Expr::Div(l, r) => Expr::Div(Box::new((**l).clone()), Box::new((**r).clone())),
        }
    }
}

impl Expr {
    /// Whether the expression holds no reference to a variable.
    pub fn is_resolved(&self) -> (r: bool)
        ensures
            r == is_resolved(self@),
        decreases self,
    {
        match self {
            Expr::I64(_) => true,
            Expr::F64(_) => true,
            Expr::Lit(_) => false,
            Expr::Add(l, r) => l.is_resolved() && r.is_resolved(),
            Expr::Sub(l, r) => l.is_resolved() && r.is_resolved(),
            Expr::Mul(l, r) => l.is_resolved() && r.is_resolved(),
            Expr::Div(l, r) => l.is_resolved() && r.is_resolved(),
        }
    }

    /// The value of the expression as an integer. The symbol table is not
    /// consulted: the expression holds no reference to a variable.
    pub fn eval_int(&self, sym_map: &SymMap) -> (r: i64)
        requires
            is_resolved(self@),
        ensures
            r == int_value(self@),
        decreases self,
    {
        match self {
            Expr::I64(v) => *v,
            Expr::F64(b) => truncate(*b),
            Expr::Lit(_) => 0,
            Expr::Add(l, r) => l.eval_int(sym_map).wrapping_add(r.eval_int(sym_map)),
            Expr::Sub(l, r) => l.eval_int(sym_map).wrapping_sub(r.eval_int(sym_map)),
            Expr::Mul(l, r) => l.eval_int(sym_map).wrapping_mul(r.eval_int(sym_map)),
            Expr::Div(l, r) => {
                let rval: i64 = r.eval_int(sym_map);
                if rval == 0 {
                    0
                } else {
                    divide(l.eval_int(sym_map), rval)
                }
            },
        }
    }

    /// The value of the expression as a floating-point number, by the
    /// results in `table`, or the operation whose result is needed first.
    /// The symbol table is not consulted: the expression holds no reference
    /// to a variable.
    pub fn eval_flt(&self, sym_map: &SymMap, table: &FloatTable) -> (r: Result<u64, Stop>)
        requires
            is_resolved(self@),
        ensures
            agrees(r, float_value(self@, table@)),
        decreases self,
    {
        match self {
            Expr::I64(v) => table.ask(FloatOp::FromInt(*v)),
            Expr::F64(b) => Ok(*b),
            Expr::Lit(_) => Ok(0),
            Expr::Add(l, r) => {
                let a: u64 = l.eval_flt(sym_map, table)?;
                let b: u64 = r.eval_flt(sym_map, table)?;
                table.ask(FloatOp::Add(a, b))
            },
            Expr::Sub(l, r) => {
                let a: u64 = l.eval_flt(sym_map, table)?;
                let b: u64 = r.eval_flt(sym_map, table)?;
                table.ask(FloatOp::Sub(a, b))
            },
            Expr::Mul(l, r) => {
                let a: u64 = l.eval_flt(sym_map, table)?;
                let b: u64 = r.eval_flt(sym_map, table)?;
                table.ask(FloatOp::Mul(a, b))
            },
            Expr::Div(l, r) => {
                let b: u64 = r.eval_flt(sym_map, table)?;
                if is_zero(b) {
                    Ok(0)
                } else {
                    let a: u64 = l.eval_flt(sym_map, table)?;
                    table.ask(FloatOp::Div(a, b))
                }
            },
        }
    }
}

/// A variable declaration: the declared type, the name and the value.
#[derive(Debug)]
pub struct VarDecl {
    pub ty: Type,
    pub value: Expr,
    pub name_token: Token,
}

/// The model of a [`VarDecl`].
pub struct VarDeclView {
    pub ty: Type,
    pub value: ExprView,
    pub name: TokenView,
}

impl View for VarDecl {
    type V = VarDeclView;

    open spec fn view(&self) -> VarDeclView {
        VarDeclView { ty: self.ty, value: self.value@, name: self.name_token@ }
    }
}

impl Clone for VarDecl {
    fn clone(&self) -> (r: Self)
        ensures
            r@ == self@,
    {
        VarDecl { ty: self.ty, value: self.value.clone(), name_token: self.name_token.clone() }
    }
}

/// A call: the name of the function and the arguments in order.
#[derive(Debug)]
pub struct FnCall {
    pub args: Vec<Expr>,
    pub name_token: Token,
}

/// The model of a [`FnCall`].
pub struct FnCallView {
    pub args: Seq<ExprView>,
    pub name: TokenView,
}

impl View for FnCall {
    type V = FnCallView;

    open spec fn view(&self) -> FnCallView {
        FnCallView { args: views(self.args@), name: self.name_token@ }
    }
}

/// A parameter of a function: its type and its name.
#[derive(Debug)]
pub struct FnArg {
    pub ty: Type,
    pub name_token: Token,
}

/// The model of a [`FnArg`].
pub struct FnArgView {
    pub ty: Type,
    pub name: TokenView,
}

impl View for FnArg {
    type V = FnArgView;

    open spec fn view(&self) -> FnArgView {
        FnArgView { ty: self.ty, name: self.name_token@ }
    }
}

/// A function definition: the return type if there is one, the
/// parameters, the statements of the body and the name.
#[derive(Debug)]
pub struct Fn {
    pub ret_ty: Option<Type>,
    pub args: Vec<FnArg>,
    pub body: Vec<Ast>,
    pub name_token: Token,
}

/// The model of a [`Fn`].
pub struct FnView {
    pub ret_ty: Option<Type>,
    pub args: Seq<FnArgView>,
    pub body: Seq<AstView>,
    pub name: TokenView,
}

/// What a node of the tree is.
#[derive(Debug)]
pub enum AstKind {
    Fn(Fn),
    FnCall(FnCall),
    VarDecl(VarDecl),
}

/// The model of an [`AstKind`].
pub enum AstKindView {
    Fn(FnView),
    FnCall(FnCallView),
    VarDecl(VarDeclView),
}

/// A node of the tree: its place in the list that holds it, the place
/// after it, where it stands in the source, and the scope that was active
/// when it was made.
#[derive(Debug)]
pub struct Ast {
    pub id: usize,
    pub ctx: Ctx,
    pub loc: Loc,
    pub kind: AstKind,
    pub next: usize,
}

/// The model of an [`Ast`].
pub struct AstView {
    pub id: usize,
    pub ctx: CtxView,
    pub loc: LocView,
    pub kind: AstKindView,
    pub next: usize,
}

/// The model of a node.
pub open spec fn ast_view(a: Ast) -> AstView
    decreases a,
{
    AstView {
        id: a.id,
        ctx: a.ctx@,
        loc: a.loc@,
        kind: match a.kind {
            AstKind::Fn(f) => AstKindView::Fn(
                FnView {
                    ret_ty: f.ret_ty,
                    args: views(f.args@),
                    body: Seq::new(
                        f.body@.len(),
                        |i: int|
                            if 0 <= i < f.body@.len() {
                                ast_view(f.body@[i])
                            } else {
                                arbitrary()
                            },
                    ),
                    name: f.name_token@,
                },
            ),
            AstKind::FnCall(c) => AstKindView::FnCall(c@),
            AstKind::VarDecl(d) => AstKindView::VarDecl(d@),
        },
        next: a.next,
    }
}

impl View for Ast {
    type V = AstView;

    open spec fn view(&self) -> AstView {
        ast_view(*self)
    }
}

impl View for Fn {
    type V = FnView;

    open spec fn view(&self) -> FnView {
        FnView {
            ret_ty: self.ret_ty,
            args: views(self.args@),
            body: views(self.body@),
            name: self.name_token@,
        }
    }
}

impl View for AstKind {
    type V = AstKindView;

    open spec fn view(&self) -> AstKindView {
        match *self {
            AstKind::Fn(f) => AstKindView::Fn(f@),
            AstKind::FnCall(c) => AstKindView::FnCall(c@),
            AstKind::VarDecl(d) => AstKindView::VarDecl(d@),
        }
    }
}

/// The model of a node is made of the models of its parts.
pub proof fn lemma_ast_view(a: Ast)
    ensures
        a@ == (AstView { id: a.id, ctx: a.ctx@, loc: a.loc@, kind: a.kind@, next: a.next }),
{
    match a.kind {
        AstKind::Fn(f) => {
            let k = ast_view(a).kind;
            assert(k->Fn_0.body =~= views(f.body@));
        },
        _ => {},
    }
}

/// The list of nodes that a parse produces, in the order of the source.
#[derive(Debug)]
pub struct Asts {
    /// The place of the next node to be added.
    pub id: usize,
    pub asts: Vec<Ast>,
}

impl View for Asts {
    type V = Seq<AstView>;

    open spec fn view(&self) -> Seq<AstView> {
        views(self.asts@)
    }
}

impl Asts {
    /// Every node of the list knows its place: the `i`-th node has the
    /// id `i`, and the next id is the length of the list.
    pub open spec fn wf(&self) -> bool {
        &&& self.id == self.asts@.len()
        &&& forall|i: int|
            0 <= i < self.asts@.len() ==> (#[trigger] self.asts@[i]).id == i && self.asts@[i].next
                == i + 1
    }

    /// The empty list.
    pub fn new() -> (r: Asts)
        ensures
            r.wf(),
            r.id == 0,
            r.asts@.len() == 0,
            r@ == Seq::<AstView>::empty(),
    {
        let r = Asts { id: 0, asts: Vec::new() };
        r
    }

    /// A node for the next place of the list, which is not added to it.
    pub fn new_ast(&self, ctx: Ctx, loc: Loc, kind: AstKind) -> (r: Ast)
        requires
            self.id < usize::MAX,
        ensures
            r@ == (AstView {
                id: self.id,
                ctx: ctx@,
                loc: loc@,
                kind: kind@,
                next: (self.id + 1) as usize,
            }),
    {
        let r = Ast { ctx, id: self.id, next: self.id + 1, loc, kind };
        proof {
            lemma_ast_view(r);
        }
        r
    }

    /// The node at place `id`.
    pub fn id(&self, id: usize) -> (r: &Ast)
        requires
            id < self.asts@.len(),
        ensures
            *r == self.asts@[id as int],
    {
        &self.asts[id]
    }

    /// Adds a node at the end of the list, without counting it.
    pub fn append_ast(&mut self, ast: Ast)
        ensures
            final(self).id == old(self).id,
            final(self).asts@ == old(self).asts@.push(ast),
            final(self)@ == old(self)@.push(ast@),
    {
        self.asts.push(ast);
    }

    /// Makes a node for the next place and adds it to the list.
    pub fn append(&mut self, ctx: Ctx, loc: Loc, kind: AstKind)
        requires
            old(self).id < usize::MAX,
        ensures
            final(self).id == old(self).id + 1,
            final(self)@ == old(self)@.push(
                AstView {
                    id: old(self).id,
                    ctx: ctx@,
                    loc: loc@,
                    kind: kind@,
                    next: (old(self).id + 1) as usize,
                },
            ),
            old(self).wf() ==> final(self).wf(),
    {
        let ast = self.new_ast(ctx, loc, kind);
        self.append_ast(ast);
        self.id += 1;
    }
}

} // verus!
