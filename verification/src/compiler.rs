//! The code generator. It walks the nodes of a program in order and
//! writes, for each, the text of its instructions.
//!
//! Integers are written in decimal. A floating-point constant is written
//! as the decimal numeral of its bit pattern, so that the text gives back
//! the exact value.

use vstd::prelude::*;
use crate::ast::{
    type_tag, Ast, AstKind, AstKindView, AstView, Asts, Expr, ExprView, Fn, FnArgView,
    FnCall, FnCallView, FnView, Type, VarDecl, VarDeclView,
};
use crate::ctx::{Ctx, CtxView};
use crate::lexer::{float_keyword, loc_text, views, Loc, LocView};
use crate::text::{bytes_eq, copy_bytes, decimal, digits, lit, push_bytes, push_i64, push_str, push_u64, same_as};

verus! {

/// Why a program cannot be lowered.
#[derive(Debug)]
pub enum LowerError {
    /// A reference to a variable leads to no declaration in the scope of
    /// its node. A chain of references that comes back to a name it has
    /// passed leads to none.
    UndefinedSymbol { name: Vec<u8>, loc: Loc },
    /// The statement at `loc` holds a value that is neither a constant nor
    /// a reference to a variable.
    NotConstant { loc: Loc },
    /// The declaration at `loc` holds a constant that is not of the
    /// declared type.
    TypeMismatch { loc: Loc },
}

/// The model of a [`LowerError`].
pub enum LowerErrorView {
    UndefinedSymbol { name: Seq<u8>, loc: LocView },
    NotConstant { loc: LocView },
    TypeMismatch { loc: LocView },
}

impl View for LowerError {
    type V = LowerErrorView;

    open spec fn view(&self) -> LowerErrorView {
        match *self {
            LowerError::UndefinedSymbol { name, loc } => LowerErrorView::UndefinedSymbol {
                name: name@,
                loc: loc@,
            },
            LowerError::NotConstant { loc } => LowerErrorView::NotConstant { loc: loc@ },
            LowerError::TypeMismatch { loc } => LowerErrorView::TypeMismatch { loc: loc@ },
        }
    }
}

/// The message for an error: the place, the word `error` and what is
/// wrong.
pub open spec fn lower_error_text(e: LowerErrorView) -> Seq<u8> {
    match e {
        LowerErrorView::UndefinedSymbol { name, loc } => loc_text(loc) + lit(
            " error: undefined symbol: ",
        ) + name,
        LowerErrorView::NotConstant { loc } => loc_text(loc) + lit(
            " error: the value is not a constant",
        ),
        LowerErrorView::TypeMismatch { loc } => loc_text(loc) + lit(
            " error: the value is not of the declared type",
        ),
    }
}

impl LowerError {
    /// The message for the error.
    pub fn to_text(&self) -> (r: Vec<u8>)
        ensures
            r@ == lower_error_text(self@),
    {
        match self {
            LowerError::UndefinedSymbol { name, loc } => {
                let mut r: Vec<u8> = loc.to_text();
                push_str(&mut r, " error: undefined symbol: ");
                push_bytes(&mut r, name.as_slice());
                r
            },
            LowerError::NotConstant { loc } => {
                let mut r: Vec<u8> = loc.to_text();
                push_str(&mut r, " error: the value is not a constant");
                r
            },
            LowerError::TypeMismatch { loc } => {
                let mut r: Vec<u8> = loc.to_text();
                push_str(&mut r, " error: the value is not of the declared type");
                r
            },
        }
    }
}

/// A literal constant: an integer, or a floating-point number as its bit
/// pattern.
#[derive(Clone, Copy, Debug, PartialEq, Eq, Structural)]
pub enum Const {
    Int(i64),
    Float(u64),
}

impl Const {
    /// The type of the constant.
    pub open spec fn ty(self) -> Type {
        match self {
            Const::Int(_) => Type::I64,
            Const::Float(_) => Type::F64,
        }
    }

    /// The constant as it is written in generated text.
    pub open spec fn text(self) -> Seq<u8> {
        match self {
            Const::Int(v) => decimal(v as int),
            Const::Float(bits) => digits(bits as nat),
        }
    }
}

/// The keyword of a type, which is part of the names of the print
/// routines.
pub open spec fn type_keyword(ty: Type) -> Seq<u8> {
    match ty {
        Type::I64 => lit("i64"),
        Type::F64 => float_keyword(),
    }
}

/// The constant that a value comes to in the scope `syms`. A constant is
/// itself. A reference to a variable is the constant that the value of its
/// declaration comes to; the chain of references is followed, and no name
/// is passed twice. Anything else is no constant; `loc` is the place of the
/// statement that holds the value.
pub open spec fn constant_of(e: ExprView, syms: Map<Seq<u8>, VarDeclView>, loc: LocView) -> Result<
    Const,
    LowerErrorView,
>
    decreases syms.dom().len(),
    when syms.dom().finite()
{
    match e {
        ExprView::I64(v) => Ok(Const::Int(v)),
        ExprView::F64(bits) => Ok(Const::Float(bits)),
        ExprView::Lit(t) => if syms.dom().contains(t.text) {
            constant_of(syms[t.text].value, syms.remove(t.text), loc)
        } else {
            Err(LowerErrorView::UndefinedSymbol { name: t.text, loc: t.loc })
        },
        _ => Err(LowerErrorView::NotConstant { loc }),
    }
}

/// How a value is passed: a variable by the name of its register, a
/// constant by its text.
pub open spec fn operand(e: ExprView, c: Const) -> Seq<u8> {
    match e {
        ExprView::Lit(t) => lit("%") + t.text,
        _ => c.text(),
    }
}

/// The text of a declaration: a copy of its constant into the register of
/// its name, with the tag of the declared type. The constant must be of
/// the declared type, so that the tag and the encoding go together.
pub open spec fn decl_text(d: VarDeclView, ctx: CtxView, loc: LocView) -> Result<
    Seq<u8>,
    LowerErrorView,
> {
    match constant_of(d.value, ctx.symbols(), loc) {
        Err(e) => Err(e),
        Ok(c) => if c.ty() == d.ty {
            Ok(
                lit("\t%") + d.name.text + lit(" =") + type_tag(d.ty) + lit(" copy ") + c.text()
                    + lit("\n"),
            )
        } else {
            Err(LowerErrorView::TypeMismatch { loc })
        },
    }
}

/// The text of one argument of `print`: a call of the print routine for
/// the type of the argument.
pub open spec fn print_arg_text(arg: ExprView, ctx: CtxView, loc: LocView) -> Result<
    Seq<u8>,
    LowerErrorView,
> {
    match constant_of(arg, ctx.symbols(), loc) {
        Err(e) => Err(e),
        Ok(c) => Ok(
            lit("\tcall $print_") + type_keyword(c.ty()) + lit("(") + type_tag(c.ty()) + lit(" ")
                + operand(arg, c) + lit(", w 1)\n"),
        ),
    }
}

/// The text of a call of `print` from its `i`-th argument on, after the
/// text `acc` of the arguments before it.
pub open spec fn print_text(
    args: Seq<ExprView>,
    ctx: CtxView,
    loc: LocView,
    i: int,
    acc: Seq<u8>,
) -> Result<Seq<u8>, LowerErrorView>
    decreases args.len() - i,
{
    if !(0 <= i < args.len()) {
        Ok(acc)
    } else {
        match print_arg_text(args[i], ctx, loc) {
            Err(e) => Err(e),
            Ok(t) => print_text(args, ctx, loc, i + 1, acc + t),
        }
    }
}

/// The text of one argument of an ordinary call: the tag of its type and
/// the value.
pub open spec fn call_arg_text(arg: ExprView, ctx: CtxView, loc: LocView) -> Result<
    Seq<u8>,
    LowerErrorView,
> {
    match constant_of(arg, ctx.symbols(), loc) {
        Err(e) => Err(e),
        Ok(c) => Ok(type_tag(c.ty()) + lit(" ") + operand(arg, c)),
    }
}

/// The text of the arguments of an ordinary call from the `i`-th on, with
/// `, ` between two, after the text `acc` of the arguments before it.
pub open spec fn call_args_text(
    args: Seq<ExprView>,
    ctx: CtxView,
    loc: LocView,
    i: int,
    acc: Seq<u8>,
) -> Result<Seq<u8>, LowerErrorView>
    decreases args.len() - i,
{
    if !(0 <= i < args.len()) {
        Ok(acc)
    } else {
        match call_arg_text(args[i], ctx, loc) {
            Err(e) => Err(e),
            Ok(t) => call_args_text(
                args,
                ctx,
                loc,
                i + 1,
                if i + 1 < args.len() {
                    acc + t + lit(", ")
                } else {
                    acc + t
                },
            ),
        }
    }
}

/// The text of a call. A call of `print` becomes one call of a print
/// routine for each argument. Any other call becomes one call instruction;
/// whether a function of that name exists is not looked at.
pub open spec fn call_text(c: FnCallView, ctx: CtxView, loc: LocView) -> Result<
    Seq<u8>,
    LowerErrorView,
> {
    if c.name.text == lit("print") {
        print_text(c.args, ctx, loc, 0, Seq::empty())
    } else {
        match call_args_text(c.args, ctx, loc, 0, lit("\tcall $") + c.name.text + lit("(")) {
            Err(e) => Err(e),
            Ok(t) => Ok(t + lit(")\n")),
        }
    }
}

/// The text of the parameters of a function from the `i`-th on, with `, `
/// between two, after the text `acc` of the parameters before it.
pub open spec fn params_text(args: Seq<FnArgView>, i: int, acc: Seq<u8>) -> Seq<u8>
    decreases args.len() - i,
{
    if !(0 <= i < args.len()) {
        acc
    } else {
        let t = type_tag(args[i].ty) + lit(" %") + args[i].name.text;
        params_text(
            args,
            i + 1,
            if i + 1 < args.len() {
                acc + t + lit(", ")
            } else {
                acc + t
            },
        )
    }
}

/// The tag of a return type; nothing for a function that returns no
/// value.
pub open spec fn ret_tag(ret_ty: Option<Type>) -> Seq<u8> {
    match ret_ty {
        Some(ty) => type_tag(ty),
        None => Seq::empty(),
    }
}

/// The return instruction that ends a function: `ret 0` for a function
/// with a return type, `ret` for one without.
pub open spec fn ret_text(ret_ty: Option<Type>) -> Seq<u8> {
    match ret_ty {
        Some(_) => lit("\tret 0\n"),
        None => lit("\tret\n"),
    }
}

/// The first lines of a function: the header, which names the return
/// type, the function and its parameters, and the label at which the body
/// starts.
pub open spec fn fn_head_text(f: FnView) -> Seq<u8> {
    params_text(f.args, 0, lit("function ") + ret_tag(f.ret_ty) + lit(" $") + f.name.text + lit("("))
        + lit(") {\n") + lit("@start\n")
}

/// The text of a node.
pub open spec fn node_text(n: AstView) -> Result<Seq<u8>, LowerErrorView>
    decreases n, 0int,
{
    match n.kind {
        AstKindView::Fn(f) => match nodes_text(f.body, 0, fn_head_text(f)) {
            Err(e) => Err(e),
            Ok(t) => Ok(t + ret_text(f.ret_ty) + lit("}\n")),
        },
        AstKindView::VarDecl(d) => decl_text(d, n.ctx, n.loc),
        AstKindView::FnCall(c) => call_text(c, n.ctx, n.loc),
    }
}

/// The text of the nodes of a list from the `i`-th on, after the text
/// `acc` of the nodes before it.
pub open spec fn nodes_text(nodes: Seq<AstView>, i: int, acc: Seq<u8>) -> Result<
    Seq<u8>,
    LowerErrorView,
>
    decreases nodes, nodes.len() - i,
{
    if !(0 <= i < nodes.len()) {
        Ok(acc)
    } else {
        match node_text(nodes[i]) {
            Err(e) => Err(e),
            Ok(t) => nodes_text(nodes, i + 1, acc + t),
        }
    }
}

/// The entry point that ends every program: it reads the argument count,
/// calls `main` with it and leaves the process with status 0.
pub open spec fn epilogue() -> Seq<u8> {
    lit("export function w $_start() {\n") + lit("@start\n") + lit("\t%argc =l call $argc()\n")
        + lit("\tcall $main(l %argc)\n") + lit("\tcall $syscall1(w 60, w 0)\n") + lit("\tret\n")
        + lit("}\n")
}

/// The text of a program: the text of its nodes in order, and the entry
/// point.
pub open spec fn program_text(nodes: Seq<AstView>) -> Result<Seq<u8>, LowerErrorView> {
    match nodes_text(nodes, 0, Seq::empty()) {
        Err(e) => Err(e),
        Ok(t) => Ok(t + epilogue()),
    }
}

/// Whether `name` is one of the names in `visited`.
fn seen_before(visited: &Vec<Vec<u8>>, name: &[u8]) -> (r: bool)
    ensures
        r == views(visited@).contains(name@),
{
    let mut i: usize = 0;
    while i < visited.len()
        invariant
            i <= visited@.len(),
            forall|j: int| 0 <= j < i ==> views(visited@)[j] != name@,
        decreases visited@.len() - i,
    {
        if bytes_eq(visited[i].as_slice(), name) {
            assert(views(visited@)[i as int] == name@);
            return true;
        }
        i += 1;
    }
    false
}

/// The constant that the value `e` comes to in the scope `ctx`; `loc` is
/// the place of the statement that holds the value.
pub fn find_constant<'a>(e: &'a Expr, ctx: &'a Ctx, loc: &Loc) -> (r: Result<Const, LowerError>)
    ensures
        match constant_of(e@, ctx@.symbols(), loc@) {
            Ok(c) => r == Ok::<Const, LowerError>(c),
            Err(x) => r is Err && r->Err_0@ == x,
        },
{
    let syms = ctx.sym_map();
    let mut cur: &Expr = e;
    let mut visited: Vec<Vec<u8>> = Vec::new();
    let ghost mut rest = syms@;
    proof {
        syms.lemma_finite();
    }
    loop
        invariant
            syms@ == ctx@.symbols(),
            rest.dom().finite(),
            forall|k: Seq<u8>|
                rest.dom().contains(k) <==> syms@.dom().contains(k) && !views(visited@).contains(k),
            forall|k: Seq<u8>| rest.dom().contains(k) ==> rest[k] == syms@[k],
            constant_of(cur@, rest, loc@) == constant_of(e@, syms@, loc@),
        decreases rest.dom().len(),
    {
        match cur {
            Expr::I64(v) => {
                return Ok(Const::Int(*v));
            },
            Expr::F64(bits) => {
                return Ok(Const::Float(*bits));
            },
            Expr::Lit(t) => {
                let undefined = LowerError::UndefinedSymbol {
                    name: copy_bytes(t.string.as_slice()),
                    loc: t.loc.clone(),
                };
                if seen_before(&visited, t.string.as_slice()) {
                    return Err(undefined);
                }
                match syms.get(t.string.as_slice()) {
                    None => {
                        return Err(undefined);
                    },
                    Some(d) => {
                        let name = copy_bytes(t.string.as_slice());
                        proof {
                            vstd::seq_lib::lemma_seq_contains_after_push(
                                views(visited@),
                                name@,
                                name@,
                            );
                            assert forall|k: Seq<u8>|
                                rest.remove(name@).dom().contains(k) <==> syms@.dom().contains(k)
                                    && !views(visited@.push(name)).contains(k) by {
                                vstd::seq_lib::lemma_seq_contains_after_push(
                                    views(visited@),
                                    name@,
                                    k,
                                );
                                assert(views(visited@.push(name)) =~= views(visited@).push(name@));
                            }
                            rest = rest.remove(name@);
                        }
                        visited.push(name);
                        cur = &d.value;
                    },
                }
            },
            _ => {
                return Err(LowerError::NotConstant { loc: loc.clone() });
            },
        }
    }
}

/// Appends the text of a constant.
fn push_const(out: &mut Vec<u8>, c: Const)
    ensures
        final(out)@ == old(out)@ + c.text(),
{
    match c {
        Const::Int(v) => push_i64(out, v),
        Const::Float(bits) => push_u64(out, bits),
    }
}

/// Appends the way the value `e`, which comes to `c`, is passed.
fn push_operand(out: &mut Vec<u8>, e: &Expr, c: Const)
    ensures
        final(out)@ == old(out)@ + operand(e@, c),
{
    match e {
        Expr::Lit(t) => {
            push_str(out, "%");
            push_bytes(out, t.string.as_slice());
        },
        _ => {
            push_const(out, c);
        },
    }
}

/// The type of a constant.
fn const_type(c: Const) -> (r: Type)
    ensures
        r == c.ty(),
{
    match c {
        Const::Int(_) => Type::I64,
        Const::Float(_) => Type::F64,
    }
}

/// Appends the keyword of a type.
fn push_keyword(out: &mut Vec<u8>, ty: Type)
    ensures
        final(out)@ == old(out)@ + type_keyword(ty),
{
    match ty {
        Type::I64 => push_str(out, "i64"),
        Type::F64 => {
            out.push(102u8);
            out.push(54u8);
            out.push(52u8);
        },
    }
}

/// The generator: the text written so far, and the name of the file that
/// the text is meant for.
pub struct Compiler {
    pub out: Vec<u8>,
    pub gen_file_path: Vec<u8>,
}

impl Compiler {
    /// A generator that has written nothing. The text is meant for the
    /// file `out.ssa`, whatever the source file is called.
    pub fn new(_file_path: &str) -> (r: Compiler)
        ensures
            r.out@ == Seq::<u8>::empty(),
            r.gen_file_path@ == lit("out.ssa"),
    {
        Compiler { out: Vec::new(), gen_file_path: copy_bytes("out.ssa".as_bytes()) }
    }

    /// The text of a declaration that was made in the scope `ctx` by the
    /// statement at `loc`.
    pub fn compile_var_decl(vd: &VarDecl, ctx: &Ctx, loc: &Loc) -> (r: Result<Vec<u8>, LowerError>)
        ensures
            match decl_text(vd@, ctx@, loc@) {
                Ok(t) => r is Ok && r->Ok_0@ == t,
                Err(e) => r is Err && r->Err_0@ == e,
            },
    {
        let c = find_constant(&vd.value, ctx, loc)?;
        if const_type(c) != vd.ty {
            return Err(LowerError::TypeMismatch { loc: loc.clone() });
        }
        let mut t: Vec<u8> = Vec::new();
        push_str(&mut t, "\t%");
        push_bytes(&mut t, vd.name_token.string.as_slice());
        push_str(&mut t, " =");
        push_str(&mut t, vd.ty.to_il_str());
        push_str(&mut t, " copy ");
        push_const(&mut t, c);
        push_str(&mut t, "\n");
        Ok(t)
    }

    /// The text of a call of `print`.
    pub fn compile_print(fc: &FnCall, ctx: &Ctx, loc: &Loc) -> (r: Result<Vec<u8>, LowerError>)
        ensures
            match print_text(fc@.args, ctx@, loc@, 0, Seq::empty()) {
                Ok(t) => r is Ok && r->Ok_0@ == t,
                Err(e) => r is Err && r->Err_0@ == e,
            },
    {
        let mut t: Vec<u8> = Vec::new();
        let mut i: usize = 0;
        while i < fc.args.len()
            invariant
                i <= fc.args@.len(),
                print_text(fc@.args, ctx@, loc@, i as int, t@) == print_text(
                    fc@.args,
                    ctx@,
                    loc@,
                    0,
                    Seq::empty(),
                ),
            decreases fc.args@.len() - i,
        {
            let arg = &fc.args[i];
            let c = find_constant(arg, ctx, loc)?;
            let mut a: Vec<u8> = Vec::new();
            push_str(&mut a, "\tcall $print_");
            push_keyword(&mut a, const_type(c));
            push_str(&mut a, "(");
            push_str(&mut a, const_type(c).to_il_str());
            push_str(&mut a, " ");
            push_operand(&mut a, arg, c);
            push_str(&mut a, ", w 1)\n");
            push_bytes(&mut t, a.as_slice());
            i += 1;
        }
        Ok(t)
    }

    /// The text of a call.
    pub fn compile_fn_call(fc: &FnCall, ctx: &Ctx, loc: &Loc) -> (r: Result<Vec<u8>, LowerError>)
        ensures
            match call_text(fc@, ctx@, loc@) {
                Ok(t) => r is Ok && r->Ok_0@ == t,
                Err(e) => r is Err && r->Err_0@ == e,
            },
    {
        if same_as(fc.name_token.string.as_slice(), "print") {
            return Self::compile_print(fc, ctx, loc);
        }
        let mut t: Vec<u8> = Vec::new();
        push_str(&mut t, "\tcall $");
        push_bytes(&mut t, fc.name_token.string.as_slice());
        push_str(&mut t, "(");
        let ghost head = lit("\tcall $") + fc@.name.text + lit("(");
        let mut i: usize = 0;
        while i < fc.args.len()
            invariant
                i <= fc.args@.len(),
                fc@.name.text != lit("print"),
                head == lit("\tcall $") + fc@.name.text + lit("("),
                call_args_text(fc@.args, ctx@, loc@, i as int, t@) == call_args_text(
                    fc@.args,
                    ctx@,
                    loc@,
                    0,
                    head,
                ),
            decreases fc.args@.len() - i,
        {
            let arg = &fc.args[i];
            let c = find_constant(arg, ctx, loc)?;
            let mut a: Vec<u8> = Vec::new();
            push_str(&mut a, const_type(c).to_il_str());
            push_str(&mut a, " ");
            push_operand(&mut a, arg, c);
            push_bytes(&mut t, a.as_slice());
            if i + 1 < fc.args.len() {
                push_str(&mut t, ", ");
            }
            i += 1;
        }
        push_str(&mut t, ")\n");
        Ok(t)
    }

    /// The text of a function definition: the header, the label, the
    /// body and the return.
    pub fn compile_fn(f: &Fn) -> (r: Result<Vec<u8>, LowerError>)
        ensures
            match nodes_text(f@.body, 0, fn_head_text(f@)) {
                Ok(t) => r is Ok && r->Ok_0@ == t + ret_text(f@.ret_ty) + lit("}\n"),
                Err(e) => r is Err && r->Err_0@ == e,
            },
        decreases f,
    {
        let mut t: Vec<u8> = Vec::new();
        push_str(&mut t, "function ");
        match f.ret_ty {
            Some(ty) => push_str(&mut t, ty.to_il_str()),
            None => {},
        }
        push_str(&mut t, " $");
        push_bytes(&mut t, f.name_token.string.as_slice());
        push_str(&mut t, "(");
        let ghost head = lit("function ") + ret_tag(f@.ret_ty) + lit(" $") + f@.name.text + lit("(");
        let mut i: usize = 0;
        while i < f.args.len()
            invariant
                i <= f.args@.len(),
                params_text(f@.args, i as int, t@) == params_text(f@.args, 0, head),
            decreases f.args@.len() - i,
        {
            let arg = &f.args[i];
            let mut a: Vec<u8> = Vec::new();
            push_str(&mut a, arg.ty.to_il_str());
            push_str(&mut a, " %");
            push_bytes(&mut a, arg.name_token.string.as_slice());
            push_bytes(&mut t, a.as_slice());
            if i + 1 < f.args.len() {
                push_str(&mut t, ", ");
            }
            i += 1;
        }
        push_str(&mut t, ") {\n");
        push_str(&mut t, "@start\n");
        let mut k: usize = 0;
        while k < f.body.len()
            invariant
                k <= f.body@.len(),
                nodes_text(f@.body, k as int, t@) == nodes_text(f@.body, 0, fn_head_text(f@)),
            decreases f.body@.len() - k,
        {
            let a = Self::compile_ast(&f.body[k])?;
            push_bytes(&mut t, a.as_slice());
            k += 1;
        }
        match f.ret_ty {
            Some(_) => push_str(&mut t, "\tret 0\n"),
            None => push_str(&mut t, "\tret\n"),
        }
        push_str(&mut t, "}\n");
        Ok(t)
    }

    /// The text of a node.
    pub fn compile_ast(ast: &Ast) -> (r: Result<Vec<u8>, LowerError>)
        ensures
            match node_text(ast@) {
                Ok(t) => r is Ok && r->Ok_0@ == t,
                Err(e) => r is Err && r->Err_0@ == e,
            },
        decreases ast,
    {
        proof {
            crate::ast::lemma_ast_view(*ast);
        }
        match &ast.kind {
            AstKind::Fn(f) => Self::compile_fn(f),
            AstKind::VarDecl(vd) => Self::compile_var_decl(vd, &ast.ctx, &ast.loc),
            AstKind::FnCall(fc) => Self::compile_fn_call(fc, &ast.ctx, &ast.loc),
        }
    }

    /// Writes the text of the program `asts`: the text of every node in
    /// order, followed by the entry point. Nothing is written if the
    /// program cannot be lowered.
    pub fn compile(&mut self, asts: Asts) -> (r: Result<(), LowerError>)
        ensures
            final(self).gen_file_path == old(self).gen_file_path,
            match program_text(asts@) {
                Ok(t) => r is Ok && final(self).out@ == old(self).out@ + t,
                Err(e) => r is Err && r->Err_0@ == e && final(self).out@ == old(self).out@,
            },
    {
        let mut t: Vec<u8> = Vec::new();
        let mut i: usize = 0;
        while i < asts.asts.len()
            invariant
                i <= asts.asts@.len(),
                *self == *old(self),
                nodes_text(asts@, i as int, t@) == nodes_text(asts@, 0, Seq::empty()),
            decreases asts.asts@.len() - i,
        {
            let a = Self::compile_ast(&asts.asts[i])?;
            push_bytes(&mut t, a.as_slice());
            i += 1;
        }
        push_str(&mut t, "export function w $_start() {\n");
        push_str(&mut t, "@start\n");
        push_str(&mut t, "\t%argc =l call $argc()\n");
        push_str(&mut t, "\tcall $main(l %argc)\n");
        push_str(&mut t, "\tcall $syscall1(w 60, w 0)\n");
        push_str(&mut t, "\tret\n");
        push_str(&mut t, "}\n");
        push_bytes(&mut self.out, t.as_slice());
        Ok(())
    }
}

} // verus!
