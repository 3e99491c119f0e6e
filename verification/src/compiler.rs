use vstd::prelude::*;
use std::rc::Rc;
use crate::value::{Value, ValueView, ChunkView, value_view, values_view, chunk_view, opt_string_view};
use crate::ast::{BinOp, Expr, Stmt, ExprView, StmtView, expr_view, stmt_view, exprs_view, stmts_view, strings_view, lemma_call_view, lemma_block_view, lemma_while_view, lemma_if_view, lemma_fn_view, copy_strings};
use crate::error::LiabError;

verus! {

/// A single bytecode instruction. Stack effects are written `[before] -> [after]`.
#[derive(Debug, Clone, Copy, PartialEq, Eq, Structural)]
pub enum Instruction {
    /// Push `constants[index]`. `[] -> [c]`
    Constant(usize),
    /// `[a, b] -> [a + b]`
    Add,
    /// `[a, b] -> [a - b]`
    Sub,
    /// `[a, b] -> [a * b]`
    Mul,
    /// `[a, b] -> [a / b]`
    Div,
    /// `[a, b] -> [a == b]`
    Eq,
    /// `[a, b] -> [a != b]`
    Neq,
    /// `[a, b] -> [a > b]`
    Gt,
    /// `[a, b] -> [a < b]`
    Lt,
    /// `[a, b] -> [a >= b]`
    Gte,
    /// `[a, b] -> [a <= b]`
    Lte,
    /// Discard the top of the stack. `[v] -> []`
    Pop,
    /// Print and pop the top of the stack. `[v] -> []`
    Print,
    /// Define a global named by a string constant. `[v] -> []`
    DefineGlobal(usize),
    /// Push a global named by a string constant. `[] -> [v]`
    GetGlobal(usize),
    /// Store into an existing global. `[v] -> []`
    SetGlobal(usize),
    /// Read a namespace member named by a string constant. `[ns] -> [v]`
    GetProperty(usize),
    /// Read a namespace member by a string key. `[ns, key] -> [v]`
    GetIndex,
    /// Push the local at a slot of the current frame. `[] -> [v]`
    GetLocal(usize),
    /// Store into the local at a slot of the current frame. `[v] -> []`
    SetLocal(usize),
    /// Continue at an absolute instruction index.
    Jump(usize),
    /// Pop; continue at the index if the value is falsy. `[c] -> []`
    JumpIfFalse(usize),
    /// Call the function below the arguments. `[f, a0, .., an-1] -> [r]`
    Call(usize),
    /// Return the top of the stack from the current function.
    Return,
    /// Load the module whose path is a string constant.
    Love(usize),
    /// Export the module global named by a string constant.
    Export(usize),
}

/// The compiled bytecode of a function or script, with its constant pool.
#[derive(Debug, PartialEq)]
pub struct Chunk {
    /// The bytecode instructions.
    pub code: Vec<Instruction>,
    /// The constant pool, indexed by `Constant(i)` and the name operands.
    pub constants: Vec<Value>,
}

// ---- code generation, as a function of the AST ---------------------------

/// The state of code generation: the code and constants emitted so far, and
/// the local slots (`None` at the top level of a script, where names are globals).
pub struct Gen {
    pub code: Seq<Instruction>,
    pub consts: Seq<ValueView>,
    pub locals: Option<Seq<Seq<char>>>,
}

/// The placeholder target of a jump that is patched later.
pub open spec fn placeholder() -> usize {
    0xFFFF
}

pub open spec fn emit(g: Gen, i: Instruction) -> Gen {
    Gen { code: g.code.push(i), consts: g.consts, locals: g.locals }
}

pub open spec fn with_const(g: Gen, v: ValueView) -> Gen {
    Gen { code: g.code, consts: g.consts.push(v), locals: g.locals }
}

/// Adds `v` to the constant pool and emits `mk(index of v)`.
pub open spec fn emit_const(g: Gen, v: ValueView, mk: spec_fn(usize) -> Instruction) -> Gen {
    emit(with_const(g, v), mk(g.consts.len() as usize))
}

/// The jump `i` retargeted to `target`.
pub open spec fn retarget(i: Instruction, target: usize) -> Instruction {
    match i {
        Instruction::Jump(_) => Instruction::Jump(target),
        Instruction::JumpIfFalse(_) => Instruction::JumpIfFalse(target),
        other => other,
    }
}

/// The jump at `at` made to target the end of the code.
pub open spec fn patch(g: Gen, at: int) -> Gen {
    Gen { code: g.code.update(at, retarget(g.code[at], g.code.len() as usize)), consts: g.consts, locals: g.locals }
}

/// The first slot holding `name`.
pub open spec fn first_slot(ls: Seq<Seq<char>>, name: Seq<char>) -> Option<nat>
    decreases ls.len(),
{
    if ls.len() == 0 {
        None
    } else {
        match first_slot(ls.drop_last(), name) {
            Some(i) => Some(i),
            None => if ls.last() == name { Some((ls.len() - 1) as nat) } else { None },
        }
    }
}

/// The local slot of `name`, if code is generated for a function and `name` is local.
pub open spec fn local_slot(locals: Option<Seq<Seq<char>>>, name: Seq<char>) -> Option<nat> {
    match locals {
        Some(ls) => first_slot(ls, name),
        None => None,
    }
}

/// The instruction of a binary operator.
pub open spec fn op_instruction(op: BinOp) -> Instruction {
    match op {
        BinOp::Add => Instruction::Add,
        BinOp::Sub => Instruction::Sub,
        BinOp::Mul => Instruction::Mul,
        BinOp::Div => Instruction::Div,
        BinOp::Eq => Instruction::Eq,
        BinOp::Neq => Instruction::Neq,
        BinOp::Gt => Instruction::Gt,
        BinOp::Lt => Instruction::Lt,
        BinOp::Gte => Instruction::Gte,
        BinOp::Lte => Instruction::Lte,
    }
}

/// Code for an expression: it leaves the expression's value on the stack.
pub open spec fn gen_expr(e: ExprView, g: Gen) -> Gen
    decreases e,
{
    match e {
        ExprView::Number(n) => emit_const(g, ValueView::Number(n), |i: usize| Instruction::Constant(i)),
        ExprView::Boolean(b) => emit_const(g, ValueView::Boolean(b), |i: usize| Instruction::Constant(i)),
        ExprView::String(s) => emit_const(g, ValueView::String(s), |i: usize| Instruction::Constant(i)),
        ExprView::Identifier(name) => match local_slot(g.locals, name) {
            Some(slot) => emit(g, Instruction::GetLocal(slot as usize)),
            None => emit_const(g, ValueView::String(name), |i: usize| Instruction::GetGlobal(i)),
        },
        ExprView::Member { object, property } =>
            emit_const(gen_expr(*object, g), ValueView::String(property), |i: usize| Instruction::GetProperty(i)),
        ExprView::Index { object, index } => emit(gen_expr(*index, gen_expr(*object, g)), Instruction::GetIndex),
        ExprView::BinaryOp { left, op, right } => emit(gen_expr(*right, gen_expr(*left, g)), op_instruction(op)),
        ExprView::FunctionCall { callee, args } =>
            emit(gen_args(args, gen_expr(*callee, g)), Instruction::Call(args.len() as usize)),
    }
}

/// Code for a list of expressions, left to right.
pub open spec fn gen_args(args: Seq<ExprView>, g: Gen) -> Gen
    decreases args,
{
    if args.len() == 0 {
        g
    } else {
        gen_expr(args.last(), gen_args(args.drop_last(), g))
    }
}

/// The implicit `return 0` that ends every chunk.
pub open spec fn finish(g: Gen) -> Gen {
    emit(emit_const(g, ValueView::Number(0), |i: usize| Instruction::Constant(i)), Instruction::Return)
}

/// The chunk of a function with the given parameters and body.
pub open spec fn function_chunk(params: Seq<Seq<char>>, body: Seq<StmtView>, module: Option<Seq<char>>) -> ChunkView {
    let g = finish(gen_stmts(body, Gen { code: Seq::empty(), consts: Seq::empty(), locals: Some(params) }, module));
    ChunkView { code: g.code, constants: g.consts }
}

/// `name` now refers to the value on top of the stack: a new global at the
/// top level, a new local slot in a function.
pub open spec fn bind_name(g: Gen, name: Seq<char>) -> Gen {
    match g.locals {
        None => emit_const(g, ValueView::String(name), |i: usize| Instruction::DefineGlobal(i)),
        Some(ls) => Gen { code: g.code, consts: g.consts, locals: Some(ls.push(name)) },
    }
}

/// Code for a statement.
pub open spec fn gen_stmt(s: StmtView, g: Gen, module: Option<Seq<char>>) -> Gen
    decreases s,
{
    match s {
        StmtView::Let { name, value } => bind_name(gen_expr(value, g), name),
        StmtView::Assignment { name, value } => {
            let g1 = gen_expr(value, g);
            match local_slot(g1.locals, name) {
                Some(slot) => emit(g1, Instruction::SetLocal(slot as usize)),
                None => emit_const(g1, ValueView::String(name), |i: usize| Instruction::SetGlobal(i)),
            }
        },
        StmtView::Print(e) => emit(gen_expr(e, g), Instruction::Print),
        StmtView::Expression(e) => emit(gen_expr(e, g), Instruction::Pop),
        StmtView::Return(e) => emit(gen_expr(e, g), Instruction::Return),
        StmtView::FunctionDef { name, params, body } => {
            let f = ValueView::CompiledFunction {
                name,
                arity: params.len() as usize,
                chunk: {
                    let fg = finish(gen_stmts(body, Gen { code: Seq::empty(), consts: Seq::empty(), locals: Some(params) }, module));
                    ChunkView { code: fg.code, constants: fg.consts }
                },
                module,
            };
            bind_name(emit_const(g, f, |i: usize| Instruction::Constant(i)), name)
        },
        StmtView::If { condition, then_body, else_body } => {
            let g1 = gen_expr(condition, g);
            let j = g1.code.len() as int;
            let g2 = gen_stmts(then_body, emit(g1, Instruction::JumpIfFalse(placeholder())), module);
            match else_body {
                Some(eb) => {
                    let k = g2.code.len() as int;
                    let g3 = gen_stmts(eb, patch(emit(g2, Instruction::Jump(placeholder())), j), module);
                    patch(g3, k)
                },
                None => patch(g2, j),
            }
        },
        StmtView::While { condition, body } => {
            let start = g.code.len() as usize;
            let g1 = gen_expr(condition, g);
            let j = g1.code.len() as int;
            let g2 = gen_stmts(body, emit(g1, Instruction::JumpIfFalse(placeholder())), module);
            patch(emit(g2, Instruction::Jump(start)), j)
        },
        StmtView::Block(ss) => gen_stmts(ss, g, module),
        StmtView::Love(path) => emit_const(g, ValueView::String(path), |i: usize| Instruction::Love(i)),
        StmtView::Export(name) => emit_const(g, ValueView::String(name), |i: usize| Instruction::Export(i)),
    }
}

/// Code for a list of statements, in order.
pub open spec fn gen_stmts(ss: Seq<StmtView>, g: Gen, module: Option<Seq<char>>) -> Gen
    decreases ss,
{
    if ss.len() == 0 {
        g
    } else {
        gen_stmt(ss.last(), gen_stmts(ss.drop_last(), g, module), module)
    }
}

/// The chunk of a whole program.
pub open spec fn program_chunk(ss: Seq<StmtView>, module: Option<Seq<char>>) -> ChunkView {
    let g = finish(gen_stmts(ss, Gen { code: Seq::empty(), consts: Seq::empty(), locals: None }, module));
    ChunkView { code: g.code, constants: g.consts }
}

// ---- chunks --------------------------------------------------------------

impl Chunk {
    /// An empty chunk.
    pub fn new() -> (c: Self)
        ensures
            c.code@ == Seq::<Instruction>::empty(),
            c.constants@ == Seq::<Value>::empty(),
    {
        Chunk { code: Vec::new(), constants: Vec::new() }
    }

    /// Appends an instruction and returns its index.
    pub fn emit(&mut self, instr: Instruction) -> (idx: usize)
        ensures
            final(self).code@ == old(self).code@.push(instr),
            final(self).constants@ == old(self).constants@,
            idx == old(self).code@.len(),
    {
        let idx = self.code.len();
        self.code.push(instr);
        idx
    }

    /// Adds a constant to the pool and returns its index.
    pub fn add_constant(&mut self, value: Value) -> (idx: usize)
        ensures
            final(self).constants@ == old(self).constants@.push(value),
            final(self).code@ == old(self).code@,
            idx == old(self).constants@.len(),
    {
        self.constants.push(value);
        self.constants.len() - 1
    }

    /// Emits a jump whose target is patched later; returns its index.
    pub fn emit_jump(&mut self, instr: Instruction) -> (idx: usize)
        ensures
            final(self).code@ == old(self).code@.push(instr),
            final(self).constants@ == old(self).constants@,
            idx == old(self).code@.len(),
    {
        self.emit(instr)
    }

    /// Makes the jump at `jump_idx` target the current end of the code.
    pub fn patch_jump(&mut self, jump_idx: usize)
        requires
            jump_idx < old(self).code@.len(),
            old(self).code@[jump_idx as int] is Jump || old(self).code@[jump_idx as int] is JumpIfFalse,
        ensures
            final(self).code@ == old(self).code@.update(
                jump_idx as int,
                retarget(old(self).code@[jump_idx as int], old(self).code@.len() as usize),
            ),
            final(self).constants@ == old(self).constants@,
    {
        let target = self.code.len();
        let patched = match self.code[jump_idx] {
            Instruction::Jump(_) => Instruction::Jump(target),
            _ => Instruction::JumpIfFalse(target),
        };
        self.code.set(jump_idx, patched);
    }

    /// The index the next instruction will get.
    pub fn current_offset(&self) -> (n: usize)
        ensures
            n == self.code@.len(),
    {
        self.code.len()
    }
}

impl Default for Chunk {
    fn default() -> (c: Self)
        ensures
            c.code@ == Seq::<Instruction>::empty(),
            c.constants@ == Seq::<Value>::empty(),
    {
        Chunk::new()
    }
}

// ---- the emitter -----------------------------------------------------------

pub open spec fn locals_view(locals: Option<Vec<String>>) -> Option<Seq<Seq<char>>> {
    match locals {
        Some(ls) => Some(strings_view(ls@)),
        None => None,
    }
}

pub open spec fn gen_of(chunk: Chunk, locals: Option<Vec<String>>) -> Gen {
    Gen { code: chunk.code@, consts: values_view(chunk.constants@), locals: locals_view(locals) }
}

/// `a` is an extension of `b`: code and constants are only ever appended to,
/// and jumps only patched, past `b`'s end.
pub open spec fn extends(a: Chunk, b: Chunk) -> bool {
    &&& a.code@.len() >= b.code@.len()
    &&& a.code@.subrange(0, b.code@.len() as int) == b.code@
    &&& a.constants@.len() >= b.constants@.len()
    &&& a.constants@.subrange(0, b.constants@.len() as int) == b.constants@
}

proof fn lemma_extends_trans(a: Chunk, b: Chunk, c: Chunk)
    requires
        extends(a, b),
        extends(b, c),
    ensures
        extends(a, c),
{
    assert(a.code@.subrange(0, c.code@.len() as int) =~= b.code@.subrange(0, c.code@.len() as int));
    assert(a.constants@.subrange(0, c.constants@.len() as int) =~= b.constants@.subrange(0, c.constants@.len() as int));
}

pub fn copy_string_option(o: &Option<String>) -> (r: Option<String>)
    ensures
        r == *o,
{
    match o {
        Some(s) => Some(s.clone()),
        None => None,
    }
}

proof fn lemma_first_slot(ls: Seq<Seq<char>>, name: Seq<char>, i: int)
    requires
        0 <= i <= ls.len(),
        forall|j: int| 0 <= j < i ==> ls[j] != name,
    ensures
        i < ls.len() && ls[i] == name ==> first_slot(ls, name) == Some(i as nat),
        i == ls.len() ==> first_slot(ls, name) is None,
    decreases ls.len(),
{
    if ls.len() > 0 {
        if i < ls.len() {
            if i < ls.len() - 1 {
                lemma_first_slot(ls.drop_last(), name, i);
            } else {
                lemma_first_slot(ls.drop_last(), name, i);
            }
        } else {
            lemma_first_slot(ls.drop_last(), name, i - 1);
        }
    }
}

proof fn lemma_values_view_push(vs: Seq<Value>, v: Value)
    ensures
        values_view(vs.push(v)) == values_view(vs).push(value_view(v)),
{
    assert(values_view(vs.push(v)) =~= values_view(vs).push(value_view(v)));
}

proof fn lemma_compiled_view(name: String, arity: usize, chunk: Chunk, module: Option<String>)
    ensures
        value_view(Value::CompiledFunction { name, arity, chunk: Rc::new(chunk), module })
            == (ValueView::CompiledFunction { name: name@, arity, chunk: chunk_view(chunk), module: opt_string_view(module) }),
{
    let v = value_view(Value::CompiledFunction { name, arity, chunk: Rc::new(chunk), module });
    if let ValueView::CompiledFunction { name: n, arity: a, chunk: c, module: m } = v {
        assert(c.constants =~= values_view(chunk.constants@));
    }
}

/// Emits code into a chunk; `locals` is `None` for a script's top level and
/// holds the local slot names inside a function.
struct Emitter {
    chunk: Chunk,
    locals: Option<Vec<String>>,
    module: Option<String>,
}

impl Emitter {
    spec fn gen(&self) -> Gen {
        gen_of(self.chunk, self.locals)
    }

    fn add_constant(&mut self, v: Value) -> (idx: usize)
        ensures
            final(self).gen() == with_const(old(self).gen(), value_view(v)),
            final(self).module == old(self).module,
            extends(final(self).chunk, old(self).chunk),
            idx == old(self).chunk.constants@.len(),
    {
        proof { lemma_values_view_push(self.chunk.constants@, v); }
        let idx = self.chunk.add_constant(v);
        proof {
            assert(self.chunk.constants@.subrange(0, old(self).chunk.constants@.len() as int) =~= old(self).chunk.constants@);
            assert(self.chunk.code@.subrange(0, old(self).chunk.code@.len() as int) =~= old(self).chunk.code@);
        }
        idx
    }

    fn emit(&mut self, i: Instruction)
        ensures
            final(self).gen() == emit(old(self).gen(), i),
            final(self).module == old(self).module,
            extends(final(self).chunk, old(self).chunk),
    {
        self.chunk.emit(i);
        proof {
            assert(self.chunk.constants@.subrange(0, old(self).chunk.constants@.len() as int) =~= old(self).chunk.constants@);
            assert(self.chunk.code@.subrange(0, old(self).chunk.code@.len() as int) =~= old(self).chunk.code@);
        }
    }

    /// Adds `v` as a constant and emits the instruction that `which` names
    /// with its index: 0 `Constant`, 1 `GetGlobal`, 2 `SetGlobal`,
    /// 3 `DefineGlobal`, 4 `GetProperty`, 5 `Love`, 6 `Export`.
    fn emit_with_constant(&mut self, v: Value, which: u8) -> (idx: usize)
        requires
            which <= 6,
        ensures
            final(self).gen() == emit_const(old(self).gen(), value_view(v), operand_instruction(which)),
            final(self).module == old(self).module,
            extends(final(self).chunk, old(self).chunk),
            idx == old(self).chunk.constants@.len(),
    {
        let idx = self.add_constant(v);
        let i = if which == 0 { Instruction::Constant(idx) }
            else if which == 1 { Instruction::GetGlobal(idx) }
            else if which == 2 { Instruction::SetGlobal(idx) }
            else if which == 3 { Instruction::DefineGlobal(idx) }
            else if which == 4 { Instruction::GetProperty(idx) }
            else if which == 5 { Instruction::Love(idx) }
            else { Instruction::Export(idx) };
        let ghost mid = self.chunk;
        self.emit(i);
        proof { lemma_extends_trans(self.chunk, mid, old(self).chunk); }
        idx
    }

    /// The local slot of `name`.
    fn resolve_local(&self, name: &String) -> (r: Option<usize>)
        ensures
            match local_slot(locals_view(self.locals), name@) {
                Some(i) => r == Some(i as usize),
                None => r is None,
            },
    {
        match &self.locals {
            None => None,
            Some(ls) => {
                let mut i: usize = 0;
                while i < ls.len()
                    invariant
                        i <= ls@.len(),
                        locals_view(self.locals) == Some(strings_view(ls@)),
                        forall|j: int| 0 <= j < i ==> strings_view(ls@)[j] != name@,
                    decreases ls@.len() - i,
                {
                    if ls[i] == *name {
                        proof {
                            assert(strings_view(ls@)[i as int] == name@);
                            lemma_first_slot(strings_view(ls@), name@, i as int);
                        }
                        return Some(i);
                    }
                    i = i + 1;
                }
                proof {
                    assert(strings_view(ls@).len() == ls@.len());
                    lemma_first_slot(strings_view(ls@), name@, i as int);
                }
                None
            },
        }
    }
}


proof fn lemma_patch_extends(a: Chunk, b: Chunk, c: Chunk, at: int, x: Instruction)
    requires
        extends(b, c),
        c.code@.len() <= at < b.code@.len(),
        a.code@ == b.code@.update(at, x),
        a.constants@ == b.constants@,
    ensures
        extends(a, c),
{
    assert(a.code@.subrange(0, c.code@.len() as int) =~= b.code@.subrange(0, c.code@.len() as int));
}

proof fn lemma_gen_args_step(s: Seq<ExprView>, i: int, g: Gen)
    requires
        0 <= i < s.len(),
    ensures
        gen_args(s.subrange(0, i + 1), g) == gen_expr(s[i], gen_args(s.subrange(0, i), g)),
{
    assert(s.subrange(0, i + 1).drop_last() =~= s.subrange(0, i));
}

proof fn lemma_gen_stmts_step(s: Seq<StmtView>, i: int, g: Gen, module: Option<Seq<char>>)
    requires
        0 <= i < s.len(),
    ensures
        gen_stmts(s.subrange(0, i + 1), g, module) == gen_stmt(s[i], gen_stmts(s.subrange(0, i), g, module), module),
{
    assert(s.subrange(0, i + 1).drop_last() =~= s.subrange(0, i));
}

impl Emitter {
    /// Makes the jump at `at` target the end of the code.
    fn patch(&mut self, at: usize)
        requires
            at < old(self).chunk.code@.len(),
            old(self).chunk.code@[at as int] is Jump || old(self).chunk.code@[at as int] is JumpIfFalse,
        ensures
            final(self).gen() == patch(old(self).gen(), at as int),
            final(self).module == old(self).module,
            final(self).chunk.code@ == old(self).chunk.code@.update(
                at as int,
                retarget(old(self).chunk.code@[at as int], old(self).chunk.code@.len() as usize),
            ),
            final(self).chunk.constants@ == old(self).chunk.constants@,
    {
        self.chunk.patch_jump(at);
    }

    /// `name` now refers to the value on top of the stack.
    fn bind_name(&mut self, name: String)
        ensures
            final(self).gen() == bind_name(old(self).gen(), name@),
            final(self).module == old(self).module,
            extends(final(self).chunk, old(self).chunk),
    {
        let mut ls: Option<Vec<String>> = None;
        std::mem::swap(&mut ls, &mut self.locals);
        match ls {
            None => {
                self.emit_with_constant(Value::String(name), 3);
            },
            Some(mut v) => {
                let ghost before = v@;
                v.push(name);
                proof {
                    assert(strings_view(v@) =~= strings_view(before).push(name@));
                    assert(self.chunk.code@.subrange(0, self.chunk.code@.len() as int) =~= self.chunk.code@);
                    assert(self.chunk.constants@.subrange(0, self.chunk.constants@.len() as int) =~= self.chunk.constants@);
                }
                self.locals = Some(v);
            },
        }
    }

    /// Emits the code of an expression.
    fn compile_expr(&mut self, e: &Expr)
        ensures
            final(self).gen() == gen_expr(e@, old(self).gen()),
            final(self).module == old(self).module,
            extends(final(self).chunk, old(self).chunk),
        decreases e,
    {
        match e {
            Expr::Number(n) => {
                self.emit_with_constant(Value::Number(*n), 0);
            },
            Expr::Boolean(b) => {
                self.emit_with_constant(Value::Boolean(*b), 0);
            },
            Expr::String(s) => {
                self.emit_with_constant(Value::String(s.clone()), 0);
            },
            Expr::Identifier(name) => {
                match self.resolve_local(name) {
                    Some(slot) => {
                        self.emit(Instruction::GetLocal(slot));
                    },
                    None => {
                        self.emit_with_constant(Value::String(name.clone()), 1);
                    },
                }
            },
            Expr::Member { object, property } => {
                let ghost c0 = self.chunk;
                self.compile_expr(object);
                let ghost c1 = self.chunk;
                self.emit_with_constant(Value::String(property.clone()), 4);
                proof { lemma_extends_trans(self.chunk, c1, c0); }
            },
            Expr::Index { object, index } => {
                let ghost c0 = self.chunk;
                self.compile_expr(object);
                let ghost c1 = self.chunk;
                self.compile_expr(index);
                let ghost c2 = self.chunk;
                self.emit(Instruction::GetIndex);
                proof {
                    lemma_extends_trans(c2, c1, c0);
                    lemma_extends_trans(self.chunk, c2, c0);
                }
            },
            Expr::BinaryOp { left, op, right } => {
                let ghost c0 = self.chunk;
                self.compile_expr(left);
                let ghost c1 = self.chunk;
                self.compile_expr(right);
                let ghost c2 = self.chunk;
                let i = match op {
                    BinOp::Add => Instruction::Add,
                    BinOp::Sub => Instruction::Sub,
                    BinOp::Mul => Instruction::Mul,
                    BinOp::Div => Instruction::Div,
                    BinOp::Eq => Instruction::Eq,
                    BinOp::Neq => Instruction::Neq,
                    BinOp::Gt => Instruction::Gt,
                    BinOp::Lt => Instruction::Lt,
                    BinOp::Gte => Instruction::Gte,
                    BinOp::Lte => Instruction::Lte,
                };
                self.emit(i);
                proof {
                    lemma_extends_trans(c2, c1, c0);
                    lemma_extends_trans(self.chunk, c2, c0);
                }
            },
            Expr::FunctionCall { callee, args } => {
                proof { lemma_call_view(**callee, *args); }
                let ghost c0 = self.chunk;
                self.compile_expr(callee);
                let ghost g1 = self.gen();
                let ghost m0 = self.module;
                let ghost argv = exprs_view(args@);
                let mut i: usize = 0;
                while i < args.len()
                    invariant
                        i <= args@.len(),
                        *e is FunctionCall,
                        (*e)->FunctionCall_args == *args,
                        argv == exprs_view(args@),
                        self.gen() == gen_args(argv.subrange(0, i as int), g1),
                        self.module == m0,
                        extends(self.chunk, c0),
                    decreases args@.len() - i,
                {
                    let ghost ci = self.chunk;
                    proof {
                        assert(decreases_to!(*args => args@[i as int]));
                    }
                    self.compile_expr(&args[i]);
                    proof {
                        lemma_gen_args_step(argv, i as int, g1);
                        lemma_extends_trans(self.chunk, ci, c0);
                    }
                    i = i + 1;
                }
                proof { assert(argv.subrange(0, args@.len() as int) =~= argv); }
                let ghost cn = self.chunk;
                self.emit(Instruction::Call(args.len()));
                proof { lemma_extends_trans(self.chunk, cn, c0); }
            },
        }
    }
}

impl Emitter {
    spec fn module_view(&self) -> Option<Seq<char>> {
        opt_string_view(self.module)
    }

    /// Emits the code of a list of statements.
    fn compile_block(&mut self, ss: &Vec<Stmt>)
        ensures
            final(self).gen() == gen_stmts(stmts_view(ss@), old(self).gen(), old(self).module_view()),
            final(self).module == old(self).module,
            extends(final(self).chunk, old(self).chunk),
        decreases ss, 0nat,
    {
        let ghost c0 = self.chunk;
        let ghost g0 = self.gen();
        let ghost m0 = self.module;
        let ghost sv = stmts_view(ss@);
        proof {
            assert(c0.code@.subrange(0, c0.code@.len() as int) =~= c0.code@);
            assert(c0.constants@.subrange(0, c0.constants@.len() as int) =~= c0.constants@);
        }
        let mut i: usize = 0;
        while i < ss.len()
            invariant
                i <= ss@.len(),
                sv == stmts_view(ss@),
                self.gen() == gen_stmts(sv.subrange(0, i as int), g0, opt_string_view(m0)),
                self.module == m0,
                extends(self.chunk, c0),
            decreases ss@.len() - i,
        {
            let ghost ci = self.chunk;
            proof { assert(decreases_to!(*ss => ss@[i as int])); }
            self.compile_stmt(&ss[i]);
            proof {
                lemma_gen_stmts_step(sv, i as int, g0, opt_string_view(m0));
                lemma_extends_trans(self.chunk, ci, c0);
            }
            i = i + 1;
        }
        proof { assert(sv.subrange(0, ss@.len() as int) =~= sv); }
    }

    /// Ends the chunk with the implicit `return 0` and hands it over.
    fn finish(self) -> (c: Chunk)
        ensures
            chunk_view(c) == (ChunkView { code: finish(self.gen()).code, constants: finish(self.gen()).consts }),
    {
        let mut this = self;
        this.emit_with_constant(Value::Number(0), 0);
        this.emit(Instruction::Return);
        this.chunk
    }

    /// Emits the code of a statement.
    fn compile_stmt(&mut self, s: &Stmt)
        ensures
            final(self).gen() == gen_stmt(s@, old(self).gen(), old(self).module_view()),
            final(self).module == old(self).module,
            extends(final(self).chunk, old(self).chunk),
        decreases s, 1nat,
    {
        let ghost c0 = self.chunk;
        match s {
            Stmt::Let { name, value } => {
                self.compile_expr(value);
                let ghost c1 = self.chunk;
                self.bind_name(name.clone());
                proof { lemma_extends_trans(self.chunk, c1, c0); }
            },
            Stmt::Assignment { name, value } => {
                self.compile_expr(value);
                let ghost c1 = self.chunk;
                match self.resolve_local(name) {
                    Some(slot) => {
                        self.emit(Instruction::SetLocal(slot));
                    },
                    None => {
                        self.emit_with_constant(Value::String(name.clone()), 2);
                    },
                }
                proof { lemma_extends_trans(self.chunk, c1, c0); }
            },
            Stmt::Print(e) => {
                self.compile_expr(e);
                let ghost c1 = self.chunk;
                self.emit(Instruction::Print);
                proof { lemma_extends_trans(self.chunk, c1, c0); }
            },
            Stmt::Expression(e) => {
                self.compile_expr(e);
                let ghost c1 = self.chunk;
                self.emit(Instruction::Pop);
                proof { lemma_extends_trans(self.chunk, c1, c0); }
            },
            Stmt::Return(e) => {
                self.compile_expr(e);
                let ghost c1 = self.chunk;
                self.emit(Instruction::Return);
                proof { lemma_extends_trans(self.chunk, c1, c0); }
            },
            Stmt::FunctionDef { name, params, body } => {
                proof { lemma_fn_view(*name, *params, *body); }
                let mut nested = Emitter {
                    chunk: Chunk::new(),
                    locals: Some(copy_strings(params)),
                    module: copy_string_option(&self.module),
                };
                proof {
                    assert(nested.chunk.constants@ =~= Seq::<Value>::empty());
                    assert(values_view(nested.chunk.constants@) =~= Seq::<ValueView>::empty());
                }
                nested.compile_block(body);
                let fchunk = nested.finish();
                let f = Value::CompiledFunction {
                    name: name.clone(),
                    arity: params.len(),
                    chunk: Rc::new(fchunk),
                    module: copy_string_option(&self.module),
                };
                proof { lemma_compiled_view(*name, params@.len() as usize, fchunk, self.module); }
                self.emit_with_constant(f, 0);
                let ghost c1 = self.chunk;
                self.bind_name(name.clone());
                proof { lemma_extends_trans(self.chunk, c1, c0); }
            },
            Stmt::If { condition, then_body, else_body } => {
                proof { lemma_if_view(*condition, *then_body, *else_body); }
                self.compile_expr(condition);
                let ghost c1 = self.chunk;
                let j = self.chunk.emit_jump(Instruction::JumpIfFalse(0xFFFF));
                proof {
                    assert(self.chunk.code@.subrange(0, c1.code@.len() as int) =~= c1.code@);
                    assert(self.chunk.constants@.subrange(0, c1.constants@.len() as int) =~= c1.constants@);
                    lemma_extends_trans(self.chunk, c1, c0);
                }
                let ghost c2 = self.chunk;
                self.compile_block(then_body);
                proof {
                    lemma_extends_trans(self.chunk, c2, c0);
                    assert(self.chunk.code@[j as int] == c2.code@[j as int]);
                }
                match else_body {
                    Some(eb) => {
                        let ghost c3 = self.chunk;
                        let k = self.chunk.emit_jump(Instruction::Jump(0xFFFF));
                        proof {
                            assert(self.chunk.code@.subrange(0, c3.code@.len() as int) =~= c3.code@);
                            assert(self.chunk.constants@.subrange(0, c3.constants@.len() as int) =~= c3.constants@);
                            lemma_extends_trans(self.chunk, c3, c0);
                        }
                        let ghost c4 = self.chunk;
                        self.patch(j);
                        proof { lemma_patch_extends(self.chunk, c4, c0, j as int, self.chunk.code@[j as int]); }
                        let ghost c5 = self.chunk;
                        self.compile_block(eb);
                        proof {
                            lemma_extends_trans(self.chunk, c5, c0);
                            assert(self.chunk.code@[k as int] == c5.code@[k as int]);
                        }
                        let ghost c6 = self.chunk;
                        self.patch(k);
                        proof { lemma_patch_extends(self.chunk, c6, c0, k as int, self.chunk.code@[k as int]); }
                    },
                    None => {
                        let ghost c3 = self.chunk;
                        self.patch(j);
                        proof { lemma_patch_extends(self.chunk, c3, c0, j as int, self.chunk.code@[j as int]); }
                    },
                }
            },
            Stmt::While { condition, body } => {
                proof { lemma_while_view(*condition, *body); }
                let start = self.chunk.current_offset();
                self.compile_expr(condition);
                let ghost c1 = self.chunk;
                let j = self.chunk.emit_jump(Instruction::JumpIfFalse(0xFFFF));
                proof {
                    assert(self.chunk.code@.subrange(0, c1.code@.len() as int) =~= c1.code@);
                    assert(self.chunk.constants@.subrange(0, c1.constants@.len() as int) =~= c1.constants@);
                    lemma_extends_trans(self.chunk, c1, c0);
                }
                let ghost c2 = self.chunk;
                self.compile_block(body);
                proof { lemma_extends_trans(self.chunk, c2, c0); }
                let ghost c3 = self.chunk;
                self.emit(Instruction::Jump(start));
                proof {
                    lemma_extends_trans(self.chunk, c3, c0);
                    assert(self.chunk.code@[j as int] == c2.code@[j as int]);
                }
                let ghost c4 = self.chunk;
                self.patch(j);
                proof { lemma_patch_extends(self.chunk, c4, c0, j as int, self.chunk.code@[j as int]); }
            },
            Stmt::Block(ss) => {
                proof { lemma_block_view(*ss); }
                self.compile_block(ss);
            },
            Stmt::Love(path) => {
                self.emit_with_constant(Value::String(path.clone()), 5);
            },
            Stmt::Export(name) => {
                self.emit_with_constant(Value::String(name.clone()), 6);
            },
        }
    }
}

/// Compiles a program into a script chunk; each function definition becomes
/// a `CompiledFunction` constant with its own chunk.
pub struct Compiler {
    chunk: Chunk,
    module: Option<String>,
}

impl Compiler {
    #[verifier::type_invariant]
    spec fn starts_empty(&self) -> bool {
        self.chunk.code@.len() == 0 && self.chunk.constants@.len() == 0
    }

    /// The module that compiled functions are tagged with.
    pub closed spec fn module_name(&self) -> Option<Seq<char>> {
        opt_string_view(self.module)
    }

    /// A compiler for a program that is not a module.
    pub fn new() -> (c: Self)
        ensures
            c.module_name() is None,
    {
        Compiler { chunk: Chunk::new(), module: None }
    }

    /// A compiler whose functions are tagged with the module `path`.
    pub fn with_module(path: Option<String>) -> (c: Self)
        ensures
            c.module_name() == opt_string_view(path),
    {
        Compiler { chunk: Chunk::new(), module: path }
    }

    /// Compiles a whole program; the script ends with an implicit `return 0`.
    pub fn compile(self, stmts: Vec<Stmt>) -> (r: Result<Chunk, LiabError>)
        ensures
            r is Ok,
            chunk_view(r->Ok_0) == program_chunk(stmts_view(stmts@), self.module_name()),
            chunk_well_formed(chunk_view(r->Ok_0)),
            ends_with_return(chunk_view(r->Ok_0)),
            returns_everywhere(chunk_view(r->Ok_0)),
    {
        proof { use_type_invariant(&self); }
        let Compiler { chunk, module } = self;
        let mut em = Emitter { chunk, locals: None, module };
        proof {
            assert(values_view(em.chunk.constants@) =~= Seq::<ValueView>::empty());
            assert(em.chunk.code@ =~= Seq::<Instruction>::empty());
            assert(em.gen() == Gen { code: Seq::empty(), consts: Seq::empty(), locals: None });
        }
        em.compile_block(&stmts);
        let c = em.finish();
        proof {
            lemma_chunk_fits(c);
            law_compiled_chunk_well_formed(stmts_view(stmts@), opt_string_view(module));
        }
        Ok(c)
    }
}

/// The instruction `Emitter::emit_with_constant` emits for `which`.
pub open spec fn operand_instruction(which: u8) -> spec_fn(usize) -> Instruction {
    if which == 0 { |i: usize| Instruction::Constant(i) }
    else if which == 1 { |i: usize| Instruction::GetGlobal(i) }
    else if which == 2 { |i: usize| Instruction::SetGlobal(i) }
    else if which == 3 { |i: usize| Instruction::DefineGlobal(i) }
    else if which == 4 { |i: usize| Instruction::GetProperty(i) }
    else if which == 5 { |i: usize| Instruction::Love(i) }
    else { |i: usize| Instruction::Export(i) }
}


// ---- well-formed bytecode ------------------------------------------------------

/// An instruction of a chunk with constants `consts` and `len` instructions
/// refers only to what exists: its constant is in the pool, a name operand is
/// a string constant, a jump target lies within the code (its end included).
pub open spec fn instr_ok(i: Instruction, consts: Seq<ValueView>, len: int) -> bool {
    match i {
        Instruction::Constant(k) => k < consts.len(),
        Instruction::DefineGlobal(k) | Instruction::GetGlobal(k) | Instruction::SetGlobal(k)
        | Instruction::GetProperty(k) | Instruction::Love(k) | Instruction::Export(k) =>
            k < consts.len() && consts[k as int] is String,
        Instruction::Jump(t) | Instruction::JumpIfFalse(t) => t <= len,
        _ => true,
    }
}

/// Every instruction of the chunk, and of each function in its constant
/// pool, is `instr_ok`.
pub open spec fn chunk_well_formed(c: ChunkView) -> bool
    decreases c,
{
    &&& forall|i: int| 0 <= i < c.code.len() ==> #[trigger] instr_ok(c.code[i], c.constants, c.code.len() as int)
    &&& forall|j: int| 0 <= j < c.constants.len() ==> match #[trigger] c.constants[j] {
        ValueView::CompiledFunction { chunk, .. } => chunk_well_formed(chunk),
        _ => true,
    }
}

/// The chunk ends with the implicit `return 0`.
pub open spec fn ends_with_return(c: ChunkView) -> bool {
    &&& c.code.len() >= 2
    &&& c.code.last() == Instruction::Return
    &&& c.code[c.code.len() - 2] matches Instruction::Constant(k)
        && k < c.constants.len() && c.constants[k as int] == ValueView::Number(0)
}

/// The chunk, and every function in its constant pool, recursively, ends
/// with the implicit `return 0`.
pub open spec fn returns_everywhere(c: ChunkView) -> bool
    decreases c,
{
    &&& ends_with_return(c)
    &&& forall|j: int| 0 <= j < c.constants.len() ==> match #[trigger] c.constants[j] {
        ValueView::CompiledFunction { chunk, .. } => returns_everywhere(chunk),
        _ => true,
    }
}

spec fn consts_ok(cs: Seq<ValueView>) -> bool {
    forall|j: int| 0 <= j < cs.len() ==> match #[trigger] cs[j] {
        ValueView::CompiledFunction { chunk, .. } => chunk_well_formed(chunk) && returns_everywhere(chunk),
        _ => true,
    }
}

/// Code generation state whose instructions are `instr_ok`, except those at
/// the indices in `ex` (jumps still to be patched).
spec fn ok_except(g: Gen, ex: Set<int>) -> bool {
    &&& consts_ok(g.consts)
    &&& forall|i: int| 0 <= i < g.code.len() && !ex.contains(i)
        ==> #[trigger] instr_ok(g.code[i], g.consts, g.code.len() as int)
}

/// `h` keeps what `g` emitted: code and constants only grow, and what was
/// there stays.
spec fn grows(g: Gen, h: Gen) -> bool {
    &&& g.code.len() <= h.code.len()
    &&& g.consts.len() <= h.consts.len()
    &&& forall|i: int| 0 <= i < g.code.len() ==> #[trigger] h.code[i] == g.code[i]
    &&& forall|j: int| 0 <= j < g.consts.len() ==> #[trigger] h.consts[j] == g.consts[j]
}

spec fn below(ex: Set<int>, n: int) -> bool {
    forall|k: int| ex.contains(k) ==> 0 <= k < n
}

proof fn lemma_instr_ok_mono(i: Instruction, cs: Seq<ValueView>, len: int, cs2: Seq<ValueView>, len2: int)
    requires
        instr_ok(i, cs, len),
        cs.len() <= cs2.len(),
        forall|j: int| 0 <= j < cs.len() ==> #[trigger] cs2[j] == cs[j],
        len <= len2,
    ensures
        instr_ok(i, cs2, len2),
{
    match i {
        Instruction::DefineGlobal(k) | Instruction::GetGlobal(k) | Instruction::SetGlobal(k)
        | Instruction::GetProperty(k) | Instruction::Love(k) | Instruction::Export(k) => {
            assert(cs2[k as int] == cs[k as int]);
        },
        _ => {},
    }
}

proof fn lemma_grows_trans(a: Gen, b: Gen, c: Gen)
    requires
        grows(a, b),
        grows(b, c),
    ensures
        grows(a, c),
{
    assert forall|i: int| 0 <= i < a.code.len() implies #[trigger] c.code[i] == a.code[i] by {
        assert(c.code[i] == b.code[i]);
    }
    assert forall|j: int| 0 <= j < a.consts.len() implies #[trigger] c.consts[j] == a.consts[j] by {
        assert(c.consts[j] == b.consts[j]);
    }
}

proof fn lemma_emit_ok(g: Gen, i: Instruction, ex: Set<int>)
    requires
        ok_except(g, ex),
        instr_ok(i, g.consts, (g.code.len() + 1) as int),
    ensures
        ok_except(emit(g, i), ex),
        grows(g, emit(g, i)),
{
    let h = emit(g, i);
    assert forall|k: int| 0 <= k < h.code.len() && !ex.contains(k) implies #[trigger] instr_ok(h.code[k], h.consts, h.code.len() as int) by {
        if k < g.code.len() {
            lemma_instr_ok_mono(g.code[k], g.consts, g.code.len() as int, h.consts, h.code.len() as int);
        }
    }
}

/// Emits an instruction that is exempt, such as a jump to be patched.
proof fn lemma_emit_pending(g: Gen, i: Instruction, ex: Set<int>)
    requires
        ok_except(g, ex),
    ensures
        ok_except(emit(g, i), ex.insert(g.code.len() as int)),
        grows(g, emit(g, i)),
{
    let h = emit(g, i);
    let ex2 = ex.insert(g.code.len() as int);
    assert forall|k: int| 0 <= k < h.code.len() && !ex2.contains(k) implies #[trigger] instr_ok(h.code[k], h.consts, h.code.len() as int) by {
        lemma_instr_ok_mono(g.code[k], g.consts, g.code.len() as int, h.consts, h.code.len() as int);
    }
}

proof fn lemma_const_ok(g: Gen, v: ValueView, ex: Set<int>)
    requires
        ok_except(g, ex),
        v matches ValueView::CompiledFunction { chunk, .. } ==> chunk_well_formed(chunk) && returns_everywhere(chunk),
    ensures
        ok_except(with_const(g, v), ex),
        grows(g, with_const(g, v)),
{
    let h = with_const(g, v);
    assert forall|j: int| 0 <= j < h.consts.len() implies match #[trigger] h.consts[j] {
        ValueView::CompiledFunction { chunk, .. } => chunk_well_formed(chunk) && returns_everywhere(chunk),
        _ => true,
    } by {
        if j < g.consts.len() {
            assert(h.consts[j] == g.consts[j]);
        }
    }
    assert forall|k: int| 0 <= k < h.code.len() && !ex.contains(k) implies #[trigger] instr_ok(h.code[k], h.consts, h.code.len() as int) by {
        lemma_instr_ok_mono(g.code[k], g.consts, g.code.len() as int, h.consts, h.code.len() as int);
    }
}

/// Adds a constant and emits the instruction that refers to it.
proof fn lemma_emit_const_ok(g: Gen, v: ValueView, mk: spec_fn(usize) -> Instruction, ex: Set<int>)
    requires
        ok_except(g, ex),
        v matches ValueView::CompiledFunction { chunk, .. } ==> chunk_well_formed(chunk) && returns_everywhere(chunk),
        g.consts.len() < usize::MAX,
        instr_ok(mk(g.consts.len() as usize), g.consts.push(v), (g.code.len() + 1) as int),
    ensures
        ok_except(emit_const(g, v, mk), ex),
        grows(g, emit_const(g, v, mk)),
{
    lemma_const_ok(g, v, ex);
    lemma_emit_ok(with_const(g, v), mk(g.consts.len() as usize), ex);
    lemma_grows_trans(g, with_const(g, v), emit_const(g, v, mk));
}

/// Patching the pending jump at `at` makes it `instr_ok`.
proof fn lemma_patch_ok(g: Gen, at: int, ex: Set<int>)
    requires
        ok_except(g, ex.insert(at)),
        0 <= at < g.code.len(),
        g.code[at] is Jump || g.code[at] is JumpIfFalse,
    ensures
        ok_except(patch(g, at), ex),
        forall|b: Gen| #![trigger grows(b, g)] grows(b, g) && b.code.len() <= at ==> grows(b, patch(g, at)),
        patch(g, at).code.len() == g.code.len(),
        patch(g, at).code[at] is Jump || patch(g, at).code[at] is JumpIfFalse,
{
    let h = patch(g, at);
    assert forall|k: int| 0 <= k < h.code.len() && !ex.contains(k) implies #[trigger] instr_ok(h.code[k], h.consts, h.code.len() as int) by {
        if k != at {
            assert(h.code[k] == g.code[k]);
        }
    }
    assert forall|b: Gen| #![trigger grows(b, g)] grows(b, g) && b.code.len() <= at implies grows(b, h) by {
        assert forall|i: int| 0 <= i < b.code.len() implies #[trigger] h.code[i] == b.code[i] by {
            assert(h.code[i] == g.code[i]);
        }
    }
}

/// The chunk's code and constant pool, and those of the functions in it,
/// have lengths that fit in `usize`.
pub open spec fn fits(c: ChunkView) -> bool
    decreases c,
{
    &&& c.code.len() <= usize::MAX
    &&& c.constants.len() <= usize::MAX
    &&& forall|j: int| 0 <= j < c.constants.len() ==> match #[trigger] c.constants[j] {
        ValueView::CompiledFunction { chunk, .. } => fits(chunk),
        _ => true,
    }
}

spec fn bounded(g: Gen) -> bool {
    &&& g.code.len() <= usize::MAX
    &&& g.consts.len() <= usize::MAX
    &&& forall|j: int| 0 <= j < g.consts.len() ==> match #[trigger] g.consts[j] {
        ValueView::CompiledFunction { chunk, .. } => fits(chunk),
        _ => true,
    }
}

proof fn lemma_bounded_prefix(g: Gen, h: Gen)
    requires
        grows(g, h),
        bounded(h),
    ensures
        bounded(g),
{
    assert forall|j: int| 0 <= j < g.consts.len() implies match #[trigger] g.consts[j] {
        ValueView::CompiledFunction { chunk, .. } => fits(chunk),
        _ => true,
    } by {
        assert(h.consts[j] == g.consts[j]);
    }
}

proof fn lemma_emit_grows(g: Gen, i: Instruction)
    ensures
        grows(g, emit(g, i)),
{
}

proof fn lemma_emit_const_grows(g: Gen, v: ValueView, mk: spec_fn(usize) -> Instruction)
    ensures
        grows(g, emit_const(g, v, mk)),
{
    lemma_grows_trans(g, with_const(g, v), emit_const(g, v, mk));
}

proof fn lemma_patch_grows(b: Gen, g: Gen, at: int)
    requires
        grows(b, g),
        b.code.len() <= at < g.code.len(),
    ensures
        grows(b, patch(g, at)),
{
    let h = patch(g, at);
    assert forall|i: int| 0 <= i < b.code.len() implies #[trigger] h.code[i] == b.code[i] by {
        assert(h.code[i] == g.code[i]);
    }
}

proof fn lemma_bind_grows(g: Gen, name: Seq<char>)
    ensures
        grows(g, bind_name(g, name)),
{
    if g.locals is None {
        lemma_emit_const_grows(g, ValueView::String(name), |i: usize| Instruction::DefineGlobal(i));
    }
}

proof fn lemma_gen_expr_grows(e: ExprView, g: Gen)
    ensures
        grows(g, gen_expr(e, g)),
        gen_expr(e, g).locals == g.locals,
    decreases e,
{
    match e {
        ExprView::Number(n) => lemma_emit_const_grows(g, ValueView::Number(n), |i: usize| Instruction::Constant(i)),
        ExprView::Boolean(b) => lemma_emit_const_grows(g, ValueView::Boolean(b), |i: usize| Instruction::Constant(i)),
        ExprView::String(s) => lemma_emit_const_grows(g, ValueView::String(s), |i: usize| Instruction::Constant(i)),
        ExprView::Identifier(name) => match local_slot(g.locals, name) {
            Some(slot) => {},
            None => lemma_emit_const_grows(g, ValueView::String(name), |i: usize| Instruction::GetGlobal(i)),
        },
        ExprView::Member { object, property } => {
            let g1 = gen_expr(*object, g);
            lemma_gen_expr_grows(*object, g);
            lemma_emit_const_grows(g1, ValueView::String(property), |i: usize| Instruction::GetProperty(i));
            lemma_grows_trans(g, g1, gen_expr(e, g));
        },
        ExprView::Index { object, index } => {
            let g1 = gen_expr(*object, g);
            let g2 = gen_expr(*index, g1);
            lemma_gen_expr_grows(*object, g);
            lemma_gen_expr_grows(*index, g1);
            lemma_grows_trans(g, g1, g2);
            lemma_grows_trans(g, g2, gen_expr(e, g));
        },
        ExprView::BinaryOp { left, op, right } => {
            let g1 = gen_expr(*left, g);
            let g2 = gen_expr(*right, g1);
            lemma_gen_expr_grows(*left, g);
            lemma_gen_expr_grows(*right, g1);
            lemma_grows_trans(g, g1, g2);
            lemma_grows_trans(g, g2, gen_expr(e, g));
        },
        ExprView::FunctionCall { callee, args } => {
            let g1 = gen_expr(*callee, g);
            lemma_gen_expr_grows(*callee, g);
            lemma_gen_args_grows(args, g1);
            let g2 = gen_args(args, g1);
            lemma_grows_trans(g, g1, g2);
            lemma_grows_trans(g, g2, gen_expr(e, g));
        },
    }
}

proof fn lemma_gen_args_grows(args: Seq<ExprView>, g: Gen)
    ensures
        grows(g, gen_args(args, g)),
        gen_args(args, g).locals == g.locals,
    decreases args,
{
    if args.len() > 0 {
        let g1 = gen_args(args.drop_last(), g);
        lemma_gen_args_grows(args.drop_last(), g);
        lemma_gen_expr_grows(args.last(), g1);
        lemma_grows_trans(g, g1, gen_args(args, g));
    }
}

proof fn lemma_gen_stmt_grows(s: StmtView, g: Gen, module: Option<Seq<char>>)
    ensures
        grows(g, gen_stmt(s, g, module)),
    decreases s,
{
    match s {
        StmtView::Let { name, value } => {
            let g1 = gen_expr(value, g);
            lemma_gen_expr_grows(value, g);
            lemma_bind_grows(g1, name);
            lemma_grows_trans(g, g1, gen_stmt(s, g, module));
        },
        StmtView::Assignment { name, value } => {
            let g1 = gen_expr(value, g);
            lemma_gen_expr_grows(value, g);
            match local_slot(g1.locals, name) {
                Some(slot) => {},
                None => lemma_emit_const_grows(g1, ValueView::String(name), |i: usize| Instruction::SetGlobal(i)),
            }
            lemma_grows_trans(g, g1, gen_stmt(s, g, module));
        },
        StmtView::Print(e) => {
            lemma_gen_expr_grows(e, g);
            lemma_grows_trans(g, gen_expr(e, g), gen_stmt(s, g, module));
        },
        StmtView::Expression(e) => {
            lemma_gen_expr_grows(e, g);
            lemma_grows_trans(g, gen_expr(e, g), gen_stmt(s, g, module));
        },
        StmtView::Return(e) => {
            lemma_gen_expr_grows(e, g);
            lemma_grows_trans(g, gen_expr(e, g), gen_stmt(s, g, module));
        },
        StmtView::FunctionDef { name, params, body } => {
            let fg = finish(gen_stmts(body, Gen { code: Seq::empty(), consts: Seq::empty(), locals: Some(params) }, module));
            let f = ValueView::CompiledFunction {
                name,
                arity: params.len() as usize,
                chunk: ChunkView { code: fg.code, constants: fg.consts },
                module,
            };
            let g1 = emit_const(g, f, |i: usize| Instruction::Constant(i));
            lemma_emit_const_grows(g, f, |i: usize| Instruction::Constant(i));
            lemma_bind_grows(g1, name);
            lemma_grows_trans(g, g1, gen_stmt(s, g, module));
        },
        StmtView::If { condition, then_body, else_body } => {
            let g1 = gen_expr(condition, g);
            let j = g1.code.len() as int;
            let e1 = emit(g1, Instruction::JumpIfFalse(placeholder()));
            let g2 = gen_stmts(then_body, e1, module);
            lemma_gen_expr_grows(condition, g);
            lemma_grows_trans(g, g1, e1);
            lemma_gen_stmts_grows(then_body, e1, module);
            lemma_grows_trans(g, e1, g2);
            match else_body {
                Some(eb) => {
                    let k = g2.code.len() as int;
                    let e2 = emit(g2, Instruction::Jump(placeholder()));
                    lemma_grows_trans(g, g2, e2);
                    let p1 = patch(e2, j);
                    lemma_patch_grows(g, e2, j);
                    let g3 = gen_stmts(eb, p1, module);
                    lemma_gen_stmts_grows(eb, p1, module);
                    lemma_grows_trans(g, p1, g3);
                    lemma_patch_grows(g, g3, k);
                },
                None => {
                    lemma_patch_grows(g, g2, j);
                },
            }
        },
        StmtView::While { condition, body } => {
            let g1 = gen_expr(condition, g);
            let j = g1.code.len() as int;
            let e1 = emit(g1, Instruction::JumpIfFalse(placeholder()));
            let g2 = gen_stmts(body, e1, module);
            let e2 = emit(g2, Instruction::Jump(g.code.len() as usize));
            lemma_gen_expr_grows(condition, g);
            lemma_grows_trans(g, g1, e1);
            lemma_gen_stmts_grows(body, e1, module);
            lemma_grows_trans(g, e1, g2);
            lemma_grows_trans(g, g2, e2);
            lemma_patch_grows(g, e2, j);
        },
        StmtView::Block(ss) => lemma_gen_stmts_grows(ss, g, module),
        StmtView::Love(path) => lemma_emit_const_grows(g, ValueView::String(path), |i: usize| Instruction::Love(i)),
        StmtView::Export(name) => lemma_emit_const_grows(g, ValueView::String(name), |i: usize| Instruction::Export(i)),
    }
}

proof fn lemma_gen_stmts_grows(ss: Seq<StmtView>, g: Gen, module: Option<Seq<char>>)
    ensures
        grows(g, gen_stmts(ss, g, module)),
    decreases ss,
{
    if ss.len() > 0 {
        let g1 = gen_stmts(ss.drop_last(), g, module);
        lemma_gen_stmts_grows(ss.drop_last(), g, module);
        lemma_gen_stmt_grows(ss.last(), g1, module);
        lemma_grows_trans(g, g1, gen_stmts(ss, g, module));
    }
}

proof fn lemma_gen_expr_ok(e: ExprView, g: Gen, ex: Set<int>)
    requires
        ok_except(g, ex),
        bounded(gen_expr(e, g)),
    ensures
        ok_except(gen_expr(e, g), ex),
    decreases e,
{
    let r = gen_expr(e, g);
    match e {
        ExprView::Number(n) => lemma_emit_const_ok(g, ValueView::Number(n), |i: usize| Instruction::Constant(i), ex),
        ExprView::Boolean(b) => lemma_emit_const_ok(g, ValueView::Boolean(b), |i: usize| Instruction::Constant(i), ex),
        ExprView::String(s) => lemma_emit_const_ok(g, ValueView::String(s), |i: usize| Instruction::Constant(i), ex),
        ExprView::Identifier(name) => match local_slot(g.locals, name) {
            Some(slot) => lemma_emit_ok(g, Instruction::GetLocal(slot as usize), ex),
            None => lemma_emit_const_ok(g, ValueView::String(name), |i: usize| Instruction::GetGlobal(i), ex),
        },
        ExprView::Member { object, property } => {
            let g1 = gen_expr(*object, g);
            lemma_emit_const_grows(g1, ValueView::String(property), |i: usize| Instruction::GetProperty(i));
            lemma_bounded_prefix(g1, r);
            lemma_gen_expr_ok(*object, g, ex);
            lemma_emit_const_ok(g1, ValueView::String(property), |i: usize| Instruction::GetProperty(i), ex);
        },
        ExprView::Index { object, index } => {
            let g1 = gen_expr(*object, g);
            let g2 = gen_expr(*index, g1);
            lemma_gen_expr_grows(*index, g1);
            lemma_emit_grows(g2, Instruction::GetIndex);
            lemma_grows_trans(g1, g2, r);
            lemma_bounded_prefix(g1, r);
            lemma_bounded_prefix(g2, r);
            lemma_gen_expr_ok(*object, g, ex);
            lemma_gen_expr_ok(*index, g1, ex);
            lemma_emit_ok(g2, Instruction::GetIndex, ex);
        },
        ExprView::BinaryOp { left, op, right } => {
            let g1 = gen_expr(*left, g);
            let g2 = gen_expr(*right, g1);
            lemma_gen_expr_grows(*right, g1);
            lemma_emit_grows(g2, op_instruction(op));
            lemma_grows_trans(g1, g2, r);
            lemma_bounded_prefix(g1, r);
            lemma_bounded_prefix(g2, r);
            lemma_gen_expr_ok(*left, g, ex);
            lemma_gen_expr_ok(*right, g1, ex);
            lemma_emit_ok(g2, op_instruction(op), ex);
        },
        ExprView::FunctionCall { callee, args } => {
            let g1 = gen_expr(*callee, g);
            let g2 = gen_args(args, g1);
            lemma_gen_args_grows(args, g1);
            lemma_emit_grows(g2, Instruction::Call(args.len() as usize));
            lemma_grows_trans(g1, g2, r);
            lemma_bounded_prefix(g1, r);
            lemma_bounded_prefix(g2, r);
            lemma_gen_expr_ok(*callee, g, ex);
            lemma_gen_args_ok(args, g1, ex);
            lemma_emit_ok(g2, Instruction::Call(args.len() as usize), ex);
        },
    }
}

proof fn lemma_gen_args_ok(args: Seq<ExprView>, g: Gen, ex: Set<int>)
    requires
        ok_except(g, ex),
        bounded(gen_args(args, g)),
    ensures
        ok_except(gen_args(args, g), ex),
    decreases args,
{
    if args.len() > 0 {
        let g1 = gen_args(args.drop_last(), g);
        lemma_gen_expr_grows(args.last(), g1);
        lemma_bounded_prefix(g1, gen_args(args, g));
        lemma_gen_args_ok(args.drop_last(), g, ex);
        lemma_gen_expr_ok(args.last(), g1, ex);
    }
}

proof fn lemma_bind_ok(g: Gen, name: Seq<char>, ex: Set<int>)
    requires
        ok_except(g, ex),
        bounded(bind_name(g, name)),
    ensures
        ok_except(bind_name(g, name), ex),
{
    if g.locals is None {
        lemma_emit_const_ok(g, ValueView::String(name), |i: usize| Instruction::DefineGlobal(i), ex);
    }
}

/// The chunk of a generation state with nothing pending is well-formed.
proof fn lemma_chunk_of_ok(g: Gen)
    requires
        ok_except(g, Set::empty()),
    ensures
        chunk_well_formed(ChunkView { code: g.code, constants: g.consts }),
{
    let c = ChunkView { code: g.code, constants: g.consts };
    assert forall|i: int| 0 <= i < c.code.len() implies #[trigger] instr_ok(c.code[i], c.constants, c.code.len() as int) by {
        assert(!Set::<int>::empty().contains(i));
    }
}

proof fn lemma_function_chunk_ok(params: Seq<Seq<char>>, body: Seq<StmtView>, module: Option<Seq<char>>)
    requires
        fits(function_chunk(params, body, module)),
    ensures
        chunk_well_formed(function_chunk(params, body, module)),
        returns_everywhere(function_chunk(params, body, module)),
    decreases body, 2nat,
{
    let g0 = Gen { code: Seq::empty(), consts: Seq::empty(), locals: Some(params) };
    let gb = gen_stmts(body, g0, module);
    let fg = finish(gb);
    let g1 = emit_const(gb, ValueView::Number(0), |i: usize| Instruction::Constant(i));
    assert(bounded(fg));
    lemma_emit_const_grows(gb, ValueView::Number(0), |i: usize| Instruction::Constant(i));
    lemma_emit_grows(g1, Instruction::Return);
    lemma_grows_trans(gb, g1, fg);
    lemma_bounded_prefix(gb, fg);
    assert(ok_except(g0, Set::empty()));
    lemma_gen_stmts_ok(body, g0, module, Set::empty());
    lemma_emit_const_ok(gb, ValueView::Number(0), |i: usize| Instruction::Constant(i), Set::empty());
    lemma_emit_ok(g1, Instruction::Return, Set::empty());
    lemma_chunk_of_ok(fg);
}

proof fn lemma_gen_stmt_ok(s: StmtView, g: Gen, module: Option<Seq<char>>, ex: Set<int>)
    requires
        ok_except(g, ex),
        below(ex, g.code.len() as int),
        bounded(gen_stmt(s, g, module)),
    ensures
        ok_except(gen_stmt(s, g, module), ex),
    decreases s, 1nat,
{
    let r = gen_stmt(s, g, module);
    match s {
        StmtView::Let { name, value } => {
            let g1 = gen_expr(value, g);
            lemma_bind_grows(g1, name);
            lemma_bounded_prefix(g1, r);
            lemma_gen_expr_ok(value, g, ex);
            lemma_bind_ok(g1, name, ex);
        },
        StmtView::Assignment { name, value } => {
            let g1 = gen_expr(value, g);
            match local_slot(g1.locals, name) {
                Some(slot) => {
                    lemma_emit_grows(g1, Instruction::SetLocal(slot as usize));
                    lemma_bounded_prefix(g1, r);
                    lemma_gen_expr_ok(value, g, ex);
                    lemma_emit_ok(g1, Instruction::SetLocal(slot as usize), ex);
                },
                None => {
                    lemma_emit_const_grows(g1, ValueView::String(name), |i: usize| Instruction::SetGlobal(i));
                    lemma_bounded_prefix(g1, r);
                    lemma_gen_expr_ok(value, g, ex);
                    lemma_emit_const_ok(g1, ValueView::String(name), |i: usize| Instruction::SetGlobal(i), ex);
                },
            }
        },
        StmtView::Print(e) => {
            lemma_emit_grows(gen_expr(e, g), Instruction::Print);
            lemma_bounded_prefix(gen_expr(e, g), r);
            lemma_gen_expr_ok(e, g, ex);
            lemma_emit_ok(gen_expr(e, g), Instruction::Print, ex);
        },
        StmtView::Expression(e) => {
            lemma_emit_grows(gen_expr(e, g), Instruction::Pop);
            lemma_bounded_prefix(gen_expr(e, g), r);
            lemma_gen_expr_ok(e, g, ex);
            lemma_emit_ok(gen_expr(e, g), Instruction::Pop, ex);
        },
        StmtView::Return(e) => {
            lemma_emit_grows(gen_expr(e, g), Instruction::Return);
            lemma_bounded_prefix(gen_expr(e, g), r);
            lemma_gen_expr_ok(e, g, ex);
            lemma_emit_ok(gen_expr(e, g), Instruction::Return, ex);
        },
        StmtView::FunctionDef { name, params, body } => {
            let fc = function_chunk(params, body, module);
            let f = ValueView::CompiledFunction { name, arity: params.len() as usize, chunk: fc, module };
            let g1 = emit_const(g, f, |i: usize| Instruction::Constant(i));
            lemma_bind_grows(g1, name);
            assert(r.consts[g.consts.len() as int] == f);
            assert(fits(fc));
            lemma_function_chunk_ok(params, body, module);
            lemma_bounded_prefix(g1, r);
            lemma_emit_const_ok(g, f, |i: usize| Instruction::Constant(i), ex);
            lemma_bind_ok(g1, name, ex);
        },
        StmtView::If { condition, then_body, else_body } => {
            let g1 = gen_expr(condition, g);
            let j = g1.code.len() as int;
            let e1 = emit(g1, Instruction::JumpIfFalse(placeholder()));
            let g2 = gen_stmts(then_body, e1, module);
            lemma_gen_expr_grows(condition, g);
            lemma_gen_stmts_grows(then_body, e1, module);
            lemma_grows_trans(g1, e1, g2);
            match else_body {
                Some(eb) => {
                    let k = g2.code.len() as int;
                    let e2 = emit(g2, Instruction::Jump(placeholder()));
                    let p1 = patch(e2, j);
                    let g3 = gen_stmts(eb, p1, module);
                    lemma_gen_stmts_grows(eb, p1, module);
                    assert(r == patch(g3, k));
                    assert(bounded(g3)) by {
                        assert(g3.consts == r.consts);
                        assert(g3.code.len() == r.code.len());
                    }
                    lemma_bounded_prefix(p1, g3);
                    assert(bounded(e2)) by {
                        assert(e2.consts == p1.consts);
                        assert(e2.code.len() == p1.code.len());
                    }
                    lemma_emit_grows(g2, Instruction::Jump(placeholder()));
                    lemma_bounded_prefix(g2, e2);
                    lemma_bounded_prefix(g1, g2);
                    // well-formedness
                    lemma_gen_expr_ok(condition, g, ex);
                    lemma_emit_pending(g1, Instruction::JumpIfFalse(placeholder()), ex);
                    lemma_gen_stmts_ok(then_body, e1, module, ex.insert(j));
                    assert(g2.code[j] == e1.code[j]);
                    lemma_emit_pending(g2, Instruction::Jump(placeholder()), ex.insert(j));
                    assert(ex.insert(j).insert(k) =~= ex.insert(k).insert(j));
                    lemma_patch_ok(e2, j, ex.insert(k));
                    lemma_gen_stmts_ok(eb, p1, module, ex.insert(k));
                    assert(g3.code[k] == p1.code[k]);
                    lemma_patch_ok(g3, k, ex);
                },
                None => {
                    assert(r == patch(g2, j));
                    assert(bounded(g2)) by {
                        assert(g2.consts == r.consts);
                        assert(g2.code.len() == r.code.len());
                    }
                    lemma_bounded_prefix(g1, g2);
                    lemma_gen_expr_ok(condition, g, ex);
                    lemma_emit_pending(g1, Instruction::JumpIfFalse(placeholder()), ex);
                    lemma_gen_stmts_ok(then_body, e1, module, ex.insert(j));
                    assert(g2.code[j] == e1.code[j]);
                    lemma_patch_ok(g2, j, ex);
                },
            }
        },
        StmtView::While { condition, body } => {
            let g1 = gen_expr(condition, g);
            let j = g1.code.len() as int;
            let e1 = emit(g1, Instruction::JumpIfFalse(placeholder()));
            let g2 = gen_stmts(body, e1, module);
            let e2 = emit(g2, Instruction::Jump(g.code.len() as usize));
            lemma_gen_expr_grows(condition, g);
            lemma_gen_stmts_grows(body, e1, module);
            lemma_grows_trans(g1, e1, g2);
            assert(r == patch(e2, j));
            assert(bounded(e2)) by {
                assert(e2.consts == r.consts);
                assert(e2.code.len() == r.code.len());
            }
            lemma_emit_grows(g2, Instruction::Jump(g.code.len() as usize));
            lemma_bounded_prefix(g2, e2);
            lemma_bounded_prefix(g1, g2);
            lemma_gen_expr_ok(condition, g, ex);
            lemma_emit_pending(g1, Instruction::JumpIfFalse(placeholder()), ex);
            lemma_gen_stmts_ok(body, e1, module, ex.insert(j));
            assert(g2.code[j] == e1.code[j]);
            lemma_emit_ok(g2, Instruction::Jump(g.code.len() as usize), ex.insert(j));
            lemma_patch_ok(e2, j, ex);
        },
        StmtView::Block(ss) => lemma_gen_stmts_ok(ss, g, module, ex),
        StmtView::Love(path) => lemma_emit_const_ok(g, ValueView::String(path), |i: usize| Instruction::Love(i), ex),
        StmtView::Export(name) => lemma_emit_const_ok(g, ValueView::String(name), |i: usize| Instruction::Export(i), ex),
    }
}

proof fn lemma_gen_stmts_ok(ss: Seq<StmtView>, g: Gen, module: Option<Seq<char>>, ex: Set<int>)
    requires
        ok_except(g, ex),
        below(ex, g.code.len() as int),
        bounded(gen_stmts(ss, g, module)),
    ensures
        ok_except(gen_stmts(ss, g, module), ex),
    decreases ss, 0nat,
{
    if ss.len() > 0 {
        let g1 = gen_stmts(ss.drop_last(), g, module);
        lemma_gen_stmts_grows(ss.drop_last(), g, module);
        lemma_gen_stmt_grows(ss.last(), g1, module);
        lemma_bounded_prefix(g1, gen_stmts(ss, g, module));
        lemma_gen_stmts_ok(ss.drop_last(), g, module, ex);
        lemma_gen_stmt_ok(ss.last(), g1, module, ex);
    }
}

/// Compiled bytecode refers only to what exists: every constant operand is
/// in the pool, every name operand is a string constant, every jump lands
/// within the code, and the chunk ends with the implicit `return 0`; the
/// same holds of every compiled function in its pool, at every depth. (The sizes must fit in `usize`,
/// as they do for every chunk in memory.)
pub proof fn law_compiled_chunk_well_formed(ss: Seq<StmtView>, module: Option<Seq<char>>)
    requires
        fits(program_chunk(ss, module)),
    ensures
        chunk_well_formed(program_chunk(ss, module)),
        ends_with_return(program_chunk(ss, module)),
        returns_everywhere(program_chunk(ss, module)),
{
    let g0 = Gen { code: Seq::empty(), consts: Seq::empty(), locals: None };
    let gb = gen_stmts(ss, g0, module);
    let fg = finish(gb);
    let g1 = emit_const(gb, ValueView::Number(0), |i: usize| Instruction::Constant(i));
    assert(bounded(fg));
    lemma_emit_const_grows(gb, ValueView::Number(0), |i: usize| Instruction::Constant(i));
    lemma_emit_grows(g1, Instruction::Return);
    lemma_grows_trans(gb, g1, fg);
    lemma_bounded_prefix(gb, fg);
    assert(ok_except(g0, Set::empty()));
    lemma_gen_stmts_ok(ss, g0, module, Set::empty());
    lemma_emit_const_ok(gb, ValueView::Number(0), |i: usize| Instruction::Constant(i), Set::empty());
    lemma_emit_ok(g1, Instruction::Return, Set::empty());
    lemma_chunk_of_ok(fg);
}


/// The lengths of a chunk in memory fit in `usize`, and so do those of the
/// functions in its pool.
pub proof fn lemma_chunk_fits(c: Chunk)
    ensures
        fits(chunk_view(c)),
    decreases c,
{
    assert(c.code@.len() == c.code.len());
    assert(c.constants@.len() == c.constants.len());
    let cv = chunk_view(c);
    assert forall|j: int| 0 <= j < cv.constants.len() implies match #[trigger] cv.constants[j] {
        ValueView::CompiledFunction { chunk, .. } => fits(chunk),
        _ => true,
    } by {
        let v = c.constants@[j];
        crate::value::lemma_compiled_value(v);
        if let Value::CompiledFunction { chunk, .. } = v {
            assert(decreases_to!(c => c.constants@[j]));
            lemma_chunk_fits(*chunk);
        }
    }
}

/// Each operator compiles to its own instruction: the code of `left op right`
/// is the code of `left`, then that of `right`, then exactly one instruction,
/// the one named after `op` (`<=` to `Lte`, `+` to `Add`, and so on); no
/// constant is added for the operator.
pub proof fn law_operator_instruction(left: ExprView, op: BinOp, right: ExprView, g: Gen)
    ensures
        ({
            let operands = gen_expr(right, gen_expr(left, g));
            let r = gen_expr(ExprView::BinaryOp { left: Box::new(left), op, right: Box::new(right) }, g);
            &&& r.code == operands.code.push(match op {
                BinOp::Add => Instruction::Add,
                BinOp::Sub => Instruction::Sub,
                BinOp::Mul => Instruction::Mul,
                BinOp::Div => Instruction::Div,
                BinOp::Eq => Instruction::Eq,
                BinOp::Neq => Instruction::Neq,
                BinOp::Gt => Instruction::Gt,
                BinOp::Lt => Instruction::Lt,
                BinOp::Gte => Instruction::Gte,
                BinOp::Lte => Instruction::Lte,
            })
            &&& r.consts == operands.consts
        }),
{
}

/// Jumps go where the control flow says. For `if c { t }` the code is that
/// of `c`, then `JumpIfFalse` to the end of the statement's code, then `t`.
/// With `else { e }`, the `JumpIfFalse` goes to the first instruction of
/// `e`, and `t` ends with a `Jump` to the end. For `while c { b }` the code
/// is that of `c`, then `JumpIfFalse` to the end, then `b`, then a `Jump`
/// back to the first instruction of `c`.
pub proof fn law_control_flow_jumps(
    c: ExprView,
    t: Seq<StmtView>,
    e: Seq<StmtView>,
    g: Gen,
    module: Option<Seq<char>>,
)
    ensures
        ({
            let g1 = gen_expr(c, g);
            let j = g1.code.len() as int;
            let r = gen_stmt(StmtView::If { condition: c, then_body: t, else_body: None }, g, module);
            &&& r.code.subrange(0, j) == g1.code
            &&& r.code[j] == Instruction::JumpIfFalse(r.code.len() as usize)
        }),
        ({
            let g1 = gen_expr(c, g);
            let j = g1.code.len() as int;
            let k = gen_stmts(t, emit(g1, Instruction::JumpIfFalse(placeholder())), module).code.len() as int;
            let r = gen_stmt(StmtView::If { condition: c, then_body: t, else_body: Some(e) }, g, module);
            &&& r.code.subrange(0, j) == g1.code
            &&& j < k < r.code.len()
            &&& r.code[j] == Instruction::JumpIfFalse((k + 1) as usize)
            &&& r.code[k] == Instruction::Jump(r.code.len() as usize)
        }),
        ({
            let g1 = gen_expr(c, g);
            let j = g1.code.len() as int;
            let r = gen_stmt(StmtView::While { condition: c, body: t }, g, module);
            &&& r.code.subrange(0, j) == g1.code
            &&& r.code[j] == Instruction::JumpIfFalse(r.code.len() as usize)
            &&& r.code.last() == Instruction::Jump(g.code.len() as usize)
            &&& j < r.code.len() - 1
        }),
{
    let g1 = gen_expr(c, g);
    let j = g1.code.len() as int;
    let e1 = emit(g1, Instruction::JumpIfFalse(placeholder()));
    let g2 = gen_stmts(t, e1, module);
    lemma_gen_stmts_grows(t, e1, module);
    assert(g2.code[j] == e1.code[j]);
    // if without else
    let r1 = patch(g2, j);
    assert(r1.code.subrange(0, j) =~= g1.code) by {
        assert forall|i: int| 0 <= i < j implies r1.code[i] == g1.code[i] by {
            assert(g2.code[i] == e1.code[i]);
        }
    }
    // if with else
    let k = g2.code.len() as int;
    let e2 = emit(g2, Instruction::Jump(placeholder()));
    let p1 = patch(e2, j);
    let g3 = gen_stmts(e, p1, module);
    lemma_gen_stmts_grows(e, p1, module);
    let r2 = patch(g3, k);
    assert(g3.code[j] == p1.code[j]);
    assert(g3.code[k] == p1.code[k]);
    assert(r2.code.subrange(0, j) =~= g1.code) by {
        assert forall|i: int| 0 <= i < j implies r2.code[i] == g1.code[i] by {
            assert(g3.code[i] == p1.code[i]);
            assert(g2.code[i] == e1.code[i]);
        }
    }
    // while
    let e3 = emit(g2, Instruction::Jump(g.code.len() as usize));
    let r3 = patch(e3, j);
    assert(r3.code.subrange(0, j) =~= g1.code) by {
        assert forall|i: int| 0 <= i < j implies r3.code[i] == g1.code[i] by {
            assert(g2.code[i] == e1.code[i]);
        }
    }
}

/// Names: at the top level a name is a global, read with `GetGlobal`, set
/// with `SetGlobal` and defined by `let` with `DefineGlobal`, each naming a
/// new string constant that holds the name. In a function a name that is a
/// local (a parameter or an earlier `let`) is its slot, the position where it
/// first occurs among the locals: read with `GetLocal`, set with `SetLocal`,
/// and `let` takes the next slot without emitting anything.
pub proof fn law_names(name: Seq<char>, value: ExprView, g: Gen, ls: Seq<Seq<char>>, i: int, module: Option<Seq<char>>)
    ensures
        g.locals is None ==> ({
            let k = g.consts.len() as usize;
            let rv = gen_expr(value, g);
            let kv = rv.consts.len() as usize;
            &&& gen_expr(ExprView::Identifier(name), g).code == g.code.push(Instruction::GetGlobal(k))
            &&& gen_expr(ExprView::Identifier(name), g).consts == g.consts.push(ValueView::String(name))
            &&& gen_stmt(StmtView::Let { name, value }, g, module).code == rv.code.push(Instruction::DefineGlobal(kv))
            &&& gen_stmt(StmtView::Let { name, value }, g, module).consts == rv.consts.push(ValueView::String(name))
            &&& gen_stmt(StmtView::Assignment { name, value }, g, module).code == rv.code.push(Instruction::SetGlobal(kv))
            &&& gen_stmt(StmtView::Assignment { name, value }, g, module).consts == rv.consts.push(ValueView::String(name))
        }),
        g.locals == Some(ls) && 0 <= i < ls.len() && ls[i] == name && (forall|j: int| 0 <= j < i ==> ls[j] != name)
            ==> ({
            let rv = gen_expr(value, g);
            &&& gen_expr(ExprView::Identifier(name), g).code == g.code.push(Instruction::GetLocal(i as usize))
            &&& gen_stmt(StmtView::Assignment { name, value }, g, module).code == rv.code.push(Instruction::SetLocal(i as usize))
        }),
        g.locals == Some(ls) ==> ({
            let rv = gen_expr(value, g);
            &&& gen_stmt(StmtView::Let { name, value }, g, module).code == rv.code
            &&& gen_stmt(StmtView::Let { name, value }, g, module).locals == Some(ls.push(name))
        }),
{
    lemma_gen_expr_grows(value, g);
    if g.locals == Some(ls) && 0 <= i < ls.len() && ls[i] == name && (forall|j: int| 0 <= j < i ==> ls[j] != name) {
        lemma_first_slot(ls, name, i);
    }
}

/// In a compiled function the parameters are the first local slots, in
/// order: a function whose body returns its `i`-th parameter (the first
/// parameter of that name) compiles to `GetLocal(i)`, `Return`, then the
/// implicit `return 0`.
pub proof fn law_parameters_are_slots(params: Seq<Seq<char>>, i: int, module: Option<Seq<char>>)
    requires
        0 <= i < params.len(),
        forall|j: int| 0 <= j < i ==> params[j] != params[i],
    ensures
        function_chunk(params, seq![StmtView::Return(ExprView::Identifier(params[i]))], module).code
            == seq![Instruction::GetLocal(i as usize), Instruction::Return, Instruction::Constant(0), Instruction::Return],
{
    let g0 = Gen { code: Seq::empty(), consts: Seq::empty(), locals: Some(params) };
    let body = seq![StmtView::Return(ExprView::Identifier(params[i]))];
    lemma_first_slot(params, params[i], i);
    assert(body.drop_last() =~= Seq::<StmtView>::empty());
    assert(gen_stmts(body.drop_last(), g0, module) == g0);
    assert(body.last() == StmtView::Return(ExprView::Identifier(params[i])));
    assert(local_slot(g0.locals, params[i]) == Some(i as nat));
    let g1 = gen_expr(ExprView::Identifier(params[i]), g0);
    assert(g1 == emit(g0, Instruction::GetLocal(i as usize)));
    assert(gen_stmt(body.last(), g0, module) == emit(g1, Instruction::Return));
    let gb = gen_stmts(body, g0, module);
    assert(gb == gen_stmt(body.last(), gen_stmts(body.drop_last(), g0, module), module));
    assert(gb == emit(g1, Instruction::Return));
    assert(gb.code =~= seq![Instruction::GetLocal(i as usize), Instruction::Return]);
    assert(gb.consts.len() == 0);
    assert(finish(gb).code =~= seq![Instruction::GetLocal(i as usize), Instruction::Return, Instruction::Constant(0), Instruction::Return]);
}

} // verus!
