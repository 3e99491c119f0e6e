use vstd::prelude::*;
use std::rc::Rc;
use crate::compiler::{Chunk, Instruction, Compiler, program_chunk};
use crate::lexer::{lex, spec_lex, is_number_decoder};
use crate::parser::{parse, spec_parse};
use crate::value::{
    Value, ValueView, ChunkView, Bindings, value_view, values_view, chunk_view, opt_string_view, deep,
    display_view, debug_view, is_renderer, renderer_of, lemma_namespace_view, lemma_namespace_value, lemma_compiled_value,
};
use crate::error::LiabError;
use crate::disassembler::{disassemble_instruction, instruction_line, operand_ok, spaces, push_spaces};
use crate::text::{decimal, append_decimal, str_eq};

verus! {

// ---- the state machine, as mathematics ---------------------------------------

/// The view of an active call.
pub struct FrameView {
    pub name: Seq<char>,
    pub chunk: ChunkView,
    pub ip: usize,
    pub base: usize,
    pub module: Option<Seq<char>>,
}

/// The view of a module's loading state.
pub enum ModuleStateView {
    Loading,
    Loaded(ValueView),
}

/// The view of a machine.
pub struct VMView {
    pub stack: Seq<ValueView>,
    pub frames: Seq<FrameView>,
    pub globals: Map<Seq<char>, ValueView>,
    pub environments: Map<Seq<char>, Map<Seq<char>, ValueView>>,
    pub exports: Map<Seq<char>, Map<Seq<char>, ValueView>>,
    pub modules: Map<Seq<char>, ModuleStateView>,
    pub trace: bool,
}

/// Floating-point arithmetic that the host performs.
#[derive(Debug, Clone, Copy, PartialEq, Eq, Structural)]
pub enum ArithOp {
    Add,
    Sub,
    Mul,
    Div,
}

/// Floating-point comparisons that the host performs.
#[derive(Debug, Clone, Copy, PartialEq, Eq, Structural)]
pub enum CompareOp {
    Eq,
    Neq,
    Gt,
    Lt,
    Gte,
    Lte,
}

/// The view of what a step asks of the host, or the error it ends with.
pub enum StepView {
    Continue,
    Done,
    Arith { op: ArithOp, a: u64, b: u64 },
    Compare { op: CompareOp, a: u64, b: u64 },
    Print(ValueView),
    LoadModule(Seq<char>),
    CallNative { id: usize, args: Seq<ValueView>, base: usize },
    Fault { message: Seq<char>, ip: usize, frame_name: Seq<char> },
}

/// The stem of a module path's file name (`Path::file_stem`), if it has one.
pub uninterp spec fn file_stem_of(path: Seq<char>) -> Option<Seq<char>>;

/// A bare file name: not empty, with no extension and no separator or
/// drive mark (`/`, `\\`, `:`).
pub open spec fn plain_name(path: Seq<char>) -> bool {
    &&& path.len() > 0
    &&& forall|i: int| 0 <= i < path.len() ==>
        #[trigger] path[i] != '.' && path[i] != '/' && path[i] != '\\' && path[i] != ':'
}

/// Calls `std::path::Path::file_stem` on `path` and converts the stem with
/// `OsStr::to_str`. Claimed: the result depends on the text of `path` alone,
/// and the stem of a bare file name is that name; what the stem is in
/// general (the file name without its last extension) is not restated.
#[verifier::external_body]
fn file_stem(path: &String) -> (r: Option<String>)
    ensures
        opt_string_view(r) == file_stem_of(path@),
        plain_name(path@) ==> opt_string_view(r) == Some(path@),
{
    match std::path::Path::new(path.as_str()).file_stem() {
        Some(stem) => match stem.to_str() {
            Some(text) => Some(text.to_string()),
            None => None,
        },
        None => None,
    }
}

/// `true` for the bits of `+0.0` and `-0.0`, the numbers equal to zero.
pub open spec fn is_zero_bits(n: u64) -> bool {
    n == 0 || n == 0x8000_0000_0000_0000
}

/// Whether a condition counts as true: `false` and zero are false, every
/// other value is true.
pub open spec fn truthy(v: ValueView) -> bool {
    match v {
        ValueView::Boolean(b) => b,
        ValueView::Number(n) => !is_zero_bits(n),
        _ => true,
    }
}

pub open spec fn top(s: VMView) -> FrameView {
    s.frames.last()
}

/// The instruction index a runtime error reports: the one just executed.
pub open spec fn fault_ip(s: VMView) -> usize {
    if s.frames.len() > 0 && top(s).ip > 0 { (top(s).ip - 1) as usize } else { 0 }
}

/// The frame name a runtime error reports.
pub open spec fn fault_frame(s: VMView) -> Seq<char> {
    if s.frames.len() > 0 { top(s).name } else { "<missing_frame>"@ }
}

/// The step ends with a runtime error; the state is kept as it is.
pub open spec fn fault(s: VMView, msg: Seq<char>) -> (VMView, StepView) {
    (s, StepView::Fault { message: msg, ip: fault_ip(s), frame_name: fault_frame(s) })
}

pub open spec fn cont(s: VMView) -> (VMView, StepView) {
    (s, StepView::Continue)
}

pub open spec fn with_stack(s: VMView, st: Seq<ValueView>) -> VMView {
    VMView { stack: st, ..s }
}

pub open spec fn push(s: VMView, v: ValueView) -> VMView {
    with_stack(s, s.stack.push(v))
}

pub open spec fn popped(s: VMView) -> VMView {
    with_stack(s, s.stack.drop_last())
}

pub open spec fn with_globals(s: VMView, g: Map<Seq<char>, ValueView>) -> VMView {
    VMView { globals: g, ..s }
}

pub open spec fn with_environments(s: VMView, e: Map<Seq<char>, Map<Seq<char>, ValueView>>) -> VMView {
    VMView { environments: e, ..s }
}

/// The running frame continues at `target`.
pub open spec fn jump(s: VMView, target: usize) -> VMView {
    VMView { frames: s.frames.update(s.frames.len() - 1, FrameView { ip: target, ..top(s) }), ..s }
}

/// The string constant `idx` of the running chunk.
pub open spec fn name_operand(s: VMView, idx: usize) -> Option<Seq<char>> {
    let cs = top(s).chunk.constants;
    if idx < cs.len() {
        match cs[idx as int] {
            ValueView::String(n) => Some(n),
            _ => None,
        }
    } else {
        None
    }
}

/// The message of an operand that is not a string constant.
pub open spec fn operand_msg(op: Seq<char>) -> Seq<char> {
    op + " arg must be a string"@
}

pub open spec fn quoted(x: Seq<char>) -> Seq<char> {
    "'"@ + x + "'"@
}

/// Pops a number: the state after the pop and the number, or the fault.
pub open spec fn pop_number(s: VMView, dbg: spec_fn(u64) -> Seq<char>) -> Result<(VMView, u64), (VMView, StepView)> {
    if s.stack.len() == 0 {
        Err(fault(s, "Stack underflow"@))
    } else {
        match s.stack.last() {
            ValueView::Number(n) => Ok((popped(s), n)),
            other => Err(fault(popped(s), "Operand must be a number, got "@ + debug_view(other, dbg))),
        }
    }
}

/// Pops two numbers `b` then `a` and hands `a op b` to the host.
pub open spec fn arith(s: VMView, op: ArithOp, dbg: spec_fn(u64) -> Seq<char>) -> (VMView, StepView) {
    match pop_number(s, dbg) {
        Err(f) => f,
        Ok((s1, b)) => match pop_number(s1, dbg) {
            Err(f) => f,
            Ok((s2, a)) => if op == ArithOp::Div && is_zero_bits(b) {
                fault(s2, "Runtime error: division by zero"@)
            } else {
                (s2, StepView::Arith { op, a, b })
            },
        },
    }
}

/// Pops two numbers `b` then `a` and hands the comparison `a op b` to the host.
pub open spec fn compare(s: VMView, op: CompareOp, dbg: spec_fn(u64) -> Seq<char>) -> (VMView, StepView) {
    match pop_number(s, dbg) {
        Err(f) => f,
        Ok((s1, b)) => match pop_number(s1, dbg) {
            Err(f) => f,
            Ok((s2, a)) => (s2, StepView::Compare { op, a, b }),
        },
    }
}

/// The message when a module's environment is missing.
pub open spec fn missing_environment(p: Seq<char>) -> Seq<char> {
    "Missing environment of module "@ + quoted(p)
}

/// Binds `name` to `v` where the running frame defines names: its module's
/// environment, or the globals.
pub open spec fn bind(s: VMView, name: Seq<char>, v: ValueView) -> (VMView, StepView) {
    match top(s).module {
        Some(p) => if s.environments.contains_key(p) {
            cont(with_environments(s, s.environments.insert(p, s.environments[p].insert(name, v))))
        } else {
            fault(s, missing_environment(p))
        },
        None => cont(with_globals(s, s.globals.insert(name, v))),
    }
}

/// The value `name` has for the running frame.
pub open spec fn lookup(s: VMView, name: Seq<char>) -> Option<ValueView> {
    match top(s).module {
        Some(p) => if s.environments.contains_key(p) && s.environments[p].contains_key(name) {
            Some(s.environments[p][name])
        } else {
            None
        },
        None => if s.globals.contains_key(name) { Some(s.globals[name]) } else { None },
    }
}

pub open spec fn define_global(s: VMView, idx: usize) -> (VMView, StepView) {
    match name_operand(s, idx) {
        None => fault(s, operand_msg("DefineGlobal"@)),
        Some(name) => if s.stack.len() == 0 {
            fault(s, "Stack underflow on DefineGlobal"@)
        } else {
            bind(popped(s), name, s.stack.last())
        },
    }
}

pub open spec fn get_global(s: VMView, idx: usize) -> (VMView, StepView) {
    match name_operand(s, idx) {
        None => fault(s, operand_msg("GetGlobal"@)),
        Some(name) => match lookup(s, name) {
            Some(v) => cont(push(s, v)),
            None => fault(s, "Undefined variable: "@ + quoted(name)),
        },
    }
}

pub open spec fn set_global(s: VMView, idx: usize) -> (VMView, StepView) {
    match name_operand(s, idx) {
        None => fault(s, operand_msg("SetGlobal"@)),
        Some(name) => if s.stack.len() == 0 {
            fault(s, "Stack underflow on SetGlobal"@)
        } else {
            let s1 = popped(s);
            let v = s.stack.last();
            match top(s1).module {
                Some(p) => if !s1.environments.contains_key(p) {
                    fault(s1, missing_environment(p))
                } else if !s1.environments[p].contains_key(name) {
                    fault(s1, "Undefined variable in module: "@ + quoted(name))
                } else {
                    cont(with_environments(s1, s1.environments.insert(p, s1.environments[p].insert(name, v))))
                },
                None => if !s1.globals.contains_key(name) {
                    fault(s1, "Undefined variable: "@ + quoted(name))
                } else {
                    cont(with_globals(s1, s1.globals.insert(name, v)))
                },
            }
        },
    }
}

pub open spec fn not_found(key: Seq<char>) -> Seq<char> {
    "Property "@ + quoted(key) + " not found in namespace"@
}

pub open spec fn get_property(s: VMView, idx: usize, dbg: spec_fn(u64) -> Seq<char>) -> (VMView, StepView) {
    match name_operand(s, idx) {
        None => fault(s, operand_msg("GetProperty"@)),
        Some(p) => if s.stack.len() == 0 {
            fault(s, "Stack underflow on GetProperty"@)
        } else {
            let s1 = popped(s);
            match s.stack.last() {
                ValueView::Namespace(m) => if m.contains_key(p) {
                    cont(push(s1, m[p]))
                } else {
                    fault(s1, not_found(p))
                },
                other => fault(s1, "Cannot access property "@ + quoted(p) + " on "@ + debug_view(other, dbg)),
            }
        },
    }
}

pub open spec fn get_index(s: VMView, show: spec_fn(u64) -> Seq<char>) -> (VMView, StepView) {
    if s.stack.len() == 0 {
        fault(s, "Stack underflow on GetIndex"@)
    } else {
        let s1 = popped(s);
        let index = s.stack.last();
        if s1.stack.len() == 0 {
            fault(s1, "Stack underflow on GetIndex"@)
        } else {
            let s2 = popped(s1);
            match s1.stack.last() {
                ValueView::Namespace(m) => match index {
                    ValueView::String(k) => if m.contains_key(k) {
                        cont(push(s2, m[k]))
                    } else {
                        fault(s2, not_found(k))
                    },
                    _ => fault(s2, "Namespace index must be a string"@),
                },
                other => fault(s2, "Cannot index into "@ + quoted(display_view(other, show))),
            }
        }
    }
}

pub open spec fn get_local(s: VMView, slot: usize) -> (VMView, StepView) {
    let at = top(s).base + slot;
    if at < s.stack.len() {
        cont(push(s, s.stack[at]))
    } else {
        fault(s, "Stack underflow on GetLocal"@)
    }
}

pub open spec fn set_local(s: VMView, slot: usize) -> (VMView, StepView) {
    if s.stack.len() == 0 {
        fault(s, "Stack underflow on SetLocal"@)
    } else {
        let s1 = popped(s);
        let at = top(s1).base + slot;
        if at < s1.stack.len() {
            cont(with_stack(s1, s1.stack.update(at, s.stack.last())))
        } else {
            fault(s1, "Stack underflow on SetLocal"@)
        }
    }
}

pub open spec fn jump_if_false(s: VMView, target: usize) -> (VMView, StepView) {
    if s.stack.len() == 0 {
        fault(s, "Stack underflow on JumpIfFalse"@)
    } else if !truthy(s.stack.last()) {
        cont(jump(popped(s), target))
    } else {
        cont(popped(s))
    }
}

pub open spec fn arity_msg(kind: Seq<char>, name: Seq<char>, arity: usize, got: usize) -> Seq<char> {
    kind + quoted(name) + " expects "@ + decimal(arity as nat) + " arguments, got "@ + decimal(got as nat)
}

/// Calls the function below the `n` arguments on top of the stack.
pub open spec fn call(s: VMView, n: usize, show: spec_fn(u64) -> Seq<char>) -> (VMView, StepView) {
    if s.stack.len() < n + 1 {
        fault(s, "Stack underflow on Call"@)
    } else {
        let pos = s.stack.len() - n - 1;
        match s.stack[pos] {
            ValueView::CompiledFunction { name, arity, chunk, module } => if n != arity {
                fault(s, arity_msg("Function "@, name, arity, n))
            } else {
                cont(VMView {
                    stack: s.stack.remove(pos),
                    frames: s.frames.push(FrameView { name, chunk, ip: 0, base: pos as usize, module }),
                    ..s
                })
            },
            ValueView::NativeFunction { name, arity, id } => if n != arity {
                fault(s, arity_msg("Native function "@, name, arity, n))
            } else {
                (s, StepView::CallNative { id, args: s.stack.subrange(pos + 1, s.stack.len() as int), base: pos as usize })
            },
            other => fault(s, "Cannot call "@ + quoted(display_view(other, show)) + " — it is not a function"@),
        }
    }
}

/// The name a module is bound under: the stem of its path's file name
/// (a bare file name is its own stem).
pub open spec fn module_name(path: Seq<char>) -> Option<Seq<char>> {
    if plain_name(path) { Some(path) } else { file_stem_of(path) }
}

/// Binds a loaded module's namespace under the stem of its path.
pub open spec fn bind_module(s: VMView, path: Seq<char>, ns: ValueView) -> (VMView, StepView) {
    match module_name(path) {
        None => fault(s, "Module path has no file name: "@ + quoted(path)),
        Some(name) => bind(s, name, ns),
    }
}

/// Truncation of a stack to `len` values (no change when it is shorter).
pub open spec fn truncated(st: Seq<ValueView>, len: int) -> Seq<ValueView> {
    if len <= st.len() { st.subrange(0, len) } else { st }
}

/// Returns from the running frame: a module script that finishes makes its
/// exports a namespace, caches it and binds it in the importing frame.
pub open spec fn ret(s: VMView) -> (VMView, StepView) {
    if s.stack.len() == 0 {
        fault(s, "Stack underflow on Return"@)
    } else {
        let rv = s.stack.last();
        let f = top(s);
        let s1 = VMView { stack: s.stack.drop_last(), frames: s.frames.drop_last(), ..s };
        if s1.frames.len() == 0 {
            (s1, StepView::Done)
        } else {
            let s2 = with_stack(s1, truncated(s1.stack, f.base as int));
            match f.module {
                Some(path) if f.name == "<script>"@ => {
                    let ex = if s2.exports.contains_key(path) { s2.exports[path] } else { Map::empty() };
                    let ns = ValueView::Namespace(ex);
                    let s3 = VMView {
                        exports: s2.exports.remove(path),
                        modules: s2.modules.insert(path, ModuleStateView::Loaded(ns)),
                        ..s2
                    };
                    match bind_module(s3, path, ns) {
                        (s4, StepView::Continue) => cont(push(s4, rv)),
                        other => other,
                    }
                },
                _ => cont(push(s2, rv)),
            }
        }
    }
}

/// `love "path";`: binds a loaded module again, refuses a cycle, or starts a
/// load that the host completes.
pub open spec fn love(s: VMView, idx: usize) -> (VMView, StepView) {
    match name_operand(s, idx) {
        None => fault(s, operand_msg("Love"@)),
        Some(path) => if s.modules.contains_key(path) {
            match s.modules[path] {
                ModuleStateView::Loading => fault(s, "Cyclic dependency detected: "@ + quoted(path)),
                ModuleStateView::Loaded(ns) => bind_module(s, path, ns),
            }
        } else {
            (VMView {
                modules: s.modules.insert(path, ModuleStateView::Loading),
                environments: s.environments.insert(path, Map::empty()),
                exports: s.exports.insert(path, Map::empty()),
                ..s
            }, StepView::LoadModule(path))
        },
    }
}

pub open spec fn export(s: VMView, idx: usize) -> (VMView, StepView) {
    match name_operand(s, idx) {
        None => fault(s, operand_msg("Export"@)),
        Some(name) => match top(s).module {
            None => fault(s, "Cannot export from top-level script, only modules"@),
            Some(p) => if !(s.environments.contains_key(p) && s.environments[p].contains_key(name)) {
                fault(s, "Undefined variable to export: "@ + quoted(name))
            } else if !s.exports.contains_key(p) {
                fault(s, "Missing exports of module "@ + quoted(p))
            } else {
                cont(VMView { exports: s.exports.insert(p, s.exports[p].insert(name, s.environments[p][name])), ..s })
            },
        },
    }
}

/// Pushes constant `idx` of the running chunk.
pub open spec fn push_constant(s: VMView, idx: usize) -> (VMView, StepView) {
    if idx < top(s).chunk.constants.len() {
        cont(push(s, top(s).chunk.constants[idx as int]))
    } else {
        fault(s, "Constant index out of range"@)
    }
}

/// The effect of one instruction, the running frame already past it.
pub open spec fn execute(
    s: VMView,
    i: Instruction,
    show: spec_fn(u64) -> Seq<char>,
    dbg: spec_fn(u64) -> Seq<char>,
) -> (VMView, StepView) {
    match i {
        Instruction::Constant(idx) => push_constant(s, idx),
        Instruction::Add => arith(s, ArithOp::Add, dbg),
        Instruction::Sub => arith(s, ArithOp::Sub, dbg),
        Instruction::Mul => arith(s, ArithOp::Mul, dbg),
        Instruction::Div => arith(s, ArithOp::Div, dbg),
        Instruction::Eq => compare(s, CompareOp::Eq, dbg),
        Instruction::Neq => compare(s, CompareOp::Neq, dbg),
        Instruction::Gt => compare(s, CompareOp::Gt, dbg),
        Instruction::Lt => compare(s, CompareOp::Lt, dbg),
        Instruction::Gte => compare(s, CompareOp::Gte, dbg),
        Instruction::Lte => compare(s, CompareOp::Lte, dbg),
        Instruction::Pop => if s.stack.len() == 0 { fault(s, "Stack underflow on Pop"@) } else { cont(popped(s)) },
        Instruction::Print => if s.stack.len() == 0 {
            fault(s, "Stack underflow on Print"@)
        } else {
            (popped(s), StepView::Print(s.stack.last()))
        },
        Instruction::DefineGlobal(idx) => define_global(s, idx),
        Instruction::GetGlobal(idx) => get_global(s, idx),
        Instruction::SetGlobal(idx) => set_global(s, idx),
        Instruction::GetProperty(idx) => get_property(s, idx, dbg),
        Instruction::GetIndex => get_index(s, show),
        Instruction::GetLocal(slot) => get_local(s, slot),
        Instruction::SetLocal(slot) => set_local(s, slot),
        Instruction::Jump(target) => cont(jump(s, target)),
        Instruction::JumpIfFalse(target) => jump_if_false(s, target),
        Instruction::Call(n) => call(s, n, show),
        Instruction::Return => ret(s),
        Instruction::Love(idx) => love(s, idx),
        Instruction::Export(idx) => export(s, idx),
    }
}

/// One step of the machine: fetch the running frame's next instruction,
/// move past it and execute it. A frame that has run off its code ends the run.
pub open spec fn step_spec(
    s: VMView,
    show: spec_fn(u64) -> Seq<char>,
    dbg: spec_fn(u64) -> Seq<char>,
) -> (VMView, StepView) {
    if s.frames.len() == 0 {
        fault(s, "No active call frame"@)
    } else if top(s).ip >= top(s).chunk.code.len() {
        (s, StepView::Done)
    } else {
        execute(jump(s, (top(s).ip + 1) as usize), top(s).chunk.code[top(s).ip as int], show, dbg)
    }
}


// ---- the machine ------------------------------------------------------------

/// An active function call.
#[derive(Debug)]
struct CallFrame {
    /// The function's name, or `"<script>"`.
    name: String,
    chunk: Rc<Chunk>,
    /// The index of the next instruction.
    ip: usize,
    /// Where the frame's locals begin on the value stack.
    stack_base: usize,
    /// The module the code belongs to.
    module: Option<String>,
}

/// A module's loading state.
#[derive(Debug)]
pub enum ModuleState {
    Loading,
    Loaded(Value),
}

/// What one step asks the host to do before the next step.
#[derive(Debug)]
pub enum Step {
    /// Nothing: step again.
    Continue,
    /// The program has finished.
    Done,
    /// Compute `a op b` on the numbers with bits `a` and `b` and push the
    /// result with `push_value`.
    Arith { op: ArithOp, a: u64, b: u64 },
    /// Compare `a op b` and push the boolean with `push_value`.
    Compare { op: CompareOp, a: u64, b: u64 },
    /// Print the value.
    Print(Value),
    /// Read the source of module `path` and pass it to `enter_module`.
    LoadModule(String),
    /// Call native function `id` with `args`, then pass its result to
    /// `complete_native` with `base`.
    CallNative { id: usize, args: Vec<Value>, base: usize },
}

/// A stack-based virtual machine for compiled chunks. It runs step by step;
/// the host performs the work a step hands out (number arithmetic, printing,
/// reading modules, native calls).
#[derive(Debug)]
pub struct VM {
    stack: Vec<Value>,
    frames: Vec<CallFrame>,
    /// Global variables of the top-level script.
    pub globals: Bindings<Value>,
    /// The variables of each module.
    pub environments: Bindings<Bindings<Value>>,
    /// The exports of each module being loaded.
    pub module_exports: Bindings<Bindings<Value>>,
    /// The loading state of each module.
    pub modules: Bindings<ModuleState>,
    /// Whether the host traces execution.
    pub trace: bool,
}

spec fn frame_view(f: CallFrame) -> FrameView {
    FrameView { name: f.name@, chunk: chunk_view(*f.chunk), ip: f.ip, base: f.stack_base, module: opt_string_view(f.module) }
}

spec fn frames_view(fs: Seq<CallFrame>) -> Seq<FrameView> {
    fs.map_values(|f: CallFrame| frame_view(f))
}

pub open spec fn module_state_view(m: ModuleState) -> ModuleStateView {
    match m {
        ModuleState::Loading => ModuleStateView::Loading,
        ModuleState::Loaded(v) => ModuleStateView::Loaded(value_view(v)),
    }
}

/// The views of per-module bindings.
pub open spec fn scopes_view(m: Map<Seq<char>, Bindings<Value>>) -> Map<Seq<char>, Map<Seq<char>, ValueView>> {
    m.map_values(|b: Bindings<Value>| deep(b@))
}

pub open spec fn states_view(m: Map<Seq<char>, ModuleState>) -> Map<Seq<char>, ModuleStateView> {
    m.map_values(|st: ModuleState| module_state_view(st))
}

impl View for VM {
    type V = VMView;

    closed spec fn view(&self) -> VMView {
        VMView {
            stack: values_view(self.stack@),
            frames: frames_view(self.frames@),
            globals: deep(self.globals@),
            environments: scopes_view(self.environments@),
            exports: scopes_view(self.module_exports@),
            modules: states_view(self.modules@),
            trace: self.trace,
        }
    }
}

/// The view of a step's result.
pub open spec fn outcome(r: Result<Step, LiabError>) -> StepView {
    match r {
        Ok(Step::Continue) => StepView::Continue,
        Ok(Step::Done) => StepView::Done,
        Ok(Step::Arith { op, a, b }) => StepView::Arith { op, a, b },
        Ok(Step::Compare { op, a, b }) => StepView::Compare { op, a, b },
        Ok(Step::Print(v)) => StepView::Print(value_view(v)),
        Ok(Step::LoadModule(p)) => StepView::LoadModule(p@),
        Ok(Step::CallNative { id, args, base }) => StepView::CallNative { id, args: values_view(args@), base },
        Err(LiabError::RuntimeError { message, ip, frame_name }) =>
            StepView::Fault { message: message@, ip, frame_name: frame_name@ },
        Err(e) => StepView::Fault { message: e.text(), ip: 0, frame_name: Seq::empty() },
    }
}

proof fn lemma_vv_push(vs: Seq<Value>, v: Value)
    ensures
        values_view(vs.push(v)) == values_view(vs).push(value_view(v)),
{
    assert(values_view(vs.push(v)) =~= values_view(vs).push(value_view(v)));
}

proof fn lemma_vv_drop_last(vs: Seq<Value>)
    requires
        vs.len() > 0,
    ensures
        values_view(vs.drop_last()) == values_view(vs).drop_last(),
        values_view(vs).last() == value_view(vs.last()),
{
    assert(values_view(vs.drop_last()) =~= values_view(vs).drop_last());
}

proof fn lemma_vv_update(vs: Seq<Value>, i: int, v: Value)
    requires
        0 <= i < vs.len(),
    ensures
        values_view(vs.update(i, v)) == values_view(vs).update(i, value_view(v)),
{
    assert(values_view(vs.update(i, v)) =~= values_view(vs).update(i, value_view(v)));
}

proof fn lemma_vv_remove(vs: Seq<Value>, i: int)
    requires
        0 <= i < vs.len(),
    ensures
        values_view(vs.remove(i)) == values_view(vs).remove(i),
{
    assert(values_view(vs.remove(i)) =~= values_view(vs).remove(i));
}

proof fn lemma_vv_subrange(vs: Seq<Value>, a: int, b: int)
    requires
        0 <= a <= b <= vs.len(),
    ensures
        values_view(vs.subrange(a, b)) == values_view(vs).subrange(a, b),
{
    assert(values_view(vs.subrange(a, b)) =~= values_view(vs).subrange(a, b));
}

proof fn lemma_fv_push(fs: Seq<CallFrame>, f: CallFrame)
    ensures
        frames_view(fs.push(f)) == frames_view(fs).push(frame_view(f)),
{
    assert(frames_view(fs.push(f)) =~= frames_view(fs).push(frame_view(f)));
}

proof fn lemma_fv_drop_last(fs: Seq<CallFrame>)
    requires
        fs.len() > 0,
    ensures
        frames_view(fs.drop_last()) == frames_view(fs).drop_last(),
{
    assert(frames_view(fs.drop_last()) =~= frames_view(fs).drop_last());
}

proof fn lemma_deep_insert(m: Map<Seq<char>, Value>, k: Seq<char>, v: Value)
    ensures
        deep(m.insert(k, v)) == deep(m).insert(k, value_view(v)),
{
    assert(deep(m.insert(k, v)) =~= deep(m).insert(k, value_view(v)));
}

proof fn lemma_scopes_insert(m: Map<Seq<char>, Bindings<Value>>, k: Seq<char>, b: Bindings<Value>)
    ensures
        scopes_view(m.insert(k, b)) == scopes_view(m).insert(k, deep(b@)),
{
    assert(scopes_view(m.insert(k, b)) =~= scopes_view(m).insert(k, deep(b@)));
}

proof fn lemma_scopes_remove(m: Map<Seq<char>, Bindings<Value>>, k: Seq<char>)
    ensures
        scopes_view(m.remove(k)) == scopes_view(m).remove(k),
{
    assert(scopes_view(m.remove(k)) =~= scopes_view(m).remove(k));
}

proof fn lemma_states_insert(m: Map<Seq<char>, ModuleState>, k: Seq<char>, st: ModuleState)
    ensures
        states_view(m.insert(k, st)) == states_view(m).insert(k, module_state_view(st)),
{
    assert(states_view(m.insert(k, st)) =~= states_view(m).insert(k, module_state_view(st)));
}

/// `'x'`.
fn quote(x: &str) -> (r: String)
    ensures
        r@ == quoted(x@),
{
    let mut r = String::from_str("'");
    r.append(x);
    r.append("'");
    r
}

/// `a` followed by `b`.
fn join(a: &str, b: &str) -> (r: String)
    ensures
        r@ == a@ + b@,
{
    let mut r = String::from_str(a);
    r.append(b);
    r
}

impl VM {
    /// A machine with no frames and no variables.
    pub fn new() -> (vm: Self)
        ensures
            vm@.stack == Seq::<ValueView>::empty(),
            vm@.frames == Seq::<FrameView>::empty(),
            vm@.globals == Map::<Seq<char>, ValueView>::empty(),
            vm@.environments == Map::<Seq<char>, Map<Seq<char>, ValueView>>::empty(),
            vm@.exports == Map::<Seq<char>, Map<Seq<char>, ValueView>>::empty(),
            vm@.modules == Map::<Seq<char>, ModuleStateView>::empty(),
            !vm@.trace,
    {
        let vm = VM {
            stack: Vec::new(),
            frames: Vec::new(),
            globals: Bindings::new(),
            environments: Bindings::new(),
            module_exports: Bindings::new(),
            modules: Bindings::new(),
            trace: false,
        };
        proof {
            assert(values_view(vm.stack@) =~= Seq::<ValueView>::empty());
            assert(frames_view(vm.frames@) =~= Seq::<FrameView>::empty());
            assert(deep(vm.globals@) =~= Map::<Seq<char>, ValueView>::empty());
            assert(scopes_view(vm.environments@) =~= Map::<Seq<char>, Map<Seq<char>, ValueView>>::empty());
            assert(scopes_view(vm.module_exports@) =~= Map::<Seq<char>, Map<Seq<char>, ValueView>>::empty());
            assert(states_view(vm.modules@) =~= Map::<Seq<char>, ModuleStateView>::empty());
        }
        vm
    }

    /// Starts running `chunk` as the top-level script.
    pub fn start(&mut self, chunk: Chunk)
        ensures
            final(self)@ == (VMView {
                frames: old(self)@.frames.push(FrameView {
                    name: "<script>"@,
                    chunk: chunk_view(chunk),
                    ip: 0,
                    base: 0,
                    module: None,
                }),
                ..old(self)@
            }),
    {
        let f = CallFrame { name: String::from_str("<script>"), chunk: Rc::new(chunk), ip: 0, stack_base: 0, module: None };
        proof { lemma_fv_push(self.frames@, f); }
        self.frames.push(f);
    }

    /// The runtime error with `message`, located at the instruction the
    /// running frame has just executed.
    pub fn runtime_error(&self, message: String) -> (e: LiabError)
        ensures
            e matches LiabError::RuntimeError { message: m, ip, frame_name }
                && m@ == message@ && ip == fault_ip(self@) && frame_name@ == fault_frame(self@),
            outcome(Err(e)) == (StepView::Fault { message: message@, ip: fault_ip(self@), frame_name: fault_frame(self@) }),
    {
        let n = self.frames.len();
        if n > 0 {
            let f = &self.frames[n - 1];
            let ip = if f.ip > 0 { f.ip - 1 } else { 0 };
            LiabError::RuntimeError { message, ip, frame_name: f.name.clone() }
        } else {
            LiabError::RuntimeError { message, ip: 0, frame_name: String::from_str("<missing_frame>") }
        }
    }

    fn fail(&self, message: String) -> (r: Result<Step, LiabError>)
        ensures
            outcome(r) == fault(self@, message@).1,
    {
        Err(self.runtime_error(message))
    }

    /// Pushes a value, such as a result the host computed for a step.
    pub fn push_value(&mut self, v: Value)
        ensures
            final(self)@ == push(old(self)@, value_view(v)),
    {
        proof { lemma_vv_push(self.stack@, v); }
        self.stack.push(v);
    }

    fn pop_value(&mut self) -> (r: Option<Value>)
        ensures
            old(self)@.stack.len() == 0 ==> r is None && final(self)@ == old(self)@,
            old(self)@.stack.len() > 0 ==> (r matches Some(v) && value_view(v) == old(self)@.stack.last()
                && final(self)@ == popped(old(self)@)),
    {
        if self.stack.len() > 0 {
            proof { lemma_vv_drop_last(self.stack@); }
        }
        let r = self.stack.pop();
        proof {
            if old(self).stack@.len() == 0 {
                assert(self@ =~= old(self)@);
            } else {
                assert(self@ == popped(old(self)@));
            }
        }
        r
    }

    /// Moves the running frame to instruction `ip`.
    fn set_ip(&mut self, ip: usize)
        requires
            old(self)@.frames.len() > 0,
        ensures
            final(self)@ == jump(old(self)@, ip),
    {
        let mut f = self.frames.pop().unwrap();
        f.ip = ip;
        proof {
            lemma_fv_drop_last(old(self).frames@);
            lemma_fv_push(self.frames@, f);
        }
        self.frames.push(f);
        proof {
            assert(frames_view(self.frames@) =~= frames_view(old(self).frames@).update(
                old(self).frames@.len() - 1, FrameView { ip, ..top(old(self)@) }));
        }
    }

    /// The module of the running frame.
    fn current_module(&self) -> (r: Option<String>)
        requires
            self@.frames.len() > 0,
        ensures
            opt_string_view(r) == top(self@).module,
    {
        match &self.frames[self.frames.len() - 1].module {
            Some(p) => Some(p.clone()),
            None => None,
        }
    }

    /// The string constant `idx` of the running chunk.
    fn name_operand(&self, idx: usize) -> (r: Option<String>)
        requires
            self@.frames.len() > 0,
        ensures
            opt_string_view(r) == name_operand(self@, idx),
    {
        let f = &self.frames[self.frames.len() - 1];
        if idx < f.chunk.constants.len() {
            match &f.chunk.constants[idx] {
                Value::String(s) => Some(s.clone()),
                _ => None,
            }
        } else {
            None
        }
    }
}


impl VM {
    fn pop_number<G: Fn(u64) -> String>(&mut self, dbg: &G) -> (r: Result<u64, LiabError>)
        requires
            is_renderer(*dbg),
        ensures
            match pop_number(old(self)@, renderer_of(*dbg)) {
                Ok((s1, n)) => r == Ok::<u64, LiabError>(n) && final(self)@ == s1,
                Err((s1, f)) => r matches Err(e) && final(self)@ == s1 && outcome(Err(e)) == f,
            },
    {
        match self.pop_value() {
            None => Err(self.runtime_error(String::from_str("Stack underflow"))),
            Some(Value::Number(n)) => Ok(n),
            Some(other) => {
                let d = other.debug(dbg);
                let m = join("Operand must be a number, got ", d.as_str());
                Err(self.runtime_error(m))
            },
        }
    }

    fn arith<G: Fn(u64) -> String>(&mut self, op: ArithOp, dbg: &G) -> (r: Result<Step, LiabError>)
        requires
            is_renderer(*dbg),
        ensures
            (final(self)@, outcome(r)) == arith(old(self)@, op, renderer_of(*dbg)),
    {
        let b = match self.pop_number(dbg) {
            Ok(b) => b,
            Err(e) => return Err(e),
        };
        let a = match self.pop_number(dbg) {
            Ok(a) => a,
            Err(e) => return Err(e),
        };
        if op == ArithOp::Div && (b == 0 || b == 0x8000_0000_0000_0000) {
            return self.fail(String::from_str("Runtime error: division by zero"));
        }
        Ok(Step::Arith { op, a, b })
    }

    fn compare<G: Fn(u64) -> String>(&mut self, op: CompareOp, dbg: &G) -> (r: Result<Step, LiabError>)
        requires
            is_renderer(*dbg),
        ensures
            (final(self)@, outcome(r)) == compare(old(self)@, op, renderer_of(*dbg)),
    {
        let b = match self.pop_number(dbg) {
            Ok(b) => b,
            Err(e) => return Err(e),
        };
        let a = match self.pop_number(dbg) {
            Ok(a) => a,
            Err(e) => return Err(e),
        };
        Ok(Step::Compare { op, a, b })
    }

    /// Binds `name` where the running frame defines names.
    fn bind(&mut self, name: String, v: Value) -> (r: Result<Step, LiabError>)
        requires
            old(self)@.frames.len() > 0,
        ensures
            (final(self)@, outcome(r)) == bind(old(self)@, name@, value_view(v)),
    {
        match self.current_module() {
            Some(p) => {
                let ghost env0 = self.environments@;
                match self.environments.remove(p.as_str()) {
                    Some(mut env) => {
                        proof { lemma_deep_insert(env@, name@, v); }
                        env.insert(name, v);
                        self.environments.insert(p, env);
                        proof {
                            assert(self.environments@ =~= env0.insert(p@, env));
                            lemma_scopes_insert(env0, p@, env);
                        }
                        Ok(Step::Continue)
                    },
                    None => {
                        proof { assert(self.environments@ =~= env0); }
                        let q = quote(p.as_str());
                        self.fail(join("Missing environment of module ", q.as_str()))
                    },
                }
            },
            None => {
                proof { lemma_deep_insert(self.globals@, name@, v); }
                self.globals.insert(name, v);
                Ok(Step::Continue)
            },
        }
    }

    /// The value `name` has for the running frame.
    fn lookup(&self, name: &String) -> (r: Option<Value>)
        requires
            self@.frames.len() > 0,
        ensures
            match r {
                Some(v) => lookup(self@, name@) == Some(value_view(v)),
                None => lookup(self@, name@) is None,
            },
    {
        match self.current_module() {
            Some(p) => match self.environments.get(p.as_str()) {
                Some(env) => match env.get(name.as_str()) {
                    Some(v) => Some(v.copy()),
                    None => None,
                },
                None => None,
            },
            None => match self.globals.get(name.as_str()) {
                Some(v) => Some(v.copy()),
                None => None,
            },
        }
    }

    fn define_global(&mut self, idx: usize) -> (r: Result<Step, LiabError>)
        requires
            old(self)@.frames.len() > 0,
        ensures
            (final(self)@, outcome(r)) == define_global(old(self)@, idx),
    {
        let name = match self.name_operand(idx) {
            Some(n) => n,
            None => return self.fail(join("DefineGlobal", " arg must be a string")),
        };
        match self.pop_value() {
            None => self.fail(String::from_str("Stack underflow on DefineGlobal")),
            Some(v) => self.bind(name, v),
        }
    }

    fn get_global(&mut self, idx: usize) -> (r: Result<Step, LiabError>)
        requires
            old(self)@.frames.len() > 0,
        ensures
            (final(self)@, outcome(r)) == get_global(old(self)@, idx),
    {
        let name = match self.name_operand(idx) {
            Some(n) => n,
            None => return self.fail(join("GetGlobal", " arg must be a string")),
        };
        match self.lookup(&name) {
            Some(v) => {
                self.push_value(v);
                Ok(Step::Continue)
            },
            None => {
                let q = quote(name.as_str());
                self.fail(join("Undefined variable: ", q.as_str()))
            },
        }
    }

    fn set_global(&mut self, idx: usize) -> (r: Result<Step, LiabError>)
        requires
            old(self)@.frames.len() > 0,
        ensures
            (final(self)@, outcome(r)) == set_global(old(self)@, idx),
    {
        let name = match self.name_operand(idx) {
            Some(n) => n,
            None => return self.fail(join("SetGlobal", " arg must be a string")),
        };
        let v = match self.pop_value() {
            None => return self.fail(String::from_str("Stack underflow on SetGlobal")),
            Some(v) => v,
        };
        match self.current_module() {
            Some(p) => {
                let ghost env0 = self.environments@;
                match self.environments.remove(p.as_str()) {
                    None => {
                        proof { assert(self.environments@ =~= env0); }
                        let q = quote(p.as_str());
                        self.fail(join("Missing environment of module ", q.as_str()))
                    },
                    Some(mut env) => {
                        if !env.contains_key(name.as_str()) {
                            self.environments.insert(p, env);
                            proof { assert(self.environments@ =~= env0); }
                            let q = quote(name.as_str());
                            return self.fail(join("Undefined variable in module: ", q.as_str()));
                        }
                        proof { lemma_deep_insert(env@, name@, v); }
                        env.insert(name, v);
                        self.environments.insert(p, env);
                        proof {
                            assert(self.environments@ =~= env0.insert(p@, env));
                            lemma_scopes_insert(env0, p@, env);
                        }
                        Ok(Step::Continue)
                    },
                }
            },
            None => {
                if !self.globals.contains_key(name.as_str()) {
                    let q = quote(name.as_str());
                    return self.fail(join("Undefined variable: ", q.as_str()));
                }
                proof { lemma_deep_insert(self.globals@, name@, v); }
                self.globals.insert(name, v);
                Ok(Step::Continue)
            },
        }
    }
}


impl VM {
    fn get_property<G: Fn(u64) -> String>(&mut self, idx: usize, dbg: &G) -> (r: Result<Step, LiabError>)
        requires
            old(self)@.frames.len() > 0,
            is_renderer(*dbg),
        ensures
            (final(self)@, outcome(r)) == get_property(old(self)@, idx, renderer_of(*dbg)),
    {
        let p = match self.name_operand(idx) {
            Some(n) => n,
            None => return self.fail(join("GetProperty", " arg must be a string")),
        };
        let object = match self.pop_value() {
            None => return self.fail(String::from_str("Stack underflow on GetProperty")),
            Some(o) => o,
        };
        match &object {
            Value::Namespace(b) => {
                proof { lemma_namespace_value(object); }
                match b.get(p.as_str()) {
                    Some(v) => {
                        let v = v.copy();
                        self.push_value(v);
                        Ok(Step::Continue)
                    },
                    None => {
                        let q = quote(p.as_str());
                        self.fail(join(join("Property ", q.as_str()).as_str(), " not found in namespace"))
                    },
                }
            },
            _ => {
                let q = quote(p.as_str());
                let d = object.debug(dbg);
                let m = join(join(join("Cannot access property ", q.as_str()).as_str(), " on ").as_str(), d.as_str());
                self.fail(m)
            },
        }
    }

    fn get_index<F: Fn(u64) -> String>(&mut self, show: &F) -> (r: Result<Step, LiabError>)
        requires
            old(self)@.frames.len() > 0,
            is_renderer(*show),
        ensures
            (final(self)@, outcome(r)) == get_index(old(self)@, renderer_of(*show)),
    {
        let index = match self.pop_value() {
            None => return self.fail(String::from_str("Stack underflow on GetIndex")),
            Some(i) => i,
        };
        let object = match self.pop_value() {
            None => return self.fail(String::from_str("Stack underflow on GetIndex")),
            Some(o) => o,
        };
        match &object {
            Value::Namespace(b) => {
                proof { lemma_namespace_value(object); }
                match &index {
                    Value::String(k) => match b.get(k.as_str()) {
                        Some(v) => {
                            let v = v.copy();
                            self.push_value(v);
                            Ok(Step::Continue)
                        },
                        None => {
                            let q = quote(k.as_str());
                            self.fail(join(join("Property ", q.as_str()).as_str(), " not found in namespace"))
                        },
                    },
                    _ => self.fail(String::from_str("Namespace index must be a string")),
                }
            },
            _ => {
                let d = object.display(show);
                let q = quote(d.as_str());
                self.fail(join("Cannot index into ", q.as_str()))
            },
        }
    }

    fn get_local(&mut self, slot: usize) -> (r: Result<Step, LiabError>)
        requires
            old(self)@.frames.len() > 0,
        ensures
            (final(self)@, outcome(r)) == get_local(old(self)@, slot),
    {
        let base = self.frames[self.frames.len() - 1].stack_base;
        if slot < self.stack.len() && base < self.stack.len() - slot {
            let v = self.stack[base + slot].copy();
            self.push_value(v);
            Ok(Step::Continue)
        } else {
            self.fail(String::from_str("Stack underflow on GetLocal"))
        }
    }

    fn set_local(&mut self, slot: usize) -> (r: Result<Step, LiabError>)
        requires
            old(self)@.frames.len() > 0,
        ensures
            (final(self)@, outcome(r)) == set_local(old(self)@, slot),
    {
        let v = match self.pop_value() {
            None => return self.fail(String::from_str("Stack underflow on SetLocal")),
            Some(v) => v,
        };
        let base = self.frames[self.frames.len() - 1].stack_base;
        if slot < self.stack.len() && base < self.stack.len() - slot {
            proof { lemma_vv_update(self.stack@, base + slot, v); }
            self.stack.set(base + slot, v);
            Ok(Step::Continue)
        } else {
            self.fail(String::from_str("Stack underflow on SetLocal"))
        }
    }

    fn jump_if_false(&mut self, target: usize) -> (r: Result<Step, LiabError>)
        requires
            old(self)@.frames.len() > 0,
        ensures
            (final(self)@, outcome(r)) == jump_if_false(old(self)@, target),
    {
        let v = match self.pop_value() {
            None => return self.fail(String::from_str("Stack underflow on JumpIfFalse")),
            Some(v) => v,
        };
        let truthy = match &v {
            Value::Boolean(b) => *b,
            Value::Number(n) => !(*n == 0 || *n == 0x8000_0000_0000_0000),
            _ => true,
        };
        if !truthy {
            self.set_ip(target);
        }
        Ok(Step::Continue)
    }

    fn call<F: Fn(u64) -> String>(&mut self, n: usize, show: &F) -> (r: Result<Step, LiabError>)
        requires
            old(self)@.frames.len() > 0,
            is_renderer(*show),
        ensures
            (final(self)@, outcome(r)) == call(old(self)@, n, renderer_of(*show)),
    {
        if !(n < self.stack.len()) {
            return self.fail(String::from_str("Stack underflow on Call"));
        }
        let pos = self.stack.len() - n - 1;
        let ghost st = self.stack@;
        match &self.stack[pos] {
            Value::CompiledFunction { name, arity, .. } => {
                if n != *arity {
                    let m = join("Function ", quote(name.as_str()).as_str());
                    let mut m = join(m.as_str(), " expects ");
                    append_decimal(&mut m, *arity);
                    m.append(" arguments, got ");
                    append_decimal(&mut m, n);
                    return self.fail(m);
                }
            },
            Value::NativeFunction { name, arity, .. } => {
                if n != *arity {
                    let m = join("Native function ", quote(name.as_str()).as_str());
                    let mut m = join(m.as_str(), " expects ");
                    append_decimal(&mut m, *arity);
                    m.append(" arguments, got ");
                    append_decimal(&mut m, n);
                    return self.fail(m);
                }
            },
            other => {
                let d = other.display(show);
                let m = join(join("Cannot call ", quote(d.as_str()).as_str()).as_str(), " — it is not a function");
                return self.fail(m);
            },
        }
        proof { lemma_vv_remove(st, pos as int); lemma_compiled_value(st[pos as int]); }
        match self.stack.remove(pos) {
            Value::CompiledFunction { name, arity, chunk, module } => {
                let f = CallFrame { name, chunk, ip: 0, stack_base: pos, module };
                proof { lemma_fv_push(self.frames@, f); }
                self.frames.push(f);
                Ok(Step::Continue)
            },
            Value::NativeFunction { name, arity, id } => {
                let f = Value::NativeFunction { name, arity, id };
                self.stack.insert(pos, f);
                proof { assert(self.stack@ =~= st); }
                let mut args: Vec<Value> = Vec::new();
                let mut i = pos + 1;
                while i < self.stack.len()
                    invariant
                        pos + 1 <= i <= self.stack@.len(),
                        self.stack@ == st,
                        args@ == st.subrange(pos + 1, i as int),
                    decreases self.stack@.len() - i,
                {
                    args.push(self.stack[i].copy());
                    i = i + 1;
                    assert(args@ =~= st.subrange(pos + 1, i as int));
                }
                proof { lemma_vv_subrange(st, pos + 1, st.len() as int); }
                Ok(Step::CallNative { id, args, base: pos })
            },
            _ => {
                proof { assert(false); }
                Ok(Step::Continue)
            },
        }
    }
}


impl VM {
    fn constant(&mut self, idx: usize) -> (r: Result<Step, LiabError>)
        requires
            old(self)@.frames.len() > 0,
        ensures
            (final(self)@, outcome(r)) == push_constant(old(self)@, idx),
    {
        let f = &self.frames[self.frames.len() - 1];
        if idx < f.chunk.constants.len() {
            let v = f.chunk.constants[idx].copy();
            self.push_value(v);
            Ok(Step::Continue)
        } else {
            self.fail(String::from_str("Constant index out of range"))
        }
    }

    /// Binds a loaded module's namespace under the stem of its path.
    fn bind_module(&mut self, path: &String, ns: Value) -> (r: Result<Step, LiabError>)
        requires
            old(self)@.frames.len() > 0,
        ensures
            (final(self)@, outcome(r)) == bind_module(old(self)@, path@, value_view(ns)),
    {
        match file_stem(path) {
            None => {
                let q = quote(path.as_str());
                self.fail(join("Module path has no file name: ", q.as_str()))
            },
            Some(name) => self.bind(name, ns),
        }
    }

    fn ret(&mut self) -> (r: Result<Step, LiabError>)
        requires
            old(self)@.frames.len() > 0,
        ensures
            (final(self)@, outcome(r)) == ret(old(self)@),
    {
        let rv = match self.pop_value() {
            None => return self.fail(String::from_str("Stack underflow on Return")),
            Some(v) => v,
        };
        proof { lemma_fv_drop_last(self.frames@); }
        let f = self.frames.pop().unwrap();
        if self.frames.len() == 0 {
            return Ok(Step::Done);
        }
        let ghost st = self.stack@;
        self.stack.truncate(f.stack_base);
        proof {
            if f.stack_base <= st.len() {
                lemma_vv_subrange(st, 0, f.stack_base as int);
            }
        }
        let is_script = str_eq(&f.name, "<script>");
        match f.module {
            Some(path) if is_script => {
                let ghost ex0 = self.module_exports@;
                let exports = match self.module_exports.remove(path.as_str()) {
                    Some(e) => e,
                    None => {
                        let e = Bindings::new();
                        assert(deep(e@) =~= Map::<Seq<char>, ValueView>::empty());
                        e
                    },
                };
                proof {
                    lemma_scopes_remove(ex0, path@);
                    let s2 = with_stack(VMView { stack: old(self)@.stack.drop_last(), frames: old(self)@.frames.drop_last(), ..old(self)@ },
                        truncated(old(self)@.stack.drop_last(), f.stack_base as int));
                    assert(self@.stack == s2.stack);
                    assert(self@.frames == s2.frames);
                    assert(f.name@ == "<script>"@);
                    assert(frame_view(f) == top(old(self)@));
                    assert(deep(exports@) == (if s2.exports.contains_key(path@) { s2.exports[path@] } else { Map::empty() }));
                }
                let ns = Value::Namespace(Rc::new(exports));
                proof { lemma_namespace_view(exports); }
                let cached = ns.copy();
                proof { lemma_states_insert(self.modules@, path@, ModuleState::Loaded(cached)); }
                self.modules.insert(path.clone(), ModuleState::Loaded(cached));
                match self.bind_module(&path, ns) {
                    Ok(Step::Continue) => {
                        self.push_value(rv);
                        Ok(Step::Continue)
                    },
                    other => other,
                }
            },
            _ => {
                self.push_value(rv);
                Ok(Step::Continue)
            },
        }
    }

    fn love(&mut self, idx: usize) -> (r: Result<Step, LiabError>)
        requires
            old(self)@.frames.len() > 0,
        ensures
            (final(self)@, outcome(r)) == love(old(self)@, idx),
    {
        let path = match self.name_operand(idx) {
            Some(p) => p,
            None => return self.fail(join("Love", " arg must be a string")),
        };
        let loaded = match self.modules.get(path.as_str()) {
            Some(ModuleState::Loading) => {
                let q = quote(path.as_str());
                return self.fail(join("Cyclic dependency detected: ", q.as_str()));
            },
            Some(ModuleState::Loaded(ns)) => Some(ns.copy()),
            None => None,
        };
        match loaded {
            Some(ns) => self.bind_module(&path, ns),
            None => {
                proof {
                    lemma_states_insert(self.modules@, path@, ModuleState::Loading);
                }
                self.modules.insert(path.clone(), ModuleState::Loading);
                let e: Bindings<Value> = Bindings::new();
                proof {
                    lemma_scopes_insert(self.environments@, path@, e);
                    assert(deep(e@) =~= Map::<Seq<char>, ValueView>::empty());
                }
                self.environments.insert(path.clone(), e);
                let x: Bindings<Value> = Bindings::new();
                proof {
                    lemma_scopes_insert(self.module_exports@, path@, x);
                    assert(deep(x@) =~= Map::<Seq<char>, ValueView>::empty());
                }
                self.module_exports.insert(path.clone(), x);
                Ok(Step::LoadModule(path))
            },
        }
    }

    fn export(&mut self, idx: usize) -> (r: Result<Step, LiabError>)
        requires
            old(self)@.frames.len() > 0,
        ensures
            (final(self)@, outcome(r)) == export(old(self)@, idx),
    {
        let name = match self.name_operand(idx) {
            Some(n) => n,
            None => return self.fail(join("Export", " arg must be a string")),
        };
        let p = match self.current_module() {
            None => return self.fail(String::from_str("Cannot export from top-level script, only modules")),
            Some(p) => p,
        };
        let v = match self.environments.get(p.as_str()) {
            Some(env) => match env.get(name.as_str()) {
                Some(v) => v.copy(),
                None => {
                    let q = quote(name.as_str());
                    return self.fail(join("Undefined variable to export: ", q.as_str()));
                },
            },
            None => {
                let q = quote(name.as_str());
                return self.fail(join("Undefined variable to export: ", q.as_str()));
            },
        };
        let ghost ex0 = self.module_exports@;
        match self.module_exports.remove(p.as_str()) {
            None => {
                proof { assert(self.module_exports@ =~= ex0); }
                let q = quote(p.as_str());
                self.fail(join("Missing exports of module ", q.as_str()))
            },
            Some(mut ex) => {
                proof { lemma_deep_insert(ex@, name@, v); }
                ex.insert(name, v);
                self.module_exports.insert(p, ex);
                proof {
                    assert(self.module_exports@ =~= ex0.insert(p@, ex));
                    lemma_scopes_insert(ex0, p@, ex);
                }
                Ok(Step::Continue)
            },
        }
    }
}


/// The chunk of a module's source, or the message of the error that stops it.
pub open spec fn module_chunk<D: Fn(&str) -> u64>(
    source: Seq<char>,
    decode: D,
    path: Seq<char>,
    nd: spec_fn(u64) -> Seq<char>,
) -> Result<ChunkView, Seq<char>> {
    match spec_lex(source, decode) {
        Err(m) => Err("Module lex error: "@ + ("Syntax Error: "@ + m)),
        Ok(ts) => match spec_parse(ts, nd) {
            Err(m) => Err("Module parse error: "@ + ("Syntax Error: "@ + m)),
            Ok(ss) => Ok(program_chunk(ss, Some(path))),
        },
    }
}

/// The globals after registering native function `id` as `namespace.name`.
pub open spec fn registered(
    globals: Map<Seq<char>, ValueView>,
    namespace: Seq<char>,
    name: Seq<char>,
    arity: usize,
    id: usize,
) -> Map<Seq<char>, ValueView> {
    let f = ValueView::NativeFunction { name: namespace + "."@ + name, arity, id };
    if !globals.contains_key(namespace) {
        globals.insert(namespace, ValueView::Namespace(Map::empty().insert(name, f)))
    } else {
        match globals[namespace] {
            ValueView::Namespace(m) => globals.insert(namespace, ValueView::Namespace(m.insert(name, f))),
            _ => globals,
        }
    }
}

impl VM {
    /// Registers native function `id` of the host as `namespace.name`,
    /// creating the namespace when it does not exist; a global `namespace`
    /// that is not a namespace is left alone.
    pub fn register_function(&mut self, namespace: &str, name: &str, arity: usize, id: usize)
        ensures
            final(self)@ == (VMView { globals: registered(old(self)@.globals, namespace@, name@, arity, id), ..old(self)@ }),
    {
        let full = join(join(namespace, ".").as_str(), name);
        let f = Value::NativeFunction { name: full, arity, id };
        let existing: Option<Option<Bindings<Value>>> = match self.globals.get(namespace) {
            Some(Value::Namespace(b)) => Some(Some(b.duplicate())),
            Some(_) => Some(None),
            None => None,
        };
        proof { lemma_namespace_value(self.globals@[namespace@]); }
        let mut b = match existing {
            Some(Some(b)) => b,
            Some(None) => return,
            None => Bindings::new(),
        };
        proof { lemma_deep_insert(b@, name@, f); }
        b.insert(String::from_str(name), f);
        let ns = Value::Namespace(Rc::new(b));
        proof {
            lemma_namespace_view(b);
            lemma_deep_insert(self.globals@, namespace@, ns);
            assert(deep(Map::<Seq<char>, Value>::empty()) =~= Map::<Seq<char>, ValueView>::empty());
        }
        self.globals.insert(String::from_str(namespace), ns);
    }

    /// Ends a native call started at `base`: the function and its arguments
    /// are replaced by the result.
    pub fn complete_native(&mut self, base: usize, result: Value)
        ensures
            final(self)@ == push(with_stack(old(self)@, truncated(old(self)@.stack, base as int)), value_view(result)),
    {
        let ghost st = self.stack@;
        self.stack.truncate(base);
        proof {
            if base <= st.len() {
                lemma_vv_subrange(st, 0, base as int);
            }
        }
        self.push_value(result);
    }

    /// Runs module `path` next: its source is lexed, parsed and compiled, and
    /// its script frame pushed. A lex or parse error ends the load; `dbg`
    /// renders numbers in parse errors.
    pub fn enter_module<D: Fn(&str) -> u64, G: Fn(u64) -> String>(
        &mut self,
        path: String,
        source: &str,
        decode: D,
        dbg: &G,
    ) -> (r: Result<(), LiabError>)
        requires
            is_number_decoder(decode),
            is_renderer(*dbg),
        ensures
            match module_chunk(source@, decode, path@, renderer_of(*dbg)) {
                Ok(c) => r is Ok && final(self)@ == (VMView {
                    frames: old(self)@.frames.push(FrameView {
                        name: "<script>"@,
                        chunk: c,
                        ip: 0,
                        base: old(self)@.stack.len() as usize,
                        module: Some(path@),
                    }),
                    ..old(self)@
                }),
                Err(m) => r matches Err(e) && final(self)@ == old(self)@
                    && outcome(Err(e)) == fault(old(self)@, m).1,
            },
    {
        let tokens = match lex(source, decode) {
            Ok(t) => t,
            Err(e) => {
                let t = e.to_string();
                return Err(self.runtime_error(join("Module lex error: ", t.as_str())));
            },
        };
        let stmts = match parse(tokens, dbg) {
            Ok(ss) => ss,
            Err(e) => {
                let t = e.to_string();
                return Err(self.runtime_error(join("Module parse error: ", t.as_str())));
            },
        };
        let chunk = match Compiler::with_module(Some(path.clone())).compile(stmts) {
            Ok(c) => c,
            Err(e) => return Err(e),
        };
        let f = CallFrame {
            name: String::from_str("<script>"),
            chunk: Rc::new(chunk),
            ip: 0,
            stack_base: self.stack.len(),
            module: Some(path),
        };
        proof { lemma_fv_push(self.frames@, f); }
        self.frames.push(f);
        Ok(())
    }

    /// Executes the next instruction of the running frame. Work the machine
    /// cannot do itself is handed to the host in the result; `show` and `dbg`
    /// render numbers in messages (as `print` and as debugging text).
    pub fn step<F: Fn(u64) -> String, G: Fn(u64) -> String>(&mut self, show: &F, dbg: &G) -> (r: Result<Step, LiabError>)
        requires
            is_renderer(*show),
            is_renderer(*dbg),
        ensures
            (final(self)@, outcome(r)) == step_spec(old(self)@, renderer_of(*show), renderer_of(*dbg)),
    {
        let n = self.frames.len();
        if n == 0 {
            return self.fail(String::from_str("No active call frame"));
        }
        let ip = self.frames[n - 1].ip;
        if ip >= self.frames[n - 1].chunk.code.len() {
            return Ok(Step::Done);
        }
        let instr = self.frames[n - 1].chunk.code[ip];
        self.set_ip(ip + 1);
        match instr {
            Instruction::Constant(idx) => self.constant(idx),
            Instruction::Add => self.arith(ArithOp::Add, dbg),
            Instruction::Sub => self.arith(ArithOp::Sub, dbg),
            Instruction::Mul => self.arith(ArithOp::Mul, dbg),
            Instruction::Div => self.arith(ArithOp::Div, dbg),
            Instruction::Eq => self.compare(CompareOp::Eq, dbg),
            Instruction::Neq => self.compare(CompareOp::Neq, dbg),
            Instruction::Gt => self.compare(CompareOp::Gt, dbg),
            Instruction::Lt => self.compare(CompareOp::Lt, dbg),
            Instruction::Gte => self.compare(CompareOp::Gte, dbg),
            Instruction::Lte => self.compare(CompareOp::Lte, dbg),
            Instruction::Pop => match self.pop_value() {
                None => self.fail(String::from_str("Stack underflow on Pop")),
                Some(_) => Ok(Step::Continue),
            },
            Instruction::Print => match self.pop_value() {
                None => self.fail(String::from_str("Stack underflow on Print")),
                Some(v) => Ok(Step::Print(v)),
            },
            Instruction::DefineGlobal(idx) => self.define_global(idx),
            Instruction::GetGlobal(idx) => self.get_global(idx),
            Instruction::SetGlobal(idx) => self.set_global(idx),
            Instruction::GetProperty(idx) => self.get_property(idx, dbg),
            Instruction::GetIndex => self.get_index(show),
            Instruction::GetLocal(slot) => self.get_local(slot),
            Instruction::SetLocal(slot) => self.set_local(slot),
            Instruction::Jump(target) => {
                self.set_ip(target);
                Ok(Step::Continue)
            },
            Instruction::JumpIfFalse(target) => self.jump_if_false(target),
            Instruction::Call(k) => self.call(k, show),
            Instruction::Return => self.ret(),
            Instruction::Love(idx) => self.love(idx),
            Instruction::Export(idx) => self.export(idx),
        }
    }
}

impl Default for VM {
    fn default() -> (vm: Self)
        ensures
            vm@.stack == Seq::<ValueView>::empty(),
            vm@.frames == Seq::<FrameView>::empty(),
            vm@.globals == Map::<Seq<char>, ValueView>::empty(),
            vm@.environments == Map::<Seq<char>, Map<Seq<char>, ValueView>>::empty(),
            vm@.exports == Map::<Seq<char>, Map<Seq<char>, ValueView>>::empty(),
            vm@.modules == Map::<Seq<char>, ModuleStateView>::empty(),
            !vm@.trace,
    {
        VM::new()
    }
}


/// The trace text of a stack: `[ v ]` for each value, bottom first.
pub open spec fn stack_text(st: Seq<ValueView>, show: spec_fn(u64) -> Seq<char>) -> Seq<char>
    decreases st.len(),
{
    if st.len() == 0 {
        Seq::empty()
    } else {
        stack_text(st.drop_last(), show) + "[ "@ + display_view(st.last(), show) + " ]"@
    }
}

/// What tracing shows before a step: the stack, then the instruction about
/// to run. `None` when no instruction is about to run or its constant
/// operand is out of range.
pub open spec fn trace_view(s: VMView, show: spec_fn(u64) -> Seq<char>) -> Option<Seq<char>> {
    if s.frames.len() == 0 || top(s).ip >= top(s).chunk.code.len()
        || !operand_ok(top(s).chunk.code[top(s).ip as int], top(s).chunk.constants.len()) {
        None
    } else {
        Some(spaces(10) + stack_text(s.stack, show) + "\n"@ + instruction_line(top(s).chunk, top(s).ip as int, show) + "\n"@)
    }
}

impl VM {
    /// The trace of the next step, for a host that traces execution.
    pub fn trace_text<F: Fn(u64) -> String>(&self, show: &F) -> (r: Option<String>)
        requires
            is_renderer(*show),
        ensures
            opt_string_view(r) == trace_view(self@, renderer_of(*show)),
    {
        let n = self.frames.len();
        if n == 0 {
            return None;
        }
        let f = &self.frames[n - 1];
        let chunk: &Chunk = &*f.chunk;
        if f.ip >= chunk.code.len() {
            return None;
        }
        let ghost cv = chunk_view(*chunk);
        if !operand_in_range(chunk.code[f.ip], chunk.constants.len()) {
            return None;
        }
        let mut out = String::new();
        push_spaces(&mut out, 10);
        let ghost head = out@;
        let ghost shw = renderer_of(*show);
        let mut i: usize = 0;
        while i < self.stack.len()
            invariant
                i <= self.stack@.len(),
                is_renderer(*show),
                shw == renderer_of(*show),
                out@ == head + stack_text(values_view(self.stack@).subrange(0, i as int), shw),
            decreases self.stack@.len() - i,
        {
            let d = self.stack[i].display(show);
            out.append("[ ");
            out.append(d.as_str());
            out.append(" ]");
            proof {
                let vs = values_view(self.stack@);
                assert(vs.subrange(0, i + 1).drop_last() =~= vs.subrange(0, i as int));
            }
            i = i + 1;
        }
        proof { assert(values_view(self.stack@).subrange(0, i as int) =~= values_view(self.stack@)); }
        out.append("\n");
        let line = disassemble_instruction(chunk, f.ip, show);
        out.append(line.as_str());
        out.append("\n");
        Some(out)
    }
}

/// `true` when an instruction's constant operand is below `n`.
fn operand_in_range(i: Instruction, n: usize) -> (r: bool)
    ensures
        r == operand_ok(i, n as nat),
{
    match i {
        Instruction::Constant(k) | Instruction::DefineGlobal(k) | Instruction::GetGlobal(k)
        | Instruction::SetGlobal(k) | Instruction::GetProperty(k) | Instruction::Love(k)
        | Instruction::Export(k) => k < n,
        _ => true,
    }
}



// ---- a whole run ------------------------------------------------------------------

/// The host's answers to the work that steps hand out.
pub struct HostView {
    /// The bits of `a op b` for the numbers with bits `a` and `b`.
    pub arith: spec_fn(ArithOp, u64, u64) -> u64,
    /// Whether `a op b` holds for the numbers with bits `a` and `b`.
    pub rel: spec_fn(CompareOp, u64, u64) -> bool,
    /// What native function `id` returns for `args`; `None` where it fails.
    pub native: spec_fn(usize, Seq<ValueView>) -> Option<ValueView>,
    /// The source text of module `path`; `None` where it cannot be read.
    pub source: spec_fn(Seq<char>) -> Option<Seq<char>>,
}

/// How a run ends.
pub enum RunEnd {
    /// The program finished (`Step::Done`).
    Finished,
    /// A step faulted, or the host could not do the work a step handed out.
    Failed,
    /// `fuel` steps were taken and the program had not finished.
    Unfinished,
}

/// A run of at most `fuel` steps from `s`: each step is `step_spec`, and
/// the host's answer to the work it hands out goes back as `push_value`
/// (arithmetic, comparison), `complete_native` (native calls) and
/// `enter_module` (module loads) put it back. The result is the machine at
/// the end, the values printed in order, and how the run ended.
pub open spec fn run_spec<D: Fn(&str) -> u64>(
    s: VMView,
    h: HostView,
    decode: D,
    show: spec_fn(u64) -> Seq<char>,
    dbg: spec_fn(u64) -> Seq<char>,
    fuel: nat,
) -> (VMView, Seq<ValueView>, RunEnd)
    decreases fuel,
{
    if fuel == 0 {
        (s, Seq::empty(), RunEnd::Unfinished)
    } else {
        let (s1, st) = step_spec(s, show, dbg);
        let f = (fuel - 1) as nat;
        match st {
            StepView::Done => (s1, Seq::empty(), RunEnd::Finished),
            StepView::Fault { .. } => (s1, Seq::empty(), RunEnd::Failed),
            StepView::Continue => run_spec(s1, h, decode, show, dbg, f),
            StepView::Arith { op, a, b } =>
                run_spec(push(s1, ValueView::Number((h.arith)(op, a, b))), h, decode, show, dbg, f),
            StepView::Compare { op, a, b } =>
                run_spec(push(s1, ValueView::Boolean((h.rel)(op, a, b))), h, decode, show, dbg, f),
            StepView::Print(v) => {
                let (s2, out, end) = run_spec(s1, h, decode, show, dbg, f);
                (s2, seq![v] + out, end)
            },
            StepView::LoadModule(path) => match (h.source)(path) {
                None => (s1, Seq::empty(), RunEnd::Failed),
                Some(text) => match module_chunk(text, decode, path, dbg) {
                    Ok(c) => run_spec(
                        VMView {
                            frames: s1.frames.push(FrameView {
                                name: "<script>"@,
                                chunk: c,
                                ip: 0,
                                base: s1.stack.len() as usize,
                                module: Some(path),
                            }),
                            ..s1
                        },
                        h, decode, show, dbg, f,
                    ),
                    Err(_) => (s1, Seq::empty(), RunEnd::Failed),
                },
            },
            StepView::CallNative { id, args, base } => match (h.native)(id, args) {
                None => (s1, Seq::empty(), RunEnd::Failed),
                Some(v) => run_spec(
                    push(with_stack(s1, truncated(s1.stack, base as int)), v),
                    h, decode, show, dbg, f,
                ),
            },
        }
    }
}

/// Execution is deterministic: two machines in the same state, run on the
/// same host answers, go through the same steps, print the same values in
/// the same order, end the same way and are left in the same state (the
/// same globals, module variables, exports, module states, stack and frames).
pub proof fn law_run_deterministic<D: Fn(&str) -> u64>(
    a: VMView,
    b: VMView,
    h: HostView,
    decode: D,
    show: spec_fn(u64) -> Seq<char>,
    dbg: spec_fn(u64) -> Seq<char>,
    fuel: nat,
)
    requires
        a == b,
    ensures
        run_spec(a, h, decode, show, dbg, fuel) == run_spec(b, h, decode, show, dbg, fuel),
        step_spec(a, show, dbg) == step_spec(b, show, dbg),
{
}

/// A run that ends within `n` steps ends the same way, in the same state and
/// with the same output, however many more steps it is allowed.
pub proof fn law_run_settled<D: Fn(&str) -> u64>(
    s: VMView,
    h: HostView,
    decode: D,
    show: spec_fn(u64) -> Seq<char>,
    dbg: spec_fn(u64) -> Seq<char>,
    n: nat,
    m: nat,
)
    requires
        n <= m,
        !(run_spec(s, h, decode, show, dbg, n).2 is Unfinished),
    ensures
        run_spec(s, h, decode, show, dbg, m) == run_spec(s, h, decode, show, dbg, n),
    decreases n,
{
    if n > 0 {
        let (s1, st) = step_spec(s, show, dbg);
        let f = (n - 1) as nat;
        let g = (m - 1) as nat;
        match st {
            StepView::Continue => law_run_settled(s1, h, decode, show, dbg, f, g),
            StepView::Arith { op, a, b } =>
                law_run_settled(push(s1, ValueView::Number((h.arith)(op, a, b))), h, decode, show, dbg, f, g),
            StepView::Compare { op, a, b } =>
                law_run_settled(push(s1, ValueView::Boolean((h.rel)(op, a, b))), h, decode, show, dbg, f, g),
            StepView::Print(v) => law_run_settled(s1, h, decode, show, dbg, f, g),
            StepView::LoadModule(path) => match (h.source)(path) {
                None => {},
                Some(text) => match module_chunk(text, decode, path, dbg) {
                    Ok(c) => law_run_settled(
                        VMView {
                            frames: s1.frames.push(FrameView {
                                name: "<script>"@,
                                chunk: c,
                                ip: 0,
                                base: s1.stack.len() as usize,
                                module: Some(path),
                            }),
                            ..s1
                        },
                        h, decode, show, dbg, f, g,
                    ),
                    Err(_) => {},
                },
            },
            StepView::CallNative { id, args, base } => match (h.native)(id, args) {
                None => {},
                Some(v) => law_run_settled(
                    push(with_stack(s1, truncated(s1.stack, base as int)), v),
                    h, decode, show, dbg, f, g,
                ),
            },
            _ => {},
        }
    }
}

// ---- laws ------------------------------------------------------------------------

/// The running frame is about to execute `i`.
pub open spec fn about_to(s: VMView, i: Instruction) -> bool {
    &&& s.frames.len() > 0
    &&& top(s).ip < top(s).chunk.code.len()
    &&& top(s).chunk.code.len() <= usize::MAX
    &&& top(s).chunk.code[top(s).ip as int] == i
}

/// `love` of a module whose script is still running is refused with a
/// cyclic-dependency error at that instruction.
pub proof fn law_cycle_refused(
    s: VMView,
    idx: usize,
    path: Seq<char>,
    show: spec_fn(u64) -> Seq<char>,
    dbg: spec_fn(u64) -> Seq<char>,
)
    requires
        about_to(s, Instruction::Love(idx)),
        name_operand(s, idx) == Some(path),
        s.modules.contains_key(path),
        s.modules[path] == ModuleStateView::Loading,
    ensures
        step_spec(s, show, dbg).1 == (StepView::Fault {
            message: "Cyclic dependency detected: "@ + quoted(path),
            ip: top(s).ip,
            frame_name: top(s).name,
        }),
{
}

/// A module is loaded once: `love` of a loaded module asks the host for
/// nothing and binds its cached namespace again under the stem of its path.
pub proof fn law_loaded_module_reused(
    s: VMView,
    idx: usize,
    path: Seq<char>,
    stem: Seq<char>,
    ns: ValueView,
    show: spec_fn(u64) -> Seq<char>,
    dbg: spec_fn(u64) -> Seq<char>,
)
    requires
        about_to(s, Instruction::Love(idx)),
        name_operand(s, idx) == Some(path),
        s.modules.contains_key(path),
        s.modules[path] == ModuleStateView::Loaded(ns),
        module_name(path) == Some(stem),
        top(s).module is None,
    ensures
        step_spec(s, show, dbg).1 == StepView::Continue,
        step_spec(s, show, dbg).0.globals == s.globals.insert(stem, ns),
        step_spec(s, show, dbg).0.frames.len() == s.frames.len(),
        step_spec(s, show, dbg).0.modules == s.modules,
{
}

/// The first `love` of a module marks it loading, gives it an empty
/// environment and export table, and asks the host for its source.
pub proof fn law_first_love_loads(
    s: VMView,
    idx: usize,
    path: Seq<char>,
    show: spec_fn(u64) -> Seq<char>,
    dbg: spec_fn(u64) -> Seq<char>,
)
    requires
        about_to(s, Instruction::Love(idx)),
        name_operand(s, idx) == Some(path),
        !s.modules.contains_key(path),
    ensures
        step_spec(s, show, dbg).1 == StepView::LoadModule(path),
        step_spec(s, show, dbg).0.modules == s.modules.insert(path, ModuleStateView::Loading),
        step_spec(s, show, dbg).0.environments == s.environments.insert(path, Map::empty()),
        step_spec(s, show, dbg).0.exports == s.exports.insert(path, Map::empty()),
{
}

/// Division by a zero number is refused with a runtime error.
pub proof fn law_division_by_zero(
    s: VMView,
    a: u64,
    b: u64,
    show: spec_fn(u64) -> Seq<char>,
    dbg: spec_fn(u64) -> Seq<char>,
)
    requires
        about_to(s, Instruction::Div),
        s.stack.len() >= 2,
        s.stack.last() == ValueView::Number(b),
        s.stack[s.stack.len() - 2] == ValueView::Number(a),
        is_zero_bits(b),
    ensures
        step_spec(s, show, dbg).1 == (StepView::Fault {
            message: "Runtime error: division by zero"@,
            ip: top(s).ip,
            frame_name: top(s).name,
        }),
{
    let s1 = jump(s, (top(s).ip + 1) as usize);
    assert(popped(s1).stack.last() == ValueView::Number(a));
}

/// Only a module can export: `export` in the top-level script is refused.
pub proof fn law_export_needs_module(
    s: VMView,
    idx: usize,
    show: spec_fn(u64) -> Seq<char>,
    dbg: spec_fn(u64) -> Seq<char>,
)
    requires
        about_to(s, Instruction::Export(idx)),
        name_operand(s, idx) is Some,
        top(s).module is None,
    ensures
        step_spec(s, show, dbg).1 == (StepView::Fault {
            message: "Cannot export from top-level script, only modules"@,
            ip: top(s).ip,
            frame_name: top(s).name,
        }),
{
}

/// In the top-level script, reading a global right after defining it gives
/// back the value defined: the stack is as it was, and the global holds the
/// value.
pub proof fn law_define_then_get(
    s: VMView,
    i: usize,
    k: usize,
    name: Seq<char>,
    show: spec_fn(u64) -> Seq<char>,
    dbg: spec_fn(u64) -> Seq<char>,
)
    requires
        about_to(s, Instruction::DefineGlobal(i)),
        top(s).ip + 1 < top(s).chunk.code.len(),
        top(s).chunk.code[top(s).ip + 1] == Instruction::GetGlobal(k),
        top(s).module is None,
        name_operand(s, i) == Some(name),
        name_operand(s, k) == Some(name),
        s.stack.len() > 0,
    ensures
        ({
            let (s1, o1) = step_spec(s, show, dbg);
            let (s2, o2) = step_spec(s1, show, dbg);
            &&& o1 == StepView::Continue
            &&& o2 == StepView::Continue
            &&& s2.stack == s.stack
            &&& s2.globals == s.globals.insert(name, s.stack.last())
        }),
{
    let (s1, o1) = step_spec(s, show, dbg);
    assert(top(s1) == FrameView { ip: (top(s).ip + 1) as usize, ..top(s) });
    assert(name_operand(jump(s1, (top(s1).ip + 1) as usize), k) == Some(name));
    let (s2, o2) = step_spec(s1, show, dbg);
    assert(s2.stack =~= s.stack);
}


/// Calling a compiled function with the right number of arguments starts a
/// frame at its first instruction whose locals begin where the function was:
/// the arguments become local slots `0..n`.
pub proof fn law_call_starts_frame(
    s: VMView,
    n: usize,
    show: spec_fn(u64) -> Seq<char>,
    dbg: spec_fn(u64) -> Seq<char>,
)
    requires
        about_to(s, Instruction::Call(n)),
        s.stack.len() >= n + 1,
        s.stack.len() <= usize::MAX,
        s.stack[s.stack.len() - n - 1] matches ValueView::CompiledFunction { arity, .. } && arity == n,
    ensures
        ({
            let pos = s.stack.len() - n - 1;
            let (s1, o) = step_spec(s, show, dbg);
            &&& o == StepView::Continue
            &&& s1.stack == s.stack.remove(pos)
            &&& s1.frames.len() == s.frames.len() + 1
            &&& top(s1).ip == 0
            &&& top(s1).base == pos
            &&& forall|k: int| 0 <= k < n ==> s1.stack[pos + k] == #[trigger] s.stack[pos + 1 + k]
        }),
{
    let pos = s.stack.len() - n - 1;
    let s0 = jump(s, (top(s).ip + 1) as usize);
    assert(s0.stack == s.stack);
    let (s1, o) = call(s0, n, show);
    assert forall|k: int| 0 <= k < n implies s1.stack[pos + k] == #[trigger] s.stack[pos + 1 + k] by {
        assert(s.stack.remove(pos)[pos + k] == s.stack[pos + k + 1]);
    }
}

/// Returning from a function call leaves the caller's stack below the
/// function with the returned value on top, and resumes the caller.
pub proof fn law_return_restores_stack(
    s: VMView,
    show: spec_fn(u64) -> Seq<char>,
    dbg: spec_fn(u64) -> Seq<char>,
)
    requires
        about_to(s, Instruction::Return),
        s.frames.len() >= 2,
        s.stack.len() >= 1,
        top(s).base <= s.stack.len() - 1,
        top(s).module is None,
    ensures
        ({
            let (s1, o) = step_spec(s, show, dbg);
            &&& o == StepView::Continue
            &&& s1.stack == s.stack.subrange(0, top(s).base as int).push(s.stack.last())
            &&& s1.frames == s.frames.drop_last()
        }),
{
    let s0 = jump(s, (top(s).ip + 1) as usize);
    assert(s0.frames.drop_last() =~= s.frames.drop_last());
    assert(s0.stack.drop_last().subrange(0, top(s).base as int) =~= s.stack.subrange(0, top(s).base as int));
}

/// A module script that finishes hands its exports to the importer as a
/// namespace: the namespace is cached as the loaded module and bound, in a
/// top-level importer, under the module's name (`love "math";` binds `math`).
pub proof fn law_finished_module_bound(
    s: VMView,
    path: Seq<char>,
    show: spec_fn(u64) -> Seq<char>,
    dbg: spec_fn(u64) -> Seq<char>,
)
    requires
        about_to(s, Instruction::Return),
        s.frames.len() >= 2,
        s.stack.len() >= 1,
        top(s).name == "<script>"@,
        top(s).module == Some(path),
        plain_name(path),
        s.frames[s.frames.len() - 2].module is None,
    ensures
        ({
            let ns = ValueView::Namespace(if s.exports.contains_key(path) { s.exports[path] } else { Map::empty() });
            let (s1, o) = step_spec(s, show, dbg);
            &&& o == StepView::Continue
            &&& s1.globals == s.globals.insert(path, ns)
            &&& s1.modules == s.modules.insert(path, ModuleStateView::Loaded(ns))
            &&& !s1.exports.contains_key(path)
            &&& s1.frames == s.frames.drop_last()
        }),
{
    let s0 = jump(s, (top(s).ip + 1) as usize);
    assert(s0.frames.drop_last() =~= s.frames.drop_last());
}

/// Conditional jumps: `JumpIfFalse(t)` pops the condition; it continues at
/// `t` when the condition is `false` or a zero number (`0.0` or `-0.0`), and
/// at the next instruction for every other value (`true`, any other number,
/// strings, functions, namespaces). Nothing else changes.
pub proof fn law_jump_if_false(
    s: VMView,
    t: usize,
    show: spec_fn(u64) -> Seq<char>,
    dbg: spec_fn(u64) -> Seq<char>,
)
    requires
        about_to(s, Instruction::JumpIfFalse(t)),
        s.stack.len() >= 1,
    ensures
        ({
            let (s1, o) = step_spec(s, show, dbg);
            let c = s.stack.last();
            let falsy = c == ValueView::Boolean(false) || c == ValueView::Number(0)
                || c == ValueView::Number(0x8000_0000_0000_0000);
            &&& o == StepView::Continue
            &&& s1.stack == s.stack.drop_last()
            &&& s1.frames.len() == s.frames.len()
            &&& s1.frames.drop_last() == s.frames.drop_last()
            &&& top(s1).chunk == top(s).chunk
            &&& top(s1).ip == if falsy { t as int } else { top(s).ip + 1 }
            &&& s1.globals == s.globals
        }),
{
    let s0 = jump(s, (top(s).ip + 1) as usize);
    assert(s0.frames.drop_last() =~= s.frames.drop_last());
    assert(jump(popped(s0), t).frames.drop_last() =~= s.frames.drop_last());
}

/// Number operators: with numbers `a` below `b` on top of the stack, each
/// arithmetic or comparison instruction pops both and hands the host its own
/// operation on `a` and `b`, in that order (`Sub` asks for `a - b`, `Lte` for
/// `a <= b`); only a division by zero (`0.0` or `-0.0`) is refused.
pub proof fn law_number_operators(
    s: VMView,
    i: Instruction,
    a: u64,
    b: u64,
    show: spec_fn(u64) -> Seq<char>,
    dbg: spec_fn(u64) -> Seq<char>,
)
    requires
        about_to(s, i),
        s.stack.len() >= 2,
        s.stack[s.stack.len() - 2] == ValueView::Number(a),
        s.stack[s.stack.len() - 1] == ValueView::Number(b),
    ensures
        ({
            let (s1, o) = step_spec(s, show, dbg);
            let zero = b == 0 || b == 0x8000_0000_0000_0000;
            &&& i == Instruction::Add ==> o == StepView::Arith { op: ArithOp::Add, a, b }
            &&& i == Instruction::Sub ==> o == StepView::Arith { op: ArithOp::Sub, a, b }
            &&& i == Instruction::Mul ==> o == StepView::Arith { op: ArithOp::Mul, a, b }
            &&& i == Instruction::Div && !zero ==> o == StepView::Arith { op: ArithOp::Div, a, b }
            &&& i == Instruction::Div && zero ==> o is Fault
            &&& i == Instruction::Eq ==> o == StepView::Compare { op: CompareOp::Eq, a, b }
            &&& i == Instruction::Neq ==> o == StepView::Compare { op: CompareOp::Neq, a, b }
            &&& i == Instruction::Gt ==> o == StepView::Compare { op: CompareOp::Gt, a, b }
            &&& i == Instruction::Lt ==> o == StepView::Compare { op: CompareOp::Lt, a, b }
            &&& i == Instruction::Gte ==> o == StepView::Compare { op: CompareOp::Gte, a, b }
            &&& i == Instruction::Lte ==> o == StepView::Compare { op: CompareOp::Lte, a, b }
            &&& (o is Arith || o is Compare) ==> s1.stack == s.stack.subrange(0, s.stack.len() - 2)
                && top(s1).ip == top(s).ip + 1
        }),
{
    let s0 = jump(s, (top(s).ip + 1) as usize);
    assert(s0.stack.drop_last().drop_last() =~= s.stack.subrange(0, s.stack.len() - 2));
}

/// Jumps and local slots: `Jump(t)` continues at `t` and changes nothing
/// else; `GetLocal(k)` pushes a copy of the value in slot `k` (the `k`-th
/// value above the frame's base); `SetLocal(k)` pops the top value and
/// stores it in slot `k`, leaving the other values where they were.
pub proof fn law_jumps_and_locals(
    s: VMView,
    t: usize,
    k: usize,
    show: spec_fn(u64) -> Seq<char>,
    dbg: spec_fn(u64) -> Seq<char>,
)
    requires
        s.frames.len() > 0,
    ensures
        about_to(s, Instruction::Jump(t)) ==> ({
            let (s1, o) = step_spec(s, show, dbg);
            &&& o == StepView::Continue
            &&& s1.stack == s.stack
            &&& s1.frames.drop_last() == s.frames.drop_last()
            &&& top(s1) == (FrameView { ip: t, ..top(s) })
        }),
        about_to(s, Instruction::GetLocal(k)) && top(s).base + k < s.stack.len() ==> ({
            let (s1, o) = step_spec(s, show, dbg);
            &&& o == StepView::Continue
            &&& s1.stack == s.stack.push(s.stack[top(s).base + k])
            &&& top(s1).ip == top(s).ip + 1
        }),
        about_to(s, Instruction::SetLocal(k)) && top(s).base + k < s.stack.len() - 1 ==> ({
            let (s1, o) = step_spec(s, show, dbg);
            &&& o == StepView::Continue
            &&& s1.stack.len() == s.stack.len() - 1
            &&& s1.stack[top(s).base + k] == s.stack.last()
            &&& forall|x: int| 0 <= x < s1.stack.len() && x != top(s).base + k ==> s1.stack[x] == s.stack[x]
            &&& top(s1).ip == top(s).ip + 1
        }),
{
    let s0 = jump(s, (top(s).ip + 1) as usize);
    assert(s0.frames.drop_last() =~= s.frames.drop_last());
    assert(jump(s0, t).frames.drop_last() =~= s.frames.drop_last());
}

} // verus!
