//! The debugging text of values, as `{:?}` writes them: every field of a
//! function, down to the statements of its body or the instructions and
//! constants of its chunk.
use vstd::prelude::*;
use crate::ast::{
    BinOp, Expr, Stmt, ExprView, StmtView, stmts_view, exprs_view, strings_view,
    lemma_call_view, lemma_fn_view, lemma_if_view, lemma_while_view, lemma_block_view,
};
use crate::compiler::{Chunk, Instruction};
use crate::value::{
    Bindings, Value, ValueView, ChunkView, value_view, values_view, chunk_view, deep, render, renderer_of, is_renderer,
    lemma_compiled_value, lemma_namespace_value,
};
use crate::text::chars_of;
use crate::text::{decimal, append_decimal, string_debug, debug_string};

verus! {

broadcast use vstd::std_specs::vec::group_vec_axioms;

// ---- the text -------------------------------------------------------------------

/// The items separated by `, `.
pub open spec fn joined(items: Seq<Seq<char>>) -> Seq<char>
    decreases items.len(),
{
    if items.len() == 0 {
        Seq::empty()
    } else if items.len() == 1 {
        items[0]
    } else {
        joined(items.drop_last()) + ", "@ + items.last()
    }
}

/// The items as a list: `[a, b, c]`.
pub open spec fn bracketed(items: Seq<Seq<char>>) -> Seq<char> {
    "["@ + joined(items) + "]"@
}

/// `Some("text")` or `None`.
pub open spec fn opt_string_debug(o: Option<Seq<char>>) -> Seq<char> {
    match o {
        Some(s) => "Some("@ + string_debug(s) + ")"@,
        None => "None"@,
    }
}

/// A list of strings: `["a", "b"]`.
pub open spec fn strings_debug(ss: Seq<Seq<char>>) -> Seq<char> {
    bracketed(Seq::new(ss.len(), |i: int| string_debug(ss[i])))
}

pub open spec fn binop_debug(op: BinOp) -> Seq<char> {
    match op {
        BinOp::Add => "Add"@,
        BinOp::Sub => "Sub"@,
        BinOp::Mul => "Mul"@,
        BinOp::Div => "Div"@,
        BinOp::Eq => "Eq"@,
        BinOp::Neq => "Neq"@,
        BinOp::Gt => "Gt"@,
        BinOp::Lt => "Lt"@,
        BinOp::Gte => "Gte"@,
        BinOp::Lte => "Lte"@,
    }
}

/// `name(operand)`.
pub open spec fn with_operand(name: Seq<char>, k: usize) -> Seq<char> {
    name + "("@ + decimal(k as nat) + ")"@
}

pub open spec fn instruction_debug(i: Instruction) -> Seq<char> {
    match i {
        Instruction::Constant(k) => with_operand("Constant"@, k),
        Instruction::Add => "Add"@,
        Instruction::Sub => "Sub"@,
        Instruction::Mul => "Mul"@,
        Instruction::Div => "Div"@,
        Instruction::Eq => "Eq"@,
        Instruction::Neq => "Neq"@,
        Instruction::Gt => "Gt"@,
        Instruction::Lt => "Lt"@,
        Instruction::Gte => "Gte"@,
        Instruction::Lte => "Lte"@,
        Instruction::Pop => "Pop"@,
        Instruction::Print => "Print"@,
        Instruction::DefineGlobal(k) => with_operand("DefineGlobal"@, k),
        Instruction::GetGlobal(k) => with_operand("GetGlobal"@, k),
        Instruction::SetGlobal(k) => with_operand("SetGlobal"@, k),
        Instruction::GetProperty(k) => with_operand("GetProperty"@, k),
        Instruction::GetIndex => "GetIndex"@,
        Instruction::GetLocal(k) => with_operand("GetLocal"@, k),
        Instruction::SetLocal(k) => with_operand("SetLocal"@, k),
        Instruction::Jump(k) => with_operand("Jump"@, k),
        Instruction::JumpIfFalse(k) => with_operand("JumpIfFalse"@, k),
        Instruction::Call(k) => with_operand("Call"@, k),
        Instruction::Return => "Return"@,
        Instruction::Love(k) => with_operand("Love"@, k),
        Instruction::Export(k) => with_operand("Export"@, k),
    }
}

/// A list of instructions.
pub open spec fn code_debug(code: Seq<Instruction>) -> Seq<char> {
    bracketed(Seq::new(code.len(), |i: int| instruction_debug(code[i])))
}

/// The debugging text of an expression; numbers are rendered by `nd`.
pub open spec fn expr_debug(e: ExprView, nd: spec_fn(u64) -> Seq<char>) -> Seq<char>
    decreases e, 2nat,
{
    match e {
        ExprView::Number(n) => "Number("@ + nd(n) + ")"@,
        ExprView::Boolean(b) => if b { "Boolean(true)"@ } else { "Boolean(false)"@ },
        ExprView::String(s) => "String("@ + string_debug(s) + ")"@,
        ExprView::Identifier(s) => "Identifier("@ + string_debug(s) + ")"@,
        ExprView::Member { object, property } =>
            "Member { object: "@ + expr_debug(*object, nd) + ", property: "@ + string_debug(property) + " }"@,
        ExprView::Index { object, index } =>
            "Index { object: "@ + expr_debug(*object, nd) + ", index: "@ + expr_debug(*index, nd) + " }"@,
        ExprView::BinaryOp { left, op, right } =>
            "BinaryOp { left: "@ + expr_debug(*left, nd) + ", op: "@ + binop_debug(op) + ", right: "@
                + expr_debug(*right, nd) + " }"@,
        ExprView::FunctionCall { callee, args } =>
            "FunctionCall { callee: "@ + expr_debug(*callee, nd) + ", args: "@ + exprs_debug(args, nd) + " }"@,
    }
}

/// A list of expressions.
pub open spec fn exprs_debug(es: Seq<ExprView>, nd: spec_fn(u64) -> Seq<char>) -> Seq<char>
    decreases es, 1nat,
{
    "["@ + exprs_joined(es, nd) + "]"@
}

/// The expressions' texts separated by `, `.
pub open spec fn exprs_joined(es: Seq<ExprView>, nd: spec_fn(u64) -> Seq<char>) -> Seq<char>
    decreases es, 0nat,
{
    if es.len() == 0 {
        Seq::empty()
    } else if es.len() == 1 {
        expr_debug(es[0], nd)
    } else {
        exprs_joined(es.drop_last(), nd) + ", "@ + expr_debug(es.last(), nd)
    }
}

/// The debugging text of a statement.
pub open spec fn stmt_debug(s: StmtView, nd: spec_fn(u64) -> Seq<char>) -> Seq<char>
    decreases s, 2nat,
{
    match s {
        StmtView::Let { name, value } =>
            "Let { name: "@ + string_debug(name) + ", value: "@ + expr_debug(value, nd) + " }"@,
        StmtView::Assignment { name, value } =>
            "Assignment { name: "@ + string_debug(name) + ", value: "@ + expr_debug(value, nd) + " }"@,
        StmtView::Print(e) => "Print("@ + expr_debug(e, nd) + ")"@,
        StmtView::Expression(e) => "Expression("@ + expr_debug(e, nd) + ")"@,
        StmtView::FunctionDef { name, params, body } =>
            "FunctionDef { name: "@ + string_debug(name) + ", params: "@ + strings_debug(params) + ", body: "@
                + stmts_debug(body, nd) + " }"@,
        StmtView::Love(p) => "Love("@ + string_debug(p) + ")"@,
        StmtView::Export(n) => "Export("@ + string_debug(n) + ")"@,
        StmtView::Return(e) => "Return("@ + expr_debug(e, nd) + ")"@,
        StmtView::If { condition, then_body, else_body } =>
            "If { condition: "@ + expr_debug(condition, nd) + ", then_body: "@ + stmts_debug(then_body, nd)
                + ", else_body: "@ + match else_body {
                    Some(eb) => "Some("@ + stmts_debug(eb, nd) + ")"@,
                    None => "None"@,
                } + " }"@,
        StmtView::While { condition, body } =>
            "While { condition: "@ + expr_debug(condition, nd) + ", body: "@ + stmts_debug(body, nd) + " }"@,
        StmtView::Block(ss) => "Block("@ + stmts_debug(ss, nd) + ")"@,
    }
}

/// A list of statements.
pub open spec fn stmts_debug(ss: Seq<StmtView>, nd: spec_fn(u64) -> Seq<char>) -> Seq<char>
    decreases ss, 1nat,
{
    "["@ + stmts_joined(ss, nd) + "]"@
}

/// The statements' texts separated by `, `.
pub open spec fn stmts_joined(ss: Seq<StmtView>, nd: spec_fn(u64) -> Seq<char>) -> Seq<char>
    decreases ss, 0nat,
{
    if ss.len() == 0 {
        Seq::empty()
    } else if ss.len() == 1 {
        stmt_debug(ss[0], nd)
    } else {
        stmts_joined(ss.drop_last(), nd) + ", "@ + stmt_debug(ss.last(), nd)
    }
}

/// The debugging text of a value. A native function shows its name and
/// arity; the host function behind it is not shown.
pub open spec fn value_debug(v: ValueView, nd: spec_fn(u64) -> Seq<char>) -> Seq<char>
    decreases v, 3nat,
{
    match v {
        ValueView::Number(n) => "Number("@ + nd(n) + ")"@,
        ValueView::Boolean(b) => if b { "Boolean(true)"@ } else { "Boolean(false)"@ },
        ValueView::String(s) => "String("@ + string_debug(s) + ")"@,
        ValueView::NativeFunction { name, arity, .. } =>
            "NativeFunction { name: "@ + string_debug(name) + ", arity: "@ + decimal(arity as nat) + ", .. }"@,
        ValueView::Function { name, params, body } =>
            "Function { name: "@ + string_debug(name) + ", params: "@ + strings_debug(params) + ", body: "@
                + stmts_debug(body, nd) + " }"@,
        ValueView::CompiledFunction { name, arity, chunk, module } =>
            "CompiledFunction { name: "@ + string_debug(name) + ", arity: "@ + decimal(arity as nat) + ", chunk: "@
                + chunk_debug(chunk, nd) + ", module_path: "@ + opt_string_debug(module) + " }"@,
        ValueView::Namespace(m) => "Namespace({"@ + entries_joined(sorted_keys(m), m, nd) + "})"@,
        ValueView::Other => Seq::empty(),
    }
}

/// The entries of a namespace for the keys `ks`: `"key": value`, separated by `, `.
pub open spec fn entries_joined(ks: Seq<Seq<char>>, m: Map<Seq<char>, ValueView>, nd: spec_fn(u64) -> Seq<char>) -> Seq<char>
    decreases m, ks.len(),
{
    if ks.len() == 0 {
        Seq::empty()
    } else {
        let k = ks.last();
        let entry = if m.dom().finite() && m.dom().contains(k) {
            string_debug(k) + ": "@ + value_debug(m[k], nd)
        } else {
            Seq::empty()
        };
        if ks.len() == 1 {
            entry
        } else {
            entries_joined(ks.drop_last(), m, nd) + ", "@ + entry
        }
    }
}

// ---- the order of namespace keys ------------------------------------------------

/// Lexicographic order of texts, character by character.
pub open spec fn str_lt(a: Seq<char>, b: Seq<char>) -> bool
    decreases a.len(),
{
    if b.len() == 0 {
        false
    } else if a.len() == 0 {
        true
    } else if a[0] != b[0] {
        a[0] < b[0]
    } else {
        str_lt(a.drop_first(), b.drop_first())
    }
}

/// Each text comes before every later one.
pub open spec fn strictly_sorted(ks: Seq<Seq<char>>) -> bool {
    forall|i: int, j: int| 0 <= i < j < ks.len() ==> str_lt(#[trigger] ks[i], #[trigger] ks[j])
}

/// The keys of `m`, in increasing order. The order in which `{:?}` lists a
/// map's entries is not fixed; this library lists them in this one.
pub open spec fn sorted_keys(m: Map<Seq<char>, ValueView>) -> Seq<Seq<char>> {
    choose|ks: Seq<Seq<char>>| strictly_sorted(ks) && (forall|k: Seq<char>| #[trigger] m.dom().contains(k) <==> ks.contains(k))
}

/// `Chunk { code: [...], constants: [...] }`.
pub open spec fn chunk_debug(c: ChunkView, nd: spec_fn(u64) -> Seq<char>) -> Seq<char>
    decreases c, 2nat,
{
    "Chunk { code: "@ + code_debug(c.code) + ", constants: "@ + values_debug(c.constants, nd) + " }"@
}

/// A list of values.
pub open spec fn values_debug(vs: Seq<ValueView>, nd: spec_fn(u64) -> Seq<char>) -> Seq<char>
    decreases vs, 1nat,
{
    "["@ + values_joined(vs, nd) + "]"@
}

/// The values' texts separated by `, `.
pub open spec fn values_joined(vs: Seq<ValueView>, nd: spec_fn(u64) -> Seq<char>) -> Seq<char>
    decreases vs, 0nat,
{
    if vs.len() == 0 {
        Seq::empty()
    } else if vs.len() == 1 {
        value_debug(vs[0], nd)
    } else {
        values_joined(vs.drop_last(), nd) + ", "@ + value_debug(vs.last(), nd)
    }
}

proof fn lemma_joined_push(items: Seq<Seq<char>>, x: Seq<char>)
    ensures
        joined(items.push(x)) == if items.len() == 0 { x } else { joined(items) + ", "@ + x },
{
    assert(items.push(x).drop_last() =~= items);
}

// ---- building the text ----------------------------------------------------------

/// Appends `", "` before every item but the first: after it, `r` holds
/// `base` followed by the first `i + 1` items.
proof fn lemma_list_step(base: Seq<char>, items: Seq<Seq<char>>, i: int, before: Seq<char>, after: Seq<char>)
    requires
        0 <= i < items.len(),
        before == base + joined(items.subrange(0, i)),
        i == 0 ==> after == before + items[i],
        i > 0 ==> after == before + ", "@ + items[i],
    ensures
        after == base + joined(items.subrange(0, i + 1)),
{
    lemma_joined_push(items.subrange(0, i), items[i]);
    assert(items.subrange(0, i + 1) =~= items.subrange(0, i).push(items[i]));
    if i == 0 {
        assert(joined(items.subrange(0, 0)) == Seq::<char>::empty());
        assert(after =~= base + joined(items.subrange(0, i + 1)));
    } else {
        assert(after =~= base + joined(items.subrange(0, i + 1)));
    }
}

fn append_str(r: &mut String, s: &str)
    ensures
        final(r)@ == old(r)@ + s@,
{
    r.append(s);
}

fn append_string_debug(r: &mut String, s: &String)
    ensures
        final(r)@ == old(r)@ + string_debug(s@),
{
    let t = debug_string(s);
    r.append(t.as_str());
}

fn append_number<F: Fn(u64) -> String>(r: &mut String, n: u64, dbg: &F)
    requires
        is_renderer(*dbg),
    ensures
        final(r)@ == old(r)@ + renderer_of(*dbg)(n),
{
    let t = render(dbg, n);
    r.append(t.as_str());
}

fn append_binop(r: &mut String, op: BinOp)
    ensures
        final(r)@ == old(r)@ + binop_debug(op),
{
    match op {
        BinOp::Add => r.append("Add"),
        BinOp::Sub => r.append("Sub"),
        BinOp::Mul => r.append("Mul"),
        BinOp::Div => r.append("Div"),
        BinOp::Eq => r.append("Eq"),
        BinOp::Neq => r.append("Neq"),
        BinOp::Gt => r.append("Gt"),
        BinOp::Lt => r.append("Lt"),
        BinOp::Gte => r.append("Gte"),
        BinOp::Lte => r.append("Lte"),
    }
}

fn append_with_operand(r: &mut String, name: &str, k: usize)
    ensures
        final(r)@ == old(r)@ + with_operand(name@, k),
{
    let ghost r0 = r@;
    r.append(name);
    r.append("(");
    append_decimal(r, k);
    r.append(")");
    assert(r@ =~= r0 + with_operand(name@, k));
}

fn append_instruction(r: &mut String, i: Instruction)
    ensures
        final(r)@ == old(r)@ + instruction_debug(i),
{
    match i {
        Instruction::Constant(k) => append_with_operand(r, "Constant", k),
        Instruction::Add => r.append("Add"),
        Instruction::Sub => r.append("Sub"),
        Instruction::Mul => r.append("Mul"),
        Instruction::Div => r.append("Div"),
        Instruction::Eq => r.append("Eq"),
        Instruction::Neq => r.append("Neq"),
        Instruction::Gt => r.append("Gt"),
        Instruction::Lt => r.append("Lt"),
        Instruction::Gte => r.append("Gte"),
        Instruction::Lte => r.append("Lte"),
        Instruction::Pop => r.append("Pop"),
        Instruction::Print => r.append("Print"),
        Instruction::DefineGlobal(k) => append_with_operand(r, "DefineGlobal", k),
        Instruction::GetGlobal(k) => append_with_operand(r, "GetGlobal", k),
        Instruction::SetGlobal(k) => append_with_operand(r, "SetGlobal", k),
        Instruction::GetProperty(k) => append_with_operand(r, "GetProperty", k),
        Instruction::GetIndex => r.append("GetIndex"),
        Instruction::GetLocal(k) => append_with_operand(r, "GetLocal", k),
        Instruction::SetLocal(k) => append_with_operand(r, "SetLocal", k),
        Instruction::Jump(k) => append_with_operand(r, "Jump", k),
        Instruction::JumpIfFalse(k) => append_with_operand(r, "JumpIfFalse", k),
        Instruction::Call(k) => append_with_operand(r, "Call", k),
        Instruction::Return => r.append("Return"),
        Instruction::Love(k) => append_with_operand(r, "Love", k),
        Instruction::Export(k) => append_with_operand(r, "Export", k),
    }
}

fn append_code(r: &mut String, code: &Vec<Instruction>)
    ensures
        final(r)@ == old(r)@ + code_debug(code@),
{
    let ghost items = Seq::new(code@.len(), |k: int| instruction_debug(code@[k]));
    let ghost r0 = r@;
    r.append("[");
    let ghost base = r@;
    let mut i: usize = 0;
    while i < code.len()
        invariant
            i <= code@.len(),
            items == Seq::new(code@.len(), |k: int| instruction_debug(code@[k])),
            r@ == base + joined(items.subrange(0, i as int)),
        decreases code@.len() - i,
    {
        let ghost before = r@;
        if i > 0 {
            r.append(", ");
        }
        append_instruction(r, code[i]);
        proof { lemma_list_step(base, items, i as int, before, r@); }
        i = i + 1;
    }
    r.append("]");
    assert(items.subrange(0, code@.len() as int) =~= items);
    assert(r@ =~= r0 + code_debug(code@));
}

fn append_strings(r: &mut String, ss: &Vec<String>)
    ensures
        final(r)@ == old(r)@ + strings_debug(strings_view(ss@)),
{
    let ghost items = Seq::new(ss@.len(), |k: int| string_debug(ss@[k]@));
    let ghost r0 = r@;
    r.append("[");
    let ghost base = r@;
    let mut i: usize = 0;
    while i < ss.len()
        invariant
            i <= ss@.len(),
            items == Seq::new(ss@.len(), |k: int| string_debug(ss@[k]@)),
            r@ == base + joined(items.subrange(0, i as int)),
        decreases ss@.len() - i,
    {
        let ghost before = r@;
        if i > 0 {
            r.append(", ");
        }
        append_string_debug(r, &ss[i]);
        proof { lemma_list_step(base, items, i as int, before, r@); }
        i = i + 1;
    }
    r.append("]");
    assert(items.subrange(0, ss@.len() as int) =~= items);
    let ghost sv = strings_view(ss@);
    assert(Seq::new(sv.len(), |k: int| string_debug(sv[k])) =~= items);
    assert(r@ =~= r0 + strings_debug(strings_view(ss@)));
}

fn append_expr<F: Fn(u64) -> String>(r: &mut String, e: &Expr, dbg: &F)
    requires
        is_renderer(*dbg),
    ensures
        final(r)@ == old(r)@ + expr_debug(e@, renderer_of(*dbg)),
    decreases e, 1nat,
{
    let ghost r0 = r@;
    let ghost nd = renderer_of(*dbg);
    match e {
        Expr::Number(n) => {
            r.append("Number(");
            append_number(r, *n, dbg);
            r.append(")");
        },
        Expr::Boolean(b) => if *b { r.append("Boolean(true)") } else { r.append("Boolean(false)") },
        Expr::String(s) => {
            r.append("String(");
            append_string_debug(r, s);
            r.append(")");
        },
        Expr::Identifier(s) => {
            r.append("Identifier(");
            append_string_debug(r, s);
            r.append(")");
        },
        Expr::Member { object, property } => {
            r.append("Member { object: ");
            append_expr(r, object, dbg);
            r.append(", property: ");
            append_string_debug(r, property);
            r.append(" }");
        },
        Expr::Index { object, index } => {
            r.append("Index { object: ");
            append_expr(r, object, dbg);
            r.append(", index: ");
            append_expr(r, index, dbg);
            r.append(" }");
        },
        Expr::BinaryOp { left, op, right } => {
            r.append("BinaryOp { left: ");
            append_expr(r, left, dbg);
            r.append(", op: ");
            append_binop(r, *op);
            r.append(", right: ");
            append_expr(r, right, dbg);
            r.append(" }");
        },
        Expr::FunctionCall { callee, args } => {
            r.append("FunctionCall { callee: ");
            append_expr(r, callee, dbg);
            r.append(", args: ");
            append_exprs(r, args, dbg);
            r.append(" }");
            proof { lemma_call_view(**callee, *args); }
        },
    }
    assert(r@ =~= r0 + expr_debug(e@, nd));
}

fn append_exprs<F: Fn(u64) -> String>(r: &mut String, es: &Vec<Expr>, dbg: &F)
    requires
        is_renderer(*dbg),
    ensures
        final(r)@ == old(r)@ + exprs_debug(exprs_view(es@), renderer_of(*dbg)),
    decreases es, 0nat,
{
    let ghost nd = renderer_of(*dbg);
    let ghost ev = exprs_view(es@);
    let ghost r0 = r@;
    r.append("[");
    let ghost base = r@;
    let mut i: usize = 0;
    while i < es.len()
        invariant
            i <= es@.len(),
            is_renderer(*dbg),
            nd == renderer_of(*dbg),
            ev == exprs_view(es@),
            r@ == base + exprs_joined(ev.subrange(0, i as int), nd),
        decreases es@.len() - i,
    {
        let ghost before = r@;
        if i > 0 {
            r.append(", ");
        }
        proof { assert(decreases_to!(*es => es@[i as int])); }
        append_expr(r, &es[i], dbg);
        proof {
            let sub = ev.subrange(0, i as int + 1);
            assert(sub.drop_last() =~= ev.subrange(0, i as int));
            assert(sub.last() == es@[i as int]@);
            if i == 0 {
                assert(ev.subrange(0, 0) =~= Seq::<ExprView>::empty());
            }
            assert(r@ =~= base + exprs_joined(sub, nd));
        }
        i = i + 1;
    }
    r.append("]");
    assert(ev.subrange(0, es@.len() as int) =~= ev);
    assert(r@ =~= r0 + exprs_debug(exprs_view(es@), nd));
}

fn append_stmts<F: Fn(u64) -> String>(r: &mut String, ss: &Vec<Stmt>, dbg: &F)
    requires
        is_renderer(*dbg),
    ensures
        final(r)@ == old(r)@ + stmts_debug(stmts_view(ss@), renderer_of(*dbg)),
    decreases ss, 0nat,
{
    let ghost nd = renderer_of(*dbg);
    let ghost sv = stmts_view(ss@);
    let ghost r0 = r@;
    r.append("[");
    let ghost base = r@;
    let mut i: usize = 0;
    while i < ss.len()
        invariant
            i <= ss@.len(),
            is_renderer(*dbg),
            nd == renderer_of(*dbg),
            sv == stmts_view(ss@),
            r@ == base + stmts_joined(sv.subrange(0, i as int), nd),
        decreases ss@.len() - i,
    {
        let ghost before = r@;
        if i > 0 {
            r.append(", ");
        }
        proof { assert(decreases_to!(*ss => ss@[i as int])); }
        append_stmt(r, &ss[i], dbg);
        proof {
            let sub = sv.subrange(0, i as int + 1);
            assert(sub.drop_last() =~= sv.subrange(0, i as int));
            assert(sub.last() == ss@[i as int]@);
            if i == 0 {
                assert(sv.subrange(0, 0) =~= Seq::<StmtView>::empty());
            }
            assert(r@ =~= base + stmts_joined(sub, nd));
        }
        i = i + 1;
    }
    r.append("]");
    assert(sv.subrange(0, ss@.len() as int) =~= sv);
    assert(r@ =~= r0 + stmts_debug(stmts_view(ss@), nd));
}

#[verifier::rlimit(40)]
fn append_stmt<F: Fn(u64) -> String>(r: &mut String, s: &Stmt, dbg: &F)
    requires
        is_renderer(*dbg),
    ensures
        final(r)@ == old(r)@ + stmt_debug(s@, renderer_of(*dbg)),
    decreases s, 1nat,
{
    let ghost r0 = r@;
    let ghost nd = renderer_of(*dbg);
    match s {
        Stmt::Let { name, value } => {
            r.append("Let { name: ");
            append_string_debug(r, name);
            r.append(", value: ");
            append_expr(r, value, dbg);
            r.append(" }");
            assert(r@ =~= r0 + stmt_debug(s@, nd));
        },
        Stmt::Assignment { name, value } => {
            r.append("Assignment { name: ");
            append_string_debug(r, name);
            r.append(", value: ");
            append_expr(r, value, dbg);
            r.append(" }");
            assert(r@ =~= r0 + stmt_debug(s@, nd));
        },
        Stmt::Print(e) => {
            r.append("Print(");
            append_expr(r, e, dbg);
            r.append(")");
            assert(r@ =~= r0 + stmt_debug(s@, nd));
        },
        Stmt::Expression(e) => {
            r.append("Expression(");
            append_expr(r, e, dbg);
            r.append(")");
            assert(r@ =~= r0 + stmt_debug(s@, nd));
        },
        Stmt::FunctionDef { name, params, body } => {
            r.append("FunctionDef { name: ");
            append_string_debug(r, name);
            r.append(", params: ");
            append_strings(r, params);
            r.append(", body: ");
            append_stmts(r, body, dbg);
            r.append(" }");
            proof { lemma_fn_view(*name, *params, *body); }
            assert(r@ =~= r0 + stmt_debug(s@, nd));
        },
        Stmt::Love(p) => {
            r.append("Love(");
            append_string_debug(r, p);
            r.append(")");
            assert(r@ =~= r0 + stmt_debug(s@, nd));
        },
        Stmt::Export(n) => {
            r.append("Export(");
            append_string_debug(r, n);
            r.append(")");
            assert(r@ =~= r0 + stmt_debug(s@, nd));
        },
        Stmt::Return(e) => {
            r.append("Return(");
            append_expr(r, e, dbg);
            r.append(")");
            assert(r@ =~= r0 + stmt_debug(s@, nd));
        },
        Stmt::If { condition, then_body, else_body } => {
            r.append("If { condition: ");
            append_expr(r, condition, dbg);
            r.append(", then_body: ");
            append_stmts(r, then_body, dbg);
            r.append(", else_body: ");
            let ghost mid = r@;
            match else_body {
                Some(eb) => {
                    r.append("Some(");
                    append_stmts(r, eb, dbg);
                    r.append(")");
                },
                None => r.append("None"),
            }
            proof {
                let ev: Option<Seq<StmtView>> = match else_body { Some(eb) => Some(stmts_view(eb@)), None => None };
                assert(r@ =~= mid + match ev {
                    Some(eb) => "Some("@ + stmts_debug(eb, nd) + ")"@,
                    None => "None"@,
                });
            }
            r.append(" }");
            proof { lemma_if_view(*condition, *then_body, *else_body); }
            assert(r@ =~= r0 + stmt_debug(s@, nd));
        },
        Stmt::While { condition, body } => {
            r.append("While { condition: ");
            append_expr(r, condition, dbg);
            r.append(", body: ");
            append_stmts(r, body, dbg);
            r.append(" }");
            proof { lemma_while_view(*condition, *body); }
            assert(r@ =~= r0 + stmt_debug(s@, nd));
        },
        Stmt::Block(ss) => {
            r.append("Block(");
            append_stmts(r, ss, dbg);
            r.append(")");
            proof { lemma_block_view(*ss); }
            assert(r@ =~= r0 + stmt_debug(s@, nd));
        },
    }
}

/// Appends the debugging text of `v`; numbers are rendered by `dbg`.
pub fn append_value<F: Fn(u64) -> String>(r: &mut String, v: &Value, dbg: &F)
    requires
        is_renderer(*dbg),
    ensures
        final(r)@ == old(r)@ + value_debug(value_view(*v), renderer_of(*dbg)),
    decreases v, 2nat,
{
    let ghost r0 = r@;
    let ghost nd = renderer_of(*dbg);
    match v {
        Value::Number(n) => {
            r.append("Number(");
            append_number(r, *n, dbg);
            r.append(")");
        },
        Value::Boolean(b) => if *b { r.append("Boolean(true)") } else { r.append("Boolean(false)") },
        Value::String(s) => {
            r.append("String(");
            append_string_debug(r, s);
            r.append(")");
        },
        Value::NativeFunction { name, arity, .. } => {
            r.append("NativeFunction { name: ");
            append_string_debug(r, name);
            r.append(", arity: ");
            append_decimal(r, *arity);
            r.append(", .. }");
        },
        Value::Function { name, params, body } => {
            r.append("Function { name: ");
            append_string_debug(r, name);
            r.append(", params: ");
            append_strings(r, &**params);
            r.append(", body: ");
            append_stmts(r, &**body, dbg);
            r.append(" }");
        },
        Value::CompiledFunction { name, arity, chunk, module } => {
            r.append("CompiledFunction { name: ");
            append_string_debug(r, name);
            r.append(", arity: ");
            append_decimal(r, *arity);
            r.append(", chunk: ");
            append_chunk(r, &**chunk, dbg);
            r.append(", module_path: ");
            match module {
                Some(p) => {
                    r.append("Some(");
                    append_string_debug(r, p);
                    r.append(")");
                },
                None => r.append("None"),
            }
            r.append(" }");
            proof { lemma_compiled_value(*v); }
        },
        Value::Namespace(b) => {
            append_namespace(r, &**b, dbg);
            proof { lemma_namespace_value(*v); }
        },
    }
    assert(r@ =~= r0 + value_debug(value_view(*v), nd));
}

fn append_chunk<F: Fn(u64) -> String>(r: &mut String, c: &Chunk, dbg: &F)
    requires
        is_renderer(*dbg),
    ensures
        final(r)@ == old(r)@ + chunk_debug(chunk_view(*c), renderer_of(*dbg)),
    decreases c, 1nat,
{
    let ghost r0 = r@;
    r.append("Chunk { code: ");
    append_code(r, &c.code);
    r.append(", constants: ");
    append_values(r, &c.constants, dbg);
    r.append(" }");
    assert(r@ =~= r0 + chunk_debug(chunk_view(*c), renderer_of(*dbg)));
}

fn append_values<F: Fn(u64) -> String>(r: &mut String, vs: &Vec<Value>, dbg: &F)
    requires
        is_renderer(*dbg),
    ensures
        final(r)@ == old(r)@ + values_debug(values_view(vs@), renderer_of(*dbg)),
    decreases vs, 0nat,
{
    let ghost nd = renderer_of(*dbg);
    let ghost vv = values_view(vs@);
    let ghost r0 = r@;
    r.append("[");
    let ghost base = r@;
    let mut i: usize = 0;
    while i < vs.len()
        invariant
            i <= vs@.len(),
            is_renderer(*dbg),
            nd == renderer_of(*dbg),
            vv == values_view(vs@),
            r@ == base + values_joined(vv.subrange(0, i as int), nd),
        decreases vs@.len() - i,
    {
        let ghost before = r@;
        if i > 0 {
            r.append(", ");
        }
        proof { assert(decreases_to!(*vs => vs@[i as int])); }
        append_value(r, &vs[i], dbg);
        proof {
            let sub = vv.subrange(0, i as int + 1);
            assert(sub.drop_last() =~= vv.subrange(0, i as int));
            assert(sub.last() == value_view(vs@[i as int]));
            if i == 0 {
                assert(vv.subrange(0, 0) =~= Seq::<ValueView>::empty());
            }
            assert(r@ =~= base + values_joined(sub, nd));
        }
        i = i + 1;
    }
    r.append("]");
    assert(vv.subrange(0, vs@.len() as int) =~= vv);
    assert(r@ =~= r0 + values_debug(values_view(vs@), nd));
}

// ---- ordering texts ---------------------------------------------------------------

proof fn lemma_lt_irreflexive(a: Seq<char>)
    ensures
        !str_lt(a, a),
    decreases a.len(),
{
    if a.len() > 0 {
        lemma_lt_irreflexive(a.drop_first());
    }
}

proof fn lemma_lt_transitive(a: Seq<char>, b: Seq<char>, c: Seq<char>)
    requires
        str_lt(a, b),
        str_lt(b, c),
    ensures
        str_lt(a, c),
    decreases a.len(),
{
    if a.len() > 0 && b.len() > 0 && c.len() > 0 && a[0] == b[0] && b[0] == c[0] {
        lemma_lt_transitive(a.drop_first(), b.drop_first(), c.drop_first());
    }
}

proof fn lemma_lt_total(a: Seq<char>, b: Seq<char>)
    requires
        a != b,
    ensures
        str_lt(a, b) || str_lt(b, a),
    decreases a.len(),
{
    if a.len() == 0 && b.len() == 0 {
        assert(a =~= b);
    } else if a.len() > 0 && b.len() > 0 && a[0] == b[0] {
        if a.drop_first() == b.drop_first() {
            assert(a =~= seq![a[0]] + a.drop_first());
            assert(b =~= seq![b[0]] + b.drop_first());
        }
        lemma_lt_total(a.drop_first(), b.drop_first());
    }
}

/// Two increasing sequences of the same texts are the same sequence.
proof fn lemma_sorted_unique(a: Seq<Seq<char>>, b: Seq<Seq<char>>)
    requires
        strictly_sorted(a),
        strictly_sorted(b),
        forall|k: Seq<char>| a.contains(k) <==> b.contains(k),
    ensures
        a == b,
    decreases a.len(),
{
    if a.len() == 0 {
        if b.len() > 0 {
            assert(b.contains(b[0]));
        }
        assert(a =~= b);
    } else {
        assert(a.contains(a[0]));
        assert(b.len() > 0);
        if a[0] != b[0] {
            assert(b.contains(b[0]));
            let j = choose|j: int| 0 <= j < b.len() && b[j] == a[0];
            let i = choose|i: int| 0 <= i < a.len() && a[i] == b[0];
            assert(str_lt(b[0], b[j]));
            assert(str_lt(a[0], a[i]));
            lemma_lt_transitive(a[0], b[0], a[0]);
            lemma_lt_irreflexive(a[0]);
        }
        let a1 = a.drop_first();
        let b1 = b.drop_first();
        assert forall|k: Seq<char>| a1.contains(k) implies b1.contains(k) by {
            let i = choose|i: int| 0 <= i < a1.len() && a1[i] == k;
            assert(a[i + 1] == k);
            assert(a.contains(k));
            let j = choose|j: int| 0 <= j < b.len() && b[j] == k;
            if j == 0 {
                assert(str_lt(a[0], a[i + 1]));
                lemma_lt_irreflexive(k);
            }
            assert(b1[j - 1] == k);
        }
        assert forall|k: Seq<char>| b1.contains(k) implies a1.contains(k) by {
            let j = choose|j: int| 0 <= j < b1.len() && b1[j] == k;
            assert(b[j + 1] == k);
            assert(b.contains(k));
            let i = choose|i: int| 0 <= i < a.len() && a[i] == k;
            if i == 0 {
                assert(str_lt(b[0], b[j + 1]));
                lemma_lt_irreflexive(k);
            }
            assert(a1[i - 1] == k);
        }
        assert(strictly_sorted(a1)) by {
            assert forall|i: int, j: int| 0 <= i < j < a1.len() implies str_lt(#[trigger] a1[i], #[trigger] a1[j]) by {
                assert(a1[i] == a[i + 1] && a1[j] == a[j + 1]);
            }
        }
        assert(strictly_sorted(b1)) by {
            assert forall|i: int, j: int| 0 <= i < j < b1.len() implies str_lt(#[trigger] b1[i], #[trigger] b1[j]) by {
                assert(b1[i] == b[i + 1] && b1[j] == b[j + 1]);
            }
        }
        lemma_sorted_unique(a1, b1);
        assert(a =~= seq![a[0]] + a1);
        assert(b =~= seq![b[0]] + b1);
    }
}

proof fn lemma_lt_step(a: Seq<char>, b: Seq<char>, i: int)
    requires
        0 <= i < a.len(),
        i < b.len(),
        a[i] == b[i],
    ensures
        str_lt(a.skip(i), b.skip(i)) == str_lt(a.skip(i + 1), b.skip(i + 1)),
{
    assert(a.skip(i).drop_first() =~= a.skip(i + 1));
    assert(b.skip(i).drop_first() =~= b.skip(i + 1));
}

/// Whether `a` comes before `b`.
fn str_less(a: &String, b: &String) -> (r: bool)
    ensures
        r == str_lt(a@, b@),
{
    let x = chars_of(a.as_str());
    let y = chars_of(b.as_str());
    let mut i: usize = 0;
    assert(a@.skip(0) =~= a@);
    assert(b@.skip(0) =~= b@);
    while i < x.len() && i < y.len() && x[i] == y[i]
        invariant
            i <= x@.len(),
            i <= y@.len(),
            x@ == a@,
            y@ == b@,
            str_lt(a@, b@) == str_lt(a@.skip(i as int), b@.skip(i as int)),
        decreases x@.len() - i,
    {
        proof { lemma_lt_step(a@, b@, i as int); }
        i = i + 1;
    }
    if i == y.len() {
        false
    } else if i == x.len() {
        true
    } else {
        x[i] < y[i]
    }
}

/// `s` holds the index `j`.
spec fn holds_index(s: Seq<usize>, j: int) -> bool {
    exists|q: int| 0 <= q < s.len() && s[q] == j
}

/// The entry indices of `b` in increasing order of their keys.
fn sorted_order<V>(b: &Bindings<V>) -> (order: Vec<usize>)
    ensures
        order@.len() == b.entries@.len(),
        forall|q: int| 0 <= q < order@.len() ==> #[trigger] order@[q] < b.entries@.len(),
        forall|j: int| 0 <= j < b.entries@.len() ==> #[trigger] holds_index(order@, j),
        forall|p: int, q: int| 0 <= p < q < order@.len() ==>
            str_lt(#[trigger] b.entries@[order@[p] as int].0@, #[trigger] b.entries@[order@[q] as int].0@),
{
    proof { use_type_invariant(b); }
    let n = b.entries.len();
    let mut order: Vec<usize> = Vec::new();
    let mut i: usize = 0;
    while i < n
        invariant
            n == b.entries@.len(),
            b.keys_distinct(),
            i <= n,
            order@.len() == i,
            forall|q: int| 0 <= q < order@.len() ==> #[trigger] order@[q] < i,
            forall|j: int| 0 <= j < i ==> #[trigger] holds_index(order@, j),
            forall|p: int, q: int| 0 <= p < q < order@.len() ==>
                str_lt(#[trigger] b.entries@[order@[p] as int].0@, #[trigger] b.entries@[order@[q] as int].0@),
        decreases n - i,
    {
        let ghost ki = b.entries@[i as int].0@;
        let mut p: usize = 0;
        while p < order.len() && str_less(&b.entries[order[p]].0, &b.entries[i].0)
            invariant
                n == b.entries@.len(),
                i < n,
                ki == b.entries@[i as int].0@,
                p <= order@.len(),
                forall|q: int| 0 <= q < order@.len() ==> #[trigger] order@[q] < i,
                forall|q: int| 0 <= q < p ==> str_lt(#[trigger] b.entries@[order@[q] as int].0@, ki),
            decreases order@.len() - p,
        {
            p = p + 1;
        }
        let ghost old_order = order@;
        proof {
            if p < old_order.len() {
                let kp = b.entries@[old_order[p as int] as int].0@;
                assert(old_order[p as int] != i);
                assert(kp != ki);
                lemma_lt_total(kp, ki);
                assert(str_lt(ki, kp));
            }
        }
        order.insert(p, i);
        proof {
            assert forall|q: int| 0 <= q < order@.len() implies #[trigger] order@[q] < i + 1 by {
                if q < p { assert(order@[q] == old_order[q]); }
                else if q > p { assert(order@[q] == old_order[q - 1]); }
            }
            assert forall|j: int| 0 <= j < i + 1 implies #[trigger] holds_index(order@, j) by {
                if j == i {
                    assert(order@[p as int] == j);
                } else {
                    assert(holds_index(old_order, j));
                    let q0 = choose|q: int| 0 <= q < old_order.len() && old_order[q] == j;
                    if q0 < p {
                        assert(order@[q0] == j);
                    } else {
                        assert(order@[q0 + 1] == j);
                    }
                }
            }
            assert forall|x: int, y: int| 0 <= x < y < order@.len() implies
                str_lt(#[trigger] b.entries@[order@[x] as int].0@, #[trigger] b.entries@[order@[y] as int].0@) by {
                let kx = b.entries@[order@[x] as int].0@;
                let ky = b.entries@[order@[y] as int].0@;
                if y < p {
                    assert(order@[x] == old_order[x] && order@[y] == old_order[y]);
                } else if y == p {
                    assert(order@[x] == old_order[x]);
                } else if x < p {
                    assert(order@[x] == old_order[x] && order@[y] == old_order[y - 1]);
                    let kp = b.entries@[old_order[p as int] as int].0@;
                    assert(str_lt(kx, ki));
                    assert(str_lt(ki, kp));
                    if y - 1 > p {
                        assert(str_lt(kp, ky));
                        lemma_lt_transitive(ki, kp, ky);
                    }
                    lemma_lt_transitive(kx, ki, ky);
                } else if x == p {
                    assert(order@[y] == old_order[y - 1]);
                    let kp = b.entries@[old_order[p as int] as int].0@;
                    if y - 1 > p {
                        assert(str_lt(kp, ky));
                        lemma_lt_transitive(ki, kp, ky);
                    }
                } else {
                    assert(order@[x] == old_order[x - 1] && order@[y] == old_order[y - 1]);
                }
            }
        }
        i = i + 1;
    }
    order
}

/// Appends `Namespace({"key": value, ...})`, the keys in increasing order.
fn append_namespace<F: Fn(u64) -> String>(r: &mut String, b: &Bindings<Value>, dbg: &F)
    requires
        is_renderer(*dbg),
    ensures
        final(r)@ == old(r)@ + "Namespace({"@
            + entries_joined(sorted_keys(deep(b@)), deep(b@), renderer_of(*dbg)) + "})"@,
    decreases b, 1nat,
{
    proof { use_type_invariant(b); b.lemma_keys(); }
    let ghost nd = renderer_of(*dbg);
    let ghost m = deep(b@);
    let order = sorted_order(b);
    let ghost ks = Seq::new(order@.len(), |q: int| b.entries@[order@[q] as int].0@);
    proof {
        assert(m.dom() =~= b@.dom());
        assert(strictly_sorted(ks));
        assert forall|k: Seq<char>| #[trigger] m.dom().contains(k) <==> ks.contains(k) by {
            if m.dom().contains(k) {
                let j = choose|j: int| 0 <= j < b.entries@.len() && b.entries@[j].0@ == k;
                assert(holds_index(order@, j));
                let q = choose|q: int| 0 <= q < order@.len() && order@[q] == j;
                assert(ks[q] == k);
            }
            if ks.contains(k) {
                let q = choose|q: int| 0 <= q < ks.len() && ks[q] == k;
                b.lemma_entry(order@[q] as int);
            }
        }
        let sk = sorted_keys(m);
        assert(strictly_sorted(sk) && (forall|k: Seq<char>| #[trigger] m.dom().contains(k) <==> sk.contains(k)));
        assert forall|k: Seq<char>| sk.contains(k) <==> ks.contains(k) by {
            assert(m.dom().contains(k) <==> sk.contains(k));
            assert(m.dom().contains(k) <==> ks.contains(k));
        }
        lemma_sorted_unique(sk, ks);
    }
    let ghost r0 = r@;
    r.append("Namespace({");
    let ghost base = r@;
    let mut i: usize = 0;
    while i < order.len()
        invariant
            is_renderer(*dbg),
            nd == renderer_of(*dbg),
            b.keys_distinct(),
            m == deep(b@),
            m.dom().finite(),
            i <= order@.len(),
            order@.len() == b.entries@.len(),
            forall|q: int| 0 <= q < order@.len() ==> #[trigger] order@[q] < b.entries@.len(),
            ks == Seq::new(order@.len(), |q: int| b.entries@[order@[q] as int].0@),
            r@ == base + entries_joined(ks.subrange(0, i as int), m, nd),
        decreases order@.len() - i,
    {
        let ghost before = r@;
        if i > 0 {
            r.append(", ");
        }
        let j = order[i];
        proof {
            assert(j < b.entries@.len());
            b.lemma_entry(j as int);
            assert(decreases_to!(b.entries => b.entries@[j as int]));
        }
        append_string_debug(r, &b.entries[j].0);
        r.append(": ");
        append_value(r, &b.entries[j].1, dbg);
        proof {
            let k = ks[i as int];
            assert(k == b.entries@[j as int].0@);
            assert(m.dom().contains(k));
            assert(m[k] == value_view(b.entries@[j as int].1));
            let sub = ks.subrange(0, i as int + 1);
            assert(sub.drop_last() =~= ks.subrange(0, i as int));
            assert(sub.last() == k);
            if i == 0 {
                assert(ks.subrange(0, 0) =~= Seq::<Seq<char>>::empty());
            }
            assert(r@ =~= base + entries_joined(sub, m, nd));
        }
        i = i + 1;
    }
    r.append("})");
    assert(ks.subrange(0, order@.len() as int) =~= ks);
    assert(r@ =~= r0 + "Namespace({"@ + entries_joined(sorted_keys(deep(b@)), deep(b@), nd) + "})"@);
}

} // verus!
