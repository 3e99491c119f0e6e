use vstd::prelude::*;
use std::rc::Rc;
use crate::ast::{BinOp, Expr, Stmt, ExprView, StmtView, exprs_view, stmts_view, lemma_call_view, copy_strings, copy_stmts};
use crate::value::{Value, ValueView, value_view, deep, display_view, debug_view, is_renderer, renderer_of};
use crate::environment::{Environment, Scopes, lookup_scopes, assign_scopes};
use crate::vm::{ArithOp, CompareOp, is_zero_bits};
use crate::text::{decimal, append_decimal};

verus! {

broadcast use vstd::std_specs::vec::group_vec_axioms;

// ---- the semantics, as mathematics -------------------------------------------

/// How a statement ends: normally, or by `return` with a value.
pub enum Flow {
    Normal,
    Return(Value),
}

/// The view of how a statement ends.
pub enum FlowView {
    Normal,
    Return(ValueView),
}

/// A chain of scopes of value views, innermost first.
pub type ScopesView = Seq<Map<Seq<char>, ValueView>>;

/// The state of a run: the scope chain and the values printed so far.
pub struct IState {
    pub scopes: ScopesView,
    pub out: Seq<ValueView>,
}

/// What the host computes for the interpreter: number rendering for
/// messages, arithmetic and comparison on `f64` bits.
pub struct Ops {
    pub dbg: spec_fn(u64) -> Seq<char>,
    pub arith: spec_fn(ArithOp, u64, u64) -> u64,
    pub rel: spec_fn(CompareOp, u64, u64) -> bool,
}

pub open spec fn expr_size(e: ExprView) -> nat
    decreases e,
{
    match e {
        ExprView::Member { object, .. } => 1 + expr_size(*object),
        ExprView::Index { object, index } => 1 + expr_size(*object) + expr_size(*index),
        ExprView::BinaryOp { left, right, .. } => 1 + expr_size(*left) + expr_size(*right),
        ExprView::FunctionCall { callee, args } => 1 + expr_size(*callee) + exprs_size(args),
        _ => 1,
    }
}

pub open spec fn exprs_size(es: Seq<ExprView>) -> nat
    decreases es,
{
    if es.len() == 0 { 0 } else { exprs_size(es.drop_last()) + expr_size(es.last()) + 1 }
}

pub open spec fn stmt_size(s: StmtView) -> nat
    decreases s,
{
    match s {
        StmtView::Let { value, .. } => 1 + expr_size(value),
        StmtView::Assignment { value, .. } => 1 + expr_size(value),
        StmtView::Print(e) => 1 + expr_size(e),
        StmtView::Expression(e) => 1 + expr_size(e),
        StmtView::Return(e) => 1 + expr_size(e),
        StmtView::If { condition, then_body, else_body } => 1 + expr_size(condition) + stmts_size(then_body) + match else_body {
            Some(eb) => stmts_size(eb),
            None => 0,
        },
        StmtView::While { condition, body } => 2 + expr_size(condition) + stmts_size(body),
        StmtView::Block(ss) => 2 + stmts_size(ss),
        _ => 1,
    }
}

pub open spec fn stmts_size(ss: Seq<StmtView>) -> nat
    decreases ss,
{
    if ss.len() == 0 { 0 } else { stmt_size(ss[0]) + stmts_size(ss.drop_first()) + 1 }
}

/// The value `name` has in the innermost scope that binds it.
pub open spec fn lookup_view(scopes: ScopesView, name: Seq<char>) -> Option<ValueView>
    decreases scopes.len(),
{
    if scopes.len() == 0 {
        None
    } else if scopes[0].contains_key(name) {
        Some(scopes[0][name])
    } else {
        lookup_view(scopes.drop_first(), name)
    }
}

/// The scopes after rebinding `name` where it is bound innermost.
pub open spec fn assign_view(scopes: ScopesView, name: Seq<char>, v: ValueView) -> Option<ScopesView>
    decreases scopes.len(),
{
    if scopes.len() == 0 {
        None
    } else if scopes[0].contains_key(name) {
        Some(scopes.update(0, scopes[0].insert(name, v)))
    } else {
        match assign_view(scopes.drop_first(), name, v) {
            Some(rest) => Some(seq![scopes[0]] + rest),
            None => None,
        }
    }
}

/// Truthiness for the interpreter: only `false` and zero are false; every other value is true.
pub open spec fn truthy_value(v: ValueView) -> bool {
    match v {
        ValueView::Boolean(b) => b,
        ValueView::Number(n) => !is_zero_bits(n),
        _ => true,
    }
}

pub open spec fn with_scopes(st: IState, sc: ScopesView) -> IState {
    IState { scopes: sc, out: st.out }
}

/// Enters a new innermost scope.
pub open spec fn enter(st: IState) -> IState {
    with_scopes(st, seq![Map::<Seq<char>, ValueView>::empty()] + st.scopes)
}

/// Leaves the innermost scope (a lone scope is replaced by an empty one).
pub open spec fn leave(st: IState) -> IState {
    if st.scopes.len() > 1 {
        with_scopes(st, st.scopes.drop_first())
    } else {
        with_scopes(st, seq![Map::<Seq<char>, ValueView>::empty()])
    }
}

/// Defines `name` in the innermost scope.
pub open spec fn define(st: IState, name: Seq<char>, v: ValueView) -> IState {
    with_scopes(st, st.scopes.update(0, st.scopes[0].insert(name, v)))
}

pub open spec fn undefined_msg(name: Seq<char>) -> Seq<char> {
    "Undefined variable: '"@ + name + "'"@
}

pub open spec fn limit_msg() -> Seq<char> {
    "Execution limit reached"@
}

/// Binds parameters to arguments in order in the innermost scope.
pub open spec fn bind_params(st: IState, params: Seq<Seq<char>>, args: Seq<ValueView>) -> IState
    decreases params.len(),
{
    if params.len() == 0 || args.len() == 0 {
        st
    } else {
        define(bind_params(st, params.drop_last(), args.drop_last()), params.last(), args.last())
    }
}

/// The number in `v`, or the error message for a non-number.
pub open spec fn number_of_value(v: ValueView) -> Result<u64, Seq<char>> {
    match v {
        ValueView::Number(n) => Ok(n),
        other => Err("Expected a number, got "@ + display_view(other, |n: u64| Seq::<char>::empty())),
    }
}

pub open spec fn binary(l: ValueView, op: BinOp, r: ValueView, ops: Ops) -> Result<ValueView, Seq<char>> {
    match number_of_value(l) {
        Err(m) => Err(m),
        Ok(a) => match number_of_value(r) {
            Err(m) => Err(m),
            Ok(b) => match op {
                BinOp::Add => Ok(ValueView::Number((ops.arith)(ArithOp::Add, a, b))),
                BinOp::Sub => Ok(ValueView::Number((ops.arith)(ArithOp::Sub, a, b))),
                BinOp::Mul => Ok(ValueView::Number((ops.arith)(ArithOp::Mul, a, b))),
                BinOp::Div => if is_zero_bits(b) {
                    Err("Runtime error: division by zero"@)
                } else {
                    Ok(ValueView::Number((ops.arith)(ArithOp::Div, a, b)))
                },
                BinOp::Eq => Ok(ValueView::Boolean((ops.rel)(CompareOp::Eq, a, b))),
                BinOp::Neq => Ok(ValueView::Boolean((ops.rel)(CompareOp::Neq, a, b))),
                BinOp::Gt => Ok(ValueView::Boolean((ops.rel)(CompareOp::Gt, a, b))),
                BinOp::Lt => Ok(ValueView::Boolean((ops.rel)(CompareOp::Lt, a, b))),
                BinOp::Gte => Ok(ValueView::Boolean((ops.rel)(CompareOp::Gte, a, b))),
                BinOp::Lte => Ok(ValueView::Boolean((ops.rel)(CompareOp::Lte, a, b))),
            },
        },
    }
}

/// Evaluates an expression. Calls may nest at most `fuel` deep.
pub open spec fn eval(e: ExprView, st: IState, fuel: nat, ops: Ops) -> (IState, Result<ValueView, Seq<char>>)
    decreases fuel, expr_size(e),
{
    match e {
        ExprView::Number(n) => (st, Ok(ValueView::Number(n))),
        ExprView::Boolean(b) => (st, Ok(ValueView::Boolean(b))),
        ExprView::String(s) => (st, Ok(ValueView::String(s))),
        ExprView::Identifier(name) => match lookup_view(st.scopes, name) {
            Some(v) => (st, Ok(v)),
            None => (st, Err(undefined_msg(name))),
        },
        ExprView::Member { .. } => (st, Err("Interpreter does not support member access"@)),
        ExprView::Index { .. } => (st, Err("Interpreter does not support index access"@)),
        ExprView::BinaryOp { left, op, right } => {
            let (st1, l) = eval(*left, st, fuel, ops);
            match l {
                Err(m) => (st1, Err(m)),
                Ok(lv) => {
                    let (st2, r) = eval(*right, st1, fuel, ops);
                    match r {
                        Err(m) => (st2, Err(m)),
                        Ok(rv) => (st2, binary(lv, op, rv, ops)),
                    }
                },
            }
        },
        ExprView::FunctionCall { callee, args } => {
            let (st1, c) = eval(*callee, st, fuel, ops);
            match c {
                Err(m) => (st1, Err(m)),
                Ok(cv) => {
                    let (st2, a) = eval_args(args, st1, fuel, ops);
                    match a {
                        Err(m) => (st2, Err(m)),
                        Ok(avs) => match cv {
                            ValueView::Function { .. } => call(cv, avs, st2, fuel, ops),
                            ValueView::NativeFunction { .. } =>
                                (st2, Err("Interpreter does not support calling VM NativeFunctions"@)),
                            other => (st2, Err("Cannot call '"@ + debug_view(other, ops.dbg)
                                + "' — it is not a function"@)),
                        },
                    }
                },
            }
        },
    }
}

/// Evaluates arguments left to right.
pub open spec fn eval_args(args: Seq<ExprView>, st: IState, fuel: nat, ops: Ops) -> (IState, Result<Seq<ValueView>, Seq<char>>)
    decreases fuel, exprs_size(args),
{
    if args.len() == 0 {
        (st, Ok(Seq::empty()))
    } else {
        let (st1, r) = eval_args(args.drop_last(), st, fuel, ops);
        match r {
            Err(m) => (st1, Err(m)),
            Ok(vs) => {
                let (st2, v) = eval(args.last(), st1, fuel, ops);
                match v {
                    Err(m) => (st2, Err(m)),
                    Ok(x) => (st2, Ok(vs.push(x))),
                }
            },
        }
    }
}

pub open spec fn arity_error(name: Seq<char>, arity: nat, got: nat) -> Seq<char> {
    "Function '"@ + name + "' expects "@ + decimal(arity) + " arguments, got "@ + decimal(got)
}

/// Calls a function: its body runs in a new scope holding the parameters;
/// without `return` it gives `0`.
pub open spec fn call(f: ValueView, args: Seq<ValueView>, st: IState, fuel: nat, ops: Ops) -> (IState, Result<ValueView, Seq<char>>)
    decreases fuel, 0nat,
{
    match f {
        ValueView::Function { name, params, body } => if args.len() != params.len() {
            (st, Err(arity_error(name, params.len(), args.len())))
        } else if fuel == 0 {
            (st, Err(limit_msg()))
        } else {
            let st1 = bind_params(enter(st), params, args);
            let (st2, r) = exec_seq(body, st1, (fuel - 1) as nat, ops);
            match r {
                Err(m) => (leave(st2), Err(m)),
                Ok(FlowView::Return(v)) => (leave(st2), Ok(v)),
                Ok(FlowView::Normal) => (leave(st2), Ok(ValueView::Number(0))),
            }
        },
        _ => (st, Err("Cannot call a non-function"@)),
    }
}

/// Executes statements in order until one returns or fails.
pub open spec fn exec_seq(ss: Seq<StmtView>, st: IState, fuel: nat, ops: Ops) -> (IState, Result<FlowView, Seq<char>>)
    decreases fuel, stmts_size(ss),
{
    if ss.len() == 0 {
        (st, Ok(FlowView::Normal))
    } else {
        let (st1, r) = exec(ss[0], st, fuel, ops);
        match r {
            Ok(FlowView::Normal) => exec_seq(ss.drop_first(), st1, fuel, ops),
            other => (st1, other),
        }
    }
}

/// Executes statements in a new scope, left again unless a statement fails.
pub open spec fn exec_block(ss: Seq<StmtView>, st: IState, fuel: nat, ops: Ops) -> (IState, Result<FlowView, Seq<char>>)
    decreases fuel, stmts_size(ss) + 1,
{
    let (st1, r) = exec_seq(ss, enter(st), fuel, ops);
    match r {
        Err(m) => (st1, Err(m)),
        Ok(f) => (leave(st1), Ok(f)),
    }
}

/// Runs a `while` loop; at most `fuel` further iterations follow the first.
pub open spec fn while_loop(cond: ExprView, body: Seq<StmtView>, st: IState, fuel: nat, ops: Ops) -> (IState, Result<FlowView, Seq<char>>)
    decreases fuel, expr_size(cond) + stmts_size(body) + 1,
{
    let (st1, c) = eval(cond, st, fuel, ops);
    match c {
        Err(m) => (st1, Err(m)),
        Ok(cv) => if !truthy_value(cv) {
            (st1, Ok(FlowView::Normal))
        } else {
            let (st2, r) = exec_block(body, st1, fuel, ops);
            match r {
                Ok(FlowView::Normal) => if fuel == 0 {
                    (st2, Err(limit_msg()))
                } else {
                    while_loop(cond, body, st2, (fuel - 1) as nat, ops)
                },
                other => (st2, other),
            }
        },
    }
}

/// Executes a statement.
pub open spec fn exec(s: StmtView, st: IState, fuel: nat, ops: Ops) -> (IState, Result<FlowView, Seq<char>>)
    decreases fuel, stmt_size(s),
{
    match s {
        StmtView::Let { name, value } => {
            let (st1, r) = eval(value, st, fuel, ops);
            match r {
                Err(m) => (st1, Err(m)),
                Ok(v) => (define(st1, name, v), Ok(FlowView::Normal)),
            }
        },
        StmtView::Assignment { name, value } => {
            let (st1, r) = eval(value, st, fuel, ops);
            match r {
                Err(m) => (st1, Err(m)),
                Ok(v) => match assign_view(st1.scopes, name, v) {
                    Some(sc) => (with_scopes(st1, sc), Ok(FlowView::Normal)),
                    None => (st1, Err(undefined_msg(name))),
                },
            }
        },
        StmtView::Print(e) => {
            let (st1, r) = eval(e, st, fuel, ops);
            match r {
                Err(m) => (st1, Err(m)),
                Ok(v) => (IState { scopes: st1.scopes, out: st1.out.push(v) }, Ok(FlowView::Normal)),
            }
        },
        StmtView::Expression(e) => {
            let (st1, r) = eval(e, st, fuel, ops);
            match r {
                Err(m) => (st1, Err(m)),
                Ok(_) => (st1, Ok(FlowView::Normal)),
            }
        },
        StmtView::FunctionDef { name, params, body } =>
            (define(st, name, ValueView::Function { name, params, body }), Ok(FlowView::Normal)),
        StmtView::Return(e) => {
            let (st1, r) = eval(e, st, fuel, ops);
            match r {
                Err(m) => (st1, Err(m)),
                Ok(v) => (st1, Ok(FlowView::Return(v))),
            }
        },
        StmtView::If { condition, then_body, else_body } => {
            let (st1, r) = eval(condition, st, fuel, ops);
            match r {
                Err(m) => (st1, Err(m)),
                Ok(cv) => if truthy_value(cv) {
                    exec_block(then_body, st1, fuel, ops)
                } else {
                    match else_body {
                        Some(eb) => exec_block(eb, st1, fuel, ops),
                        None => (st1, Ok(FlowView::Normal)),
                    }
                },
            }
        },
        StmtView::While { condition, body } => while_loop(condition, body, st, fuel, ops),
        StmtView::Love(_) => (st, Err("Interpreter does not support loading modules natively"@)),
        StmtView::Export(_) => (st, Err("Interpreter does not support exporting variables"@)),
        StmtView::Block(ss) => exec_block(ss, st, fuel, ops),
    }
}

/// Runs a program: its statements in the top-level scope; `return` there is an error.
pub open spec fn run_program(ss: Seq<StmtView>, st: IState, fuel: nat, ops: Ops) -> (IState, Result<(), Seq<char>>)
    decreases ss.len(),
{
    if ss.len() == 0 {
        (st, Ok(()))
    } else {
        let (st1, r) = exec(ss[0], st, fuel, ops);
        match r {
            Err(m) => (st1, Err(m)),
            Ok(FlowView::Return(_)) => (st1, Err("Cannot use 'return' outside of a function"@)),
            Ok(FlowView::Normal) => run_program(ss.drop_first(), st1, fuel, ops),
        }
    }
}


// ---- running programs ------------------------------------------------------------

/// The views of a chain of scopes.
pub open spec fn scopes_deep(sc: Scopes) -> ScopesView {
    sc.map_values(|m: Map<Seq<char>, Value>| deep(m))
}

/// The state of a run with scopes `sc` and printed values `out`.
pub open spec fn ist(sc: Scopes, out: Seq<Value>) -> IState {
    IState { scopes: scopes_deep(sc), out: out.map_values(|v: Value| value_view(v)) }
}

/// `f` computes for every operation and operand pair, and computes alike.
pub open spec fn is_arith<A: Fn(ArithOp, u64, u64) -> u64>(f: A) -> bool {
    &&& forall|op: ArithOp, a: u64, b: u64| call_requires(f, (op, a, b))
    &&& forall|op: ArithOp, a: u64, b: u64, x: u64, y: u64|
        #![trigger call_ensures(f, (op, a, b), x), call_ensures(f, (op, a, b), y)]
        call_ensures(f, (op, a, b), x) && call_ensures(f, (op, a, b), y) ==> x == y
}

pub open spec fn arith_result<A: Fn(ArithOp, u64, u64) -> u64>(f: A, op: ArithOp, a: u64, b: u64) -> u64 {
    choose|x: u64| call_ensures(f, (op, a, b), x)
}

/// `f` compares every operand pair, and compares alike.
pub open spec fn is_compare<C: Fn(CompareOp, u64, u64) -> bool>(f: C) -> bool {
    &&& forall|op: CompareOp, a: u64, b: u64| call_requires(f, (op, a, b))
    &&& forall|op: CompareOp, a: u64, b: u64, x: bool, y: bool|
        #![trigger call_ensures(f, (op, a, b), x), call_ensures(f, (op, a, b), y)]
        call_ensures(f, (op, a, b), x) && call_ensures(f, (op, a, b), y) ==> x == y
}

pub open spec fn compare_result<C: Fn(CompareOp, u64, u64) -> bool>(f: C, op: CompareOp, a: u64, b: u64) -> bool {
    choose|x: bool| call_ensures(f, (op, a, b), x)
}

/// The operations the host closures compute.
pub open spec fn ops_of<G: Fn(u64) -> String, A: Fn(ArithOp, u64, u64) -> u64, C: Fn(CompareOp, u64, u64) -> bool>(
    dbg: G,
    arith: A,
    rel: C,
) -> Ops {
    Ops {
        dbg: renderer_of(dbg),
        arith: |op: ArithOp, a: u64, b: u64| arith_result(arith, op, a, b),
        rel: |op: CompareOp, a: u64, b: u64| compare_result(rel, op, a, b),
    }
}

pub open spec fn vres(r: Result<Value, String>) -> Result<ValueView, Seq<char>> {
    match r {
        Ok(v) => Ok(value_view(v)),
        Err(m) => Err(m@),
    }
}

pub open spec fn flow_view(f: Flow) -> FlowView {
    match f {
        Flow::Normal => FlowView::Normal,
        Flow::Return(v) => FlowView::Return(value_view(v)),
    }
}

pub open spec fn fres(r: Result<Flow, String>) -> Result<FlowView, Seq<char>> {
    match r {
        Ok(f) => Ok(flow_view(f)),
        Err(m) => Err(m@),
    }
}

proof fn lemma_lookup_deep(sc: Scopes, name: Seq<char>)
    ensures
        lookup_view(scopes_deep(sc), name) == match lookup_scopes(sc, name) {
            Some(v) => Some(value_view(v)),
            None => None,
        },
    decreases sc.len(),
{
    if sc.len() > 0 {
        assert(scopes_deep(sc)[0] == deep(sc[0]));
        assert(scopes_deep(sc).drop_first() =~= scopes_deep(sc.drop_first()));
        lemma_lookup_deep(sc.drop_first(), name);
    }
}

proof fn lemma_assign_deep(sc: Scopes, name: Seq<char>, v: Value)
    ensures
        assign_view(scopes_deep(sc), name, value_view(v)) == match assign_scopes(sc, name, v) {
            Some(s2) => Some(scopes_deep(s2)),
            None => None,
        },
    decreases sc.len(),
{
    if sc.len() > 0 {
        assert(scopes_deep(sc)[0] == deep(sc[0]));
        assert(scopes_deep(sc).drop_first() =~= scopes_deep(sc.drop_first()));
        lemma_assign_deep(sc.drop_first(), name, v);
        if sc[0].contains_key(name) {
            assert(deep(sc[0].insert(name, v)) =~= deep(sc[0]).insert(name, value_view(v)));
            assert(scopes_deep(sc.update(0, sc[0].insert(name, v))) =~= scopes_deep(sc).update(0, scopes_deep(sc)[0].insert(name, value_view(v))));
        } else if let Some(rest) = assign_scopes(sc.drop_first(), name, v) {
            assert(scopes_deep(seq![sc[0]] + rest) =~= seq![scopes_deep(sc)[0]] + scopes_deep(rest));
        }
    }
}

proof fn lemma_define_deep(sc: Scopes, name: Seq<char>, v: Value)
    requires
        sc.len() >= 1,
    ensures
        scopes_deep(sc.update(0, sc[0].insert(name, v))) == scopes_deep(sc).update(0, scopes_deep(sc)[0].insert(name, value_view(v))),
{
    assert(deep(sc[0].insert(name, v)) =~= deep(sc[0]).insert(name, value_view(v)));
    assert(scopes_deep(sc.update(0, sc[0].insert(name, v))) =~= scopes_deep(sc).update(0, scopes_deep(sc)[0].insert(name, value_view(v))));
}

proof fn lemma_enter_deep(sc: Scopes)
    ensures
        scopes_deep(seq![Map::<Seq<char>, Value>::empty()] + sc)
            == seq![Map::<Seq<char>, ValueView>::empty()] + scopes_deep(sc),
{
    assert(deep(Map::<Seq<char>, Value>::empty()) =~= Map::<Seq<char>, ValueView>::empty());
    assert(scopes_deep(seq![Map::<Seq<char>, Value>::empty()] + sc)
        =~= seq![Map::<Seq<char>, ValueView>::empty()] + scopes_deep(sc));
}

proof fn lemma_drop_deep(sc: Scopes)
    requires
        sc.len() > 0,
    ensures
        scopes_deep(sc.drop_first()) == scopes_deep(sc).drop_first(),
{
    assert(scopes_deep(sc.drop_first()) =~= scopes_deep(sc).drop_first());
}

proof fn lemma_exprs_size(es: Seq<ExprView>, i: int)
    requires
        0 <= i < es.len(),
    ensures
        expr_size(es[i]) < exprs_size(es),
    decreases es.len(),
{
    if i < es.len() - 1 {
        lemma_exprs_size(es.drop_last(), i);
    }
}

proof fn lemma_stmts_size(ss: Seq<StmtView>, i: int)
    requires
        0 <= i < ss.len(),
    ensures
        stmt_size(ss[i]) < stmts_size(ss),
        stmts_size(ss.subrange(i, ss.len() as int)) <= stmts_size(ss),
    decreases ss.len(),
{
    if i > 0 {
        lemma_stmts_size(ss.drop_first(), i - 1);
        assert(ss.drop_first().subrange(i - 1, ss.len() - 1) =~= ss.subrange(i, ss.len() as int));
    } else {
        assert(ss.subrange(0, ss.len() as int) =~= ss);
    }
}

/// The tree-walking interpreter: it runs a program's statements directly,
/// with a chain of scopes.
#[derive(Debug)]
pub struct Interpreter {
    /// The current scope chain.
    pub env: Environment,
}

/// Computes `a op b` with the host.
fn compute<A: Fn(ArithOp, u64, u64) -> u64>(arith: &A, op: ArithOp, a: u64, b: u64) -> (r: u64)
    requires
        is_arith(*arith),
    ensures
        r == arith_result(*arith, op, a, b),
{
    let r = arith(op, a, b);
    proof {
        let c = choose|x: u64| call_ensures(*arith, (op, a, b), x);
        assert(call_ensures(*arith, (op, a, b), c));
    }
    r
}

/// Compares `a op b` with the host.
fn decide<C: Fn(CompareOp, u64, u64) -> bool>(rel: &C, op: CompareOp, a: u64, b: u64) -> (r: bool)
    requires
        is_compare(*rel),
    ensures
        r == compare_result(*rel, op, a, b),
{
    let r = rel(op, a, b);
    proof {
        let c = choose|x: bool| call_ensures(*rel, (op, a, b), x);
        assert(call_ensures(*rel, (op, a, b), c));
    }
    r
}

/// The number in `v`, or the error for a non-number.
fn number_in<G: Fn(u64) -> String>(v: &Value, dbg: &G) -> (r: Result<u64, String>)
    requires
        is_renderer(*dbg),
    ensures
        match number_of_value(value_view(*v)) {
            Ok(n) => r == Ok::<u64, String>(n),
            Err(m) => r matches Err(x) && x@ == m,
        },
{
    match v {
        Value::Number(n) => Ok(*n),
        _ => {
            let d = v.display(dbg);
            let mut m = String::from_str("Expected a number, got ");
            m.append(d.as_str());
            Err(m)
        },
    }
}

fn binary_op<G: Fn(u64) -> String, A: Fn(ArithOp, u64, u64) -> u64, C: Fn(CompareOp, u64, u64) -> bool>(
    l: &Value,
    op: BinOp,
    r: &Value,
    dbg: &G,
    arith: &A,
    rel: &C,
) -> (res: Result<Value, String>)
    requires
        is_renderer(*dbg),
        is_arith(*arith),
        is_compare(*rel),
    ensures
        vres(res) == binary(value_view(*l), op, value_view(*r), ops_of(*dbg, *arith, *rel)),
{
    let a = match number_in(l, dbg) {
        Ok(a) => a,
        Err(m) => return Err(m),
    };
    let b = match number_in(r, dbg) {
        Ok(b) => b,
        Err(m) => return Err(m),
    };
    match op {
        BinOp::Add => Ok(Value::Number(compute(arith, ArithOp::Add, a, b))),
        BinOp::Sub => Ok(Value::Number(compute(arith, ArithOp::Sub, a, b))),
        BinOp::Mul => Ok(Value::Number(compute(arith, ArithOp::Mul, a, b))),
        BinOp::Div => if b == 0 || b == 0x8000_0000_0000_0000 {
            Err(String::from_str("Runtime error: division by zero"))
        } else {
            Ok(Value::Number(compute(arith, ArithOp::Div, a, b)))
        },
        BinOp::Eq => Ok(Value::Boolean(decide(rel, CompareOp::Eq, a, b))),
        BinOp::Neq => Ok(Value::Boolean(decide(rel, CompareOp::Neq, a, b))),
        BinOp::Gt => Ok(Value::Boolean(decide(rel, CompareOp::Gt, a, b))),
        BinOp::Lt => Ok(Value::Boolean(decide(rel, CompareOp::Lt, a, b))),
        BinOp::Gte => Ok(Value::Boolean(decide(rel, CompareOp::Gte, a, b))),
        BinOp::Lte => Ok(Value::Boolean(decide(rel, CompareOp::Lte, a, b))),
    }
}


/// Whether a value counts as true for `if` and `while`.
fn truthy(v: &Value) -> (r: bool)
    ensures
        r == truthy_value(value_view(*v)),
{
    match v {
        Value::Boolean(b) => *b,
        Value::Number(n) => !(*n == 0 || *n == 0x8000_0000_0000_0000),
        _ => true,
    }
}

proof fn lemma_exec_seq_step(ss: Seq<StmtView>, st: IState, fuel: nat, ops: Ops)
    requires
        ss.len() > 0,
    ensures
        exec_seq(ss, st, fuel, ops) == (match exec(ss[0], st, fuel, ops) {
            (st1, Ok(FlowView::Normal)) => exec_seq(ss.drop_first(), st1, fuel, ops),
            (st1, other) => (st1, other),
        }),
{
}

proof fn lemma_run_step(ss: Seq<StmtView>, st: IState, fuel: nat, ops: Ops)
    requires
        ss.len() > 0,
    ensures
        run_program(ss, st, fuel, ops) == (match exec(ss[0], st, fuel, ops) {
            (st1, Err(m)) => (st1, Err(m)),
            (st1, Ok(FlowView::Return(_))) => (st1, Err("Cannot use 'return' outside of a function"@)),
            (st1, Ok(FlowView::Normal)) => run_program(ss.drop_first(), st1, fuel, ops),
        }),
{
}

proof fn lemma_while_step(cond: ExprView, body: Seq<StmtView>, st: IState, fuel: nat, ops: Ops)
    ensures
        while_loop(cond, body, st, fuel, ops) == (match eval(cond, st, fuel, ops) {
            (st1, Err(m)) => (st1, Err(m)),
            (st1, Ok(cv)) => if !truthy_value(cv) {
                (st1, Ok(FlowView::Normal))
            } else {
                match exec_block(body, st1, fuel, ops) {
                    (st2, Ok(FlowView::Normal)) => if fuel == 0 {
                        (st2, Err(limit_msg()))
                    } else {
                        while_loop(cond, body, st2, (fuel - 1) as nat, ops)
                    },
                    (st2, other) => (st2, other),
                }
            },
        }),
{
}

proof fn lemma_out_push(out: Seq<Value>, v: Value)
    ensures
        out.push(v).map_values(|x: Value| value_view(x)) == out.map_values(|x: Value| value_view(x)).push(value_view(v)),
{
    assert(out.push(v).map_values(|x: Value| value_view(x)) =~= out.map_values(|x: Value| value_view(x)).push(value_view(v)));
}

impl Interpreter {
    /// An interpreter with one empty top-level scope.
    pub fn new() -> (i: Self)
        ensures
            i.env@ == seq![Map::<Seq<char>, Value>::empty()],
    {
        Interpreter { env: Environment::new() }
    }

    fn enter_scope(&mut self)
        ensures
            scopes_deep(final(self).env@) == seq![Map::<Seq<char>, ValueView>::empty()] + scopes_deep(old(self).env@),
    {
        let mut parent = Environment::new();
        std::mem::swap(&mut parent, &mut self.env);
        self.env = Environment::with_parent(parent);
        proof { lemma_enter_deep(old(self).env@); }
    }

    fn leave_scope(&mut self)
        ensures
            scopes_deep(final(self).env@) == leave(IState { scopes: scopes_deep(old(self).env@), out: Seq::empty() }).scopes,
    {
        let mut child = Environment::new();
        std::mem::swap(&mut child, &mut self.env);
        proof { child.lemma_nonempty(); }
        match child.into_parent() {
            Some(p) => {
                self.env = p;
                proof { lemma_drop_deep(old(self).env@); }
            },
            None => {
                self.env = Environment::new();
                proof {
                    lemma_enter_deep(Seq::<Map<Seq<char>, Value>>::empty());
                    assert(seq![Map::<Seq<char>, Value>::empty()] + Seq::<Map<Seq<char>, Value>>::empty()
                        =~= seq![Map::<Seq<char>, Value>::empty()]);
                    assert(seq![Map::<Seq<char>, ValueView>::empty()] + Seq::<Map<Seq<char>, ValueView>>::empty()
                        =~= seq![Map::<Seq<char>, ValueView>::empty()]);
                    assert(scopes_deep(Seq::<Map<Seq<char>, Value>>::empty()) =~= Seq::<Map<Seq<char>, ValueView>>::empty());
                }
            },
        }
    }

    fn define_name(&mut self, name: String, v: Value)
        ensures
            scopes_deep(final(self).env@) == define(
                IState { scopes: scopes_deep(old(self).env@), out: Seq::empty() }, name@, value_view(v)).scopes,
    {
        proof {
            self.env.lemma_nonempty();
            lemma_define_deep(self.env@, name@, v);
        }
        self.env.define(name, v);
    }

    /// Evaluates an expression.
    fn eval<G: Fn(u64) -> String, A: Fn(ArithOp, u64, u64) -> u64, C: Fn(CompareOp, u64, u64) -> bool>(
        &mut self,
        e: &Expr,
        fuel: u64,
        out: &mut Vec<Value>,
        dbg: &G,
        arith: &A,
        rel: &C,
    ) -> (r: Result<Value, String>)
        requires
            is_renderer(*dbg),
            is_arith(*arith),
            is_compare(*rel),
        ensures
            (ist(final(self).env@, final(out)@), vres(r))
                == eval(e@, ist(old(self).env@, old(out)@), fuel as nat, ops_of(*dbg, *arith, *rel)),
        decreases fuel, expr_size(e@),
    {
        match e {
            Expr::Number(n) => Ok(Value::Number(*n)),
            Expr::Boolean(b) => Ok(Value::Boolean(*b)),
            Expr::String(s) => Ok(Value::String(s.clone())),
            Expr::Identifier(name) => {
                proof { lemma_lookup_deep(self.env@, name@); }
                match self.env.get(name.as_str()) {
                    Some(v) => Ok(v.copy()),
                    None => {
                        let mut m = String::from_str("Undefined variable: '");
                        m.append(name.as_str());
                        m.append("'");
                        Err(m)
                    },
                }
            },
            Expr::Member { .. } => Err(String::from_str("Interpreter does not support member access")),
            Expr::Index { .. } => Err(String::from_str("Interpreter does not support index access")),
            Expr::BinaryOp { left, op, right } => {
                let l = match self.eval(left, fuel, out, dbg, arith, rel) {
                    Ok(v) => v,
                    Err(m) => return Err(m),
                };
                let r = match self.eval(right, fuel, out, dbg, arith, rel) {
                    Ok(v) => v,
                    Err(m) => return Err(m),
                };
                binary_op(&l, *op, &r, dbg, arith, rel)
            },
            Expr::FunctionCall { callee, args } => {
                proof {
                    lemma_call_view(**callee, *args);
                    assert(exprs_view(args@).subrange(0, args@.len() as int) =~= exprs_view(args@));
                }
                let cv = match self.eval(callee, fuel, out, dbg, arith, rel) {
                    Ok(v) => v,
                    Err(m) => return Err(m),
                };
                let avs = match self.eval_args(args, args.len(), fuel, out, dbg, arith, rel) {
                    Ok(vs) => vs,
                    Err(m) => return Err(m),
                };
                match &cv {
                    Value::Function { .. } => self.call(&cv, avs, fuel, out, dbg, arith, rel),
                    Value::NativeFunction { .. } =>
                        Err(String::from_str("Interpreter does not support calling VM NativeFunctions")),
                    _ => {
                        let d = cv.debug(dbg);
                        let mut m = String::from_str("Cannot call '");
                        m.append(d.as_str());
                        m.append("' — it is not a function");
                        Err(m)
                    },
                }
            },
        }
    }

    /// Evaluates the first `n` arguments, left to right.
    fn eval_args<G: Fn(u64) -> String, A: Fn(ArithOp, u64, u64) -> u64, C: Fn(CompareOp, u64, u64) -> bool>(
        &mut self,
        args: &Vec<Expr>,
        n: usize,
        fuel: u64,
        out: &mut Vec<Value>,
        dbg: &G,
        arith: &A,
        rel: &C,
    ) -> (r: Result<Vec<Value>, String>)
        requires
            n <= args@.len(),
            is_renderer(*dbg),
            is_arith(*arith),
            is_compare(*rel),
        ensures
            (ist(final(self).env@, final(out)@), match r {
                Ok(vs) => Ok(vs@.map_values(|v: Value| value_view(v))),
                Err(m) => Err(m@),
            }) == eval_args(exprs_view(args@).subrange(0, n as int), ist(old(self).env@, old(out)@), fuel as nat,
                ops_of(*dbg, *arith, *rel)),
        decreases fuel, exprs_size(exprs_view(args@).subrange(0, n as int)),
    {
        let ghost sub = exprs_view(args@).subrange(0, n as int);
        if n == 0 {
            let vs: Vec<Value> = Vec::new();
            proof { assert(vs@.map_values(|v: Value| value_view(v)) =~= Seq::<ValueView>::empty()); }
            return Ok(vs);
        }
        proof {
            assert(sub.drop_last() =~= exprs_view(args@).subrange(0, n - 1));
            assert(sub.last() == args@[n - 1]@);
        }
        let mut vs = match self.eval_args(args, n - 1, fuel, out, dbg, arith, rel) {
            Ok(vs) => vs,
            Err(m) => return Err(m),
        };
        let v = match self.eval(&args[n - 1], fuel, out, dbg, arith, rel) {
            Ok(v) => v,
            Err(m) => return Err(m),
        };
        let ghost before = vs@;
        vs.push(v);
        proof {
            assert(vs@.map_values(|x: Value| value_view(x)) =~= before.map_values(|x: Value| value_view(x)).push(value_view(v)));
        }
        Ok(vs)
    }

    /// Calls a function value with evaluated arguments.
    fn call<G: Fn(u64) -> String, A: Fn(ArithOp, u64, u64) -> u64, C: Fn(CompareOp, u64, u64) -> bool>(
        &mut self,
        f: &Value,
        args: Vec<Value>,
        fuel: u64,
        out: &mut Vec<Value>,
        dbg: &G,
        arith: &A,
        rel: &C,
    ) -> (r: Result<Value, String>)
        requires
            *f is Function,
            is_renderer(*dbg),
            is_arith(*arith),
            is_compare(*rel),
        ensures
            (ist(final(self).env@, final(out)@), vres(r)) == call(value_view(*f), args@.map_values(|v: Value| value_view(v)),
                ist(old(self).env@, old(out)@), fuel as nat, ops_of(*dbg, *arith, *rel)),
        decreases fuel, 0nat,
    {
        match f {
            Value::Function { name, params, body } => {
                if args.len() != params.len() {
                    let mut m = String::from_str("Function '");
                    m.append(name.as_str());
                    m.append("' expects ");
                    append_decimal(&mut m, params.len());
                    m.append(" arguments, got ");
                    append_decimal(&mut m, args.len());
                    return Err(m);
                }
                if fuel == 0 {
                    return Err(String::from_str("Execution limit reached"));
                }
                let ghost st0 = ist(self.env@, out@);
                let ghost pv = crate::ast::strings_view(params@);
                let ghost av = args@.map_values(|v: Value| value_view(v));
                self.enter_scope();
                proof {
                    assert(pv.subrange(0, 0) =~= Seq::<Seq<char>>::empty());
                    assert(av.subrange(0, 0) =~= Seq::<ValueView>::empty());
                }
                let mut i: usize = 0;
                while i < params.len()
                    invariant
                        i <= params@.len(),
                        params@.len() == args@.len(),
                        pv == crate::ast::strings_view(params@),
                        av == args@.map_values(|v: Value| value_view(v)),
                        ist(self.env@, out@) == bind_params(enter(st0), pv.subrange(0, i as int), av.subrange(0, i as int)),
                    decreases params@.len() - i,
                {
                    let ghost cur = ist(self.env@, out@);
                    self.define_name(params[i].clone(), args[i].copy());
                    proof {
                        assert(pv.subrange(0, i + 1).drop_last() =~= pv.subrange(0, i as int));
                        assert(av.subrange(0, i + 1).drop_last() =~= av.subrange(0, i as int));
                    }
                    i = i + 1;
                }
                proof {
                    assert(pv.subrange(0, i as int) =~= pv);
                    assert(av.subrange(0, i as int) =~= av);
                }
                let b: &Vec<Stmt> = &*body;
                let r = self.exec_seq(b, fuel - 1, out, dbg, arith, rel);
                self.leave_scope();
                match r {
                    Err(m) => Err(m),
                    Ok(Flow::Return(v)) => Ok(v),
                    Ok(Flow::Normal) => Ok(Value::Number(0)),
                }
            },
            _ => Err(String::from_str("Cannot call a non-function")),
        }
    }

    /// Executes statements in order until one returns or fails.
    fn exec_seq<G: Fn(u64) -> String, A: Fn(ArithOp, u64, u64) -> u64, C: Fn(CompareOp, u64, u64) -> bool>(
        &mut self,
        ss: &Vec<Stmt>,
        fuel: u64,
        out: &mut Vec<Value>,
        dbg: &G,
        arith: &A,
        rel: &C,
    ) -> (r: Result<Flow, String>)
        requires
            is_renderer(*dbg),
            is_arith(*arith),
            is_compare(*rel),
        ensures
            (ist(final(self).env@, final(out)@), fres(r))
                == exec_seq(stmts_view(ss@), ist(old(self).env@, old(out)@), fuel as nat, ops_of(*dbg, *arith, *rel)),
        decreases fuel, stmts_size(stmts_view(ss@)),
    {
        let ghost all = stmts_view(ss@);
        let ghost ops = ops_of(*dbg, *arith, *rel);
        let ghost target = exec_seq(all, ist(self.env@, out@), fuel as nat, ops);
        proof { assert(all.subrange(0, all.len() as int) =~= all); }
        let mut i: usize = 0;
        while i < ss.len()
            invariant
                i <= ss@.len(),
                all == stmts_view(ss@),
                ops == ops_of(*dbg, *arith, *rel),
                is_renderer(*dbg),
                is_arith(*arith),
                is_compare(*rel),
                exec_seq(all.subrange(i as int, all.len() as int), ist(self.env@, out@), fuel as nat, ops) == target,
                target == exec_seq(all, ist(old(self).env@, old(out)@), fuel as nat, ops),
            decreases ss@.len() - i,
        {
            proof {
                lemma_stmts_size(all, i as int);
                let rest = all.subrange(i as int, all.len() as int);
                assert(rest[0] == ss@[i as int]@);
                assert(rest.drop_first() =~= all.subrange(i + 1, all.len() as int));
                lemma_exec_seq_step(rest, ist(self.env@, out@), fuel as nat, ops);
            }
            let r = self.exec(&ss[i], fuel, out, dbg, arith, rel);
            match r {
                Ok(Flow::Normal) => {},
                other => return other,
            }
            i = i + 1;
        }
        Ok(Flow::Normal)
    }

    /// Executes statements in a new scope.
    fn exec_block<G: Fn(u64) -> String, A: Fn(ArithOp, u64, u64) -> u64, C: Fn(CompareOp, u64, u64) -> bool>(
        &mut self,
        ss: &Vec<Stmt>,
        fuel: u64,
        out: &mut Vec<Value>,
        dbg: &G,
        arith: &A,
        rel: &C,
    ) -> (r: Result<Flow, String>)
        requires
            is_renderer(*dbg),
            is_arith(*arith),
            is_compare(*rel),
        ensures
            (ist(final(self).env@, final(out)@), fres(r))
                == exec_block(stmts_view(ss@), ist(old(self).env@, old(out)@), fuel as nat, ops_of(*dbg, *arith, *rel)),
        decreases fuel, stmts_size(stmts_view(ss@)) + 1,
    {
        self.enter_scope();
        match self.exec_seq(ss, fuel, out, dbg, arith, rel) {
            Err(m) => Err(m),
            Ok(f) => {
                self.leave_scope();
                Ok(f)
            },
        }
    }

    /// Runs a `while` loop.
    fn while_loop<G: Fn(u64) -> String, A: Fn(ArithOp, u64, u64) -> u64, C: Fn(CompareOp, u64, u64) -> bool>(
        &mut self,
        cond: &Expr,
        body: &Vec<Stmt>,
        fuel: u64,
        out: &mut Vec<Value>,
        dbg: &G,
        arith: &A,
        rel: &C,
    ) -> (r: Result<Flow, String>)
        requires
            is_renderer(*dbg),
            is_arith(*arith),
            is_compare(*rel),
        ensures
            (ist(final(self).env@, final(out)@), fres(r))
                == while_loop(cond@, stmts_view(body@), ist(old(self).env@, old(out)@), fuel as nat, ops_of(*dbg, *arith, *rel)),
        decreases fuel, expr_size(cond@) + stmts_size(stmts_view(body@)) + 1,
    {
        let ghost ops = ops_of(*dbg, *arith, *rel);
        let ghost target = while_loop(cond@, stmts_view(body@), ist(self.env@, out@), fuel as nat, ops);
        let mut f = fuel;
        loop
            invariant
                f <= fuel,
                ops == ops_of(*dbg, *arith, *rel),
                is_renderer(*dbg),
                is_arith(*arith),
                is_compare(*rel),
                while_loop(cond@, stmts_view(body@), ist(self.env@, out@), f as nat, ops) == target,
                target == while_loop(cond@, stmts_view(body@), ist(old(self).env@, old(out)@), fuel as nat, ops),
            decreases f,
        {
            proof { lemma_while_step(cond@, stmts_view(body@), ist(self.env@, out@), f as nat, ops); }
            let cv = match self.eval(cond, f, out, dbg, arith, rel) {
                Ok(v) => v,
                Err(m) => return Err(m),
            };
            if !truthy(&cv) {
                return Ok(Flow::Normal);
            }
            match self.exec_block(body, f, out, dbg, arith, rel) {
                Ok(Flow::Normal) => {},
                other => return other,
            }
            if f == 0 {
                return Err(String::from_str("Execution limit reached"));
            }
            f = f - 1;
        }
    }

    /// Executes a statement.
    fn exec<G: Fn(u64) -> String, A: Fn(ArithOp, u64, u64) -> u64, C: Fn(CompareOp, u64, u64) -> bool>(
        &mut self,
        s: &Stmt,
        fuel: u64,
        out: &mut Vec<Value>,
        dbg: &G,
        arith: &A,
        rel: &C,
    ) -> (r: Result<Flow, String>)
        requires
            is_renderer(*dbg),
            is_arith(*arith),
            is_compare(*rel),
        ensures
            (ist(final(self).env@, final(out)@), fres(r))
                == exec(s@, ist(old(self).env@, old(out)@), fuel as nat, ops_of(*dbg, *arith, *rel)),
        decreases fuel, stmt_size(s@),
    {
        match s {
            Stmt::Let { name, value } => {
                let v = match self.eval(value, fuel, out, dbg, arith, rel) {
                    Ok(v) => v,
                    Err(m) => return Err(m),
                };
                self.define_name(name.clone(), v);
                Ok(Flow::Normal)
            },
            Stmt::Assignment { name, value } => {
                let v = match self.eval(value, fuel, out, dbg, arith, rel) {
                    Ok(v) => v,
                    Err(m) => return Err(m),
                };
                proof { lemma_assign_deep(self.env@, name@, v); }
                match self.env.set(name.as_str(), v) {
                    Ok(()) => Ok(Flow::Normal),
                    Err(m) => Err(m),
                }
            },
            Stmt::Print(e) => {
                let v = match self.eval(e, fuel, out, dbg, arith, rel) {
                    Ok(v) => v,
                    Err(m) => return Err(m),
                };
                proof { lemma_out_push(out@, v); }
                out.push(v);
                Ok(Flow::Normal)
            },
            Stmt::Expression(e) => {
                match self.eval(e, fuel, out, dbg, arith, rel) {
                    Ok(_) => Ok(Flow::Normal),
                    Err(m) => Err(m),
                }
            },
            Stmt::FunctionDef { name, params, body } => {
                proof { crate::ast::lemma_fn_view(*name, *params, *body); }
                let f = Value::Function {
                    name: name.clone(),
                    params: Rc::new(copy_strings(params)),
                    body: Rc::new(copy_stmts(body)),
                };
                self.define_name(name.clone(), f);
                Ok(Flow::Normal)
            },
            Stmt::Return(e) => {
                match self.eval(e, fuel, out, dbg, arith, rel) {
                    Ok(v) => Ok(Flow::Return(v)),
                    Err(m) => Err(m),
                }
            },
            Stmt::If { condition, then_body, else_body } => {
                proof { crate::ast::lemma_if_view(*condition, *then_body, *else_body); }
                let cv = match self.eval(condition, fuel, out, dbg, arith, rel) {
                    Ok(v) => v,
                    Err(m) => return Err(m),
                };
                if truthy(&cv) {
                    self.exec_block(then_body, fuel, out, dbg, arith, rel)
                } else {
                    match else_body {
                        Some(eb) => self.exec_block(eb, fuel, out, dbg, arith, rel),
                        None => Ok(Flow::Normal),
                    }
                }
            },
            Stmt::While { condition, body } => {
                proof { crate::ast::lemma_while_view(*condition, *body); }
                self.while_loop(condition, body, fuel, out, dbg, arith, rel)
            },
            Stmt::Love(_) => Err(String::from_str("Interpreter does not support loading modules natively")),
            Stmt::Export(_) => Err(String::from_str("Interpreter does not support exporting variables")),
            Stmt::Block(ss) => {
                proof { crate::ast::lemma_block_view(*ss); }
                self.exec_block(ss, fuel, out, dbg, arith, rel)
            },
        }
    }

    /// Runs a program in the top-level scope. Printed values are appended to
    /// `out`; calls nest, and each loop repeats, at most `fuel` times; `dbg`
    /// renders numbers in messages and `arith` and `rel` compute on numbers.
    pub fn run<G: Fn(u64) -> String, A: Fn(ArithOp, u64, u64) -> u64, C: Fn(CompareOp, u64, u64) -> bool>(
        &mut self,
        stmts: Vec<Stmt>,
        fuel: u64,
        out: &mut Vec<Value>,
        dbg: &G,
        arith: &A,
        rel: &C,
    ) -> (r: Result<(), String>)
        requires
            is_renderer(*dbg),
            is_arith(*arith),
            is_compare(*rel),
        ensures
            (ist(final(self).env@, final(out)@), match r {
                Ok(()) => Ok(()),
                Err(m) => Err(m@),
            }) == run_program(stmts_view(stmts@), ist(old(self).env@, old(out)@), fuel as nat, ops_of(*dbg, *arith, *rel)),
    {
        let ghost all = stmts_view(stmts@);
        let ghost ops = ops_of(*dbg, *arith, *rel);
        let ghost target = run_program(all, ist(self.env@, out@), fuel as nat, ops);
        proof { assert(all.subrange(0, all.len() as int) =~= all); }
        let mut i: usize = 0;
        while i < stmts.len()
            invariant
                i <= stmts@.len(),
                all == stmts_view(stmts@),
                ops == ops_of(*dbg, *arith, *rel),
                is_renderer(*dbg),
                is_arith(*arith),
                is_compare(*rel),
                run_program(all.subrange(i as int, all.len() as int), ist(self.env@, out@), fuel as nat, ops) == target,
                target == run_program(all, ist(old(self).env@, old(out)@), fuel as nat, ops),
            decreases stmts@.len() - i,
        {
            proof {
                let rest = all.subrange(i as int, all.len() as int);
                assert(rest[0] == stmts@[i as int]@);
                assert(rest.drop_first() =~= all.subrange(i + 1, all.len() as int));
                lemma_run_step(rest, ist(self.env@, out@), fuel as nat, ops);
            }
            match self.exec(&stmts[i], fuel, out, dbg, arith, rel) {
                Ok(Flow::Normal) => {},
                Ok(Flow::Return(_)) => return Err(String::from_str("Cannot use 'return' outside of a function")),
                Err(m) => return Err(m),
            }
            i = i + 1;
        }
        Ok(())
    }
}


// ---- scopes and their names ---------------------------------------------------------

/// Two scope chains of equal depth whose scopes bind the same names, one for one.
pub open spec fn same_names(a: ScopesView, b: ScopesView) -> bool {
    &&& a.len() == b.len()
    &&& forall|i: int| #![trigger a[i]] #![trigger b[i]] 0 <= i < a.len() ==> a[i].dom() == b[i].dom()
}

/// Two scope chains of equal depth that bind the same names in every scope
/// but the innermost.
pub open spec fn same_outer_names(a: ScopesView, b: ScopesView) -> bool {
    &&& a.len() == b.len()
    &&& forall|i: int| #![trigger a[i]] #![trigger b[i]] 1 <= i < a.len() ==> a[i].dom() == b[i].dom()
}

proof fn lemma_assign_names(scopes: ScopesView, name: Seq<char>, v: ValueView)
    ensures
        assign_view(scopes, name, v) matches Some(sc) ==> same_names(scopes, sc),
    decreases scopes.len(),
{
    if scopes.len() > 0 {
        if scopes[0].contains_key(name) {
            let sc = scopes.update(0, scopes[0].insert(name, v));
            assert(sc[0].dom() =~= scopes[0].dom());
        } else {
            lemma_assign_names(scopes.drop_first(), name, v);
            if let Some(rest) = assign_view(scopes.drop_first(), name, v) {
                let sc = seq![scopes[0]] + rest;
                assert forall|i: int| 0 <= i < scopes.len() implies scopes[i].dom() == sc[i].dom() by {
                    if i > 0 {
                        assert(scopes.drop_first()[i - 1] == scopes[i]);
                        assert(rest[i - 1] == sc[i]);
                    }
                }
            }
        }
    }
}

proof fn lemma_define_outer(st: IState, name: Seq<char>, v: ValueView)
    requires
        st.scopes.len() >= 1,
    ensures
        same_outer_names(st.scopes, define(st, name, v).scopes),
{
}

proof fn lemma_bind_params_names(st: IState, params: Seq<Seq<char>>, args: Seq<ValueView>)
    requires
        st.scopes.len() >= 1,
    ensures
        same_outer_names(st.scopes, bind_params(st, params, args).scopes),
    decreases params.len(),
{
    if params.len() > 0 && args.len() > 0 {
        let st0 = bind_params(st, params.drop_last(), args.drop_last());
        lemma_bind_params_names(st, params.drop_last(), args.drop_last());
        lemma_define_outer(st0, params.last(), args.last());
    }
}

/// Entering a scope, keeping the names of all scopes outside it, and leaving
/// it again gives back the names one had.
proof fn lemma_enter_leave(st: IState, st1: IState)
    requires
        st.scopes.len() >= 1,
        same_outer_names(enter(st).scopes, st1.scopes),
    ensures
        same_names(st.scopes, leave(st1).scopes),
{
    let e = enter(st).scopes;
    assert forall|i: int| 0 <= i < st.scopes.len() implies st.scopes[i].dom() == leave(st1).scopes[i].dom() by {
        assert(e[i + 1] == st.scopes[i]);
        assert(leave(st1).scopes[i] == st1.scopes[i + 1]);
    }
}

proof fn lemma_eval_names(e: ExprView, st: IState, fuel: nat, ops: Ops)
    requires
        st.scopes.len() >= 1,
    ensures
        eval(e, st, fuel, ops).1 is Ok ==> same_names(st.scopes, eval(e, st, fuel, ops).0.scopes),
    decreases fuel, expr_size(e),
{
    match e {
        ExprView::BinaryOp { left, op, right } => {
            let (st1, l) = eval(*left, st, fuel, ops);
            lemma_eval_names(*left, st, fuel, ops);
            if l is Ok {
                lemma_eval_names(*right, st1, fuel, ops);
            }
        },
        ExprView::FunctionCall { callee, args } => {
            let (st1, c) = eval(*callee, st, fuel, ops);
            lemma_eval_names(*callee, st, fuel, ops);
            if c is Ok {
                let (st2, a) = eval_args(args, st1, fuel, ops);
                lemma_args_names(args, st1, fuel, ops);
                if let Ok(avs) = a {
                    if c->Ok_0 is Function {
                        lemma_call_names(c->Ok_0, avs, st2, fuel, ops);
                    }
                }
            }
        },
        _ => {},
    }
}

proof fn lemma_args_names(args: Seq<ExprView>, st: IState, fuel: nat, ops: Ops)
    requires
        st.scopes.len() >= 1,
    ensures
        eval_args(args, st, fuel, ops).1 is Ok ==> same_names(st.scopes, eval_args(args, st, fuel, ops).0.scopes),
    decreases fuel, exprs_size(args),
{
    if args.len() > 0 {
        let (st1, r) = eval_args(args.drop_last(), st, fuel, ops);
        lemma_args_names(args.drop_last(), st, fuel, ops);
        if r is Ok {
            lemma_eval_names(args.last(), st1, fuel, ops);
        }
    }
}

proof fn lemma_call_names(f: ValueView, args: Seq<ValueView>, st: IState, fuel: nat, ops: Ops)
    requires
        st.scopes.len() >= 1,
    ensures
        call(f, args, st, fuel, ops).1 is Ok ==> same_names(st.scopes, call(f, args, st, fuel, ops).0.scopes),
    decreases fuel, 0nat,
{
    if let ValueView::Function { name, params, body } = f {
        if args.len() == params.len() && fuel > 0 {
            let st1 = bind_params(enter(st), params, args);
            lemma_bind_params_names(enter(st), params, args);
            lemma_seq_names(body, st1, (fuel - 1) as nat, ops);
            let st2 = exec_seq(body, st1, (fuel - 1) as nat, ops).0;
            if exec_seq(body, st1, (fuel - 1) as nat, ops).1 is Ok {
                lemma_enter_leave(st, st2);
            }
        }
    }
}

proof fn lemma_seq_names(ss: Seq<StmtView>, st: IState, fuel: nat, ops: Ops)
    requires
        st.scopes.len() >= 1,
    ensures
        exec_seq(ss, st, fuel, ops).1 is Ok ==> same_outer_names(st.scopes, exec_seq(ss, st, fuel, ops).0.scopes),
    decreases fuel, stmts_size(ss),
{
    if ss.len() > 0 {
        let (st1, r) = exec(ss[0], st, fuel, ops);
        lemma_exec_names(ss[0], st, fuel, ops);
        if r == Ok::<FlowView, Seq<char>>(FlowView::Normal) {
            lemma_seq_names(ss.drop_first(), st1, fuel, ops);
        }
    }
}

proof fn lemma_block_names(ss: Seq<StmtView>, st: IState, fuel: nat, ops: Ops)
    requires
        st.scopes.len() >= 1,
    ensures
        exec_block(ss, st, fuel, ops).1 is Ok ==> same_names(st.scopes, exec_block(ss, st, fuel, ops).0.scopes),
    decreases fuel, stmts_size(ss) + 1,
{
    lemma_seq_names(ss, enter(st), fuel, ops);
    let (st1, r) = exec_seq(ss, enter(st), fuel, ops);
    if r is Ok {
        lemma_enter_leave(st, st1);
    }
}

proof fn lemma_while_names(cond: ExprView, body: Seq<StmtView>, st: IState, fuel: nat, ops: Ops)
    requires
        st.scopes.len() >= 1,
    ensures
        while_loop(cond, body, st, fuel, ops).1 is Ok ==> same_names(st.scopes, while_loop(cond, body, st, fuel, ops).0.scopes),
    decreases fuel, expr_size(cond) + stmts_size(body) + 1,
{
    let (st1, c) = eval(cond, st, fuel, ops);
    lemma_eval_names(cond, st, fuel, ops);
    if let Ok(cv) = c {
        if truthy_value(cv) {
            let (st2, r) = exec_block(body, st1, fuel, ops);
            lemma_block_names(body, st1, fuel, ops);
            if r == Ok::<FlowView, Seq<char>>(FlowView::Normal) && fuel > 0 {
                lemma_while_names(cond, body, st2, (fuel - 1) as nat, ops);
            }
        }
    }
}

proof fn lemma_exec_names(s: StmtView, st: IState, fuel: nat, ops: Ops)
    requires
        st.scopes.len() >= 1,
    ensures
        exec(s, st, fuel, ops).1 is Ok ==> same_outer_names(st.scopes, exec(s, st, fuel, ops).0.scopes),
    decreases fuel, stmt_size(s),
{
    match s {
        StmtView::Let { name, value } => {
            let (st1, r) = eval(value, st, fuel, ops);
            lemma_eval_names(value, st, fuel, ops);
            if let Ok(v) = r {
                lemma_define_outer(st1, name, v);
            }
        },
        StmtView::Assignment { name, value } => {
            let (st1, r) = eval(value, st, fuel, ops);
            lemma_eval_names(value, st, fuel, ops);
            if let Ok(v) = r {
                lemma_assign_names(st1.scopes, name, v);
            }
        },
        StmtView::Print(e) => lemma_eval_names(e, st, fuel, ops),
        StmtView::Expression(e) => lemma_eval_names(e, st, fuel, ops),
        StmtView::Return(e) => lemma_eval_names(e, st, fuel, ops),
        StmtView::FunctionDef { name, params, body } =>
            lemma_define_outer(st, name, ValueView::Function { name, params, body }),
        StmtView::If { condition, then_body, else_body } => {
            let (st1, r) = eval(condition, st, fuel, ops);
            lemma_eval_names(condition, st, fuel, ops);
            if r is Ok {
                lemma_block_names(then_body, st1, fuel, ops);
                if let Some(eb) = else_body {
                    lemma_block_names(eb, st1, fuel, ops);
                }
            }
        },
        StmtView::While { condition, body } => lemma_while_names(condition, body, st, fuel, ops),
        StmtView::Block(ss) => lemma_block_names(ss, st, fuel, ops),
        _ => {},
    }
}

/// Scopes are balanced. A statement that completes (normally or by `return`)
/// leaves the scope chain as deep as it found it, and every scope but the
/// innermost binds exactly the names it bound before (`let` and `fn` add names
/// to the innermost scope only; assignment changes values, never names). A
/// block that completes, and an expression that evaluates, leave every scope,
/// the innermost too, with exactly the names it had: what a block defines
/// disappears with it.
pub proof fn law_scopes_balanced(s: StmtView, block: Seq<StmtView>, e: ExprView, st: IState, fuel: nat, ops: Ops)
    requires
        st.scopes.len() >= 1,
    ensures
        exec(s, st, fuel, ops).1 is Ok ==> exec(s, st, fuel, ops).0.scopes.len() == st.scopes.len(),
        exec(s, st, fuel, ops).1 is Ok ==> same_outer_names(st.scopes, exec(s, st, fuel, ops).0.scopes),
        exec_block(block, st, fuel, ops).1 is Ok ==> same_names(st.scopes, exec_block(block, st, fuel, ops).0.scopes),
        eval(e, st, fuel, ops).1 is Ok ==> same_names(st.scopes, eval(e, st, fuel, ops).0.scopes),
{
    lemma_exec_names(s, st, fuel, ops);
    lemma_block_names(block, st, fuel, ops);
    lemma_eval_names(e, st, fuel, ops);
}

/// Scope chains that bind the same names leave the same names unbound.
proof fn lemma_same_names_lookup(a: ScopesView, b: ScopesView, name: Seq<char>)
    requires
        same_names(a, b),
    ensures
        lookup_view(a, name) is None <==> lookup_view(b, name) is None,
    decreases a.len(),
{
    if a.len() > 0 {
        assert(a[0].dom() == b[0].dom());
        assert(same_names(a.drop_first(), b.drop_first())) by {
            assert forall|i: int| 0 <= i < a.drop_first().len() implies a.drop_first()[i].dom() == b.drop_first()[i].dom() by {
                assert(a.drop_first()[i] == a[i + 1]);
                assert(b.drop_first()[i] == b[i + 1]);
            }
        }
        lemma_same_names_lookup(a.drop_first(), b.drop_first(), name);
    }
}

/// Block scoping. A block, alone or as a `{ ... }` statement, that completes
/// (normally or by `return`) leaves the scope chain as deep as it found it,
/// every scope binding exactly the names it bound before, and every name that
/// was unbound before it unbound after it: what a block defines disappears
/// with the block, and only assignment to names already bound reaches out
/// of it (`let x = 10; { let y = 20; }` leaves `x` bound and `y` unbound).
pub proof fn law_block_scoping(ss: Seq<StmtView>, st: IState, fuel: nat, ops: Ops, name: Seq<char>)
    requires
        st.scopes.len() >= 1,
    ensures
        exec_block(ss, st, fuel, ops).1 is Ok ==> {
            let after = exec_block(ss, st, fuel, ops).0.scopes;
            &&& after.len() == st.scopes.len()
            &&& same_names(st.scopes, after)
            &&& (lookup_view(st.scopes, name) is None ==> lookup_view(after, name) is None)
        },
        exec(StmtView::Block(ss), st, fuel, ops) == exec_block(ss, st, fuel, ops),
{
    lemma_block_names(ss, st, fuel, ops);
    if exec_block(ss, st, fuel, ops).1 is Ok {
        lemma_same_names_lookup(st.scopes, exec_block(ss, st, fuel, ops).0.scopes, name);
    }
}

/// No name occurs twice.
pub open spec fn distinct_names(ps: Seq<Seq<char>>) -> bool {
    forall|a: int, b: int| 0 <= a < b < ps.len() ==> #[trigger] ps[a] != #[trigger] ps[b]
}

/// After binding, the innermost scope gives each parameter its argument.
proof fn lemma_bind_params_lookup(st: IState, params: Seq<Seq<char>>, args: Seq<ValueView>, i: int)
    requires
        st.scopes.len() >= 1,
        params.len() == args.len(),
        distinct_names(params),
        0 <= i < params.len(),
    ensures
        bind_params(st, params, args).scopes.len() == st.scopes.len(),
        bind_params(st, params, args).scopes[0].contains_key(params[i]),
        bind_params(st, params, args).scopes[0][params[i]] == args[i],
    decreases params.len(),
{
    let n = params.len();
    let ps = params.drop_last();
    let xs = args.drop_last();
    lemma_bind_params_names(st, ps, xs);
    lemma_bind_params_names(st, params, args);
    if i < n - 1 {
        assert(distinct_names(ps)) by {
            assert forall|a: int, b: int| 0 <= a < b < ps.len() implies #[trigger] ps[a] != #[trigger] ps[b] by {
                assert(ps[a] == params[a] && ps[b] == params[b]);
            }
        }
        assert(ps[i] == params[i] && xs[i] == args[i]);
        lemma_bind_params_lookup(st, ps, xs, i);
        assert(params[i] != params[n - 1]);
    }
}

/// Arguments are bound to parameters in order: in a call of a function with
/// distinct parameter names and as many arguments as parameters, the `i`-th
/// parameter names the `i`-th argument when the body starts, so a body that
/// returns it gives back exactly that argument.
pub proof fn law_call_binds_in_order(
    name: Seq<char>,
    params: Seq<Seq<char>>,
    args: Seq<ValueView>,
    i: int,
    st: IState,
    fuel: nat,
    ops: Ops,
)
    requires
        st.scopes.len() >= 1,
        params.len() == args.len(),
        distinct_names(params),
        0 <= i < params.len(),
        fuel > 0,
    ensures
        call(
            ValueView::Function { name, params, body: seq![StmtView::Return(ExprView::Identifier(params[i]))] },
            args,
            st,
            fuel,
            ops,
        ).1 == Ok::<ValueView, Seq<char>>(args[i]),
{
    let body = seq![StmtView::Return(ExprView::Identifier(params[i]))];
    let st1 = bind_params(enter(st), params, args);
    lemma_bind_params_lookup(enter(st), params, args, i);
    let f = (fuel - 1) as nat;
    assert(lookup_view(st1.scopes, params[i]) == Some(args[i]));
    assert(eval(ExprView::Identifier(params[i]), st1, f, ops) == (st1, Ok::<ValueView, Seq<char>>(args[i])));
    assert(exec(body[0], st1, f, ops) == (st1, Ok::<FlowView, Seq<char>>(FlowView::Return(args[i]))));
    assert(exec_seq(body, st1, f, ops) == (st1, Ok::<FlowView, Seq<char>>(FlowView::Return(args[i]))));
}

/// Whether a value is one of the false ones: `false`, `0.0` or `-0.0`.
pub open spec fn is_false_value(v: ValueView) -> bool {
    v == ValueView::Boolean(false) || v == ValueView::Number(0) || v == ValueView::Number(0x8000_0000_0000_0000)
}

/// Number operators in the interpreter: `a op b` on two number literals asks
/// the host for its own operation on `a` and `b`, in that order (`-` is
/// `a - b`, `<=` is `a <= b`); only a division by zero is an error.
pub proof fn law_interpreter_operators(a: u64, op: BinOp, b: u64, st: IState, fuel: nat, ops: Ops)
    ensures
        ({
            let (st1, r) = eval(
                ExprView::BinaryOp { left: Box::new(ExprView::Number(a)), op, right: Box::new(ExprView::Number(b)) },
                st, fuel, ops,
            );
            let zero = b == 0 || b == 0x8000_0000_0000_0000;
            &&& st1 == st
            &&& r == match op {
                BinOp::Add => Ok(ValueView::Number((ops.arith)(ArithOp::Add, a, b))),
                BinOp::Sub => Ok(ValueView::Number((ops.arith)(ArithOp::Sub, a, b))),
                BinOp::Mul => Ok(ValueView::Number((ops.arith)(ArithOp::Mul, a, b))),
                BinOp::Div => if zero {
                    Err("Runtime error: division by zero"@)
                } else {
                    Ok(ValueView::Number((ops.arith)(ArithOp::Div, a, b)))
                },
                BinOp::Eq => Ok(ValueView::Boolean((ops.rel)(CompareOp::Eq, a, b))),
                BinOp::Neq => Ok(ValueView::Boolean((ops.rel)(CompareOp::Neq, a, b))),
                BinOp::Gt => Ok(ValueView::Boolean((ops.rel)(CompareOp::Gt, a, b))),
                BinOp::Lt => Ok(ValueView::Boolean((ops.rel)(CompareOp::Lt, a, b))),
                BinOp::Gte => Ok(ValueView::Boolean((ops.rel)(CompareOp::Gte, a, b))),
                BinOp::Lte => Ok(ValueView::Boolean((ops.rel)(CompareOp::Lte, a, b))),
            }
        }),
{
    assert(eval(ExprView::Number(a), st, fuel, ops) == (st, Ok::<ValueView, Seq<char>>(ValueView::Number(a))));
    assert(eval(ExprView::Number(b), st, fuel, ops) == (st, Ok::<ValueView, Seq<char>>(ValueView::Number(b))));
    assert(number_of_value(ValueView::Number(a)) == Ok::<u64, Seq<char>>(a));
    assert(number_of_value(ValueView::Number(b)) == Ok::<u64, Seq<char>>(b));
}

/// Conditions: `if` runs its then-branch unless the condition is `false`,
/// `0.0` or `-0.0`, when it runs its else-branch (or nothing); `while`
/// stops as soon as its condition is one of those.
pub proof fn law_conditions(
    c: ExprView,
    then_body: Seq<StmtView>,
    else_body: Option<Seq<StmtView>>,
    st: IState,
    fuel: nat,
    ops: Ops,
)
    requires
        eval(c, st, fuel, ops).1 is Ok,
    ensures
        ({
            let (st1, r) = eval(c, st, fuel, ops);
            let v = r->Ok_0;
            &&& exec(StmtView::If { condition: c, then_body, else_body }, st, fuel, ops) == if is_false_value(v) {
                match else_body {
                    Some(eb) => exec_block(eb, st1, fuel, ops),
                    None => (st1, Ok(FlowView::Normal)),
                }
            } else {
                exec_block(then_body, st1, fuel, ops)
            }
            &&& is_false_value(v) ==> exec(StmtView::While { condition: c, body: then_body }, st, fuel, ops)
                == (st1, Ok::<FlowView, Seq<char>>(FlowView::Normal))
        }),
{
}

/// Scopes are searched innermost first: a name reads the value of its
/// innermost binding, and assignment rebinds exactly that binding, leaving
/// every other scope as it was; a name bound nowhere reads nothing and
/// cannot be assigned.
pub proof fn law_scope_lookup(scopes: ScopesView, name: Seq<char>, v: ValueView, i: int)
    ensures
        0 <= i < scopes.len() && scopes[i].contains_key(name)
            && (forall|j: int| 0 <= j < i ==> !scopes[j].contains_key(name)) ==> {
            &&& lookup_view(scopes, name) == Some(scopes[i][name])
            &&& assign_view(scopes, name, v) == Some(scopes.update(i, scopes[i].insert(name, v)))
        },
        (forall|j: int| 0 <= j < scopes.len() ==> !scopes[j].contains_key(name)) ==> {
            &&& lookup_view(scopes, name) is None
            &&& assign_view(scopes, name, v) is None
        },
    decreases scopes.len(),
{
    if scopes.len() > 0 {
        let rest = scopes.drop_first();
        if 0 < i < scopes.len() && scopes[i].contains_key(name)
            && (forall|j: int| 0 <= j < i ==> !scopes[j].contains_key(name)) {
            assert(!scopes[0].contains_key(name));
            assert forall|j: int| 0 <= j < i - 1 implies !rest[j].contains_key(name) by {
                assert(rest[j] == scopes[j + 1]);
            }
            assert(rest[i - 1] == scopes[i]);
            law_scope_lookup(rest, name, v, i - 1);
            assert(seq![scopes[0]] + rest.update(i - 1, rest[i - 1].insert(name, v))
                =~= scopes.update(i, scopes[i].insert(name, v)));
        }
        if forall|j: int| 0 <= j < scopes.len() ==> !scopes[j].contains_key(name) {
            assert(!scopes[0].contains_key(name));
            assert forall|j: int| 0 <= j < rest.len() implies !rest[j].contains_key(name) by {
                assert(rest[j] == scopes[j + 1]);
            }
            law_scope_lookup(rest, name, v, i - 1);
        }
    }
}

/// Statement effects: `print e` appends the value of `e` to the output,
/// after everything printed before; `let x = e` binds `x` to the value of
/// `e` in the innermost scope, where reading `x` then gives that value.
pub proof fn law_print_and_let(e: ExprView, name: Seq<char>, st: IState, fuel: nat, ops: Ops)
    requires
        st.scopes.len() >= 1,
        eval(e, st, fuel, ops).1 is Ok,
    ensures
        ({
            let (st1, r) = eval(e, st, fuel, ops);
            let v = r->Ok_0;
            let (sp, rp) = exec(StmtView::Print(e), st, fuel, ops);
            let (sl, rl) = exec(StmtView::Let { name, value: e }, st, fuel, ops);
            &&& rp == Ok::<FlowView, Seq<char>>(FlowView::Normal)
            &&& sp.out == st1.out.push(v)
            &&& sp.scopes == st1.scopes
            &&& rl == Ok::<FlowView, Seq<char>>(FlowView::Normal)
            &&& sl.out == st1.out
            &&& lookup_view(sl.scopes, name) == Some(v)
        }),
{
    lemma_eval_names(e, st, fuel, ops);
}

} // verus!
