use vstd::prelude::*;

verus! {

broadcast use vstd::std_specs::vec::group_vec_axioms;

/// Arithmetic and comparison operators.
#[derive(Debug, Clone, Copy, PartialEq, Eq, Structural)]
pub enum BinOp {
    Add,
    Sub,
    Mul,
    Div,
    Eq,
    Neq,
    Gt,
    Lt,
    Gte,
    Lte,
}

/// An expression: anything that evaluates to a value.
#[derive(Debug, PartialEq)]
pub enum Expr {
    /// A numeric literal (the bits of its `f64` value).
    Number(u64),
    /// `true` or `false`.
    Boolean(bool),
    /// A string literal.
    String(String),
    /// A variable reference.
    Identifier(String),
    /// A property access, e.g. `rust.call`.
    Member { object: Box<Expr>, property: String },
    /// An indexed access, e.g. `map["key"]`.
    Index { object: Box<Expr>, index: Box<Expr> },
    /// A binary operation, e.g. `a + b`.
    BinaryOp { left: Box<Expr>, op: BinOp, right: Box<Expr> },
    /// A function call, e.g. `add(2, 3)`.
    FunctionCall { callee: Box<Expr>, args: Vec<Expr> },
}

/// A statement.
#[derive(Debug, PartialEq)]
pub enum Stmt {
    /// `let name = value;`
    Let { name: String, value: Expr },
    /// `name = value;`
    Assignment { name: String, value: Expr },
    /// `print expr;`
    Print(Expr),
    /// `expr;`
    Expression(Expr),
    /// `fn name(params) { body }`
    FunctionDef { name: String, params: Vec<String>, body: Vec<Stmt> },
    /// `love "module";`
    Love(String),
    /// `export name;`
    Export(String),
    /// `return expr;`
    Return(Expr),
    /// `if condition { then_body } else { else_body }`
    If { condition: Expr, then_body: Vec<Stmt>, else_body: Option<Vec<Stmt>> },
    /// `while condition { body }`
    While { condition: Expr, body: Vec<Stmt> },
    /// `{ stmts }`
    Block(Vec<Stmt>),
}

/// The mathematical view of an expression.
pub enum ExprView {
    Number(u64),
    Boolean(bool),
    String(Seq<char>),
    Identifier(Seq<char>),
    Member { object: Box<ExprView>, property: Seq<char> },
    Index { object: Box<ExprView>, index: Box<ExprView> },
    BinaryOp { left: Box<ExprView>, op: BinOp, right: Box<ExprView> },
    FunctionCall { callee: Box<ExprView>, args: Seq<ExprView> },
}

/// The mathematical view of a statement.
pub enum StmtView {
    Let { name: Seq<char>, value: ExprView },
    Assignment { name: Seq<char>, value: ExprView },
    Print(ExprView),
    Expression(ExprView),
    FunctionDef { name: Seq<char>, params: Seq<Seq<char>>, body: Seq<StmtView> },
    Love(Seq<char>),
    Export(Seq<char>),
    Return(ExprView),
    If { condition: ExprView, then_body: Seq<StmtView>, else_body: Option<Seq<StmtView>> },
    While { condition: ExprView, body: Seq<StmtView> },
    Block(Seq<StmtView>),
}

pub open spec fn expr_view(e: Expr) -> ExprView
    decreases e,
{
    match e {
        Expr::Number(n) => ExprView::Number(n),
        Expr::Boolean(b) => ExprView::Boolean(b),
        Expr::String(s) => ExprView::String(s@),
        Expr::Identifier(s) => ExprView::Identifier(s@),
        Expr::Member { object, property } => ExprView::Member { object: Box::new(expr_view(*object)), property: property@ },
        Expr::Index { object, index } => ExprView::Index { object: Box::new(expr_view(*object)), index: Box::new(expr_view(*index)) },
        Expr::BinaryOp { left, op, right } => ExprView::BinaryOp { left: Box::new(expr_view(*left)), op, right: Box::new(expr_view(*right)) },
        Expr::FunctionCall { callee, args } => ExprView::FunctionCall {
            callee: Box::new(expr_view(*callee)),
            args: Seq::new(args@.len(), |i: int|
                if 0 <= i < args@.len() {
                    proof { assert(decreases_to!(args => args@[i])); }
                    expr_view(args@[i])
                } else {
                    ExprView::Boolean(false)
                }),
        },
    }
}

/// The views of a sequence of expressions.
pub open spec fn exprs_view(es: Seq<Expr>) -> Seq<ExprView> {
    Seq::new(es.len(), |i: int| expr_view(es[i]))
}

pub open spec fn strings_view(ss: Seq<String>) -> Seq<Seq<char>> {
    ss.map_values(|s: String| s@)
}

pub open spec fn stmt_view(s: Stmt) -> StmtView
    decreases s,
{
    match s {
        Stmt::Let { name, value } => StmtView::Let { name: name@, value: expr_view(value) },
        Stmt::Assignment { name, value } => StmtView::Assignment { name: name@, value: expr_view(value) },
        Stmt::Print(e) => StmtView::Print(expr_view(e)),
        Stmt::Expression(e) => StmtView::Expression(expr_view(e)),
        Stmt::FunctionDef { name, params, body } => StmtView::FunctionDef {
            name: name@,
            params: strings_view(params@),
            body: Seq::new(body@.len(), |i: int|
                if 0 <= i < body@.len() {
                    proof { assert(decreases_to!(body => body@[i])); }
                    stmt_view(body@[i])
                } else {
                    StmtView::Block(Seq::empty())
                }),
        },
        Stmt::Love(p) => StmtView::Love(p@),
        Stmt::Export(n) => StmtView::Export(n@),
        Stmt::Return(e) => StmtView::Return(expr_view(e)),
        Stmt::If { condition, then_body, else_body } => StmtView::If {
            condition: expr_view(condition),
            then_body: Seq::new(then_body@.len(), |i: int|
                if 0 <= i < then_body@.len() {
                    proof { assert(decreases_to!(then_body => then_body@[i])); }
                    stmt_view(then_body@[i])
                } else {
                    StmtView::Block(Seq::empty())
                }),
            else_body: match else_body {
                Some(eb) => Some(Seq::new(eb@.len(), |i: int|
                    if 0 <= i < eb@.len() {
                        proof { assert(decreases_to!(eb => eb@[i])); }
                        stmt_view(eb@[i])
                    } else {
                        StmtView::Block(Seq::empty())
                    })),
                None => None,
            },
        },
        Stmt::While { condition, body } => StmtView::While {
            condition: expr_view(condition),
            body: Seq::new(body@.len(), |i: int|
                if 0 <= i < body@.len() {
                    proof { assert(decreases_to!(body => body@[i])); }
                    stmt_view(body@[i])
                } else {
                    StmtView::Block(Seq::empty())
                }),
        },
        Stmt::Block(b) => StmtView::Block(Seq::new(b@.len(), |i: int|
            if 0 <= i < b@.len() {
                proof { assert(decreases_to!(b => b@[i])); }
                stmt_view(b@[i])
            } else {
                StmtView::Block(Seq::empty())
            })),
    }
}

/// The views of a sequence of statements.
pub open spec fn stmts_view(ss: Seq<Stmt>) -> Seq<StmtView> {
    Seq::new(ss.len(), |i: int| stmt_view(ss[i]))
}

/// The view of a call is the call of the views.
pub proof fn lemma_call_view(callee: Expr, args: Vec<Expr>)
    ensures
        expr_view(Expr::FunctionCall { callee: Box::new(callee), args })
            == (ExprView::FunctionCall { callee: Box::new(expr_view(callee)), args: exprs_view(args@) }),
{
    let v = expr_view(Expr::FunctionCall { callee: Box::new(callee), args });
    if let ExprView::FunctionCall { callee: c, args: a } = v {
        assert(a =~= exprs_view(args@));
    }
}

/// The view of a block is the block of the views.
pub proof fn lemma_block_view(body: Vec<Stmt>)
    ensures
        stmt_view(Stmt::Block(body)) == StmtView::Block(stmts_view(body@)),
{
    if let StmtView::Block(b) = stmt_view(Stmt::Block(body)) {
        assert(b =~= stmts_view(body@));
    }
}

/// The view of a loop is the loop of the views.
pub proof fn lemma_while_view(condition: Expr, body: Vec<Stmt>)
    ensures
        stmt_view(Stmt::While { condition, body })
            == (StmtView::While { condition: expr_view(condition), body: stmts_view(body@) }),
{
    if let StmtView::While { condition: c, body: b } = stmt_view(Stmt::While { condition, body }) {
        assert(b =~= stmts_view(body@));
    }
}

/// The view of a conditional is the conditional of the views.
pub proof fn lemma_if_view(condition: Expr, then_body: Vec<Stmt>, else_body: Option<Vec<Stmt>>)
    ensures
        stmt_view(Stmt::If { condition, then_body, else_body })
            == (StmtView::If {
                condition: expr_view(condition),
                then_body: stmts_view(then_body@),
                else_body: match else_body { Some(eb) => Some(stmts_view(eb@)), None => None },
            }),
{
    if let StmtView::If { condition: c, then_body: t, else_body: e } = stmt_view(Stmt::If { condition, then_body, else_body }) {
        assert(t =~= stmts_view(then_body@));
        if let Some(eb) = else_body {
            assert(e->0 =~= stmts_view(eb@));
        }
    }
}

/// The view of a function definition is the definition of the views.
pub proof fn lemma_fn_view(name: String, params: Vec<String>, body: Vec<Stmt>)
    ensures
        stmt_view(Stmt::FunctionDef { name, params, body })
            == (StmtView::FunctionDef { name: name@, params: strings_view(params@), body: stmts_view(body@) }),
{
    if let StmtView::FunctionDef { name: n, params: p, body: b } = stmt_view(Stmt::FunctionDef { name, params, body }) {
        assert(b =~= stmts_view(body@));
    }
}

impl View for Expr {
    type V = ExprView;

    open spec fn view(&self) -> ExprView {
        expr_view(*self)
    }
}

impl View for Stmt {
    type V = StmtView;

    open spec fn view(&self) -> StmtView {
        stmt_view(*self)
    }
}


/// A copy of an expression.
pub fn copy_expr(e: &Expr) -> (r: Expr)
    ensures
        r@ == e@,
    decreases e,
{
    match e {
        Expr::Number(n) => Expr::Number(*n),
        Expr::Boolean(b) => Expr::Boolean(*b),
        Expr::String(s) => Expr::String(s.clone()),
        Expr::Identifier(s) => Expr::Identifier(s.clone()),
        Expr::Member { object, property } => Expr::Member { object: Box::new(copy_expr(object)), property: property.clone() },
        Expr::Index { object, index } => Expr::Index { object: Box::new(copy_expr(object)), index: Box::new(copy_expr(index)) },
        Expr::BinaryOp { left, op, right } => Expr::BinaryOp { left: Box::new(copy_expr(left)), op: *op, right: Box::new(copy_expr(right)) },
        Expr::FunctionCall { callee, args } => {
            let c = copy_expr(callee);
            let mut v: Vec<Expr> = Vec::new();
            let mut i: usize = 0;
            while i < args.len()
                invariant
                    i <= args@.len(),
                    *e is FunctionCall,
                    (*e)->FunctionCall_args == *args,
                    exprs_view(v@) == exprs_view(args@).subrange(0, i as int),
                decreases args@.len() - i,
            {
                proof { assert(decreases_to!(*args => args@[i as int])); }
                let x = copy_expr(&args[i]);
                let ghost v0 = v@;
                assert(exprs_view(v0).len() == v0.len());
                assert(v0.len() == i);
                v.push(x);
                proof {
                    assert forall|k: int| 0 <= k <= i implies #[trigger] exprs_view(v@)[k] == exprs_view(args@)[k] by {
                        if k < i {
                            assert(v@[k] == v0[k]);
                            assert(exprs_view(v0)[k] == exprs_view(args@).subrange(0, i as int)[k]);
                        }
                    }
                }
                i = i + 1;
                assert(exprs_view(v@) =~= exprs_view(args@).subrange(0, i as int));
            }
            assert(exprs_view(v@) =~= exprs_view(args@));
            proof {
                lemma_call_view(**callee, *args);
                lemma_call_view(c, v);
            }
            Expr::FunctionCall { callee: Box::new(c), args: v }
        },
    }
}

/// A copy of a list of statements.
pub fn copy_stmts(ss: &Vec<Stmt>) -> (r: Vec<Stmt>)
    ensures
        stmts_view(r@) == stmts_view(ss@),
    decreases ss, 0nat,
{
    let mut v: Vec<Stmt> = Vec::new();
    let mut i: usize = 0;
    while i < ss.len()
        invariant
            i <= ss@.len(),
            stmts_view(v@) == stmts_view(ss@).subrange(0, i as int),
        decreases ss@.len() - i,
    {
        proof { assert(decreases_to!(*ss => ss@[i as int])); }
        let x = copy_stmt(&ss[i]);
        let ghost v0 = v@;
        assert(stmts_view(v0).len() == v0.len());
        assert(v0.len() == i);
        v.push(x);
        proof {
            assert forall|k: int| 0 <= k <= i implies #[trigger] stmts_view(v@)[k] == stmts_view(ss@)[k] by {
                if k < i {
                    assert(v@[k] == v0[k]);
                    assert(stmts_view(v0)[k] == stmts_view(ss@).subrange(0, i as int)[k]);
                }
            }
        }
        i = i + 1;
        assert(stmts_view(v@) =~= stmts_view(ss@).subrange(0, i as int));
    }
    assert(stmts_view(v@) =~= stmts_view(ss@));
    v
}

/// A copy of a statement.
pub fn copy_stmt(s: &Stmt) -> (r: Stmt)
    ensures
        r@ == s@,
    decreases s, 1nat,
{
    match s {
        Stmt::Let { name, value } => Stmt::Let { name: name.clone(), value: copy_expr(value) },
        Stmt::Assignment { name, value } => Stmt::Assignment { name: name.clone(), value: copy_expr(value) },
        Stmt::Print(e) => Stmt::Print(copy_expr(e)),
        Stmt::Expression(e) => Stmt::Expression(copy_expr(e)),
        Stmt::Return(e) => Stmt::Return(copy_expr(e)),
        Stmt::Love(p) => Stmt::Love(p.clone()),
        Stmt::Export(n) => Stmt::Export(n.clone()),
        Stmt::FunctionDef { name, params, body } => {
            let ps = copy_strings(params);
            let b = copy_stmts(body);
            proof {
                lemma_fn_view(*name, *params, *body);
                lemma_fn_view(*name, ps, b);
                assert(strings_view(ps@) =~= strings_view(params@));
            }
            Stmt::FunctionDef { name: name.clone(), params: ps, body: b }
        },
        Stmt::If { condition, then_body, else_body } => {
            let c = copy_expr(condition);
            let t = copy_stmts(then_body);
            let e = match else_body {
                Some(eb) => Some(copy_stmts(eb)),
                None => None,
            };
            proof {
                lemma_if_view(*condition, *then_body, *else_body);
                lemma_if_view(c, t, e);
            }
            Stmt::If { condition: c, then_body: t, else_body: e }
        },
        Stmt::While { condition, body } => {
            let c = copy_expr(condition);
            let b = copy_stmts(body);
            proof {
                lemma_while_view(*condition, *body);
                lemma_while_view(c, b);
            }
            Stmt::While { condition: c, body: b }
        },
        Stmt::Block(ss) => {
            let b = copy_stmts(ss);
            proof {
                lemma_block_view(*ss);
                lemma_block_view(b);
            }
            Stmt::Block(b)
        },
    }
}

/// A copy of a list of strings.
pub fn copy_strings(v: &Vec<String>) -> (r: Vec<String>)
    ensures
        r@ == v@,
{
    let mut r: Vec<String> = Vec::new();
    let mut i: usize = 0;
    while i < v.len()
        invariant
            i <= v@.len(),
            r@ == v@.subrange(0, i as int),
        decreases v@.len() - i,
    {
        r.push(v[i].clone());
        i = i + 1;
        assert(r@ =~= v@.subrange(0, i as int));
    }
    assert(r@ =~= v@);
    r
}

} // verus!
