use vstd::prelude::*;
use crate::ast::{BinOp, Expr, Stmt, ExprView, StmtView, expr_view, stmt_view, exprs_view, stmts_view, strings_view,
    lemma_call_view, lemma_block_view, lemma_while_view, lemma_if_view, lemma_fn_view};
use crate::error::LiabError;
use crate::lexer::{Token, TokenOf, TokenView, token_debug, debug_token, token_views};
use crate::value::{is_renderer, renderer_of};

verus! {

/// A parse result: the value and the position after it, or an error message.
pub type PRes<T> = Result<(T, int), Seq<char>>;

/// The token at `i`, or `Eof` past either end.
pub open spec fn tok(ts: Seq<TokenView>, i: int) -> TokenView {
    if 0 <= i < ts.len() { ts[i] } else { TokenOf::Eof }
}

/// Tokens left to read from `pos` (zero past the end): the measure that
/// every recursive descent step decreases.
pub open spec fn fuel(ts: Seq<TokenView>, pos: int) -> nat {
    if pos > ts.len() { 0 } else if pos < 0 { (ts.len() + 1) as nat } else { (ts.len() + 1 - pos) as nat }
}

/// `Expected <expected>, found <found>`.
pub open spec fn expected_msg(expected: TokenView, found: TokenView, nd: spec_fn(u64) -> Seq<char>) -> Seq<char> {
    "Expected "@ + token_debug(expected, nd) + ", found "@ + token_debug(found, nd)
}

pub open spec fn semicolon_msg() -> Seq<char> {
    "Expected ';' after statement"@
}

/// The comparison operator of a token.
pub open spec fn comparison_op(t: TokenView) -> Option<BinOp> {
    match t {
        TokenOf::EqualEqual => Some(BinOp::Eq),
        TokenOf::BangEqual => Some(BinOp::Neq),
        TokenOf::Greater => Some(BinOp::Gt),
        TokenOf::Less => Some(BinOp::Lt),
        TokenOf::GreaterEqual => Some(BinOp::Gte),
        TokenOf::LessEqual => Some(BinOp::Lte),
        _ => None,
    }
}

/// The additive operator of a token.
pub open spec fn additive_op(t: TokenView) -> Option<BinOp> {
    match t {
        TokenOf::Plus => Some(BinOp::Add),
        TokenOf::Minus => Some(BinOp::Sub),
        _ => None,
    }
}

/// The multiplicative operator of a token.
pub open spec fn multiplicative_op(t: TokenView) -> Option<BinOp> {
    match t {
        TokenOf::Star => Some(BinOp::Mul),
        TokenOf::Slash => Some(BinOp::Div),
        _ => None,
    }
}

pub open spec fn binary(left: ExprView, op: BinOp, right: ExprView) -> ExprView {
    ExprView::BinaryOp { left: Box::new(left), op, right: Box::new(right) }
}

// ---- expressions -------------------------------------------------------

/// `expression := comparison`
pub open spec fn spec_expression(ts: Seq<TokenView>, nd: spec_fn(u64) -> Seq<char>, pos: int) -> PRes<ExprView>
    decreases fuel(ts, pos), 10nat,
{
    spec_comparison(ts, nd, pos)
}

/// `comparison := addition (cmp_op addition)*`
pub open spec fn spec_comparison(ts: Seq<TokenView>, nd: spec_fn(u64) -> Seq<char>, pos: int) -> PRes<ExprView>
    decreases fuel(ts, pos), 9nat,
{
    match spec_addition(ts, nd, pos) {
        Err(m) => Err(m),
        Ok((left, p)) => if p < pos { Err(Seq::empty()) } else { spec_comparison_rest(ts, nd, left, p) },
    }
}

pub open spec fn spec_comparison_rest(ts: Seq<TokenView>, nd: spec_fn(u64) -> Seq<char>, left: ExprView, pos: int) -> PRes<ExprView>
    decreases fuel(ts, pos), 8nat,
{
    match comparison_op(tok(ts, pos)) {
        None => Ok((left, pos)),
        Some(op) => match spec_addition(ts, nd, pos + 1) {
            Err(m) => Err(m),
            Ok((right, p)) => if p <= pos { Err(Seq::empty()) } else { spec_comparison_rest(ts, nd, binary(left, op, right), p) },
        },
    }
}

/// `addition := term (('+' | '-') term)*`
pub open spec fn spec_addition(ts: Seq<TokenView>, nd: spec_fn(u64) -> Seq<char>, pos: int) -> PRes<ExprView>
    decreases fuel(ts, pos), 7nat,
{
    match spec_term(ts, nd, pos) {
        Err(m) => Err(m),
        Ok((left, p)) => if p < pos { Err(Seq::empty()) } else { spec_addition_rest(ts, nd, left, p) },
    }
}

pub open spec fn spec_addition_rest(ts: Seq<TokenView>, nd: spec_fn(u64) -> Seq<char>, left: ExprView, pos: int) -> PRes<ExprView>
    decreases fuel(ts, pos), 6nat,
{
    match additive_op(tok(ts, pos)) {
        None => Ok((left, pos)),
        Some(op) => match spec_term(ts, nd, pos + 1) {
            Err(m) => Err(m),
            Ok((right, p)) => if p <= pos { Err(Seq::empty()) } else { spec_addition_rest(ts, nd, binary(left, op, right), p) },
        },
    }
}

/// `term := factor (('*' | '/') factor)*`
pub open spec fn spec_term(ts: Seq<TokenView>, nd: spec_fn(u64) -> Seq<char>, pos: int) -> PRes<ExprView>
    decreases fuel(ts, pos), 5nat,
{
    match spec_factor(ts, nd, pos) {
        Err(m) => Err(m),
        Ok((left, p)) => if p < pos { Err(Seq::empty()) } else { spec_term_rest(ts, nd, left, p) },
    }
}

pub open spec fn spec_term_rest(ts: Seq<TokenView>, nd: spec_fn(u64) -> Seq<char>, left: ExprView, pos: int) -> PRes<ExprView>
    decreases fuel(ts, pos), 4nat,
{
    match multiplicative_op(tok(ts, pos)) {
        None => Ok((left, pos)),
        Some(op) => match spec_factor(ts, nd, pos + 1) {
            Err(m) => Err(m),
            Ok((right, p)) => if p <= pos { Err(Seq::empty()) } else { spec_term_rest(ts, nd, binary(left, op, right), p) },
        },
    }
}

/// `factor := '(' expression ')' | number | string | true | false
///          | identifier postfix* | '-' factor`
pub open spec fn spec_factor(ts: Seq<TokenView>, nd: spec_fn(u64) -> Seq<char>, pos: int) -> PRes<ExprView>
    decreases fuel(ts, pos), 3nat,
{
    match tok(ts, pos) {
        TokenOf::LeftParen => match spec_expression(ts, nd, pos + 1) {
            Err(m) => Err(m),
            Ok((e, p)) => if tok(ts, p) == TokenOf::<Seq<char>>::RightParen {
                Ok((e, p + 1))
            } else {
                Err(expected_msg(TokenOf::RightParen, tok(ts, p), nd))
            },
        },
        TokenOf::Number(n) => Ok((ExprView::Number(n), pos + 1)),
        TokenOf::String(s) => Ok((ExprView::String(s), pos + 1)),
        TokenOf::True => Ok((ExprView::Boolean(true), pos + 1)),
        TokenOf::False => Ok((ExprView::Boolean(false), pos + 1)),
        TokenOf::Identifier(name) => spec_postfix(ts, nd, ExprView::Identifier(name), pos + 1),
        TokenOf::Minus => match spec_factor(ts, nd, pos + 1) {
            Err(m) => Err(m),
            Ok((e, p)) => Ok((binary(ExprView::Number(0), BinOp::Sub, e), p)),
        },
        other => Err("Unexpected token: "@ + token_debug(other, nd)),
    }
}

/// `postfix := '.' identifier | '[' expression ']' | '(' args ')'`, repeated.
pub open spec fn spec_postfix(ts: Seq<TokenView>, nd: spec_fn(u64) -> Seq<char>, e: ExprView, pos: int) -> PRes<ExprView>
    decreases fuel(ts, pos), 2nat,
{
    match tok(ts, pos) {
        TokenOf::Dot => match tok(ts, pos + 1) {
            TokenOf::Identifier(property) =>
                spec_postfix(ts, nd, ExprView::Member { object: Box::new(e), property }, pos + 2),
            other => Err("Expected property name after '.', found "@ + token_debug(other, nd)),
        },
        TokenOf::LeftBracket => match spec_expression(ts, nd, pos + 1) {
            Err(m) => Err(m),
            Ok((index, p)) => if p <= pos {
                Err(Seq::empty())
            } else if tok(ts, p) == TokenOf::<Seq<char>>::RightBracket {
                spec_postfix(ts, nd, ExprView::Index { object: Box::new(e), index: Box::new(index) }, p + 1)
            } else {
                Err(expected_msg(TokenOf::RightBracket, tok(ts, p), nd))
            },
        },
        TokenOf::LeftParen => {
            if tok(ts, pos + 1) == TokenOf::<Seq<char>>::RightParen {
                spec_postfix(ts, nd, ExprView::FunctionCall { callee: Box::new(e), args: Seq::empty() }, pos + 2)
            } else {
                match spec_call_args(ts, nd, Seq::empty(), pos + 1) {
                    Err(m) => Err(m),
                    Ok((args, p)) => if p <= pos {
                        Err(Seq::empty())
                    } else {
                        spec_postfix(ts, nd, ExprView::FunctionCall { callee: Box::new(e), args }, p)
                    },
                }
            }
        },
        _ => Ok((e, pos)),
    }
}

/// `args := expression (',' expression)* ')'` — the arguments after `acc`,
/// and the position after the closing parenthesis.
pub open spec fn spec_call_args(ts: Seq<TokenView>, nd: spec_fn(u64) -> Seq<char>, acc: Seq<ExprView>, pos: int) -> PRes<Seq<ExprView>>
    decreases fuel(ts, pos), 11nat,
{
    match spec_expression(ts, nd, pos) {
        Err(m) => Err(m),
        Ok((a, p)) => if p < pos {
            Err(Seq::empty())
        } else if tok(ts, p) == TokenOf::<Seq<char>>::Comma {
            spec_call_args(ts, nd, acc.push(a), p + 1)
        } else {
            close_args(ts, nd, acc.push(a), p)
        },
    }
}

/// The argument list `acc` ends at `p` with `)`.
pub open spec fn close_args(ts: Seq<TokenView>, nd: spec_fn(u64) -> Seq<char>, acc: Seq<ExprView>, p: int) -> PRes<Seq<ExprView>> {
    if tok(ts, p) == TokenOf::<Seq<char>>::RightParen {
        Ok((acc, p + 1))
    } else {
        Err(expected_msg(TokenOf::RightParen, tok(ts, p), nd))
    }
}

/// After an argument, at `p`: more arguments or the end of the list.
pub open spec fn after_arg(ts: Seq<TokenView>, nd: spec_fn(u64) -> Seq<char>, acc: Seq<ExprView>, p: int) -> PRes<Seq<ExprView>> {
    if tok(ts, p) == TokenOf::<Seq<char>>::Comma {
        spec_call_args(ts, nd, acc, p + 1)
    } else {
        close_args(ts, nd, acc, p)
    }
}

// ---- statements --------------------------------------------------------

/// `s` if the token at `p` is `;` (the statement ends after it).
pub open spec fn then_semicolon(ts: Seq<TokenView>, nd: spec_fn(u64) -> Seq<char>, s: StmtView, p: int) -> PRes<StmtView> {
    if tok(ts, p) == TokenOf::<Seq<char>>::Semicolon { Ok((s, p + 1)) } else { Err(semicolon_msg()) }
}

/// `program := statement* Eof` — the statements after `acc`.
pub open spec fn spec_program(ts: Seq<TokenView>, nd: spec_fn(u64) -> Seq<char>, acc: Seq<StmtView>, pos: int) -> Result<Seq<StmtView>, Seq<char>>
    decreases fuel(ts, pos), 30nat,
{
    if tok(ts, pos) == TokenOf::<Seq<char>>::Eof {
        Ok(acc)
    } else {
        match spec_statement(ts, nd, pos) {
            Err(m) => Err(m),
            Ok((st, p)) => if fuel(ts, p) >= fuel(ts, pos) { Err(Seq::empty()) } else { spec_program(ts, nd, acc.push(st), p) },
        }
    }
}

/// `block_items := statement* '}'` — the statements after `acc`.
pub open spec fn spec_block_items(ts: Seq<TokenView>, nd: spec_fn(u64) -> Seq<char>, acc: Seq<StmtView>, pos: int) -> PRes<Seq<StmtView>>
    decreases fuel(ts, pos), 25nat,
{
    if tok(ts, pos) == TokenOf::<Seq<char>>::RightBrace {
        Ok((acc, pos + 1))
    } else if tok(ts, pos) == TokenOf::<Seq<char>>::Eof {
        Err(expected_msg(TokenOf::RightBrace, TokenOf::Eof, nd))
    } else {
        match spec_statement(ts, nd, pos) {
            Err(m) => Err(m),
            Ok((st, p)) => if fuel(ts, p) >= fuel(ts, pos) { Err(Seq::empty()) } else { spec_block_items(ts, nd, acc.push(st), p) },
        }
    }
}

/// `block := '{' block_items`
pub open spec fn spec_block(ts: Seq<TokenView>, nd: spec_fn(u64) -> Seq<char>, pos: int) -> PRes<Seq<StmtView>>
    decreases fuel(ts, pos), 22nat,
{
    if tok(ts, pos) == TokenOf::<Seq<char>>::LeftBrace {
        spec_block_items(ts, nd, Seq::empty(), pos + 1)
    } else {
        Err(expected_msg(TokenOf::LeftBrace, tok(ts, pos), nd))
    }
}

/// One statement, chosen by its first token.
pub open spec fn spec_statement(ts: Seq<TokenView>, nd: spec_fn(u64) -> Seq<char>, pos: int) -> PRes<StmtView>
    decreases fuel(ts, pos), 24nat,
{
    match tok(ts, pos) {
        TokenOf::Fn => spec_function_def(ts, nd, pos),
        TokenOf::If => spec_if(ts, nd, pos),
        TokenOf::While => spec_while(ts, nd, pos),
        TokenOf::Return => spec_return(ts, nd, pos),
        TokenOf::Let => spec_let(ts, nd, pos),
        TokenOf::Print => spec_print(ts, nd, pos),
        TokenOf::Love => spec_love(ts, nd, pos),
        TokenOf::Export => spec_export(ts, nd, pos),
        TokenOf::LeftBrace => match spec_block(ts, nd, pos) {
            Err(m) => Err(m),
            Ok((b, p)) => Ok((StmtView::Block(b), p)),
        },
        TokenOf::Identifier(_) => if tok(ts, pos + 1) == TokenOf::<Seq<char>>::Equals {
            spec_assignment(ts, nd, pos)
        } else {
            spec_expression_statement(ts, nd, pos)
        },
        _ => spec_expression_statement(ts, nd, pos),
    }
}

/// `expression ';'`
pub open spec fn spec_expression_statement(ts: Seq<TokenView>, nd: spec_fn(u64) -> Seq<char>, pos: int) -> PRes<StmtView>
    decreases fuel(ts, pos), 23nat,
{
    match spec_expression(ts, nd, pos) {
        Err(m) => Err(m),
        Ok((e, p)) => then_semicolon(ts, nd, StmtView::Expression(e), p),
    }
}

/// `let identifier '=' expression ';'`
pub open spec fn spec_let(ts: Seq<TokenView>, nd: spec_fn(u64) -> Seq<char>, pos: int) -> PRes<StmtView>
    decreases fuel(ts, pos), 23nat,
{
    match tok(ts, pos + 1) {
        TokenOf::Identifier(name) => if tok(ts, pos + 2) == TokenOf::<Seq<char>>::Equals {
            match spec_expression(ts, nd, pos + 3) {
                Err(m) => Err(m),
                Ok((value, p)) => then_semicolon(ts, nd, StmtView::Let { name, value }, p),
            }
        } else {
            Err(expected_msg(TokenOf::Equals, tok(ts, pos + 2), nd))
        },
        other => Err("Expected variable name after 'let', found "@ + token_debug(other, nd)),
    }
}

/// `identifier '=' expression ';'`
pub open spec fn spec_assignment(ts: Seq<TokenView>, nd: spec_fn(u64) -> Seq<char>, pos: int) -> PRes<StmtView>
    decreases fuel(ts, pos), 23nat,
{
    match tok(ts, pos) {
        TokenOf::Identifier(name) => if tok(ts, pos + 1) == TokenOf::<Seq<char>>::Equals {
            match spec_expression(ts, nd, pos + 2) {
                Err(m) => Err(m),
                Ok((value, p)) => then_semicolon(ts, nd, StmtView::Assignment { name, value }, p),
            }
        } else {
            Err(expected_msg(TokenOf::Equals, tok(ts, pos + 1), nd))
        },
        other => Err("Expected variable name for assignment, found "@ + token_debug(other, nd)),
    }
}

/// `print expression ';'`
pub open spec fn spec_print(ts: Seq<TokenView>, nd: spec_fn(u64) -> Seq<char>, pos: int) -> PRes<StmtView>
    decreases fuel(ts, pos), 23nat,
{
    match spec_expression(ts, nd, pos + 1) {
        Err(m) => Err(m),
        Ok((e, p)) => then_semicolon(ts, nd, StmtView::Print(e), p),
    }
}

/// `return expression ';'`
pub open spec fn spec_return(ts: Seq<TokenView>, nd: spec_fn(u64) -> Seq<char>, pos: int) -> PRes<StmtView>
    decreases fuel(ts, pos), 23nat,
{
    match spec_expression(ts, nd, pos + 1) {
        Err(m) => Err(m),
        Ok((e, p)) => then_semicolon(ts, nd, StmtView::Return(e), p),
    }
}

/// `love string ';'`
pub open spec fn spec_love(ts: Seq<TokenView>, nd: spec_fn(u64) -> Seq<char>, pos: int) -> PRes<StmtView>
    decreases fuel(ts, pos), 23nat,
{
    if tok(ts, pos) == TokenOf::<Seq<char>>::Love {
        match tok(ts, pos + 1) {
            TokenOf::String(path) => then_semicolon(ts, nd, StmtView::Love(path), pos + 2),
            other => Err("Expected module string path after 'love', found "@ + token_debug(other, nd)),
        }
    } else {
        Err(expected_msg(TokenOf::Love, tok(ts, pos), nd))
    }
}

/// `export identifier ';'`
pub open spec fn spec_export(ts: Seq<TokenView>, nd: spec_fn(u64) -> Seq<char>, pos: int) -> PRes<StmtView>
    decreases fuel(ts, pos), 23nat,
{
    if tok(ts, pos) == TokenOf::<Seq<char>>::Export {
        match tok(ts, pos + 1) {
            TokenOf::Identifier(name) => then_semicolon(ts, nd, StmtView::Export(name), pos + 2),
            other => Err("Expected identifier after 'export', found "@ + token_debug(other, nd)),
        }
    } else {
        Err(expected_msg(TokenOf::Export, tok(ts, pos), nd))
    }
}

/// `while expression block`
pub open spec fn spec_while(ts: Seq<TokenView>, nd: spec_fn(u64) -> Seq<char>, pos: int) -> PRes<StmtView>
    decreases fuel(ts, pos), 23nat,
{
    match spec_expression(ts, nd, pos + 1) {
        Err(m) => Err(m),
        Ok((condition, p)) => if fuel(ts, p) >= fuel(ts, pos) {
            Err(Seq::empty())
        } else {
            match spec_block(ts, nd, p) {
                Err(m) => Err(m),
                Ok((body, q)) => Ok((StmtView::While { condition, body }, q)),
            }
        },
    }
}

/// `if expression block ('else' (if_statement | block))?`
pub open spec fn spec_if(ts: Seq<TokenView>, nd: spec_fn(u64) -> Seq<char>, pos: int) -> PRes<StmtView>
    decreases fuel(ts, pos), 23nat,
{
    match spec_expression(ts, nd, pos + 1) {
        Err(m) => Err(m),
        Ok((condition, p)) => if fuel(ts, p) >= fuel(ts, pos) {
            Err(Seq::empty())
        } else {
            match spec_block(ts, nd, p) {
                Err(m) => Err(m),
                Ok((then_body, q)) => if tok(ts, q) == TokenOf::<Seq<char>>::Else {
                    if fuel(ts, q + 1) >= fuel(ts, pos) {
                        Err(Seq::empty())
                    } else if tok(ts, q + 1) == TokenOf::<Seq<char>>::If {
                        match spec_if(ts, nd, q + 1) {
                            Err(m) => Err(m),
                            Ok((else_if, r)) => Ok((StmtView::If { condition, then_body, else_body: Some(seq![else_if]) }, r)),
                        }
                    } else {
                        match spec_block(ts, nd, q + 1) {
                            Err(m) => Err(m),
                            Ok((else_body, r)) => Ok((StmtView::If { condition, then_body, else_body: Some(else_body) }, r)),
                        }
                    }
                } else {
                    Ok((StmtView::If { condition, then_body, else_body: None }, q))
                },
            }
        },
    }
}

/// `(',' identifier)*` after the first parameter — the names after `acc`.
pub open spec fn spec_param_rest(ts: Seq<TokenView>, nd: spec_fn(u64) -> Seq<char>, acc: Seq<Seq<char>>, pos: int) -> PRes<Seq<Seq<char>>>
    decreases fuel(ts, pos), 1nat,
{
    if tok(ts, pos) == TokenOf::<Seq<char>>::Comma {
        match tok(ts, pos + 1) {
            TokenOf::Identifier(p) => spec_param_rest(ts, nd, acc.push(p), pos + 2),
            other => Err("Expected parameter name after ',', found "@ + token_debug(other, nd)),
        }
    } else {
        Ok((acc, pos))
    }
}

/// `params := (identifier (',' identifier)*)?` — the names, and where they end.
pub open spec fn spec_params(ts: Seq<TokenView>, nd: spec_fn(u64) -> Seq<char>, pos: int) -> PRes<Seq<Seq<char>>> {
    if tok(ts, pos) == TokenOf::<Seq<char>>::RightParen {
        Ok((Seq::empty(), pos))
    } else {
        match tok(ts, pos) {
            TokenOf::Identifier(p) => spec_param_rest(ts, nd, seq![p], pos + 1),
            other => Err("Expected parameter name, found "@ + token_debug(other, nd)),
        }
    }
}

/// `fn identifier '(' params ')' block`
pub open spec fn spec_function_def(ts: Seq<TokenView>, nd: spec_fn(u64) -> Seq<char>, pos: int) -> PRes<StmtView>
    decreases fuel(ts, pos), 23nat,
{
    match tok(ts, pos + 1) {
        TokenOf::Identifier(name) => if tok(ts, pos + 2) == TokenOf::<Seq<char>>::LeftParen {
            match spec_params(ts, nd, pos + 3) {
                Err(m) => Err(m),
                Ok((params, q)) => if tok(ts, q) != TokenOf::<Seq<char>>::RightParen {
                    Err(expected_msg(TokenOf::RightParen, tok(ts, q), nd))
                } else if fuel(ts, q + 1) >= fuel(ts, pos) {
                    Err(Seq::empty())
                } else {
                    match spec_block(ts, nd, q + 1) {
                        Err(m) => Err(m),
                        Ok((body, r)) => Ok((StmtView::FunctionDef { name, params, body }, r)),
                    }
                },
            }
        } else {
            Err(expected_msg(TokenOf::LeftParen, tok(ts, pos + 2), nd))
        },
        other => Err("Expected function name after 'fn', found "@ + token_debug(other, nd)),
    }
}

/// The statements of a whole token stream.
pub open spec fn spec_parse(ts: Seq<TokenView>, nd: spec_fn(u64) -> Seq<char>) -> Result<Seq<StmtView>, Seq<char>> {
    spec_program(ts, nd, Seq::empty(), 0)
}

// ---- outcomes -----------------------------------------------------------

/// `r` and the parser position `pos` agree with the specified result `s`.
pub open spec fn expr_outcome(r: Result<Expr, LiabError>, pos: int, s: PRes<ExprView>) -> bool {
    match s {
        Ok((v, p)) => r matches Ok(e) && e@ == v && pos == p,
        Err(m) => r matches Err(e) && e matches LiabError::SyntaxError(x) && x@ == m,
    }
}

pub open spec fn stmt_outcome(r: Result<Stmt, LiabError>, pos: int, s: PRes<StmtView>) -> bool {
    match s {
        Ok((v, p)) => r matches Ok(st) && st@ == v && pos == p,
        Err(m) => r matches Err(e) && e matches LiabError::SyntaxError(x) && x@ == m,
    }
}

pub open spec fn stmts_outcome(r: Result<Vec<Stmt>, LiabError>, pos: int, s: PRes<Seq<StmtView>>) -> bool {
    match s {
        Ok((v, p)) => r matches Ok(ss) && stmts_view(ss@) == v && pos == p,
        Err(m) => r matches Err(e) && e matches LiabError::SyntaxError(x) && x@ == m,
    }
}

fn syntax_error(m: String) -> (e: LiabError)
    ensures
        e matches LiabError::SyntaxError(x) && x@ == m@,
{
    LiabError::SyntaxError(m)
}

/// A copy of a token.
pub fn copy_token(t: &Token) -> (r: Token)
    ensures
        r@ == t@,
{
    match t {
        TokenOf::Number(n) => TokenOf::Number(*n),
        TokenOf::String(s) => TokenOf::String(s.clone()),
        TokenOf::Identifier(s) => TokenOf::Identifier(s.clone()),
        TokenOf::Plus => TokenOf::Plus,
        TokenOf::Minus => TokenOf::Minus,
        TokenOf::Star => TokenOf::Star,
        TokenOf::Slash => TokenOf::Slash,
        TokenOf::EqualEqual => TokenOf::EqualEqual,
        TokenOf::BangEqual => TokenOf::BangEqual,
        TokenOf::Greater => TokenOf::Greater,
        TokenOf::Less => TokenOf::Less,
        TokenOf::GreaterEqual => TokenOf::GreaterEqual,
        TokenOf::LessEqual => TokenOf::LessEqual,
        TokenOf::Equals => TokenOf::Equals,
        TokenOf::LeftParen => TokenOf::LeftParen,
        TokenOf::RightParen => TokenOf::RightParen,
        TokenOf::LeftBrace => TokenOf::LeftBrace,
        TokenOf::RightBrace => TokenOf::RightBrace,
        TokenOf::Semicolon => TokenOf::Semicolon,
        TokenOf::Comma => TokenOf::Comma,
        TokenOf::Bang => TokenOf::Bang,
        TokenOf::Dot => TokenOf::Dot,
        TokenOf::LeftBracket => TokenOf::LeftBracket,
        TokenOf::RightBracket => TokenOf::RightBracket,
        TokenOf::Let => TokenOf::Let,
        TokenOf::Print => TokenOf::Print,
        TokenOf::Fn => TokenOf::Fn,
        TokenOf::Return => TokenOf::Return,
        TokenOf::If => TokenOf::If,
        TokenOf::Else => TokenOf::Else,
        TokenOf::While => TokenOf::While,
        TokenOf::True => TokenOf::True,
        TokenOf::False => TokenOf::False,
        TokenOf::Love => TokenOf::Love,
        TokenOf::Export => TokenOf::Export,
        TokenOf::Eof => TokenOf::Eof,
    }
}

impl TokenOf<String> {
    /// `true` for `=`.
    pub fn is_equals(&self) -> (r: bool)
        ensures
            r == (self@ == TokenOf::<Seq<char>>::Equals),
    {
        match self {
            TokenOf::Equals => true,
            _ => false,
        }
    }
}

/// `true` when the two tokens are equal.
pub fn same_token(a: &Token, b: &Token) -> (r: bool)
    ensures
        r == (a@ == b@),
{
    match (a, b) {
        (TokenOf::Number(x), TokenOf::Number(y)) => *x == *y,
        (TokenOf::String(x), TokenOf::String(y)) => *x == *y,
        (TokenOf::Identifier(x), TokenOf::Identifier(y)) => *x == *y,
        (TokenOf::Number(_), _) | (TokenOf::String(_), _) | (TokenOf::Identifier(_), _) => false,
        (_, TokenOf::Number(_)) | (_, TokenOf::String(_)) | (_, TokenOf::Identifier(_)) => false,
        _ => {
            assert(a@ == unit_token_of_rank(unit_token_rank(a@)));
            assert(b@ == unit_token_of_rank(unit_token_rank(b@)));
            unit_token_index(a) == unit_token_index(b)
        },
    }
}

/// The position of a token kind in the declaration order (0 for tokens with text).
fn unit_token_index(t: &Token) -> (i: u8)
    ensures
        i == unit_token_rank(t@),
{
    match t {
        TokenOf::Plus => 1,
        TokenOf::Minus => 2,
        TokenOf::Star => 3,
        TokenOf::Slash => 4,
        TokenOf::EqualEqual => 5,
        TokenOf::BangEqual => 6,
        TokenOf::Greater => 7,
        TokenOf::Less => 8,
        TokenOf::GreaterEqual => 9,
        TokenOf::LessEqual => 10,
        TokenOf::Equals => 11,
        TokenOf::LeftParen => 12,
        TokenOf::RightParen => 13,
        TokenOf::LeftBrace => 14,
        TokenOf::RightBrace => 15,
        TokenOf::Semicolon => 16,
        TokenOf::Comma => 17,
        TokenOf::Bang => 18,
        TokenOf::Dot => 19,
        TokenOf::LeftBracket => 20,
        TokenOf::RightBracket => 21,
        TokenOf::Let => 22,
        TokenOf::Print => 23,
        TokenOf::Fn => 24,
        TokenOf::Return => 25,
        TokenOf::If => 26,
        TokenOf::Else => 27,
        TokenOf::While => 28,
        TokenOf::True => 29,
        TokenOf::False => 30,
        TokenOf::Love => 31,
        TokenOf::Export => 32,
        TokenOf::Eof => 33,
        _ => 0,
    }
}

pub open spec fn unit_token_rank(t: TokenView) -> u8 {
    match t {
        TokenOf::Plus => 1,
        TokenOf::Minus => 2,
        TokenOf::Star => 3,
        TokenOf::Slash => 4,
        TokenOf::EqualEqual => 5,
        TokenOf::BangEqual => 6,
        TokenOf::Greater => 7,
        TokenOf::Less => 8,
        TokenOf::GreaterEqual => 9,
        TokenOf::LessEqual => 10,
        TokenOf::Equals => 11,
        TokenOf::LeftParen => 12,
        TokenOf::RightParen => 13,
        TokenOf::LeftBrace => 14,
        TokenOf::RightBrace => 15,
        TokenOf::Semicolon => 16,
        TokenOf::Comma => 17,
        TokenOf::Bang => 18,
        TokenOf::Dot => 19,
        TokenOf::LeftBracket => 20,
        TokenOf::RightBracket => 21,
        TokenOf::Let => 22,
        TokenOf::Print => 23,
        TokenOf::Fn => 24,
        TokenOf::Return => 25,
        TokenOf::If => 26,
        TokenOf::Else => 27,
        TokenOf::While => 28,
        TokenOf::True => 29,
        TokenOf::False => 30,
        TokenOf::Love => 31,
        TokenOf::Export => 32,
        TokenOf::Eof => 33,
        _ => 0,
    }
}

/// The token kind at a rank (inverse of `unit_token_rank`).
pub open spec fn unit_token_of_rank(i: u8) -> TokenView {
    if i == 1 { TokenOf::Plus } else
    if i == 2 { TokenOf::Minus } else
    if i == 3 { TokenOf::Star } else
    if i == 4 { TokenOf::Slash } else
    if i == 5 { TokenOf::EqualEqual } else
    if i == 6 { TokenOf::BangEqual } else
    if i == 7 { TokenOf::Greater } else
    if i == 8 { TokenOf::Less } else
    if i == 9 { TokenOf::GreaterEqual } else
    if i == 10 { TokenOf::LessEqual } else
    if i == 11 { TokenOf::Equals } else
    if i == 12 { TokenOf::LeftParen } else
    if i == 13 { TokenOf::RightParen } else
    if i == 14 { TokenOf::LeftBrace } else
    if i == 15 { TokenOf::RightBrace } else
    if i == 16 { TokenOf::Semicolon } else
    if i == 17 { TokenOf::Comma } else
    if i == 18 { TokenOf::Bang } else
    if i == 19 { TokenOf::Dot } else
    if i == 20 { TokenOf::LeftBracket } else
    if i == 21 { TokenOf::RightBracket } else
    if i == 22 { TokenOf::Let } else
    if i == 23 { TokenOf::Print } else
    if i == 24 { TokenOf::Fn } else
    if i == 25 { TokenOf::Return } else
    if i == 26 { TokenOf::If } else
    if i == 27 { TokenOf::Else } else
    if i == 28 { TokenOf::While } else
    if i == 29 { TokenOf::True } else
    if i == 30 { TokenOf::False } else
    if i == 31 { TokenOf::Love } else
    if i == 32 { TokenOf::Export } else
    if i == 33 { TokenOf::Eof } else { TokenOf::Number(0) }
}

fn comparison_of(t: &Token) -> (r: Option<BinOp>)
    ensures
        r == comparison_op(t@),
{
    match t {
        TokenOf::EqualEqual => Some(BinOp::Eq),
        TokenOf::BangEqual => Some(BinOp::Neq),
        TokenOf::Greater => Some(BinOp::Gt),
        TokenOf::Less => Some(BinOp::Lt),
        TokenOf::GreaterEqual => Some(BinOp::Gte),
        TokenOf::LessEqual => Some(BinOp::Lte),
        _ => None,
    }
}

fn additive_of(t: &Token) -> (r: Option<BinOp>)
    ensures
        r == additive_op(t@),
{
    match t {
        TokenOf::Plus => Some(BinOp::Add),
        TokenOf::Minus => Some(BinOp::Sub),
        _ => None,
    }
}

fn multiplicative_of(t: &Token) -> (r: Option<BinOp>)
    ensures
        r == multiplicative_op(t@),
{
    match t {
        TokenOf::Star => Some(BinOp::Mul),
        TokenOf::Slash => Some(BinOp::Div),
        _ => None,
    }
}

/// The parser state: the token list and a cursor into it.
pub struct Parser {
    tokens: Vec<Token>,
    /// Current position in the token list.
    pos: usize,
    /// What reading past the end gives.
    eof: Token,
}

impl Parser {
    #[verifier::type_invariant]
    spec fn inv(&self) -> bool {
        &&& self.pos <= self.tokens@.len()
        &&& self.eof@ == TokenOf::<Seq<char>>::Eof
    }

    /// The tokens being parsed.
    pub closed spec fn ts(&self) -> Seq<TokenView> {
        token_views(self.tokens@)
    }

    /// The cursor.
    pub closed spec fn position(&self) -> int {
        self.pos as int
    }

    /// A parser at the start of `tokens`.
    pub fn new(tokens: Vec<Token>) -> (p: Self)
        ensures
            p.ts() == token_views(tokens@),
            p.position() == 0,
    {
        Parser { tokens, pos: 0, eof: TokenOf::Eof }
    }

    /// The current token (`Eof` past the end).
    fn peek(&self) -> (t: &Token)
        ensures
            t@ == tok(self.ts(), self.pos as int),
    {
        proof { use_type_invariant(self); }
        if self.pos < self.tokens.len() {
            &self.tokens[self.pos]
        } else {
            &self.eof
        }
    }

    /// The token `offset` places ahead (`Eof` past the end).
    fn peek_at(&self, offset: usize) -> (t: &Token)
        ensures
            t@ == tok(self.ts(), self.pos + offset),
    {
        proof { use_type_invariant(self); }
        if offset < self.tokens.len() - self.pos {
            &self.tokens[self.pos + offset]
        } else {
            &self.eof
        }
    }

    /// Consumes the current token and returns it.
    fn advance(&mut self) -> (t: Token)
        ensures
            t@ == tok(old(self).ts(), old(self).pos as int),
            final(self).ts() == old(self).ts(),
            final(self).pos == (if old(self).pos < old(self).ts().len() { old(self).pos + 1 } else { old(self).pos as int }),
    {
        proof { use_type_invariant(&*self); }
        let t = copy_token(self.peek());
        if self.pos < self.tokens.len() {
            self.pos = self.pos + 1;
        }
        t
    }

    /// `true` when the current token is `expected`.
    fn check(&self, expected: &Token) -> (r: bool)
        ensures
            r == (tok(self.ts(), self.pos as int) == expected@),
    {
        same_token(self.peek(), expected)
    }

    /// Consumes the current token, which must be `expected`.
    fn expect<G: Fn(u64) -> String>(&mut self, expected: &Token, dbg: &G) -> (r: Result<(), LiabError>)
        requires
            is_renderer(*dbg),
            !(expected@ is Eof),
        ensures
            final(self).ts() == old(self).ts(),
            final(self).pos >= old(self).pos,
            r is Ok <==> tok(old(self).ts(), old(self).pos as int) == expected@,
            r is Ok ==> final(self).pos == old(self).pos + 1,
            r matches Err(e) ==> e matches LiabError::SyntaxError(x)
                && x@ == expected_msg(expected@, tok(old(self).ts(), old(self).pos as int), renderer_of(*dbg)),
    {
        proof { use_type_invariant(&*self); }
        let tok = self.advance();
        if same_token(&tok, expected) {
            Ok(())
        } else {
            let mut m = String::from_str("Expected ");
            m.append(debug_token(expected, dbg).as_str());
            m.append(", found ");
            m.append(debug_token(&tok, dbg).as_str());
            Err(syntax_error(m))
        }
    }

    /// Consumes the current token, which must be `;`.
    fn expect_semicolon(&mut self) -> (r: Result<(), LiabError>)
        ensures
            final(self).ts() == old(self).ts(),
            final(self).pos >= old(self).pos,
            r is Ok <==> tok(old(self).ts(), old(self).pos as int) == TokenOf::<Seq<char>>::Semicolon,
            r is Ok ==> final(self).pos == old(self).pos + 1,
            r matches Err(e) ==> e matches LiabError::SyntaxError(x) && x@ == semicolon_msg(),
    {
        proof { use_type_invariant(&*self); }
        let tok = self.advance();
        match tok {
            TokenOf::Semicolon => Ok(()),
            _ => Err(syntax_error(String::from_str("Expected ';' after statement"))),
        }
    }

    /// Entry point for expression parsing.
    fn parse_expression<G: Fn(u64) -> String>(&mut self, dbg: &G) -> (r: Result<Expr, LiabError>)
        requires
            is_renderer(*dbg),
        ensures
            final(self).ts() == old(self).ts(),
            final(self).pos >= old(self).pos,
            expr_outcome(r, final(self).pos as int, spec_expression(old(self).ts(), renderer_of(*dbg), old(self).pos as int)),
            r is Ok ==> final(self).pos > old(self).pos,
        decreases fuel(old(self).ts(), old(self).pos as int), 10nat,
    {
        self.parse_comparison(dbg)
    }

    /// Lowest precedence: comparison operators.
    fn parse_comparison<G: Fn(u64) -> String>(&mut self, dbg: &G) -> (r: Result<Expr, LiabError>)
        requires
            is_renderer(*dbg),
        ensures
            final(self).ts() == old(self).ts(),
            final(self).pos >= old(self).pos,
            expr_outcome(r, final(self).pos as int, spec_comparison(old(self).ts(), renderer_of(*dbg), old(self).pos as int)),
            r is Ok ==> final(self).pos > old(self).pos,
        decreases fuel(old(self).ts(), old(self).pos as int), 9nat,
    {
        proof { use_type_invariant(&*self); }
        let ghost ts = self.ts();
        let ghost pos0 = self.pos as int;
        let mut left = self.parse_addition(dbg)?;
        proof { use_type_invariant(&*self); }
        let mut op_opt = comparison_of(self.peek());
        while op_opt.is_some()
            invariant
                is_renderer(*dbg),
                self.ts() == ts,
                old(self).ts() == ts,
                old(self).pos == pos0,
                pos0 < self.pos <= ts.len(),
                0 <= pos0,
                op_opt == comparison_op(tok(ts, self.pos as int)),
                spec_comparison(ts, renderer_of(*dbg), pos0) == spec_comparison_rest(ts, renderer_of(*dbg), left@, self.pos as int),
            decreases ts.len() - self.pos,
        {
            proof { use_type_invariant(&*self); }
            let op = op_opt.unwrap();
            self.advance();
            let right = self.parse_addition(dbg)?;
            left = Expr::BinaryOp { left: Box::new(left), op, right: Box::new(right) };
            op_opt = comparison_of(self.peek());
            proof { use_type_invariant(&*self); }
        }
        Ok(left)
    }

    /// Addition and subtraction.
    fn parse_addition<G: Fn(u64) -> String>(&mut self, dbg: &G) -> (r: Result<Expr, LiabError>)
        requires
            is_renderer(*dbg),
        ensures
            final(self).ts() == old(self).ts(),
            final(self).pos >= old(self).pos,
            expr_outcome(r, final(self).pos as int, spec_addition(old(self).ts(), renderer_of(*dbg), old(self).pos as int)),
            r is Ok ==> final(self).pos > old(self).pos,
        decreases fuel(old(self).ts(), old(self).pos as int), 7nat,
    {
        proof { use_type_invariant(&*self); }
        let ghost ts = self.ts();
        let ghost pos0 = self.pos as int;
        let mut left = self.parse_term(dbg)?;
        proof { use_type_invariant(&*self); }
        let mut op_opt = additive_of(self.peek());
        while op_opt.is_some()
            invariant
                is_renderer(*dbg),
                self.ts() == ts,
                old(self).ts() == ts,
                old(self).pos == pos0,
                pos0 < self.pos <= ts.len(),
                0 <= pos0,
                op_opt == additive_op(tok(ts, self.pos as int)),
                spec_addition(ts, renderer_of(*dbg), pos0) == spec_addition_rest(ts, renderer_of(*dbg), left@, self.pos as int),
            decreases ts.len() - self.pos,
        {
            proof { use_type_invariant(&*self); }
            let op = op_opt.unwrap();
            self.advance();
            let right = self.parse_term(dbg)?;
            left = Expr::BinaryOp { left: Box::new(left), op, right: Box::new(right) };
            op_opt = additive_of(self.peek());
            proof { use_type_invariant(&*self); }
        }
        Ok(left)
    }

    /// Multiplication and division.
    fn parse_term<G: Fn(u64) -> String>(&mut self, dbg: &G) -> (r: Result<Expr, LiabError>)
        requires
            is_renderer(*dbg),
        ensures
            final(self).ts() == old(self).ts(),
            final(self).pos >= old(self).pos,
            expr_outcome(r, final(self).pos as int, spec_term(old(self).ts(), renderer_of(*dbg), old(self).pos as int)),
            r is Ok ==> final(self).pos > old(self).pos,
        decreases fuel(old(self).ts(), old(self).pos as int), 5nat,
    {
        proof { use_type_invariant(&*self); }
        let ghost ts = self.ts();
        let ghost pos0 = self.pos as int;
        let mut left = self.parse_factor(dbg)?;
        proof { use_type_invariant(&*self); }
        let mut op_opt = multiplicative_of(self.peek());
        while op_opt.is_some()
            invariant
                is_renderer(*dbg),
                self.ts() == ts,
                old(self).ts() == ts,
                old(self).pos == pos0,
                pos0 < self.pos <= ts.len(),
                0 <= pos0,
                op_opt == multiplicative_op(tok(ts, self.pos as int)),
                spec_term(ts, renderer_of(*dbg), pos0) == spec_term_rest(ts, renderer_of(*dbg), left@, self.pos as int),
            decreases ts.len() - self.pos,
        {
            proof { use_type_invariant(&*self); }
            let op = op_opt.unwrap();
            self.advance();
            let right = self.parse_factor(dbg)?;
            left = Expr::BinaryOp { left: Box::new(left), op, right: Box::new(right) };
            op_opt = multiplicative_of(self.peek());
            proof { use_type_invariant(&*self); }
        }
        Ok(left)
    }
}

/// What may follow an expression: 1 `.`, 2 `[`, 3 `(`, 0 anything else.
fn postfix_kind(t: &Token) -> (k: u8)
    ensures
        k == postfix_rank(t@),
{
    match t {
        TokenOf::Dot => 1,
        TokenOf::LeftBracket => 2,
        TokenOf::LeftParen => 3,
        _ => 0,
    }
}

pub open spec fn postfix_rank(t: TokenView) -> u8 {
    match t {
        TokenOf::Dot => 1,
        TokenOf::LeftBracket => 2,
        TokenOf::LeftParen => 3,
        _ => 0,
    }
}

impl Parser {
    /// Member accesses, indexes and calls applied to `expr`, left to right.
    #[verifier::loop_isolation(false)]
    fn parse_postfix<G: Fn(u64) -> String>(&mut self, expr: Expr, dbg: &G) -> (r: Result<Expr, LiabError>)
        requires
            is_renderer(*dbg),
        ensures
            final(self).ts() == old(self).ts(),
            final(self).pos >= old(self).pos,
            expr_outcome(r, final(self).pos as int, spec_postfix(old(self).ts(), renderer_of(*dbg), expr@, old(self).pos as int)),
        decreases fuel(old(self).ts(), old(self).pos as int), 2nat,
    {
        proof { use_type_invariant(&*self); }
        let ghost ts = self.ts();
        let ghost pos0 = self.pos as int;
        let ghost e0 = expr@;
        let mut expr = expr;
            let mut k = postfix_kind(self.peek());
            while k != 0
                invariant
                    is_renderer(*dbg),
                    self.ts() == ts,
                    old(self).ts() == ts,
                    old(self).pos == pos0,
                    0 <= pos0 <= self.pos <= ts.len(),
                    k == postfix_rank(tok(ts, self.pos as int)),
                    spec_postfix(ts, renderer_of(*dbg), e0, pos0) == spec_postfix(ts, renderer_of(*dbg), expr@, self.pos as int),
                decreases ts.len() - self.pos,
            {
                proof { use_type_invariant(&*self); }
                let ghost p = self.pos as int;
                if k == 1 {
                    self.advance();
                    let prop = self.advance();
                    match prop {
                        TokenOf::Identifier(property) => {
                            expr = Expr::Member { object: Box::new(expr), property };
                        },
                        other => {
                            let mut m = String::from_str("Expected property name after '.', found ");
                            m.append(debug_token(&other, dbg).as_str());
                            return Err(syntax_error(m));
                        },
                    }
                } else if k == 2 {
                    self.advance();
                    let index = self.parse_expression(dbg)?;
                    self.expect(&TokenOf::RightBracket, dbg)?;
                    expr = Expr::Index { object: Box::new(expr), index: Box::new(index) };
                } else {
                    self.advance();
                    let mut args: Vec<Expr> = Vec::new();
                    if !self.check(&TokenOf::RightParen) {
                        let ghost start = self.pos as int;
                        let first = self.parse_expression(dbg)?;
                        proof { use_type_invariant(&*self); }
                        args.push(first);
                        assert(exprs_view(args@) =~= seq![first@]);
                        assert(spec_call_args(ts, renderer_of(*dbg), Seq::empty(), start)
                            == after_arg(ts, renderer_of(*dbg), exprs_view(args@), self.pos as int));
                        while self.check(&TokenOf::Comma)
                            invariant
                                is_renderer(*dbg),
                                self.ts() == ts,
                                old(self).ts() == ts,
                                old(self).pos == pos0,
                                0 <= pos0 <= p,
                                start == p + 1,
                                start < self.pos <= ts.len(),
                                tok(ts, p) == TokenOf::<Seq<char>>::LeftParen,
                                tok(ts, start) != TokenOf::<Seq<char>>::RightParen,
                                spec_postfix(ts, renderer_of(*dbg), e0, pos0) == spec_postfix(ts, renderer_of(*dbg), expr@, p),
                                spec_call_args(ts, renderer_of(*dbg), Seq::empty(), start)
                                    == after_arg(ts, renderer_of(*dbg), exprs_view(args@), self.pos as int),
                            decreases ts.len() - self.pos,
                        {
                            proof { use_type_invariant(&*self); }
                            self.advance();
                            let ghost before = exprs_view(args@);
                            let a = self.parse_expression(dbg)?;
                            args.push(a);
                            assert(exprs_view(args@) =~= before.push(a@));
                            proof { use_type_invariant(&*self); }
                        }
                        self.expect(&TokenOf::RightParen, dbg)?;
                    } else {
                        self.expect(&TokenOf::RightParen, dbg)?;
                        assert(exprs_view(args@) =~= Seq::<ExprView>::empty());
                    }
                    proof { lemma_call_view(expr, args); }
                    expr = Expr::FunctionCall { callee: Box::new(expr), args };
                }
                proof { use_type_invariant(&*self); }
                k = postfix_kind(self.peek());
            }
        Ok(expr)
    }

    /// Highest precedence: parenthesised groups, literals, identifiers with
    /// their member accesses, indexes and calls, and unary minus.
    fn parse_factor<G: Fn(u64) -> String>(&mut self, dbg: &G) -> (r: Result<Expr, LiabError>)
        requires
            is_renderer(*dbg),
        ensures
            final(self).ts() == old(self).ts(),
            final(self).pos >= old(self).pos,
            expr_outcome(r, final(self).pos as int, spec_factor(old(self).ts(), renderer_of(*dbg), old(self).pos as int)),
            r is Ok ==> final(self).pos > old(self).pos,
        decreases fuel(old(self).ts(), old(self).pos as int), 3nat,
    {
        proof { use_type_invariant(&*self); }
        let ghost ts = self.ts();
        let ghost pos0 = self.pos as int;
        let t = copy_token(self.peek());
        match t {
            TokenOf::LeftParen => {
                self.advance();
                let expr = self.parse_expression(dbg)?;
                self.expect(&TokenOf::RightParen, dbg)?;
                Ok(expr)
            },
            TokenOf::Number(n) => {
                self.advance();
                Ok(Expr::Number(n))
            },
            TokenOf::String(s) => {
                self.advance();
                Ok(Expr::String(s))
            },
            TokenOf::True => {
                self.advance();
                Ok(Expr::Boolean(true))
            },
            TokenOf::False => {
                self.advance();
                Ok(Expr::Boolean(false))
            },
            TokenOf::Identifier(name) => {
                self.advance();
                self.parse_postfix(Expr::Identifier(name), dbg)
            },
            TokenOf::Minus => {
                self.advance();
                let expr = self.parse_factor(dbg)?;
                assert(expr_view(Expr::Number(0)) == ExprView::Number(0));
                Ok(Expr::BinaryOp { left: Box::new(Expr::Number(0)), op: BinOp::Sub, right: Box::new(expr) })
            },
            other => {
                let mut m = String::from_str("Unexpected token: ");
                m.append(debug_token(&other, dbg).as_str());
                Err(syntax_error(m))
            },
        }
    }
}

/// The first token of a statement, as far as the parser's dispatch is concerned.
pub open spec fn statement_kind(t: TokenView) -> u8 {
    match t {
        TokenOf::Fn => 1,
        TokenOf::If => 2,
        TokenOf::While => 3,
        TokenOf::Return => 4,
        TokenOf::Let => 5,
        TokenOf::Print => 6,
        TokenOf::Love => 7,
        TokenOf::Export => 8,
        TokenOf::LeftBrace => 9,
        TokenOf::Identifier(_) => 10,
        _ => 0,
    }
}

fn statement_kind_of(t: &Token) -> (k: u8)
    ensures
        k == statement_kind(t@),
{
    match t {
        TokenOf::Fn => 1,
        TokenOf::If => 2,
        TokenOf::While => 3,
        TokenOf::Return => 4,
        TokenOf::Let => 5,
        TokenOf::Print => 6,
        TokenOf::Love => 7,
        TokenOf::Export => 8,
        TokenOf::LeftBrace => 9,
        TokenOf::Identifier(_) => 10,
        _ => 0,
    }
}

impl Parser {
    /// Parses the token stream, from the cursor, into a list of statements.
    pub fn parse<G: Fn(u64) -> String>(&mut self, dbg: &G) -> (r: Result<Vec<Stmt>, LiabError>)
        requires
            is_renderer(*dbg),
        ensures
            final(self).ts() == old(self).ts(),
            r is Ok <==> spec_program(old(self).ts(), renderer_of(*dbg), Seq::empty(), old(self).position()) is Ok,
            r matches Ok(ss) ==> stmts_view(ss@) == spec_program(old(self).ts(), renderer_of(*dbg), Seq::empty(), old(self).position())->Ok_0,
            r matches Err(e) ==> e matches LiabError::SyntaxError(x)
                && x@ == spec_program(old(self).ts(), renderer_of(*dbg), Seq::empty(), old(self).position())->Err_0,
    {
        proof { use_type_invariant(&*self); }
        let ghost ts = self.ts();
        let ghost pos0 = self.pos as int;
        let mut stmts: Vec<Stmt> = Vec::new();
        assert(stmts_view(stmts@) =~= Seq::<StmtView>::empty());
        while !self.check(&TokenOf::Eof)
            invariant
                is_renderer(*dbg),
                self.ts() == ts,
                old(self).ts() == ts,
                old(self).pos == pos0,
                0 <= pos0 <= self.pos <= ts.len(),
                spec_program(ts, renderer_of(*dbg), Seq::empty(), pos0) == spec_program(ts, renderer_of(*dbg), stmts_view(stmts@), self.pos as int),
            decreases ts.len() - self.pos,
        {
            proof { use_type_invariant(&*self); }
            let ghost before = stmts_view(stmts@);
            let st = self.parse_statement(dbg)?;
            proof { use_type_invariant(&*self); }
            stmts.push(st);
            assert(stmts_view(stmts@) =~= before.push(st@));
        }
        Ok(stmts)
    }

    /// One statement.
    fn parse_statement<G: Fn(u64) -> String>(&mut self, dbg: &G) -> (r: Result<Stmt, LiabError>)
        requires
            is_renderer(*dbg),
        ensures
            final(self).ts() == old(self).ts(),
            final(self).pos >= old(self).pos,
            stmt_outcome(r, final(self).pos as int, spec_statement(old(self).ts(), renderer_of(*dbg), old(self).pos as int)),
            r is Ok ==> final(self).pos > old(self).pos,
        decreases fuel(old(self).ts(), old(self).pos as int), 24nat,
    {
        proof { use_type_invariant(&*self); }
        let k = statement_kind_of(self.peek());
        if k == 1 {
            self.parse_function_def(dbg)
        } else if k == 2 {
            self.parse_if(dbg)
        } else if k == 3 {
            self.parse_while(dbg)
        } else if k == 4 {
            self.parse_return(dbg)
        } else if k == 5 {
            self.parse_let(dbg)
        } else if k == 6 {
            self.parse_print(dbg)
        } else if k == 7 {
            self.parse_love_statement(dbg)
        } else if k == 8 {
            self.parse_export_statement(dbg)
        } else if k == 9 {
            let body = self.parse_block(dbg)?;
            proof { lemma_block_view(body); }
            Ok(Stmt::Block(body))
        } else if k == 10 && self.peek_at(1).is_equals() {
            self.parse_assignment(dbg)
        } else {
            self.parse_expression_statement(dbg)
        }
    }

    /// `<expr>;`
    fn parse_expression_statement<G: Fn(u64) -> String>(&mut self, dbg: &G) -> (r: Result<Stmt, LiabError>)
        requires
            is_renderer(*dbg),
        ensures
            final(self).ts() == old(self).ts(),
            final(self).pos >= old(self).pos,
            stmt_outcome(r, final(self).pos as int, spec_expression_statement(old(self).ts(), renderer_of(*dbg), old(self).pos as int)),
            r is Ok ==> final(self).pos > old(self).pos,
        decreases fuel(old(self).ts(), old(self).pos as int), 23nat,
    {
        let expr = self.parse_expression(dbg)?;
        self.expect_semicolon()?;
        Ok(Stmt::Expression(expr))
    }

    /// `let <name> = <expr>;`
    fn parse_let<G: Fn(u64) -> String>(&mut self, dbg: &G) -> (r: Result<Stmt, LiabError>)
        requires
            is_renderer(*dbg),
            tok(old(self).ts(), old(self).pos as int) == TokenOf::<Seq<char>>::Let,
        ensures
            final(self).ts() == old(self).ts(),
            final(self).pos >= old(self).pos,
            stmt_outcome(r, final(self).pos as int, spec_let(old(self).ts(), renderer_of(*dbg), old(self).pos as int)),
            r is Ok ==> final(self).pos > old(self).pos,
        decreases fuel(old(self).ts(), old(self).pos as int), 23nat,
    {
        proof { use_type_invariant(&*self); }
        self.advance();
        let name = match self.advance() {
            TokenOf::Identifier(n) => n,
            other => {
                let mut m = String::from_str("Expected variable name after 'let', found ");
                m.append(debug_token(&other, dbg).as_str());
                return Err(syntax_error(m));
            },
        };
        self.expect(&TokenOf::Equals, dbg)?;
        let value = self.parse_expression(dbg)?;
        self.expect_semicolon()?;
        Ok(Stmt::Let { name, value })
    }

    /// `print <expr>;`
    fn parse_print<G: Fn(u64) -> String>(&mut self, dbg: &G) -> (r: Result<Stmt, LiabError>)
        requires
            is_renderer(*dbg),
            tok(old(self).ts(), old(self).pos as int) == TokenOf::<Seq<char>>::Print,
        ensures
            final(self).ts() == old(self).ts(),
            final(self).pos >= old(self).pos,
            stmt_outcome(r, final(self).pos as int, spec_print(old(self).ts(), renderer_of(*dbg), old(self).pos as int)),
            r is Ok ==> final(self).pos > old(self).pos,
        decreases fuel(old(self).ts(), old(self).pos as int), 23nat,
    {
        proof { use_type_invariant(&*self); }
        self.advance();
        let expr = self.parse_expression(dbg)?;
        self.expect_semicolon()?;
        Ok(Stmt::Print(expr))
    }

    /// `return <expr>;`
    fn parse_return<G: Fn(u64) -> String>(&mut self, dbg: &G) -> (r: Result<Stmt, LiabError>)
        requires
            is_renderer(*dbg),
            tok(old(self).ts(), old(self).pos as int) == TokenOf::<Seq<char>>::Return,
        ensures
            final(self).ts() == old(self).ts(),
            final(self).pos >= old(self).pos,
            stmt_outcome(r, final(self).pos as int, spec_return(old(self).ts(), renderer_of(*dbg), old(self).pos as int)),
            r is Ok ==> final(self).pos > old(self).pos,
        decreases fuel(old(self).ts(), old(self).pos as int), 23nat,
    {
        proof { use_type_invariant(&*self); }
        self.advance();
        let expr = self.parse_expression(dbg)?;
        self.expect_semicolon()?;
        Ok(Stmt::Return(expr))
    }

    /// `<name> = <expr>;`
    fn parse_assignment<G: Fn(u64) -> String>(&mut self, dbg: &G) -> (r: Result<Stmt, LiabError>)
        requires
            is_renderer(*dbg),
        ensures
            final(self).ts() == old(self).ts(),
            final(self).pos >= old(self).pos,
            stmt_outcome(r, final(self).pos as int, spec_assignment(old(self).ts(), renderer_of(*dbg), old(self).pos as int)),
            r is Ok ==> final(self).pos > old(self).pos,
        decreases fuel(old(self).ts(), old(self).pos as int), 23nat,
    {
        proof { use_type_invariant(&*self); }
        let name = match self.advance() {
            TokenOf::Identifier(n) => n,
            other => {
                let mut m = String::from_str("Expected variable name for assignment, found ");
                m.append(debug_token(&other, dbg).as_str());
                return Err(syntax_error(m));
            },
        };
        self.expect(&TokenOf::Equals, dbg)?;
        let value = self.parse_expression(dbg)?;
        self.expect_semicolon()?;
        Ok(Stmt::Assignment { name, value })
    }

    /// `love "<path>";`
    fn parse_love_statement<G: Fn(u64) -> String>(&mut self, dbg: &G) -> (r: Result<Stmt, LiabError>)
        requires
            is_renderer(*dbg),
        ensures
            final(self).ts() == old(self).ts(),
            final(self).pos >= old(self).pos,
            stmt_outcome(r, final(self).pos as int, spec_love(old(self).ts(), renderer_of(*dbg), old(self).pos as int)),
            r is Ok ==> final(self).pos > old(self).pos,
        decreases fuel(old(self).ts(), old(self).pos as int), 23nat,
    {
        proof { use_type_invariant(&*self); }
        self.expect(&TokenOf::Love, dbg)?;
        let path = match self.advance() {
            TokenOf::String(s) => s,
            other => {
                let mut m = String::from_str("Expected module string path after 'love', found ");
                m.append(debug_token(&other, dbg).as_str());
                return Err(syntax_error(m));
            },
        };
        self.expect_semicolon()?;
        Ok(Stmt::Love(path))
    }

    /// `export <name>;`
    fn parse_export_statement<G: Fn(u64) -> String>(&mut self, dbg: &G) -> (r: Result<Stmt, LiabError>)
        requires
            is_renderer(*dbg),
        ensures
            final(self).ts() == old(self).ts(),
            final(self).pos >= old(self).pos,
            stmt_outcome(r, final(self).pos as int, spec_export(old(self).ts(), renderer_of(*dbg), old(self).pos as int)),
            r is Ok ==> final(self).pos > old(self).pos,
        decreases fuel(old(self).ts(), old(self).pos as int), 23nat,
    {
        proof { use_type_invariant(&*self); }
        self.expect(&TokenOf::Export, dbg)?;
        let name = match self.advance() {
            TokenOf::Identifier(s) => s,
            other => {
                let mut m = String::from_str("Expected identifier after 'export', found ");
                m.append(debug_token(&other, dbg).as_str());
                return Err(syntax_error(m));
            },
        };
        self.expect_semicolon()?;
        Ok(Stmt::Export(name))
    }

    /// A block: `{ <stmt>* }`
    fn parse_block<G: Fn(u64) -> String>(&mut self, dbg: &G) -> (r: Result<Vec<Stmt>, LiabError>)
        requires
            is_renderer(*dbg),
        ensures
            final(self).ts() == old(self).ts(),
            final(self).pos >= old(self).pos,
            stmts_outcome(r, final(self).pos as int, spec_block(old(self).ts(), renderer_of(*dbg), old(self).pos as int)),
            r is Ok ==> final(self).pos > old(self).pos,
        decreases fuel(old(self).ts(), old(self).pos as int), 22nat,
    {
        proof { use_type_invariant(&*self); }
        let ghost ts = self.ts();
        let ghost pos0 = self.pos as int;
        self.expect(&TokenOf::LeftBrace, dbg)?;
        proof { use_type_invariant(&*self); }
        let mut stmts: Vec<Stmt> = Vec::new();
        assert(stmts_view(stmts@) =~= Seq::<StmtView>::empty());
        while !self.check(&TokenOf::RightBrace) && !self.check(&TokenOf::Eof)
            invariant
                is_renderer(*dbg),
                self.ts() == ts,
                old(self).ts() == ts,
                old(self).pos == pos0,
                0 <= pos0 < self.pos <= ts.len(),
                spec_block(ts, renderer_of(*dbg), pos0) == spec_block_items(ts, renderer_of(*dbg), stmts_view(stmts@), self.pos as int),
            decreases ts.len() - self.pos,
        {
            proof { use_type_invariant(&*self); }
            let ghost before = stmts_view(stmts@);
            let st = self.parse_statement(dbg)?;
            proof { use_type_invariant(&*self); }
            stmts.push(st);
            assert(stmts_view(stmts@) =~= before.push(st@));
        }
        self.expect(&TokenOf::RightBrace, dbg)?;
        Ok(stmts)
    }

    /// `while <expr> { <body> }`
    fn parse_while<G: Fn(u64) -> String>(&mut self, dbg: &G) -> (r: Result<Stmt, LiabError>)
        requires
            is_renderer(*dbg),
            tok(old(self).ts(), old(self).pos as int) == TokenOf::<Seq<char>>::While,
        ensures
            final(self).ts() == old(self).ts(),
            final(self).pos >= old(self).pos,
            stmt_outcome(r, final(self).pos as int, spec_while(old(self).ts(), renderer_of(*dbg), old(self).pos as int)),
            r is Ok ==> final(self).pos > old(self).pos,
        decreases fuel(old(self).ts(), old(self).pos as int), 23nat,
    {
        proof { use_type_invariant(&*self); }
        self.advance();
        let condition = self.parse_expression(dbg)?;
        proof { use_type_invariant(&*self); }
        let body = self.parse_block(dbg)?;
        proof { lemma_while_view(condition, body); }
        Ok(Stmt::While { condition, body })
    }

    /// `if <expr> { <then> } [else { <else> } | else if ...]`
    fn parse_if<G: Fn(u64) -> String>(&mut self, dbg: &G) -> (r: Result<Stmt, LiabError>)
        requires
            is_renderer(*dbg),
            tok(old(self).ts(), old(self).pos as int) == TokenOf::<Seq<char>>::If,
        ensures
            final(self).ts() == old(self).ts(),
            final(self).pos >= old(self).pos,
            stmt_outcome(r, final(self).pos as int, spec_if(old(self).ts(), renderer_of(*dbg), old(self).pos as int)),
            r is Ok ==> final(self).pos > old(self).pos,
        decreases fuel(old(self).ts(), old(self).pos as int), 23nat,
    {
        proof { use_type_invariant(&*self); }
        self.advance();
        let condition = self.parse_expression(dbg)?;
        proof { use_type_invariant(&*self); }
        let then_body = self.parse_block(dbg)?;
        proof { use_type_invariant(&*self); }
        let else_body = if self.check(&TokenOf::Else) {
            self.advance();
            proof { use_type_invariant(&*self); }
            if self.check(&TokenOf::If) {
                let else_if = self.parse_if(dbg)?;
                let v = vec![else_if];
                assert(stmts_view(v@) =~= seq![else_if@]);
                Some(v)
            } else {
                Some(self.parse_block(dbg)?)
            }
        } else {
            None
        };
        proof { lemma_if_view(condition, then_body, else_body); }
        Ok(Stmt::If { condition, then_body, else_body })
    }

    /// `fn <name>(<params>) { <body> }`
    fn parse_function_def<G: Fn(u64) -> String>(&mut self, dbg: &G) -> (r: Result<Stmt, LiabError>)
        requires
            is_renderer(*dbg),
            tok(old(self).ts(), old(self).pos as int) == TokenOf::<Seq<char>>::Fn,
        ensures
            final(self).ts() == old(self).ts(),
            final(self).pos >= old(self).pos,
            stmt_outcome(r, final(self).pos as int, spec_function_def(old(self).ts(), renderer_of(*dbg), old(self).pos as int)),
            r is Ok ==> final(self).pos > old(self).pos,
        decreases fuel(old(self).ts(), old(self).pos as int), 23nat,
    {
        proof { use_type_invariant(&*self); }
        let ghost ts = self.ts();
        let ghost pos0 = self.pos as int;
        self.advance();
        let name = match self.advance() {
            TokenOf::Identifier(n) => n,
            other => {
                let mut m = String::from_str("Expected function name after 'fn', found ");
                m.append(debug_token(&other, dbg).as_str());
                return Err(syntax_error(m));
            },
        };
        self.expect(&TokenOf::LeftParen, dbg)?;
        proof { use_type_invariant(&*self); }
        let ghost pstart = self.pos as int;
        let mut params: Vec<String> = Vec::new();
        if !self.check(&TokenOf::RightParen) {
            match self.advance() {
                TokenOf::Identifier(p) => params.push(p),
                other => {
                    let mut m = String::from_str("Expected parameter name, found ");
                    m.append(debug_token(&other, dbg).as_str());
                    return Err(syntax_error(m));
                },
            }
            assert(strings_view(params@) =~= seq![params@[0]@]);
            while self.check(&TokenOf::Comma)
                invariant
                    is_renderer(*dbg),
                    self.ts() == ts,
                    old(self).ts() == ts,
                    old(self).pos == pos0,
                    0 <= pos0 < pstart < self.pos <= ts.len(),
                    pstart == pos0 + 3,
                    tok(ts, pos0 + 1) is Identifier,
                    tok(ts, pos0 + 2) == TokenOf::<Seq<char>>::LeftParen,
                    spec_params(ts, renderer_of(*dbg), pstart) == spec_param_rest(ts, renderer_of(*dbg), strings_view(params@), self.pos as int),
                decreases ts.len() - self.pos,
            {
                proof { use_type_invariant(&*self); }
                self.advance();
                let ghost before = strings_view(params@);
                match self.advance() {
                    TokenOf::Identifier(p) => {
                        params.push(p);
                        assert(strings_view(params@) =~= before.push(params@[params@.len() - 1]@));
                    },
                    other => {
                        let mut m = String::from_str("Expected parameter name after ',', found ");
                        m.append(debug_token(&other, dbg).as_str());
                        return Err(syntax_error(m));
                    },
                }
                proof { use_type_invariant(&*self); }
            }
        } else {
            assert(strings_view(params@) =~= Seq::<Seq<char>>::empty());
        }
        self.expect(&TokenOf::RightParen, dbg)?;
        let body = self.parse_block(dbg)?;
        proof { lemma_fn_view(name, params, body); }
        Ok(Stmt::FunctionDef { name, params, body })
    }
}

/// Parses a token list into a program (a list of statements).
pub fn parse<G: Fn(u64) -> String>(tokens: Vec<Token>, dbg: &G) -> (r: Result<Vec<Stmt>, LiabError>)
    requires
        is_renderer(*dbg),
    ensures
        r is Ok <==> spec_parse(token_views(tokens@), renderer_of(*dbg)) is Ok,
        r matches Ok(ss) ==> stmts_view(ss@) == spec_parse(token_views(tokens@), renderer_of(*dbg))->Ok_0,
        r matches Err(e) ==> e matches LiabError::SyntaxError(x) && x@ == spec_parse(token_views(tokens@), renderer_of(*dbg))->Err_0,
{
    let mut parser = Parser::new(tokens);
    parser.parse(dbg)
}


/// Multiplication binds tighter than addition: `a + b * c;` is `a + (b * c)`
/// for all number literals.
pub proof fn law_product_binds_tighter(a: u64, b: u64, c: u64, nd: spec_fn(u64) -> Seq<char>)
    ensures
        spec_parse(seq![TokenOf::Number(a), TokenOf::Plus, TokenOf::Number(b), TokenOf::Star,
            TokenOf::Number(c), TokenOf::Semicolon, TokenOf::Eof], nd)
            == Ok::<Seq<StmtView>, Seq<char>>(seq![StmtView::Expression(binary(ExprView::Number(a), BinOp::Add,
                binary(ExprView::Number(b), BinOp::Mul, ExprView::Number(c))))]),
{
    let ts = seq![TokenOf::Number(a), TokenOf::Plus, TokenOf::Number(b), TokenOf::Star,
        TokenOf::Number(c), TokenOf::Semicolon, TokenOf::Eof];
    let bc = binary(ExprView::Number(b), BinOp::Mul, ExprView::Number(c));
    let abc = binary(ExprView::Number(a), BinOp::Add, bc);
    assert(spec_factor(ts, nd, 0) == Ok::<(ExprView, int), Seq<char>>((ExprView::Number(a), 1)));
    assert(spec_term_rest(ts, nd, ExprView::Number(a), 1) == Ok::<(ExprView, int), Seq<char>>((ExprView::Number(a), 1)));
    assert(spec_term(ts, nd, 0) == Ok::<(ExprView, int), Seq<char>>((ExprView::Number(a), 1)));
    assert(spec_factor(ts, nd, 2) == Ok::<(ExprView, int), Seq<char>>((ExprView::Number(b), 3)));
    assert(spec_factor(ts, nd, 4) == Ok::<(ExprView, int), Seq<char>>((ExprView::Number(c), 5)));
    assert(spec_term_rest(ts, nd, bc, 5) == Ok::<(ExprView, int), Seq<char>>((bc, 5)));
    assert(spec_term_rest(ts, nd, ExprView::Number(b), 3) == Ok::<(ExprView, int), Seq<char>>((bc, 5)));
    assert(spec_term(ts, nd, 2) == Ok::<(ExprView, int), Seq<char>>((bc, 5)));
    assert(spec_addition_rest(ts, nd, abc, 5) == Ok::<(ExprView, int), Seq<char>>((abc, 5)));
    assert(spec_addition_rest(ts, nd, ExprView::Number(a), 1) == Ok::<(ExprView, int), Seq<char>>((abc, 5)));
    assert(spec_addition(ts, nd, 0) == Ok::<(ExprView, int), Seq<char>>((abc, 5)));
    assert(spec_comparison_rest(ts, nd, abc, 5) == Ok::<(ExprView, int), Seq<char>>((abc, 5)));
    assert(spec_expression(ts, nd, 0) == Ok::<(ExprView, int), Seq<char>>((abc, 5)));
    assert(spec_statement(ts, nd, 0) == Ok::<(StmtView, int), Seq<char>>((StmtView::Expression(abc), 6)));
    let acc = Seq::<StmtView>::empty().push(StmtView::Expression(abc));
    assert(spec_program(ts, nd, acc, 6) == Ok::<Seq<StmtView>, Seq<char>>(acc));
    assert(acc =~= seq![StmtView::Expression(abc)]);
}

/// `else if`: when the block after an `if` condition is followed by `else`
/// and then `if`, the statement's else branch is exactly one statement, the
/// `if` statement that starts after `else`, and parsing resumes where that
/// statement ends. (`if a { .. } else if b { .. }` is `if a { .. } else { if b { .. } }`.)
pub proof fn law_else_if(ts: Seq<TokenView>, nd: spec_fn(u64) -> Seq<char>, pos: int)
    requires
        tok(ts, pos) == TokenOf::<Seq<char>>::If,
        spec_if(ts, nd, pos) is Ok,
        spec_expression(ts, nd, pos + 1) is Ok,
        spec_block(ts, nd, spec_expression(ts, nd, pos + 1)->Ok_0.1) is Ok,
        ({
            let q = spec_block(ts, nd, spec_expression(ts, nd, pos + 1)->Ok_0.1)->Ok_0.1;
            tok(ts, q) == TokenOf::<Seq<char>>::Else && tok(ts, q + 1) == TokenOf::<Seq<char>>::If
        }),
    ensures
        ({
            let (condition, p) = spec_expression(ts, nd, pos + 1)->Ok_0;
            let (then_body, q) = spec_block(ts, nd, p)->Ok_0;
            let inner = spec_if(ts, nd, q + 1);
            &&& inner is Ok
            &&& spec_if(ts, nd, pos) == Ok::<(StmtView, int), Seq<char>>((
                StmtView::If { condition, then_body, else_body: Some(seq![inner->Ok_0.0]) },
                inner->Ok_0.1,
            ))
        }),
{
}

/// The operator an operator token stands for: `+ - * / == != > < >= <=`
/// are `Add Sub Mul Div Eq Neq Gt Lt Gte Lte`.
pub open spec fn operator_of_token(t: TokenView) -> Option<BinOp> {
    match t {
        TokenOf::Plus => Some(BinOp::Add),
        TokenOf::Minus => Some(BinOp::Sub),
        TokenOf::Star => Some(BinOp::Mul),
        TokenOf::Slash => Some(BinOp::Div),
        TokenOf::EqualEqual => Some(BinOp::Eq),
        TokenOf::BangEqual => Some(BinOp::Neq),
        TokenOf::Greater => Some(BinOp::Gt),
        TokenOf::Less => Some(BinOp::Lt),
        TokenOf::GreaterEqual => Some(BinOp::Gte),
        TokenOf::LessEqual => Some(BinOp::Lte),
        _ => None,
    }
}

/// Each operator token parses to its own operator, its left operand first:
/// `a op b` followed by `;` is one binary expression of `a`, the operator
/// the token stands for, and `b`, ending before the `;`.
pub proof fn law_operator_tokens(ts: Seq<TokenView>, nd: spec_fn(u64) -> Seq<char>, pos: int, a: u64, b: u64)
    requires
        tok(ts, pos) == TokenOf::<Seq<char>>::Number(a),
        operator_of_token(tok(ts, pos + 1)) is Some,
        tok(ts, pos + 2) == TokenOf::<Seq<char>>::Number(b),
        tok(ts, pos + 3) == TokenOf::<Seq<char>>::Semicolon,
    ensures
        spec_expression(ts, nd, pos) == Ok::<(ExprView, int), Seq<char>>((
            binary(ExprView::Number(a), operator_of_token(tok(ts, pos + 1))->0, ExprView::Number(b)),
            pos + 3,
        )),
{
    let na = ExprView::Number(a);
    let nb = ExprView::Number(b);
    let t = tok(ts, pos + 1);
    let op = operator_of_token(t)->0;
    let e = binary(na, op, nb);
    assert(0 <= pos < ts.len());
    assert(0 <= pos + 3 < ts.len());
    assert(spec_factor(ts, nd, pos) == Ok::<(ExprView, int), Seq<char>>((na, pos + 1)));
    assert(spec_factor(ts, nd, pos + 2) == Ok::<(ExprView, int), Seq<char>>((nb, pos + 3)));
    assert(spec_term_rest(ts, nd, nb, pos + 3) == Ok::<(ExprView, int), Seq<char>>((nb, pos + 3)));
    assert(spec_term(ts, nd, pos + 2) == Ok::<(ExprView, int), Seq<char>>((nb, pos + 3)));
    assert(spec_term_rest(ts, nd, e, pos + 3) == Ok::<(ExprView, int), Seq<char>>((e, pos + 3)));
    assert(spec_addition_rest(ts, nd, e, pos + 3) == Ok::<(ExprView, int), Seq<char>>((e, pos + 3)));
    assert(spec_comparison_rest(ts, nd, e, pos + 3) == Ok::<(ExprView, int), Seq<char>>((e, pos + 3)));
    if multiplicative_op(t) is Some {
        assert(spec_term_rest(ts, nd, na, pos + 1) == Ok::<(ExprView, int), Seq<char>>((e, pos + 3)));
        assert(spec_term(ts, nd, pos) == Ok::<(ExprView, int), Seq<char>>((e, pos + 3)));
        assert(spec_addition(ts, nd, pos) == Ok::<(ExprView, int), Seq<char>>((e, pos + 3)));
    } else {
        assert(spec_term_rest(ts, nd, na, pos + 1) == Ok::<(ExprView, int), Seq<char>>((na, pos + 1)));
        assert(spec_term(ts, nd, pos) == Ok::<(ExprView, int), Seq<char>>((na, pos + 1)));
        assert(spec_addition_rest(ts, nd, nb, pos + 3) == Ok::<(ExprView, int), Seq<char>>((nb, pos + 3)));
        assert(spec_addition(ts, nd, pos + 2) == Ok::<(ExprView, int), Seq<char>>((nb, pos + 3)));
        if additive_op(t) is Some {
            assert(spec_addition_rest(ts, nd, na, pos + 1) == Ok::<(ExprView, int), Seq<char>>((e, pos + 3)));
            assert(spec_addition(ts, nd, pos) == Ok::<(ExprView, int), Seq<char>>((e, pos + 3)));
        } else {
            assert(spec_addition_rest(ts, nd, na, pos + 1) == Ok::<(ExprView, int), Seq<char>>((na, pos + 1)));
            assert(spec_addition(ts, nd, pos) == Ok::<(ExprView, int), Seq<char>>((na, pos + 1)));
            assert(spec_comparison_rest(ts, nd, na, pos + 1) == Ok::<(ExprView, int), Seq<char>>((e, pos + 3)));
        }
    }
    assert(spec_comparison(ts, nd, pos) == Ok::<(ExprView, int), Seq<char>>((e, pos + 3)));
}

/// Operators of one precedence level group to the left: `a - b - c` is
/// `(a - b) - c` and `a / b * c` is `(a / b) * c`, for all numbers and each
/// pair of operators of the same level.
pub proof fn law_left_associative(ts: Seq<TokenView>, nd: spec_fn(u64) -> Seq<char>, pos: int, a: u64, b: u64, c: u64)
    requires
        tok(ts, pos) == TokenOf::<Seq<char>>::Number(a),
        tok(ts, pos + 2) == TokenOf::<Seq<char>>::Number(b),
        tok(ts, pos + 4) == TokenOf::<Seq<char>>::Number(c),
        tok(ts, pos + 5) == TokenOf::<Seq<char>>::Semicolon,
        (additive_op(tok(ts, pos + 1)) is Some && additive_op(tok(ts, pos + 3)) is Some)
            || (multiplicative_op(tok(ts, pos + 1)) is Some && multiplicative_op(tok(ts, pos + 3)) is Some),
    ensures
        spec_expression(ts, nd, pos) == Ok::<(ExprView, int), Seq<char>>((
            binary(
                binary(ExprView::Number(a), operator_of_token(tok(ts, pos + 1))->0, ExprView::Number(b)),
                operator_of_token(tok(ts, pos + 3))->0,
                ExprView::Number(c),
            ),
            pos + 5,
        )),
{
    let na = ExprView::Number(a);
    let nb = ExprView::Number(b);
    let nc = ExprView::Number(c);
    let t1 = tok(ts, pos + 1);
    let t2 = tok(ts, pos + 3);
    let ab = binary(na, operator_of_token(t1)->0, nb);
    let abc = binary(ab, operator_of_token(t2)->0, nc);
    assert(0 <= pos < ts.len() && pos + 5 < ts.len());
    assert(spec_factor(ts, nd, pos) == Ok::<(ExprView, int), Seq<char>>((na, pos + 1)));
    assert(spec_factor(ts, nd, pos + 2) == Ok::<(ExprView, int), Seq<char>>((nb, pos + 3)));
    assert(spec_factor(ts, nd, pos + 4) == Ok::<(ExprView, int), Seq<char>>((nc, pos + 5)));
    assert(spec_term_rest(ts, nd, nc, pos + 5) == Ok::<(ExprView, int), Seq<char>>((nc, pos + 5)));
    assert(spec_term(ts, nd, pos + 4) == Ok::<(ExprView, int), Seq<char>>((nc, pos + 5)));
    assert(spec_term_rest(ts, nd, abc, pos + 5) == Ok::<(ExprView, int), Seq<char>>((abc, pos + 5)));
    assert(spec_addition_rest(ts, nd, abc, pos + 5) == Ok::<(ExprView, int), Seq<char>>((abc, pos + 5)));
    assert(spec_comparison_rest(ts, nd, abc, pos + 5) == Ok::<(ExprView, int), Seq<char>>((abc, pos + 5)));
    if multiplicative_op(t1) is Some {
        assert(spec_term_rest(ts, nd, ab, pos + 3) == Ok::<(ExprView, int), Seq<char>>((abc, pos + 5)));
        assert(spec_term_rest(ts, nd, na, pos + 1) == Ok::<(ExprView, int), Seq<char>>((abc, pos + 5)));
        assert(spec_term(ts, nd, pos) == Ok::<(ExprView, int), Seq<char>>((abc, pos + 5)));
        assert(spec_addition(ts, nd, pos) == Ok::<(ExprView, int), Seq<char>>((abc, pos + 5)));
    } else {
        assert(spec_term_rest(ts, nd, nb, pos + 3) == Ok::<(ExprView, int), Seq<char>>((nb, pos + 3)));
        assert(spec_term(ts, nd, pos + 2) == Ok::<(ExprView, int), Seq<char>>((nb, pos + 3)));
        assert(spec_term_rest(ts, nd, na, pos + 1) == Ok::<(ExprView, int), Seq<char>>((na, pos + 1)));
        assert(spec_term(ts, nd, pos) == Ok::<(ExprView, int), Seq<char>>((na, pos + 1)));
        assert(spec_addition_rest(ts, nd, ab, pos + 3) == Ok::<(ExprView, int), Seq<char>>((abc, pos + 5)));
        assert(spec_addition_rest(ts, nd, na, pos + 1) == Ok::<(ExprView, int), Seq<char>>((abc, pos + 5)));
        assert(spec_addition(ts, nd, pos) == Ok::<(ExprView, int), Seq<char>>((abc, pos + 5)));
    }
    assert(spec_comparison(ts, nd, pos) == Ok::<(ExprView, int), Seq<char>>((abc, pos + 5)));
}

proof fn lemma_param_rest(ts: Seq<TokenView>, nd: spec_fn(u64) -> Seq<char>, ps: Seq<Seq<char>>, pos: int, m: int)
    requires
        1 <= m <= ps.len(),
        forall|k: int| 0 <= k < ps.len() ==> tok(ts, pos + 2 * k) == TokenOf::<Seq<char>>::Identifier(#[trigger] ps[k]),
        forall|k: int| 0 <= k < ps.len() - 1 ==> #[trigger] tok(ts, pos + 2 * k + 1) == TokenOf::<Seq<char>>::Comma,
        tok(ts, pos + 2 * ps.len() - 1) == TokenOf::<Seq<char>>::RightParen,
    ensures
        spec_param_rest(ts, nd, ps.subrange(0, m), pos + 2 * m - 1)
            == Ok::<(Seq<Seq<char>>, int), Seq<char>>((ps, pos + 2 * ps.len() - 1)),
    decreases ps.len() - m,
{
    if m < ps.len() {
        assert(tok(ts, pos + 2 * (m - 1) + 1) == TokenOf::<Seq<char>>::Comma);
        assert(tok(ts, pos + 2 * m) == TokenOf::<Seq<char>>::Identifier(ps[m]));
        assert(ps.subrange(0, m).push(ps[m]) =~= ps.subrange(0, m + 1));
        lemma_param_rest(ts, nd, ps, pos, m + 1);
    } else {
        assert(ps.subrange(0, m) =~= ps);
    }
}

/// Parameters are kept in the order written: `fn f(p0, p1, ..)` with names
/// separated by commas gives exactly the list of those names.
pub proof fn law_parameters_in_order(ts: Seq<TokenView>, nd: spec_fn(u64) -> Seq<char>, ps: Seq<Seq<char>>, pos: int)
    requires
        ps.len() >= 1,
        forall|k: int| 0 <= k < ps.len() ==> tok(ts, pos + 2 * k) == TokenOf::<Seq<char>>::Identifier(#[trigger] ps[k]),
        forall|k: int| 0 <= k < ps.len() - 1 ==> #[trigger] tok(ts, pos + 2 * k + 1) == TokenOf::<Seq<char>>::Comma,
        tok(ts, pos + 2 * ps.len() - 1) == TokenOf::<Seq<char>>::RightParen,
    ensures
        spec_params(ts, nd, pos) == Ok::<(Seq<Seq<char>>, int), Seq<char>>((ps, pos + 2 * ps.len() - 1)),
{
    assert(tok(ts, pos + 2 * 0) == TokenOf::<Seq<char>>::Identifier(ps[0]));
    assert(ps.subrange(0, 1) =~= seq![ps[0]]);
    lemma_param_rest(ts, nd, ps, pos, 1);
}

} // verus!
