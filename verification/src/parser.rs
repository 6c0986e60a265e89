use vstd::prelude::*;

use crate::error::ParseError;
use crate::lexer::{Token, TokenKind};
use crate::utils::{Annot, Loc};

verus! {

/// A unary operator: the sign of an expression.
#[derive(Debug, Clone, Copy, PartialEq, Eq, Hash)]
pub enum UniOpKind {
    Plus,
    Minus,
}

/// A unary operator annotated with the span of its symbol.
pub type UniOp = Annot<UniOpKind>;

impl UniOp {
    pub fn plus(loc: Loc) -> (r: Self)
        ensures
            r == (Annot { value: UniOpKind::Plus, loc }),
    {
        Self::new(UniOpKind::Plus, loc)
    }

    pub fn minus(loc: Loc) -> (r: Self)
        ensures
            r == (Annot { value: UniOpKind::Minus, loc }),
    {
        Self::new(UniOpKind::Minus, loc)
    }
}

/// A binary operator.
#[derive(Debug, Clone, Copy, PartialEq, Eq, Hash)]
pub enum BinOpKind {
    Add,
    Sub,
    Mult,
    Div,
}

/// A binary operator annotated with the span of its symbol.
pub type BinOp = Annot<BinOpKind>;

impl BinOp {
    pub fn add(loc: Loc) -> (r: Self)
        ensures
            r == (Annot { value: BinOpKind::Add, loc }),
    {
        Self::new(BinOpKind::Add, loc)
    }

    pub fn sub(loc: Loc) -> (r: Self)
        ensures
            r == (Annot { value: BinOpKind::Sub, loc }),
    {
        Self::new(BinOpKind::Sub, loc)
    }

    pub fn mult(loc: Loc) -> (r: Self)
        ensures
            r == (Annot { value: BinOpKind::Mult, loc }),
    {
        Self::new(BinOpKind::Mult, loc)
    }

    pub fn div(loc: Loc) -> (r: Self)
        ensures
            r == (Annot { value: BinOpKind::Div, loc }),
    {
        Self::new(BinOpKind::Div, loc)
    }
}

/// The shape of a parsed expression: a literal, a signed expression, or a
/// binary operation whose children it exclusively owns.
#[derive(Debug, PartialEq, Eq, Hash)]
pub enum AstKind {
    /// A number literal.
    Num(u64),
    /// A unary operation.
    UniOp { op: UniOp, e: Box<Ast> },
    /// A binary operation.
    BinOp { op: BinOp, l: Box<Ast>, r: Box<Ast> },
}

/// A syntax-tree node annotated with the span of its whole subexpression.
pub type Ast = Annot<AstKind>;

impl Ast {
    pub fn num(n: u64, loc: Loc) -> (r: Self)
        ensures
            r == spec_num_node(n, loc),
    {
        Self::new(AstKind::Num(n), loc)
    }

    pub fn uniop(op: UniOp, e: Ast, loc: Loc) -> (r: Self)
        ensures
            r == (Annot { value: AstKind::UniOp { op, e: Box::new(e) }, loc }),
    {
        Self::new(AstKind::UniOp { op, e: Box::new(e) }, loc)
    }

    pub fn binop(op: BinOp, l: Ast, r: Ast, loc: Loc) -> (res: Self)
        ensures
            res == (Annot { value: AstKind::BinOp { op, l: Box::new(l), r: Box::new(r) }, loc }),
    {
        Self::new(AstKind::BinOp { op, l: Box::new(l), r: Box::new(r) }, loc)
    }
}

/// A number leaf; its span is the literal token's.
pub open spec fn spec_num_node(n: u64, loc: Loc) -> Ast {
    Annot { value: AstKind::Num(n), loc }
}

/// A unary node; its span merges the operator's with the operand's.
pub open spec fn spec_uniop_node(op: UniOp, e: Ast) -> Ast {
    Annot { value: AstKind::UniOp { op, e: Box::new(e) }, loc: op.loc.spec_merge(e.loc) }
}

/// A binary node; its span merges the left child's with the right child's.
pub open spec fn spec_binop_node(op: BinOp, l: Ast, r: Ast) -> Ast {
    Annot {
        value: AstKind::BinOp { op, l: Box::new(l), r: Box::new(r) },
        loc: l.loc.spec_merge(r.loc),
    }
}

/// The tokens not yet consumed, never negative: the termination measure of
/// the grammar's recursion.
pub open spec fn remaining(tokens: Seq<Token>, pos: int) -> int {
    if pos > tokens.len() {
        0
    } else {
        tokens.len() - pos
    }
}

/// A successful sub-parse always consumes at least one token and never runs
/// past the input; this bound, applied to the position a sub-parse returned,
/// is what makes the grammar's recursion visibly terminate.
pub open spec fn next_pos(p: int, lo: int, hi: int) -> int {
    let raised = if p < lo {
        lo
    } else {
        p
    };
    if raised > hi {
        hi
    } else {
        raised
    }
}

/// Parsing a whole token sequence: one expression, after which nothing may
/// remain but the end of the input.
pub open spec fn spec_parse(tokens: Seq<Token>) -> Result<Ast, ParseError> {
    match spec_parse_expr(tokens, 0) {
        Ok((ast, pos)) => if pos < tokens.len() {
            Err(ParseError::RedundantExpression(tokens[pos]))
        } else {
            Ok(ast)
        },
        Err(e) => Err(e),
    }
}

/// An expression is the lowest-precedence level.
pub open spec fn spec_parse_expr(tokens: Seq<Token>, pos: int) -> Result<(Ast, int), ParseError> {
    spec_parse_expr3(tokens, pos)
}

/// Additive level: a multiplicative operand, then any number of `+`/`-`
/// operands folded to the left.
pub open spec fn spec_parse_expr3(tokens: Seq<Token>, pos: int) -> Result<(Ast, int), ParseError>
    recommends
        0 <= pos <= tokens.len(),
    decreases remaining(tokens, pos), 6int,
{
    match spec_parse_expr2(tokens, pos) {
        Ok((l, p)) => spec_parse_expr3_rest(tokens, l, next_pos(p, pos + 1, tokens.len() as int)),
        Err(e) => Err(e),
    }
}

/// Folds `+`/`-` operands onto `acc` while they last.
pub open spec fn spec_parse_expr3_rest(tokens: Seq<Token>, acc: Ast, pos: int) -> Result<
    (Ast, int),
    ParseError,
>
    recommends
        0 <= pos <= tokens.len(),
    decreases remaining(tokens, pos), 5int,
{
    if pos < 0 || pos >= tokens.len() {
        Ok((acc, pos))
    } else {
        let t = tokens[pos];
        if t.value == TokenKind::Plus || t.value == TokenKind::Minus {
            let op = Annot {
                value: if t.value == TokenKind::Plus {
                    BinOpKind::Add
                } else {
                    BinOpKind::Sub
                },
                loc: t.loc,
            };
            match spec_parse_expr2(tokens, pos + 1) {
                Ok((r, p2)) => spec_parse_expr3_rest(
                    tokens,
                    spec_binop_node(op, acc, r),
                    next_pos(p2, pos + 2, tokens.len() as int),
                ),
                Err(e) => Err(e),
            }
        } else {
            Ok((acc, pos))
        }
    }
}

/// Multiplicative level: a unary operand, then any number of `*`/`/`
/// operands folded to the left.
pub open spec fn spec_parse_expr2(tokens: Seq<Token>, pos: int) -> Result<(Ast, int), ParseError>
    recommends
        0 <= pos <= tokens.len(),
    decreases remaining(tokens, pos), 4int,
{
    match spec_parse_expr1(tokens, pos) {
        Ok((l, p)) => spec_parse_expr2_rest(tokens, l, next_pos(p, pos + 1, tokens.len() as int)),
        Err(e) => Err(e),
    }
}

/// Folds `*`/`/` operands onto `acc` while they last.
pub open spec fn spec_parse_expr2_rest(tokens: Seq<Token>, acc: Ast, pos: int) -> Result<
    (Ast, int),
    ParseError,
>
    recommends
        0 <= pos <= tokens.len(),
    decreases remaining(tokens, pos), 3int,
{
    if pos < 0 || pos >= tokens.len() {
        Ok((acc, pos))
    } else {
        let t = tokens[pos];
        if t.value == TokenKind::Asterisk || t.value == TokenKind::Slash {
            let op = Annot {
                value: if t.value == TokenKind::Asterisk {
                    BinOpKind::Mult
                } else {
                    BinOpKind::Div
                },
                loc: t.loc,
            };
            match spec_parse_expr1(tokens, pos + 1) {
                Ok((r, p2)) => spec_parse_expr2_rest(
                    tokens,
                    spec_binop_node(op, acc, r),
                    next_pos(p2, pos + 2, tokens.len() as int),
                ),
                Err(e) => Err(e),
            }
        } else {
            Ok((acc, pos))
        }
    }
}

/// Unary level: an optional sign binds tighter than any binary operator and
/// applies, right-recursively, to the following unary-or-atom expression.
pub open spec fn spec_parse_expr1(tokens: Seq<Token>, pos: int) -> Result<(Ast, int), ParseError>
    recommends
        0 <= pos <= tokens.len(),
    decreases remaining(tokens, pos), 2int,
{
    if 0 <= pos && pos < tokens.len() && (tokens[pos].value == TokenKind::Plus
        || tokens[pos].value == TokenKind::Minus) {
        let op = Annot {
            value: if tokens[pos].value == TokenKind::Plus {
                UniOpKind::Plus
            } else {
                UniOpKind::Minus
            },
            loc: tokens[pos].loc,
        };
        match spec_parse_expr1(tokens, pos + 1) {
            Ok((e, p)) => Ok((spec_uniop_node(op, e), p)),
            Err(e) => Err(e),
        }
    } else {
        spec_parse_atom(tokens, pos)
    }
}

/// An atom: a number literal, or a parenthesized expression that must close
/// with `)` before anything else follows.
pub open spec fn spec_parse_atom(tokens: Seq<Token>, pos: int) -> Result<(Ast, int), ParseError>
    recommends
        0 <= pos <= tokens.len(),
    decreases remaining(tokens, pos), 1int,
{
    if pos < 0 || pos >= tokens.len() {
        Err(ParseError::Eof)
    } else {
        let t = tokens[pos];
        match t.value {
            TokenKind::Number(n) => Ok((spec_num_node(n, t.loc), pos + 1)),
            TokenKind::LParen => match spec_parse_expr3(tokens, pos + 1) {
                Ok((e, p)) => if 0 <= p && p < tokens.len() && tokens[p].value
                    == TokenKind::RParen {
                    Ok((e, p + 1))
                } else if 0 <= p && p < tokens.len() {
                    Err(ParseError::UnexpectedToken(tokens[p]))
                } else {
                    Err(ParseError::UnclosedOpenParen(t))
                },
                Err(e) => Err(e),
            },
            _ => Err(ParseError::NotExpression(t)),
        }
    }
}

/// What a successful executable sub-parse must deliver: the value the
/// grammar's meaning gives, one token or more consumed, never past the end.
pub open spec fn parse_step_ok(
    tokens: Seq<Token>,
    pos: int,
    r: Result<(Ast, usize), ParseError>,
    s: Result<(Ast, int), ParseError>,
) -> bool {
    match r {
        Ok((a, p)) => s == Ok::<(Ast, int), ParseError>((a, p as int)) && pos < p
            <= tokens.len(),
        Err(e) => s == Err::<(Ast, int), ParseError>(e),
    }
}

/// As `parse_step_ok`, but for the folding helpers, which may consume
/// nothing.
pub open spec fn fold_step_ok(
    tokens: Seq<Token>,
    pos: int,
    r: Result<(Ast, usize), ParseError>,
    s: Result<(Ast, int), ParseError>,
) -> bool {
    match r {
        Ok((a, p)) => s == Ok::<(Ast, int), ParseError>((a, p as int)) && pos <= p
            <= tokens.len(),
        Err(e) => s == Err::<(Ast, int), ParseError>(e),
    }
}

/// Parses a whole token sequence into a syntax tree, or reports the first
/// point where the grammar was violated.
pub fn parse(tokens: Vec<Token>) -> (r: Result<Ast, ParseError>)
    ensures
        r == spec_parse(tokens@),
{
    match parse_expr(&tokens, 0) {
        Ok((ast, pos)) => if pos < tokens.len() {
            Err(ParseError::RedundantExpression(tokens[pos]))
        } else {
            Ok(ast)
        },
        Err(e) => Err(e),
    }
}

/// Parses one expression starting at `pos`.
pub fn parse_expr(tokens: &Vec<Token>, pos: usize) -> (r: Result<(Ast, usize), ParseError>)
    requires
        pos <= tokens@.len(),
    ensures
        parse_step_ok(tokens@, pos as int, r, spec_parse_expr(tokens@, pos as int)),
{
    parse_expr3(tokens, pos)
}

fn parse_expr3(tokens: &Vec<Token>, pos: usize) -> (r: Result<(Ast, usize), ParseError>)
    requires
        pos <= tokens@.len(),
    ensures
        parse_step_ok(tokens@, pos as int, r, spec_parse_expr3(tokens@, pos as int)),
    decreases tokens@.len() - pos, 6int,
{
    let (l, p) = parse_expr2(tokens, pos)?;
    parse_expr3_rest(tokens, l, p)
}

fn parse_expr3_rest(tokens: &Vec<Token>, acc: Ast, pos: usize) -> (r: Result<
    (Ast, usize),
    ParseError,
>)
    requires
        pos <= tokens@.len(),
    ensures
        fold_step_ok(tokens@, pos as int, r, spec_parse_expr3_rest(tokens@, acc, pos as int)),
    decreases tokens@.len() - pos, 5int,
{
    if pos >= tokens.len() {
        return Ok((acc, pos));
    }
    let t = tokens[pos];
    let op = match t.value {
        TokenKind::Plus => BinOp::add(t.loc),
        TokenKind::Minus => BinOp::sub(t.loc),
        _ => {
            return Ok((acc, pos));
        },
    };
    let (rhs, p2) = parse_expr2(tokens, pos + 1)?;
    let loc = acc.loc.merge(&rhs.loc);
    let node = Ast::binop(op, acc, rhs, loc);
    parse_expr3_rest(tokens, node, p2)
}

fn parse_expr2(tokens: &Vec<Token>, pos: usize) -> (r: Result<(Ast, usize), ParseError>)
    requires
        pos <= tokens@.len(),
    ensures
        parse_step_ok(tokens@, pos as int, r, spec_parse_expr2(tokens@, pos as int)),
    decreases tokens@.len() - pos, 4int,
{
    let (l, p) = parse_expr1(tokens, pos)?;
    parse_expr2_rest(tokens, l, p)
}

fn parse_expr2_rest(tokens: &Vec<Token>, acc: Ast, pos: usize) -> (r: Result<
    (Ast, usize),
    ParseError,
>)
    requires
        pos <= tokens@.len(),
    ensures
        fold_step_ok(tokens@, pos as int, r, spec_parse_expr2_rest(tokens@, acc, pos as int)),
    decreases tokens@.len() - pos, 3int,
{
    if pos >= tokens.len() {
        return Ok((acc, pos));
    }
    let t = tokens[pos];
    let op = match t.value {
        TokenKind::Asterisk => BinOp::mult(t.loc),
        TokenKind::Slash => BinOp::div(t.loc),
        _ => {
            return Ok((acc, pos));
        },
    };
    let (rhs, p2) = parse_expr1(tokens, pos + 1)?;
    let loc = acc.loc.merge(&rhs.loc);
    let node = Ast::binop(op, acc, rhs, loc);
    parse_expr2_rest(tokens, node, p2)
}

fn parse_expr1(tokens: &Vec<Token>, pos: usize) -> (r: Result<(Ast, usize), ParseError>)
    requires
        pos <= tokens@.len(),
    ensures
        parse_step_ok(tokens@, pos as int, r, spec_parse_expr1(tokens@, pos as int)),
    decreases tokens@.len() - pos, 2int,
{
    if pos < tokens.len() {
        let t = tokens[pos];
        let found = match t.value {
            TokenKind::Plus => Some(UniOp::plus(t.loc)),
            TokenKind::Minus => Some(UniOp::minus(t.loc)),
            _ => None,
        };
        if let Some(op) = found {
            let (e, p) = parse_expr1(tokens, pos + 1)?;
            let loc = op.loc.merge(&e.loc);
            return Ok((Ast::uniop(op, e, loc), p));
        }
    }
    parse_atom(tokens, pos)
}

fn parse_atom(tokens: &Vec<Token>, pos: usize) -> (r: Result<(Ast, usize), ParseError>)
    requires
        pos <= tokens@.len(),
    ensures
        parse_step_ok(tokens@, pos as int, r, spec_parse_atom(tokens@, pos as int)),
    decreases tokens@.len() - pos, 1int,
{
    if pos >= tokens.len() {
        return Err(ParseError::Eof);
    }
    let t = tokens[pos];
    match t.value {
        TokenKind::Number(n) => Ok((Ast::num(n, t.loc), pos + 1)),
        TokenKind::LParen => {
            let (e, p) = parse_expr3(tokens, pos + 1)?;
            if p < tokens.len() {
                let t2 = tokens[p];
                match t2.value {
                    TokenKind::RParen => Ok((e, p + 1)),
                    _ => Err(ParseError::UnexpectedToken(t2)),
                }
            } else {
                Err(ParseError::UnclosedOpenParen(t))
            }
        },
        _ => Err(ParseError::NotExpression(t)),
    }
}

} // verus!
