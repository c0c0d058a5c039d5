//! Builds a syntax tree from a token stream, with Go's automatic statement
//! termination at line breaks and precedence climbing for binary operators.
use vstd::prelude::*;

pub mod ast;

use crate::error::{tsukiError, Span};
use crate::lexer::token::binary_prec;
use crate::lexer::{Token, TokenKind};
use crate::text::{push_str, string_of};
use ast::{Decl, Expr, FuncDecl, Param, Program, Stmt};

verus! {

/// A token stream that the parser can walk: it ends with its only `EOF` token.
pub open spec fn toks_ok(ts: Seq<Token>) -> bool {
    &&& 1 <= ts.len() <= usize::MAX
    &&& ts.last().kind is EOF
}

/// The precedence that the parser gives a binary operator: the table's, and that of
/// `&` for the bit-clear operator `&^`.
pub open spec fn parse_prec(k: TokenKind) -> u8 {
    match binary_prec(k) {
        Some(p) => p,
        None => if k is AmpCaret { 6 } else { 0 },
    }
}

/// The tree shape that precedence climbing gives: every binary node's operator binds at
/// least `min`; a left operand's operator binds at least as tightly as its parent's
/// (left association), a right operand's strictly more tightly. Parentheses reset it.
pub open spec fn shaped(e: Expr, min: nat) -> bool
    decreases e,
{
    match e {
        Expr::Binary(a, op, b) => parse_prec(op) >= min && parse_prec(op) >= 1 && shaped(*a, parse_prec(op) as nat)
            && shaped(*b, (parse_prec(op) + 1) as nat),
        _ => true,
    }
}

fn prec_of(k: &TokenKind) -> (r: u8)
    ensures
        r == parse_prec(*k),
        r <= 9,
{
    match k.as_binary_op() {
        Some((p, _)) => p,
        None => if matches!(k, TokenKind::AmpCaret) { 6 } else { 0 },
    }
}

proof fn lemma_not_last(ts: Seq<Token>, pos: int)
    requires
        toks_ok(ts),
        0 <= pos < ts.len(),
        !(ts[pos].kind is EOF),
    ensures
        pos + 1 < ts.len(),
{
}

/// A `Parse` diagnostic at `t`: "expected <what>, found `<t>`".
fn expected(t: &Token, what: &str) -> (r: tsukiError)
    ensures
        r is Parse,
{
    let mut v: Vec<char> = Vec::new();
    push_str(&mut v, "expected ");
    push_str(&mut v, what);
    if matches!(t.kind, TokenKind::EOF) {
        push_str(&mut v, ", found end of input");
    } else if matches!(t.kind, TokenKind::Newline) {
        push_str(&mut v, ", found newline");
    } else {
        push_str(&mut v, ", found `");
        push_str(&mut v, t.raw.as_str());
        push_str(&mut v, "`");
    }
    tsukiError::parse(t.span.duplicate(), string_of(&v))
}

/// Skips line breaks.
fn skip_newlines(ts: &Vec<Token>, pos: usize) -> (r: usize)
    requires
        toks_ok(ts@),
        pos < ts@.len(),
    ensures
        pos <= r < ts@.len(),
        !(ts@[r as int].kind is Newline),
{
    let mut p = pos;
    while matches!(ts[p].kind, TokenKind::Newline)
        invariant
            toks_ok(ts@),
            pos <= p < ts@.len(),
        decreases ts@.len() - p,
    {
        proof { lemma_not_last(ts@, p as int); }
        p += 1;
    }
    p
}

/// Skips line breaks and `;`.
fn skip_separators(ts: &Vec<Token>, pos: usize) -> (r: usize)
    requires
        toks_ok(ts@),
        pos < ts@.len(),
    ensures
        pos <= r < ts@.len(),
        !(ts@[r as int].kind is Newline),
        !(ts@[r as int].kind is Semicolon),
        forall|j: int| pos <= j < r ==> (#[trigger] ts@[j].kind is Newline || ts@[j].kind is Semicolon),
{
    let mut p = pos;
    while matches!(ts[p].kind, TokenKind::Newline) || matches!(ts[p].kind, TokenKind::Semicolon)
        invariant
            toks_ok(ts@),
            pos <= p < ts@.len(),
            forall|j: int| pos <= j < p ==> (#[trigger] ts@[j].kind is Newline || ts@[j].kind is Semicolon),
        decreases ts@.len() - p,
    {
        proof { lemma_not_last(ts@, p as int); }
        p += 1;
    }
    p
}

/// An identifier's name.
fn ident_at(ts: &Vec<Token>, pos: usize) -> (r: Result<String, tsukiError>)
    requires
        toks_ok(ts@),
        pos < ts@.len(),
    ensures
        r is Ok <==> ts@[pos as int].kind is Ident,
        r matches Ok(s) ==> s@ == ts@[pos as int].kind->Ident_0@,
        r matches Err(e) ==> e is Parse,
{
    match &ts[pos].kind {
        TokenKind::Ident(s) => Ok(s.clone()),
        _ => Err(expected(&ts[pos], "identifier")),
    }
}

/// A type as written: `[]`, `*` and `map[K]` prefixes, then a name or `pkg.Name`.
fn parse_type(ts: &Vec<Token>, pos: usize) -> (r: Result<(String, usize), tsukiError>)
    requires
        toks_ok(ts@),
        pos < ts@.len(),
    ensures
        r matches Ok((_, p)) ==> pos < p < ts@.len(),
        r matches Err(e) ==> e is Parse,
    decreases ts@.len() - pos,
{
    let mut text: Vec<char> = Vec::new();
    let mut p = pos;
    loop
        invariant
            toks_ok(ts@),
            pos <= p < ts@.len(),
        decreases ts@.len() - p,
    {
        if matches!(ts[p].kind, TokenKind::Star) {
            proof { lemma_not_last(ts@, p as int); }
            push_str(&mut text, "*");
            p += 1;
        } else if matches!(ts[p].kind, TokenKind::LBracket) && p + 1 < ts.len() && matches!(ts[p + 1].kind, TokenKind::RBracket) {
            proof { lemma_not_last(ts@, p + 1); }
            push_str(&mut text, "[]");
            p += 2;
        } else {
            break;
        }
    }
    let name = ident_at(ts, p)?;
    push_str(&mut text, name.as_str());
    proof { lemma_not_last(ts@, p as int); }
    p += 1;
    if matches!(ts[p].kind, TokenKind::Dot) {
        proof { lemma_not_last(ts@, p as int); }
        let member = ident_at(ts, p + 1)?;
        proof { lemma_not_last(ts@, p + 1); }
        push_str(&mut text, ".");
        push_str(&mut text, member.as_str());
        p += 2;
    }
    Ok((string_of(&text), p))
}

/// A copy of a binary operator's kind.
fn copy_binary_op(k: &TokenKind) -> (r: TokenKind)
    requires
        parse_prec(*k) > 0,
    ensures
        r == *k,
{
    match k {
        TokenKind::OrOr => TokenKind::OrOr,
        TokenKind::AndAnd => TokenKind::AndAnd,
        TokenKind::Eq => TokenKind::Eq,
        TokenKind::NotEq => TokenKind::NotEq,
        TokenKind::Lt => TokenKind::Lt,
        TokenKind::LtEq => TokenKind::LtEq,
        TokenKind::Gt => TokenKind::Gt,
        TokenKind::GtEq => TokenKind::GtEq,
        TokenKind::Pipe => TokenKind::Pipe,
        TokenKind::Caret => TokenKind::Caret,
        TokenKind::Amp => TokenKind::Amp,
        TokenKind::LShift => TokenKind::LShift,
        TokenKind::RShift => TokenKind::RShift,
        TokenKind::Plus => TokenKind::Plus,
        TokenKind::Minus => TokenKind::Minus,
        TokenKind::Star => TokenKind::Star,
        TokenKind::Slash => TokenKind::Slash,
        TokenKind::Percent => TokenKind::Percent,
        TokenKind::AmpCaret => TokenKind::AmpCaret,
        _ => TokenKind::Plus,
    }
}

/// An expression: binary operators at every precedence.
pub fn parse_expr(ts: &Vec<Token>, pos: usize) -> (r: Result<(Expr, usize), tsukiError>)
    requires
        toks_ok(ts@),
        pos < ts@.len(),
    ensures
        r matches Ok((_, p)) ==> pos < p < ts@.len(),
        r matches Ok((e, _)) ==> shaped(e, 1),
        r matches Err(e) ==> e is Parse,
    decreases ts@.len() - pos, 4nat,
{
    parse_binary(ts, pos, 1)
}

/// Operands joined by binary operators of precedence `min` or more, left-associative.
fn parse_binary(ts: &Vec<Token>, pos: usize, min: u8) -> (r: Result<(Expr, usize), tsukiError>)
    requires
        toks_ok(ts@),
        pos < ts@.len(),
        min >= 1,
    ensures
        r matches Ok((_, p)) ==> pos < p < ts@.len(),
        r matches Ok((e, p)) ==> shaped(e, min as nat) && (parse_prec(ts@[p as int].kind) < min
            || parse_prec(ts@[p as int].kind) == 0),
        r matches Err(e) ==> e is Parse,
    decreases ts@.len() - pos, 3nat,
{
    let (mut lhs, mut p) = parse_unary(ts, pos)?;
    loop
        invariant_except_break
            toks_ok(ts@),
            pos < p < ts@.len(),
            min >= 1,
            shaped(lhs, min as nat),
            lhs matches Expr::Binary(_, top, _) ==> parse_prec(ts@[p as int].kind) <= parse_prec(top),
        ensures
            pos < p < ts@.len(),
            shaped(lhs, min as nat),
            parse_prec(ts@[p as int].kind) < min || parse_prec(ts@[p as int].kind) == 0,
        decreases ts@.len() - p,
    {
        let prec = prec_of(&ts[p].kind);
        if prec < min || prec == 0 {
            break;
        }
        let op = copy_binary_op(&ts[p].kind);
        proof { lemma_not_last(ts@, p as int); }
        let q = skip_newlines(ts, p + 1);
        let (rhs, next) = parse_binary(ts, q, prec + 1)?;
        let ghost old_lhs = lhs;
        proof {
            assert(op == ts@[p as int].kind);
            assert(shaped(old_lhs, prec as nat));
        }
        lhs = Expr::Binary(Box::new(lhs), op, Box::new(rhs));
        p = next;
    }
    Ok((lhs, p))
}

/// A prefix operator applied to an operand, or a postfix expression.
fn parse_unary(ts: &Vec<Token>, pos: usize) -> (r: Result<(Expr, usize), tsukiError>)
    requires
        toks_ok(ts@),
        pos < ts@.len(),
    ensures
        r matches Ok((_, p)) ==> pos < p < ts@.len(),
        r matches Ok((e, _)) ==> !(e is Binary),
        r matches Err(e) ==> e is Parse,
    decreases ts@.len() - pos, 2nat,
{
    let k = &ts[pos].kind;
    if matches!(k, TokenKind::Plus) || matches!(k, TokenKind::Minus) || matches!(k, TokenKind::Bang)
        || matches!(k, TokenKind::Caret) || matches!(k, TokenKind::Amp) || matches!(k, TokenKind::Star)
        || matches!(k, TokenKind::Arrow) {
        proof { lemma_not_last(ts@, pos as int); }
        let (operand, p) = parse_unary(ts, pos + 1)?;
        return Ok((Expr::Unary(k.clone(), Box::new(operand), ts[pos].span.duplicate()), p));
    }
    parse_postfix(ts, pos)
}

/// A primary expression followed by selectors, calls and index operations, left to right.
fn parse_postfix(ts: &Vec<Token>, pos: usize) -> (r: Result<(Expr, usize), tsukiError>)
    requires
        toks_ok(ts@),
        pos < ts@.len(),
    ensures
        r matches Ok((_, p)) ==> pos < p < ts@.len(),
        r matches Ok((e, _)) ==> !(e is Binary),
        r matches Err(e) ==> e is Parse,
    decreases ts@.len() - pos, 1nat,
{
    let (mut e, mut p) = parse_primary(ts, pos)?;
    loop
        invariant
            toks_ok(ts@),
            pos < p < ts@.len(),
            !(e is Binary),
        decreases ts@.len() - p,
    {
        if matches!(ts[p].kind, TokenKind::Dot) {
            proof { lemma_not_last(ts@, p as int); }
            let name = ident_at(ts, p + 1)?;
            proof { lemma_not_last(ts@, p + 1); }
            e = Expr::Selector(Box::new(e), name);
            p = p + 2;
        } else if matches!(ts[p].kind, TokenKind::LParen) {
            proof { lemma_not_last(ts@, p as int); }
            let mut args: Vec<Expr> = Vec::new();
            let mut q = skip_newlines(ts, p + 1);
            while !matches!(ts[q].kind, TokenKind::RParen)
                invariant
                    toks_ok(ts@),
                    pos < p < q < ts@.len(),
                decreases ts@.len() - q,
            {
                let (arg, next) = parse_expr(ts, q)?;
                args.push(arg);
                let after = skip_newlines(ts, next);
                if matches!(ts[after].kind, TokenKind::Comma) {
                    proof { lemma_not_last(ts@, after as int); }
                    q = skip_newlines(ts, after + 1);
                } else if matches!(ts[after].kind, TokenKind::RParen) {
                    q = after;
                } else {
                    return Err(expected(&ts[after], "`,` or `)`"));
                }
            }
            proof { lemma_not_last(ts@, q as int); }
            e = Expr::Call(Box::new(e), args);
            p = q + 1;
        } else if matches!(ts[p].kind, TokenKind::LBracket) {
            proof { lemma_not_last(ts@, p as int); }
            let (index, q) = parse_expr(ts, p + 1)?;
            if !matches!(ts[q].kind, TokenKind::RBracket) {
                return Err(expected(&ts[q], "`]`"));
            }
            proof { lemma_not_last(ts@, q as int); }
            e = Expr::Index(Box::new(e), Box::new(index));
            p = q + 1;
        } else {
            break;
        }
    }
    Ok((e, p))
}

/// A literal, a name, or a parenthesized expression.
fn parse_primary(ts: &Vec<Token>, pos: usize) -> (r: Result<(Expr, usize), tsukiError>)
    requires
        toks_ok(ts@),
        pos < ts@.len(),
    ensures
        r matches Ok((_, p)) ==> pos < p < ts@.len(),
        r matches Ok((e, _)) ==> !(e is Binary),
        ts@[pos as int].kind is LitInt ==> (r matches Ok((e, p)) && p == pos + 1 && e is Int
            && e->Int_value == ts@[pos as int].kind->LitInt_0),
        ts@[pos as int].kind is Ident ==> (r matches Ok((e, p)) && p == pos + 1 && e is Ident
            && e->Ident_0@ == ts@[pos as int].kind->Ident_0@),
        ts@[pos as int].kind is LitBool ==> (r matches Ok((e, p)) && p == pos + 1 && e
            == Expr::Bool(ts@[pos as int].kind->LitBool_0)),
        ts@[pos as int].kind is LitRune ==> (r matches Ok((e, p)) && p == pos + 1 && e
            == Expr::Rune(ts@[pos as int].kind->LitRune_0)),
        r matches Err(e) ==> e is Parse,
    decreases ts@.len() - pos, 0nat,
{
    let t = &ts[pos];
    let e = match &t.kind {
        TokenKind::LitInt(v) => {
            let raw = crate::text::chars_of(t.raw.as_str());
            let mut radix: u32 = 10;
            if raw.len() >= 2 && raw[0] == '0' {
                if raw[1] == 'x' || raw[1] == 'X' {
                    radix = 16;
                } else if raw[1] == 'o' || raw[1] == 'O' {
                    radix = 8;
                } else if raw[1] == 'b' || raw[1] == 'B' {
                    radix = 2;
                }
            }
            Expr::Int { value: *v, radix }
        },
        TokenKind::LitFloat(s) => Expr::Float(s.clone()),
        TokenKind::LitString(s) => Expr::Str(s.clone()),
        TokenKind::LitRune(c) => Expr::Rune(*c),
        TokenKind::LitBool(b) => Expr::Bool(*b),
        TokenKind::KwNil => Expr::Nil,
        TokenKind::Ident(s) => Expr::Ident(s.clone()),
        TokenKind::LParen => {
            proof { lemma_not_last(ts@, pos as int); }
            let q = skip_newlines(ts, pos + 1);
            let (inner, p) = parse_expr(ts, q)?;
            let p = skip_newlines(ts, p);
            if !matches!(ts[p].kind, TokenKind::RParen) {
                return Err(expected(&ts[p], "`)`"));
            }
            proof { lemma_not_last(ts@, p as int); }
            return Ok((Expr::Paren(Box::new(inner)), p + 1));
        },
        _ => {
            return Err(expected(t, "expression"));
        },
    };
    proof { lemma_not_last(ts@, pos as int); }
    Ok((e, pos + 1))
}


/// Whether a token ends a simple statement without being part of it: `;`, a line break,
/// a closing brace, or the end of input.
fn at_statement_end(k: &TokenKind) -> bool {
    matches!(k, TokenKind::Semicolon) || matches!(k, TokenKind::Newline) || matches!(k, TokenKind::RBrace)
        || matches!(k, TokenKind::EOF)
}

/// Consumes the terminator after a statement: `;` or a line break; a closing brace or
/// the end of input also ends it and is left in place.
fn end_statement(ts: &Vec<Token>, pos: usize) -> (r: Result<usize, tsukiError>)
    requires
        toks_ok(ts@),
        pos < ts@.len(),
    ensures
        r matches Ok(p) ==> pos <= p < ts@.len(),
        r is Ok <==> (ts@[pos as int].kind is Semicolon || ts@[pos as int].kind is Newline
            || ts@[pos as int].kind is RBrace || ts@[pos as int].kind is EOF),
        r matches Ok(p) ==> (p == pos + 1 <==> (ts@[pos as int].kind is Semicolon || ts@[pos as int].kind is Newline)),
        r matches Err(e) ==> e is Parse,
{
    let k = &ts[pos].kind;
    if matches!(k, TokenKind::Semicolon) || matches!(k, TokenKind::Newline) {
        proof { lemma_not_last(ts@, pos as int); }
        Ok(pos + 1)
    } else if matches!(k, TokenKind::RBrace) || matches!(k, TokenKind::EOF) {
        Ok(pos)
    } else {
        Err(expected(&ts[pos], "newline or `;`"))
    }
}

/// An expression statement, `:=` declaration, assignment, `++`/`--`, or channel send.
fn parse_simple(ts: &Vec<Token>, pos: usize) -> (r: Result<(Stmt, usize), tsukiError>)
    requires
        toks_ok(ts@),
        pos < ts@.len(),
    ensures
        r matches Ok((_, p)) ==> pos < p < ts@.len(),
        r matches Err(e) ==> e is Parse,
{
    let (lhs, p) = parse_expr(ts, pos)?;
    let k = &ts[p].kind;
    if matches!(k, TokenKind::DeclAssign) {
        let name = match &lhs {
            Expr::Ident(n) => n.clone(),
            _ => {
                return Err(expected(&ts[pos], "identifier before `:=`"));
            },
        };
        proof { lemma_not_last(ts@, p as int); }
        let q = skip_newlines(ts, p + 1);
        let (value, next) = parse_expr(ts, q)?;
        Ok((Stmt::ShortVar { name, value }, next))
    } else if k.as_assign_op().is_some() {
        proof { lemma_not_last(ts@, p as int); }
        let q = skip_newlines(ts, p + 1);
        let (value, next) = parse_expr(ts, q)?;
        Ok((Stmt::Assign { target: lhs, op: k.clone(), value }, next))
    } else if matches!(k, TokenKind::Inc) || matches!(k, TokenKind::Dec) {
        proof { lemma_not_last(ts@, p as int); }
        Ok((Stmt::IncDec { target: lhs, inc: matches!(k, TokenKind::Inc) }, p + 1))
    } else if matches!(k, TokenKind::Arrow) {
        proof { lemma_not_last(ts@, p as int); }
        let (value, next) = parse_expr(ts, p + 1)?;
        Ok((Stmt::Send(lhs, value, ts[pos].span.duplicate()), next))
    } else {
        Ok((Stmt::Expr(lhs), p))
    }
}

/// `var` or `const`: a name, an optional type, an optional `= value`.
fn parse_var(ts: &Vec<Token>, pos: usize) -> (r: Result<(Stmt, usize), tsukiError>)
    requires
        toks_ok(ts@),
        pos < ts@.len(),
        ts@[pos as int].kind is KwVar || ts@[pos as int].kind is KwConst,
    ensures
        r matches Ok((_, p)) ==> pos < p < ts@.len(),
        r matches Err(e) ==> e is Parse,
{
    let constant = matches!(ts[pos].kind, TokenKind::KwConst);
    proof { lemma_not_last(ts@, pos as int); }
    let name = ident_at(ts, pos + 1)?;
    proof { lemma_not_last(ts@, pos + 1); }
    let mut p = pos + 2;
    let mut ty: Option<String> = None;
    if !matches!(ts[p].kind, TokenKind::Assign) && !at_statement_end(&ts[p].kind) {
        let (t, q) = parse_type(ts, p)?;
        ty = Some(t);
        p = q;
    }
    let mut value: Option<Expr> = None;
    if matches!(ts[p].kind, TokenKind::Assign) {
        proof { lemma_not_last(ts@, p as int); }
        let q = skip_newlines(ts, p + 1);
        let (v, next) = parse_expr(ts, q)?;
        value = Some(v);
        p = next;
    }
    Ok((Stmt::VarDecl { name, ty, value, constant }, p))
}

/// A braced block of statements.
fn parse_block(ts: &Vec<Token>, pos: usize) -> (r: Result<(Vec<Stmt>, usize), tsukiError>)
    requires
        toks_ok(ts@),
        pos < ts@.len(),
    ensures
        r matches Ok((_, p)) ==> pos < p < ts@.len(),
        r matches Err(e) ==> e is Parse,
    decreases ts@.len() - pos, 0nat,
{
    if !matches!(ts[pos].kind, TokenKind::LBrace) {
        return Err(expected(&ts[pos], "`{`"));
    }
    proof { lemma_not_last(ts@, pos as int); }
    let mut out: Vec<Stmt> = Vec::new();
    let mut p = skip_separators(ts, pos + 1);
    while !matches!(ts[p].kind, TokenKind::RBrace)
        invariant
            toks_ok(ts@),
            pos < p < ts@.len(),
        decreases ts@.len() - p,
    {
        if matches!(ts[p].kind, TokenKind::EOF) {
            return Err(expected(&ts[p], "`}`"));
        }
        let (s, q) = parse_stmt(ts, p)?;
        out.push(s);
        let q = end_statement(ts, q)?;
        p = skip_separators(ts, q);
    }
    proof { lemma_not_last(ts@, p as int); }
    Ok((out, p + 1))
}

/// One statement, without its terminator.
fn parse_stmt(ts: &Vec<Token>, pos: usize) -> (r: Result<(Stmt, usize), tsukiError>)
    requires
        toks_ok(ts@),
        pos < ts@.len(),
    ensures
        r matches Ok((_, p)) ==> pos < p < ts@.len(),
        r matches Err(e) ==> e is Parse,
    decreases ts@.len() - pos, 1nat,
{
    let k = &ts[pos].kind;
    if matches!(k, TokenKind::EOF) {
        return Err(expected(&ts[pos], "statement"));
    }
    proof { lemma_not_last(ts@, pos as int); }
    let next = pos + 1;
    match k {
        TokenKind::KwVar | TokenKind::KwConst => parse_var(ts, pos),
        TokenKind::LBrace => {
            let (b, p) = parse_block(ts, pos)?;
            Ok((Stmt::Block(b), p))
        },
        TokenKind::KwIf => {
            let (cond, p) = parse_expr(ts, next)?;
            let (then_block, p) = parse_block(ts, p)?;
            if matches!(ts[p].kind, TokenKind::KwElse) {
                proof { lemma_not_last(ts@, p as int); }
                let q = p + 1;
                if matches!(ts[q].kind, TokenKind::KwIf) {
                    let (e, r) = parse_stmt(ts, q)?;
                    Ok((Stmt::If { cond, then_block, else_branch: Some(Box::new(e)) }, r))
                } else {
                    let (b, r) = parse_block(ts, q)?;
                    Ok((Stmt::If { cond, then_block, else_branch: Some(Box::new(Stmt::Block(b))) }, r))
                }
            } else {
                Ok((Stmt::If { cond, then_block, else_branch: None }, p))
            }
        },
        TokenKind::KwFor => parse_for(ts, pos),
        TokenKind::KwSwitch => parse_switch(ts, pos),
        TokenKind::KwReturn => {
            if at_statement_end(&ts[next].kind) {
                Ok((Stmt::Return(None), next))
            } else {
                let (e, p) = parse_expr(ts, next)?;
                Ok((Stmt::Return(Some(e)), p))
            }
        },
        TokenKind::KwBreak => Ok((Stmt::Break, next)),
        TokenKind::KwContinue => Ok((Stmt::Continue, next)),
        TokenKind::KwFallthrough => Ok((Stmt::Fallthrough, next)),
        TokenKind::KwGoto => {
            let label = ident_at(ts, next)?;
            proof { lemma_not_last(ts@, next as int); }
            Ok((Stmt::Goto(label), next + 1))
        },
        TokenKind::KwGo => {
            let (e, p) = parse_expr(ts, next)?;
            Ok((Stmt::Go(e, ts[pos].span.duplicate()), p))
        },
        TokenKind::KwDefer => {
            let (e, p) = parse_expr(ts, next)?;
            Ok((Stmt::Defer(e, ts[pos].span.duplicate()), p))
        },
        TokenKind::KwSelect => {
            let p = skip_balanced(ts, next)?;
            Ok((Stmt::Select(ts[pos].span.duplicate()), p))
        },
        _ => parse_simple(ts, pos),
    }
}

/// Skips a braced body, counting nested braces, without parsing it.
fn skip_balanced(ts: &Vec<Token>, pos: usize) -> (r: Result<usize, tsukiError>)
    requires
        toks_ok(ts@),
        pos < ts@.len(),
    ensures
        r matches Ok(p) ==> pos < p < ts@.len(),
        r matches Err(e) ==> e is Parse,
{
    if !matches!(ts[pos].kind, TokenKind::LBrace) {
        return Err(expected(&ts[pos], "`{`"));
    }
    let mut depth: usize = 0;
    let mut p = pos;
    loop
        invariant
            toks_ok(ts@),
            pos <= p < ts@.len(),
            ts@[pos as int].kind is LBrace,
            p == pos ==> depth == 0,
            p > pos ==> depth > 0,
            depth <= p - pos,
        decreases ts@.len() - p,
    {
        let k = &ts[p].kind;
        if matches!(k, TokenKind::EOF) {
            return Err(expected(&ts[p], "`}`"));
        }
        proof { lemma_not_last(ts@, p as int); }
        if matches!(k, TokenKind::LBrace) {
            depth += 1;
        } else if matches!(k, TokenKind::RBrace) {
            depth -= 1;
            if depth == 0 {
                return Ok(p + 1);
            }
        }
        p += 1;
    }
}

/// `for` in its endless, condition-only, three-clause and `range` shapes.
fn parse_for(ts: &Vec<Token>, pos: usize) -> (r: Result<(Stmt, usize), tsukiError>)
    requires
        toks_ok(ts@),
        pos < ts@.len(),
        ts@[pos as int].kind is KwFor,
    ensures
        r matches Ok((_, p)) ==> pos < p < ts@.len(),
        r matches Err(e) ==> e is Parse,
    decreases ts@.len() - pos, 0nat,
{
    proof { lemma_not_last(ts@, pos as int); }
    let p = pos + 1;
    if matches!(ts[p].kind, TokenKind::LBrace) {
        let (body, q) = parse_block(ts, p)?;
        return Ok((Stmt::For { init: None, cond: None, post: None, body }, q));
    }
    if ts.len() - p > 2 && matches!(ts[p + 1].kind, TokenKind::DeclAssign) && matches!(ts[p + 2].kind, TokenKind::KwRange) {
        let key = ident_at(ts, p)?;
        proof { lemma_not_last(ts@, p + 2); }
        let (over, q) = parse_expr(ts, p + 3)?;
        let (body, q) = parse_block(ts, q)?;
        return Ok((Stmt::Range { key, over, body }, q));
    }
    let mut init: Option<Box<Stmt>> = None;
    let mut q = p;
    if !matches!(ts[q].kind, TokenKind::Semicolon) {
        let (s, after) = parse_simple(ts, q)?;
        if !matches!(ts[after].kind, TokenKind::Semicolon) {
            let cond = match s {
                Stmt::Expr(e) => e,
                _ => {
                    return Err(expected(&ts[after], "`;`"));
                },
            };
            let (body, r) = parse_block(ts, after)?;
            return Ok((Stmt::For { init: None, cond: Some(cond), post: None, body }, r));
        }
        init = Some(Box::new(s));
        q = after;
    }
    proof { lemma_not_last(ts@, q as int); }
    q = q + 1;
    let mut cond: Option<Expr> = None;
    if !matches!(ts[q].kind, TokenKind::Semicolon) {
        let (c, after) = parse_expr(ts, q)?;
        cond = Some(c);
        q = after;
    }
    if !matches!(ts[q].kind, TokenKind::Semicolon) {
        return Err(expected(&ts[q], "`;`"));
    }
    proof { lemma_not_last(ts@, q as int); }
    q = q + 1;
    let mut post: Option<Box<Stmt>> = None;
    if !matches!(ts[q].kind, TokenKind::LBrace) {
        let (s, after) = parse_simple(ts, q)?;
        post = Some(Box::new(s));
        q = after;
    }
    let (body, r) = parse_block(ts, q)?;
    Ok((Stmt::For { init, cond, post, body }, r))
}

/// `switch [tag] { case a, b: ... default: ... }`
fn parse_switch(ts: &Vec<Token>, pos: usize) -> (r: Result<(Stmt, usize), tsukiError>)
    requires
        toks_ok(ts@),
        pos < ts@.len(),
        ts@[pos as int].kind is KwSwitch,
    ensures
        r matches Ok((_, p)) ==> pos < p < ts@.len(),
        r matches Err(e) ==> e is Parse,
    decreases ts@.len() - pos, 0nat,
{
    proof { lemma_not_last(ts@, pos as int); }
    let mut p = pos + 1;
    let mut tag: Option<Expr> = None;
    if !matches!(ts[p].kind, TokenKind::LBrace) {
        let (e, q) = parse_expr(ts, p)?;
        tag = Some(e);
        p = q;
    }
    if !matches!(ts[p].kind, TokenKind::LBrace) {
        return Err(expected(&ts[p], "`{`"));
    }
    proof { lemma_not_last(ts@, p as int); }
    p = skip_separators(ts, p + 1);
    let mut cases: Vec<Stmt> = Vec::new();
    while !matches!(ts[p].kind, TokenKind::RBrace)
        invariant
            toks_ok(ts@),
            pos < p < ts@.len(),
        decreases ts@.len() - p,
    {
        let mut values: Vec<Expr> = Vec::new();
        let mut q = p;
        if matches!(ts[p].kind, TokenKind::KwCase) {
            proof { lemma_not_last(ts@, p as int); }
            q = p + 1;
            loop
                invariant
                    toks_ok(ts@),
                    p < q < ts@.len(),
                decreases ts@.len() - q,
            {
                let (v, after) = parse_expr(ts, q)?;
                values.push(v);
                if matches!(ts[after].kind, TokenKind::Comma) {
                    proof { lemma_not_last(ts@, after as int); }
                    q = skip_newlines(ts, after + 1);
                } else {
                    q = after;
                    break;
                }
            }
        } else if matches!(ts[p].kind, TokenKind::KwDefault) {
            proof { lemma_not_last(ts@, p as int); }
            q = p + 1;
        } else {
            return Err(expected(&ts[p], "`case` or `default`"));
        }
        if !matches!(ts[q].kind, TokenKind::Colon) {
            return Err(expected(&ts[q], "`:`"));
        }
        proof { lemma_not_last(ts@, q as int); }
        q = skip_separators(ts, q + 1);
        let mut body: Vec<Stmt> = Vec::new();
        while !matches!(ts[q].kind, TokenKind::KwCase) && !matches!(ts[q].kind, TokenKind::KwDefault)
            && !matches!(ts[q].kind, TokenKind::RBrace)
            invariant
                toks_ok(ts@),
                pos < p < q < ts@.len(),
            decreases ts@.len() - q,
        {
            if matches!(ts[q].kind, TokenKind::EOF) {
                return Err(expected(&ts[q], "`}`"));
            }
            let (s, after) = parse_stmt(ts, q)?;
            body.push(s);
            let after = end_statement(ts, after)?;
            q = skip_separators(ts, after);
        }
        cases.push(Stmt::Case { values, body });
        p = q;
    }
    proof { lemma_not_last(ts@, p as int); }
    Ok((Stmt::Switch { tag, cases }, p + 1))
}

/// `func name(params) [result] { body }`
fn parse_func(ts: &Vec<Token>, pos: usize) -> (r: Result<(FuncDecl, usize), tsukiError>)
    requires
        toks_ok(ts@),
        pos < ts@.len(),
        ts@[pos as int].kind is KwFunc,
    ensures
        r matches Ok((_, p)) ==> pos < p < ts@.len(),
        r matches Err(e) ==> e is Parse,
{
    proof { lemma_not_last(ts@, pos as int); }
    let name = ident_at(ts, pos + 1)?;
    proof { lemma_not_last(ts@, pos + 1); }
    let mut p = pos + 2;
    if !matches!(ts[p].kind, TokenKind::LParen) {
        return Err(expected(&ts[p], "`(`"));
    }
    proof { lemma_not_last(ts@, p as int); }
    p = skip_newlines(ts, p + 1);
    let mut params: Vec<Param> = Vec::new();
    while !matches!(ts[p].kind, TokenKind::RParen)
        invariant
            toks_ok(ts@),
            pos < p < ts@.len(),
        decreases ts@.len() - p,
    {
        let pname = ident_at(ts, p)?;
        proof { lemma_not_last(ts@, p as int); }
        let (ty, q) = parse_type(ts, p + 1)?;
        params.push(Param { name: pname, ty });
        let q = skip_newlines(ts, q);
        if matches!(ts[q].kind, TokenKind::Comma) {
            proof { lemma_not_last(ts@, q as int); }
            p = skip_newlines(ts, q + 1);
        } else if matches!(ts[q].kind, TokenKind::RParen) {
            p = q;
        } else {
            return Err(expected(&ts[q], "`,` or `)`"));
        }
    }
    proof { lemma_not_last(ts@, p as int); }
    p = p + 1;
    let mut ret: Option<String> = None;
    if !matches!(ts[p].kind, TokenKind::LBrace) {
        let (t, q) = parse_type(ts, p)?;
        ret = Some(t);
        p = q;
    }
    let (body, q) = parse_block(ts, p)?;
    Ok((FuncDecl { name, params, ret, body, span: ts[pos].span.duplicate() }, q))
}

/// Whether the first token that is not a separator is `package`, followed by the name `name`.
pub open spec fn opens_with_package(ts: Seq<Token>, name: Seq<char>) -> bool {
    exists|i: int|
        #![trigger ts[i]]
        0 <= i && i + 1 < ts.len() && ts[i].kind is KwPackage && ts[i + 1].kind is Ident
            && ts[i + 1].kind->Ident_0@ == name && forall|j: int|
            0 <= j < i ==> (#[trigger] ts[j].kind is Newline || ts[j].kind is Semicolon)
}

/// A whole file: the package clause, imports, then top-level declarations.
pub fn parse_program(ts: &Vec<Token>) -> (r: Result<Program, tsukiError>)
    requires
        toks_ok(ts@),
    ensures
        r matches Ok(prog) ==> opens_with_package(ts@, prog.package@),
        r matches Err(e) ==> e is Parse,
{
    let mut p = skip_separators(ts, 0);
    if !matches!(ts[p].kind, TokenKind::KwPackage) {
        return Err(expected(&ts[p], "`package`"));
    }
    proof { lemma_not_last(ts@, p as int); }
    let package = ident_at(ts, p + 1)?;
    proof {
        lemma_not_last(ts@, p + 1);
        assert(opens_with_package(ts@, package@));
    }
    p = end_statement(ts, p + 2)?;
    p = skip_separators(ts, p);
    let mut imports: Vec<String> = Vec::new();
    while matches!(ts[p].kind, TokenKind::KwImport)
        invariant
            toks_ok(ts@),
            p < ts@.len(),
        decreases ts@.len() - p,
    {
        proof { lemma_not_last(ts@, p as int); }
        let mut q = p + 1;
        let grouped = matches!(ts[q].kind, TokenKind::LParen);
        if grouped {
            proof { lemma_not_last(ts@, q as int); }
            q = skip_separators(ts, q + 1);
        }
        loop
            invariant
                toks_ok(ts@),
                p < q < ts@.len(),
            decreases ts@.len() - q,
        {
            match &ts[q].kind {
                TokenKind::LitString(path) => {
                    imports.push(path.clone());
                    proof { lemma_not_last(ts@, q as int); }
                    q = q + 1;
                },
                _ => {
                    return Err(expected(&ts[q], "import path"));
                },
            }
            if !grouped {
                break;
            }
            q = skip_separators(ts, q);
            if matches!(ts[q].kind, TokenKind::RParen) {
                proof { lemma_not_last(ts@, q as int); }
                q = q + 1;
                break;
            }
        }
        q = end_statement(ts, q)?;
        p = skip_separators(ts, q);
    }
    let mut decls: Vec<Decl> = Vec::new();
    while !matches!(ts[p].kind, TokenKind::EOF)
        invariant
            toks_ok(ts@),
            p < ts@.len(),
        decreases ts@.len() - p,
    {
        let k = &ts[p].kind;
        let q;
        if matches!(k, TokenKind::KwFunc) {
            let (f, after) = parse_func(ts, p)?;
            decls.push(Decl::Func(f));
            q = after;
        } else if matches!(k, TokenKind::KwVar) || matches!(k, TokenKind::KwConst) {
            let (s, after) = parse_var(ts, p)?;
            decls.push(Decl::Var(s, ts[p].span.duplicate()));
            q = after;
        } else if matches!(k, TokenKind::KwType) {
            proof { lemma_not_last(ts@, p as int); }
            let name = ident_at(ts, p + 1)?;
            proof { lemma_not_last(ts@, p + 1); }
            let mut after = p + 2;
            if matches!(ts[after].kind, TokenKind::KwStruct) || matches!(ts[after].kind, TokenKind::KwInterface) {
                proof { lemma_not_last(ts@, after as int); }
                after = skip_balanced(ts, after + 1)?;
            } else {
                let (_, a) = parse_type(ts, after)?;
                after = a;
            }
            decls.push(Decl::Type(name, ts[p].span.duplicate()));
            q = after;
        } else {
            return Err(expected(&ts[p], "declaration"));
        }
        let q = end_statement(ts, q)?;
        p = skip_separators(ts, q);
    }
    Ok(Program { package, imports, decls })
}

/// Parses a token stream produced by the lexer.
pub struct Parser {
    tokens: Vec<Token>,
}

impl Parser {
    pub closed spec fn tokens(&self) -> Seq<Token> {
        self.tokens@
    }

    pub fn new(tokens: Vec<Token>) -> (r: Parser)
        ensures
            r.tokens() == tokens@,
    {
        Parser { tokens }
    }

    /// The program's syntax tree, or the first grammar violation as a `Parse` diagnostic.
    pub fn parse_program(&self) -> (r: Result<Program, tsukiError>)
        requires
            self.tokens().len() >= 1,
            self.tokens().last().kind is EOF,
        ensures
            r matches Ok(prog) ==> opens_with_package(self.tokens(), prog.package@),
            r matches Err(e) ==> e is Parse,
    {
        // A vector's length is a `usize`, which bounds the positions the parser walks.
        let count = self.tokens.len();
        assert(count == self.tokens@.len());
        parse_program(&self.tokens)
    }
}

} // verus!
