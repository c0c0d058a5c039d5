//! Walks the syntax tree and emits Arduino C++.
use vstd::prelude::*;

pub mod config;

pub use config::TranspileConfig;

use crate::error::{push_span, span_text, tsukiError, Span};
use crate::lexer::token::same_text;
use crate::lexer::token::{binary_prec, is_assign_kind, op_text};
use crate::lexer::TokenKind;
use crate::parser::ast::{Decl, Expr, FuncDecl, Param, Program, Stmt};
use crate::runtime::{catalog_spec, first_with_id, Board};
use crate::text::{decimal, digit_char, push_all, push_decimal, push_str, string_of};

verus! {

broadcast use vstd::std_specs::vec::axiom_vec_index_decreases;

/// The members of the intrinsic `arduino` package: the Arduino core API.
pub open spec fn intrinsic_names() -> Seq<Seq<char>> {
    seq![
        "pinMode"@,
        "digitalWrite"@,
        "digitalRead"@,
        "analogRead"@,
        "analogWrite"@,
        "analogReference"@,
        "delay"@,
        "delayMicroseconds"@,
        "millis"@,
        "micros"@,
        "tone"@,
        "noTone"@,
        "pulseIn"@,
        "shiftOut"@,
        "shiftIn"@,
        "attachInterrupt"@,
        "detachInterrupt"@,
        "interrupts"@,
        "noInterrupts"@,
        "map"@,
        "constrain"@,
        "min"@,
        "max"@,
        "abs"@,
        "random"@,
        "randomSeed"@,
        "OUTPUT"@,
        "INPUT"@,
        "INPUT_PULLUP"@,
        "HIGH"@,
        "LOW"@,
        "LED_BUILTIN"@,
        "A0"@,
        "A1"@,
        "A2"@,
        "A3"@,
        "A4"@,
        "A5"@,
        "CHANGE"@,
        "RISING"@,
        "FALLING"@,
        "Serial"@,
    ]
}

/// Whether `m` names a member of the intrinsic package.
pub fn is_intrinsic(m: &str) -> (r: bool)
    ensures
        r == intrinsic_names().contains(m@),
{
    let names: Vec<&str> = vec![
        "pinMode",
        "digitalWrite",
        "digitalRead",
        "analogRead",
        "analogWrite",
        "analogReference",
        "delay",
        "delayMicroseconds",
        "millis",
        "micros",
        "tone",
        "noTone",
        "pulseIn",
        "shiftOut",
        "shiftIn",
        "attachInterrupt",
        "detachInterrupt",
        "interrupts",
        "noInterrupts",
        "map",
        "constrain",
        "min",
        "max",
        "abs",
        "random",
        "randomSeed",
        "OUTPUT",
        "INPUT",
        "INPUT_PULLUP",
        "HIGH",
        "LOW",
        "LED_BUILTIN",
        "A0",
        "A1",
        "A2",
        "A3",
        "A4",
        "A5",
        "CHANGE",
        "RISING",
        "FALLING",
        "Serial",
    ];
    assert(names@.len() == intrinsic_names().len());
    let mut i: usize = 0;
    while i < names.len()
        invariant
            names@.len() == intrinsic_names().len(),
            forall|j: int| 0 <= j < names@.len() ==> (#[trigger] names@[j])@ == intrinsic_names()[j],
            i <= names@.len(),
            forall|j: int| 0 <= j < i ==> (#[trigger] intrinsic_names()[j]) != m@,
        decreases names@.len() - i,
    {
        if same_text(names[i], m) {
            assert(intrinsic_names()[i as int] == m@);
            return true;
        }
        i += 1;
    }
    false
}

/// Whether an expression is the intrinsic package's name.
pub open spec fn is_package(e: Expr) -> bool {
    e matches Expr::Ident(n) && n@ == "arduino"@
}

/// Whether an expression can be emitted under `cfg`: every intrinsic member it names is
/// known (or passed through), and a channel receive in it is annotated.
pub open spec fn expr_ok(e: Expr, cfg: TranspileConfig) -> bool
    decreases e,
{
    match e {
        Expr::Selector(x, m) => if is_package(*x) {
            cfg.passthrough_unknown || intrinsic_names().contains(m@)
        } else {
            expr_ok(*x, cfg)
        },
        Expr::Call(f, args) => expr_ok(*f, cfg) && forall|i: int|
            0 <= i < args.len() ==> expr_ok(#[trigger] args[i], cfg),
        Expr::Index(a, b) => expr_ok(*a, cfg) && expr_ok(*b, cfg),
        Expr::Unary(op, x, _) => if op is Arrow {
            cfg.annotate_unsupported
        } else {
            expr_ok(*x, cfg)
        },
        Expr::Binary(a, _, b) => expr_ok(*a, cfg) && expr_ok(*b, cfg),
        Expr::Paren(x) => expr_ok(*x, cfg),
        _ => true,
    }
}

/// Whether a statement can be emitted under `cfg`: its expressions can, `go`, `defer`,
/// channel sends and `select` are annotated rather than refused, and every `switch`
/// has a tag.
pub open spec fn stmt_ok(s: Stmt, cfg: TranspileConfig) -> bool
    decreases s,
{
    match s {
        Stmt::Expr(e) => expr_ok(e, cfg),
        Stmt::VarDecl { value, .. } => match value {
            Some(v) => expr_ok(v, cfg),
            None => true,
        },
        Stmt::ShortVar { value, .. } => expr_ok(value, cfg),
        Stmt::Assign { target, value, .. } => expr_ok(target, cfg) && expr_ok(value, cfg),
        Stmt::IncDec { target, .. } => expr_ok(target, cfg),
        Stmt::Block(b) => forall|i: int| 0 <= i < b.len() ==> stmt_ok(#[trigger] b[i], cfg),
        Stmt::If { cond, then_block, else_branch } => expr_ok(cond, cfg) && (forall|i: int|
            0 <= i < then_block.len() ==> stmt_ok(#[trigger] then_block[i], cfg)) && (else_branch is None
            || stmt_ok(*else_branch->Some_0, cfg)),
        Stmt::For { init, cond, post, body } => (init is None || (is_simple(*init->Some_0) && stmt_ok(
            *init->Some_0,
            cfg,
        ))) && (cond is None || expr_ok(cond->Some_0, cfg)) && (post is None || (is_simple(*post->Some_0)
            && stmt_ok(*post->Some_0, cfg))) && forall|i: int|
            0 <= i < body.len() ==> stmt_ok(#[trigger] body[i], cfg),
        Stmt::Range { over, body, .. } => expr_ok(over, cfg) && forall|i: int|
            0 <= i < body.len() ==> stmt_ok(#[trigger] body[i], cfg),
        Stmt::Switch { tag, cases } => (tag is None || expr_ok(tag->Some_0, cfg)) && forall|i: int|
            0 <= i < cases.len() ==> stmt_ok(#[trigger] cases[i], cfg),
        Stmt::Case { values, body } => (forall|i: int|
            0 <= i < values.len() ==> expr_ok(#[trigger] values[i], cfg)) && forall|i: int|
            0 <= i < body.len() ==> stmt_ok(#[trigger] body[i], cfg),
        Stmt::Return(v) => match v {
            Some(e) => expr_ok(e, cfg),
            None => true,
        },
        Stmt::Go(..) | Stmt::Defer(..) | Stmt::Send(..) | Stmt::Select(..) => cfg.annotate_unsupported,
        _ => true,
    }
}

/// Statements that can stand in the clauses of a `for`.
pub open spec fn is_simple(s: Stmt) -> bool {
    s is Expr || s is VarDecl || s is ShortVar || s is Assign || s is IncDec || s is Return || s is Break
        || s is Continue || s is Goto
}

pub open spec fn block_ok(b: Vec<Stmt>, cfg: TranspileConfig) -> bool {
    forall|i: int| 0 <= i < b.len() ==> stmt_ok(#[trigger] b[i], cfg)
}

pub open spec fn decl_ok(d: Decl, cfg: TranspileConfig) -> bool {
    match d {
        Decl::Func(f) => block_ok(f.body, cfg),
        Decl::Var(s, _) => stmt_ok(s, cfg),
        Decl::Type(..) => true,
    }
}

/// Whether the catalog has a board with this id.
pub open spec fn board_known(id: Seq<char>) -> bool {
    exists|i: int| 0 <= i < catalog_spec().len() && (#[trigger] catalog_spec()[i]).id@ == id
}

/// Whether `generate` succeeds on `p` under `cfg`.
pub open spec fn program_ok(p: Program, cfg: TranspileConfig) -> bool {
    &&& board_known(cfg.board@)
    &&& forall|i: int| 0 <= i < p.decls.len() ==> decl_ok(#[trigger] p.decls[i], cfg)
}


/// A digit in bases up to 16; letters are upper case.
pub open spec fn radix_char(d: nat) -> char {
    if d < 10 {
        digit_char(d)
    } else if d == 10 {
        'A'
    } else if d == 11 {
        'B'
    } else if d == 12 {
        'C'
    } else if d == 13 {
        'D'
    } else if d == 14 {
        'E'
    } else {
        'F'
    }
}

/// The digits of `n` in base `r`, most significant first.
pub open spec fn radix_digits(n: nat, r: nat) -> Seq<char>
    decreases n
    via radix_digits_decreases
{
    if r < 2 || n < r {
        seq![radix_char(n)]
    } else {
        radix_digits(n / r, r).push(radix_char(n % r))
    }
}

#[via_fn]
proof fn radix_digits_decreases(n: nat, r: nat) {
    if !(r < 2 || n < r) {
        assert(n / r < n) by (nonlinear_arith)
            requires
                n >= r,
                r >= 2,
        ;
    }
}

/// The C++ spelling of an integer literal: hexadecimal and octal keep their radix,
/// others are written in decimal.
pub open spec fn int_text(value: int, radix: u32) -> Seq<char> {
    if value >= 0 && radix == 16 {
        "0x"@ + radix_digits(value as nat, 16)
    } else if value > 0 && radix == 8 {
        "0"@ + radix_digits(value as nat, 8)
    } else if value >= 0 {
        decimal(value as nat)
    } else {
        "-"@ + decimal((-value) as nat)
    }
}

/// One character inside a C++ literal delimited by `q`.
pub open spec fn escape_one(c: char, q: char) -> Seq<char> {
    if c == '\n' {
        "\\n"@
    } else if c == '\t' {
        "\\t"@
    } else if c == '\r' {
        "\\r"@
    } else if c == '\0' {
        "\\0"@
    } else if c == '\\' {
        "\\\\"@
    } else if c == q {
        seq!['\\', c]
    } else {
        seq![c]
    }
}

pub open spec fn escaped(s: Seq<char>, q: char) -> Seq<char>
    decreases s.len(),
{
    if s.len() == 0 {
        Seq::empty()
    } else {
        escaped(s.drop_last(), q) + escape_one(s.last(), q)
    }
}

/// The comment that stands for an unsupported construct.
pub open spec fn note_text(what: Seq<char>, sp: Span) -> Seq<char> {
    "/* unsupported: "@ + what + " at "@ + span_text(sp) + " (not emitted) */"@
}

pub open spec fn unary_text(op: TokenKind) -> Seq<char> {
    match op {
        TokenKind::Caret => "~"@,
        TokenKind::Plus => "+"@,
        TokenKind::Minus => "-"@,
        TokenKind::Bang => "!"@,
        TokenKind::Amp => "&"@,
        _ => "*"@,
    }
}

/// The spelling of a binary operator; C++ spells each as Go does.
pub open spec fn binary_text(op: TokenKind) -> Seq<char> {
    if binary_prec(op) is Some {
        op_text(op)
    } else {
        Seq::empty()
    }
}

/// The C++ text of a string literal: an Arduino `String` or a plain C string.
pub open spec fn string_text(s: Seq<char>, arduino_string: bool) -> Seq<char> {
    if arduino_string {
        "String(\""@ + escaped(s, '"') + "\")"@
    } else {
        "\""@ + escaped(s, '"') + "\""@
    }
}

/// The message for a construct with no single-threaded equivalent, refused because
/// annotation is off: it names the construct and where it stands.
pub open spec fn unsupported_text(what: Seq<char>, sp: Span) -> Seq<char> {
    what + " is not supported on Arduino ("@ + span_text(sp) + ")"@
}

/// The message for a member of the intrinsic package that the Arduino API lacks.
pub open spec fn unknown_member_text(m: Seq<char>) -> Seq<char> {
    "unknown member `arduino."@ + m + "` of the arduino package"@
}

/// The forms a generator diagnostic takes: an unknown member of the intrinsic package,
/// named; a refused construct, named with its location; a statement that cannot stand
/// in a `for` clause; or a case value that cannot be emitted.
pub open spec fn codegen_message(m: Seq<char>) -> bool {
    ||| exists|t: Seq<char>| #[trigger] unknown_member_text(t) == m
    ||| exists|w: Seq<char>, sp: Span| #[trigger] unsupported_text(w, sp) == m
    ||| m == "only a simple statement can stand in a `for` clause"@
    ||| m == "a case value cannot be emitted"@
}

/// The message of the first failure met when emitting `e`, in emission order.
pub open spec fn expr_error(e: Expr, cfg: TranspileConfig) -> Seq<char>
    decreases e, 0nat,
{
    match e {
        Expr::Selector(x, m) => if is_package(*x) {
            unknown_member_text(m@)
        } else {
            expr_error(*x, cfg)
        },
        Expr::Call(f, args) => if !expr_ok(*f, cfg) {
            expr_error(*f, cfg)
        } else {
            args_error(args, 0, cfg)
        },
        Expr::Index(a, b) => if !expr_ok(*a, cfg) {
            expr_error(*a, cfg)
        } else {
            expr_error(*b, cfg)
        },
        Expr::Unary(op, x, sp) => if op is Arrow {
            unsupported_text("channel receive `<-`"@, sp)
        } else {
            expr_error(*x, cfg)
        },
        Expr::Binary(a, _, b) => if !expr_ok(*a, cfg) {
            expr_error(*a, cfg)
        } else {
            expr_error(*b, cfg)
        },
        Expr::Paren(x) => expr_error(*x, cfg),
        _ => Seq::empty(),
    }
}

/// The message of the first failing argument from `i` on.
pub open spec fn args_error(args: Vec<Expr>, i: int, cfg: TranspileConfig) -> Seq<char>
    decreases args, args.len() - i,
{
    if i < 0 || i >= args.len() {
        Seq::empty()
    } else if !expr_ok(args[i], cfg) {
        expr_error(args[i], cfg)
    } else {
        args_error(args, i + 1, cfg)
    }
}

/// The C++ text of an expression under `cfg` (meaningful where `expr_ok` holds).
pub open spec fn expr_text(e: Expr, cfg: TranspileConfig) -> Seq<char>
    decreases e, 0nat,
{
    match e {
        Expr::Int { value, radix } => int_text(value as int, radix),
        Expr::Float(s) => s@,
        Expr::Str(s) => string_text(s@, cfg.arduino_string),
        Expr::Rune(c) => "'"@ + escape_one(c, '\'') + "'"@,
        Expr::Bool(b) => if b { "true"@ } else { "false"@ },
        Expr::Nil => "nullptr"@,
        Expr::Ident(n) => n@,
        Expr::Selector(x, m) => if is_package(*x) {
            m@
        } else {
            expr_text(*x, cfg) + "."@ + m@
        },
        Expr::Call(f, args) => expr_text(*f, cfg) + "("@ + args_text(args, args.len() as int, cfg) + ")"@,
        Expr::Index(a, b) => expr_text(*a, cfg) + "["@ + expr_text(*b, cfg) + "]"@,
        Expr::Unary(op, x, sp) => if op is Arrow {
            note_text("channel receive `<-`"@, sp) + " 0"@
        } else {
            unary_text(op) + operand_text(*x, cfg)
        },
        Expr::Binary(a, op, b) => if op is AmpCaret {
            operand_text(*a, cfg) + " & (~"@ + operand_text(*b, cfg) + ")"@
        } else {
            operand_text(*a, cfg) + " "@ + binary_text(op) + " "@ + operand_text(*b, cfg)
        },
        Expr::Paren(x) => "("@ + expr_text(*x, cfg) + ")"@,
    }
}

/// An operand of an operator: nested binary expressions are parenthesized.
pub open spec fn operand_text(e: Expr, cfg: TranspileConfig) -> Seq<char>
    decreases e, 1nat,
{
    if e is Binary {
        "("@ + expr_text(e, cfg) + ")"@
    } else {
        expr_text(e, cfg)
    }
}

/// The first `n` arguments, separated by `, `.
pub open spec fn args_text(args: Vec<Expr>, n: int, cfg: TranspileConfig) -> Seq<char>
    decreases args, n,
{
    if n <= 0 || n > args.len() {
        Seq::empty()
    } else if n == 1 {
        expr_text(args[0], cfg)
    } else {
        args_text(args, n - 1, cfg) + ", "@ + expr_text(args[n - 1], cfg)
    }
}

/// Four spaces per level.
pub open spec fn indent_text(depth: nat) -> Seq<char>
    decreases depth,
{
    if depth == 0 {
        Seq::empty()
    } else {
        indent_text((depth - 1) as nat) + "    "@
    }
}

/// The indentation level of nested code; it stops growing at a thousand levels.
pub open spec fn next_depth(depth: u32) -> u32 {
    if depth < 1000 {
        (depth + 1) as u32
    } else {
        depth
    }
}

/// The C++ spelling of a Go type name; unknown names are kept as written.
pub open spec fn type_text(ty: Seq<char>, arduino_string: bool) -> Seq<char> {
    if ty == "string"@ {
        if arduino_string {
            "String"@
        } else {
            "const char*"@
        }
    } else if ty == "int"@ {
        "int"@
    } else if ty == "int8"@ {
        "int8_t"@
    } else if ty == "int16"@ {
        "int16_t"@
    } else if ty == "int32"@ {
        "int32_t"@
    } else if ty == "int64"@ {
        "int64_t"@
    } else if ty == "uint"@ {
        "unsigned int"@
    } else if ty == "uint8"@ || ty == "byte"@ {
        "uint8_t"@
    } else if ty == "uint16"@ {
        "uint16_t"@
    } else if ty == "uint32"@ {
        "uint32_t"@
    } else if ty == "uint64"@ {
        "uint64_t"@
    } else if ty == "float32"@ {
        "float"@
    } else if ty == "float64"@ {
        "double"@
    } else if ty == "rune"@ {
        "char"@
    } else {
        ty
    }
}

pub open spec fn opt_type_text(ty: Option<String>, arduino_string: bool) -> Seq<char> {
    match ty {
        Some(t) => type_text(t@, arduino_string),
        None => "auto"@,
    }
}

pub open spec fn opt_init_text(value: Option<Expr>, cfg: TranspileConfig) -> Seq<char> {
    match value {
        Some(v) => " = "@ + expr_text(v, cfg),
        None => Seq::empty(),
    }
}

pub open spec fn assign_text(op: TokenKind) -> Seq<char> {
    if is_assign_kind(op) {
        op_text(op)
    } else {
        "="@
    }
}

/// A simple statement without its terminator.
pub open spec fn clause_text(s: Stmt, cfg: TranspileConfig) -> Seq<char> {
    match s {
        Stmt::Expr(e) => expr_text(e, cfg),
        Stmt::VarDecl { name, ty, value, constant } => (if constant {
            "const "@
        } else {
            Seq::empty()
        }) + opt_type_text(ty, cfg.arduino_string) + " "@ + name@ + opt_init_text(value, cfg),
        Stmt::ShortVar { name, value } => "auto "@ + name@ + " = "@ + expr_text(value, cfg),
        Stmt::Assign { target, op, value } => if op is AmpCaretEq {
            expr_text(target, cfg) + " &= ~("@ + expr_text(value, cfg) + ")"@
        } else {
            expr_text(target, cfg) + " "@ + assign_text(op) + " "@ + expr_text(value, cfg)
        },
        Stmt::IncDec { target, inc } => expr_text(target, cfg) + if inc {
            "++"@
        } else {
            "--"@
        },
        Stmt::Return(v) => "return"@ + match v {
            Some(e) => " "@ + expr_text(e, cfg),
            None => Seq::empty(),
        },
        Stmt::Break => "break"@,
        Stmt::Continue => "continue"@,
        Stmt::Goto(label) => "goto "@ + label@,
        _ => Seq::empty(),
    }
}

pub open spec fn opt_clause_text(s: Option<Box<Stmt>>, cfg: TranspileConfig) -> Seq<char> {
    match s {
        Some(x) => clause_text(*x, cfg),
        None => Seq::empty(),
    }
}

pub open spec fn opt_cond_text(c: Option<Expr>, cfg: TranspileConfig) -> Seq<char> {
    match c {
        Some(e) => expr_text(e, cfg),
        None => Seq::empty(),
    }
}

/// The head of a `for`: a `while` when it has neither init nor post statement.
pub open spec fn for_head_text(
    init: Option<Box<Stmt>>,
    cond: Option<Expr>,
    post: Option<Box<Stmt>>,
    cfg: TranspileConfig,
) -> Seq<char> {
    if init is None && post is None {
        "while ("@ + (if cond is Some {
            expr_text(cond->Some_0, cfg)
        } else {
            "true"@
        }) + ") {\n"@
    } else {
        "for ("@ + opt_clause_text(init, cfg) + "; "@ + opt_cond_text(cond, cfg) + "; "@
            + opt_clause_text(post, cfg) + ") {\n"@
    }
}

/// Whether a case body ends by falling through to the next case.
pub open spec fn falls_through(body: Vec<Stmt>) -> bool {
    body.len() > 0 && body[body.len() - 1] is Fallthrough
}

/// `case v:` lines for the first `n` values.
pub open spec fn labels_text(values: Vec<Expr>, n: int, cfg: TranspileConfig, depth: u32) -> Seq<char>
    decreases n,
{
    if n <= 0 || n > values.len() {
        Seq::empty()
    } else {
        labels_text(values, n - 1, cfg, depth) + indent_text(depth as nat) + "case "@ + expr_text(
            values[n - 1],
            cfg,
        ) + ":\n"@
    }
}

/// The values of one case joined by `||`, each in parentheses.
pub open spec fn any_of_text(values: Vec<Expr>, n: int, cfg: TranspileConfig) -> Seq<char>
    decreases n,
{
    if n <= 0 || n > values.len() {
        Seq::empty()
    } else if n == 1 {
        "("@ + expr_text(values[0], cfg) + ")"@
    } else {
        any_of_text(values, n - 1, cfg) + " || ("@ + expr_text(values[n - 1], cfg) + ")"@
    }
}

/// The number of the first `default` case from `k` on, or `-1` when there is none.
pub open spec fn default_text(cases: Vec<Stmt>, k: int) -> Seq<char>
    decreases cases.len() - k,
{
    if k < 0 || k >= cases.len() {
        "-1"@
    } else if cases[k] matches Stmt::Case { values, .. } && values.len() == 0 {
        decimal(k as nat)
    } else {
        default_text(cases, k + 1)
    }
}

/// A tagless switch picks its case with a chain of conditionals: the number of the
/// first case from `k` on whose condition holds, else the `default` case.
pub open spec fn selector_text(cases: Vec<Stmt>, k: int, cfg: TranspileConfig) -> Seq<char>
    decreases cases.len() - k,
{
    if k < 0 || k >= cases.len() {
        default_text(cases, 0)
    } else {
        match cases[k] {
            Stmt::Case { values, .. } => if values.len() > 0 {
                any_of_text(values, values.len() as int, cfg) + " ? "@ + decimal(k as nat) + " : "@
                    + selector_text(cases, k + 1, cfg)
            } else {
                selector_text(cases, k + 1, cfg)
            },
            _ => selector_text(cases, k + 1, cfg),
        }
    }
}

/// The conditional chain's text for cases before `k`.
pub open spec fn selector_prefix(cases: Vec<Stmt>, k: int, cfg: TranspileConfig) -> Seq<char>
    decreases k,
{
    if k <= 0 || k > cases.len() {
        Seq::empty()
    } else {
        selector_prefix(cases, k - 1, cfg) + match cases[k - 1] {
            Stmt::Case { values, .. } => if values.len() > 0 {
                any_of_text(values, values.len() as int, cfg) + " ? "@ + decimal((k - 1) as nat) + " : "@
            } else {
                Seq::empty()
            },
            _ => Seq::empty(),
        }
    }
}

proof fn lemma_selector_step(cases: Vec<Stmt>, k: int, cfg: TranspileConfig)
    requires
        0 <= k < cases.len(),
    ensures
        selector_prefix(cases, k + 1, cfg) == selector_prefix(cases, k, cfg) + match cases[k] {
            Stmt::Case { values, .. } => if values.len() > 0 {
                any_of_text(values, values.len() as int, cfg) + " ? "@ + decimal(k as nat) + " : "@
            } else {
                Seq::empty()
            },
            _ => Seq::empty(),
        },
{
}

proof fn lemma_selector_split(cases: Vec<Stmt>, k: int, cfg: TranspileConfig)
    requires
        0 <= k <= cases.len(),
    ensures
        selector_text(cases, k, cfg) == selector_prefix(cases, cases.len() as int, cfg).subrange(
            selector_prefix(cases, k, cfg).len() as int,
            selector_prefix(cases, cases.len() as int, cfg).len() as int,
        ) + default_text(cases, 0),
        selector_prefix(cases, k, cfg).len() <= selector_prefix(cases, cases.len() as int, cfg).len(),
        selector_prefix(cases, cases.len() as int, cfg).subrange(0, selector_prefix(cases, k, cfg).len() as int)
            == selector_prefix(cases, k, cfg),
    decreases cases.len() - k,
{
    let total = selector_prefix(cases, cases.len() as int, cfg);
    if k < cases.len() {
        lemma_selector_split(cases, k + 1, cfg);
        lemma_selector_step(cases, k, cfg);
        let pk = selector_prefix(cases, k, cfg);
        let pk1 = selector_prefix(cases, k + 1, cfg);
        assert(pk1.subrange(0, pk.len() as int) =~= pk);
        assert(total.subrange(0, pk.len() as int) =~= pk1.subrange(0, pk.len() as int));
        assert(total.subrange(pk.len() as int, total.len() as int) =~= pk1.subrange(pk.len() as int, pk1.len() as int)
            + total.subrange(pk1.len() as int, total.len() as int));
    } else {
        assert(total.subrange(total.len() as int, total.len() as int) =~= Seq::<char>::empty());
        assert(total.subrange(0, total.len() as int) =~= total);
    }
}

/// One case of a tagless switch, labelled by its number `k`.
pub open spec fn numbered_case_text(c: Stmt, k: int, cfg: TranspileConfig, depth: u32) -> Seq<char>
    decreases c, 0nat,
{
    match c {
        Stmt::Case { body, .. } => indent_text(depth as nat) + "case "@ + decimal(k as nat) + ":\n"@
            + indent_text(depth as nat) + "{\n"@ + block_text(body, body.len() as int, cfg, next_depth(depth))
            + (if falls_through(body) {
            Seq::empty()
        } else {
            indent_text(next_depth(depth) as nat) + "break;\n"@
        }) + indent_text(depth as nat) + "}\n"@,
        _ => Seq::empty(),
    }
}

/// The first `n` cases of a tagless switch, each labelled by its number.
pub open spec fn numbered_cases_text(cases: Vec<Stmt>, n: int, cfg: TranspileConfig, depth: u32) -> Seq<char>
    decreases cases, n,
{
    if n <= 0 || n > cases.len() {
        Seq::empty()
    } else {
        numbered_cases_text(cases, n - 1, cfg, depth) + numbered_case_text(cases[n - 1], n - 1, cfg, depth)
    }
}

/// The C++ text of a statement at indentation `depth`, with its line break.
pub open spec fn stmt_text(s: Stmt, cfg: TranspileConfig, depth: u32) -> Seq<char>
    decreases s, 1nat,
{
    let ind = indent_text(depth as nat);
    let inner = next_depth(depth);
    match s {
        Stmt::Block(b) => ind + "{\n"@ + block_text(b, b.len() as int, cfg, inner) + ind + "}\n"@,
        Stmt::If { .. } => ind + if_text(s, cfg, depth) + "\n"@,
        Stmt::For { init, cond, post, body } => ind + for_head_text(init, cond, post, cfg) + block_text(
            body,
            body.len() as int,
            cfg,
            inner,
        ) + ind + "}\n"@,
        Stmt::Range { key, over, body } => ind + "for (int "@ + key@ + " = 0; "@ + key@ + " < ("@
            + expr_text(over, cfg) + "); "@ + key@ + "++) {\n"@ + block_text(body, body.len() as int, cfg, inner)
            + ind + "}\n"@,
        Stmt::Switch { tag, cases } => if tag is Some {
            ind + "switch ("@ + opt_cond_text(tag, cfg) + ") {\n"@ + block_text(cases, cases.len() as int, cfg, inner)
                + ind + "}\n"@
        } else {
            ind + "switch ("@ + selector_text(cases, 0, cfg) + ") {\n"@ + numbered_cases_text(
                cases,
                cases.len() as int,
                cfg,
                inner,
            ) + ind + "}\n"@
        },
        Stmt::Case { values, body } => (if values.len() == 0 {
            ind + "default:\n"@
        } else {
            Seq::empty()
        }) + labels_text(values, values.len() as int, cfg, depth) + ind + "{\n"@ + block_text(
            body,
            body.len() as int,
            cfg,
            inner,
        ) + (if falls_through(body) {
            Seq::empty()
        } else {
            indent_text(inner as nat) + "break;\n"@
        }) + ind + "}\n"@,
        Stmt::Go(_, sp) => ind + note_text("`go` statement"@, sp) + "\n"@,
        Stmt::Defer(_, sp) => ind + note_text("`defer` statement"@, sp) + "\n"@,
        Stmt::Send(_, _, sp) => ind + note_text("channel send `<-`"@, sp) + "\n"@,
        Stmt::Select(sp) => ind + note_text("`select` statement"@, sp) + "\n"@,
        Stmt::Fallthrough => ind + "// fallthrough\n"@,
        _ => ind + clause_text(s, cfg) + ";\n"@,
    }
}

/// `if (cond) { ... }` and its `else` chain, without a final line break.
pub open spec fn if_text(s: Stmt, cfg: TranspileConfig, depth: u32) -> Seq<char>
    decreases s, 0nat,
{
    match s {
        Stmt::If { cond, then_block, else_branch } => "if ("@ + expr_text(cond, cfg) + ") {\n"@ + block_text(
            then_block,
            then_block.len() as int,
            cfg,
            next_depth(depth),
        ) + indent_text(depth as nat) + "}"@ + else_text(else_branch, cfg, depth),
        _ => Seq::empty(),
    }
}

pub open spec fn else_text(e: Option<Box<Stmt>>, cfg: TranspileConfig, depth: u32) -> Seq<char>
    decreases e, 0nat,
{
    match e {
        None => Seq::empty(),
        Some(x) => match *x {
            Stmt::If { .. } => " else "@ + if_text(*x, cfg, depth),
            Stmt::Block(b) => " else {\n"@ + block_text(b, b.len() as int, cfg, next_depth(depth))
                + indent_text(depth as nat) + "}"@,
            _ => " else {\n"@ + stmt_text(*x, cfg, next_depth(depth)) + indent_text(depth as nat) + "}"@,
        },
    }
}

/// The first `n` statements of a block.
pub open spec fn block_text(b: Vec<Stmt>, n: int, cfg: TranspileConfig, depth: u32) -> Seq<char>
    decreases b, n,
{
    if n <= 0 || n > b.len() {
        Seq::empty()
    } else {
        block_text(b, n - 1, cfg, depth) + stmt_text(b[n - 1], cfg, depth)
    }
}

fn push_indent(out: &mut Vec<char>, depth: u32)
    ensures
        final(out)@ == old(out)@ + indent_text(depth as nat),
{
    let ghost start = out@;
    let mut i: u32 = 0;
    while i < depth
        invariant
            i <= depth,
            out@ == start + indent_text(i as nat),
        decreases depth - i,
    {
        push_str(out, "    ");
        i += 1;
        assert(out@ =~= start + indent_text(i as nat));
    }
}

fn deeper(depth: u32) -> (r: u32)
    ensures
        r == next_depth(depth),
{
    if depth < 1000 { depth + 1 } else { depth }
}

/// A character inside a C++ string or character literal, escaped where needed.
fn push_escaped(out: &mut Vec<char>, c: char, quote: char)
    ensures
        final(out)@ == old(out)@ + escape_one(c, quote),
{
    let ghost start = out@;
    if c == '\n' {
        push_str(out, "\\n");
    } else if c == '\t' {
        push_str(out, "\\t");
    } else if c == '\r' {
        push_str(out, "\\r");
    } else if c == '\0' {
        push_str(out, "\\0");
    } else if c == '\\' {
        push_str(out, "\\\\");
    } else if c == quote {
        out.push('\\');
        out.push(c);
    } else {
        out.push(c);
    }
    proof {
        reveal_strlit("\\n");
        reveal_strlit("\\t");
        reveal_strlit("\\r");
        reveal_strlit("\\0");
        reveal_strlit("\\\\");
    }
    assert(out@ =~= start + escape_one(c, quote));
}

/// The digits of `n` in `radix` (2 to 16), most significant first; upper-case letters.
fn push_radix(out: &mut Vec<char>, n: u64, radix: u64)
    requires
        2 <= radix <= 16,
    ensures
        final(out)@ == old(out)@ + radix_digits(n as nat, radix as nat),
    decreases n,
{
    let ghost start = out@;
    if n >= radix {
        assert(n / radix < n) by (nonlinear_arith)
            requires
                n >= radix,
                radix >= 2,
        ;
        push_radix(out, n / radix, radix);
    }
    let d = n % radix;
    assert(d as nat == (n as nat) % (radix as nat));
    assert(n < radix ==> d == n) by (nonlinear_arith)
        requires
            d == n % radix,
            radix >= 2,
    ;
    let c = if d < 10 {
        char_for(d)
    } else if d == 10 {
        'A'
    } else if d == 11 {
        'B'
    } else if d == 12 {
        'C'
    } else if d == 13 {
        'D'
    } else if d == 14 {
        'E'
    } else {
        'F'
    };
    assert(c == radix_char(d as nat));
    assert(n >= radix ==> (n / radix) as nat == (n as nat) / (radix as nat));
    assert(radix_digits(n as nat, radix as nat) == if n < radix {
        seq![radix_char(n as nat)]
    } else {
        radix_digits((n / radix) as nat, radix as nat).push(radix_char(d as nat))
    });
    out.push(c);
    assert(out@ =~= start + radix_digits(n as nat, radix as nat));
}

fn char_for(d: u64) -> (c: char)
    requires
        d < 10,
    ensures
        c == digit_char(d as nat),
{
    if d == 0 { '0' } else if d == 1 { '1' } else if d == 2 { '2' } else if d == 3 { '3' }
    else if d == 4 { '4' } else if d == 5 { '5' } else if d == 6 { '6' } else if d == 7 { '7' }
    else if d == 8 { '8' } else { '9' }
}

/// The C++ spelling of a Go type name.
fn push_type(out: &mut Vec<char>, ty: &str, arduino_string: bool)
    ensures
        final(out)@ == old(out)@ + type_text(ty@, arduino_string),
{
    if same_text(ty, "string") {
        if arduino_string { push_str(out, "String") } else { push_str(out, "const char*") }
    } else if same_text(ty, "int") {
        push_str(out, "int");
    } else if same_text(ty, "int8") {
        push_str(out, "int8_t");
    } else if same_text(ty, "int16") {
        push_str(out, "int16_t");
    } else if same_text(ty, "int32") {
        push_str(out, "int32_t");
    } else if same_text(ty, "int64") {
        push_str(out, "int64_t");
    } else if same_text(ty, "uint") {
        push_str(out, "unsigned int");
    } else if same_text(ty, "uint8") || same_text(ty, "byte") {
        push_str(out, "uint8_t");
    } else if same_text(ty, "uint16") {
        push_str(out, "uint16_t");
    } else if same_text(ty, "uint32") {
        push_str(out, "uint32_t");
    } else if same_text(ty, "uint64") {
        push_str(out, "uint64_t");
    } else if same_text(ty, "float32") {
        push_str(out, "float");
    } else if same_text(ty, "float64") {
        push_str(out, "double");
    } else if same_text(ty, "rune") {
        push_str(out, "char");
    } else {
        push_str(out, ty);
    }
}

/// A `Codegen` diagnostic: "<what> is not supported on Arduino (<location>)".
fn unsupported_error(what: &str, sp: &Span) -> (r: tsukiError)
    ensures
        r matches tsukiError::Codegen(m) && m@ == unsupported_text(what@, *sp),
{
    let ghost start = Seq::<char>::empty();
    let mut v: Vec<char> = Vec::new();
    push_str(&mut v, what);
    push_str(&mut v, " is not supported on Arduino (");
    push_span(&mut v, sp);
    push_str(&mut v, ")");
    assert(v@ =~= unsupported_text(what@, *sp));
    tsukiError::codegen(string_of(&v))
}

/// A comment that stands where an unsupported construct was left out.
fn push_unsupported_note(out: &mut Vec<char>, what: &str, sp: &Span)
    ensures
        final(out)@ == old(out)@ + note_text(what@, *sp),
{
    let ghost start = out@;
    push_str(out, "/* unsupported: ");
    push_str(out, what);
    push_str(out, " at ");
    push_span(out, sp);
    push_str(out, " (not emitted) */");
    assert(out@ =~= start + note_text(what@, *sp));
}

fn push_int(out: &mut Vec<char>, value: i64, radix: u32)
    ensures
        final(out)@ == old(out)@ + int_text(value as int, radix),
{
    let ghost start = out@;
    if value >= 0 && radix == 16 {
        push_str(out, "0x");
        push_radix(out, value as u64, 16);
    } else if value > 0 && radix == 8 {
        push_str(out, "0");
        push_radix(out, value as u64, 8);
    } else if value >= 0 {
        push_decimal(out, value as u64);
    } else {
        push_str(out, "-");
        push_decimal(out, (0 - (value as i128)) as u64);
    }
    assert(out@ =~= start + int_text(value as int, radix));
}

fn push_string(out: &mut Vec<char>, s: &str, arduino_string: bool)
    ensures
        final(out)@ == old(out)@ + string_text(s@, arduino_string),
{
    let ghost start = out@;
    if arduino_string {
        push_str(out, "String(\"");
    } else {
        push_str(out, "\"");
    }
    let ghost opened = out@;
    let cs = crate::text::chars_of(s);
    let mut i: usize = 0;
    while i < cs.len()
        invariant
            i <= cs@.len(),
            out@ == opened + escaped(cs@.take(i as int), '"'),
        decreases cs@.len() - i,
    {
        push_escaped(out, cs[i], '"');
        assert(cs@.take(i + 1).drop_last() =~= cs@.take(i as int));
        i += 1;
        assert(out@ =~= opened + escaped(cs@.take(i as int), '"'));
    }
    assert(cs@.take(cs@.len() as int) =~= cs@);
    if arduino_string {
        push_str(out, "\")");
    } else {
        push_str(out, "\"");
    }
    assert(out@ =~= start + string_text(s@, arduino_string));
}

/// Emits C++ for a syntax tree under one configuration.
pub struct Transpiler {
    cfg: TranspileConfig,
}

impl Transpiler {
    pub closed spec fn config(&self) -> TranspileConfig {
        self.cfg
    }

    pub fn new(cfg: TranspileConfig) -> (r: Transpiler)
        ensures
            r.config() == cfg,
    {
        Transpiler { cfg }
    }

    /// The configured board id.
    pub fn board_id(&self) -> (r: &str)
        ensures
            r@ == self.config().board@,
    {
        self.cfg.board.as_str()
    }

    fn emit_expr(&self, e: &Expr, out: &mut Vec<char>) -> (r: Result<(), tsukiError>)
        ensures
            r is Ok <==> expr_ok(*e, self.cfg),
            r is Ok ==> final(out)@ == old(out)@ + expr_text(*e, self.cfg),
            r matches Err(x) ==> x is Codegen && codegen_message(x->Codegen_0@) && x->Codegen_0@ == expr_error(*e, self.cfg),
        decreases e, 0nat,
    {
        let ghost start = out@;
        match e {
            Expr::Int { value, radix } => {
                push_int(out, *value, *radix);
                Ok(())
            },
            Expr::Float(s) => {
                push_str(out, s.as_str());
                Ok(())
            },
            Expr::Str(s) => {
                push_string(out, s.as_str(), self.cfg.arduino_string);
                Ok(())
            },
            Expr::Rune(c) => {
                push_str(out, "'");
                push_escaped(out, *c, '\'');
                push_str(out, "'");
                assert(out@ =~= start + expr_text(*e, self.cfg));
                Ok(())
            },
            Expr::Bool(b) => {
                if *b { push_str(out, "true") } else { push_str(out, "false") }
                Ok(())
            },
            Expr::Nil => {
                push_str(out, "nullptr");
                Ok(())
            },
            Expr::Ident(n) => {
                push_str(out, n.as_str());
                Ok(())
            },
            Expr::Selector(x, m) => {
                let package = match &**x {
                    Expr::Ident(n) => same_text(n.as_str(), "arduino"),
                    _ => false,
                };
                if package {
                    if !self.cfg.passthrough_unknown && !is_intrinsic(m.as_str()) {
                        let mut v: Vec<char> = Vec::new();
                        push_str(&mut v, "unknown member `arduino.");
                        push_str(&mut v, m.as_str());
                        push_str(&mut v, "` of the arduino package");
                        assert(v@ =~= unknown_member_text(m@));
                        assert(codegen_message(unknown_member_text(m@)));
                        return Err(tsukiError::codegen(string_of(&v)));
                    }
                    push_str(out, m.as_str());
                    Ok(())
                } else {
                    self.emit_expr(x, out)?;
                    push_str(out, ".");
                    push_str(out, m.as_str());
                    assert(out@ =~= start + expr_text(*e, self.cfg));
                    Ok(())
                }
            },
            Expr::Call(f, args) => {
                self.emit_expr(f, out)?;
                push_str(out, "(");
                self.emit_args(args, out)?;
                push_str(out, ")");
                assert(out@ =~= start + expr_text(*e, self.cfg));
                Ok(())
            },
            Expr::Index(a, b) => {
                self.emit_expr(a, out)?;
                push_str(out, "[");
                self.emit_expr(b, out)?;
                push_str(out, "]");
                assert(out@ =~= start + expr_text(*e, self.cfg));
                Ok(())
            },
            Expr::Unary(op, x, sp) => {
                if matches!(op, TokenKind::Arrow) {
                    if !self.cfg.annotate_unsupported {
                        return Err(unsupported_error("channel receive `<-`", sp));
                    }
                    push_unsupported_note(out, "channel receive `<-`", sp);
                    push_str(out, " 0");
                    assert(out@ =~= start + expr_text(*e, self.cfg));
                    return Ok(());
                }
                if matches!(op, TokenKind::Caret) {
                    push_str(out, "~");
                } else if matches!(op, TokenKind::Plus) {
                    push_str(out, "+");
                } else if matches!(op, TokenKind::Minus) {
                    push_str(out, "-");
                } else if matches!(op, TokenKind::Bang) {
                    push_str(out, "!");
                } else if matches!(op, TokenKind::Amp) {
                    push_str(out, "&");
                } else {
                    push_str(out, "*");
                }
                let ghost mid = out@;
                assert(mid == start + unary_text(*op));
                self.emit_operand(x, out)?;
                assert(out@ =~= start + expr_text(*e, self.cfg));
                Ok(())
            },
            Expr::Binary(a, op, b) => {
                self.emit_operand(a, out)?;
                if matches!(op, TokenKind::AmpCaret) {
                    push_str(out, " & (~");
                    self.emit_operand(b, out)?;
                    push_str(out, ")");
                    assert(out@ =~= start + expr_text(*e, self.cfg));
                    return Ok(());
                }
                push_str(out, " ");
                match op.as_binary_op() {
                    Some((_, text)) => push_str(out, text),
                    None => {},
                }
                push_str(out, " ");
                self.emit_operand(b, out)?;
                assert(out@ =~= start + expr_text(*e, self.cfg));
                Ok(())
            },
            Expr::Paren(x) => {
                push_str(out, "(");
                self.emit_expr(x, out)?;
                push_str(out, ")");
                assert(out@ =~= start + expr_text(*e, self.cfg));
                Ok(())
            },
        }
    }

    /// Call arguments, separated by commas.
    fn emit_args(&self, args: &Vec<Expr>, out: &mut Vec<char>) -> (r: Result<(), tsukiError>)
        ensures
            r is Ok <==> forall|j: int| 0 <= j < args.len() ==> expr_ok(#[trigger] args[j], self.cfg),
            r is Ok ==> final(out)@ == old(out)@ + args_text(*args, args.len() as int, self.cfg),
            r matches Err(x) ==> x is Codegen && codegen_message(x->Codegen_0@) && x->Codegen_0@ == args_error(*args, 0, self.cfg),
        decreases args, 2nat,
    {
        let ghost start = out@;
        let mut i: usize = 0;
        while i < args.len()
            invariant
                i <= args@.len(),
                forall|j: int| 0 <= j < i ==> expr_ok(#[trigger] args[j], self.cfg),
                out@ == start + args_text(*args, i as int, self.cfg),
                args_error(*args, 0, self.cfg) == args_error(*args, i as int, self.cfg),
            decreases args@.len() - i,
        {
            if i > 0 {
                push_str(out, ", ");
            }
            proof {
                assert(decreases_to!(*args => args[i as int]));
            }
            self.emit_expr(&args[i], out)?;
            i += 1;
            assert(out@ =~= start + args_text(*args, i as int, self.cfg));
            assert(args_error(*args, i - 1, self.cfg) == args_error(*args, i as int, self.cfg));
        }
        Ok(())
    }

    /// An operand of an operator: a nested binary expression is parenthesized, since
    /// C++ ranks some operators differently from Go.
    fn emit_operand(&self, e: &Expr, out: &mut Vec<char>) -> (r: Result<(), tsukiError>)
        ensures
            r is Ok <==> expr_ok(*e, self.cfg),
            r is Ok ==> final(out)@ == old(out)@ + operand_text(*e, self.cfg),
            r matches Err(x) ==> x is Codegen && codegen_message(x->Codegen_0@) && x->Codegen_0@ == expr_error(*e, self.cfg),
        decreases e, 1nat,
    {
        if matches!(e, Expr::Binary(..)) {
            let ghost start = out@;
            push_str(out, "(");
            self.emit_expr(e, out)?;
            push_str(out, ")");
            assert(out@ =~= start + operand_text(*e, self.cfg));
            Ok(())
        } else {
            self.emit_expr(e, out)
        }
    }
}


impl Transpiler {
    /// A statement, indented by `depth` levels, with its line break.
    fn emit_stmt(&self, s: &Stmt, out: &mut Vec<char>, depth: u32) -> (r: Result<(), tsukiError>)
        ensures
            r is Ok <==> stmt_ok(*s, self.cfg),
            r is Ok ==> final(out)@ == old(out)@ + stmt_text(*s, self.cfg, depth),
            r matches Err(x) ==> x is Codegen && codegen_message(x->Codegen_0@),
        decreases s, 1nat,
    {
        let ghost start = out@;
        match s {
            Stmt::Block(..) => self.emit_braced(s, out, depth),
            Stmt::If { .. } => {
                push_indent(out, depth);
                self.emit_if(s, out, depth)?;
                push_str(out, "\n");
                assert(out@ =~= start + stmt_text(*s, self.cfg, depth));
                Ok(())
            },
            Stmt::For { .. } => self.emit_for(s, out, depth),
            Stmt::Range { .. } => self.emit_range(s, out, depth),
            Stmt::Switch { .. } => self.emit_switch(s, out, depth),
            Stmt::Case { .. } => self.emit_case(s, out, depth),
            Stmt::Go(_, sp) => self.emit_unsupported("`go` statement", sp, out, depth),
            Stmt::Defer(_, sp) => self.emit_unsupported("`defer` statement", sp, out, depth),
            Stmt::Send(_, _, sp) => self.emit_unsupported("channel send `<-`", sp, out, depth),
            Stmt::Select(sp) => self.emit_unsupported("`select` statement", sp, out, depth),
            Stmt::Fallthrough => {
                push_indent(out, depth);
                push_str(out, "// fallthrough\n");
                assert(out@ =~= start + stmt_text(*s, self.cfg, depth));
                Ok(())
            },
            _ => {
                push_indent(out, depth);
                self.emit_clause(s, out)?;
                push_str(out, ";\n");
                assert(out@ =~= start + stmt_text(*s, self.cfg, depth));
                Ok(())
            },
        }
    }

    fn emit_braced(&self, s: &Stmt, out: &mut Vec<char>, depth: u32) -> (r: Result<(), tsukiError>)
        requires
            s is Block,
        ensures
            r is Ok <==> stmt_ok(*s, self.cfg),
            r is Ok ==> final(out)@ == old(out)@ + stmt_text(*s, self.cfg, depth),
            r matches Err(x) ==> x is Codegen && codegen_message(x->Codegen_0@),
        decreases s, 0nat,
    {
        let ghost start = out@;
        match s {
                Stmt::Block(b) => {
                    push_indent(out, depth);
                    push_str(out, "{\n");
                    self.emit_block(b, out, deeper(depth))?;
                    push_indent(out, depth);
                    push_str(out, "}\n");
                    assert(out@ =~= start + stmt_text(*s, self.cfg, depth));
                    Ok(())
                },
            _ => Ok(()),
        }
    }

    fn emit_for(&self, s: &Stmt, out: &mut Vec<char>, depth: u32) -> (r: Result<(), tsukiError>)
        requires
            s is For,
        ensures
            r is Ok <==> stmt_ok(*s, self.cfg),
            r is Ok ==> final(out)@ == old(out)@ + stmt_text(*s, self.cfg, depth),
            r matches Err(x) ==> x is Codegen && codegen_message(x->Codegen_0@),
        decreases s, 0nat,
    {
        let ghost start = out@;
        match s {
                Stmt::For { init, cond, post, body } => {
                    push_indent(out, depth);
                    self.emit_for_head(init, cond, post, out)?;
                    self.emit_block(body, out, deeper(depth))?;
                    push_indent(out, depth);
                    push_str(out, "}\n");
                    assert(out@ =~= start + stmt_text(*s, self.cfg, depth));
                    Ok(())
                },
            _ => Ok(()),
        }
    }

    fn emit_range(&self, s: &Stmt, out: &mut Vec<char>, depth: u32) -> (r: Result<(), tsukiError>)
        requires
            s is Range,
        ensures
            r is Ok <==> stmt_ok(*s, self.cfg),
            r is Ok ==> final(out)@ == old(out)@ + stmt_text(*s, self.cfg, depth),
            r matches Err(x) ==> x is Codegen && codegen_message(x->Codegen_0@),
        decreases s, 0nat,
    {
        let ghost start = out@;
        match s {
                Stmt::Range { key, over, body } => {
                    push_indent(out, depth);
                    push_str(out, "for (int ");
                    push_str(out, key.as_str());
                    push_str(out, " = 0; ");
                    push_str(out, key.as_str());
                    push_str(out, " < (");
                    self.emit_expr(over, out)?;
                    push_str(out, "); ");
                    push_str(out, key.as_str());
                    push_str(out, "++) {\n");
                    self.emit_block(body, out, deeper(depth))?;
                    push_indent(out, depth);
                    push_str(out, "}\n");
                    assert(out@ =~= start + stmt_text(*s, self.cfg, depth));
                    Ok(())
                },
            _ => Ok(()),
        }
    }

    /// `(a) || (b)` for the values of one case.
    fn emit_any_of(&self, values: &Vec<Expr>, out: &mut Vec<char>) -> (r: Result<(), tsukiError>)
        ensures
            r is Ok <==> forall|j: int| 0 <= j < values.len() ==> expr_ok(#[trigger] values[j], self.cfg),
            r is Ok ==> final(out)@ == old(out)@ + any_of_text(*values, values.len() as int, self.cfg),
            r matches Err(x) ==> x is Codegen && codegen_message(x->Codegen_0@),
    {
        let ghost start = out@;
        let mut i: usize = 0;
        while i < values.len()
            invariant
                i <= values@.len(),
                forall|j: int| 0 <= j < i ==> expr_ok(#[trigger] values[j], self.cfg),
                out@ == start + any_of_text(*values, i as int, self.cfg),
            decreases values@.len() - i,
        {
            if i > 0 {
                push_str(out, " || (");
            } else {
                push_str(out, "(");
            }
            self.emit_expr(&values[i], out)?;
            push_str(out, ")");
            i += 1;
            assert(out@ =~= start + any_of_text(*values, i as int, self.cfg));
        }
        Ok(())
    }

    /// The conditional chain that numbers the case a tagless switch takes.
    fn emit_selector(&self, cases: &Vec<Stmt>, out: &mut Vec<char>) -> (r: Result<(), tsukiError>)
        ensures
            (forall|j: int| 0 <= j < cases.len() ==> stmt_ok(#[trigger] cases[j], self.cfg)) ==> r is Ok,
            r is Ok ==> final(out)@ == old(out)@ + selector_text(*cases, 0, self.cfg),
            r matches Err(x) ==> x is Codegen && codegen_message(x->Codegen_0@) && !(forall|j: int| 0 <= j < cases.len() ==> stmt_ok(#[trigger] cases[j], self.cfg)),
    {
        let ghost start = out@;
        let mut k: usize = 0;
        while k < cases.len()
            invariant
                k <= cases@.len(),
                out@ == start + selector_prefix(*cases, k as int, self.cfg),
            decreases cases@.len() - k,
        {
            match &cases[k] {
                Stmt::Case { values, .. } => {
                    if values.len() > 0 {
                        proof {
                            if forall|j: int| 0 <= j < cases.len() ==> stmt_ok(#[trigger] cases[j], self.cfg) {
                                assert(stmt_ok(cases[k as int], self.cfg));
                            }
                        }
                        self.emit_any_of(values, out)?;
                        push_str(out, " ? ");
                        push_decimal(out, k as u64);
                        push_str(out, " : ");
                    }
                },
                _ => {},
            }
            proof { lemma_selector_step(*cases, k as int, self.cfg); }
            k += 1;
            assert(out@ =~= start + selector_prefix(*cases, k as int, self.cfg));
        }
        let mut d: usize = 0;
        let mut found = false;
        while d < cases.len() && !found
            invariant
                d <= cases@.len(),
                found ==> d < cases@.len() && default_text(*cases, 0) == decimal(d as nat),
                !found ==> default_text(*cases, 0) == default_text(*cases, d as int),
            decreases cases@.len() - d + if found { 0int } else { 1int },
        {
            match &cases[d] {
                Stmt::Case { values, .. } => {
                    if values.len() == 0 {
                        found = true;
                    }
                },
                _ => {},
            }
            if !found {
                d += 1;
            }
        }
        if found {
            push_decimal(out, d as u64);
        } else {
            push_str(out, "-1");
        }
        proof { lemma_selector_split(*cases, 0, self.cfg); }
        assert(out@ =~= start + selector_text(*cases, 0, self.cfg));
        Ok(())
    }

    /// The cases of a tagless switch, labelled by their numbers.
    fn emit_numbered_cases(&self, cases: &Vec<Stmt>, out: &mut Vec<char>, depth: u32) -> (r: Result<(), tsukiError>)
        ensures
            r is Ok <==> forall|j: int| 0 <= j < cases.len() ==> stmt_ok(#[trigger] cases[j], self.cfg),
            r is Ok ==> final(out)@ == old(out)@ + numbered_cases_text(*cases, cases.len() as int, self.cfg, depth),
            r matches Err(x) ==> x is Codegen && codegen_message(x->Codegen_0@),
        decreases cases, 3nat,
    {
        let ghost start = out@;
        let mut k: usize = 0;
        while k < cases.len()
            invariant
                k <= cases@.len(),
                forall|j: int| 0 <= j < k ==> stmt_ok(#[trigger] cases[j], self.cfg),
                out@ == start + numbered_cases_text(*cases, k as int, self.cfg, depth),
            decreases cases@.len() - k,
        {
            proof {
                assert(decreases_to!(*cases => cases[k as int]));
            }
            self.emit_numbered_case(&cases[k], k, out, depth)?;
            k += 1;
            assert(out@ =~= start + numbered_cases_text(*cases, k as int, self.cfg, depth));
        }
        Ok(())
    }

    fn emit_numbered_case(&self, c: &Stmt, k: usize, out: &mut Vec<char>, depth: u32) -> (r: Result<(), tsukiError>)
        ensures
            r is Ok <==> stmt_ok(*c, self.cfg),
            r is Ok ==> final(out)@ == old(out)@ + numbered_case_text(*c, k as int, self.cfg, depth),
            r matches Err(x) ==> x is Codegen && codegen_message(x->Codegen_0@),
        decreases c, 2nat,
    {
        let ghost start = out@;
        match c {
            Stmt::Case { values, body } => {
                let ok_values = self.check_values(values);
                if !ok_values {
                    return Err(tsukiError::codegen(string_of(&crate::text::chars_of("a case value cannot be emitted"))));
                }
                push_indent(out, depth);
                push_str(out, "case ");
                push_decimal(out, k as u64);
                push_str(out, ":\n");
                push_indent(out, depth);
                push_str(out, "{\n");
                let inner = deeper(depth);
                self.emit_block(body, out, inner)?;
                let ghost mid = out@;
                let falls = body.len() > 0 && matches!(body[body.len() - 1], Stmt::Fallthrough);
                if !falls {
                    push_indent(out, inner);
                    push_str(out, "break;\n");
                }
                assert(out@ =~= mid + if falls_through(*body) {
                    Seq::empty()
                } else {
                    indent_text(inner as nat) + "break;\n"@
                });
                push_indent(out, depth);
                push_str(out, "}\n");
                assert(out@ =~= start + numbered_case_text(*c, k as int, self.cfg, depth));
                Ok(())
            },
            _ => {
                let mut scratch: Vec<char> = Vec::new();
                self.emit_stmt(c, &mut scratch, 0)?;
                Ok(())
            },
        }
    }

    /// Whether every value of a case can be emitted; nothing is written.
    fn check_values(&self, values: &Vec<Expr>) -> (r: bool)
        ensures
            r == forall|j: int| 0 <= j < values.len() ==> expr_ok(#[trigger] values[j], self.cfg),
    {
        let mut scratch: Vec<char> = Vec::new();
        let mut i: usize = 0;
        while i < values.len()
            invariant
                i <= values@.len(),
                forall|j: int| 0 <= j < i ==> expr_ok(#[trigger] values[j], self.cfg),
            decreases values@.len() - i,
        {
            match self.emit_expr(&values[i], &mut scratch) {
                Ok(()) => {},
                Err(_) => {
                    return false;
                },
            }
            i += 1;
        }
        true
    }

    fn emit_switch(&self, s: &Stmt, out: &mut Vec<char>, depth: u32) -> (r: Result<(), tsukiError>)
        requires
            s is Switch,
        ensures
            r is Ok <==> stmt_ok(*s, self.cfg),
            r is Ok ==> final(out)@ == old(out)@ + stmt_text(*s, self.cfg, depth),
            r matches Err(x) ==> x is Codegen && codegen_message(x->Codegen_0@),
        decreases s, 0nat,
    {
        let ghost start = out@;
        match s {
                Stmt::Switch { tag, cases } => {
                    let t = match tag {
                        Some(t) => t,
                        None => {
                            push_indent(out, depth);
                            push_str(out, "switch (");
                            self.emit_selector(cases, out)?;
                            push_str(out, ") {\n");
                            self.emit_numbered_cases(cases, out, deeper(depth))?;
                            push_indent(out, depth);
                            push_str(out, "}\n");
                            assert(out@ =~= start + stmt_text(*s, self.cfg, depth));
                            return Ok(());
                        },
                    };
                    push_indent(out, depth);
                    push_str(out, "switch (");
                    self.emit_expr(t, out)?;
                    push_str(out, ") {\n");
                    self.emit_block(cases, out, deeper(depth))?;
                    push_indent(out, depth);
                    push_str(out, "}\n");
                    assert(out@ =~= start + stmt_text(*s, self.cfg, depth));
                    Ok(())
                },
            _ => Ok(()),
        }
    }

    #[verifier::rlimit(40)]
    fn emit_case(&self, s: &Stmt, out: &mut Vec<char>, depth: u32) -> (r: Result<(), tsukiError>)
        requires
            s is Case,
        ensures
            r is Ok <==> stmt_ok(*s, self.cfg),
            r is Ok ==> final(out)@ == old(out)@ + stmt_text(*s, self.cfg, depth),
            r matches Err(x) ==> x is Codegen && codegen_message(x->Codegen_0@),
        decreases s, 0nat,
    {
        let ghost start = out@;
        match s {
            Stmt::Case { values, body } => {
                let inner = deeper(depth);
                if values.len() == 0 {
                    push_indent(out, depth);
                    push_str(out, "default:\n");
                }
                let ghost opened = out@;
                assert(opened =~= start + if values.len() == 0 {
                    indent_text(depth as nat) + "default:\n"@
                } else {
                    Seq::empty()
                });
                self.emit_labels(values, out, depth)?;
                push_indent(out, depth);
                push_str(out, "{\n");
                let ghost braced = out@;
                self.emit_block(body, out, inner)?;
                let ghost filled = out@;
                let falls = body.len() > 0 && matches!(body[body.len() - 1], Stmt::Fallthrough);
                if !falls {
                    push_indent(out, inner);
                    push_str(out, "break;\n");
                }
                let ghost closed_case = out@;
                assert(closed_case =~= filled + if falls_through(*body) {
                    Seq::empty()
                } else {
                    indent_text(inner as nat) + "break;\n"@
                });
                push_indent(out, depth);
                push_str(out, "}\n");
                assert(out@ =~= start + stmt_text(*s, self.cfg, depth));
                Ok(())
            },
            _ => Ok(()),
        }
    }

    fn emit_for_head(
        &self,
        init: &Option<Box<Stmt>>,
        cond: &Option<Expr>,
        post: &Option<Box<Stmt>>,
        out: &mut Vec<char>,
    ) -> (r: Result<(), tsukiError>)
        ensures
            r is Ok <==> (init is None || (is_simple(*init->Some_0) && stmt_ok(*init->Some_0, self.cfg)))
                && (cond is None || expr_ok(cond->Some_0, self.cfg)) && (post is None || (is_simple(
                *post->Some_0,
            ) && stmt_ok(*post->Some_0, self.cfg))),
            r is Ok ==> final(out)@ == old(out)@ + for_head_text(*init, *cond, *post, self.cfg),
            r matches Err(x) ==> x is Codegen && codegen_message(x->Codegen_0@),
    {
        let ghost start = out@;
        if init.is_none() && post.is_none() {
            push_str(out, "while (");
            match cond {
                Some(c) => self.emit_expr(c, out)?,
                None => push_str(out, "true"),
            }
            push_str(out, ") {\n");
        } else {
            push_str(out, "for (");
            let ghost a = out@;
            match init {
                Some(x) => self.emit_clause(x, out)?,
                None => {},
            }
            assert(out@ =~= a + opt_clause_text(*init, self.cfg));
            push_str(out, "; ");
            let ghost b = out@;
            match cond {
                Some(c) => self.emit_expr(c, out)?,
                None => {},
            }
            assert(out@ =~= b + opt_cond_text(*cond, self.cfg));
            push_str(out, "; ");
            let ghost c = out@;
            match post {
                Some(x) => self.emit_clause(x, out)?,
                None => {},
            }
            assert(out@ =~= c + opt_clause_text(*post, self.cfg));
            push_str(out, ") {\n");
        }
        assert(out@ =~= start + for_head_text(*init, *cond, *post, self.cfg));
        Ok(())
    }

    /// `if (cond) { ... }` and its `else` chain, without a final line break.
    fn emit_if(&self, s: &Stmt, out: &mut Vec<char>, depth: u32) -> (r: Result<(), tsukiError>)
        requires
            s is If,
        ensures
            r is Ok <==> stmt_ok(*s, self.cfg),
            r is Ok ==> final(out)@ == old(out)@ + if_text(*s, self.cfg, depth),
            r matches Err(x) ==> x is Codegen && codegen_message(x->Codegen_0@),
        decreases s, 0nat,
    {
        let ghost start = out@;
        match s {
            Stmt::If { cond, then_block, else_branch } => {
                push_str(out, "if (");
                self.emit_expr(cond, out)?;
                push_str(out, ") {\n");
                self.emit_block(then_block, out, deeper(depth))?;
                push_indent(out, depth);
                push_str(out, "}");
                let ghost head = out@;
                match else_branch {
                    None => {},
                    Some(e) => {
                        match &**e {
                            Stmt::If { .. } => {
                                push_str(out, " else ");
                                self.emit_if(e, out, depth)?;
                            },
                            Stmt::Block(b) => {
                                proof {
                                    reveal_with_fuel(stmt_ok, 2);
                                }
                                push_str(out, " else {\n");
                                self.emit_block(b, out, deeper(depth))?;
                                push_indent(out, depth);
                                push_str(out, "}");
                            },
                            _ => {
                                push_str(out, " else {\n");
                                self.emit_stmt(e, out, deeper(depth))?;
                                push_indent(out, depth);
                                push_str(out, "}");
                            },
                        }
                    },
                }
                assert(out@ =~= head + else_text(*else_branch, self.cfg, depth));
                assert(out@ =~= start + if_text(*s, self.cfg, depth));
                Ok(())
            },
            _ => Ok(()),
        }
    }

    /// `case v:` lines, one per value.
    fn emit_labels(&self, values: &Vec<Expr>, out: &mut Vec<char>, depth: u32) -> (r: Result<(), tsukiError>)
        ensures
            r is Ok <==> forall|j: int| 0 <= j < values.len() ==> expr_ok(#[trigger] values[j], self.cfg),
            r is Ok ==> final(out)@ == old(out)@ + labels_text(*values, values.len() as int, self.cfg, depth),
            r matches Err(x) ==> x is Codegen && codegen_message(x->Codegen_0@),
    {
        let ghost start = out@;
        let mut i: usize = 0;
        while i < values.len()
            invariant
                i <= values@.len(),
                forall|j: int| 0 <= j < i ==> expr_ok(#[trigger] values[j], self.cfg),
                out@ == start + labels_text(*values, i as int, self.cfg, depth),
            decreases values@.len() - i,
        {
            push_indent(out, depth);
            push_str(out, "case ");
            self.emit_expr(&values[i], out)?;
            push_str(out, ":\n");
            i += 1;
            assert(out@ =~= start + labels_text(*values, i as int, self.cfg, depth));
        }
        Ok(())
    }

    /// A construct with no single-threaded equivalent: a comment naming it and where it
    /// was, or a `Codegen` diagnostic when annotation is off.
    fn emit_unsupported(&self, what: &str, sp: &Span, out: &mut Vec<char>, depth: u32) -> (r: Result<(), tsukiError>)
        ensures
            r is Ok <==> self.cfg.annotate_unsupported,
            r is Ok ==> final(out)@ == old(out)@ + indent_text(depth as nat) + note_text(what@, *sp) + "\n"@,
            r matches Err(x) ==> x is Codegen && codegen_message(x->Codegen_0@),
    {
        if !self.cfg.annotate_unsupported {
            return Err(unsupported_error(what, sp));
        }
        let ghost start = out@;
        push_indent(out, depth);
        push_unsupported_note(out, what, sp);
        push_str(out, "\n");
        assert(out@ =~= start + indent_text(depth as nat) + note_text(what@, *sp) + "\n"@);
        Ok(())
    }

    /// A simple statement without its terminator, as in the clauses of a `for`.
    fn emit_clause(&self, s: &Stmt, out: &mut Vec<char>) -> (r: Result<(), tsukiError>)
        ensures
            r is Ok <==> is_simple(*s) && stmt_ok(*s, self.cfg),
            r is Ok ==> final(out)@ == old(out)@ + clause_text(*s, self.cfg),
            r matches Err(x) ==> x is Codegen && codegen_message(x->Codegen_0@),
    {
        let ghost start = out@;
        match s {
            Stmt::Expr(e) => self.emit_expr(e, out),
            Stmt::VarDecl { name, ty, value, constant } => {
                if *constant {
                    push_str(out, "const ");
                }
                match ty {
                    Some(t) => push_type(out, t.as_str(), self.cfg.arduino_string),
                    None => push_str(out, "auto"),
                }
                push_str(out, " ");
                push_str(out, name.as_str());
                let ghost named = out@;
                match value {
                    Some(v) => {
                        push_str(out, " = ");
                        self.emit_expr(v, out)?;
                    },
                    None => {},
                }
                assert(out@ =~= named + opt_init_text(*value, self.cfg));
                assert(out@ =~= start + clause_text(*s, self.cfg));
                Ok(())
            },
            Stmt::ShortVar { name, value } => {
                push_str(out, "auto ");
                push_str(out, name.as_str());
                push_str(out, " = ");
                self.emit_expr(value, out)?;
                assert(out@ =~= start + clause_text(*s, self.cfg));
                Ok(())
            },
            Stmt::Assign { target, op, value } => {
                self.emit_expr(target, out)?;
                if matches!(op, TokenKind::AmpCaretEq) {
                    push_str(out, " &= ~(");
                    self.emit_expr(value, out)?;
                    push_str(out, ")");
                    assert(out@ =~= start + clause_text(*s, self.cfg));
                    return Ok(());
                }
                push_str(out, " ");
                match op.as_assign_op() {
                    Some(text) => push_str(out, text),
                    None => push_str(out, "="),
                }
                push_str(out, " ");
                self.emit_expr(value, out)?;
                assert(out@ =~= start + clause_text(*s, self.cfg));
                Ok(())
            },
            Stmt::IncDec { target, inc } => {
                self.emit_expr(target, out)?;
                if *inc { push_str(out, "++") } else { push_str(out, "--") }
                assert(out@ =~= start + clause_text(*s, self.cfg));
                Ok(())
            },
            Stmt::Return(v) => {
                push_str(out, "return");
                match v {
                    Some(e) => {
                        push_str(out, " ");
                        self.emit_expr(e, out)?;
                    },
                    None => {},
                }
                assert(out@ =~= start + clause_text(*s, self.cfg));
                Ok(())
            },
            Stmt::Break => {
                push_str(out, "break");
                Ok(())
            },
            Stmt::Continue => {
                push_str(out, "continue");
                Ok(())
            },
            Stmt::Goto(label) => {
                push_str(out, "goto ");
                push_str(out, label.as_str());
                Ok(())
            },
            _ => Err(tsukiError::codegen(string_of(&crate::text::chars_of("only a simple statement can stand in a `for` clause")))),
        }
    }

    /// The statements of a block, each on its own line(s).
    fn emit_block(&self, b: &Vec<Stmt>, out: &mut Vec<char>, depth: u32) -> (r: Result<(), tsukiError>)
        ensures
            r is Ok <==> block_ok(*b, self.cfg),
            r is Ok ==> final(out)@ == old(out)@ + block_text(*b, b.len() as int, self.cfg, depth),
            r matches Err(x) ==> x is Codegen && codegen_message(x->Codegen_0@),
        decreases b, 2nat,
    {
        let ghost start = out@;
        let mut i: usize = 0;
        while i < b.len()
            invariant
                i <= b@.len(),
                forall|j: int| 0 <= j < i ==> stmt_ok(#[trigger] b[j], self.cfg),
                out@ == start + block_text(*b, i as int, self.cfg, depth),
            decreases b@.len() - i,
        {
            proof {
                assert(decreases_to!(*b => b[i as int]));
            }
            self.emit_stmt(&b[i], out, depth)?;
            i += 1;
            assert(out@ =~= start + block_text(*b, i as int, self.cfg, depth));
        }
        Ok(())
    }
}

/// The two Arduino entry points.
pub open spec fn is_entry(name: Seq<char>) -> bool {
    name == "setup"@ || name == "loop"@
}

/// The first `n` parameters as `type name`, separated by `, `.
pub open spec fn params_text(ps: Vec<Param>, n: int, arduino_string: bool) -> Seq<char>
    decreases n,
{
    if n <= 0 || n > ps.len() {
        Seq::empty()
    } else {
        params_text(ps, n - 1, arduino_string) + (if n > 1 {
            ", "@
        } else {
            Seq::empty()
        }) + type_text(ps[n - 1].ty@, arduino_string) + " "@ + ps[n - 1].name@
    }
}

pub open spec fn ret_text(ret: Option<String>, arduino_string: bool) -> Seq<char> {
    match ret {
        Some(t) => type_text(t@, arduino_string),
        None => "void"@,
    }
}

/// A function's signature; `setup` and `loop` take no parameters.
pub open spec fn signature_text(f: FuncDecl, arduino_string: bool) -> Seq<char> {
    ret_text(f.ret, arduino_string) + " "@ + f.name@ + "("@ + (if is_entry(f.name@) {
        Seq::empty()
    } else {
        params_text(f.params, f.params.len() as int, arduino_string)
    }) + ")"@
}

pub open spec fn decl_span(d: Decl) -> Span {
    match d {
        Decl::Func(f) => f.span,
        Decl::Var(_, sp) => sp,
        Decl::Type(_, sp) => sp,
    }
}

/// A `#line` marker naming the declaration's file and line, when source maps are on.
pub open spec fn line_marker(sp: Span, cfg: TranspileConfig) -> Seq<char> {
    if cfg.emit_source_map {
        "#line "@ + decimal(sp.line as nat) + " \""@ + sp.file@ + "\"\n"@
    } else {
        Seq::empty()
    }
}

/// The C++ text of one top-level declaration.
pub open spec fn decl_text(d: Decl, cfg: TranspileConfig) -> Seq<char> {
    line_marker(decl_span(d), cfg) + match d {
        Decl::Func(f) => signature_text(f, cfg.arduino_string) + " {\n"@ + block_text(
            f.body,
            f.body.len() as int,
            cfg,
            1,
        ) + "}\n\n"@,
        Decl::Var(s, _) => stmt_text(s, cfg, 0) + "\n"@,
        Decl::Type(name, _) => "// type "@ + name@
            + " is declared in the source; it has no C++ counterpart here\n\n"@,
    }
}

/// Forward declarations of the first `n` declarations' ordinary functions.
pub open spec fn forward_text(ds: Vec<Decl>, n: int, arduino_string: bool) -> Seq<char>
    decreases n,
{
    if n <= 0 || n > ds.len() {
        Seq::empty()
    } else {
        forward_text(ds, n - 1, arduino_string) + match ds[n - 1] {
            Decl::Func(f) => if is_entry(f.name@) {
                Seq::empty()
            } else {
                signature_text(f, arduino_string) + ";\n"@
            },
            _ => Seq::empty(),
        }
    }
}

/// The first `n` declarations, in source order.
pub open spec fn decls_text(ds: Vec<Decl>, n: int, cfg: TranspileConfig) -> Seq<char>
    decreases n,
{
    if n <= 0 || n > ds.len() {
        Seq::empty()
    } else {
        decls_text(ds, n - 1, cfg) + decl_text(ds[n - 1], cfg)
    }
}

/// The comment and include that open every translation.
pub open spec fn preamble_text(b: Board, cfg: TranspileConfig) -> Seq<char> {
    "// Generated for "@ + b.name@ + " ("@ + b.fqbn@ + "), "@ + cfg.cpp_std@ + "\n#include <Arduino.h>\n\n"@
}

/// The whole C++ translation of a program for board `b`.
pub open spec fn program_text(p: Program, cfg: TranspileConfig, b: Board) -> Seq<char> {
    let fwd = forward_text(p.decls, p.decls.len() as int, cfg.arduino_string);
    preamble_text(b, cfg) + fwd + (if fwd.len() > 0 {
        "\n"@
    } else {
        Seq::empty()
    }) + decls_text(p.decls, p.decls.len() as int, cfg)
}

/// The translation that `generate` produces: for the catalog's entry with the configured id.
pub open spec fn generated_text(p: Program, cfg: TranspileConfig) -> Seq<char> {
    program_text(p, cfg, catalog_spec()[first_with_id(cfg.board@)])
}

fn is_entry_name(name: &str) -> (r: bool)
    ensures
        r == is_entry(name@),
{
    same_text(name, "setup") || same_text(name, "loop")
}

/// Appends a function's signature.
fn push_signature(out: &mut Vec<char>, f: &FuncDecl, arduino_string: bool)
    ensures
        final(out)@ == old(out)@ + signature_text(*f, arduino_string),
{
    let ghost start = out@;
    let entry = is_entry_name(f.name.as_str());
    match &f.ret {
        Some(t) => push_type(out, t.as_str(), arduino_string),
        None => push_str(out, "void"),
    }
    push_str(out, " ");
    push_str(out, f.name.as_str());
    push_str(out, "(");
    let ghost open_paren = out@;
    if !entry {
        let mut i: usize = 0;
        while i < f.params.len()
            invariant
                i <= f.params@.len(),
                out@ == open_paren + params_text(f.params, i as int, arduino_string),
            decreases f.params@.len() - i,
        {
            if i > 0 {
                push_str(out, ", ");
            }
            push_type(out, f.params[i].ty.as_str(), arduino_string);
            push_str(out, " ");
            push_str(out, f.params[i].name.as_str());
            i += 1;
            assert(out@ =~= open_paren + params_text(f.params, i as int, arduino_string));
        }
    }
    push_str(out, ")");
    assert(out@ =~= start + signature_text(*f, arduino_string));
}

/// The ids of the first `n` catalog entries, separated by `, `.
pub open spec fn board_ids_text(n: int) -> Seq<char>
    decreases n,
{
    if n <= 0 || n > catalog_spec().len() {
        Seq::empty()
    } else if n == 1 {
        catalog_spec()[0].id@
    } else {
        board_ids_text(n - 1) + ", "@ + catalog_spec()[n - 1].id@
    }
}

/// The message for a board id that the catalog lacks: it names the id and lists the valid ones.
pub open spec fn unknown_board_text(id: Seq<char>) -> Seq<char> {
    "unknown board `"@ + id + "`; valid boards: "@ + board_ids_text(catalog_spec().len() as int)
}

/// The `Codegen` diagnostic for a board id that the catalog lacks.
pub fn unknown_board(id: &str) -> (r: tsukiError)
    ensures
        r matches tsukiError::Codegen(m) && m@ == unknown_board_text(id@),
{
    let mut v: Vec<char> = Vec::new();
    push_str(&mut v, "unknown board `");
    push_str(&mut v, id);
    push_str(&mut v, "`; valid boards: ");
    let ghost head = v@;
    let all = Board::catalog();
    let mut i: usize = 0;
    while i < all.len()
        invariant
            i <= all@.len(),
            all@ == catalog_spec(),
            v@ == head + board_ids_text(i as int),
        decreases all@.len() - i,
    {
        if i > 0 {
            push_str(&mut v, ", ");
        }
        push_str(&mut v, all[i].id);
        i += 1;
        assert(v@ =~= head + board_ids_text(i as int));
    }
    assert(v@ =~= unknown_board_text(id@));
    tsukiError::codegen(string_of(&v))
}

impl Transpiler {
    fn emit_decl(&self, d: &Decl, out: &mut Vec<char>) -> (r: Result<(), tsukiError>)
        ensures
            r is Ok <==> decl_ok(*d, self.cfg),
            r is Ok ==> final(out)@ == old(out)@ + decl_text(*d, self.cfg),
            r matches Err(x) ==> x is Codegen && codegen_message(x->Codegen_0@),
    {
        let ghost start = out@;
        let sp = match d {
            Decl::Func(f) => &f.span,
            Decl::Var(_, sp) => sp,
            Decl::Type(_, sp) => sp,
        };
        if self.cfg.emit_source_map {
            push_str(out, "#line ");
            push_decimal(out, sp.line as u64);
            push_str(out, " \"");
            push_str(out, sp.file.as_str());
            push_str(out, "\"\n");
        }
        let ghost marked = out@;
        assert(marked =~= start + line_marker(decl_span(*d), self.cfg));
        match d {
            Decl::Func(f) => {
                push_signature(out, f, self.cfg.arduino_string);
                push_str(out, " {\n");
                self.emit_block(&f.body, out, 1)?;
                push_str(out, "}\n\n");
            },
            Decl::Var(s, _) => {
                self.emit_stmt(s, out, 0)?;
                push_str(out, "\n");
            },
            Decl::Type(name, _) => {
                push_str(out, "// type ");
                push_str(out, name.as_str());
                push_str(out, " is declared in the source; it has no C++ counterpart here\n\n");
            },
        }
        assert(out@ =~= start + decl_text(*d, self.cfg));
        Ok(())
    }

    /// The C++ translation of `prog`: a preamble for the board, forward declarations of
    /// the ordinary functions, then each declaration in source order.
    pub fn generate(&self, prog: &Program) -> (r: Result<String, tsukiError>)
        ensures
            r is Ok <==> program_ok(*prog, self.config()),
            r matches Ok(t) ==> t@ == generated_text(*prog, self.config()),
            !board_known(self.config().board@) ==> (r matches Err(e) && e == tsukiError::Codegen(
                e->Codegen_0,
            ) && e->Codegen_0@ == unknown_board_text(self.config().board@)),
            r matches Err(x) ==> x is Codegen && (codegen_message(x->Codegen_0@) || (!board_known(self.config().board@)
                && x->Codegen_0@ == unknown_board_text(self.config().board@))),
    {
        let board = match Board::lookup(self.cfg.board.as_str()) {
            Some(b) => b,
            None => {
                return Err(unknown_board(self.cfg.board.as_str()));
            },
        };
        proof {
            let i = first_with_id(self.cfg.board@);
            assert(catalog_spec()[i].id@ == self.cfg.board@);
        }
        let mut out: Vec<char> = Vec::new();
        push_str(&mut out, "// Generated for ");
        push_str(&mut out, board.name);
        push_str(&mut out, " (");
        push_str(&mut out, board.fqbn);
        push_str(&mut out, "), ");
        push_str(&mut out, self.cfg.cpp_std.as_str());
        push_str(&mut out, "\n#include <Arduino.h>\n\n");
        let ghost pre = out@;
        assert(pre =~= preamble_text(board, self.cfg));
        let mut any = false;
        let mut i: usize = 0;
        while i < prog.decls.len()
            invariant
                board_known(self.cfg.board@),
                i <= prog.decls@.len(),
                out@ == pre + forward_text(prog.decls, i as int, self.cfg.arduino_string),
                any == (out@.len() > pre.len()),
            decreases prog.decls@.len() - i,
        {
            match &prog.decls[i] {
                Decl::Func(f) => {
                    if !is_entry_name(f.name.as_str()) {
                        push_signature(&mut out, f, self.cfg.arduino_string);
                        proof {
                            reveal_strlit(";\n");
                        }
                        push_str(&mut out, ";\n");
                        any = true;
                    }
                },
                _ => {},
            }
            i += 1;
            assert(out@ =~= pre + forward_text(prog.decls, i as int, self.cfg.arduino_string));
        }
        if any {
            push_str(&mut out, "\n");
        }
        let ghost head = out@;
        let mut i: usize = 0;
        while i < prog.decls.len()
            invariant
                board_known(self.cfg.board@),
                i <= prog.decls@.len(),
                forall|j: int| 0 <= j < i ==> decl_ok(#[trigger] prog.decls[j], self.cfg),
                out@ == head + decls_text(prog.decls, i as int, self.cfg),
            decreases prog.decls@.len() - i,
        {
            self.emit_decl(&prog.decls[i], &mut out)?;
            i += 1;
            assert(out@ =~= head + decls_text(prog.decls, i as int, self.cfg));
        }
        assert(out@ =~= generated_text(*prog, self.cfg));
        Ok(string_of(&out))
    }
}

} // verus!
