//! Properties of the generator stated over its specifications.
use vstd::prelude::*;

use crate::lexer::{digit_value, digits_value};
use crate::parser::ast::{Decl, Expr, Program, Stmt};
use crate::text::{decimal, digit_char};
use crate::transpiler::{
    args_text, expr_text, int_text, program_ok, radix_char, radix_digits,
    TranspileConfig,
};

verus! {

/// The value that C++ gives an integer literal's text: `0x` starts hexadecimal, a
/// leading `0` followed by more digits starts octal, `-` negates, else decimal.
pub open spec fn cpp_int_value(t: Seq<char>) -> int {
    if t.len() >= 1 && t[0] == '-' {
        -(digits_value(t.skip(1), 10) as int)
    } else if t.len() >= 2 && t[0] == '0' && t[1] == 'x' {
        digits_value(t.skip(2), 16) as int
    } else if t.len() >= 2 && t[0] == '0' {
        digits_value(t.skip(1), 8) as int
    } else {
        digits_value(t, 10) as int
    }
}

proof fn lemma_radix_char_value(d: nat)
    requires
        d < 16,
    ensures
        digit_value(radix_char(d)) == d,
{
    if d < 10 {
        assert(digit_char(d) == (('0' as u32) + d) as char);
    }
}

proof fn lemma_radix_digits_value(n: nat, r: nat)
    requires
        2 <= r <= 16,
    ensures
        digits_value(radix_digits(n, r), r) == n,
        radix_digits(n, r).len() >= 1,
    decreases n,
{
    if n < r {
        lemma_radix_char_value(n);
        let s = radix_digits(n, r);
        assert(s == seq![radix_char(n)]);
        assert(s.drop_last() =~= Seq::<char>::empty());
        assert(s.last() == radix_char(n));
        assert(digits_value(Seq::<char>::empty(), r) == 0);
        assert(digits_value(s, r) == digits_value(s.drop_last(), r) * r + digit_value(s.last()));
    } else {
        assert(n / r < n) by (nonlinear_arith)
            requires
                n >= r,
                r >= 2,
        ;
        lemma_radix_digits_value(n / r, r);
        assert(n % r < r) by (nonlinear_arith)
            requires
                r >= 2,
        ;
        lemma_radix_char_value(n % r);
        let s = radix_digits(n, r);
        assert(s.drop_last() =~= radix_digits(n / r, r));
        assert(s.last() == radix_char(n % r));
        assert(digits_value(s, r) == digits_value(s.drop_last(), r) * r + digit_value(s.last()));
        assert(n == (n / r) * r + n % r) by (nonlinear_arith)
            requires
                r >= 2,
        ;
    }
}

proof fn lemma_decimal_is_radix_ten(n: nat)
    ensures
        decimal(n) == radix_digits(n, 10),
    decreases n,
{
    if n >= 10 {
        lemma_decimal_is_radix_ten(n / 10);
    }
}

proof fn lemma_hex_round_trip(n: nat)
    ensures
        cpp_int_value("0x"@ + radix_digits(n, 16)) == n,
{
    lemma_radix_digits_value(n, 16);
    reveal_strlit("0x");
    let t = "0x"@ + radix_digits(n, 16);
    assert(t[0] == '0' && t[1] == 'x');
    assert(t.skip(2) =~= radix_digits(n, 16));
}

proof fn lemma_octal_round_trip(n: nat)
    requires
        n > 0,
    ensures
        cpp_int_value("0"@ + radix_digits(n, 8)) == n,
{
    lemma_radix_digits_value(n, 8);
    lemma_leading_digit(n, 8);
    let ds = radix_digits(n, 8);
    reveal_strlit("0");
    let t = "0"@ + ds;
    assert(t[0] == '0' && t[1] == ds[0]);
    let k = choose|k: nat| k < 8 && ds[0] == radix_char(k);
    assert(ds[0] != 'x');
    assert(t.skip(1) =~= ds);
}

proof fn lemma_decimal_round_trip(n: nat)
    ensures
        cpp_int_value(decimal(n)) == n,
        cpp_int_value("-"@ + decimal(n)) == -(n as int),
{
    lemma_decimal_is_radix_ten(n);
    lemma_radix_digits_value(n, 10);
    lemma_no_leading_zero(n);
    reveal_strlit("-");
    let t = "-"@ + decimal(n);
    assert(t[0] == '-');
    assert(t.skip(1) =~= decimal(n));
}

/// An integer literal keeps its value through generation: whatever radix it was written
/// in, the C++ text emitted for it denotes the same number.
pub proof fn lemma_int_literal_round_trip(value: i64, radix: u32)
    requires
        radix == 2 || radix == 8 || radix == 10 || radix == 16,
    ensures
        cpp_int_value(int_text(value as int, radix)) == value as int,
{
    if value >= 0 && radix == 16 {
        lemma_hex_round_trip(value as nat);
    } else if value > 0 && radix == 8 {
        lemma_octal_round_trip(value as nat);
    } else if value >= 0 {
        lemma_decimal_round_trip(value as nat);
    } else {
        lemma_decimal_round_trip((-value) as nat);
    }
}

proof fn lemma_leading_digit(n: nat, r: nat)
    requires
        2 <= r <= 16,
    ensures
        exists|k: nat| k < r && radix_digits(n, r)[0] == radix_char(k),
    decreases n,
{
    if n < r {
        assert(radix_digits(n, r)[0] == radix_char(n));
    } else {
        assert(n / r < n) by (nonlinear_arith)
            requires
                n >= r,
                r >= 2,
        ;
        lemma_leading_digit(n / r, r);
        lemma_radix_digits_value(n / r, r);
        let k = choose|k: nat| k < r && radix_digits(n / r, r)[0] == radix_char(k);
        assert(radix_digits(n, r)[0] == radix_digits(n / r, r)[0]);
    }
}

/// A decimal spelling of more than one digit does not start with `0`.
proof fn lemma_no_leading_zero(n: nat)
    ensures
        decimal(n).len() >= 2 ==> decimal(n)[0] != '0',
        decimal(n).len() >= 1,
        decimal(n)[0] != '-',
        decimal(n).len() >= 2 ==> n >= 10,
        n >= 10 ==> decimal(n).len() >= 2,
    decreases n,
{
    if n >= 10 {
        lemma_no_leading_zero(n / 10);
        assert(decimal(n)[0] == decimal(n / 10)[0]);
        if n / 10 < 10 {
            assert(decimal(n / 10) == seq![digit_char(n / 10)]);
            assert(digit_char(n / 10) != '0');
        }
    } else {
        assert(decimal(n) == seq![digit_char(n)]);
    }
}

/// A call into the intrinsic package is emitted as the bare member name applied to the
/// emitted arguments, and a value of the package as the bare member name: no package
/// qualifier reaches the C++ text.
pub proof fn lemma_intrinsic_rewrite(pkg: String, member: String, args: Vec<Expr>, cfg: TranspileConfig)
    requires
        pkg@ == "arduino"@,
    ensures
        expr_text(Expr::Selector(Box::new(Expr::Ident(pkg)), member), cfg) == member@,
        expr_text(Expr::Call(Box::new(Expr::Selector(Box::new(Expr::Ident(pkg)), member)), args), cfg)
            == member@ + "("@ + args_text(args, args.len() as int, cfg) + ")"@,
{
    let callee = Expr::Selector(Box::new(Expr::Ident(pkg)), member);
    assert(crate::transpiler::is_package(Expr::Ident(pkg)));
    assert(expr_text(callee, cfg) == member@);
}

/// Whether a statement is one of the concurrency-only forms.
pub open spec fn is_concurrency_only(s: Stmt) -> bool {
    s is Go || s is Defer || s is Send || s is Select
}

/// A concurrency-only statement can be emitted exactly when annotation is on; it is
/// then replaced by a comment rather than dropped or refused.
pub proof fn lemma_unsupported_annotated(s: Stmt, cfg: TranspileConfig)
    requires
        is_concurrency_only(s),
    ensures
        crate::transpiler::stmt_ok(s, cfg) <==> cfg.annotate_unsupported,
{
}

/// With annotation off, a program whose function body holds a `go`, `defer`, channel
/// send or `select` statement is refused by the generator.
pub proof fn lemma_unsupported_refused(p: Program, cfg: TranspileConfig, i: int, j: int)
    requires
        0 <= i < p.decls.len(),
        p.decls[i] is Func,
        0 <= j < p.decls[i]->Func_0.body.len(),
        is_concurrency_only(p.decls[i]->Func_0.body[j]),
        !cfg.annotate_unsupported,
    ensures
        !program_ok(p, cfg),
{
    let d = p.decls[i];
    assert(!crate::transpiler::stmt_ok(d->Func_0.body[j], cfg));
    assert(!crate::transpiler::decl_ok(d, cfg));
}

} // verus!
