//! Pure helpers behind the command-line wrapper: flag lookup and the board listing.
use vstd::prelude::*;

use crate::lexer::token::same_text;
use crate::runtime::{catalog_spec, Board};
use crate::text::{chars_of, decimal, push_all, push_decimal, push_str, string_of};

verus! {

/// Whether `args[i]` is `flag` and a value follows it.
pub open spec fn flag_at(args: Seq<String>, flag: Seq<char>, i: int) -> bool {
    0 <= i && i + 1 < args.len() && args[i]@ == flag
}

/// The argument after the first occurrence of `flag` that has one.
pub fn flag_value(args: &Vec<String>, flag: &str) -> (r: Option<String>)
    ensures
        r matches Some(v) ==> exists|i: int| #[trigger] flag_at(args@, flag@, i) && v@ == args@[i + 1]@
            && forall|j: int| 0 <= j < i ==> !#[trigger] flag_at(args@, flag@, j),
        r is None ==> forall|i: int| !#[trigger] flag_at(args@, flag@, i),
{
    let mut i: usize = 0;
    while i < args.len() && args.len() - i > 1
        invariant
            i <= args@.len(),
            forall|j: int| 0 <= j < i ==> !#[trigger] flag_at(args@, flag@, j),
        decreases args@.len() - i,
    {
        if same_text(args[i].as_str(), flag) {
            assert(flag_at(args@, flag@, i as int));
            return Some(args[i + 1].clone());
        }
        i += 1;
    }
    proof {
        assert forall|k: int| !#[trigger] flag_at(args@, flag@, k) by {
            if k >= i {
                assert(!(k + 1 < args@.len()));
            }
        }
    }
    None
}

pub open spec fn spaces(n: nat) -> Seq<char> {
    Seq::new(n, |i: int| ' ')
}

/// `s` followed by spaces up to width `w`.
pub open spec fn pad_right(s: Seq<char>, w: nat) -> Seq<char> {
    if s.len() < w {
        s + spaces((w - s.len()) as nat)
    } else {
        s
    }
}

/// Spaces up to width `w`, then `s`.
pub open spec fn pad_left(s: Seq<char>, w: nat) -> Seq<char> {
    if s.len() < w {
        spaces((w - s.len()) as nat) + s
    } else {
        s
    }
}

pub open spec fn header_text() -> Seq<char> {
    pad_right("ID"@, 15) + " "@ + pad_right("NAME"@, 30) + " "@ + pad_right("FLASH"@, 8) + " "@ + pad_right(
        "RAM"@,
        6,
    ) + "  FQBN\n"@ + Seq::new(85, |i: int| '-') + "\n"@
}

/// One line of the listing: id, name, flash and RAM sizes in KB, board name.
pub open spec fn row_text(b: Board) -> Seq<char> {
    pad_right(b.id@, 15) + " "@ + pad_right(b.name@, 30) + " "@ + pad_left(decimal(b.flash_kb as nat), 5)
        + "K  "@ + pad_left(decimal(b.ram_kb as nat), 4) + "K  "@ + b.fqbn@ + "\n"@
}

pub open spec fn rows_text(bs: Seq<Board>) -> Seq<char>
    decreases bs.len(),
{
    if bs.len() == 0 {
        Seq::empty()
    } else {
        rows_text(bs.drop_last()) + row_text(bs.last())
    }
}

fn push_padded(out: &mut Vec<char>, s: &Vec<char>, w: usize, left: bool)
    ensures
        final(out)@ == old(out)@ + if left { pad_left(s@, w as nat) } else { pad_right(s@, w as nat) },
{
    let ghost start = out@;
    let mut fill: Vec<char> = Vec::new();
    if s.len() < w {
        let n = w - s.len();
        let mut i: usize = 0;
        while i < n
            invariant
                i <= n,
                fill@ == spaces(i as nat),
            decreases n - i,
        {
            fill.push(' ');
            i += 1;
            assert(fill@ =~= spaces(i as nat));
        }
    }
    if left {
        push_all(out, &fill);
        push_all(out, s);
    } else {
        push_all(out, s);
        push_all(out, &fill);
    }
    proof {
        if s@.len() >= w {
            assert(fill@ =~= Seq::<char>::empty());
        }
        assert(out@ =~= start + if left { pad_left(s@, w as nat) } else { pad_right(s@, w as nat) });
    }
}

fn push_row(out: &mut Vec<char>, b: &Board)
    ensures
        final(out)@ == old(out)@ + row_text(*b),
{
    let ghost start = out@;
    push_padded(out, &chars_of(b.id), 15, false);
    push_str(out, " ");
    push_padded(out, &chars_of(b.name), 30, false);
    push_str(out, " ");
    let mut flash: Vec<char> = Vec::new();
    push_decimal(&mut flash, b.flash_kb as u64);
    assert(flash@ =~= decimal(b.flash_kb as nat));
    push_padded(out, &flash, 5, true);
    push_str(out, "K  ");
    let mut ram: Vec<char> = Vec::new();
    push_decimal(&mut ram, b.ram_kb as u64);
    assert(ram@ =~= decimal(b.ram_kb as nat));
    push_padded(out, &ram, 4, true);
    push_str(out, "K  ");
    push_str(out, b.fqbn);
    push_str(out, "\n");
    assert(out@ =~= start + row_text(*b));
}

/// The board listing: a header, a rule, and one line per catalog entry in order.
pub fn boards_table() -> (r: String)
    ensures
        r@ == header_text() + rows_text(catalog_spec()),
{
    let mut out: Vec<char> = Vec::new();
    push_padded(&mut out, &chars_of("ID"), 15, false);
    push_str(&mut out, " ");
    push_padded(&mut out, &chars_of("NAME"), 30, false);
    push_str(&mut out, " ");
    push_padded(&mut out, &chars_of("FLASH"), 8, false);
    push_str(&mut out, " ");
    push_padded(&mut out, &chars_of("RAM"), 6, false);
    push_str(&mut out, "  FQBN\n");
    let ghost before_rule = out@;
    let mut i: usize = 0;
    while i < 85
        invariant
            i <= 85,
            out@ == before_rule + Seq::new(i as nat, |k: int| '-'),
        decreases 85 - i,
    {
        out.push('-');
        i += 1;
        assert(out@ =~= before_rule + Seq::new(i as nat, |k: int| '-'));
    }
    push_str(&mut out, "\n");
    assert(out@ =~= header_text());
    let all = Board::catalog();
    let mut i: usize = 0;
    while i < all.len()
        invariant
            i <= all@.len(),
            all@ == catalog_spec(),
            out@ == header_text() + rows_text(all@.take(i as int)),
        decreases all@.len() - i,
    {
        push_row(&mut out, &all[i]);
        assert(all@.take(i + 1).drop_last() =~= all@.take(i as int));
        i += 1;
        assert(out@ =~= header_text() + rows_text(all@.take(i as int)));
    }
    assert(all@.take(all@.len() as int) =~= all@);
    string_of(&out)
}

} // verus!
