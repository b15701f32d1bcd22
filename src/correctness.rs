//! What compiled programs do when the tape machine runs them.
use vstd::prelude::*;

use crate::codegen::{fragment, program_code};
use crate::instruction::Instruction;
use crate::tape::{
    carried, carry_body, clear, cur, doubled, copy_body, lemma_carry_loop, lemma_copy_loop,
    lemma_flat_concat, lemma_moves_flat, lemma_run_clear, lemma_run_incs, lemma_run_loop_piece,
    lemma_run_moves, lemma_run_straight, looped, moves, rep, run, set_cur, shift, upd, Machine, DEC,
    INC, NEWLINE,
};

verus! {

proof fn lemma_program_one(i: Instruction)
    ensures
        program_code(seq![i]) == fragment(i) + seq![NEWLINE],
{
    assert(seq![i].drop_last() =~= Seq::<Instruction>::empty());
    assert(program_code(Seq::<Instruction>::empty()) + fragment(i) + seq![NEWLINE] =~= fragment(i)
        + seq![NEWLINE]);
}

proof fn lemma_run_newline(m: Machine, f: nat)
    ensures
        run(seq![NEWLINE], m, f) == Some(m),
{
    assert(seq![NEWLINE].drop_first() =~= Seq::<u8>::empty());
    assert(run(Seq::<u8>::empty(), m, f) == Some(m));
}

proof fn lemma_run_moves_then(d: int, rest: Seq<u8>, m: Machine, f: nat)
    ensures
        run(moves(d) + rest, m, f) == run(rest, shift(m, d), f),
{
    lemma_moves_flat(d);
    lemma_run_straight(moves(d), rest, m, f);
    lemma_run_moves(d, m, f);
}

/// Writing `n` leaves exactly `n` in the current register, whatever it held,
/// given enough fuel to clear it; nothing else changes.
pub proof fn write_sets_register(n: u32, m: Machine, f: nat)
    requires
        f >= cur(m),
    ensures
        run(program_code(seq![Instruction::Write(n)]), m, f) == Some(set_cur(m, n as nat)),
{
    lemma_program_one(Instruction::Write(n));
    let incs = rep(INC, n as nat);
    assert(clear() + incs + seq![NEWLINE] =~= clear() + (incs + seq![NEWLINE]));
    lemma_run_clear(incs + seq![NEWLINE], m, f);
    let m0 = set_cur(m, 0);
    lemma_run_straight(incs, seq![NEWLINE], m0, f);
    lemma_run_incs(n as nat, m0, f);
    let m1 = set_cur(m0, n as nat);
    assert(cur(m0) + n as nat == n as nat);
    lemma_run_newline(m1, f);
    assert(m1.cells =~= set_cur(m, n as nat).cells);
}

/// Moving by `n` and then by `-n` leaves the machine as it was.
pub proof fn move_round_trip(n: i32, m: Machine, f: nat)
    requires
        n != i32::MIN,
    ensures
        run(program_code(seq![Instruction::Move(n), Instruction::Move((-n) as i32)]), m, f) == Some(
            m,
        ),
{
    let p = seq![Instruction::Move(n), Instruction::Move((-n) as i32)];
    assert(p.drop_last() =~= seq![Instruction::Move(n)]);
    lemma_program_one(Instruction::Move(n));
    let nl = seq![NEWLINE];
    let code = moves(n as int) + nl + moves(-n) + nl;
    assert(program_code(p) == code);
    assert(code =~= moves(n as int) + (nl + (moves(-n) + nl)));
    lemma_run_moves_then(n as int, nl + (moves(-n) + nl), m, f);
    let m1 = shift(m, n as int);
    lemma_run_straight(nl, moves(-n) + nl, m1, f);
    lemma_run_newline(m1, f);
    lemma_run_moves_then(-n, nl, m1, f);
    lemma_run_newline(shift(m1, -n), f);
    assert(shift(m1, -n) == m);
}

/// Moving a value to offset `n` zeroes the current register, sets the
/// destination to the value the current register held (the destination is
/// cleared first), and leaves the pointer on the current register.
pub proof fn move_value_transfers(n: i32, m: Machine, f: nat)
    requires
        n != 0,
        f >= cur(m),
        f >= (m.cells)(m.ptr + n),
    ensures
        run(program_code(seq![Instruction::MoveValue(n)]), m, f) == Some(
            upd(upd(m, m.ptr, 0), m.ptr + n, cur(m)),
        ),
{
    lemma_program_one(Instruction::MoveValue(n));
    let nl = seq![NEWLINE];
    let lp = looped(carry_body(n as int));
    let code = moves(n as int) + clear() + moves(-n) + lp + nl;
    assert(code =~= moves(n as int) + (clear() + (moves(-n) + (lp + nl))));
    lemma_run_moves_then(n as int, clear() + (moves(-n) + (lp + nl)), m, f);
    let m1 = shift(m, n as int);
    lemma_run_clear(moves(-n) + (lp + nl), m1, f);
    let m2 = set_cur(m1, 0);
    lemma_run_moves_then(-n, lp + nl, m2, f);
    let m3 = shift(m2, -n);
    assert(lp == looped(carry_body(n as int)));
    assert(carry_body(n as int) =~= seq![DEC] + moves(n as int) + seq![INC] + moves(-n));
    lemma_moves_flat(n as int);
    lemma_moves_flat(-n);
    lemma_flat_concat(seq![DEC], moves(n as int));
    lemma_flat_concat(seq![DEC] + moves(n as int), seq![INC]);
    lemma_flat_concat(seq![DEC] + moves(n as int) + seq![INC], moves(-n));
    lemma_run_loop_piece(carry_body(n as int), nl, m3, f);
    assert(cur(m3) == cur(m));
    lemma_carry_loop(n as int, m3, f);
    let m4 = carried(m3, n as int);
    lemma_run_newline(m4, f);
    assert(m4.cells =~= upd(upd(m, m.ptr, 0), m.ptr + n, cur(m)).cells);
}

/// Moving a value to offset `n` whose register holds `w` leaves `v + w` there
/// (`w` being zero, as the fragment clears the destination before the
/// transfer) and zero in the source, with the pointer back on the source.
pub proof fn move_value_adds(n: i32, m: Machine, f: nat)
    requires
        n != 0,
        f >= cur(m),
        (m.cells)(m.ptr + n) == 0,
    ensures
        run(program_code(seq![Instruction::MoveValue(n)]), m, f) == Some(carried(m, n as int)),
{
    move_value_transfers(n, m, f);
    assert(upd(upd(m, m.ptr, 0), m.ptr + n, cur(m)).cells =~= carried(m, n as int).cells);
}


/// Copying to `to` through `tmp` (both nonzero offsets, and distinct) leaves
/// the current register unchanged, sets `to` to its value and `tmp` to zero,
/// and leaves the pointer on the current register; nothing else changes.
#[verifier::rlimit(80)]
pub proof fn copy_value_copies(to: i32, tmp: i32, m: Machine, f: nat)
    requires
        to != 0,
        tmp != 0,
        to != tmp,
        f >= cur(m),
        f >= (m.cells)(m.ptr + to),
        f >= (m.cells)(m.ptr + tmp),
    ensures
        run(program_code(seq![Instruction::CopyValue(to, tmp)]), m, f) == Some(
            upd(upd(m, m.ptr + to, cur(m)), m.ptr + tmp, 0),
        ),
{
    let i = Instruction::CopyValue(to, tmp);
    lemma_program_one(i);
    let nl = seq![NEWLINE];
    let cl = looped(copy_body(to as int, tmp as int));
    let dl = looped(carry_body(-tmp));
    let r9 = moves(-tmp) + nl;
    let r8 = dl + r9;
    let r7 = moves(tmp as int) + r8;
    let r6 = cl + r7;
    let r5 = moves(-tmp) + r6;
    let r4 = clear() + r5;
    let r3 = moves(tmp - to) + r4;
    let r2 = clear() + r3;
    let r1 = moves(to as int) + r2;
    assert(fragment(i) + nl =~= r1);
    let v = cur(m);
    lemma_run_moves_then(to as int, r2, m, f);
    let m1 = shift(m, to as int);
    lemma_run_clear(r3, m1, f);
    let m2 = set_cur(m1, 0);
    lemma_run_moves_then(tmp - to, r4, m2, f);
    let m3 = shift(m2, tmp - to);
    assert(cur(m3) == (m.cells)(m.ptr + tmp));
    lemma_run_clear(r5, m3, f);
    let m4 = set_cur(m3, 0);
    lemma_run_moves_then(-tmp, r6, m4, f);
    let m5 = shift(m4, -tmp);
    assert(m5.ptr == m.ptr);
    assert(cur(m5) == v);
    let body = copy_body(to as int, tmp as int);
    lemma_moves_flat(to as int);
    lemma_moves_flat(tmp - to);
    lemma_moves_flat(-tmp);
    lemma_moves_flat(tmp as int);
    lemma_flat_concat(seq![DEC], moves(to as int));
    lemma_flat_concat(seq![DEC] + moves(to as int), seq![INC]);
    lemma_flat_concat(seq![DEC] + moves(to as int) + seq![INC], moves(tmp - to));
    lemma_flat_concat(seq![DEC] + moves(to as int) + seq![INC] + moves(tmp - to), seq![INC]);
    lemma_flat_concat(
        seq![DEC] + moves(to as int) + seq![INC] + moves(tmp - to) + seq![INC],
        moves(-tmp),
    );
    lemma_run_loop_piece(body, r7, m5, f);
    lemma_copy_loop(to as int, tmp as int, m5, f);
    let m6 = doubled(m5, to as int, tmp as int);
    lemma_run_moves_then(tmp as int, r8, m6, f);
    let m7 = shift(m6, tmp as int);
    assert(cur(m7) == v);
    let back = carry_body(-tmp);
    lemma_flat_concat(seq![DEC], moves(-tmp));
    lemma_flat_concat(seq![DEC] + moves(-tmp), seq![INC]);
    lemma_flat_concat(seq![DEC] + moves(-tmp) + seq![INC], moves(tmp as int));
    assert(back =~= seq![DEC] + moves(-tmp) + seq![INC] + moves(-(-tmp)));
    assert(moves(-(-tmp)) == moves(tmp as int));
    lemma_run_loop_piece(back, r9, m7, f);
    lemma_carry_loop(-tmp, m7, f);
    let m8 = carried(m7, -tmp);
    lemma_run_moves_then(-tmp, nl, m8, f);
    let m9 = shift(m8, -tmp);
    lemma_run_newline(m9, f);
    let e = upd(upd(m, m.ptr + to, v), m.ptr + tmp, 0);
    assert(m9.cells =~= e.cells);
    assert(m9 == e);
}

} // verus!
