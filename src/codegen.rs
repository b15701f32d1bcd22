//! Translation of instructions into tape-language fragments.
use vstd::prelude::*;

use crate::instruction::Instruction;
use crate::tape::{
    carry_body, clear, copy_body, looped, moves, rep, CLOSE, DEC, IN, INC, LEFT, NEWLINE, OPEN,
    OUT, RIGHT,
};

verus! {

/// The fragment that one instruction compiles to.
pub open spec fn fragment(i: Instruction) -> Seq<u8> {
    match i {
        Instruction::Input => seq![IN],
        Instruction::Print => seq![OUT],
        Instruction::Write(n) => clear() + rep(INC, n as nat),
        Instruction::Move(n) => moves(n as int),
        Instruction::MoveValue(n) => moves(n as int) + clear() + moves(-n) + looped(
            carry_body(n as int),
        ),
        Instruction::CopyValue(to, tmp) => moves(to as int) + clear() + moves(tmp - to) + clear()
            + moves(-tmp) + looped(copy_body(to as int, tmp as int)) + moves(tmp as int) + looped(
            carry_body(-tmp),
        ) + moves(-tmp),
    }
}

/// The whole program's code: each fragment followed by a line separator.
pub open spec fn program_code(p: Seq<Instruction>) -> Seq<u8>
    decreases p.len(),
{
    if p.len() == 0 {
        Seq::empty()
    } else {
        program_code(p.drop_last()) + fragment(p.last()) + seq![NEWLINE]
    }
}

/// The shift primitive toward offset `n`: right for zero and above.
pub fn move_sign_of(n: i64) -> (r: u8)
    ensures
        r == (if n >= 0 { RIGHT } else { LEFT }),
{
    if n >= 0 {
        RIGHT
    } else {
        LEFT
    }
}

/// Appends `n` copies of `byte`.
pub fn write_multiple(out: &mut Vec<u8>, byte: u8, n: u64)
    ensures
        final(out)@ == old(out)@ + rep(byte, n as nat),
{
    let mut i: u64 = 0;
    while i < n
        invariant
            i <= n,
            out@ == old(out)@ + rep(byte, i as nat),
        decreases n - i,
    {
        out.push(byte);
        i = i + 1;
        assert(out@ =~= old(out)@ + rep(byte, i as nat));
    }
    assert(out@ =~= old(out)@ + rep(byte, n as nat));
}

/// Appends a pointer movement of `moven` cells: right if positive, left if
/// negative, nothing for zero.
pub fn write_move(out: &mut Vec<u8>, moven: i64)
    ensures
        final(out)@ == old(out)@ + moves(moven as int),
{
    if moven >= 0 {
        write_multiple(out, RIGHT, moven as u64);
    } else {
        let d: u64 = (-(moven + 1)) as u64 + 1;
        write_multiple(out, LEFT, d);
    }
}

/// Appends the loop that drains the current cell into the cell `dist` steps
/// away in the direction of `sign_fwd`, coming back by `sign_back`.
pub fn write_move_val_loop(out: &mut Vec<u8>, dist: u64, sign_fwd: u8, sign_back: u8)
    ensures
        final(out)@ == old(out)@ + seq![OPEN, DEC] + rep(sign_fwd, dist as nat) + seq![INC] + rep(
            sign_back,
            dist as nat,
        ) + seq![CLOSE],
{
    out.push(OPEN);
    out.push(DEC);
    write_multiple(out, sign_fwd, dist);
    out.push(INC);
    write_multiple(out, sign_back, dist);
    out.push(CLOSE);
    assert(out@ =~= old(out)@ + seq![OPEN, DEC] + rep(sign_fwd, dist as nat) + seq![INC] + rep(
        sign_back,
        dist as nat,
    ) + seq![CLOSE]);
}

/// The carry loop toward offset `n`, written with signs and a distance, is
/// the loop around the carry body.
proof fn lemma_carry_loop_code(n: int, fwd: u8, back: u8, d: nat)
    requires
        n > 0 ==> fwd == RIGHT && back == LEFT,
        n < 0 ==> fwd == LEFT && back == RIGHT,
        d == (if n >= 0 { n } else { -n }),
    ensures
        rep(fwd, d) == moves(n),
        rep(back, d) == moves(-n),
        seq![OPEN, DEC] + rep(fwd, d) + seq![INC] + rep(back, d) + seq![CLOSE] == looped(
            carry_body(n),
        ),
{
    assert(rep(fwd, d) =~= moves(n));
    assert(rep(back, d) =~= moves(-n));
    assert(seq![OPEN, DEC] + rep(fwd, d) + seq![INC] + rep(back, d) + seq![CLOSE] =~= looped(
        carry_body(n),
    ));
}

fn write_clear(out: &mut Vec<u8>)
    ensures
        final(out)@ == old(out)@ + clear(),
{
    out.push(OPEN);
    out.push(DEC);
    out.push(CLOSE);
    assert(out@ =~= old(out)@ + clear());
}

fn write_move_value(out: &mut Vec<u8>, n: i32)
    ensures
        final(out)@ == old(out)@ + fragment(Instruction::MoveValue(n)),
{
    let n64 = n as i64;
    let (sign_fwd, sign_back) = if n64 > 0 {
        (RIGHT, LEFT)
    } else {
        (LEFT, RIGHT)
    };
    let d: u64 = if n64 >= 0 {
        n64 as u64
    } else {
        (-n64) as u64
    };
    proof {
        lemma_carry_loop_code(n as int, sign_fwd, sign_back, d as nat);
    }
    // clear the destination before adding into it
    write_multiple(out, sign_fwd, d);
    write_clear(out);
    write_multiple(out, sign_back, d);
    write_move_val_loop(out, d, sign_fwd, sign_back);
    assert(out@ =~= old(out)@ + fragment(Instruction::MoveValue(n)));
}

proof fn lemma_assoc(a: Seq<u8>, b: Seq<u8>, c: Seq<u8>)
    ensures
        a + b + c == a + (b + c),
{
    assert(a + b + c =~= a + (b + c));
}

fn write_copy_loop(out: &mut Vec<u8>, to: i64, tmp: i64)
    requires
        -0x1_0000_0000 <= to <= 0x1_0000_0000,
        -0x1_0000_0000 <= tmp <= 0x1_0000_0000,
    ensures
        final(out)@ == old(out)@ + looped(copy_body(to as int, tmp as int)),
{
    out.push(OPEN);
    out.push(DEC);
    write_move(out, to);
    out.push(INC);
    write_move(out, tmp - to);
    out.push(INC);
    write_move(out, -tmp);
    out.push(CLOSE);
    assert(out@ =~= old(out)@ + looped(copy_body(to as int, tmp as int)));
}

fn write_copy_value(out: &mut Vec<u8>, to: i32, tmp: i32)
    ensures
        final(out)@ == old(out)@ + fragment(Instruction::CopyValue(to, tmp)),
{
    let ghost start = out@;
    let to64 = to as i64;
    let tmp64 = tmp as i64;
    // clear `to`, then `tmp`, and come back
    write_move(out, to64);
    let ghost g = moves(to as int);
    write_clear(out);
    proof { lemma_assoc(start, g, clear()); g = g + clear(); }
    write_move(out, tmp64 - to64);
    proof { lemma_assoc(start, g, moves(tmp - to)); g = g + moves(tmp - to); }
    write_clear(out);
    proof { lemma_assoc(start, g, clear()); g = g + clear(); }
    write_move(out, -tmp64);
    proof { lemma_assoc(start, g, moves(-tmp)); g = g + moves(-tmp); }
    // drain the current register into both `to` and `tmp`
    write_copy_loop(out, to64, tmp64);
    proof {
        let c = looped(copy_body(to as int, tmp as int));
        lemma_assoc(start, g, c);
        g = g + c;
    }
    // drain `tmp` back into the current register, and come back
    write_move(out, tmp64);
    proof { lemma_assoc(start, g, moves(tmp as int)); g = g + moves(tmp as int); }
    let d: u64 = if tmp64 >= 0 {
        tmp64 as u64
    } else {
        (-tmp64) as u64
    };
    let sign_fwd = move_sign_of(-tmp64);
    let sign_back = move_sign_of(tmp64);
    proof {
        lemma_carry_loop_code(-tmp64 as int, sign_fwd, sign_back, d as nat);
    }
    write_move_val_loop(out, d, sign_fwd, sign_back);
    proof {
        let c = looped(carry_body(-tmp));
        lemma_assoc(start, g, c);
        g = g + c;
    }
    write_move(out, -tmp64);
    proof {
        lemma_assoc(start, g, moves(-tmp));
        g = g + moves(-tmp);
        assert(g == fragment(Instruction::CopyValue(to, tmp)));
    }
}

/// Appends the fragment of one instruction.
pub fn write_instruction(out: &mut Vec<u8>, instruction: &Instruction)
    ensures
        final(out)@ == old(out)@ + fragment(*instruction),
{
    match *instruction {
        Instruction::Print => {
            out.push(OUT);
            assert(out@ =~= old(out)@ + fragment(*instruction));
        },
        Instruction::Input => {
            out.push(IN);
            assert(out@ =~= old(out)@ + fragment(*instruction));
        },
        Instruction::Write(n) => {
            write_clear(out);
            write_multiple(out, INC, n as u64);
            assert(out@ =~= old(out)@ + fragment(*instruction));
        },
        Instruction::Move(n) => {
            write_move(out, n as i64);
        },
        Instruction::MoveValue(n) => {
            write_move_value(out, n);
        },
        Instruction::CopyValue(to, tmp) => {
            write_copy_value(out, to, tmp);
        },
    }
}

/// Compiles a program: each instruction's fragment, each followed by a line
/// separator, in program order.
pub fn compile(instructions: &[Instruction]) -> (r: Vec<u8>)
    ensures
        r@ == program_code(instructions@),
{
    let mut out: Vec<u8> = Vec::new();
    let mut i: usize = 0;
    while i < instructions.len()
        invariant
            i <= instructions@.len(),
            out@ == program_code(instructions@.subrange(0, i as int)),
        decreases instructions@.len() - i,
    {
        let ghost before = out@;
        write_instruction(&mut out, &instructions[i]);
        out.push(NEWLINE);
        proof {
            let p = instructions@.subrange(0, i + 1);
            assert(p.drop_last() =~= instructions@.subrange(0, i as int));
            assert(out@ =~= program_code(p));
        }
        i = i + 1;
    }
    assert(instructions@.subrange(0, i as int) =~= instructions@);
    out
}

} // verus!
