//! Meaning of the tape language: a machine with a pointer into an unbounded
//! row of counter cells, and a fuel-bounded run of a byte string on it.
use vstd::prelude::*;

verus! {

/// Shift the pointer one cell to the right.
pub const RIGHT: u8 = 62;
/// Shift the pointer one cell to the left.
pub const LEFT: u8 = 60;
/// Increment the current cell.
pub const INC: u8 = 43;
/// Decrement the current cell.
pub const DEC: u8 = 45;
/// Enter a loop while the current cell is nonzero.
pub const OPEN: u8 = 91;
/// Close a loop.
pub const CLOSE: u8 = 93;
/// Write the current cell to the output.
pub const OUT: u8 = 46;
/// Read one input unit into the current cell.
pub const IN: u8 = 44;
/// Line separator between fragments; any byte that is no primitive does nothing.
pub const NEWLINE: u8 = 10;

/// State of the tape machine. Cells are addressed by integers, so offsets
/// on either side of the start cell are meaningful.
pub struct Machine {
    pub ptr: int,
    pub cells: spec_fn(int) -> nat,
    pub input: Seq<u8>,
    pub output: Seq<nat>,
}

pub open spec fn cur(m: Machine) -> nat {
    (m.cells)(m.ptr)
}

pub open spec fn set_cur(m: Machine, v: nat) -> Machine {
    Machine { cells: |i: int| if i == m.ptr { v } else { (m.cells)(i) }, ..m }
}

pub open spec fn shift(m: Machine, d: int) -> Machine {
    Machine { ptr: m.ptr + d, ..m }
}

pub open spec fn is_bracket(b: u8) -> bool {
    b == OPEN || b == CLOSE
}

pub open spec fn bracket_free(s: Seq<u8>) -> bool {
    forall|i: int| 0 <= i < s.len() ==> !is_bracket(#[trigger] s[i])
}

/// Effect of one byte that is not a bracket; `None` when input runs out.
pub open spec fn step(b: u8, m: Machine) -> Option<Machine> {
    if b == RIGHT {
        Some(shift(m, 1))
    } else if b == LEFT {
        Some(shift(m, -1))
    } else if b == INC {
        Some(set_cur(m, cur(m) + 1))
    } else if b == DEC {
        Some(set_cur(m, if cur(m) > 0 { (cur(m) - 1) as nat } else { 0 }))
    } else if b == OUT {
        Some(Machine { output: m.output.push(cur(m)), ..m })
    } else if b == IN {
        if m.input.len() == 0 {
            None
        } else {
            Some(Machine { input: m.input.drop_first(), ..set_cur(m, m.input[0] as nat) })
        }
    } else {
        Some(m)
    }
}

/// Index of the bracket that closes the loop open at depth `depth` while
/// scanning from `i`.
pub open spec fn close_from(s: Seq<u8>, i: int, depth: nat) -> Option<int>
    decreases s.len() - i,
{
    if i < 0 || i >= s.len() {
        None
    } else if s[i] == CLOSE {
        if depth == 1 {
            Some(i)
        } else {
            close_from(s, i + 1, (depth - 1) as nat)
        }
    } else if s[i] == OPEN {
        close_from(s, i + 1, depth + 1)
    } else {
        close_from(s, i + 1, depth)
    }
}

/// Runs `code` on `m`. Each loop may iterate at most `fuel` times per entry;
/// `None` means the fuel ran out, the brackets do not match, or input ran out.
pub open spec fn run(code: Seq<u8>, m: Machine, fuel: nat) -> Option<Machine>
    decreases fuel, code.len(), 0nat,
{
    if code.len() == 0 {
        Some(m)
    } else if code[0] == OPEN {
        match close_from(code, 1, 1) {
            Some(k) => if 1 <= k < code.len() {
                match run_loop(code.subrange(1, k), m, fuel) {
                    Some(m2) => run(code.subrange(k + 1, code.len() as int), m2, fuel),
                    None => None,
                }
            } else {
                None
            },
            None => None,
        }
    } else if code[0] == CLOSE {
        None
    } else {
        match step(code[0], m) {
            Some(m2) => run(code.drop_first(), m2, fuel),
            None => None,
        }
    }
}

/// Runs a loop with the given body until the current cell is zero.
pub open spec fn run_loop(body: Seq<u8>, m: Machine, fuel: nat) -> Option<Machine>
    decreases fuel, body.len() + 1, 1nat,
{
    if cur(m) == 0 {
        Some(m)
    } else if fuel == 0 {
        None
    } else {
        match run(body, m, (fuel - 1) as nat) {
            Some(m2) => run_loop(body, m2, (fuel - 1) as nat),
            None => None,
        }
    }
}

/// Runs `b` from the outcome `r` of an earlier run, if it succeeded.
pub open spec fn then_run(r: Option<Machine>, b: Seq<u8>, fuel: nat) -> Option<Machine> {
    match r {
        Some(m) => run(b, m, fuel),
        None => None,
    }
}


/// `n` copies of the byte `b`.
pub open spec fn rep(b: u8, n: nat) -> Seq<u8> {
    Seq::new(n, |_i: int| b)
}

/// Pointer moves by `d` cells: right for positive, left for negative.
pub open spec fn moves(d: int) -> Seq<u8> {
    if d >= 0 {
        rep(RIGHT, d as nat)
    } else {
        rep(LEFT, (-d) as nat)
    }
}

/// A loop around `body`.
pub open spec fn looped(body: Seq<u8>) -> Seq<u8> {
    seq![OPEN] + body + seq![CLOSE]
}

/// Sets the current cell to zero.
pub open spec fn clear() -> Seq<u8> {
    looped(seq![DEC])
}

/// Body of the loop that drains the current cell into the cell at offset `d`.
pub open spec fn carry_body(d: int) -> Seq<u8> {
    seq![DEC] + moves(d) + seq![INC] + moves(-d)
}

/// Body of the loop that drains the current cell into the cells at offsets
/// `to` and `tmp`.
pub open spec fn copy_body(to: int, tmp: int) -> Seq<u8> {
    seq![DEC] + moves(to) + seq![INC] + moves(tmp - to) + seq![INC] + moves(-tmp)
}

/// `m` with the cell at `p` replaced by `v`.
pub open spec fn upd(m: Machine, p: int, v: nat) -> Machine {
    Machine { cells: |i: int| if i == p { v } else { (m.cells)(i) }, ..m }
}

/// `m` after draining the current cell into the cell at offset `d`.
pub open spec fn carried(m: Machine, d: int) -> Machine {
    upd(upd(m, m.ptr, 0), m.ptr + d, (m.cells)(m.ptr + d) + cur(m))
}

/// `m` after draining the current cell into the cells at offsets `to` and `tmp`.
pub open spec fn doubled(m: Machine, to: int, tmp: int) -> Machine {
    upd(upd(upd(m, m.ptr, 0), m.ptr + to, (m.cells)(m.ptr + to) + cur(m)), m.ptr + tmp,
        (m.cells)(m.ptr + tmp) + cur(m))
}

pub proof fn lemma_moves_flat(d: int)
    ensures
        bracket_free(moves(d)),
{
}

/// Code without brackets runs byte by byte, so what follows it starts from
/// where it ends.
pub proof fn lemma_run_straight(a: Seq<u8>, b: Seq<u8>, m: Machine, f: nat)
    requires
        bracket_free(a),
    ensures
        run(a + b, m, f) == then_run(run(a, m, f), b, f),
    decreases a.len(),
{
    if a.len() == 0 {
        assert(a + b =~= b);
    } else {
        let c = a + b;
        assert(c[0] == a[0]);
        assert(!is_bracket(a[0]));
        assert(c.drop_first() =~= a.drop_first() + b);
        let t = a.drop_first();
        assert forall|i: int| 0 <= i < t.len() implies !is_bracket(#[trigger] t[i]) by {
            assert(t[i] == a[i + 1]);
        }
        match step(a[0], m) {
            Some(m2) => lemma_run_straight(t, b, m2, f),
            None => {},
        }
    }
}

proof fn lemma_close_flat(body: Seq<u8>, rest: Seq<u8>, i: int)
    requires
        bracket_free(body),
        1 <= i <= body.len() + 1,
    ensures
        close_from(looped(body) + rest, i, 1) == Some(body.len() as int + 1),
    decreases body.len() + 1 - i,
{
    let code = looped(body) + rest;
    if i <= body.len() {
        assert(code[i] == body[i - 1]);
        assert(!is_bracket(body[i - 1]));
        lemma_close_flat(body, rest, i + 1);
    } else {
        assert(code[i] == CLOSE);
    }
}

/// A loop whose body has no brackets runs as a loop, then what follows it.
pub proof fn lemma_run_loop_piece(body: Seq<u8>, rest: Seq<u8>, m: Machine, f: nat)
    requires
        bracket_free(body),
    ensures
        run(looped(body) + rest, m, f) == then_run(run_loop(body, m, f), rest, f),
{
    let code = looped(body) + rest;
    lemma_close_flat(body, rest, 1);
    let k: int = body.len() as int + 1;
    assert(code[0] == OPEN);
    assert(code.subrange(1, k) =~= body);
    assert(code.subrange(k + 1, code.len() as int) =~= rest);
}

pub proof fn lemma_run_rep_right(n: nat, m: Machine, f: nat)
    ensures
        run(rep(RIGHT, n), m, f) == Some(shift(m, n as int)),
    decreases n,
{
    if n > 0 {
        assert(rep(RIGHT, n).drop_first() =~= rep(RIGHT, (n - 1) as nat));
        lemma_run_rep_right((n - 1) as nat, shift(m, 1), f);
    }
}

pub proof fn lemma_run_rep_left(n: nat, m: Machine, f: nat)
    ensures
        run(rep(LEFT, n), m, f) == Some(shift(m, -n)),
    decreases n,
{
    if n > 0 {
        assert(rep(LEFT, n).drop_first() =~= rep(LEFT, (n - 1) as nat));
        lemma_run_rep_left((n - 1) as nat, shift(m, -1), f);
    }
}

pub proof fn lemma_run_moves(d: int, m: Machine, f: nat)
    ensures
        run(moves(d), m, f) == Some(shift(m, d)),
{
    if d >= 0 {
        lemma_run_rep_right(d as nat, m, f);
    } else {
        lemma_run_rep_left((-d) as nat, m, f);
    }
}

pub proof fn lemma_run_incs(n: nat, m: Machine, f: nat)
    ensures
        run(rep(INC, n), m, f) == Some(set_cur(m, cur(m) + n)),
    decreases n,
{
    if n == 0 {
        assert(set_cur(m, cur(m)).cells =~= m.cells);
    } else {
        assert(rep(INC, n).drop_first() =~= rep(INC, (n - 1) as nat));
        let m1 = set_cur(m, cur(m) + 1);
        lemma_run_incs((n - 1) as nat, m1, f);
        assert(set_cur(m1, cur(m1) + (n - 1) as nat).cells =~= set_cur(m, cur(m) + n).cells);
    }
}

/// Clearing loop: the current cell drops to zero, one step per unit.
pub proof fn lemma_clear_loop(m: Machine, f: nat)
    requires
        f >= cur(m),
    ensures
        run_loop(seq![DEC], m, f) == Some(set_cur(m, 0)),
    decreases cur(m),
{
    if cur(m) == 0 {
        assert(set_cur(m, 0).cells =~= m.cells);
    } else {
        let m1 = set_cur(m, (cur(m) - 1) as nat);
        assert(seq![DEC].drop_first() =~= Seq::<u8>::empty());
        assert(run(Seq::<u8>::empty(), m1, (f - 1) as nat) == Some(m1));
        assert(step(DEC, m) == Some(m1));
        assert(run(seq![DEC], m, (f - 1) as nat) == Some(m1));
        lemma_clear_loop(m1, (f - 1) as nat);
        assert(set_cur(m1, 0).cells =~= set_cur(m, 0).cells);
    }
}

pub proof fn lemma_run_clear(rest: Seq<u8>, m: Machine, f: nat)
    requires
        f >= cur(m),
    ensures
        run(clear() + rest, m, f) == run(rest, set_cur(m, 0), f),
{
    lemma_run_loop_piece(seq![DEC], rest, m, f);
    lemma_clear_loop(m, f);
}


pub proof fn lemma_flat_concat(a: Seq<u8>, b: Seq<u8>)
    requires
        bracket_free(a),
        bracket_free(b),
    ensures
        bracket_free(a + b),
{
    assert forall|i: int| 0 <= i < (a + b).len() implies !is_bracket(#[trigger] (a + b)[i]) by {
        if i < a.len() {
            assert((a + b)[i] == a[i]);
        } else {
            assert((a + b)[i] == b[i - a.len()]);
        }
    }
}

proof fn lemma_run_single(b: u8, m: Machine, f: nat)
    requires
        !is_bracket(b),
    ensures
        run(seq![b], m, f) == step(b, m),
{
    assert(seq![b].drop_first() =~= Seq::<u8>::empty());
    match step(b, m) {
        Some(m2) => assert(run(Seq::<u8>::empty(), m2, f) == Some(m2)),
        None => {},
    }
}

/// One pass of the carry body moves one unit from the current cell to the
/// cell at offset `d` and returns to the current cell.
proof fn lemma_carry_once(d: int, m: Machine, f: nat)
    requires
        d != 0,
        cur(m) > 0,
    ensures
        run(carry_body(d), m, f) == Some(
            upd(upd(m, m.ptr, (cur(m) - 1) as nat), m.ptr + d, (m.cells)(m.ptr + d) + 1),
        ),
{
    let p1 = seq![DEC];
    let p2 = moves(d);
    let p3 = seq![INC];
    let p4 = moves(-d);
    lemma_moves_flat(d);
    lemma_moves_flat(-d);
    lemma_flat_concat(p1, p2);
    lemma_flat_concat(p1 + p2, p3);
    lemma_run_straight(p1 + p2 + p3, p4, m, f);
    lemma_run_straight(p1 + p2, p3, m, f);
    lemma_run_straight(p1, p2, m, f);
    lemma_run_single(DEC, m, f);
    let m1 = set_cur(m, (cur(m) - 1) as nat);
    lemma_run_moves(d, m1, f);
    let m2 = shift(m1, d);
    lemma_run_single(INC, m2, f);
    let m3 = set_cur(m2, cur(m2) + 1);
    lemma_run_moves(-d, m3, f);
    let m4 = shift(m3, -d);
    let e = upd(upd(m, m.ptr, (cur(m) - 1) as nat), m.ptr + d, (m.cells)(m.ptr + d) + 1);
    assert(m4.cells =~= e.cells);
    assert(m4 == e);
}

/// The carry loop empties the current cell into the cell at offset `d`.
pub proof fn lemma_carry_loop(d: int, m: Machine, f: nat)
    requires
        d != 0,
        f >= cur(m),
    ensures
        run_loop(carry_body(d), m, f) == Some(carried(m, d)),
    decreases cur(m),
{
    if cur(m) == 0 {
        assert(carried(m, d).cells =~= m.cells);
    } else {
        lemma_carry_once(d, m, (f - 1) as nat);
        let m1 = upd(upd(m, m.ptr, (cur(m) - 1) as nat), m.ptr + d, (m.cells)(m.ptr + d) + 1);
        lemma_carry_loop(d, m1, (f - 1) as nat);
        assert(carried(m1, d).cells =~= carried(m, d).cells);
    }
}

/// One pass of the copy body moves one unit from the current cell to each of
/// the cells at offsets `to` and `tmp`, and returns to the current cell.
proof fn lemma_copy_once(to: int, tmp: int, m: Machine, f: nat)
    requires
        to != 0,
        tmp != 0,
        to != tmp,
        cur(m) > 0,
    ensures
        run(copy_body(to, tmp), m, f) == Some(
            upd(
                upd(upd(m, m.ptr, (cur(m) - 1) as nat), m.ptr + to, (m.cells)(m.ptr + to) + 1),
                m.ptr + tmp,
                (m.cells)(m.ptr + tmp) + 1,
            ),
        ),
{
    let p1 = seq![DEC];
    let p2 = moves(to);
    let p3 = seq![INC];
    let p4 = moves(tmp - to);
    let p5 = seq![INC];
    let p6 = moves(-tmp);
    lemma_moves_flat(to);
    lemma_moves_flat(tmp - to);
    lemma_moves_flat(-tmp);
    lemma_flat_concat(p1, p2);
    lemma_flat_concat(p1 + p2, p3);
    lemma_flat_concat(p1 + p2 + p3, p4);
    lemma_flat_concat(p1 + p2 + p3 + p4, p5);
    lemma_run_straight(p1 + p2 + p3 + p4 + p5, p6, m, f);
    lemma_run_straight(p1 + p2 + p3 + p4, p5, m, f);
    lemma_run_straight(p1 + p2 + p3, p4, m, f);
    lemma_run_straight(p1 + p2, p3, m, f);
    lemma_run_straight(p1, p2, m, f);
    lemma_run_single(DEC, m, f);
    let m1 = set_cur(m, (cur(m) - 1) as nat);
    lemma_run_moves(to, m1, f);
    let m2 = shift(m1, to);
    lemma_run_single(INC, m2, f);
    let m3 = set_cur(m2, cur(m2) + 1);
    lemma_run_moves(tmp - to, m3, f);
    let m4 = shift(m3, tmp - to);
    lemma_run_single(INC, m4, f);
    let m5 = set_cur(m4, cur(m4) + 1);
    lemma_run_moves(-tmp, m5, f);
    let m6 = shift(m5, -tmp);
    let e = upd(
        upd(upd(m, m.ptr, (cur(m) - 1) as nat), m.ptr + to, (m.cells)(m.ptr + to) + 1),
        m.ptr + tmp,
        (m.cells)(m.ptr + tmp) + 1,
    );
    assert(m6.cells =~= e.cells);
    assert(m6 == e);
}

/// The copy loop empties the current cell into both cells at offsets `to`
/// and `tmp`.
pub proof fn lemma_copy_loop(to: int, tmp: int, m: Machine, f: nat)
    requires
        to != 0,
        tmp != 0,
        to != tmp,
        f >= cur(m),
    ensures
        run_loop(copy_body(to, tmp), m, f) == Some(doubled(m, to, tmp)),
    decreases cur(m),
{
    if cur(m) == 0 {
        assert(doubled(m, to, tmp).cells =~= m.cells);
    } else {
        lemma_copy_once(to, tmp, m, (f - 1) as nat);
        let m1 = upd(
            upd(upd(m, m.ptr, (cur(m) - 1) as nat), m.ptr + to, (m.cells)(m.ptr + to) + 1),
            m.ptr + tmp,
            (m.cells)(m.ptr + tmp) + 1,
        );
        lemma_copy_loop(to, tmp, m1, (f - 1) as nat);
        assert(doubled(m1, to, tmp).cells =~= doubled(m, to, tmp).cells);
    }
}

} // verus!
