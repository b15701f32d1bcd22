//! The canonical text of an instruction, and the proof that the grammar reads
//! it back as the same instruction.
use vstd::prelude::*;

use crate::instruction::Instruction;
use crate::parser::{
    class_end, digit_of, lemma_class_run, digits_value, i32_param_at, in_class, instruction_at, program_from,
    program_of, u32_param_at, word_copy, word_input, word_move, word_moveval, word_print,
    word_write, CharClass,
};

verus! {

pub open spec fn digit_char(d: nat) -> char {
    if d == 0 {
        '0'
    } else if d == 1 {
        '1'
    } else if d == 2 {
        '2'
    } else if d == 3 {
        '3'
    } else if d == 4 {
        '4'
    } else if d == 5 {
        '5'
    } else if d == 6 {
        '6'
    } else if d == 7 {
        '7'
    } else if d == 8 {
        '8'
    } else {
        '9'
    }
}

/// Decimal digits of `n`, most significant first, without leading zeros.
pub open spec fn dec(n: nat) -> Seq<char>
    decreases n,
{
    if n < 10 {
        seq![digit_char(n)]
    } else {
        dec(n / 10) + seq![digit_char(n % 10)]
    }
}

/// Decimal text of a signed number: a `-` before the digits of a negative one.
pub open spec fn sdec(n: int) -> Seq<char> {
    if n < 0 {
        seq!['-'] + dec((-n) as nat)
    } else {
        dec(n as nat)
    }
}

/// The canonical text of an instruction.
pub open spec fn render(i: Instruction) -> Seq<char> {
    match i {
        Instruction::Input => word_input(),
        Instruction::Print => word_print(),
        Instruction::Write(n) => word_write() + seq![' '] + dec(n as nat),
        Instruction::Move(n) => word_move() + seq![' '] + sdec(n as int),
        Instruction::MoveValue(n) => word_moveval() + seq![' '] + sdec(n as int),
        Instruction::CopyValue(to, tmp) => word_copy() + seq![' '] + sdec(to as int) + seq![',', ' ']
            + sdec(tmp as int),
    }
}

proof fn lemma_dec(n: nat)
    ensures
        dec(n).len() >= 1,
        forall|x: int| 0 <= x < dec(n).len() ==> in_class(#[trigger] dec(n)[x], CharClass::Digit),
    decreases n,
{
    if n >= 10 {
        lemma_dec(n / 10);
    }
}

proof fn lemma_dec_value(s: Seq<char>, k: int, n: nat)
    requires
        0 <= k,
        k + dec(n).len() <= s.len(),
        s.subrange(k, k + dec(n).len()) == dec(n),
    ensures
        digits_value(s, k, k + dec(n).len()) == n,
    decreases n,
{
    let len = dec(n).len() as int;
    assert(s[k + len - 1] == s.subrange(k, k + len)[len - 1]);
    assert(digits_value(s, k, k + len) == digits_value(s, k, k + len - 1) * 10 + digit_of(
        s[k + len - 1],
    ));
    if n >= 10 {
        let h = dec(n / 10);
        assert(s.subrange(k, k + h.len()) =~= s.subrange(k, k + len).subrange(0, h.len() as int));
        assert(dec(n).subrange(0, h.len() as int) =~= h);
        lemma_dec_value(s, k, n / 10);
        assert(h.len() == len - 1);
        assert(dec(n)[len - 1] == digit_char(n % 10));
        assert(digit_of(digit_char(n % 10)) == n % 10);
        assert((n / 10) * 10 + n % 10 == n) by (nonlinear_arith);
    } else {
        assert(len == 1);
        assert(digits_value(s, k, k) == 0);
        assert(dec(n)[0] == digit_char(n));
        assert(digit_of(digit_char(n)) == n);
    }
}

proof fn lemma_u32_param(s: Seq<char>, i: int, n: u32)
    requires
        0 <= i,
        i + dec(n as nat).len() == s.len(),
        s.subrange(i, s.len() as int) == dec(n as nat),
    ensures
        u32_param_at(s, i) == Ok::<(u32, int), crate::parser::ParseError>((n, s.len() as int)),
{
    let d = dec(n as nat);
    lemma_dec(n as nat);
    assert forall|x: int| i <= x < s.len() implies in_class(#[trigger] s[x], CharClass::Digit) by {
        assert(s[x] == d[x - i]);
    }
    assert(s[i] == d[0]);
    lemma_class_run(s, i, s.len() as int, CharClass::Digit);
    lemma_dec_value(s, i, n as nat);
}

proof fn lemma_i32_param(s: Seq<char>, i: int, n: i32)
    requires
        0 <= i,
        i + sdec(n as int).len() == s.len() || (i + sdec(n as int).len() < s.len() && !in_class(
            s[i + sdec(n as int).len()],
            CharClass::Digit,
        )),
        i + sdec(n as int).len() <= s.len(),
        s.subrange(i, i + sdec(n as int).len()) == sdec(n as int),
    ensures
        i32_param_at(s, i) == Ok::<(i32, int), crate::parser::ParseError>(
            (n, i + sdec(n as int).len()),
        ),
{
    let t = sdec(n as int);
    let e = i + t.len();
    let k = if n < 0 {
        i + 1
    } else {
        i
    };
    let m: nat = if n < 0 {
        (-n) as nat
    } else {
        n as nat
    };
    let d = dec(m);
    lemma_dec(m);
    assert(t == (if n < 0 {
        seq!['-'] + d
    } else {
        d
    }));
    assert(e == k + d.len());
    assert(s[i] == t[0]);
    assert forall|x: int| k <= x < e implies in_class(#[trigger] s[x], CharClass::Digit) by {
        assert(s[x] == t[x - i]);
        if n < 0 {
            assert(t[x - i] == d[x - k]);
        }
    }
    lemma_class_run(s, k, e, CharClass::Digit);
    assert(s.subrange(k, e) =~= d) by {
        assert forall|x: int| 0 <= x < d.len() implies s.subrange(k, e)[x] == d[x] by {
            assert(s[k + x] == t[k + x - i]);
        }
    }
    lemma_dec_value(s, k, m);
}

proof fn lemma_sdec_start(n: int)
    ensures
        sdec(n).len() >= 1,
        !in_class(sdec(n)[0], CharClass::Space),
        !in_class(sdec(n)[0], CharClass::Letter),
{
    if n < 0 {
        lemma_dec((-n) as nat);
    } else {
        lemma_dec(n as nat);
    }
}


/// A text that starts with one instruction running to its end spells the
/// program of that instruction alone.
proof fn lemma_program_single(s: Seq<char>, i: Instruction)
    requires
        s.len() > 0,
        !in_class(s[0], CharClass::Space),
        instruction_at(s, 0) == Ok::<(Option<Instruction>, int), crate::parser::ParseError>(
            (Some(i), s.len() as int),
        ),
    ensures
        program_of(s) == Ok::<Seq<Instruction>, crate::parser::ParseError>(seq![i]),
{
    lemma_class_run(s, 0, 0, CharClass::Space);
    lemma_class_run(s, s.len() as int, s.len() as int, CharClass::Space);
    assert(program_from(s, s.len() as int) == Ok::<Seq<Instruction>, crate::parser::ParseError>(
        Seq::empty(),
    ));
    assert(seq![i] + Seq::<Instruction>::empty() =~= seq![i]);
}

/// The word at the start of `s` is `w`, followed by a space or the end.
proof fn lemma_word(s: Seq<char>, w: Seq<char>)
    requires
        w.len() > 0,
        w.len() <= s.len(),
        s.subrange(0, w.len() as int) == w,
        forall|x: int| 0 <= x < w.len() ==> in_class(#[trigger] w[x], CharClass::Letter),
        w.len() == s.len() || s[w.len() as int] == ' ',
    ensures
        class_end(s, 0, CharClass::Letter) == w.len(),
        s.subrange(0, class_end(s, 0, CharClass::Letter)) == w,
        !in_class(s[0], CharClass::Space),
{
    assert forall|x: int| 0 <= x < w.len() implies in_class(#[trigger] s[x], CharClass::Letter) by {
        assert(s[x] == s.subrange(0, w.len() as int)[x]);
    }
    assert(s[0] == s.subrange(0, w.len() as int)[0]);
    lemma_class_run(s, 0, w.len() as int, CharClass::Letter);
}

proof fn lemma_word_facts()
    ensures
        word_print() != word_input(),
        word_write() != word_input(),
        word_write() != word_print(),
        word_copy() != word_move(),
{
    assert(word_print()[0] != word_input()[0]);
    assert(word_write()[0] != word_input()[0]);
    assert(word_write()[0] != word_print()[0]);
    assert(word_copy()[0] != word_move()[0]);
}

proof fn lemma_read_write(n: u32)
    ensures
        !in_class(render(Instruction::Write(n))[0], CharClass::Space),
        instruction_at(render(Instruction::Write(n)), 0) == Ok::<
            (Option<Instruction>, int),
            crate::parser::ParseError,
        >((Some(Instruction::Write(n)), render(Instruction::Write(n)).len() as int)),
{
    let s = render(Instruction::Write(n));
    let w = word_write();
    let d = dec(n as nat);
    lemma_word_facts();
    assert(s.subrange(0, 5) =~= w);
    assert(s[5] == ' ');
    lemma_word(s, w);
    lemma_dec(n as nat);
    assert(s[6] == d[0]);
    lemma_class_run(s, 5, 6, CharClass::Space);
    assert(s.subrange(6, s.len() as int) =~= d);
    lemma_u32_param(s, 6, n);
}

proof fn lemma_read_shift(i: Instruction)
    requires
        i is Move || i is MoveValue,
    ensures
        !in_class(render(i)[0], CharClass::Space),
        instruction_at(render(i), 0) == Ok::<(Option<Instruction>, int), crate::parser::ParseError>(
            (Some(i), render(i).len() as int),
        ),
{
    let s = render(i);
    lemma_word_facts();
    let (w, n) = match i {
        Instruction::Move(n) => (word_move(), n),
        Instruction::MoveValue(n) => (word_moveval(), n),
        _ => (word_move(), 0i32),
    };
    let l = w.len() as int;
    let d = sdec(n as int);
    assert(s.subrange(0, l) =~= w);
    assert(s[l] == ' ');
    lemma_word(s, w);
    lemma_sdec_start(n as int);
    assert(s[l + 1] == d[0]);
    lemma_class_run(s, l, l + 1, CharClass::Space);
    assert(s.subrange(l + 1, s.len() as int) =~= d);
    lemma_i32_param(s, l + 1, n);
}

proof fn lemma_read_copy(to: i32, tmp: i32)
    ensures
        !in_class(render(Instruction::CopyValue(to, tmp))[0], CharClass::Space),
        instruction_at(render(Instruction::CopyValue(to, tmp)), 0) == Ok::<
            (Option<Instruction>, int),
            crate::parser::ParseError,
        >(
            (
                Some(Instruction::CopyValue(to, tmp)),
                render(Instruction::CopyValue(to, tmp)).len() as int,
            ),
        ),
{
    let s = render(Instruction::CopyValue(to, tmp));
    let w = word_copy();
    let a = sdec(to as int);
    let b = sdec(tmp as int);
    let la = a.len() as int;
    lemma_word_facts();
    assert(s.subrange(0, 4) =~= w);
    assert(s[4] == ' ');
    lemma_word(s, w);
    lemma_sdec_start(to as int);
    lemma_sdec_start(tmp as int);
    assert(s[5] == a[0]);
    lemma_class_run(s, 4, 5, CharClass::Space);
    assert(s[5 + la] == ',');
    assert(s.subrange(5, 5 + la) =~= a);
    lemma_i32_param(s, 5, to);
    lemma_class_run(s, 5 + la, 5 + la, CharClass::Space);
    assert(s[6 + la] == ' ');
    assert(s[7 + la] == b[0]);
    lemma_class_run(s, 6 + la, 7 + la, CharClass::Space);
    assert(s.subrange(7 + la, s.len() as int) =~= b);
    lemma_i32_param(s, 7 + la, tmp);
}

/// Reading the canonical text of an instruction gives back that instruction,
/// alone.
pub proof fn parse_render_round_trip(i: Instruction)
    ensures
        program_of(render(i)) == Ok::<Seq<Instruction>, crate::parser::ParseError>(seq![i]),
{
    let s = render(i);
    lemma_word_facts();
    match i {
        Instruction::Input => {
            assert(s.subrange(0, 5) =~= word_input());
            lemma_word(s, word_input());
        },
        Instruction::Print => {
            assert(s.subrange(0, 5) =~= word_print());
            lemma_word(s, word_print());
        },
        Instruction::Write(n) => lemma_read_write(n),
        Instruction::Move(_) => lemma_read_shift(i),
        Instruction::MoveValue(_) => lemma_read_shift(i),
        Instruction::CopyValue(to, tmp) => lemma_read_copy(to, tmp),
    }
    lemma_program_single(s, i);
}

} // verus!
