//! Reading a text after a prefix: everything is found at the same places,
//! moved by the prefix's length. From it, a comment line changes nothing.
use vstd::prelude::*;

use crate::instruction::Instruction;
use crate::parser::{
    class_end, copy_params_at, digits_value, escape_at, i32_param_at, in_class, instruction_at,
    lemma_class_run, program_from, program_of, u32_param_at, CharClass, ParseError,
};

verus! {

/// An error found `d` characters further on.
pub open spec fn shift_err(e: ParseError, d: int) -> ParseError {
    match e {
        ParseError::UnknownMnemonic(a, b) => ParseError::UnknownMnemonic(
            (a + d) as usize,
            (b + d) as usize,
        ),
        ParseError::MalformedOperand(a) => ParseError::MalformedOperand((a + d) as usize),
        ParseError::TruncatedInput => ParseError::TruncatedInput,
    }
}

/// A parse result with its error positions moved by `d`.
pub open spec fn shifted(r: Result<Seq<Instruction>, ParseError>, d: int) -> Result<
    Seq<Instruction>,
    ParseError,
> {
    match r {
        Ok(p) => Ok(p),
        Err(e) => Err(shift_err(e, d)),
    }
}

pub open spec fn shifted_at<T>(r: Result<(T, int), ParseError>, d: int) -> Result<
    (T, int),
    ParseError,
> {
    match r {
        Ok((v, q)) => Ok((v, q + d)),
        Err(e) => Err(shift_err(e, d)),
    }
}

proof fn lemma_index(pre: Seq<char>, s: Seq<char>, x: int)
    requires
        0 <= x < s.len(),
    ensures
        (pre + s)[pre.len() + x] == s[x],
{
}

proof fn lemma_class_shift(pre: Seq<char>, s: Seq<char>, i: int, k: CharClass)
    requires
        0 <= i <= s.len(),
    ensures
        class_end(pre + s, pre.len() + i, k) == pre.len() + class_end(s, i, k),
    decreases s.len() - i,
{
    if i < s.len() {
        lemma_index(pre, s, i);
        if in_class(s[i], k) {
            lemma_class_shift(pre, s, i + 1, k);
        }
    }
}

proof fn lemma_class_bound(pre: Seq<char>, s: Seq<char>, i: int, k: CharClass)
    requires
        0 <= i <= s.len(),
    ensures
        class_end(pre + s, pre.len() + i, k) == pre.len() + class_end(s, i, k),
        i <= class_end(s, i, k) <= s.len(),
{
    lemma_class_shift(pre, s, i, k);
    crate::parser::lemma_class_end(s, i, k);
}

proof fn lemma_digits_shift(pre: Seq<char>, s: Seq<char>, i: int, j: int)
    requires
        0 <= i <= j <= s.len(),
    ensures
        digits_value(pre + s, pre.len() + i, pre.len() + j) == digits_value(s, i, j),
    decreases j - i,
{
    if i < j {
        lemma_index(pre, s, j - 1);
        lemma_digits_shift(pre, s, i, j - 1);
    }
}

proof fn lemma_u32_shift(pre: Seq<char>, s: Seq<char>, i: int)
    requires
        0 <= i <= s.len(),
        pre.len() + s.len() <= usize::MAX,
    ensures
        u32_param_at(pre + s, pre.len() + i) == shifted_at(u32_param_at(s, i), pre.len() as int),
{
    let t = pre + s;
    let d = pre.len() as int;
    if i < s.len() {
        lemma_index(pre, s, i);
        if i + 1 < s.len() {
            lemma_index(pre, s, i + 1);
        }
        if i + 2 < s.len() {
            lemma_index(pre, s, i + 2);
        }
        if i + 3 < s.len() {
            lemma_index(pre, s, i + 3);
        }
        assert(escape_at(t, d + i) == shifted_at(escape_at(s, i), d));
        lemma_class_bound(pre, s, i, CharClass::Digit);
        lemma_digits_shift(pre, s, i, class_end(s, i, CharClass::Digit));
    }
}

proof fn lemma_i32_shift(pre: Seq<char>, s: Seq<char>, i: int)
    requires
        0 <= i <= s.len(),
        pre.len() + s.len() <= usize::MAX,
    ensures
        i32_param_at(pre + s, pre.len() + i) == shifted_at(i32_param_at(s, i), pre.len() as int),
{
    if i < s.len() {
        lemma_index(pre, s, i);
        let k = if s[i] == '-' || s[i] == '+' {
            i + 1
        } else {
            i
        };
        lemma_class_bound(pre, s, k, CharClass::Digit);
        lemma_digits_shift(pre, s, k, class_end(s, k, CharClass::Digit));
    }
}

proof fn lemma_copy_shift(pre: Seq<char>, s: Seq<char>, i: int)
    requires
        0 <= i <= s.len(),
        pre.len() + s.len() <= usize::MAX,
    ensures
        copy_params_at(pre + s, pre.len() + i) == shifted_at(
            copy_params_at(s, i),
            pre.len() as int,
        ),
{
    let d = pre.len() as int;
    lemma_i32_shift(pre, s, i);
    match i32_param_at(s, i) {
        Ok((_, q)) => {
            if q <= s.len() {
                lemma_class_bound(pre, s, q, CharClass::Space);
                let c = class_end(s, q, CharClass::Space);
                if c < s.len() {
                    lemma_index(pre, s, c);
                    lemma_class_bound(pre, s, c + 1, CharClass::Space);
                    lemma_i32_shift(pre, s, class_end(s, c + 1, CharClass::Space));
                }
            }
        },
        Err(_) => {},
    }
    lemma_i32_bound(s, i);
}

proof fn lemma_i32_bound(s: Seq<char>, i: int)
    requires
        0 <= i <= s.len(),
    ensures
        i32_param_at(s, i) matches Ok((_, q)) ==> q <= s.len(),
{
    if i < s.len() {
        let k = if s[i] == '-' || s[i] == '+' {
            i + 1
        } else {
            i
        };
        crate::parser::lemma_class_end(s, k, CharClass::Digit);
    }
}

proof fn lemma_instruction_shift(pre: Seq<char>, s: Seq<char>, i: int)
    requires
        0 <= i < s.len(),
        pre.len() + s.len() <= usize::MAX,
    ensures
        instruction_at(pre + s, pre.len() + i) == shifted_at(
            instruction_at(s, i),
            pre.len() as int,
        ),
{
    let t = pre + s;
    let d = pre.len() as int;
    lemma_index(pre, s, i);
    lemma_class_bound(pre, s, i, CharClass::Letter);
    let j = class_end(s, i, CharClass::Letter);
    lemma_class_bound(pre, s, i + 1, CharClass::InLine);
    lemma_class_bound(pre, s, j, CharClass::Space);
    assert(t.subrange(d + i, d + j) =~= s.subrange(i, j));
    let p = class_end(s, j, CharClass::Space);
    lemma_u32_shift(pre, s, p);
    lemma_i32_shift(pre, s, p);
    lemma_copy_shift(pre, s, p);
}

/// Reading `s` after a prefix finds the same instructions, and an error at a
/// position moved by the prefix's length.
pub proof fn lemma_program_shift(pre: Seq<char>, s: Seq<char>, i: int)
    requires
        0 <= i <= s.len(),
        pre.len() + s.len() <= usize::MAX,
    ensures
        program_from(pre + s, pre.len() + i) == shifted(program_from(s, i), pre.len() as int),
    decreases s.len() - i,
{
    let d = pre.len() as int;
    lemma_class_bound(pre, s, i, CharClass::Space);
    let p = class_end(s, i, CharClass::Space);
    if p < s.len() {
        lemma_instruction_shift(pre, s, p);
        match instruction_at(s, p) {
            Ok((_, q)) => {
                if i <= p < q <= s.len() {
                    lemma_program_shift(pre, s, q);
                }
            },
            Err(_) => {},
        }
    }
}

/// A comment line (`;` and any text up to a newline) before a program changes
/// nothing of what is read, but moves the positions in an error by its length.
pub proof fn comment_line_is_ignored(c: Seq<char>, s: Seq<char>)
    requires
        forall|x: int| 0 <= x < c.len() ==> #[trigger] c[x] != '\n',
        c.len() + 2 + s.len() <= usize::MAX,
    ensures
        program_of(seq![';'] + c + seq!['\n'] + s) == shifted(program_of(s), c.len() as int + 2),
{
    let pre = seq![';'] + c + seq!['\n'];
    let t = pre + s;
    let d = pre.len() as int;
    assert(seq![';'] + c + seq!['\n'] + s == t);
    let e = c.len() as int + 1;
    assert(t[0] == ';');
    assert(t[e] == '\n');
    assert forall|x: int| 1 <= x < e implies in_class(#[trigger] t[x], CharClass::InLine) by {
        assert(t[x] == c[x - 1]);
    }
    lemma_class_run(t, 0, 0, CharClass::Space);
    lemma_class_run(t, 0, 0, CharClass::Letter);
    lemma_class_run(t, 1, e, CharClass::InLine);
    assert(instruction_at(t, 0) == Ok::<(Option<Instruction>, int), ParseError>((None, e)));
    lemma_class_bound(pre, s, 0, CharClass::Space);
    let p = class_end(t, d, CharClass::Space);
    assert(class_end(t, e, CharClass::Space) == p);
    lemma_program_shift(pre, s, 0);
    assert(program_from(t, e) == program_from(t, d));
}

} // verus!
