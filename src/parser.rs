//! The grammar of the register-machine language, stated over characters, and
//! a parser proved to follow it.
use vstd::prelude::*;

use crate::instruction::Instruction;

verus! {

/// Why a program text was refused. Positions count characters from the start
/// of the text.
#[derive(Clone, Copy, Debug, PartialEq, Eq, Structural)]
pub enum ParseError {
    /// A word that names no instruction, from its first position up to (not
    /// including) its last.
    UnknownMnemonic(usize, usize),
    /// An operand at this position does not follow its literal syntax.
    MalformedOperand(usize),
    /// The text ends where an operand is required.
    TruncatedInput,
}

/// Classes of characters that the grammar scans runs of.
#[derive(Clone, Copy, Debug, PartialEq, Eq, Structural)]
pub enum CharClass {
    Space,
    Letter,
    Digit,
    /// Anything but a newline.
    InLine,
}

pub open spec fn in_class(c: char, k: CharClass) -> bool {
    match k {
        CharClass::Space => c == ' ' || c == '\t' || c == '\r' || c == '\n',
        CharClass::Letter => ('a' <= c && c <= 'z') || ('A' <= c && c <= 'Z'),
        CharClass::Digit => '0' <= c && c <= '9',
        CharClass::InLine => c != '\n',
    }
}

/// End of the run of characters of class `k` that starts at `i`.
pub open spec fn class_end(s: Seq<char>, i: int, k: CharClass) -> int
    decreases s.len() - i,
{
    if 0 <= i < s.len() && in_class(s[i], k) {
        class_end(s, i + 1, k)
    } else {
        i
    }
}

pub open spec fn digit_of(c: char) -> nat {
    (c as nat - '0' as nat) as nat
}

/// Value of the decimal digits `s[i..j]`.
pub open spec fn digits_value(s: Seq<char>, i: int, j: int) -> nat
    decreases j - i,
{
    if j <= i {
        0
    } else {
        digits_value(s, i, j - 1) * 10 + digit_of(s[j - 1])
    }
}

/// An unsigned operand at `i`: a quoted character, a quoted `\n` escape, or
/// decimal digits that fit in 32 bits. Gives the value and the position after.
pub open spec fn u32_param_at(s: Seq<char>, i: int) -> Result<(u32, int), ParseError> {
    if i >= s.len() {
        Err(ParseError::TruncatedInput)
    } else if s[i] == '\'' {
        if i + 2 < s.len() && s[i + 2] == '\'' {
            Ok((s[i + 1] as u32, i + 3))
        } else {
            escape_at(s, i)
        }
    } else {
        let j = class_end(s, i, CharClass::Digit);
        if j > i && digits_value(s, i, j) <= u32::MAX {
            Ok((digits_value(s, i, j) as u32, j))
        } else {
            Err(ParseError::MalformedOperand(i as usize))
        }
    }
}

/// A quoted escape at `i`; only `\n` is known.
pub open spec fn escape_at(s: Seq<char>, i: int) -> Result<(u32, int), ParseError> {
    if i + 3 < s.len() && s[i] == '\'' && s[i + 1] == '\\' && s[i + 3] == '\'' && s[i + 2] == 'n' {
        Ok((10u32, i + 4))
    } else {
        Err(ParseError::MalformedOperand(i as usize))
    }
}

/// A signed decimal operand at `i`, with an optional `+` or `-`, that fits in
/// 32 bits.
pub open spec fn i32_param_at(s: Seq<char>, i: int) -> Result<(i32, int), ParseError> {
    if i >= s.len() {
        Err(ParseError::TruncatedInput)
    } else {
        let k = if s[i] == '-' || s[i] == '+' {
            i + 1
        } else {
            i
        };
        let j = class_end(s, k, CharClass::Digit);
        let v: int = if s[i] == '-' {
            -digits_value(s, k, j)
        } else {
            digits_value(s, k, j) as int
        };
        if j > k && i32::MIN <= v <= i32::MAX {
            Ok((v as i32, j))
        } else {
            Err(ParseError::MalformedOperand(i as usize))
        }
    }
}

/// The two operands of a copy at `i`, separated by a comma.
pub open spec fn copy_params_at(s: Seq<char>, i: int) -> Result<(Instruction, int), ParseError> {
    match i32_param_at(s, i) {
        Err(e) => Err(e),
        Ok((to, q)) => {
            let c = class_end(s, q, CharClass::Space);
            if c >= s.len() {
                Err(ParseError::TruncatedInput)
            } else if s[c] != ',' {
                Err(ParseError::MalformedOperand(c as usize))
            } else {
                match i32_param_at(s, class_end(s, c + 1, CharClass::Space)) {
                    Err(e) => Err(e),
                    Ok((tmp, r)) => Ok((Instruction::CopyValue(to, tmp), r)),
                }
            }
        },
    }
}

pub open spec fn word_input() -> Seq<char> {
    seq!['I', 'N', 'P', 'U', 'T']
}

pub open spec fn word_print() -> Seq<char> {
    seq!['P', 'R', 'I', 'N', 'T']
}

pub open spec fn word_write() -> Seq<char> {
    seq!['W', 'R', 'I', 'T', 'E']
}

pub open spec fn word_move() -> Seq<char> {
    seq!['M', 'O', 'V', 'E']
}

pub open spec fn word_moveval() -> Seq<char> {
    seq!['M', 'O', 'V', 'E', 'V', 'A', 'L']
}

pub open spec fn word_copy() -> Seq<char> {
    seq!['C', 'O', 'P', 'Y']
}

/// One instruction or comment starting at `i`, a character that is no space.
/// `None` stands for a comment, which runs to the end of its line.
pub open spec fn instruction_at(s: Seq<char>, i: int) -> Result<(Option<Instruction>, int), ParseError> {
    let j = class_end(s, i, CharClass::Letter);
    if j == i {
        if s[i] == ';' {
            Ok((None, class_end(s, i + 1, CharClass::InLine)))
        } else {
            Err(ParseError::UnknownMnemonic(i as usize, (i + 1) as usize))
        }
    } else {
        let w = s.subrange(i, j);
        let p = class_end(s, j, CharClass::Space);
        if w == word_input() {
            Ok((Some(Instruction::Input), j))
        } else if w == word_print() {
            Ok((Some(Instruction::Print), j))
        } else if w == word_write() {
            match u32_param_at(s, p) {
                Ok((n, q)) => Ok((Some(Instruction::Write(n)), q)),
                Err(e) => Err(e),
            }
        } else if w == word_move() {
            match i32_param_at(s, p) {
                Ok((n, q)) => Ok((Some(Instruction::Move(n)), q)),
                Err(e) => Err(e),
            }
        } else if w == word_moveval() {
            match i32_param_at(s, p) {
                Ok((n, q)) => Ok((Some(Instruction::MoveValue(n)), q)),
                Err(e) => Err(e),
            }
        } else if w == word_copy() {
            match copy_params_at(s, p) {
                Ok((c, q)) => Ok((Some(c), q)),
                Err(e) => Err(e),
            }
        } else {
            Err(ParseError::UnknownMnemonic(i as usize, j as usize))
        }
    }
}

/// The instructions of `s` from position `i` on, or the first error.
pub open spec fn program_from(s: Seq<char>, i: int) -> Result<Seq<Instruction>, ParseError>
    decreases s.len() - i,
{
    let p = class_end(s, i, CharClass::Space);
    if i < 0 || p >= s.len() {
        Ok(Seq::empty())
    } else {
        match instruction_at(s, p) {
            Err(e) => Err(e),
            Ok((o, q)) => if i <= p < q <= s.len() {
                match program_from(s, q) {
                    Err(e) => Err(e),
                    Ok(rest) => match o {
                        Some(x) => Ok(seq![x] + rest),
                        None => Ok(rest),
                    },
                }
            } else {
                Ok(Seq::empty())
            },
        }
    }
}

/// The program that the text `s` spells, or the first error in it.
pub open spec fn program_of(s: Seq<char>) -> Result<Seq<Instruction>, ParseError> {
    program_from(s, 0)
}

pub open spec fn result_view(r: Result<Vec<Instruction>, ParseError>) -> Result<
    Seq<Instruction>,
    ParseError,
> {
    match r {
        Ok(v) => Ok(v@),
        Err(e) => Err(e),
    }
}


/// The result of a step that reads one item, with its end position as an
/// integer.
pub open spec fn lift<T>(r: Result<(T, usize), ParseError>) -> Result<(T, int), ParseError> {
    match r {
        Ok((v, q)) => Ok((v, q as int)),
        Err(e) => Err(e),
    }
}

pub proof fn lemma_class_end(s: Seq<char>, i: int, k: CharClass)
    requires
        0 <= i <= s.len(),
    ensures
        i <= class_end(s, i, k) <= s.len(),
        forall|x: int| i <= x < class_end(s, i, k) ==> in_class(#[trigger] s[x], k),
        class_end(s, i, k) < s.len() ==> !in_class(s[class_end(s, i, k)], k),
    decreases s.len() - i,
{
    if i < s.len() && in_class(s[i], k) {
        lemma_class_end(s, i + 1, k);
    }
}

/// A run of characters of class `k` from `i` up to `j`, where one of another
/// class or the end follows, ends at `j`.
pub proof fn lemma_class_run(s: Seq<char>, i: int, j: int, k: CharClass)
    requires
        0 <= i <= j <= s.len(),
        forall|x: int| i <= x < j ==> in_class(#[trigger] s[x], k),
        j == s.len() || !in_class(s[j], k),
    ensures
        class_end(s, i, k) == j,
    decreases j - i,
{
    if i < j {
        lemma_class_run(s, i + 1, j, k);
    }
}

proof fn lemma_digits_mono(s: Seq<char>, k: int, e: int, j: int)
    requires
        k <= e <= j,
    ensures
        digits_value(s, k, e) <= digits_value(s, k, j),
    decreases j - e,
{
    if e < j {
        lemma_digits_mono(s, k, e, j - 1);
        assert(digits_value(s, k, j) == digits_value(s, k, j - 1) * 10 + digit_of(s[j - 1]));
    }
}

fn is_in_class(c: char, k: CharClass) -> (r: bool)
    ensures
        r == in_class(c, k),
{
    match k {
        CharClass::Space => c == ' ' || c == '\t' || c == '\r' || c == '\n',
        CharClass::Letter => ('a' <= c && c <= 'z') || ('A' <= c && c <= 'Z'),
        CharClass::Digit => '0' <= c && c <= '9',
        CharClass::InLine => c != '\n',
    }
}

/// End of the run of characters of class `k` that starts at `i`.
pub fn scan(s: &Vec<char>, i: usize, k: CharClass) -> (r: usize)
    requires
        i <= s@.len(),
    ensures
        r as int == class_end(s@, i as int, k),
        i <= r <= s@.len(),
{
    let mut j: usize = i;
    while j < s.len() && is_in_class(s[j], k)
        invariant
            i <= j <= s@.len(),
            class_end(s@, i as int, k) == class_end(s@, j as int, k),
        decreases s@.len() - j,
    {
        j = j + 1;
    }
    j
}

/// Reads the decimal digits at `k`. `None` when there are none, or when their
/// value exceeds `limit`.
fn read_number(s: &Vec<char>, k: usize, limit: u64) -> (r: Option<(u64, usize)>)
    requires
        k <= s@.len(),
        limit <= 0x1_0000_0000,
    ensures
        match r {
            Some((v, e)) => {
                &&& e as int == class_end(s@, k as int, CharClass::Digit)
                &&& e > k
                &&& e <= s@.len()
                &&& v as nat == digits_value(s@, k as int, e as int)
                &&& v <= limit
            },
            None => class_end(s@, k as int, CharClass::Digit) == k || digits_value(
                s@,
                k as int,
                class_end(s@, k as int, CharClass::Digit),
            ) > limit,
        },
{
    let mut e: usize = k;
    let mut acc: u64 = 0;
    while e < s.len() && is_in_class(s[e], CharClass::Digit)
        invariant
            k <= e <= s@.len(),
            class_end(s@, k as int, CharClass::Digit) == class_end(s@, e as int, CharClass::Digit),
            acc as nat == digits_value(s@, k as int, e as int),
            acc <= limit,
            limit <= 0x1_0000_0000,
        decreases s@.len() - e,
    {
        let d = (s[e] as u32 - '0' as u32) as u64;
        let next = acc * 10 + d;
        assert(digits_value(s@, k as int, e + 1) == digits_value(s@, k as int, e as int) * 10
            + digit_of(s@[e as int]));
        if next > limit {
            proof {
                lemma_class_end(s@, e + 1, CharClass::Digit);
                lemma_digits_mono(
                    s@,
                    k as int,
                    e + 1,
                    class_end(s@, k as int, CharClass::Digit),
                );
            }
            return None;
        }
        acc = next;
        e = e + 1;
    }
    if e == k {
        None
    } else {
        Some((acc, e))
    }
}

/// Parses a quoted escape at `i`; only `\n` is known.
pub fn parse_escape(s: &Vec<char>, i: usize) -> (r: Result<(u32, usize), ParseError>)
    requires
        i < s@.len(),
    ensures
        lift(r) == escape_at(s@, i as int),
{
    let n = s.len();
    if n - i > 3 && s[i] == '\'' && s[i + 1] == '\\' && s[i + 3] == '\'' && s[i + 2] == 'n' {
        Ok((10u32, i + 4))
    } else {
        Err(ParseError::MalformedOperand(i))
    }
}

/// Parses an unsigned operand at `i`.
pub fn parse_u32_param(s: &Vec<char>, i: usize) -> (r: Result<(u32, usize), ParseError>)
    requires
        i <= s@.len(),
    ensures
        lift(r) == u32_param_at(s@, i as int),
        r matches Ok((_, q)) ==> i < q <= s@.len(),
{
    let n = s.len();
    if i >= n {
        Err(ParseError::TruncatedInput)
    } else if s[i] == '\'' {
        if n - i > 2 && s[i + 2] == '\'' {
            Ok((s[i + 1] as u32, i + 3))
        } else {
            parse_escape(s, i)
        }
    } else {
        match read_number(s, i, 0xffff_ffff) {
            Some((v, e)) => Ok((v as u32, e)),
            None => Err(ParseError::MalformedOperand(i)),
        }
    }
}

/// Parses a signed operand at `i`.
pub fn parse_i32_param(s: &Vec<char>, i: usize) -> (r: Result<(i32, usize), ParseError>)
    requires
        i <= s@.len(),
    ensures
        lift(r) == i32_param_at(s@, i as int),
        r matches Ok((_, q)) ==> i < q <= s@.len(),
{
    if i >= s.len() {
        return Err(ParseError::TruncatedInput);
    }
    let neg = s[i] == '-';
    let k = if s[i] == '-' || s[i] == '+' {
        i + 1
    } else {
        i
    };
    match read_number(s, k, 0x8000_0000) {
        Some((v, e)) => {
            if neg {
                Ok(((-(v as i64)) as i32, e))
            } else if v <= 0x7fff_ffff {
                Ok((v as i32, e))
            } else {
                Err(ParseError::MalformedOperand(i))
            }
        },
        None => Err(ParseError::MalformedOperand(i)),
    }
}

/// Parses the two comma-separated operands of a copy at `i`.
fn parse_copy_params(s: &Vec<char>, i: usize) -> (r: Result<(Instruction, usize), ParseError>)
    requires
        i <= s@.len(),
    ensures
        lift(r) == copy_params_at(s@, i as int),
        r matches Ok((_, q)) ==> i < q <= s@.len(),
{
    match parse_i32_param(s, i) {
        Err(e) => Err(e),
        Ok((to, q)) => {
            let c = scan(s, q, CharClass::Space);
            if c >= s.len() {
                Err(ParseError::TruncatedInput)
            } else if s[c] != ',' {
                Err(ParseError::MalformedOperand(c))
            } else {
                let d = scan(s, c + 1, CharClass::Space);
                match parse_i32_param(s, d) {
                    Err(e) => Err(e),
                    Ok((tmp, r)) => Ok((Instruction::CopyValue(to, tmp), r)),
                }
            }
        },
    }
}

/// Whether `s[i..j]` is the word `w`.
fn word_is(s: &Vec<char>, i: usize, j: usize, w: &Vec<char>) -> (r: bool)
    requires
        i <= j <= s@.len(),
    ensures
        r == (s@.subrange(i as int, j as int) == w@),
{
    if j - i != w.len() {
        return false;
    }
    let mut x: usize = 0;
    while x < w.len()
        invariant
            j - i == w@.len(),
            i <= j <= s@.len(),
            x <= w@.len(),
            forall|y: int| 0 <= y < x ==> s@[i + y] == w@[y],
        decreases w@.len() - x,
    {
        if s[i + x] != w[x] {
            assert(s@.subrange(i as int, j as int)[x as int] != w@[x as int]);
            return false;
        }
        x = x + 1;
    }
    assert(s@.subrange(i as int, j as int) =~= w@);
    true
}

/// End of the word at `i`: a run of letters.
pub fn parse_word(s: &Vec<char>, i: usize) -> (r: usize)
    requires
        i <= s@.len(),
    ensures
        r as int == class_end(s@, i as int, CharClass::Letter),
        i <= r <= s@.len(),
{
    scan(s, i, CharClass::Letter)
}

/// Parses one instruction, or a comment (`None`), at `i`.
pub fn parse_instruction(s: &Vec<char>, i: usize) -> (r: Result<(Option<Instruction>, usize), ParseError>)
    requires
        i < s@.len(),
    ensures
        lift(r) == instruction_at(s@, i as int),
        r matches Ok((_, q)) ==> i < q <= s@.len(),
{
    let n = s.len();
    let j = parse_word(s, i);
    if j == i {
        if s[i] == ';' {
            let e = scan(s, i + 1, CharClass::InLine);
            return Ok((None, e));
        } else {
            return Err(ParseError::UnknownMnemonic(i, i + 1));
        }
    }
    let p = scan(s, j, CharClass::Space);
    if word_is(s, i, j, &vec!['I', 'N', 'P', 'U', 'T']) {
        Ok((Some(Instruction::Input), j))
    } else if word_is(s, i, j, &vec!['P', 'R', 'I', 'N', 'T']) {
        Ok((Some(Instruction::Print), j))
    } else if word_is(s, i, j, &vec!['W', 'R', 'I', 'T', 'E']) {
        match parse_u32_param(s, p) {
            Ok((n, q)) => Ok((Some(Instruction::Write(n)), q)),
            Err(e) => Err(e),
        }
    } else if word_is(s, i, j, &vec!['M', 'O', 'V', 'E']) {
        match parse_i32_param(s, p) {
            Ok((n, q)) => Ok((Some(Instruction::Move(n)), q)),
            Err(e) => Err(e),
        }
    } else if word_is(s, i, j, &vec!['M', 'O', 'V', 'E', 'V', 'A', 'L']) {
        match parse_i32_param(s, p) {
            Ok((n, q)) => Ok((Some(Instruction::MoveValue(n)), q)),
            Err(e) => Err(e),
        }
    } else if word_is(s, i, j, &vec!['C', 'O', 'P', 'Y']) {
        match parse_copy_params(s, p) {
            Ok((c, q)) => Ok((Some(c), q)),
            Err(e) => Err(e),
        }
    } else {
        Err(ParseError::UnknownMnemonic(i, j))
    }
}


pub open spec fn prepend(a: Seq<Instruction>, r: Result<Seq<Instruction>, ParseError>) -> Result<
    Seq<Instruction>,
    ParseError,
> {
    match r {
        Ok(rest) => Ok(a + rest),
        Err(e) => Err(e),
    }
}

/// Parses a program given as characters: every instruction in order, comments
/// left out, or the first error.
pub fn parse_chars(s: &Vec<char>) -> (r: Result<Vec<Instruction>, ParseError>)
    ensures
        result_view(r) == program_of(s@),
{
    let mut out: Vec<Instruction> = Vec::new();
    let mut pos: usize = 0;
    proof {
        match program_from(s@, 0) {
            Ok(x) => assert(Seq::<Instruction>::empty() + x =~= x),
            Err(_) => {},
        }
    }
    while pos <= s.len()
        invariant
            pos <= s@.len(),
            program_of(s@) == prepend(out@, program_from(s@, pos as int)),
        decreases s@.len() - pos,
    {
        let p = scan(s, pos, CharClass::Space);
        if p >= s.len() {
            assert(out@ + Seq::<Instruction>::empty() =~= out@);
            return Ok(out);
        }
        match parse_instruction(s, p) {
            Err(e) => {
                return Err(e);
            },
            Ok((o, q)) => {
                let ghost before = out@;
                match o {
                    Some(x) => {
                        out.push(x);
                        proof {
                            match program_from(s@, q as int) {
                                Ok(rest) => assert(before + (seq![x] + rest) =~= out@ + rest),
                                Err(_) => {},
                            }
                        }
                    },
                    None => {},
                }
                pos = q;
            },
        }
    }
    Ok(out)
}

/// Every character of `s`, in order.
pub fn chars_of(s: &str) -> (r: Vec<char>)
    ensures
        r@ == s@,
{
    let mut out: Vec<char> = Vec::new();
    for c in it: s.chars()
        invariant
            out@ == it.history(),
    {
        out.push(c);
    }
    proof {
        assert(out@ =~= s@);
    }
    out
}

/// Parses a program text: every instruction in order, comments left out, or
/// the first error.
pub fn parse(s: &str) -> (r: Result<Vec<Instruction>, ParseError>)
    ensures
        result_view(r) == program_of(s@),
{
    let cs = chars_of(s);
    parse_chars(&cs)
}

} // verus!
