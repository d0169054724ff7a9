//! Line classification and parsing: each cleaned source line becomes an
//! address instruction, a computation instruction or a label declaration.

use vstd::prelude::*;

use crate::error::{Error, ErrorView, LineError, LineErrorView, ParseError};
use crate::text::{
    count_char, find_char, is_digit_char, is_numeric_seq, is_symbol_char, chars_string, count_in,
    find_in, is_digit, is_symbol_character, lemma_count_char_some, lemma_find_char_bounds,
    str_chars, sub_chars,
};

verus! {

/// The 28 recognized computation mnemonics.
#[derive(Debug, Clone, Copy, PartialEq)]
pub enum Comp {
    Zero,
    One,
    MinusOne,
    D,
    A,
    NotD,
    NotA,
    MinusD,
    MinusA,
    DpOne,
    ApOne,
    DmOne,
    AmOne,
    DpA,
    DmA,
    AmD,
    DaA,
    DoA,
    M,
    NotM,
    MinusM,
    MpOne,
    MmOne,
    DpM,
    DmM,
    MmD,
    DaM,
    DoM,
}

/// The architecture-defined 7-bit code of each computation, the
/// memory-select bit followed by the six operation bits.  The `M` family
/// differs from the `A` family only in that high bit.
pub open spec fn comp_code(c: Comp) -> u32 {
    match c {
        Comp::Zero => 42,
        Comp::One => 63,
        Comp::MinusOne => 58,
        Comp::D => 12,
        Comp::A => 48,
        Comp::NotD => 13,
        Comp::NotA => 49,
        Comp::MinusD => 15,
        Comp::MinusA => 51,
        Comp::DpOne => 31,
        Comp::ApOne => 55,
        Comp::DmOne => 14,
        Comp::AmOne => 50,
        Comp::DpA => 2,
        Comp::DmA => 19,
        Comp::AmD => 7,
        Comp::DaA => 0,
        Comp::DoA => 21,
        Comp::M => 112,
        Comp::NotM => 113,
        Comp::MinusM => 115,
        Comp::MpOne => 119,
        Comp::MmOne => 114,
        Comp::DpM => 66,
        Comp::DmM => 83,
        Comp::MmD => 71,
        Comp::DaM => 64,
        Comp::DoM => 85,
    }
}

/// The computation named by a mnemonic, if any.
pub open spec fn comp_of(s: Seq<char>) -> Option<Comp> {
    if s.len() == 1 {
        if s[0] == '0' {
            Some(Comp::Zero)
        } else if s[0] == '1' {
            Some(Comp::One)
        } else if s[0] == 'D' {
            Some(Comp::D)
        } else if s[0] == 'A' {
            Some(Comp::A)
        } else if s[0] == 'M' {
            Some(Comp::M)
        } else {
            None
        }
    } else if s.len() == 2 {
        if s[0] == '-' && s[1] == '1' {
            Some(Comp::MinusOne)
        } else if s[0] == '!' && s[1] == 'D' {
            Some(Comp::NotD)
        } else if s[0] == '!' && s[1] == 'A' {
            Some(Comp::NotA)
        } else if s[0] == '-' && s[1] == 'D' {
            Some(Comp::MinusD)
        } else if s[0] == '-' && s[1] == 'A' {
            Some(Comp::MinusA)
        } else if s[0] == '!' && s[1] == 'M' {
            Some(Comp::NotM)
        } else if s[0] == '-' && s[1] == 'M' {
            Some(Comp::MinusM)
        } else {
            None
        }
    } else if s.len() == 3 {
        if s[0] == 'D' && s[1] == '+' && s[2] == '1' {
            Some(Comp::DpOne)
        } else if s[0] == 'A' && s[1] == '+' && s[2] == '1' {
            Some(Comp::ApOne)
        } else if s[0] == 'D' && s[1] == '-' && s[2] == '1' {
            Some(Comp::DmOne)
        } else if s[0] == 'A' && s[1] == '-' && s[2] == '1' {
            Some(Comp::AmOne)
        } else if s[0] == 'D' && s[1] == '+' && s[2] == 'A' {
            Some(Comp::DpA)
        } else if s[0] == 'D' && s[1] == '-' && s[2] == 'A' {
            Some(Comp::DmA)
        } else if s[0] == 'A' && s[1] == '-' && s[2] == 'D' {
            Some(Comp::AmD)
        } else if s[0] == 'D' && s[1] == '&' && s[2] == 'A' {
            Some(Comp::DaA)
        } else if s[0] == 'D' && s[1] == '|' && s[2] == 'A' {
            Some(Comp::DoA)
        } else if s[0] == 'M' && s[1] == '+' && s[2] == '1' {
            Some(Comp::MpOne)
        } else if s[0] == 'M' && s[1] == '-' && s[2] == '1' {
            Some(Comp::MmOne)
        } else if s[0] == 'D' && s[1] == '+' && s[2] == 'M' {
            Some(Comp::DpM)
        } else if s[0] == 'D' && s[1] == '-' && s[2] == 'M' {
            Some(Comp::DmM)
        } else if s[0] == 'M' && s[1] == '-' && s[2] == 'D' {
            Some(Comp::MmD)
        } else if s[0] == 'D' && s[1] == '&' && s[2] == 'M' {
            Some(Comp::DaM)
        } else if s[0] == 'D' && s[1] == '|' && s[2] == 'M' {
            Some(Comp::DoM)
        } else {
            None
        }
    } else {
        None
    }
}

impl Comp {
    /// The 7-bit code of this computation.
    pub fn code(&self) -> (r: u32)
        ensures
            r == comp_code(*self),
    {
        match self {
            Comp::Zero => 42,
            Comp::One => 63,
            Comp::MinusOne => 58,
            Comp::D => 12,
            Comp::A => 48,
            Comp::NotD => 13,
            Comp::NotA => 49,
            Comp::MinusD => 15,
            Comp::MinusA => 51,
            Comp::DpOne => 31,
            Comp::ApOne => 55,
            Comp::DmOne => 14,
            Comp::AmOne => 50,
            Comp::DpA => 2,
            Comp::DmA => 19,
            Comp::AmD => 7,
            Comp::DaA => 0,
            Comp::DoA => 21,
            Comp::M => 112,
            Comp::NotM => 113,
            Comp::MinusM => 115,
            Comp::MpOne => 119,
            Comp::MmOne => 114,
            Comp::DpM => 66,
            Comp::DmM => 83,
            Comp::MmD => 71,
            Comp::DaM => 64,
            Comp::DoM => 85,
        }
    }

    /// Looks a computation mnemonic up; `Err` carries the unrecognized text.
    pub fn try_from(mnemonic: &str) -> (r: Result<Comp, LineError>)
        ensures
            match comp_of(mnemonic@) {
                Some(c) => r matches Ok(rc) && rc == c,
                None => r matches Err(e) && e@ == LineErrorView::CompError(mnemonic@),
            },
    {
        let v = str_chars(mnemonic);
        match comp_lookup(&v) {
            Some(c) => Ok(c),
            None => Err(LineError::CompError(String::from_str(mnemonic))),
        }
    }
}

/// Looks a computation mnemonic up by its characters.
pub(crate) fn comp_lookup(v: &Vec<char>) -> (r: Option<Comp>)
    ensures
        r == comp_of(v@),
{
    if v.len() == 1 {
        let c0 = v[0];
        if c0 == '0' {
            Some(Comp::Zero)
        } else if c0 == '1' {
            Some(Comp::One)
        } else if c0 == 'D' {
            Some(Comp::D)
        } else if c0 == 'A' {
            Some(Comp::A)
        } else if c0 == 'M' {
            Some(Comp::M)
        } else {
            None
        }
    } else if v.len() == 2 {
        let c0 = v[0];
        let c1 = v[1];
        if c0 == '-' && c1 == '1' {
            Some(Comp::MinusOne)
        } else if c0 == '!' && c1 == 'D' {
            Some(Comp::NotD)
        } else if c0 == '!' && c1 == 'A' {
            Some(Comp::NotA)
        } else if c0 == '-' && c1 == 'D' {
            Some(Comp::MinusD)
        } else if c0 == '-' && c1 == 'A' {
            Some(Comp::MinusA)
        } else if c0 == '!' && c1 == 'M' {
            Some(Comp::NotM)
        } else if c0 == '-' && c1 == 'M' {
            Some(Comp::MinusM)
        } else {
            None
        }
    } else if v.len() == 3 {
        let c0 = v[0];
        let c1 = v[1];
        let c2 = v[2];
        if c0 == 'D' && c1 == '+' && c2 == '1' {
            Some(Comp::DpOne)
        } else if c0 == 'A' && c1 == '+' && c2 == '1' {
            Some(Comp::ApOne)
        } else if c0 == 'D' && c1 == '-' && c2 == '1' {
            Some(Comp::DmOne)
        } else if c0 == 'A' && c1 == '-' && c2 == '1' {
            Some(Comp::AmOne)
        } else if c0 == 'D' && c1 == '+' && c2 == 'A' {
            Some(Comp::DpA)
        } else if c0 == 'D' && c1 == '-' && c2 == 'A' {
            Some(Comp::DmA)
        } else if c0 == 'A' && c1 == '-' && c2 == 'D' {
            Some(Comp::AmD)
        } else if c0 == 'D' && c1 == '&' && c2 == 'A' {
            Some(Comp::DaA)
        } else if c0 == 'D' && c1 == '|' && c2 == 'A' {
            Some(Comp::DoA)
        } else if c0 == 'M' && c1 == '+' && c2 == '1' {
            Some(Comp::MpOne)
        } else if c0 == 'M' && c1 == '-' && c2 == '1' {
            Some(Comp::MmOne)
        } else if c0 == 'D' && c1 == '+' && c2 == 'M' {
            Some(Comp::DpM)
        } else if c0 == 'D' && c1 == '-' && c2 == 'M' {
            Some(Comp::DmM)
        } else if c0 == 'M' && c1 == '-' && c2 == 'D' {
            Some(Comp::MmD)
        } else if c0 == 'D' && c1 == '&' && c2 == 'M' {
            Some(Comp::DaM)
        } else if c0 == 'D' && c1 == '|' && c2 == 'M' {
            Some(Comp::DoM)
        } else {
            None
        }
    } else {
        None
    }
}

/// The 8 destination combinations of the registers A, D and M.
#[derive(Debug, Clone, Copy, PartialEq)]
pub enum Dest {
    Null,
    M,
    D,
    MD,
    A,
    AM,
    AD,
    AMD,
}

/// The 3-bit destination code: one bit per register written (A, D, M).
pub open spec fn dest_code(d: Dest) -> u32 {
    match d {
        Dest::Null => 0,
        Dest::M => 1,
        Dest::D => 2,
        Dest::MD => 3,
        Dest::A => 4,
        Dest::AM => 5,
        Dest::AD => 6,
        Dest::AMD => 7,
    }
}

/// The destination named by a mnemonic, if any; the empty field names
/// `Null`.
pub open spec fn dest_of(s: Seq<char>) -> Option<Dest> {
    if s.len() == 0 {
        Some(Dest::Null)
    } else if s.len() == 1 {
        if s[0] == 'M' {
            Some(Dest::M)
        } else if s[0] == 'D' {
            Some(Dest::D)
        } else if s[0] == 'A' {
            Some(Dest::A)
        } else {
            None
        }
    } else if s.len() == 2 {
        if s[0] == 'M' && s[1] == 'D' {
            Some(Dest::MD)
        } else if s[0] == 'A' && s[1] == 'M' {
            Some(Dest::AM)
        } else if s[0] == 'A' && s[1] == 'D' {
            Some(Dest::AD)
        } else {
            None
        }
    } else if s.len() == 3 {
        if s[0] == 'A' && s[1] == 'M' && s[2] == 'D' {
            Some(Dest::AMD)
        } else {
            None
        }
    } else {
        None
    }
}

impl Dest {
    /// The 3-bit code of this destination.
    pub fn code(&self) -> (r: u32)
        ensures
            r == dest_code(*self),
    {
        match self {
            Dest::Null => 0,
            Dest::M => 1,
            Dest::D => 2,
            Dest::MD => 3,
            Dest::A => 4,
            Dest::AM => 5,
            Dest::AD => 6,
            Dest::AMD => 7,
        }
    }

    /// Looks a destination mnemonic up; `Err` carries the unrecognized text.
    pub fn try_from(mnemonic: &str) -> (r: Result<Dest, LineError>)
        ensures
            match dest_of(mnemonic@) {
                Some(d) => r matches Ok(rd) && rd == d,
                None => r matches Err(e) && e@ == LineErrorView::DestError(mnemonic@),
            },
    {
        let v = str_chars(mnemonic);
        match dest_lookup(&v) {
            Some(d) => Ok(d),
            None => Err(LineError::DestError(String::from_str(mnemonic))),
        }
    }
}

/// Looks a destination mnemonic up by its characters.
pub(crate) fn dest_lookup(v: &Vec<char>) -> (r: Option<Dest>)
    ensures
        r == dest_of(v@),
{
    if v.len() == 0 {
        Some(Dest::Null)
    } else if v.len() == 1 {
        let c0 = v[0];
        if c0 == 'M' {
            Some(Dest::M)
        } else if c0 == 'D' {
            Some(Dest::D)
        } else if c0 == 'A' {
            Some(Dest::A)
        } else {
            None
        }
    } else if v.len() == 2 {
        let c0 = v[0];
        let c1 = v[1];
        if c0 == 'M' && c1 == 'D' {
            Some(Dest::MD)
        } else if c0 == 'A' && c1 == 'M' {
            Some(Dest::AM)
        } else if c0 == 'A' && c1 == 'D' {
            Some(Dest::AD)
        } else {
            None
        }
    } else if v.len() == 3 {
        if v[0] == 'A' && v[1] == 'M' && v[2] == 'D' {
            Some(Dest::AMD)
        } else {
            None
        }
    } else {
        None
    }
}

/// The 8 branch conditions.
#[derive(Debug, Clone, Copy, PartialEq)]
pub enum Jump {
    Null,
    JGT,
    JEQ,
    JGE,
    JLT,
    JNE,
    JLE,
    JMP,
}

/// The 3-bit jump code.
pub open spec fn jump_code(j: Jump) -> u32 {
    match j {
        Jump::Null => 0,
        Jump::JGT => 1,
        Jump::JEQ => 2,
        Jump::JGE => 3,
        Jump::JLT => 4,
        Jump::JNE => 5,
        Jump::JLE => 6,
        Jump::JMP => 7,
    }
}

/// The branch condition named by a mnemonic, if any; the empty field
/// names `Null`.
pub open spec fn jump_of(s: Seq<char>) -> Option<Jump> {
    if s.len() == 0 {
        Some(Jump::Null)
    } else if s.len() == 3 && s[0] == 'J' {
        if s[1] == 'G' && s[2] == 'T' {
            Some(Jump::JGT)
        } else if s[1] == 'E' && s[2] == 'Q' {
            Some(Jump::JEQ)
        } else if s[1] == 'G' && s[2] == 'E' {
            Some(Jump::JGE)
        } else if s[1] == 'L' && s[2] == 'T' {
            Some(Jump::JLT)
        } else if s[1] == 'N' && s[2] == 'E' {
            Some(Jump::JNE)
        } else if s[1] == 'L' && s[2] == 'E' {
            Some(Jump::JLE)
        } else if s[1] == 'M' && s[2] == 'P' {
            Some(Jump::JMP)
        } else {
            None
        }
    } else {
        None
    }
}

impl Jump {
    /// The 3-bit code of this branch condition.
    pub fn code(&self) -> (r: u32)
        ensures
            r == jump_code(*self),
    {
        match self {
            Jump::Null => 0,
            Jump::JGT => 1,
            Jump::JEQ => 2,
            Jump::JGE => 3,
            Jump::JLT => 4,
            Jump::JNE => 5,
            Jump::JLE => 6,
            Jump::JMP => 7,
        }
    }

    /// Looks a jump mnemonic up; `Err` carries the unrecognized text.
    pub fn try_from(mnemonic: &str) -> (r: Result<Jump, LineError>)
        ensures
            match jump_of(mnemonic@) {
                Some(j) => r matches Ok(rj) && rj == j,
                None => r matches Err(e) && e@ == LineErrorView::JumpError(mnemonic@),
            },
    {
        let v = str_chars(mnemonic);
        match jump_lookup(&v) {
            Some(j) => Ok(j),
            None => Err(LineError::JumpError(String::from_str(mnemonic))),
        }
    }
}

/// An ASCII whitespace character: space, tab, line feed, form feed or
/// carriage return.
pub open spec fn is_space_char(c: char) -> bool {
    c == ' ' || c == '\t' || c == '\n' || c == '\x0C' || c == '\r'
}

/// Exec test for an ASCII whitespace character.
fn is_space(c: char) -> (r: bool)
    ensures
        r == is_space_char(c),
{
    c == ' ' || c == '\t' || c == '\n' || c == '\x0C' || c == '\r'
}

/// The characters of `s` that are not whitespace: embedded whitespace
/// is insignificant in the source language and is removed wholesale.
pub open spec fn strip_spaces(s: Seq<char>) -> Seq<char>
    decreases s.len(),
{
    if s.len() == 0 {
        Seq::empty()
    } else if is_space_char(s.last()) {
        strip_spaces(s.drop_last())
    } else {
        strip_spaces(s.drop_last()).push(s.last())
    }
}

/// The characters of `s` that are not the address marker `@`.
pub open spec fn strip_at(s: Seq<char>) -> Seq<char>
    decreases s.len(),
{
    if s.len() == 0 {
        Seq::empty()
    } else if s.last() == '@' {
        strip_at(s.drop_last())
    } else {
        strip_at(s.drop_last()).push(s.last())
    }
}

/// The characters of `s` that are not label delimiters `(` or `)`.
pub open spec fn strip_parens(s: Seq<char>) -> Seq<char>
    decreases s.len(),
{
    if s.len() == 0 {
        Seq::empty()
    } else if s.last() == '(' || s.last() == ')' {
        strip_parens(s.drop_last())
    } else {
        strip_parens(s.drop_last()).push(s.last())
    }
}

/// Where the line comment `//` begins, or the length when there is none.
pub open spec fn comment_start(s: Seq<char>) -> int
    decreases s.len(),
{
    if s.len() < 2 {
        s.len() as int
    } else if s[0] == '/' && s[1] == '/' {
        0
    } else {
        1 + comment_start(s.drop_first())
    }
}

/// `comment_start` is the one position with no `//` before it and `//`
/// (or the end) at it.
pub proof fn lemma_comment_start_at(s: Seq<char>, i: int)
    requires
        0 <= i <= s.len(),
        forall|j: int| 0 <= j < i ==> !(j + 1 < s.len() && #[trigger] s[j] == '/' && s[j + 1] == '/'),
        i < s.len() ==> i + 1 < s.len() && s[i] == '/' && s[i + 1] == '/',
    ensures
        comment_start(s) == i,
    decreases s.len(),
{
    if s.len() < 2 {
        assert(i == s.len());
    } else if s[0] == '/' && s[1] == '/' {
        assert(i == 0);
    } else {
        assert(i >= 1);
        lemma_comment_start_at(s.drop_first(), i - 1);
    }
}

/// `comment_start` stays within the string.
pub proof fn lemma_comment_start_bounds(s: Seq<char>)
    ensures
        0 <= comment_start(s) <= s.len(),
    decreases s.len(),
{
    if s.len() >= 2 && !(s[0] == '/' && s[1] == '/') {
        lemma_comment_start_bounds(s.drop_first());
    }
}

/// A raw source line after cleaning: all whitespace removed, then
/// everything from the first `//` on discarded.
pub open spec fn clean_line(raw: Seq<char>) -> Seq<char> {
    let t = strip_spaces(raw);
    t.take(comment_start(t))
}

/// Removes every whitespace character.
pub(crate) fn strip_spaces_chars(v: &Vec<char>) -> (r: Vec<char>)
    ensures
        r@ == strip_spaces(v@),
{
    let mut r: Vec<char> = Vec::new();
    let mut i: usize = 0;
    while i < v.len()
        invariant
            0 <= i <= v@.len(),
            r@ == strip_spaces(v@.take(i as int)),
        decreases v@.len() - i,
    {
        assert(v@.take(i + 1).drop_last() =~= v@.take(i as int));
        if !is_space(v[i]) {
            r.push(v[i]);
        }
        i = i + 1;
    }
    assert(v@.take(i as int) =~= v@);
    r
}

/// Removes every address marker `@`.
fn strip_at_chars(v: &Vec<char>) -> (r: Vec<char>)
    ensures
        r@ == strip_at(v@),
{
    let mut r: Vec<char> = Vec::new();
    let mut i: usize = 0;
    while i < v.len()
        invariant
            0 <= i <= v@.len(),
            r@ == strip_at(v@.take(i as int)),
        decreases v@.len() - i,
    {
        assert(v@.take(i + 1).drop_last() =~= v@.take(i as int));
        if v[i] != '@' {
            r.push(v[i]);
        }
        i = i + 1;
    }
    assert(v@.take(i as int) =~= v@);
    r
}

/// Removes every label delimiter `(` or `)`.
fn strip_parens_chars(v: &Vec<char>) -> (r: Vec<char>)
    ensures
        r@ == strip_parens(v@),
{
    let mut r: Vec<char> = Vec::new();
    let mut i: usize = 0;
    while i < v.len()
        invariant
            0 <= i <= v@.len(),
            r@ == strip_parens(v@.take(i as int)),
        decreases v@.len() - i,
    {
        assert(v@.take(i + 1).drop_last() =~= v@.take(i as int));
        if v[i] != '(' && v[i] != ')' {
            r.push(v[i]);
        }
        i = i + 1;
    }
    assert(v@.take(i as int) =~= v@);
    r
}

/// Finds where the line comment `//` begins, or the length when there is
/// none.
fn find_comment(v: &Vec<char>) -> (r: usize)
    ensures
        r == comment_start(v@),
{
    let n = v.len();
    let mut i: usize = 0;
    while i + 1 < n
        invariant
            0 <= i <= n,
            n == v@.len(),
            n > 0 ==> i < n,
            forall|j: int|
                0 <= j < i ==> !(j + 1 < v@.len() && #[trigger] v@[j] == '/' && v@[j + 1] == '/'),
        decreases n - i,
    {
        if v[i] == '/' && v[i + 1] == '/' {
            proof {
                lemma_comment_start_at(v@, i as int);
            }
            return i;
        }
        i = i + 1;
    }
    proof {
        lemma_comment_start_at(v@, v@.len() as int);
    }
    n
}

/// Cleans one raw source line: whitespace out, comment cut off.
pub(crate) fn clean_chars(v: &Vec<char>) -> (r: Vec<char>)
    ensures
        r@ == clean_line(v@),
{
    let stripped = strip_spaces_chars(v);
    let cut = find_comment(&stripped);
    proof {
        lemma_comment_start_bounds(stripped@);
    }
    sub_chars(&stripped, 0, cut)
}

/// A symbol is valid when it is non-empty and either all digits (a
/// literal address) or, when its first character is not a digit, made of
/// symbol characters only.
pub open spec fn symbol_ok(s: Seq<char>) -> bool {
    s.len() > 0 && if is_digit_char(s[0]) {
        is_numeric_seq(s)
    } else {
        forall|i: int| 0 <= i < s.len() ==> is_symbol_char(#[trigger] s[i])
    }
}

/// Exec test for symbol validity.
fn is_valid_symbol(v: &Vec<char>) -> (r: bool)
    ensures
        r == symbol_ok(v@),
{
    if v.len() == 0 {
        return false;
    }
    if is_digit(v[0]) {
        crate::text::is_numeric(v)
    } else {
        let mut i: usize = 0;
        while i < v.len()
            invariant
                0 <= i <= v@.len(),
                forall|j: int| 0 <= j < i ==> is_symbol_char(#[trigger] v@[j]),
            decreases v@.len() - i,
        {
            if !is_symbol_character(v[i]) {
                return false;
            }
            i = i + 1;
        }
        true
    }
}

/// Looks a jump mnemonic up by its characters.
pub(crate) fn jump_lookup(v: &Vec<char>) -> (r: Option<Jump>)
    ensures
        r == jump_of(v@),
{
    if v.len() == 0 {
        Some(Jump::Null)
    } else if v.len() == 3 && v[0] == 'J' {
        let c1 = v[1];
        let c2 = v[2];
        if c1 == 'G' && c2 == 'T' {
            Some(Jump::JGT)
        } else if c1 == 'E' && c2 == 'Q' {
            Some(Jump::JEQ)
        } else if c1 == 'G' && c2 == 'E' {
            Some(Jump::JGE)
        } else if c1 == 'L' && c2 == 'T' {
            Some(Jump::JLT)
        } else if c1 == 'N' && c2 == 'E' {
            Some(Jump::JNE)
        } else if c1 == 'L' && c2 == 'E' {
            Some(Jump::JLE)
        } else if c1 == 'M' && c2 == 'P' {
            Some(Jump::JMP)
        } else {
            None
        }
    } else {
        None
    }
}

/// One parsed source line.
#[derive(Debug, PartialEq)]
pub enum AsmLine {
    /// An address instruction `@target`, the target still symbolic.
    ACommand(String),
    /// A computation instruction `dest=comp;jump`.
    CCommand(Comp, Dest, Jump),
    /// A label declaration `(name)`; produces no output word.
    LCommand(String),
}

/// Mathematical model of an `AsmLine`.
pub enum AsmLineView {
    ACommand(Seq<char>),
    CCommand(Comp, Dest, Jump),
    LCommand(Seq<char>),
}

impl View for AsmLine {
    type V = AsmLineView;

    open spec fn view(&self) -> AsmLineView {
        match self {
            AsmLine::ACommand(s) => AsmLineView::ACommand(s@),
            AsmLine::CCommand(c, d, j) => AsmLineView::CCommand(*c, *d, *j),
            AsmLine::LCommand(s) => AsmLineView::LCommand(s@),
        }
    }
}

impl DeepView for AsmLine {
    type V = AsmLineView;

    open spec fn deep_view(&self) -> AsmLineView {
        self@
    }
}

impl AsmLine {
    /// The symbol carried by an address instruction or label declaration.
    pub fn symbol(&self) -> (r: Option<String>)
        ensures
            match self@ {
                AsmLineView::ACommand(s) => r matches Some(t) && t@ == s,
                AsmLineView::LCommand(s) => r matches Some(t) && t@ == s,
                AsmLineView::CCommand(..) => r is None,
            },
    {
        match self {
            AsmLine::ACommand(symbol) => Some(symbol.clone()),
            AsmLine::LCommand(symbol) => Some(symbol.clone()),
            AsmLine::CCommand(..) => None,
        }
    }

    /// The computation of a computation instruction.
    pub fn comp(&self) -> (r: Option<Comp>)
        ensures
            match self@ {
                AsmLineView::CCommand(c, _, _) => r == Some(c),
                _ => r is None,
            },
    {
        match self {
            AsmLine::CCommand(comp, _, _) => Some(*comp),
            _ => None,
        }
    }

    /// The destination of a computation instruction.
    pub fn dest(&self) -> (r: Option<Dest>)
        ensures
            match self@ {
                AsmLineView::CCommand(_, d, _) => r == Some(d),
                _ => r is None,
            },
    {
        match self {
            AsmLine::CCommand(_, dest, _) => Some(*dest),
            _ => None,
        }
    }

    /// The branch condition of a computation instruction.
    pub fn jump(&self) -> (r: Option<Jump>)
        ensures
            match self@ {
                AsmLineView::CCommand(_, _, j) => r == Some(j),
                _ => r is None,
            },
    {
        match self {
            AsmLine::CCommand(_, _, jump) => Some(*jump),
            _ => None,
        }
    }
}

/// What parsing a cleaned, non-empty computation line yields.
///
/// A repeated separator makes the whole line malformed before any field
/// is looked up: more than one `=` is a destination defect, more than
/// one `;` a jump defect, both carrying the whole line.  Otherwise the
/// computation field is looked up first — with exactly one `=` the text
/// after it, otherwise the text before the first `=`, in both cases cut
/// at the first `;` — then the destination field, then the jump field;
/// an empty destination or jump field names the `Null` variant.
pub open spec fn c_command_model(s: Seq<char>) -> Result<AsmLineView, LineErrorView> {
    let eqs = count_char(s, '=');
    let semis = count_char(s, ';');
    if eqs >= 2 {
        Err(LineErrorView::DestError(s))
    } else if semis >= 2 {
        Err(LineErrorView::JumpError(s))
    } else {
        let comp_src = if eqs == 1 {
            s.subrange(find_char(s, '=') + 1, s.len() as int)
        } else {
            s.take(find_char(s, '='))
        };
        let comp_txt = comp_src.take(find_char(comp_src, ';'));
        match comp_of(comp_txt) {
            None => Err(LineErrorView::CompError(comp_txt)),
            Some(comp) => {
                let dest_txt = if eqs == 1 {
                    s.take(find_char(s, '='))
                } else {
                    Seq::empty()
                };
                match dest_of(dest_txt) {
                    None => Err(LineErrorView::DestError(dest_txt)),
                    Some(dest) => {
                        let jump_txt = if semis == 1 {
                            s.subrange(find_char(s, ';') + 1, s.len() as int)
                        } else {
                            Seq::empty()
                        };
                        match jump_of(jump_txt) {
                            None => Err(LineErrorView::JumpError(jump_txt)),
                            Some(jump) => Ok(AsmLineView::CCommand(comp, dest, jump)),
                        }
                    },
                }
            },
        }
    }
}

/// What parsing one cleaned source line yields.
///
/// A line opening with `@` is an address instruction, one opening with
/// `(` a label declaration; for both, the marker characters are removed
/// wholesale, so a symbol with an embedded marker comes out short and is
/// rejected by the length check.  Every other line is a computation
/// instruction.
pub open spec fn line_model(s: Seq<char>) -> Result<AsmLineView, LineErrorView> {
    if s.len() > 0 && s[0] == '@' {
        let sym = strip_at(s);
        if sym.len() == s.len() - 1 && symbol_ok(sym) {
            Ok(AsmLineView::ACommand(sym))
        } else {
            Err(LineErrorView::InvalidSymbolError(sym))
        }
    } else if s.len() > 0 && s[0] == '(' {
        let sym = strip_parens(s);
        if sym.len() == s.len() - 2 && symbol_ok(sym) {
            Ok(AsmLineView::LCommand(sym))
        } else {
            Err(LineErrorView::InvalidSymbolError(sym))
        }
    } else {
        c_command_model(s)
    }
}

/// The view of a line-parsing result.
pub open spec fn line_result_view(r: Result<AsmLine, LineError>) -> Result<
    AsmLineView,
    LineErrorView,
> {
    match r {
        Ok(l) => Ok(l@),
        Err(e) => Err(e@),
    }
}

/// The line parser; it holds no state.
#[derive(Default)]
pub struct Parser {}

impl Parser {
    /// A fresh parser.
    pub fn new() -> Self {
        Self {}
    }

    /// Parses one cleaned source line.
    pub fn parse_line(&self, line: &str) -> (r: Result<AsmLine, LineError>)
        ensures
            line_result_view(r) == line_model(line@),
    {
        let v = str_chars(line);
        self.parse_line_chars(&v)
    }

    /// Parses one cleaned source line given as characters.
    fn parse_line_chars(&self, v: &Vec<char>) -> (r: Result<AsmLine, LineError>)
        ensures
            line_result_view(r) == line_model(v@),
    {
        if v.len() > 0 && v[0] == '@' {
            self.parse_a_command(v)
        } else if v.len() > 0 && v[0] == '(' {
            self.parse_l_command(v)
        } else {
            self.parse_c_command(v)
        }
    }

    /// Parses an address instruction `@target`.
    fn parse_a_command(&self, v: &Vec<char>) -> (r: Result<AsmLine, LineError>)
        requires
            v@.len() > 0,
            v@[0] == '@',
        ensures
            line_result_view(r) == line_model(v@),
    {
        let symbol = strip_at_chars(v);
        if symbol.len() != v.len() - 1 {
            return Err(LineError::InvalidSymbolError(chars_string(&symbol)));
        }
        if is_valid_symbol(&symbol) {
            Ok(AsmLine::ACommand(chars_string(&symbol)))
        } else {
            Err(LineError::InvalidSymbolError(chars_string(&symbol)))
        }
    }

    /// Parses a label declaration `(name)`.
    fn parse_l_command(&self, v: &Vec<char>) -> (r: Result<AsmLine, LineError>)
        requires
            v@.len() > 0,
            v@[0] == '(',
        ensures
            line_result_view(r) == line_model(v@),
    {
        let symbol = strip_parens_chars(v);
        if v.len() < 2 || symbol.len() != v.len() - 2 {
            return Err(LineError::InvalidSymbolError(chars_string(&symbol)));
        }
        if is_valid_symbol(&symbol) {
            Ok(AsmLine::LCommand(chars_string(&symbol)))
        } else {
            Err(LineError::InvalidSymbolError(chars_string(&symbol)))
        }
    }

    /// Parses a computation instruction `dest=comp;jump`.  A repeated
    /// separator makes the whole line malformed, named for its
    /// component, before any field is looked up.
    fn parse_c_command(&self, v: &Vec<char>) -> (r: Result<AsmLine, LineError>)
        ensures
            line_result_view(r) == c_command_model(v@),
    {
        if count_in(v, '=') >= 2 {
            return Err(LineError::DestError(chars_string(v)));
        }
        if count_in(v, ';') >= 2 {
            return Err(LineError::JumpError(chars_string(v)));
        }
        let comp = match self.get_comp(v) {
            Ok(c) => c,
            Err(e) => {
                return Err(e);
            },
        };
        let dest = match self.get_dest(v) {
            Ok(d) => d,
            Err(e) => {
                return Err(e);
            },
        };
        let jump = match self.get_jump(v) {
            Ok(j) => j,
            Err(e) => {
                return Err(e);
            },
        };
        Ok(AsmLine::CCommand(comp, dest, jump))
    }

    /// Extracts and looks up the computation field.
    fn get_comp(&self, v: &Vec<char>) -> (r: Result<Comp, LineError>)
        ensures
            ({
                let eqs = count_char(v@, '=');
                let comp_src = if eqs == 1 {
                    v@.subrange(find_char(v@, '=') + 1, v@.len() as int)
                } else {
                    v@.take(find_char(v@, '='))
                };
                let comp_txt = comp_src.take(find_char(comp_src, ';'));
                match comp_of(comp_txt) {
                    Some(c) => r matches Ok(rc) && rc == c,
                    None => r matches Err(e) && e@ == LineErrorView::CompError(comp_txt),
                }
            }),
    {
        let eqs = count_in(v, '=');
        let e = find_in(v, '=');
        proof {
            lemma_find_char_bounds(v@, '=');
        }
        let n = v.len();
        let comp_src = if eqs == 1 {
            proof {
                lemma_count_char_some(v@, '=');
            }
            sub_chars(v, e + 1, n)
        } else {
            sub_chars(v, 0, e)
        };
        proof {
            lemma_find_char_bounds(comp_src@, ';');
        }
        let sc = find_in(&comp_src, ';');
        let comp_txt = sub_chars(&comp_src, 0, sc);
        assert(comp_txt@ =~= comp_src@.take(find_char(comp_src@, ';')));
        match comp_lookup(&comp_txt) {
            Some(c) => Ok(c),
            None => Err(LineError::CompError(chars_string(&comp_txt))),
        }
    }

    /// Extracts and looks up the destination field.
    fn get_dest(&self, v: &Vec<char>) -> (r: Result<Dest, LineError>)
        requires
            count_char(v@, '=') <= 1,
        ensures
            ({
                let eqs = count_char(v@, '=');
                let dest_txt = if eqs == 1 {
                    v@.take(find_char(v@, '='))
                } else {
                    Seq::empty()
                };
                match dest_of(dest_txt) {
                    Some(d) => r matches Ok(rd) && rd == d,
                    None => r matches Err(e) && e@ == LineErrorView::DestError(dest_txt),
                }
            }),
    {
        let eqs = count_in(v, '=');
        let dest_txt = if eqs == 1 {
            let e = find_in(v, '=');
            proof {
                lemma_find_char_bounds(v@, '=');
            }
            sub_chars(v, 0, e)
        } else {
            Vec::new()
        };
        assert(eqs != 1 ==> dest_txt@ =~= Seq::<char>::empty());
        match dest_lookup(&dest_txt) {
            Some(d) => Ok(d),
            None => Err(LineError::DestError(chars_string(&dest_txt))),
        }
    }

    /// Extracts and looks up the jump field.
    fn get_jump(&self, v: &Vec<char>) -> (r: Result<Jump, LineError>)
        requires
            count_char(v@, ';') <= 1,
        ensures
            ({
                let semis = count_char(v@, ';');
                let jump_txt = if semis == 1 {
                    v@.subrange(find_char(v@, ';') + 1, v@.len() as int)
                } else {
                    Seq::empty()
                };
                match jump_of(jump_txt) {
                    Some(j) => r matches Ok(rj) && rj == j,
                    None => r matches Err(e) && e@ == LineErrorView::JumpError(jump_txt),
                }
            }),
    {
        let semis = count_in(v, ';');
        let n = v.len();
        let jump_txt = if semis == 1 {
            let sp = find_in(v, ';');
            proof {
                lemma_find_char_bounds(v@, ';');
                lemma_count_char_some(v@, ';');
            }
            sub_chars(v, sp + 1, n)
        } else {
            Vec::new()
        };
        assert(semis != 1 ==> jump_txt@ =~= Seq::<char>::empty());
        match jump_lookup(&jump_txt) {
            Some(j) => Ok(j),
            None => Err(LineError::JumpError(chars_string(&jump_txt))),
        }
    }
}

/// What parsing a whole input yields: each raw line is cleaned, blank
/// results are skipped, and every defective line is collected with its
/// index while the well-formed lines are kept in order.
pub open spec fn parse_all(input: Seq<Seq<char>>, idx: int) -> (Seq<AsmLineView>, Seq<
    (int, LineErrorView),
>)
    decreases input.len(),
{
    if input.len() == 0 {
        (Seq::empty(), Seq::empty())
    } else {
        let c = clean_line(input[0]);
        let rest = parse_all(input.drop_first(), idx + 1);
        if c.len() == 0 {
            rest
        } else {
            match line_model(c) {
                Ok(l) => (seq![l] + rest.0, rest.1),
                Err(e) => (rest.0, seq![(idx, e)] + rest.1),
            }
        }
    }
}

/// Parsing yields no more lines than the input has.
pub proof fn lemma_parse_all_len(input: Seq<Seq<char>>, idx: int)
    ensures
        parse_all(input, idx).0.len() <= input.len(),
    decreases input.len(),
{
    if input.len() > 0 {
        lemma_parse_all_len(input.drop_first(), idx + 1);
    }
}


/// Every symbol a well-parsed line carries is valid; in particular it
/// is non-empty.
pub open spec fn line_symbols_ok(l: AsmLineView) -> bool {
    match l {
        AsmLineView::ACommand(s) => symbol_ok(s),
        AsmLineView::LCommand(s) => symbol_ok(s),
        AsmLineView::CCommand(..) => true,
    }
}

/// A line the parser accepts carries only valid symbols.
pub proof fn lemma_line_model_wf(s: Seq<char>)
    ensures
        line_model(s) matches Ok(l) ==> line_symbols_ok(l),
{
}

/// Every line parsing yields carries only valid symbols.
pub proof fn lemma_parse_all_wf(input: Seq<Seq<char>>, idx: int, i: int)
    requires
        0 <= i < parse_all(input, idx).0.len(),
    ensures
        line_symbols_ok(parse_all(input, idx).0[i]),
    decreases input.len(),
{
    if input.len() > 0 {
        let c = clean_line(input[0]);
        let rest = parse_all(input.drop_first(), idx + 1);
        if c.len() == 0 {
            lemma_parse_all_wf(input.drop_first(), idx + 1, i);
        } else {
            match line_model(c) {
                Ok(l) => {
                    if i == 0 {
                        lemma_line_model_wf(c);
                    } else {
                        lemma_parse_all_wf(input.drop_first(), idx + 1, i - 1);
                        assert((seq![l] + rest.0)[i] == rest.0[i - 1]);
                    }
                },
                Err(_) => {
                    lemma_parse_all_wf(input.drop_first(), idx + 1, i);
                },
            }
        }
    }
}


impl Parser {
    /// Parses a whole input, one raw source line per entry.
    ///
    /// Returns the parsed lines in order when every line is well formed,
    /// and otherwise the complete collection of per-line defects, each
    /// with the index of the raw line it was found on.
    pub fn parse(&self, input: &Vec<String>) -> (r: Result<Vec<AsmLine>, Error>)
        ensures
            ({
                let all = parse_all(input.deep_view(), 0);
                match r {
                    Ok(lines) => all.1.len() == 0 && lines.deep_view() == all.0,
                    Err(e) => all.1.len() > 0 && e@ == ErrorView::ParseError(all.1),
                }
            }),
    {
        let ghost whole: Seq<Seq<char>> = input.deep_view();
        let mut parse_error = ParseError::new();
        let mut lines: Vec<AsmLine> = Vec::new();
        let n = input.len();
        let mut index: usize = 0;
        proof {
            assert(whole.subrange(0, n as int) =~= whole);
            assert(lines.deep_view() =~= Seq::<AsmLineView>::empty());
        }
        while index < n
            invariant
                0 <= index <= n,
                n == input@.len(),
                whole == input.deep_view(),
                parse_all(whole, 0).0 =~= lines.deep_view() + parse_all(
                    whole.subrange(index as int, n as int),
                    index as int,
                ).0,
                parse_all(whole, 0).1 =~= parse_error@ + parse_all(
                    whole.subrange(index as int, n as int),
                    index as int,
                ).1,
            decreases n - index,
        {
            proof {
                assert(whole.subrange(index as int, n as int).drop_first() =~= whole.subrange(
                    index + 1,
                    n as int,
                ));
                assert(whole.subrange(index as int, n as int)[0] == input@[index as int]@);
            }
            let raw = str_chars(input[index].as_str());
            let line = clean_chars(&raw);
            if line.len() > 0 {
                match self.parse_line_chars(&line) {
                    Ok(l) => {
                        lines.push(l);
                    },
                    Err(e) => {
                        parse_error.add(e, index);
                    },
                }
            }
            index = index + 1;
        }
        proof {
            assert(whole.subrange(n as int, n as int) =~= Seq::<Seq<char>>::empty());
        }
        if parse_error.is_empty() {
            Ok(lines)
        } else {
            Err(Error::ParseError(parse_error))
        }
    }
}

} // verus!
