//! Character-level helpers shared by the parser, the symbol table and the
//! encoder: digit tests, decimal reading and fixed-width binary rendering.

use vstd::prelude::*;

verus! {

/// A decimal digit `0`..`9`.
pub open spec fn is_digit_char(c: char) -> bool {
    48 <= c as u32 <= 57
}

/// A character allowed in a non-numeric symbol: ASCII alphanumerics and
/// the four punctuation marks underscore, period, dollar sign, colon.
pub open spec fn is_symbol_char(c: char) -> bool {
    ||| is_digit_char(c)
    ||| 97 <= c as u32 <= 122
    ||| 65 <= c as u32 <= 90
    ||| c == '_'
    ||| c == '.'
    ||| c == '$'
    ||| c == ':'
}

/// A non-empty string of decimal digits: such a symbol is a literal
/// address, never entered in the symbol table.
pub open spec fn is_numeric_seq(s: Seq<char>) -> bool {
    s.len() > 0 && forall|i: int| 0 <= i < s.len() ==> is_digit_char(#[trigger] s[i])
}

/// The numeric value of a digit character.
pub open spec fn digit_value(c: char) -> nat {
    (c as u32 - 48) as nat
}

/// The value of a string of decimal digits, most significant first.
pub open spec fn numeric_value(s: Seq<char>) -> nat
    decreases s.len(),
{
    if s.len() == 0 {
        0
    } else {
        numeric_value(s.drop_last()) * 10 + digit_value(s.last())
    }
}

/// Growing a digit string can only grow its value.
pub proof fn lemma_numeric_value_prefix(s: Seq<char>, i: int)
    requires
        0 <= i <= s.len(),
    ensures
        numeric_value(s.take(i)) <= numeric_value(s),
    decreases s.len() - i,
{
    if i < s.len() {
        lemma_numeric_value_prefix(s, i + 1);
        assert(s.take(i + 1).drop_last() =~= s.take(i));
        assert(numeric_value(s.take(i + 1)) == numeric_value(s.take(i)) * 10 + digit_value(
            s.take(i + 1).last(),
        ));
    } else {
        assert(s.take(i) =~= s);
    }
}

/// Exec test for a decimal digit.
pub fn is_digit(c: char) -> (r: bool)
    ensures
        r == is_digit_char(c),
{
    let u = c as u32;
    48 <= u && u <= 57
}

/// Exec test for a character allowed in a non-numeric symbol.
pub fn is_symbol_character(c: char) -> (r: bool)
    ensures
        r == is_symbol_char(c),
{
    let u = c as u32;
    (48 <= u && u <= 57) || (97 <= u && u <= 122) || (65 <= u && u <= 90) || c == '_' || c == '.'
        || c == '$' || c == ':'
}

/// Exec test for a non-empty all-digit character string.
pub fn is_numeric(s: &Vec<char>) -> (r: bool)
    ensures
        r == is_numeric_seq(s@),
{
    if s.len() == 0 {
        return false;
    }
    let mut i: usize = 0;
    while i < s.len()
        invariant
            0 <= i <= s@.len(),
            forall|j: int| 0 <= j < i ==> is_digit_char(#[trigger] s@[j]),
        decreases s@.len() - i,
    {
        if !is_digit(s[i]) {
            return false;
        }
        i = i + 1;
    }
    true
}

/// Reads a digit string as an unsigned number; `None` when the value does
/// not fit in 32 bits.
pub fn read_numeric(s: &Vec<char>) -> (r: Option<u32>)
    requires
        is_numeric_seq(s@),
    ensures
        match r {
            Some(v) => v == numeric_value(s@),
            None => numeric_value(s@) > u32::MAX,
        },
{
    let mut acc: u64 = 0;
    let mut i: usize = 0;
    while i < s.len()
        invariant
            0 <= i <= s@.len(),
            is_numeric_seq(s@),
            acc == numeric_value(s@.take(i as int)),
            acc <= u32::MAX,
        decreases s@.len() - i,
    {
        let d = (s[i] as u32) - 48;
        assert(s@.take(i + 1).drop_last() =~= s@.take(i as int));
        acc = acc * 10 + (d as u64);
        i = i + 1;
        if acc > u32::MAX as u64 {
            proof {
                lemma_numeric_value_prefix(s@, i as int);
            }
            return None;
        }
    }
    assert(s@.take(i as int) =~= s@);
    Some(acc as u32)
}

/// The low `width` bits of `v` as binary text, most significant first.
pub open spec fn bin_string(v: nat, width: nat) -> Seq<char>
    decreases width,
{
    if width == 0 {
        Seq::empty()
    } else {
        bin_string(v / 2, (width - 1) as nat).push(if v % 2 == 1 {
            '1'
        } else {
            '0'
        })
    }
}

/// Binary text is as wide as asked.
pub proof fn lemma_bin_string_len(v: nat, width: nat)
    ensures
        bin_string(v, width).len() == width,
    decreases width,
{
    if width > 0 {
        lemma_bin_string_len(v / 2, (width - 1) as nat);
    }
}

/// Renders the low `width` bits of `v`, most significant first.
pub fn bin_chars(v: u32, width: usize) -> (r: Vec<char>)
    ensures
        r@ == bin_string(v as nat, width as nat),
        r@.len() == width,
    decreases width,
{
    proof {
        lemma_bin_string_len(v as nat, width as nat);
    }
    if width == 0 {
        Vec::new()
    } else {
        let mut r = bin_chars(v / 2, width - 1);
        r.push(if v % 2 == 1 {
            '1'
        } else {
            '0'
        });
        r
    }
}

/// The index of the first occurrence of `c` in `s`, or `s.len()` when
/// `c` does not occur.
pub open spec fn find_char(s: Seq<char>, c: char) -> int
    decreases s.len(),
{
    if s.len() == 0 {
        0
    } else if s[0] == c {
        0
    } else {
        1 + find_char(s.drop_first(), c)
    }
}

/// `find_char` is the one position with no occurrence before it and an
/// occurrence (or the end) at it.
pub proof fn lemma_find_char_at(s: Seq<char>, c: char, i: int)
    requires
        0 <= i <= s.len(),
        forall|j: int| 0 <= j < i ==> s[j] != c,
        i < s.len() ==> s[i] == c,
    ensures
        find_char(s, c) == i,
    decreases s.len(),
{
    if s.len() == 0 {
    } else if s[0] == c {
        assert(i == 0);
    } else {
        assert(i >= 1);
        lemma_find_char_at(s.drop_first(), c, i - 1);
    }
}

/// `find_char` stays within the string.
pub proof fn lemma_find_char_bounds(s: Seq<char>, c: char)
    ensures
        0 <= find_char(s, c) <= s.len(),
        find_char(s, c) < s.len() ==> s[find_char(s, c)] == c,
    decreases s.len(),
{
    if s.len() > 0 && s[0] != c {
        lemma_find_char_bounds(s.drop_first(), c);
    }
}

/// A string without `c` has count zero.
pub proof fn lemma_count_char_zero(s: Seq<char>, c: char)
    requires
        forall|j: int| 0 <= j < s.len() ==> s[j] != c,
    ensures
        count_char(s, c) == 0,
    decreases s.len(),
{
    if s.len() > 0 {
        lemma_count_char_zero(s.drop_last(), c);
    }
}

/// Everything before `find_char` differs from `c`.
pub proof fn lemma_find_char_first(s: Seq<char>, c: char)
    ensures
        forall|j: int| 0 <= j < find_char(s, c) ==> s[j] != c,
    decreases s.len(),
{
    if s.len() > 0 && s[0] != c {
        lemma_find_char_first(s.drop_first(), c);
        lemma_find_char_bounds(s.drop_first(), c);
        assert forall|j: int| 0 <= j < find_char(s, c) implies s[j] != c by {
            if j > 0 {
                assert(s[j] == s.drop_first()[j - 1]);
            }
        }
    }
}

/// When `c` is counted at all, `find_char` lands inside the string.
pub proof fn lemma_count_char_some(s: Seq<char>, c: char)
    requires
        count_char(s, c) > 0,
    ensures
        find_char(s, c) < s.len(),
{
    lemma_find_char_bounds(s, c);
    lemma_find_char_first(s, c);
    if find_char(s, c) == s.len() {
        lemma_count_char_zero(s, c);
    }
}

/// How many times `c` occurs in `s`.
pub open spec fn count_char(s: Seq<char>, c: char) -> nat
    decreases s.len(),
{
    if s.len() == 0 {
        0
    } else {
        count_char(s.drop_last(), c) + if s.last() == c {
            1nat
        } else {
            0nat
        }
    }
}

/// Finds the first occurrence of `c`, or the length when there is none.
pub fn find_in(v: &Vec<char>, c: char) -> (r: usize)
    ensures
        r == find_char(v@, c),
{
    let mut i: usize = 0;
    while i < v.len()
        invariant
            0 <= i <= v@.len(),
            forall|j: int| 0 <= j < i ==> v@[j] != c,
        decreases v@.len() - i,
    {
        if v[i] == c {
            proof {
                lemma_find_char_at(v@, c, i as int);
            }
            return i;
        }
        i = i + 1;
    }
    proof {
        lemma_find_char_at(v@, c, i as int);
    }
    i
}

/// Counts the occurrences of `c`.
pub fn count_in(v: &Vec<char>, c: char) -> (r: usize)
    ensures
        r == count_char(v@, c),
{
    let mut n: usize = 0;
    let mut i: usize = 0;
    while i < v.len()
        invariant
            0 <= i <= v@.len(),
            n == count_char(v@.take(i as int), c),
            n <= i,
        decreases v@.len() - i,
    {
        assert(v@.take(i + 1).drop_last() =~= v@.take(i as int));
        if v[i] == c {
            n = n + 1;
        }
        i = i + 1;
    }
    assert(v@.take(i as int) =~= v@);
    n
}

/// Copies the characters of `v` between `from` and `to` into a new vector.
pub fn sub_chars(v: &Vec<char>, from: usize, to: usize) -> (r: Vec<char>)
    requires
        from <= to <= v@.len(),
    ensures
        r@ == v@.subrange(from as int, to as int),
{
    let mut r: Vec<char> = Vec::new();
    let mut i: usize = from;
    while i < to
        invariant
            from <= i <= to <= v@.len(),
            r@ =~= v@.subrange(from as int, i as int),
        decreases to - i,
    {
        r.push(v[i]);
        i = i + 1;
    }
    assert(r@ =~= v@.subrange(from as int, to as int));
    r
}

/// Copies the characters of a string slice into a vector.
pub fn str_chars(s: &str) -> (r: Vec<char>)
    ensures
        r@ == s@,
{
    let n = s.unicode_len();
    let mut r: Vec<char> = Vec::new();
    let mut i: usize = 0;
    while i < n
        invariant
            0 <= i <= n,
            n == s@.len(),
            r@ =~= s@.take(i as int),
        decreases n - i,
    {
        r.push(s.get_char(i));
        i = i + 1;
    }
    assert(r@ =~= s@);
    r
}

/// Relies on `String::push`: appends one character to the string.
#[verifier::external_body]
fn push_char(s: &mut String, c: char)
    ensures
        final(s)@ == old(s)@.push(c),
{
    s.push(c)
}

/// Builds a string out of a vector of characters.
pub fn chars_string(v: &Vec<char>) -> (r: String)
    ensures
        r@ == v@,
{
    let mut r = String::new();
    let mut i: usize = 0;
    while i < v.len()
        invariant
            0 <= i <= v@.len(),
            r@ =~= v@.take(i as int),
        decreases v@.len() - i,
    {
        push_char(&mut r, v[i]);
        i = i + 1;
    }
    assert(r@ =~= v@);
    r
}

} // verus!
