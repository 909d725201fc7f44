//! Unsigned decimal numerals: what a run of digits denotes, how to read one
//! into a `u32`, and how a number is written.

use vstd::prelude::*;
use vstd::string::StringExecFns;

verus! {

/// Whether `c` is one of the ten ASCII digits.
pub open spec fn is_digit(c: char) -> bool {
    '0' <= c <= '9'
}

/// The number that the digit `c` stands for.
pub open spec fn digit_value(c: char) -> nat
    recommends
        is_digit(c),
{
    (c as nat - '0' as nat) as nat
}

/// A numeral is a non-empty run of digits: no sign, no blanks, no separators.
pub open spec fn is_numeral(s: Seq<char>) -> bool {
    &&& s.len() > 0
    &&& forall|i: int| 0 <= i < s.len() ==> is_digit(#[trigger] s[i])
}

/// The number that a run of digits denotes in base ten. Leading zeros do not
/// change it; the empty run denotes zero.
pub open spec fn numeral_value(s: Seq<char>) -> nat
    decreases s.len(),
{
    if s.len() == 0 {
        0
    } else {
        numeral_value(s.drop_last()) * 10 + digit_value(s.last())
    }
}

/// What reading `s` as a `u32` gives: its value where `s` is a numeral that
/// fits, and nothing otherwise.
pub open spec fn read_u32(s: Seq<char>) -> Option<u32> {
    if is_numeral(s) && numeral_value(s) <= u32::MAX {
        Some(numeral_value(s) as u32)
    } else {
        None
    }
}

/// The digit that stands for `d`.
pub open spec fn digit_of(d: nat) -> char
    recommends
        d < 10,
{
    seq!['0', '1', '2', '3', '4', '5', '6', '7', '8', '9'][d as int]
}

/// How `n` is written in base ten: without leading zeros, and zero as `0`.
pub open spec fn numeral_of(n: nat) -> Seq<char>
    decreases n,
{
    if n < 10 {
        seq![digit_of(n)]
    } else {
        numeral_of(n / 10).push(digit_of(n % 10))
    }
}

/// Writing a number and reading it back gives the number: what `numeral_of`
/// writes is a numeral, and it denotes `n`.
pub proof fn lemma_numeral_of_reads_back(n: nat)
    ensures
        is_numeral(numeral_of(n)),
        numeral_value(numeral_of(n)) == n,
    decreases n,
{
    let s = numeral_of(n);
    if n < 10 {
        assert(s.drop_last() =~= Seq::<char>::empty());
        assert(numeral_value(s.drop_last()) == 0);
    } else {
        lemma_numeral_of_reads_back(n / 10);
        assert(s.drop_last() =~= numeral_of(n / 10));
    }
}

/// A run of digits denotes at least as much as each of its prefixes.
pub proof fn lemma_prefix_value_le(s: Seq<char>, n: int)
    requires
        0 <= n <= s.len(),
    ensures
        numeral_value(s.take(n)) <= numeral_value(s),
    decreases s.len(),
{
    if n == s.len() {
        assert(s.take(n) =~= s);
    } else {
        lemma_prefix_value_le(s.drop_last(), n);
        assert(s.drop_last().take(n) =~= s.take(n));
    }
}

/// Reads a run of characters as an unsigned decimal number.
pub fn parse_u32(text: &[char]) -> (value: Option<u32>)
    ensures
        value == read_u32(text@),
{
    let n = text.len();
    if n == 0 {
        return None;
    }
    let mut acc: u32 = 0;
    let mut i: usize = 0;
    while i < n
        invariant
            n == text@.len(),
            0 <= i <= n,
            forall|j: int| 0 <= j < i ==> is_digit(#[trigger] text@[j]),
            acc == numeral_value(text@.take(i as int)),
        decreases n - i,
    {
        let c = text[i];
        if !('0' <= c && c <= '9') {
            return None;
        }
        let d: u32 = c as u32 - '0' as u32;
        proof {
            assert(text@.take(i + 1).drop_last() =~= text@.take(i as int));
            assert(numeral_value(text@.take(i + 1)) == acc * 10 + d);
            lemma_prefix_value_le(text@, i + 1);
        }
        if acc > (u32::MAX - d) / 10 {
            return None;
        }
        acc = acc * 10 + d;
        i += 1;
    }
    proof {
        assert(text@.take(n as int) =~= text@);
    }
    Some(acc)
}

/// The text of one digit.
fn digit_text(d: u64) -> (text: &'static str)
    requires
        d < 10,
    ensures
        text@ == seq![digit_of(d as nat)],
{
    proof {
        reveal_strlit("0");
        reveal_strlit("1");
        reveal_strlit("2");
        reveal_strlit("3");
        reveal_strlit("4");
        reveal_strlit("5");
        reveal_strlit("6");
        reveal_strlit("7");
        reveal_strlit("8");
        reveal_strlit("9");
    }
    let text = match d {
        0 => "0",
        1 => "1",
        2 => "2",
        3 => "3",
        4 => "4",
        5 => "5",
        6 => "6",
        7 => "7",
        8 => "8",
        _ => "9",
    };
    assert(text@ =~= seq![digit_of(d as nat)]);
    text
}

/// Writes `n` in base ten.
pub fn format_u64(n: u64) -> (text: String)
    ensures
        text@ == numeral_of(n as nat),
    decreases n,
{
    if n < 10 {
        String::from_str(digit_text(n))
    } else {
        let mut text = format_u64(n / 10);
        text.append(digit_text(n % 10));
        assert(text@ =~= numeral_of(n as nat));
        text
    }
}

} // verus!
