//! The notation `<number>d<sides>` and its parser.

use crate::decimal::{is_digit, lemma_numeral_of_reads_back, numeral_of, parse_u32, read_u32};
use vstd::prelude::*;
use vstd::slice::slice_subrange;
use vstd::std_specs::iter::IteratorSpec;
use vstd::string::{StrSliceExecFns, StringExecFns};

verus! {

/// The character that stands between the number of dice and their sides.
/// Only the lower-case letter separates.
pub const SEPARATOR: char = 'd';

/// A roll: `number` dice of `sides` sides each. Any two numbers make one;
/// zero dice, and dice of no or one side, are written and read like the rest.
#[derive(Debug, Clone, Copy, PartialEq, Eq, Structural)]
pub struct Dice {
    pub number: u32,
    pub sides: u32,
}

/// Why a token is no dice notation. Each reason keeps the text that it is
/// about, for the message.
#[derive(Debug, PartialEq, Eq)]
pub enum ParseError {
    /// The token does not fall into two parts at a separator: it holds none,
    /// or more than one. Keeps the whole token.
    InvalidFormat(String),
    /// The part before the separator is no number. Keeps that part.
    InvalidCount(String),
    /// The part after the separator is no number. Keeps that part.
    InvalidSides(String),
}

/// A [`ParseError`] as contracts see it, with the kept text as a sequence of
/// characters.
pub enum Rejection {
    InvalidFormat(Seq<char>),
    InvalidCount(Seq<char>),
    InvalidSides(Seq<char>),
}

impl View for ParseError {
    type V = Rejection;

    open spec fn view(&self) -> Rejection {
        match self {
            ParseError::InvalidFormat(token) => Rejection::InvalidFormat(token@),
            ParseError::InvalidCount(left) => Rejection::InvalidCount(left@),
            ParseError::InvalidSides(right) => Rejection::InvalidSides(right@),
        }
    }
}

impl Rejection {
    /// The message for the user: what is wrong, and the rejected text
    /// between single quotes.
    pub open spec fn message(self) -> Seq<char> {
        match self {
            Rejection::InvalidFormat(token) => "Invalid dice format '"@ + token + "'"@,
            Rejection::InvalidCount(left) => "Invalid number of dice '"@ + left + "'"@,
            Rejection::InvalidSides(right) => "Invalid number of sides '"@ + right + "'"@,
        }
    }
}

impl ParseError {
    /// The message for the user: what is wrong, and the rejected text
    /// between single quotes.
    pub fn message(&self) -> (text: String)
        ensures
            text@ == self@.message(),
    {
        let (lead, rejected) = match self {
            ParseError::InvalidFormat(token) => ("Invalid dice format '", token),
            ParseError::InvalidCount(left) => ("Invalid number of dice '", left),
            ParseError::InvalidSides(right) => ("Invalid number of sides '", right),
        };
        let mut text = String::from_str(lead);
        text.append(rejected.as_str());
        text.append("'");
        text
    }
}

/// How a roll is written: the number of dice, the separator, the sides.
pub open spec fn notation_of(dice: Dice) -> Seq<char> {
    numeral_of(dice.number as nat) + seq![SEPARATOR] + numeral_of(dice.sides as nat)
}

/// Whether `token` holds the separator at `at` and nowhere else.
pub open spec fn splits_at(token: Seq<char>, at: int) -> bool {
    &&& 0 <= at < token.len()
    &&& token[at] == SEPARATOR
    &&& forall|j: int| 0 <= j < token.len() && j != at ==> token[j] != SEPARATOR
}

/// Whether `token` falls into exactly two parts at the separator.
pub open spec fn has_two_parts(token: Seq<char>) -> bool {
    exists|at: int| splits_at(token, at)
}

/// Where the one separator of `token` stands.
pub open spec fn split_point(token: Seq<char>) -> int
    recommends
        has_two_parts(token),
{
    choose|at: int| splits_at(token, at)
}

/// What a token means. A token with exactly one separator is split there;
/// the part before it is looked at first, so that a token with two bad parts
/// is rejected for its number of dice.
pub open spec fn parse_spec(token: Seq<char>) -> Result<Dice, Rejection> {
    if !has_two_parts(token) {
        Err(Rejection::InvalidFormat(token))
    } else {
        let at = split_point(token);
        let left = token.subrange(0, at);
        let right = token.subrange(at + 1, token.len() as int);
        match (read_u32(left), read_u32(right)) {
            (None, _) => Err(Rejection::InvalidCount(left)),
            (Some(_), None) => Err(Rejection::InvalidSides(right)),
            (Some(number), Some(sides)) => Ok(Dice { number, sides }),
        }
    }
}

/// A token has at most one split point.
pub proof fn lemma_split_point_unique(token: Seq<char>, at: int)
    requires
        splits_at(token, at),
    ensures
        has_two_parts(token),
        split_point(token) == at,
{
    let chosen = split_point(token);
    assert(splits_at(token, chosen));
}

/// Two separators leave no split point.
pub proof fn lemma_two_separators(token: Seq<char>, first: int, second: int)
    requires
        0 <= first < second < token.len(),
        token[first] == SEPARATOR,
        token[second] == SEPARATOR,
    ensures
        !has_two_parts(token),
{
    if has_two_parts(token) {
        let at = split_point(token);
        assert(splits_at(token, at));
        assert(first != at || second != at);
    }
}

/// Two numbers with the separator between them are read as a roll of the
/// first number of dice with the second number of sides.
pub proof fn lemma_parse_joined(left: Seq<char>, right: Seq<char>)
    requires
        read_u32(left) is Some,
        read_u32(right) is Some,
    ensures
        parse_spec(left + seq![SEPARATOR] + right) == Ok::<Dice, Rejection>(
            Dice { number: read_u32(left)->0, sides: read_u32(right)->0 },
        ),
{
    let token = left + seq![SEPARATOR] + right;
    let at = left.len() as int;
    assert forall|j: int| 0 <= j < token.len() && j != at implies token[j] != SEPARATOR by {
        if j < at {
            assert(is_digit(left[j]));
        } else {
            assert(is_digit(right[j - at - 1]));
        }
    }
    lemma_split_point_unique(token, at);
    assert(token.subrange(0, at) =~= left);
    assert(token.subrange(at + 1, token.len() as int) =~= right);
}

/// What is accepted is two numbers with the separator between them, and
/// nothing else.
pub proof fn lemma_parse_accepts_only_notation(token: Seq<char>)
    requires
        parse_spec(token) is Ok,
    ensures
        exists|left: Seq<char>, right: Seq<char>|
            {
                &&& token == left + seq![SEPARATOR] + right
                &&& #[trigger] read_u32(left) is Some
                &&& #[trigger] read_u32(right) is Some
            },
{
    let at = split_point(token);
    assert(splits_at(token, at));
    let left = token.subrange(0, at);
    let right = token.subrange(at + 1, token.len() as int);
    assert(token =~= left + seq![SEPARATOR] + right);
    assert(read_u32(left) is Some && read_u32(right) is Some);
}

/// Every roll is read back from its own notation.
pub proof fn lemma_parse_reads_notation(dice: Dice)
    ensures
        parse_spec(notation_of(dice)) == Ok::<Dice, Rejection>(dice),
{
    lemma_numeral_of_reads_back(dice.number as nat);
    lemma_numeral_of_reads_back(dice.sides as nat);
    lemma_parse_joined(numeral_of(dice.number as nat), numeral_of(dice.sides as nat));
}

/// The characters of `text`, in order.
fn chars_of(text: &str) -> (chars: Vec<char>)
    ensures
        chars@ == text@,
{
    let mut chars: Vec<char> = Vec::new();
    let mut rest = text.chars();
    loop
        invariant
            rest.obeys_prophetic_iter_laws(),
            rest.decrease() is Some,
            chars@ + rest.remaining() == text@,
        decreases rest.decrease()->0,
    {
        match rest.next() {
            Some(c) => {
                chars.push(c);
            },
            None => {
                return chars;
            },
        }
    }
}

/// Looks for the one separator of `token`.
fn find_split(token: &[char]) -> (at: Option<usize>)
    ensures
        match at {
            Some(at) => splits_at(token@, at as int),
            None => !has_two_parts(token@),
        },
{
    let n = token.len();
    let mut found: Option<usize> = None;
    let mut i: usize = 0;
    while i < n
        invariant
            n == token@.len(),
            0 <= i <= n,
            match found {
                Some(at) => {
                    &&& at < i
                    &&& token@[at as int] == SEPARATOR
                    &&& forall|j: int| 0 <= j < i && j != at ==> token@[j] != SEPARATOR
                },
                None => forall|j: int| 0 <= j < i ==> token@[j] != SEPARATOR,
            },
        decreases n - i,
    {
        if token[i] == SEPARATOR {
            match found {
                Some(at) => {
                    proof {
                        lemma_two_separators(token@, at as int, i as int);
                    }
                    return None;
                },
                None => {
                    found = Some(i);
                },
            }
        }
        i += 1;
    }
    found
}

impl Dice {
    /// Reads a token of the form `<number>d<sides>`, as in `4d6`.
    ///
    /// Both parts are plain decimal numbers that fit in a `u32`: digits only,
    /// at least one, with no sign. The result is exactly `parse_spec` of the
    /// token, and an error keeps the text that it rejects.
    pub fn parse(dice: &str) -> (result: Result<Dice, ParseError>)
        ensures
            match result {
                Ok(parsed) => parse_spec(dice@) == Ok::<Dice, Rejection>(parsed),
                Err(error) => parse_spec(dice@) == Err::<Dice, Rejection>(error@),
            },
    {
        let chars = chars_of(dice);
        let n = chars.len();
        let at = match find_split(chars.as_slice()) {
            Some(at) => at,
            None => {
                return Err(ParseError::InvalidFormat(dice.to_owned()));
            },
        };
        proof {
            lemma_split_point_unique(dice@, at as int);
        }
        let number = match parse_u32(slice_subrange(chars.as_slice(), 0, at)) {
            Some(number) => number,
            None => {
                return Err(ParseError::InvalidCount(dice.substring_char(0, at).to_owned()));
            },
        };
        let sides = match parse_u32(slice_subrange(chars.as_slice(), at + 1, n)) {
            Some(sides) => sides,
            None => {
                return Err(ParseError::InvalidSides(dice.substring_char(at + 1, n).to_owned()));
            },
        };
        Ok(Dice { number, sides })
    }
}

} // verus!
