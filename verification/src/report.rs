//! What a run reports: for each token the sum of its roll, or why the token
//! was rejected.

use crate::decimal::{format_u64, numeral_of};
use crate::notation::{parse_spec, Dice};
use rand::Rng;
use vstd::prelude::*;
use vstd::string::StringExecFns;

verus! {

/// The entry of a roll that summed to `total`: the sum in base ten, and one
/// blank after it.
pub open spec fn sum_entry(total: nat) -> Seq<char> {
    numeral_of(total) + seq![' ']
}

/// Whether `entry` can stand in a report for `token`.
///
/// For dice notation it is the entry of a sum that the dice can roll. For
/// any other token it is the message of the rejection, with nothing after
/// it.
pub open spec fn is_entry(token: Seq<char>, entry: Seq<char>) -> bool {
    match parse_spec(token) {
        Ok(dice) => exists|total: nat| dice.rolls_to(total) && entry == #[trigger] sum_entry(total),
        Err(rejection) => entry == rejection.message(),
    }
}

/// Whether `line` can be the report for `tokens`: one entry for each token,
/// in the order of the tokens, with nothing between, before or after them.
pub open spec fn is_report(tokens: Seq<Seq<char>>, line: Seq<char>) -> bool {
    exists|entries: Seq<Seq<char>>|
        {
            &&& entries.len() == tokens.len()
            &&& forall|i: int| 0 <= i < tokens.len() ==> is_entry(tokens[i], #[trigger] entries[i])
            &&& line == #[trigger] entries.flatten()
        }
}

/// Whether `token` leaves nothing to roll: it is rejected, or it asks for no
/// dice, or for dice of no or one side.
pub open spec fn rolls_nothing(token: Seq<char>) -> bool {
    match parse_spec(token) {
        Ok(dice) => dice.number == 0 || dice.sides < 2,
        Err(_) => true,
    }
}

/// Reads one token and rolls it: the entry of the token in a report.
///
/// A token that leaves nothing to roll, a rejected one above all, leaves
/// `rng` as it was.
pub fn roll_token<R: Rng>(token: &str, rng: &mut R) -> (entry: String)
    ensures
        is_entry(token@, entry@),
        parse_spec(token@) is Err ==> *final(rng) == *old(rng),
        rolls_nothing(token@) ==> *final(rng) == *old(rng),
{
    match Dice::parse(token) {
        Ok(dice) => {
            let total = dice.generate(rng);
            let mut entry = format_u64(total);
            entry.append(" ");
            proof {
                reveal_strlit(" ");
                assert(" "@ =~= seq![' ']);
                assert(entry@ == sum_entry(total as nat));
            }
            entry
        },
        Err(error) => error.message(),
    }
}

/// Reads and rolls the tokens in order, all with the one random source, and
/// returns the line to print for them. A rejected token does not stop the
/// run: its message stands in the line where its sum would. Where no token
/// leaves anything to roll, `rng` is left as it was.
pub fn roll_all<R: Rng>(tokens: &[String], rng: &mut R) -> (line: String)
    ensures
        is_report(tokens.deep_view(), line@),
        (forall|i: int| 0 <= i < tokens.len() ==> rolls_nothing(#[trigger] tokens[i]@))
            ==> *final(rng) == *old(rng),
{
    let mut line = String::new();
    let ghost mut entries: Seq<Seq<char>> = Seq::empty();
    let mut done: usize = 0;
    while done < tokens.len()
        invariant
            done <= tokens.len(),
            entries.len() == done,
            forall|i: int| 0 <= i < done ==> is_entry(tokens[i]@, #[trigger] entries[i]),
            line@ == entries.flatten(),
            (forall|i: int| 0 <= i < done ==> rolls_nothing(#[trigger] tokens[i]@))
                ==> *rng == *old(rng),
        decreases tokens.len() - done,
    {
        let entry = roll_token(tokens[done].as_str(), rng);
        line.append(entry.as_str());
        proof {
            entries.lemma_flatten_push(entry@);
            entries = entries.push(entry@);
        }
        done += 1;
    }
    line
}

} // verus!
