//! Rolling dice with a random source of the caller.

use crate::notation::Dice;
use rand::distributions::{IndependentSample, Range};
use rand::Rng;
use vstd::prelude::*;

verus! {

/// The sum of a run of faces.
pub open spec fn faces_sum(faces: Seq<nat>) -> nat
    decreases faces.len(),
{
    if faces.len() == 0 {
        0
    } else {
        faces_sum(faces.drop_last()) + faces.last()
    }
}

/// Drawn faces as the numbers that they are.
pub open spec fn faces_of(drawn: Seq<u32>) -> Seq<nat> {
    drawn.map_values(|face: u32| face as nat)
}

impl Dice {
    /// Whether `faces` can be what a roll of these dice shows: one face for
    /// each die, each from `1` up to `sides - 1`. The number of sides itself
    /// is never rolled. A die of no or one side has no face to show, so a
    /// roll of such dice shows none.
    pub open spec fn shows(&self, faces: Seq<nat>) -> bool {
        &&& faces.len() == if self.sides >= 2 {
            self.number as nat
        } else {
            0
        }
        &&& forall|i: int| 0 <= i < faces.len() ==> 1 <= #[trigger] faces[i] < self.sides
    }

    /// Whether a roll of these dice can sum to `total`.
    ///
    /// With at least two sides the dice sum to at least their number and at
    /// most `number * (sides - 1)`. Dice of no or one side sum to zero, as
    /// no dice do.
    pub open spec fn rolls_to(&self, total: nat) -> bool {
        if self.sides >= 2 {
            self.number <= total <= self.number * (self.sides - 1)
        } else {
            total == 0
        }
    }

    /// The range that each die is drawn from, as the lowest face and the
    /// first number above the highest: `1` and `sides`. Dice of no or one
    /// side have no such range.
    pub fn face_range(&self) -> (range: Option<(u32, u32)>)
        ensures
            range == if self.sides >= 2 {
                Some((1u32, self.sides))
            } else {
                None
            },
    {
        if self.sides >= 2 {
            Some((1, self.sides))
        } else {
            None
        }
    }
}

/// Adds one face to a running total.
pub fn add_face(total: u64, face: u32) -> (next: u64)
    requires
        total + face <= u64::MAX,
    ensures
        next == total + face,
{
    total + face as u64
}

/// The sum of the faces that were drawn, each counted once. A roll has no
/// more faces than a `u32` counts, so the sum fits.
pub fn sum_faces(drawn: &[u32]) -> (total: u64)
    requires
        drawn@.len() <= u32::MAX,
    ensures
        total == faces_sum(faces_of(drawn@)),
{
    let mut total: u64 = 0;
    let mut i: usize = 0;
    while i < drawn.len()
        invariant
            i <= drawn@.len() <= u32::MAX,
            total == faces_sum(faces_of(drawn@.take(i as int))),
            total <= i * u32::MAX,
        decreases drawn.len() - i,
    {
        proof {
            let read = faces_of(drawn@.take(i + 1));
            assert(read.drop_last() =~= faces_of(drawn@.take(i as int)));
            assert(read.last() == drawn@[i as int]);
            assert(i * u32::MAX + u32::MAX == (i + 1) * u32::MAX) by (nonlinear_arith);
            assert((i + 1) * u32::MAX <= u32::MAX * u32::MAX) by (nonlinear_arith)
                requires
                    0 <= i + 1 <= u32::MAX,
            ;
        }
        total = add_face(total, drawn[i]);
        i += 1;
    }
    proof {
        assert(drawn@.take(i as int) =~= drawn@);
    }
    total
}

/// One number from `low` up to, and not including, `high`.
///
/// Builds a `rand::distributions::Range` over `[low, high)` with
/// `Range::new` and samples it once from `rng` with
/// `IndependentSample::ind_sample`. Trusted: that the number lies in that
/// range, whatever words `rng` hands out. `Range::new` panics unless
/// `low < high`. The sample is taken by rejection, so the call returns once
/// `rng` hands out a word that is accepted.
#[verifier::external_body]
fn draw_between<R: Rng>(rng: &mut R, low: u32, high: u32) -> (drawn: u32)
    requires
        low < high,
    ensures
        low <= drawn < high,
{
    Range::new(low, high).ind_sample(rng)
}

impl Dice {
    /// Rolls the dice and returns the sum of the faces.
    ///
    /// Each die takes one number from `rng`, out of `face_range`, and the
    /// numbers are added up with `add_face`: the result is the plain sum of
    /// one face for each die. Where there is nothing to roll, with no dice
    /// or with dice of no or one side, `rng` is left as it was. The sum is
    /// returned as a `u64`, which holds the largest sum that a roll can
    /// reach.
    pub fn generate<R: Rng>(&self, rng: &mut R) -> (total: u64)
        ensures
            exists|faces: Seq<nat>| #[trigger] self.shows(faces) && total == faces_sum(faces),
            self.rolls_to(total as nat),
            self.number == 0 ==> total == 0,
            self.number == 0 || self.sides < 2 ==> *final(rng) == *old(rng),
    {
        let (low, high) = match self.face_range() {
            Some(range) => range,
            None => {
                assert(self.shows(Seq::empty()));
                return 0;
            },
        };
        let ghost highest = high - 1;
        let ghost mut faces: Seq<nat> = Seq::empty();
        let mut total: u64 = 0;
        let mut rolled: u32 = 0;
        while rolled < self.number
            invariant
                low == 1,
                high == self.sides,
                highest == high - 1,
                self.sides >= 2,
                rolled <= self.number,
                faces.len() == rolled,
                forall|i: int| 0 <= i < faces.len() ==> 1 <= #[trigger] faces[i] < self.sides,
                total == faces_sum(faces),
                rolled <= total <= rolled * highest,
                rolled == 0 ==> *rng == *old(rng),
            decreases self.number - rolled,
        {
            let face = draw_between(rng, low, high);
            proof {
                assert(rolled * highest + highest == (rolled + 1) * highest) by (nonlinear_arith);
                assert((rolled + 1) * highest <= 0xffff_ffff * 0xffff_ffff) by (nonlinear_arith)
                    requires
                        0 <= rolled + 1 <= 0xffff_ffff,
                        0 <= highest <= 0xffff_ffff,
                ;
                assert(faces.push(face as nat).drop_last() =~= faces);
                faces = faces.push(face as nat);
            }
            total = add_face(total, face);
            rolled = rolled + 1;
        }
        assert(self.shows(faces));
        total
    }
}

/// The bounds of a roll, spelled out. With at least two sides the sum lies
/// from the number of dice up to `number * (sides - 1)`; with no dice it is
/// zero, whatever the sides.
pub proof fn lemma_roll_bounds(dice: Dice, total: nat)
    requires
        dice.rolls_to(total),
    ensures
        dice.sides >= 2 ==> dice.number * 1 <= total <= dice.number * (dice.sides - 1),
        dice.number == 0 ==> total == 0,
        dice.sides < 2 ==> total == 0,
{
}

/// What a roll shows sums to a total within the bounds.
pub proof fn lemma_shown_faces_sum_within_bounds(dice: Dice, faces: Seq<nat>)
    requires
        dice.shows(faces),
    ensures
        dice.rolls_to(faces_sum(faces)),
    decreases faces.len(),
{
    if faces.len() > 0 {
        let fewer = Dice { number: (dice.number - 1) as u32, sides: dice.sides };
        let highest = (dice.sides - 1) as nat;
        lemma_shown_faces_sum_within_bounds(fewer, faces.drop_last());
        assert(fewer.number * highest + highest == dice.number * highest) by (nonlinear_arith)
            requires
                fewer.number + 1 == dice.number,
        ;
    }
}

/// Every total within the bounds is the sum of what some roll shows: the
/// bounds say all that can be said of a sum without knowing the random
/// source.
pub proof fn lemma_every_total_is_rolled(dice: Dice, total: nat) -> (faces: Seq<nat>)
    requires
        dice.rolls_to(total),
    ensures
        dice.shows(faces),
        faces_sum(faces) == total,
    decreases dice.number,
{
    if dice.sides < 2 || dice.number == 0 {
        Seq::empty()
    } else {
        let fewer = Dice { number: (dice.number - 1) as u32, sides: dice.sides };
        let highest = (dice.sides - 1) as nat;
        // The last die shows as much as it can while it leaves one for each
        // die before it.
        let last: nat = if total - fewer.number > highest {
            highest
        } else {
            (total - fewer.number) as nat
        };
        assert(fewer.number * highest + highest == dice.number * highest) by (nonlinear_arith)
            requires
                fewer.number + 1 == dice.number,
        ;
        assert(fewer.number <= fewer.number * highest) by (nonlinear_arith)
            requires
                highest >= 1,
        ;
        let before = lemma_every_total_is_rolled(fewer, (total - last) as nat);
        let faces = before.push(last);
        assert(faces.drop_last() =~= before);
        faces
    }
}

} // verus!
