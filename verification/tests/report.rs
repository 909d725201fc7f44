use rand::{Rng, SeedableRng, StdRng};
use rolldice::{roll_all, roll_token};

/// A random source that always hands out the same word.
struct Constant(u32);

impl Rng for Constant {
    fn next_u32(&mut self) -> u32 {
        self.0
    }
}

/// A random source that counts the words it hands out.
struct Counting(usize);

impl Rng for Counting {
    fn next_u32(&mut self) -> u32 {
        self.0 += 1;
        0
    }
}

fn tokens(texts: &[&str]) -> Vec<String> {
    texts.iter().map(|text| String::from(*text)).collect()
}

#[test]
fn roll_token_writes_the_sum_and_a_blank() {
    let mut rng = Constant(2);
    assert_eq!(roll_token("4d6", &mut rng), "12 ");
    assert_eq!(roll_token("3d2", &mut rng), "3 ");
    assert_eq!(roll_token("0d6", &mut rng), "0 ");
    assert_eq!(roll_token("5d1", &mut rng), "0 ");
}

#[test]
fn roll_token_writes_the_message_of_a_rejection() {
    let mut rng = Constant(2);
    assert_eq!(roll_token("", &mut rng), "Invalid dice format ''");
    assert_eq!(roll_token("1d2d3", &mut rng), "Invalid dice format '1d2d3'");
    assert_eq!(roll_token("Td10", &mut rng), "Invalid number of dice 'T'");
    assert_eq!(roll_token("1dY", &mut rng), "Invalid number of sides 'Y'");
}

#[test]
fn roll_all_of_nothing_is_empty() {
    let mut rng = Constant(0);
    assert_eq!(roll_all(&tokens(&[]), &mut rng), "");
}

#[test]
fn roll_all_keeps_the_order_of_the_tokens() {
    let mut rng = Constant(7);
    assert_eq!(roll_all(&tokens(&["1d6", "2d6", "10d100"]), &mut rng), "3 6 80 ");
}

#[test]
fn roll_all_goes_on_after_a_rejection() {
    let mut rng = Constant(0);
    assert_eq!(
        roll_all(&tokens(&["2d6", "nope", "d6", "3d4"]), &mut rng),
        "2 Invalid dice format 'nope'Invalid number of dice ''3 "
    );
}

#[test]
fn roll_all_rolls_every_token_from_the_one_source() {
    let seed: &[_] = &[1, 2, 3, 4];
    let mut rng: StdRng = SeedableRng::from_seed(seed);
    let line = roll_all(&tokens(&["4d6", "4d6"]), &mut rng);

    let mut again: StdRng = SeedableRng::from_seed(seed);
    let first = rolldice::Dice { number: 4, sides: 6 }.generate(&mut again);
    let second = rolldice::Dice { number: 4, sides: 6 }.generate(&mut again);
    assert_eq!(line, format!("{} {} ", first, second));
    assert!(line.starts_with("10 "));
}

#[test]
fn roll_token_takes_nothing_for_a_rejected_token() {
    let mut rng = Counting(0);
    roll_token("", &mut rng);
    roll_token("nope", &mut rng);
    roll_token("Td10", &mut rng);
    roll_token("1dY", &mut rng);
    roll_token("1d2d3", &mut rng);
    assert_eq!(rng.0, 0);
}

#[test]
fn roll_token_takes_nothing_where_nothing_is_rolled() {
    let mut rng = Counting(0);
    assert_eq!(roll_token("0d6", &mut rng), "0 ");
    assert_eq!(roll_token("6d0", &mut rng), "0 ");
    assert_eq!(roll_token("6d1", &mut rng), "0 ");
    assert_eq!(rng.0, 0);
}

#[test]
fn roll_token_takes_one_word_for_each_die() {
    let mut rng = Counting(0);
    assert_eq!(roll_token("4d6", &mut rng), "4 ");
    assert_eq!(rng.0, 4);
}

#[test]
fn roll_all_takes_nothing_where_no_token_rolls() {
    let mut rng = Counting(0);
    assert_eq!(
        roll_all(&tokens(&["nope", "0d6", "3d1", "1dY"]), &mut rng),
        "Invalid dice format 'nope'0 0 Invalid number of sides 'Y'"
    );
    assert_eq!(rng.0, 0);
}
