use dsa_cli::dice::Dice;

#[test]
fn rolls_stay_within_their_range() {
    let mut dice = Dice::from_seed(7);
    for _ in 0..2000 {
        let value = dice.roll(1, 6);
        assert!((1..=6).contains(&value));
        let wide = dice.roll(-3, 3);
        assert!((-3..=3).contains(&wide));
    }
    assert_eq!(dice.roll(4, 4), 4);
    assert_eq!(dice.roll(i64::MIN, i64::MIN), i64::MIN);
}

#[test]
fn rolls_are_roughly_uniform() {
    let mut dice = Dice::from_seed(2024);
    let mut counts = [0usize; 20];
    let samples = 40_000;
    for _ in 0..samples {
        let value = dice.roll(1, 20);
        counts[(value - 1) as usize] += 1;
    }
    let expected = samples / 20;
    for count in counts {
        assert!(count > expected * 8 / 10, "a face came up only {} times", count);
        assert!(count < expected * 12 / 10, "a face came up {} times", count);
    }
}

#[test]
fn unseeded_dice_roll_within_range() {
    let mut dice = Dice::new().expect("the operating system should hand out a seed");
    let mut seen = [false; 6];
    for _ in 0..600 {
        let value = dice.roll(1, 6);
        assert!((1..=6).contains(&value));
        seen[(value - 1) as usize] = true;
    }
    assert!(seen.iter().all(|face| *face));
}

#[test]
fn equal_seeds_replay_equal_rolls() {
    let mut first = Dice::from_seed(42);
    let mut second = Dice::from_seed(42);
    for _ in 0..100 {
        assert_eq!(first.roll(1, 1000), second.roll(1, 1000));
    }
}

#[test]
fn different_seeds_give_different_rolls() {
    let mut first = Dice::from_seed(1);
    let mut second = Dice::from_seed(2);
    let differs = (0..100).any(|_| first.roll(1, 1000) != second.roll(1, 1000));
    assert!(differs);
}

#[test]
fn try_roll_reports_an_empty_range() {
    let mut dice = Dice::from_seed(3);
    assert_eq!(dice.try_roll(5, 4), None);
    assert_eq!(dice.try_roll(5, 5), Some(5));
    let value = dice.try_roll(1, 6);
    assert!(matches!(value, Some(v) if (1..=6).contains(&v)));
}
