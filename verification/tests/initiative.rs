use dsa_cli::dice::Dice;
use dsa_cli::dsa::initiative::{
    break_ties, fits_initiative, initial_keys, order_by_keys, roll_ini, IniOutcome,
    IniParticipant, MAX_KEY_LENGTH,
};
use dsa_cli::dsa::ordering::{compare_keys, is_ranked_before, sort_by_rank, KeyOrder};

fn participants(levels: &[i64]) -> Vec<IniParticipant> {
    levels
        .iter()
        .enumerate()
        .map(|(i, level)| IniParticipant { name: format!("p{}", i), base_level: *level })
        .collect()
}

fn indices(outcomes: &[IniOutcome]) -> Vec<usize> {
    outcomes.iter().map(|o| o.participant_index).collect()
}

/// Checks everything that must hold of the keys of any initiative roll.
fn assert_valid_keys(participants: &[IniParticipant], keys: &[Vec<i64>]) {
    assert_eq!(keys.len(), participants.len());
    for (i, key) in keys.iter().enumerate() {
        assert!(!key.is_empty() && key.len() <= MAX_KEY_LENGTH);
        let base = participants[i].base_level;
        assert!((1..=6).contains(&(key[0] - base)));
        if key.len() > 1 {
            assert_eq!(key[1], base);
        }
        for entry in key.iter().skip(2) {
            assert!((1..=6).contains(entry));
        }
        for k in 1..MAX_KEY_LENGTH {
            let tied = keys.iter().enumerate().any(|(j, other)| {
                j != i && other.len() >= k && key.len() >= k && other[..k] == key[..k]
            });
            assert_eq!(key.len() > k, tied, "participant {} at length {}", i, k);
        }
    }
}

#[test]
fn initial_keys_are_base_level_plus_first_die() {
    let keys = initial_keys(&participants(&[10, 12, -3]), &vec![3, 1, 6]);
    assert_eq!(keys, vec![vec![13], vec![13], vec![3]]);
}

#[test]
fn tied_participants_get_their_base_level_as_second_entry() {
    let people = participants(&[10, 12, 7]);
    let mut keys = initial_keys(&people, &vec![3, 1, 6]);
    break_ties(&people, &mut keys, &mut Dice::from_seed(5));
    assert_eq!(keys, vec![vec![13, 10], vec![13, 12], vec![13, 7]]);
    let order = order_by_keys(&keys);
    assert_eq!(indices(&order), vec![1, 0, 2]);
}

#[test]
fn equal_base_levels_and_first_dice_are_broken_by_fresh_dice() {
    let people = participants(&[10, 10]);
    let mut different_orders = [false, false];
    for seed in 0..200u64 {
        let mut keys = initial_keys(&people, &vec![4, 4]);
        break_ties(&people, &mut keys, &mut Dice::from_seed(seed));
        assert_valid_keys(&people, &keys);
        for key in &keys {
            assert!(key.len() >= 3);
            assert_eq!(key[0], 14);
            assert_eq!(key[1], 10);
            assert!((1..=6).contains(&key[2]));
        }
        assert_ne!(keys[0], keys[1]);
        let order = order_by_keys(&keys);
        different_orders[order[0].participant_index] = true;
    }
    assert!(different_orders[0] && different_orders[1]);
}

#[test]
fn distinct_first_entries_need_no_tie_break() {
    let people = participants(&[10, 11, 12]);
    for seed in 0..20u64 {
        let mut keys = initial_keys(&people, &vec![1, 1, 1]);
        break_ties(&people, &mut keys, &mut Dice::from_seed(seed));
        assert_eq!(keys, vec![vec![11], vec![12], vec![13]]);
        assert_eq!(indices(&order_by_keys(&keys)), vec![2, 1, 0]);
    }
}

#[test]
fn only_the_tied_participants_get_further_entries() {
    let people = participants(&[5, 9, 5, 1]);
    let mut keys = initial_keys(&people, &vec![2, 6, 2, 6]);
    break_ties(&people, &mut keys, &mut Dice::from_seed(11));
    assert_valid_keys(&people, &keys);
    // 7, 15, 7, 7: the three sevens are tied, the second entries 5, 5, 1
    // leave the first and the third tied.
    assert_eq!(keys[1], vec![15]);
    assert_eq!(keys[3], vec![7, 1]);
    assert!(keys[0].len() >= 3 && keys[2].len() >= 3);
    assert_eq!(&keys[0][..2], &[7, 5]);
    assert_eq!(&keys[2][..2], &[7, 5]);
    let order = order_by_keys(&keys);
    assert_eq!(order[0].participant_index, 1);
    assert_eq!(order[3].participant_index, 3);
}

#[test]
fn order_is_by_key_highest_first_and_by_input_order_for_equal_keys() {
    let keys = vec![vec![7, 5, 2], vec![9], vec![7, 5, 6], vec![7, 6], vec![3], vec![9]];
    let order = order_by_keys(&keys);
    assert_eq!(indices(&order), vec![1, 5, 3, 2, 0, 4]);
    for outcome in &order {
        assert_eq!(outcome.comparison_key, keys[outcome.participant_index]);
    }
}

#[test]
fn a_longer_key_ranks_before_its_own_prefix() {
    let keys = vec![vec![7], vec![7, 1]];
    assert_eq!(indices(&order_by_keys(&keys)), vec![1, 0]);
    assert_eq!(compare_keys(&vec![7], &vec![7, 1]), KeyOrder::Lower);
}

#[test]
fn keys_are_compared_entry_by_entry() {
    assert_eq!(compare_keys(&vec![1, 9], &vec![2]), KeyOrder::Lower);
    assert_eq!(compare_keys(&vec![2], &vec![1, 9]), KeyOrder::Higher);
    assert_eq!(compare_keys(&vec![4, 4], &vec![4, 4]), KeyOrder::Same);
    assert_eq!(compare_keys(&vec![], &vec![]), KeyOrder::Same);
    assert_eq!(compare_keys(&vec![], &vec![-5]), KeyOrder::Lower);
    assert_eq!(compare_keys(&vec![4, 5], &vec![4, 4]), KeyOrder::Higher);
}

#[test]
fn ranking_and_sorting_by_rank() {
    let keys = vec![vec![3], vec![8], vec![3], vec![5]];
    assert!(is_ranked_before(&keys, 1, 0));
    assert!(!is_ranked_before(&keys, 0, 1));
    assert!(is_ranked_before(&keys, 0, 2));
    assert!(!is_ranked_before(&keys, 2, 0));
    assert!(!is_ranked_before(&keys, 2, 2));
    assert_eq!(sort_by_rank(&vec![2, 0, 3, 1], &keys), vec![1, 3, 0, 2]);
    assert_eq!(sort_by_rank(&vec![2, 3], &keys), vec![3, 2]);
    assert_eq!(sort_by_rank(&vec![], &keys), Vec::<usize>::new());
}

#[test]
fn rolled_initiative_lists_everyone_once_in_ranking_order() {
    let people = participants(&[10, 10, 10, 12, 8, 10, 10]);
    for seed in 0..300u64 {
        let order = roll_ini(&people, &mut Dice::from_seed(seed));
        assert_eq!(order.len(), people.len());
        let mut seen = indices(&order);
        seen.sort();
        assert_eq!(seen, (0..people.len()).collect::<Vec<usize>>());
        let mut keys = vec![Vec::new(); people.len()];
        for outcome in &order {
            keys[outcome.participant_index] = outcome.comparison_key.clone();
        }
        assert_valid_keys(&people, &keys);
        for pair in order.windows(2) {
            let (a, b) = (&pair[0], &pair[1]);
            assert!(
                a.comparison_key > b.comparison_key
                    || (a.comparison_key == b.comparison_key
                        && a.participant_index < b.participant_index)
            );
        }
        let again = order_by_keys(&keys);
        assert_eq!(indices(&again), indices(&order));
    }
}

#[test]
fn the_same_seed_rolls_the_same_initiative() {
    let people = participants(&[10, 10, 11, 9]);
    let first = roll_ini(&people, &mut Dice::from_seed(77));
    let second = roll_ini(&people, &mut Dice::from_seed(77));
    assert_eq!(indices(&first), indices(&second));
    for (a, b) in first.iter().zip(second.iter()) {
        assert_eq!(a.comparison_key, b.comparison_key);
    }
}

#[test]
fn initiative_of_nobody_and_of_one() {
    assert!(roll_ini(&participants(&[]), &mut Dice::from_seed(0)).is_empty());
    let alone = roll_ini(&participants(&[14]), &mut Dice::from_seed(0));
    assert_eq!(alone.len(), 1);
    assert_eq!(alone[0].participant_index, 0);
    assert_eq!(alone[0].comparison_key.len(), 1);
    assert!((15..=20).contains(&alone[0].comparison_key[0]));
}

#[test]
fn base_levels_must_leave_room_for_the_die() {
    assert!(fits_initiative(&participants(&[0, i64::MAX - 6, i64::MIN])));
    assert!(!fits_initiative(&participants(&[0, i64::MAX - 5])));
    assert!(fits_initiative(&participants(&[])));
}

#[test]
fn ties_that_cannot_be_broken_end_at_the_greatest_key_length() {
    // With the keys already at their greatest length nothing is appended.
    let key: Vec<i64> = (0..MAX_KEY_LENGTH as i64).collect();
    let keys = vec![key.clone(), key.clone()];
    assert_eq!(indices(&order_by_keys(&keys)), vec![0, 1]);
}
