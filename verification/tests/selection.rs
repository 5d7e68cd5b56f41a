use lsystem::fixed::ONE;
use lsystem::rules::{pick_rule, pick_rule_at, total_chance, LRule};
use lsystem::symbols::{LSymbol, Value, Values};
use rand::SeedableRng;
use rand_chacha::ChaCha20Rng;

fn rule(id: char, chance: u32, min_gen: Option<i64>, max_gen: Option<i64>) -> LRule {
    LRule { result: vec![LSymbol::Object { id }], chance, min_gen, max_gen }
}

#[test]
fn gate_is_half_open() {
    let rules = vec![rule('a', 1_000_000, Some(2 * ONE), Some(4 * ONE))];
    let mut rng = ChaCha20Rng::seed_from_u64(7);
    for age in [0, ONE, 2 * ONE - 1, 4 * ONE, 4 * ONE + 1, 5 * ONE, 100 * ONE] {
        assert_eq!(pick_rule_at(&rules, age, 0), None);
        assert_eq!(total_chance(&rules, age), 0);
        for _ in 0..50 {
            assert!(pick_rule(&rules, age, &mut rng).is_none());
        }
    }
    for age in [2 * ONE, 3 * ONE, 4 * ONE - 1] {
        assert_eq!(pick_rule_at(&rules, age, 0), Some(0));
        assert_eq!(total_chance(&rules, age), 1_000_000);
        for _ in 0..50 {
            assert_eq!(pick_rule(&rules, age, &mut rng), Some(&rules[0].result));
        }
    }
}

#[test]
fn gate_open_at_one_end() {
    let from_two = vec![rule('a', 5, Some(2 * ONE), None)];
    assert_eq!(pick_rule_at(&from_two, ONE, 0), None);
    assert_eq!(pick_rule_at(&from_two, 2 * ONE, 0), Some(0));
    assert_eq!(pick_rule_at(&from_two, i64::MAX, 4), Some(0));
    let below_two = vec![rule('a', 5, None, Some(2 * ONE))];
    assert_eq!(pick_rule_at(&below_two, i64::MIN, 0), Some(0));
    assert_eq!(pick_rule_at(&below_two, 2 * ONE - 1, 0), Some(0));
    assert_eq!(pick_rule_at(&below_two, 2 * ONE, 0), None);
}

#[test]
fn roulette_walk() {
    let rules = vec![rule('a', 250_000, None, None), rule('b', 750_000, None, None)];
    assert_eq!(total_chance(&rules, 0), 1_000_000);
    assert_eq!(pick_rule_at(&rules, 0, 0), Some(0));
    assert_eq!(pick_rule_at(&rules, 0, 249_999), Some(0));
    // A tie goes to the next rule.
    assert_eq!(pick_rule_at(&rules, 0, 250_000), Some(1));
    assert_eq!(pick_rule_at(&rules, 0, 999_999), Some(1));
    assert_eq!(pick_rule_at(&rules, 0, 1_000_000), None);
    assert_eq!(pick_rule_at(&rules, 0, u64::MAX), None);
}

#[test]
fn rules_without_weight_are_never_landed_on() {
    let rules = vec![
        rule('a', 0, None, None),
        rule('b', 10, Some(ONE), None),
        rule('c', 3, None, None),
        rule('d', 0, None, None),
    ];
    assert_eq!(total_chance(&rules, 0), 3);
    assert_eq!(pick_rule_at(&rules, 0, 0), Some(2));
    assert_eq!(pick_rule_at(&rules, 0, 2), Some(2));
    assert_eq!(pick_rule_at(&rules, 0, 3), None);
    assert_eq!(total_chance(&rules, ONE), 13);
    assert_eq!(pick_rule_at(&rules, ONE, 9), Some(1));
    assert_eq!(pick_rule_at(&rules, ONE, 10), Some(2));
}

#[test]
fn no_rules_or_no_weight_gives_no_rule() {
    let mut rng = ChaCha20Rng::seed_from_u64(1);
    let none: Vec<LRule> = Vec::new();
    assert!(pick_rule(&none, 0, &mut rng).is_none());
    assert_eq!(pick_rule_at(&none, 0, 0), None);
    let weightless = vec![rule('a', 0, None, None)];
    assert!(pick_rule(&weightless, 0, &mut rng).is_none());
}

#[test]
fn weights_beyond_one_whole_still_select() {
    let rules = vec![rule('a', u32::MAX, None, None), rule('b', u32::MAX, None, None)];
    assert_eq!(total_chance(&rules, 0), 2 * (u32::MAX as u128));
    assert_eq!(pick_rule_at(&rules, 0, u32::MAX as u64 - 1), Some(0));
    assert_eq!(pick_rule_at(&rules, 0, u32::MAX as u64), Some(1));
}

#[test]
fn weighted_selection_distribution() {
    let rules = vec![rule('a', 250_000, None, None), rule('b', 750_000, None, None)];
    let mut rng = ChaCha20Rng::seed_from_u64(2024);
    let draws = 40_000;
    let mut first = 0;
    for _ in 0..draws {
        let body = pick_rule(&rules, 0, &mut rng).unwrap();
        if *body == rules[0].result {
            first += 1;
        } else {
            assert_eq!(*body, rules[1].result);
        }
    }
    let ratio = first as f64 / draws as f64;
    assert!((ratio - 0.25).abs() < 0.02, "{}", ratio);
}

#[test]
fn value_resolution() {
    assert_eq!(Value::Exact(5).resolve(99), 5);
    let range = Value::Range { min: 10, max: 20 };
    assert_eq!(range.resolve(10), 10);
    assert_eq!(range.resolve(19), 19);
    assert_eq!(range.resolve(20), 10);
    assert_eq!(range.resolve(-3), 10);
    let empty = Value::Range { min: 20, max: 10 };
    assert_eq!(empty.resolve(15), 20);
}

#[test]
fn values_pick() {
    assert_eq!(Values::Default.pick(7, 3, 99), 7);
    assert_eq!(Values::Exact(Value::Exact(5)).pick(7, 3, 99), 5);
    let list = Values::Multiple(vec![Value::Exact(1), Value::Range { min: 10, max: 20 }]);
    assert_eq!(list.pick(7, 0, 15), 1);
    assert_eq!(list.pick(7, 1, 15), 15);
    assert_eq!(list.pick(7, 2, 15), 7);
    assert_eq!(Values::Multiple(Vec::new()).pick(7, 0, 15), 7);
}

#[test]
fn sampling_stays_in_range_and_varies() {
    let mut rng = ChaCha20Rng::seed_from_u64(5);
    let range = Values::Exact(Value::Range { min: 10 * ONE, max: 20 * ONE });
    let mut seen = std::collections::BTreeSet::new();
    for _ in 0..200 {
        let drawn = range.get(0, &mut rng);
        assert!(10 * ONE <= drawn && drawn < 20 * ONE);
        seen.insert(drawn);
    }
    assert!(seen.len() > 100);
}

#[test]
fn sampling_edge_cases() {
    let mut rng = ChaCha20Rng::seed_from_u64(5);
    assert_eq!(Values::Default.get(42, &mut rng), 42);
    assert_eq!(Values::Exact(Value::Exact(3)).get(42, &mut rng), 3);
    assert_eq!(Values::Multiple(Vec::new()).get(42, &mut rng), 42);
    assert_eq!(Values::Exact(Value::Range { min: 5, max: 5 }).get(42, &mut rng), 5);
    assert_eq!(Values::Exact(Value::Range { min: 9, max: 5 }).get(42, &mut rng), 9);
    assert_eq!(Value::Range { min: 9, max: 5 }.get(&mut rng), 9);
    assert_eq!(Value::Exact(-1).get(&mut rng), -1);
}

#[test]
fn every_choice_of_a_list_is_taken() {
    let mut rng = ChaCha20Rng::seed_from_u64(11);
    let list = Values::Multiple(vec![Value::Exact(1), Value::Exact(2), Value::Exact(3)]);
    let mut counts = [0u32; 3];
    for _ in 0..3000 {
        let drawn = list.get(0, &mut rng);
        assert!((1..=3).contains(&drawn));
        counts[(drawn - 1) as usize] += 1;
    }
    for count in counts {
        assert!(count > 800 && count < 1200, "{:?}", counts);
    }
}

#[test]
fn no_draw_where_none_is_needed() {
    let mut used = ChaCha20Rng::seed_from_u64(3);
    let mut plain = ChaCha20Rng::seed_from_u64(3);
    assert_eq!(Values::Default.get(42, &mut used), 42);
    assert_eq!(Values::Exact(Value::Exact(3)).get(42, &mut used), 3);
    assert_eq!(Values::Exact(Value::Range { min: 9, max: 5 }).get(42, &mut used), 9);
    assert_eq!(Values::Multiple(Vec::new()).get(42, &mut used), 42);
    assert_eq!(Value::Exact(7).get(&mut used), 7);
    let weightless = vec![rule('a', 0, None, None), rule('b', 5, Some(ONE), None)];
    assert!(pick_rule(&weightless, 0, &mut used).is_none());
    let span = Value::Range { min: 0, max: 1_000_000 };
    for _ in 0..20 {
        assert_eq!(span.get(&mut used), span.get(&mut plain));
    }
}
