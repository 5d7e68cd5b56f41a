use lsystem::config::{LConfig, LSystemBuildConfig, RenderConfig, Shape};
use lsystem::fixed::ONE;
use lsystem::parser::string_to_symbols;
use lsystem::rules::{LRule, LRuleSet, LRuleSets};
use lsystem::symbols::Axis;
use lsystem::turtle::{
    apply_step, build, can_expand, draw, expand, get_shape, growth_of, RenderShape, State,
    TurtleStep, GROWTH_EPSILON,
};

fn rule_set(id: char, bodies: &[(&str, u32)]) -> (char, LRuleSets) {
    let rules = bodies
        .iter()
        .map(|(text, chance)| LRule {
            result: string_to_symbols(text),
            chance: *chance,
            min_gen: None,
            max_gen: None,
        })
        .collect();
    (id, LRuleSets { current: 0, sets: vec![LRuleSet { chance: 1_000_000, rules }] })
}

fn rendering() -> RenderConfig {
    RenderConfig {
        default_angle_change: 30 * ONE,
        shapes: vec![
            ('f', Shape::Branch { width: 100_000, length: ONE }),
            ('l', Shape::Line { width: 200_000, length: 2 * ONE }),
            ('o', Shape::Circle { size: 500_000 }),
        ],
        width_mod: None,
    }
}

fn config(initial: &str, iterations: u32, rule_sets: Vec<(char, LRuleSets)>) -> LConfig {
    let rules = LSystemBuildConfig { iterations, initial: string_to_symbols(initial), rule_sets };
    let mut config = LConfig::new(rendering(), rules);
    config.growth = vec![ONE; iterations as usize + 2];
    config
}

fn lines(shapes: &[RenderShape]) -> usize {
    shapes.iter().filter(|shape| matches!(shape, RenderShape::Line { .. })).count()
}

#[test]
fn binary_tree_of_two_iterations_has_seven_lines() {
    let mut tree = config("A", 2, vec![rule_set('A', &[("f[+A][-A]", 1_000_000)])]);
    let shapes = build(&mut tree);
    assert_eq!(lines(&shapes), 7);
    let ages: Vec<u64> = shapes
        .iter()
        .filter_map(|shape| match shape {
            RenderShape::Line { age, .. } => Some(*age),
            _ => None,
        })
        .collect();
    assert_eq!(ages, vec![1, 2, 3, 3, 2, 3, 3]);
}

#[test]
fn binary_tree_first_shapes() {
    let mut tree = config("A", 1, vec![rule_set('A', &[("f[+A][-A]", 1_000_000)])]);
    let shapes = build(&mut tree);
    let line = |age, last_age| RenderShape::Line { length: ONE, width: 100_000, age, last_age };
    let left = RenderShape::Turn { axis: Axis::Y, angle: 30 * ONE };
    let right = RenderShape::Turn { axis: Axis::NegY, angle: 30 * ONE };
    let close = RenderShape::ScopeEnd { reset: false };
    let expected = vec![
        line(1, 0),
        RenderShape::Scope,
        left,
        line(2, 1),
        RenderShape::Scope,
        left,
        close,
        RenderShape::Scope,
        right,
        close,
        close,
        RenderShape::Scope,
        right,
        line(2, 1),
        RenderShape::Scope,
        left,
        close,
        RenderShape::Scope,
        right,
        close,
        close,
    ];
    assert_eq!(shapes, expected);
}

#[test]
fn no_iterations_means_no_rewriting() {
    let mut flat = config("AfAoBfA", 0, vec![rule_set('A', &[("ffff", 1_000_000)])]);
    let shapes = build(&mut flat);
    assert_eq!(
        shapes,
        vec![
            RenderShape::Line { length: ONE, width: 100_000, age: 0, last_age: 0 },
            RenderShape::Circle { size: 500_000, age: 0 },
            RenderShape::Line { length: ONE, width: 100_000, age: 0, last_age: 0 },
        ]
    );
    assert_eq!(
        expand(&mut flat),
        vec![
            TurtleStep::Object { id: 'f', age: 0 },
            TurtleStep::Object { id: 'o', age: 0 },
            TurtleStep::Object { id: 'f', age: 0 },
        ]
    );
}

#[test]
fn same_seed_same_shapes() {
    let sets = || {
        vec![
            rule_set('A', &[("f[+(10~40)A]|(0.8,0.9)[-(10~40)A]", 600_000), ("fo", 400_000)]),
            rule_set('B', &[("l&(5~85)B", 1_000_000)]),
        ]
    };
    let mut first = config("AB", 4, sets());
    let mut second = config("AB", 4, sets());
    first.reseed(99);
    second.reseed(99);
    let one = build(&mut first);
    let two = build(&mut second);
    assert!(one.len() > 10);
    assert_eq!(one, two);
    // The generator moves on: reseeding brings the same build back.
    let _ = build(&mut first);
    first.reseed(99);
    assert_eq!(build(&mut first), one);
    assert_eq!(first.seed, 99);
}

#[test]
fn different_seeds_differ() {
    let sets = || vec![rule_set('A', &[("f[+(10~40)A][-(10~40)A]", 1_000_000)])];
    let mut first = config("A", 3, sets());
    let mut second = config("A", 3, sets());
    first.reseed(1);
    second.reseed(2);
    assert_ne!(build(&mut first), build(&mut second));
}

#[test]
fn both_strategies_agree() {
    let sets = || {
        vec![rule_set('A', &[("f[+(10~40)A]|(0.8,0.9)[-(10~40)A]", 600_000), ("fo", 400_000)])]
    };
    let mut walking = config("A]A", 3, sets());
    let mut ahead = config("A]A", 3, sets());
    walking.reseed(5);
    ahead.reseed(5);
    let walked = build(&mut walking);
    let steps = expand(&mut ahead);
    assert_eq!(draw(&ahead, &steps), walked);
}

#[test]
fn unmatched_close_resets_the_turtle() {
    let mut stray = config("|(3)[f]]f]]f", 0, Vec::new());
    let shapes = build(&mut stray);
    assert_eq!(
        shapes,
        vec![
            RenderShape::Scope,
            RenderShape::Line { length: 3 * ONE, width: 100_000, age: 0, last_age: 0 },
            RenderShape::ScopeEnd { reset: false },
            RenderShape::ScopeEnd { reset: true },
            RenderShape::Line { length: ONE, width: 100_000, age: 0, last_age: 0 },
            RenderShape::ScopeEnd { reset: true },
            RenderShape::ScopeEnd { reset: true },
            RenderShape::Line { length: ONE, width: 100_000, age: 0, last_age: 0 },
        ]
    );
}

#[test]
fn scale_is_kept_per_branch() {
    let mut scaled = config("|(2)f[|(0.5)|(0.5)o]o", 0, Vec::new());
    let shapes = build(&mut scaled);
    assert_eq!(
        shapes,
        vec![
            RenderShape::Line { length: 2 * ONE, width: 100_000, age: 0, last_age: 0 },
            RenderShape::Scope,
            RenderShape::Circle { size: 250_000, age: 0 },
            RenderShape::ScopeEnd { reset: false },
            RenderShape::Circle { size: ONE, age: 0 },
        ]
    );
}

#[test]
fn scale_without_parameter_changes_nothing() {
    let mut plain = config("|f", 0, Vec::new());
    assert_eq!(
        build(&mut plain),
        vec![RenderShape::Line { length: ONE, width: 100_000, age: 0, last_age: 0 }]
    );
}

#[test]
fn rotations_are_recorded_with_their_axis() {
    let mut turning = config("+-(5)&^(7)\\/<>", 0, Vec::new());
    let turn = |axis, angle| RenderShape::Turn { axis, angle };
    assert_eq!(
        build(&mut turning),
        vec![
            turn(Axis::Y, 30 * ONE),
            turn(Axis::NegY, 5 * ONE),
            turn(Axis::X, 30 * ONE),
            turn(Axis::NegX, 7 * ONE),
            turn(Axis::Z, 30 * ONE),
            turn(Axis::NegZ, 30 * ONE),
            turn(Axis::Z, 30 * ONE),
            turn(Axis::NegZ, 30 * ONE),
        ]
    );
}

#[test]
fn terminal_without_shape_draws_nothing() {
    let mut unknown = config("xfy", 0, Vec::new());
    assert_eq!(lines(&build(&mut unknown)), 1);
    assert_eq!(build(&mut unknown).len(), 1);
}

#[test]
fn rule_symbol_without_rules_vanishes() {
    let mut bare = config("fAf", 3, Vec::new());
    assert_eq!(lines(&build(&mut bare)), 2);
    let mut weightless = config("fAf", 3, vec![rule_set('A', &[("ff", 0)])]);
    assert_eq!(lines(&build(&mut weightless)), 2);
    let mut missing_set = config("fAf", 3, vec![rule_set('A', &[("ff", 1)])]);
    missing_set.rules.rule_sets[0].1.current = 5;
    assert_eq!(lines(&build(&mut missing_set)), 2);
}

#[test]
fn growth_scales_lengths_and_stops_rewriting() {
    let mut sprout = config("A", 5, vec![rule_set('A', &[("fA", 1_000_000)])]);
    sprout.growth = vec![ONE, 500_000, 250_000, GROWTH_EPSILON - 1, ONE, ONE, ONE];
    let shapes = build(&mut sprout);
    let line = |length, age| RenderShape::Line { length, width: 100_000, age, last_age: 0 };
    assert_eq!(shapes, vec![line(500_000, 1), line(250_000, 2), line(GROWTH_EPSILON - 1, 3)]);
}

#[test]
fn growth_past_the_table_is_zero() {
    let mut short = config("fA", 5, vec![rule_set('A', &[("fA", 1_000_000)])]);
    short.growth = vec![ONE];
    let shapes = build(&mut short);
    let line = |length, age| RenderShape::Line { length, width: 100_000, age, last_age: 0 };
    assert_eq!(shapes, vec![line(ONE, 0), line(0, 1)]);
    let mut none = config("fA", 5, vec![rule_set('A', &[("fA", 1_000_000)])]);
    none.growth = Vec::new();
    assert_eq!(build(&mut none), vec![line(0, 0)]);
}

#[test]
fn ceiling_and_growth_rule() {
    let growth = vec![ONE, GROWTH_EPSILON, GROWTH_EPSILON - 1];
    assert!(can_expand(2, &growth, 0));
    assert!(can_expand(2, &growth, 1));
    assert!(!can_expand(2, &growth, 2));
    assert!(!can_expand(2, &growth, 3));
    assert!(!can_expand(0, &growth, 0));
    assert!(can_expand(1, &growth, 1));
    assert!(!can_expand(1, &vec![ONE; 5], 2));
    assert_eq!(growth_of(&growth, 1), GROWTH_EPSILON);
    assert_eq!(growth_of(&growth, 3), 0);
    assert_eq!(growth_of(&growth, u64::MAX), 0);
}

#[test]
fn gates_are_held_against_the_generation() {
    let gated = LRule {
        result: string_to_symbols("fA"),
        chance: 1_000_000,
        min_gen: Some(ONE),
        max_gen: Some(3 * ONE),
    };
    let open = LRule {
        result: string_to_symbols("A"),
        chance: 1_000_000,
        min_gen: None,
        max_gen: Some(ONE),
    };
    let sets = LRuleSets {
        current: 0,
        sets: vec![LRuleSet { chance: 1_000_000, rules: vec![gated, open] }],
    };
    let mut grammar = config("A", 6, vec![('A', sets)]);
    // Generation 0 takes the open rule, 1 and 2 the gated one, 3 none.
    let shapes = build(&mut grammar);
    let line = |age| RenderShape::Line { length: ONE, width: 100_000, age, last_age: 0 };
    assert_eq!(shapes, vec![line(2), line(3)]);
}

#[test]
fn shapes_of_terminals() {
    let mut rendering = rendering();
    let state = State { scale: 2 * ONE, age: 4 };
    assert_eq!(
        get_shape('f', 7, &rendering, &state, 500_000),
        Some(RenderShape::Line { length: ONE, width: 100_000, age: 7, last_age: 4 })
    );
    assert_eq!(
        get_shape('l', 7, &rendering, &state, ONE),
        Some(RenderShape::Line { length: 4 * ONE, width: 200_000, age: 7, last_age: 4 })
    );
    assert_eq!(
        get_shape('o', 7, &rendering, &state, 0),
        Some(RenderShape::Circle { size: ONE, age: 7 })
    );
    assert_eq!(get_shape('x', 7, &rendering, &state, ONE), None);
    rendering.width_mod = Some(3 * ONE);
    assert_eq!(
        get_shape('f', 0, &rendering, &state, ONE),
        Some(RenderShape::Line { length: 2 * ONE, width: 300_000, age: 0, last_age: 4 })
    );
    rendering.shapes.push(('f', Shape::Circle { size: 1 }));
    assert_eq!(
        get_shape('f', 0, &rendering, &state, ONE),
        Some(RenderShape::Line { length: 2 * ONE, width: 300_000, age: 0, last_age: 4 })
    );
}

#[test]
fn steps_one_by_one() {
    let rendering = rendering();
    let growth = vec![ONE, ONE];
    let mut states = vec![State::root()];
    let mut shapes = Vec::new();
    assert_eq!(states[0], State { scale: ONE, age: 0 });
    apply_step(&mut states, &mut shapes, TurtleStep::Scale { factor: 3 * ONE }, &rendering, &growth);
    assert_eq!(states, vec![State { scale: 3 * ONE, age: 0 }]);
    apply_step(&mut states, &mut shapes, TurtleStep::Scope { age: 1 }, &rendering, &growth);
    assert_eq!(states, vec![State { scale: 3 * ONE, age: 0 }, State { scale: 3 * ONE, age: 1 }]);
    apply_step(&mut states, &mut shapes, TurtleStep::Object { id: 'o', age: 1 }, &rendering, &growth);
    apply_step(&mut states, &mut shapes, TurtleStep::ScopeEnd, &rendering, &growth);
    assert_eq!(states, vec![State { scale: 3 * ONE, age: 0 }]);
    apply_step(&mut states, &mut shapes, TurtleStep::ScopeEnd, &rendering, &growth);
    assert_eq!(states, vec![State::root()]);
    apply_step(
        &mut states,
        &mut shapes,
        TurtleStep::Turn { axis: Axis::Z, angle: -ONE },
        &rendering,
        &growth,
    );
    assert_eq!(
        shapes,
        vec![
            RenderShape::Scope,
            RenderShape::Circle { size: 1_500_000, age: 1 },
            RenderShape::ScopeEnd { reset: false },
            RenderShape::ScopeEnd { reset: true },
            RenderShape::Turn { axis: Axis::Z, angle: -ONE },
        ]
    );
    assert_eq!(State { scale: 5, age: 2 }.fork(9), State { scale: 5, age: 9 });
}

#[test]
fn drawing_a_given_derivation() {
    let plain = config("", 0, Vec::new());
    let steps = vec![
        TurtleStep::Object { id: 'f', age: 0 },
        TurtleStep::Scope { age: 1 },
        TurtleStep::Scale { factor: 500_000 },
        TurtleStep::Object { id: 'l', age: 1 },
        TurtleStep::ScopeEnd,
        TurtleStep::Object { id: 'o', age: 0 },
    ];
    assert_eq!(
        draw(&plain, &steps),
        vec![
            RenderShape::Line { length: ONE, width: 100_000, age: 0, last_age: 0 },
            RenderShape::Scope,
            RenderShape::Line { length: ONE, width: 200_000, age: 1, last_age: 1 },
            RenderShape::ScopeEnd { reset: false },
            RenderShape::Circle { size: 500_000, age: 0 },
        ]
    );
    assert_eq!(draw(&plain, &Vec::new()), Vec::new());
}

#[test]
fn deep_ceiling_does_not_overflow() {
    let mut tall = config("A", 1, vec![rule_set('A', &[("fA", 1_000_000)])]);
    tall.rules.iterations = u32::MAX;
    tall.growth = vec![ONE; 40];
    assert_eq!(lines(&build(&mut tall)), 40);
}
