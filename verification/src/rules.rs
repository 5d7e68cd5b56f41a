//! Production rules and the weighted, generation-gated choice among them.

use crate::rng::{draw_between, LRng};
use crate::symbols::LSymbol;
use vstd::prelude::*;
use vstd::set_lib::{lemma_int_range, set_int_range};

verus! {

/// One production rule: what the symbol is rewritten to, the weight with which
/// the rule is chosen, and the generations in which it may be chosen.
#[derive(Debug, Clone)]
pub struct LRule {
    pub result: Vec<LSymbol>,
    /// The selection weight, in millionths.
    pub chance: u32,
    /// The first generation (in millionths) in which the rule may be chosen.
    pub min_gen: Option<i64>,
    /// The first generation (in millionths) in which it may no longer be.
    pub max_gen: Option<i64>,
}

/// One alternative set of rules for a symbol.
#[derive(Debug, Clone)]
pub struct LRuleSet {
    pub chance: u32,
    pub rules: Vec<LRule>,
}

/// The alternative rule sets of one symbol, one of which is current.
#[derive(Debug, Clone)]
pub struct LRuleSets {
    pub current: usize,
    pub sets: Vec<LRuleSet>,
}

/// Whether the rule may be chosen at `age`: from `min_gen` on and before
/// `max_gen`, with no limit where a bound is absent.
pub open spec fn eligible(rule: LRule, age: int) -> bool {
    &&& rule.min_gen matches Some(low) ==> age >= low
    &&& rule.max_gen matches Some(high) ==> age < high
}

/// The weight that the rule brings to a choice at `age`: its chance where its
/// gate admits the age, nothing otherwise.
pub open spec fn weight(rule: LRule, age: int) -> int {
    if eligible(rule, age) {
        rule.chance as int
    } else {
        0
    }
}

/// The summed weight of the first `k` rules.
pub open spec fn weight_before(rules: Seq<LRule>, age: int, k: int) -> int
    decreases k,
{
    if k <= 0 {
        0
    } else {
        weight_before(rules, age, k - 1) + weight(rules[k - 1], age)
    }
}

/// The summed weight of all rules.
pub open spec fn total_weight(rules: Seq<LRule>, age: int) -> int {
    weight_before(rules, age, rules.len() as int)
}

/// Whether the roulette lands on rule `k` for the variate `n`: the rule is
/// eligible and `n` falls in the stretch of the wheel that the rule's weight
/// covers. The stretch starts where the weights before it end, so the first
/// rule whose cumulative weight exceeds `n` is the one landed on.
pub open spec fn lands_on(rules: Seq<LRule>, age: int, n: int, k: int) -> bool {
    &&& 0 <= k < rules.len()
    &&& eligible(rules[k], age)
    &&& weight_before(rules, age, k) <= n < weight_before(rules, age, k + 1)
}

/// Whether rule `k` can be chosen at all at `age`: it is eligible and has
/// weight.
pub open spec fn selectable(rules: Seq<LRule>, age: int, k: int) -> bool {
    &&& 0 <= k < rules.len()
    &&& eligible(rules[k], age)
    &&& rules[k].chance > 0
}

/// Cumulative weights never decrease.
pub proof fn lemma_weight_monotone(rules: Seq<LRule>, age: int, i: int, j: int)
    requires
        i <= j,
    ensures
        weight_before(rules, age, i) <= weight_before(rules, age, j),
        0 <= weight_before(rules, age, i),
    decreases j - i, j,
{
    if i < j {
        lemma_weight_monotone(rules, age, i, j - 1);
    } else if i > 0 {
        lemma_weight_monotone(rules, age, i - 1, i - 1);
    }
}

/// A rule is only ever landed on inside its gate: not before `min_gen`, and
/// not at `max_gen` or after it.
pub proof fn law_gate_holds(rules: Seq<LRule>, age: int, n: int, k: int)
    requires
        lands_on(rules, age, n, k),
    ensures
        rules[k].min_gen matches Some(low) ==> low <= age,
        rules[k].max_gen matches Some(high) ==> age < high,
        rules[k].chance > 0,
{
}

/// A rule inside its gate and with weight can be landed on: the variate where
/// its stretch of the wheel begins lands on it.
pub proof fn law_selectable_is_reached(rules: Seq<LRule>, age: int, k: int)
    requires
        selectable(rules, age, k),
    ensures
        0 <= weight_before(rules, age, k) < total_weight(rules, age),
        lands_on(rules, age, weight_before(rules, age, k), k),
{
    lemma_weight_monotone(rules, age, 0, k);
    lemma_weight_monotone(rules, age, k + 1, rules.len() as int);
}

/// No variate lands on two rules.
pub proof fn law_lands_on_one(rules: Seq<LRule>, age: int, n: int, j: int, k: int)
    requires
        lands_on(rules, age, n, j),
        lands_on(rules, age, n, k),
    ensures
        j == k,
{
    if j < k {
        lemma_weight_monotone(rules, age, j + 1, k);
    } else if k < j {
        lemma_weight_monotone(rules, age, k + 1, j);
    }
}

/// Each rule is landed on by as many variates as it has weight: of the
/// variates below the total weight, its share is its chance where its gate
/// admits the age, and nothing otherwise.
pub proof fn law_share_of_wheel(rules: Seq<LRule>, age: int, k: int)
    requires
        0 <= k < rules.len(),
    ensures
        Set::new(|n: int| lands_on(rules, age, n, k)).finite(),
        Set::new(|n: int| lands_on(rules, age, n, k)).len() == weight(rules[k], age),
{
    let from = weight_before(rules, age, k);
    let landed = Set::new(|n: int| lands_on(rules, age, n, k));
    assert(landed =~= set_int_range(from, from + weight(rules[k], age)));
    lemma_int_range(from, from + weight(rules[k], age));
}

impl LRule {
    /// Whether the rule's gate admits `age`.
    pub fn admits(&self, age: i64) -> (r: bool)
        ensures
            r == eligible(*self, age as int),
    {
        let low_ok = match self.min_gen {
            Some(low) => age >= low,
            None => true,
        };
        let high_ok = match self.max_gen {
            Some(high) => age < high,
            None => true,
        };
        low_ok && high_ok
    }
}

/// The summed weight of the rules that are eligible at `age`.
pub fn total_chance(rules: &Vec<LRule>, age: i64) -> (total: u128)
    ensures
        total == total_weight(rules@, age as int),
{
    let mut total: u128 = 0;
    let mut k: usize = 0;
    while k < rules.len()
        invariant
            k <= rules.len(),
            total == weight_before(rules@, age as int, k as int),
            total <= k * 0xffff_ffff,
        decreases rules.len() - k,
    {
        if rules[k].admits(age) {
            total = total + rules[k].chance as u128;
        }
        k += 1;
    }
    total
}

/// The rule that the roulette lands on for the variate `n`: the first eligible
/// rule whose cumulative weight exceeds `n`. A tie goes to the next rule. No
/// rule is landed on exactly when `n` is not below the total weight.
pub fn pick_rule_at(rules: &Vec<LRule>, age: i64, n: u64) -> (picked: Option<usize>)
    ensures
        picked is Some <==> n < total_weight(rules@, age as int),
        picked matches Some(k) ==> lands_on(rules@, age as int, n as int, k as int),
{
    let mut acc: u128 = 0;
    let mut k: usize = 0;
    while k < rules.len()
        invariant
            k <= rules.len(),
            acc == weight_before(rules@, age as int, k as int),
            acc <= n,
        decreases rules.len() - k,
    {
        if rules[k].admits(age) {
            acc = acc + rules[k].chance as u128;
            if acc > n as u128 {
                proof {
                    lemma_weight_monotone(rules@, age as int, k + 1, rules.len() as int);
                }
                return Some(k);
            }
        }
        k += 1;
    }
    None
}

/// Chooses a rule for the current generation or age: the eligible rules share
/// the wheel in proportion to their chances, and one uniform draw decides. No
/// rule comes back exactly when the eligible rules have no weight among them,
/// and then the random source is left as it was.
pub fn pick_rule<'rules>(rules: &'rules Vec<LRule>, age: i64, rng: &mut LRng) -> (picked: Option<
    &'rules Vec<LSymbol>,
>)
    ensures
        picked is None <==> total_weight(rules@, age as int) == 0,
        picked matches Some(body) ==> exists|k: int|
            selectable(rules@, age as int, k) && *body == (#[trigger] rules@[k]).result,
        total_weight(rules@, age as int) == 0 ==> *final(rng) == *old(rng),
{
    let total = total_chance(rules, age);
    proof {
        lemma_weight_monotone(rules@, age as int, 0, rules.len() as int);
    }
    if total == 0 {
        return None;
    }
    let bound: i64 = if total <= 0x7fff_ffff_ffff_ffffu128 {
        total as i64
    } else {
        i64::MAX
    };
    let n = draw_between(rng, 0, bound);
    match pick_rule_at(rules, age, n as u64) {
        Some(k) => {
            assert(selectable(rules@, age as int, k as int));
            Some(&rules[k].result)
        },
        None => None,
    }
}

} // verus!
