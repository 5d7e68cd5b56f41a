//! A grammar as it is written down, before its texts are read and its chances
//! are settled, and the step from there to the grammar that a build uses.

use crate::config::{LConfig, LSystemBuildConfig, RenderConfig};
use crate::fixed::ONE;
use crate::parser::{parse, string_to_symbols};
use crate::rules::{LRule, LRuleSet, LRuleSets};
use crate::symbols::symbols_view;
use vstd::prelude::*;

verus! {

/// A rule as written: the text of its result, and a chance and a gate where
/// they are given.
#[derive(Debug, Clone)]
pub struct RuleJSON {
    pub result: String,
    pub chance: Option<u32>,
    pub min_gen: Option<i64>,
    pub max_gen: Option<i64>,
}

/// A rule set as written.
#[derive(Debug, Clone)]
pub struct RuleSetJSON {
    pub rules: Vec<RuleJSON>,
    pub chance: Option<u32>,
}

/// A grammar as written.
#[derive(Debug, Clone)]
pub struct LSystemBuildConfigJSON {
    pub iterations: u32,
    pub initial: String,
    pub rules: Vec<(char, Vec<RuleSetJSON>)>,
}

/// The chances given among the first `k` entries, summed.
pub open spec fn explicit_sum(chances: Seq<Option<u32>>, k: int) -> int
    decreases k,
{
    if k <= 0 {
        0
    } else {
        explicit_sum(chances, k - 1) + match chances[k - 1] {
            Some(chance) => chance as int,
            None => 0,
        }
    }
}

/// How many of the first `k` entries give no chance.
pub open spec fn unspecified(chances: Seq<Option<u32>>, k: int) -> int
    decreases k,
{
    if k <= 0 {
        0
    } else {
        unspecified(chances, k - 1) + match chances[k - 1] {
            Some(_) => 0int,
            None => 1int,
        }
    }
}

/// The chance of each entry that gives none: what the given chances leave of
/// one whole, divided evenly among the entries without a chance and rounded
/// down. Where the given chances leave nothing, it is zero.
pub open spec fn share(chances: Seq<Option<u32>>) -> int {
    let left = ONE - explicit_sum(chances, chances.len() as int);
    let open = unspecified(chances, chances.len() as int);
    if open <= 0 || left <= 0 {
        0
    } else {
        left / open
    }
}

/// The chance that an entry ends up with.
pub open spec fn settled(chance: Option<u32>, share: int) -> int {
    match chance {
        Some(given) => given as int,
        None => share,
    }
}

/// The chances of a list of rules as written.
pub open spec fn rule_chances(rules: Seq<RuleJSON>) -> Seq<Option<u32>> {
    rules.map_values(|rule: RuleJSON| rule.chance)
}

/// The chances of a list of rule sets as written.
pub open spec fn set_chances(sets: Seq<RuleSetJSON>) -> Seq<Option<u32>> {
    sets.map_values(|set: RuleSetJSON| set.chance)
}

/// Whether `rule` is the written rule with its text read and its chance
/// settled.
pub open spec fn rule_built(written: RuleJSON, share: int, rule: LRule) -> bool {
    &&& symbols_view(rule.result@) == parse(written.result@)
    &&& rule.chance == settled(written.chance, share)
    &&& rule.min_gen == written.min_gen
    &&& rule.max_gen == written.max_gen
}

/// Whether `set` is the written rule set with its rules built and its chance
/// settled.
pub open spec fn set_built(written: RuleSetJSON, set_share: int, set: LRuleSet) -> bool {
    &&& set.chance == settled(written.chance, set_share)
    &&& set.rules.len() == written.rules.len()
    &&& forall|k: int|
        0 <= k < written.rules.len() ==> rule_built(
            #[trigger] written.rules[k],
            share(rule_chances(written.rules@)),
            set.rules[k],
        )
}

/// Whether `sets` are the written rule sets built, the first of them current.
pub open spec fn sets_built(written: Seq<RuleSetJSON>, sets: LRuleSets) -> bool {
    &&& sets.current == 0
    &&& sets.sets.len() == written.len()
    &&& forall|j: int|
        0 <= j < written.len() ==> set_built(
            #[trigger] written[j],
            share(set_chances(written)),
            sets.sets[j],
        )
}

/// Whether `grammar` is the written grammar built: the axiom read, and the
/// rule sets of every symbol built in the order written.
pub open spec fn grammar_built(written: LSystemBuildConfigJSON, grammar: LSystemBuildConfig) -> bool {
    &&& grammar.iterations == written.iterations
    &&& symbols_view(grammar.initial@) == parse(written.initial@)
    &&& grammar.rule_sets.len() == written.rules.len()
    &&& forall|i: int|
        0 <= i < written.rules.len() ==> (#[trigger] grammar.rule_sets[i]).0 == written.rules[i].0
            && sets_built(written.rules[i].1@, grammar.rule_sets[i].1)
}

/// The chance of each entry that gives none.
pub fn share_of(chances: &Vec<Option<u32>>) -> (r: u32)
    ensures
        r == share(chances@),
{
    let mut sum: u128 = 0;
    let mut open: usize = 0;
    let mut k: usize = 0;
    while k < chances.len()
        invariant
            k <= chances.len(),
            sum == explicit_sum(chances@, k as int),
            sum <= k * 0xffff_ffff,
            open == unspecified(chances@, k as int),
            open <= k,
        decreases chances.len() - k,
    {
        match chances[k] {
            Some(chance) => {
                sum = sum + chance as u128;
            },
            None => {
                open = open + 1;
            },
        }
        k += 1;
    }
    if open == 0 || sum >= 1_000_000 {
        0
    } else {
        let left: u128 = 1_000_000 - sum;
        (left / (open as u128)) as u32
    }
}

fn settle(chance: Option<u32>, share: u32) -> (r: u32)
    ensures
        r == settled(chance, share as int),
{
    match chance {
        Some(given) => given,
        None => share,
    }
}

fn build_rule(written: &RuleJSON, share: u32) -> (rule: LRule)
    ensures
        rule_built(*written, share as int, rule),
{
    LRule {
        result: string_to_symbols(written.result.as_str()),
        chance: settle(written.chance, share),
        min_gen: written.min_gen,
        max_gen: written.max_gen,
    }
}

fn build_set(written: &RuleSetJSON, set_share: u32) -> (set: LRuleSet)
    ensures
        set_built(*written, set_share as int, set),
{
    let mut chances: Vec<Option<u32>> = Vec::new();
    let mut k: usize = 0;
    while k < written.rules.len()
        invariant
            k <= written.rules.len(),
            chances@ == rule_chances(written.rules@).take(k as int),
        decreases written.rules.len() - k,
    {
        chances.push(written.rules[k].chance);
        assert(chances@ =~= rule_chances(written.rules@).take(k + 1));
        k += 1;
    }
    assert(chances@ =~= rule_chances(written.rules@));
    let rule_share = share_of(&chances);
    let mut rules: Vec<LRule> = Vec::new();
    let mut k: usize = 0;
    while k < written.rules.len()
        invariant
            k <= written.rules.len(),
            rules.len() == k,
            rule_share == share(rule_chances(written.rules@)),
            forall|i: int|
                0 <= i < k ==> rule_built(
                    #[trigger] written.rules[i],
                    rule_share as int,
                    rules[i],
                ),
        decreases written.rules.len() - k,
    {
        rules.push(build_rule(&written.rules[k], rule_share));
        k += 1;
    }
    LRuleSet { chance: settle(written.chance, set_share), rules }
}

fn build_sets(written: &Vec<RuleSetJSON>) -> (sets: LRuleSets)
    ensures
        sets_built(written@, sets),
{
    let mut chances: Vec<Option<u32>> = Vec::new();
    let mut j: usize = 0;
    while j < written.len()
        invariant
            j <= written.len(),
            chances@ == set_chances(written@).take(j as int),
        decreases written.len() - j,
    {
        chances.push(written[j].chance);
        assert(chances@ =~= set_chances(written@).take(j + 1));
        j += 1;
    }
    assert(chances@ =~= set_chances(written@));
    let set_share = share_of(&chances);
    let mut sets: Vec<LRuleSet> = Vec::new();
    let mut j: usize = 0;
    while j < written.len()
        invariant
            j <= written.len(),
            sets.len() == j,
            set_share == share(set_chances(written@)),
            forall|i: int| 0 <= i < j ==> set_built(#[trigger] written[i], set_share as int, sets[i]),
        decreases written.len() - j,
    {
        sets.push(build_set(&written[j], set_share));
        j += 1;
    }
    LRuleSets { current: 0, sets }
}

impl LSystemBuildConfig {
    /// Builds the grammar that was written: reads the axiom and the result of
    /// every rule, and settles the chances. In each list of rules, and in
    /// each list of rule sets, the entries that give no chance share evenly
    /// what the given chances leave of one whole.
    pub fn from(written: LSystemBuildConfigJSON) -> (grammar: LSystemBuildConfig)
        ensures
            grammar_built(written, grammar),
    {
        let initial = string_to_symbols(written.initial.as_str());
        let mut rule_sets: Vec<(char, LRuleSets)> = Vec::new();
        let mut i: usize = 0;
        while i < written.rules.len()
            invariant
                i <= written.rules.len(),
                rule_sets.len() == i,
                forall|h: int|
                    0 <= h < i ==> (#[trigger] rule_sets[h]).0 == written.rules[h].0 && sets_built(
                        written.rules[h].1@,
                        rule_sets[h].1,
                    ),
            decreases written.rules.len() - i,
        {
            let sets = build_sets(&written.rules[i].1);
            rule_sets.push((written.rules[i].0, sets));
            i += 1;
        }
        LSystemBuildConfig { iterations: written.iterations, initial, rule_sets }
    }
}

impl LConfig {
    /// The configuration that a document holds: the drawing rules as they
    /// are, the written grammar built, no growth yet and the random source
    /// seeded with zero.
    pub fn from_document(rendering: RenderConfig, written: LSystemBuildConfigJSON) -> (config:
        LConfig)
        ensures
            config.rendering == rendering,
            grammar_built(written, config.rules),
            config.growth@.len() == 0,
            config.seed == 0,
    {
        LConfig::new(rendering, LSystemBuildConfig::from(written))
    }
}

} // verus!
