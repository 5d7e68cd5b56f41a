//! What a build is configured by: how terminals are drawn, the grammar, the
//! growth curve and the random source.

use crate::rng::{draw_index, seeded, seeded_source, LRng};
use crate::rules::{pick_rule, selectable, total_weight, LRule, LRuleSets};
use crate::symbols::LSymbol;
use crate::table::{find, lookup};
use vstd::prelude::*;

verus! {

/// How a terminal symbol is drawn. Sizes are in millionths.
#[derive(Debug, Clone, Copy, PartialEq, Eq, Structural)]
pub enum Shape {
    Branch { width: i64, length: i64 },
    Line { width: i64, length: i64 },
    Circle { size: i64 },
}

/// How the turtle draws.
#[derive(Debug, Clone)]
pub struct RenderConfig {
    /// The angle, in millionths of a degree, of a rotation written without a
    /// parameter.
    pub default_angle_change: i64,
    /// The shape of each terminal symbol; a symbol without one draws nothing.
    pub shapes: Vec<(char, Shape)>,
    /// A factor on every branch width, in millionths.
    pub width_mod: Option<i64>,
}

/// The grammar: the axiom, the rule sets of each symbol and the generation
/// ceiling.
#[derive(Debug, Clone)]
pub struct LSystemBuildConfig {
    pub iterations: u32,
    pub initial: Vec<LSymbol>,
    pub rule_sets: Vec<(char, LRuleSets)>,
}

/// Everything one build reads.
pub struct LConfig {
    pub rendering: RenderConfig,
    pub rules: LSystemBuildConfig,
    /// The length multiplier of each generation, in millionths, starting with
    /// generation zero. A generation past the end has not begun to grow.
    pub growth: Vec<i64>,
    /// The random source that every draw of a build comes from.
    pub rng: LRng,
    pub seed: u64,
}

/// The mathematical content of a configuration: all of it but the random
/// source.
pub struct ConfigView {
    pub iterations: int,
    pub initial: Seq<LSymbol>,
    pub rule_sets: Seq<(char, LRuleSets)>,
    pub default_angle: int,
    pub shapes: Seq<(char, Shape)>,
    pub width_mod: Option<i64>,
    pub growth: Seq<i64>,
}

/// The content of a configuration given by its parts.
pub open spec fn view_of(
    rendering: RenderConfig,
    rules: LSystemBuildConfig,
    growth: Seq<i64>,
) -> ConfigView {
    ConfigView {
        iterations: rules.iterations as int,
        initial: rules.initial@,
        rule_sets: rules.rule_sets@,
        default_angle: rendering.default_angle_change as int,
        shapes: rendering.shapes@,
        width_mod: rendering.width_mod,
        growth,
    }
}

impl View for LConfig {
    type V = ConfigView;

    open spec fn view(&self) -> ConfigView {
        view_of(self.rendering, self.rules, self.growth@)
    }
}

/// The rules that stand for `id` at present: those of the current set of the
/// symbol's rule sets. A symbol without rule sets, or whose current set does
/// not exist, has none.
pub open spec fn active_rules(rule_sets: Seq<(char, LRuleSets)>, id: char) -> Option<Seq<LRule>> {
    match lookup(rule_sets, id) {
        Some(sets) => if sets.current < sets.sets.len() {
            Some(sets.sets[sets.current as int].rules@)
        } else {
            None
        },
        None => None,
    }
}

/// Whether `after` is `before` with nothing changed but which rule set of a
/// symbol is current, and where that changed, the current set exists.
pub open spec fn rerolled(before: Seq<(char, LRuleSets)>, after: Seq<(char, LRuleSets)>) -> bool {
    &&& after.len() == before.len()
    &&& forall|j: int|
        0 <= j < before.len() ==> {
            &&& (#[trigger] after[j]).0 == before[j].0
            &&& after[j].1.sets == before[j].1.sets
            &&& after[j].1.current == before[j].1.current || after[j].1.current
                < after[j].1.sets.len()
        }
}

/// Whether the symbols at the places `touched` are the ones rolled anew: every
/// other symbol is as it was, and every rolled symbol that has rule sets has a
/// current set that exists.
pub open spec fn rolled_among(
    before: Seq<(char, LRuleSets)>,
    after: Seq<(char, LRuleSets)>,
    touched: Set<int>,
) -> bool {
    &&& touched.finite()
    &&& forall|j: int| touched.contains(j) ==> 0 <= j < before.len()
    &&& forall|j: int|
        0 <= j < after.len() && !touched.contains(j) ==> #[trigger] after[j] == before[j]
    &&& forall|j: int|
        0 <= j < after.len() && touched.contains(j) && (#[trigger] after[j]).1.sets.len() > 0
            ==> after[j].1.current < after[j].1.sets.len()
}

/// The rule sets after one pick `(place, set)`: the symbol at `place` has
/// `set` as its current rule set. A pick of a place or of a set that does not
/// exist changes nothing.
pub open spec fn rolled_one(entries: Seq<(char, LRuleSets)>, pick: (usize, usize)) -> Seq<
    (char, LRuleSets),
> {
    if pick.0 < entries.len() && pick.1 < entries[pick.0 as int].1.sets.len() {
        entries.update(
            pick.0 as int,
            (
                entries[pick.0 as int].0,
                LRuleSets { current: pick.1, sets: entries[pick.0 as int].1.sets },
            ),
        )
    } else {
        entries
    }
}

/// The rule sets after the picks, taken one after another.
pub open spec fn rolled(entries: Seq<(char, LRuleSets)>, picks: Seq<(usize, usize)>) -> Seq<
    (char, LRuleSets),
>
    decreases picks.len(),
{
    if picks.len() == 0 {
        entries
    } else {
        rolled_one(rolled(entries, picks.drop_last()), picks.last())
    }
}

/// Whether the picks name places and sets that exist, and no place twice.
pub open spec fn picks_fit(entries: Seq<(char, LRuleSets)>, picks: Seq<(usize, usize)>) -> bool {
    &&& forall|i: int|
        0 <= i < picks.len() ==> (#[trigger] picks[i]).0 < entries.len() && picks[i].1
            < entries[picks[i].0 as int].1.sets.len()
    &&& forall|i: int, j: int|
        0 <= i < j < picks.len() ==> (#[trigger] picks[i]).0 != (#[trigger] picks[j]).0
}

/// Picks that fit all take hold: every picked symbol has the picked set as
/// its current one, every other symbol is as it was, and no key and no list
/// of rule sets changes.
pub proof fn law_picks_take_hold(entries: Seq<(char, LRuleSets)>, picks: Seq<(usize, usize)>)
    requires
        picks_fit(entries, picks),
    ensures
        rolled(entries, picks).len() == entries.len(),
        forall|i: int|
            0 <= i < picks.len() ==> rolled(entries, picks)[(#[trigger] picks[i]).0 as int].1.current
                == picks[i].1,
        forall|j: int|
            0 <= j < entries.len() ==> (#[trigger] rolled(entries, picks)[j]).0 == entries[j].0
                && rolled(entries, picks)[j].1.sets == entries[j].1.sets,
        forall|j: int|
            0 <= j < entries.len() && (forall|i: int|
                0 <= i < picks.len() ==> (#[trigger] picks[i]).0 != j) ==> #[trigger] rolled(
                entries,
                picks,
            )[j] == entries[j],
    decreases picks.len(),
{
    if picks.len() > 0 {
        let before = picks.drop_last();
        law_picks_take_hold(entries, before);
        let last = picks.last();
        assert forall|i: int| 0 <= i < picks.len() implies rolled(entries, picks)[(
        #[trigger] picks[i]).0 as int].1.current == picks[i].1 by {
            if i < picks.len() - 1 {
                assert(before[i] == picks[i]);
                assert(picks[i].0 != picks[picks.len() - 1].0);
            }
        }
        assert forall|j: int|
            0 <= j < entries.len() && (forall|i: int|
                0 <= i < picks.len() ==> (#[trigger] picks[i]).0 != j) implies #[trigger] rolled(
            entries,
            picks,
        )[j] == entries[j] by {
            assert(picks[picks.len() - 1].0 != j);
            assert forall|i: int| 0 <= i < before.len() implies (#[trigger] before[i]).0 != j by {
                assert(before[i] == picks[i]);
            }
        }
    }
}

impl LSystemBuildConfig {
    /// The rules that stand for `id` at present.
    pub fn current_rules(&self, id: char) -> (found: Option<&Vec<LRule>>)
        ensures
            match found {
                Some(list) => active_rules(self.rule_sets@, id) == Some(list@),
                None => active_rules(self.rule_sets@, id) is None,
            },
    {
        match find(&self.rule_sets, id) {
            Some(i) => {
                let sets = &self.rule_sets[i].1;
                if sets.current < sets.sets.len() {
                    Some(&sets.sets[sets.current].rules)
                } else {
                    None
                }
            },
            None => None,
        }
    }
}

impl Default for RenderConfig {
    /// Drawing rules with no shape and a default angle of zero.
    fn default() -> (config: RenderConfig)
        ensures
            config.default_angle_change == 0,
            config.shapes@.len() == 0,
            config.width_mod is None,
    {
        RenderConfig { default_angle_change: 0, shapes: Vec::new(), width_mod: None }
    }
}

impl Default for LSystemBuildConfig {
    /// The empty grammar: no axiom, no rules, no iterations.
    fn default() -> (grammar: LSystemBuildConfig)
        ensures
            grammar.iterations == 0,
            grammar.initial@.len() == 0,
            grammar.rule_sets@.len() == 0,
    {
        LSystemBuildConfig { iterations: 0, initial: Vec::new(), rule_sets: Vec::new() }
    }
}

impl Default for LConfig {
    /// The empty configuration, its random source seeded with zero.
    fn default() -> (config: LConfig)
        ensures
            config@.iterations == 0,
            config@.initial.len() == 0,
            config@.rule_sets.len() == 0,
            config@.default_angle == 0,
            config@.shapes.len() == 0,
            config@.width_mod is None,
            config@.growth.len() == 0,
            config.seed == 0,
    {
        LConfig::new(RenderConfig::default(), LSystemBuildConfig::default())
    }
}

impl LConfig {
    /// A configuration with the given drawing rules and grammar, an empty
    /// growth curve and the random source seeded with zero.
    pub fn new(rendering: RenderConfig, rules: LSystemBuildConfig) -> (config: LConfig)
        ensures
            config.rendering == rendering,
            config.rules == rules,
            config.growth@.len() == 0,
            config@ == view_of(rendering, rules, Seq::empty()),
            config.seed == 0,
            config.rng == seeded_source(0),
    {
        LConfig { rendering, rules, growth: Vec::new(), rng: seeded(0), seed: 0 }
    }

    /// Replaces the random source by the one that the seed determines,
    /// whatever state it was in.
    pub fn reseed(&mut self, seed: u64)
        ensures
            final(self)@ == old(self)@,
            final(self).seed == seed,
            final(self).rng == seeded_source(seed),
    {
        self.rng = seeded(seed);
        self.seed = seed;
    }

    /// Chooses a rule for `id` at the given generation or age and hands out
    /// its result. A symbol without rules at present has none to choose, and
    /// where nothing can be chosen the random source is left as it was.
    pub fn get_rule(&mut self, id: &char, age: i64) -> (picked: Option<&Vec<LSymbol>>)
        ensures
            final(self)@ == old(self)@,
            final(self).seed == old(self).seed,
            match active_rules(old(self)@.rule_sets, *id) {
                None => picked is None && final(self).rng == old(self).rng,
                Some(rules) => {
                    &&& picked is None <==> total_weight(rules, age as int) == 0
                    &&& picked matches Some(body) ==> exists|k: int|
                        selectable(rules, age as int, k) && *body == (#[trigger] rules[k]).result
                    &&& total_weight(rules, age as int) == 0 ==> final(self).rng == old(self).rng
                },
            },
    {
        match self.rules.current_rules(*id) {
            Some(list) => pick_rule(list, age, &mut self.rng),
            None => None,
        }
    }

    /// Makes the picked rule sets current: each pick `(place, set)` names a
    /// symbol by its place among the rule sets and the set that is to be its
    /// current one. The picks are taken one after another, and a pick of a
    /// place or a set that does not exist is passed over. Nothing else
    /// changes, and the random source is not touched.
    pub fn roll_with(&mut self, picks: &Vec<(usize, usize)>)
        ensures
            final(self).rules.rule_sets@ == rolled(old(self).rules.rule_sets@, picks@),
            final(self).rules.iterations == old(self).rules.iterations,
            final(self).rules.initial == old(self).rules.initial,
            final(self).rendering == old(self).rendering,
            final(self).growth == old(self).growth,
            final(self).seed == old(self).seed,
            final(self).rng == old(self).rng,
    {
        let mut i: usize = 0;
        assert(picks@.take(0) =~= Seq::<(usize, usize)>::empty());
        while i < picks.len()
            invariant
                i <= picks.len(),
                self.rules.rule_sets@ == rolled(old(self).rules.rule_sets@, picks@.take(i as int)),
                self.rules.iterations == old(self).rules.iterations,
                self.rules.initial == old(self).rules.initial,
                self.rendering == old(self).rendering,
                self.growth == old(self).growth,
                self.seed == old(self).seed,
                self.rng == old(self).rng,
            decreases picks.len() - i,
        {
            let ghost before = self.rules.rule_sets@;
            let (place, set) = picks[i];
            if place < self.rules.rule_sets.len() && set < self.rules.rule_sets[place].1.sets.len() {
                self.rules.rule_sets[place].1.current = set;
            }
            proof {
                assert(picks@.take(i + 1).drop_last() =~= picks@.take(i as int));
                assert(picks@.take(i + 1).last() == picks@[i as int]);
                assert(self.rules.rule_sets@ =~= rolled_one(before, picks@[i as int]));
            }
            i += 1;
        }
        assert(picks@.take(picks.len() as int) =~= picks@);
    }

    /// Rolls anew which rule set is current: for every symbol, or with
    /// `Some(n)` for `n` symbols drawn at random without drawing one twice
    /// (for all of them where there are fewer). The draws are made first and
    /// then taken as picks. No rule and no rule set changes, a symbol without
    /// rule sets is left as it is, and where there is nothing to roll the
    /// random source is left as it was.
    pub fn randomize_rule_sets(&mut self, n: Option<u32>)
        ensures
            exists|picks: Seq<(usize, usize)>|
                picks_fit(old(self).rules.rule_sets@, picks) && final(self).rules.rule_sets@
                    == #[trigger] rolled(old(self).rules.rule_sets@, picks),
            rerolled(old(self).rules.rule_sets@, final(self).rules.rule_sets@),
            n is None ==> forall|j: int|
                0 <= j < final(self).rules.rule_sets.len() && (#[trigger] final(self).rules.rule_sets[j]).1.sets.len() > 0 ==> final(self).rules.rule_sets[j].1.current
                    < final(self).rules.rule_sets[j].1.sets.len(),
            n matches Some(limit) ==> exists|touched: Set<int>|
                #[trigger] rolled_among(
                    old(self).rules.rule_sets@,
                    final(self).rules.rule_sets@,
                    touched,
                ) && touched.len() == if limit <= old(self).rules.rule_sets.len() {
                    limit as int
                } else {
                    old(self).rules.rule_sets.len() as int
                },
            n == Some(0u32) || old(self).rules.rule_sets.len() == 0 ==> final(self).rng == old(
                self,
            ).rng,
            final(self).rules.iterations == old(self).rules.iterations,
            final(self).rules.initial == old(self).rules.initial,
            final(self).rendering == old(self).rendering,
            final(self).growth == old(self).growth,
            final(self).seed == old(self).seed,
    {
        let count = self.rules.rule_sets.len();
        let ghost entries = self.rules.rule_sets@;
        let mut picks: Vec<(usize, usize)> = Vec::new();
        let ghost mut touched: Set<int> = Set::empty();
        match n {
            None => {
                let mut j: usize = 0;
                while j < count
                    invariant
                        j <= count,
                        count == entries.len(),
                        *self == *old(self) || j > 0,
                        self.rules == old(self).rules,
                        self.rendering == old(self).rendering,
                        self.growth == old(self).growth,
                        self.seed == old(self).seed,
                        entries == self.rules.rule_sets@,
                        picks_fit(entries, picks@),
                        forall|i: int| 0 <= i < picks.len() ==> (#[trigger] picks[i]).0 < j,
                        forall|h: int|
                            0 <= h < j && (#[trigger] entries[h]).1.sets.len() > 0 ==> exists|
                                i: int,
                            |
                                0 <= i < picks.len() && (#[trigger] picks[i]).0 == h,
                    decreases count - j,
                {
                    let sets = self.rules.rule_sets[j].1.sets.len();
                    if sets > 0 {
                        let current = draw_index(&mut self.rng, sets);
                        let ghost had = picks@;
                        picks.push((j, current));
                        assert forall|h: int|
                            0 <= h < j + 1 && (#[trigger] entries[h]).1.sets.len() > 0 implies exists|
                            i: int,
                        |
                            0 <= i < picks.len() && (#[trigger] picks[i]).0 == h by {
                            if h < j {
                                let i = choose|i: int|
                                    0 <= i < had.len() && (#[trigger] had[i]).0 == h;
                                assert(picks[i] == had[i]);
                            } else {
                                assert(picks[picks.len() - 1].0 == h);
                            }
                        }
                    }
                    j += 1;
                }
            },
            Some(limit) => {
                let mut remaining: Vec<usize> = Vec::new();
                let mut j: usize = 0;
                while j < count
                    invariant
                        j <= count,
                        remaining.len() == j,
                        forall|h: int| 0 <= h < j ==> #[trigger] remaining[h] == h,
                    decreases count - j,
                {
                    remaining.push(j);
                    j += 1;
                }
                let mut round: u32 = 0;
                while round < limit && remaining.len() > 0
                    invariant
                        round <= limit,
                        count == entries.len(),
                        remaining.len() + round == count,
                        forall|h: int|
                            0 <= h < remaining.len() ==> (#[trigger] remaining[h]) < count
                                && !touched.contains(remaining[h] as int),
                        forall|a: int, b: int|
                            0 <= a < b < remaining.len() ==> #[trigger] remaining[a]
                                != #[trigger] remaining[b],
                        round == 0 ==> *self == *old(self),
                        self.rules == old(self).rules,
                        self.rendering == old(self).rendering,
                        self.growth == old(self).growth,
                        self.seed == old(self).seed,
                        entries == self.rules.rule_sets@,
                        picks_fit(entries, picks@),
                        touched.finite(),
                        touched.len() == round,
                        forall|h: int| touched.contains(h) ==> 0 <= h < count,
                        forall|i: int|
                            0 <= i < picks.len() ==> touched.contains((#[trigger] picks[i]).0 as int),
                        forall|h: int|
                            touched.contains(h) && (#[trigger] entries[h]).1.sets.len() > 0
                                ==> exists|i: int|
                                0 <= i < picks.len() && (#[trigger] picks[i]).0 == h,
                    decreases limit - round,
                {
                    let at = draw_index(&mut self.rng, remaining.len());
                    let ghost listed = remaining@;
                    let j = remaining.remove(at);
                    assert forall|h: int| 0 <= h < remaining.len() implies (#[trigger] remaining[h])
                        < count && !touched.contains(remaining[h] as int) && remaining[h] != j by {
                        if h < at {
                            assert(remaining[h] == listed[h]);
                        } else {
                            assert(remaining[h] == listed[h + 1]);
                        }
                    }
                    assert forall|a: int, b: int| 0 <= a < b < remaining.len() implies #[trigger]
                        remaining[a] != #[trigger] remaining[b] by {
                        let from_a = if a < at {
                            a
                        } else {
                            a + 1
                        };
                        let from_b = if b < at {
                            b
                        } else {
                            b + 1
                        };
                        assert(remaining[a] == listed[from_a]);
                        assert(remaining[b] == listed[from_b]);
                    }
                    let sets = self.rules.rule_sets[j].1.sets.len();
                    let ghost had = picks@;
                    let ghost marked = touched;
                    if sets > 0 {
                        let current = draw_index(&mut self.rng, sets);
                        picks.push((j, current));
                    }
                    proof {
                        touched = touched.insert(j as int);
                        assert forall|h: int|
                            touched.contains(h) && (#[trigger] entries[h]).1.sets.len()
                                > 0 implies exists|i: int|
                            0 <= i < picks.len() && (#[trigger] picks[i]).0 == h by {
                            if h == j {
                                assert(picks[picks.len() - 1].0 == h);
                            } else {
                                let i = choose|i: int|
                                    0 <= i < had.len() && (#[trigger] had[i]).0 == h;
                                assert(picks[i] == had[i]);
                            }
                        }
                    }
                    round += 1;
                }
            },
        }
        proof {
            law_picks_take_hold(entries, picks@);
        }
        self.roll_with(&picks);
        proof {
            let after = self.rules.rule_sets@;
            assert forall|j: int| 0 <= j < entries.len() implies {
                &&& (#[trigger] after[j]).0 == entries[j].0
                &&& after[j].1.sets == entries[j].1.sets
                &&& after[j].1.current == entries[j].1.current || after[j].1.current
                    < after[j].1.sets.len()
            } by {
                if exists|i: int| 0 <= i < picks.len() && (#[trigger] picks[i]).0 == j {
                    let i = choose|i: int| 0 <= i < picks.len() && (#[trigger] picks[i]).0 == j;
                    assert(after[picks[i].0 as int].1.current == picks[i].1);
                }
            }
            if n is Some {
                assert forall|j: int|
                    0 <= j < after.len() && touched.contains(j) && (#[trigger] after[j]).1.sets.len()
                        > 0 implies after[j].1.current < after[j].1.sets.len() by {
                    assert(entries[j].1.sets.len() > 0);
                    let i = choose|i: int| 0 <= i < picks.len() && (#[trigger] picks[i]).0 == j;
                    assert(after[picks[i].0 as int].1.current == picks[i].1);
                }
                assert(rolled_among(entries, after, touched));
            } else {
                assert forall|j: int|
                    0 <= j < after.len() && (#[trigger] after[j]).1.sets.len()
                        > 0 implies after[j].1.current < after[j].1.sets.len() by {
                    assert(entries[j].1.sets.len() > 0);
                    let i = choose|i: int| 0 <= i < picks.len() && (#[trigger] picks[i]).0 == j;
                    assert(after[picks[i].0 as int].1.current == picks[i].1);
                }
            }
        }
    }
}

} // verus!
