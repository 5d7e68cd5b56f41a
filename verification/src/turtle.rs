//! The turtle: it walks the symbols of a grammar, rewrites each rule symbol
//! on the way down to the generation ceiling, and records what to draw.
//!
//! A build is random, so it is described in two parts. A *derivation* is the
//! sequence of resolved steps that some run of the random source can produce
//! from the symbols ([`expands_to`]). What the turtle records for a given
//! derivation is a function of it ([`interpret`]).

use crate::config::{active_rules, view_of, ConfigView, LConfig, LSystemBuildConfig, RenderConfig, Shape};
use crate::fixed::{fixed_mul, spec_fixed_mul, ONE};
use crate::rng::LRng;
use crate::rules::{pick_rule, selectable, total_weight};
use crate::symbols::{admits, Axis, LSymbol, SymbolView};
use crate::table::{find, lookup};
use vstd::prelude::*;

verus! {

/// A generation whose length multiplier is below this many millionths has not
/// grown enough to be rewritten further.
pub const GROWTH_EPSILON: i64 = 1_000;

/// One entry of the turtle's stack: the scale in force, in millionths, and the
/// generation in which the entry was opened.
#[derive(Debug, Clone, Copy, PartialEq, Eq, Structural)]
pub struct State {
    pub scale: i64,
    pub age: u64,
}

/// What the turtle records. Lengths, widths, sizes and angles are in
/// millionths; ages are generations.
#[derive(Debug, Clone, Copy, PartialEq, Eq, Structural)]
pub enum RenderShape {
    /// A segment of the given length along the turtle's heading, which moves
    /// the turtle to its far end.
    Line { length: i64, width: i64, age: u64, last_age: u64 },
    /// A sphere where the turtle stands.
    Circle { size: i64, age: u64 },
    /// A rotation of the turtle about one of its own axes, in degrees.
    Turn { axis: Axis, angle: i64 },
    /// A branch opens: the turtle's pose is saved.
    Scope,
    /// A branch closes: the saved pose comes back. Where no branch was open,
    /// `reset` is set and the turtle starts over from the root pose.
    ScopeEnd { reset: bool },
}

/// One resolved step of a derivation: a symbol with its number drawn and its
/// generation attached.
#[derive(Debug, Clone, Copy, PartialEq, Eq, Structural)]
pub enum TurtleStep {
    Scope { age: u64 },
    ScopeEnd,
    Object { id: char, age: u64 },
    Turn { axis: Axis, angle: i64 },
    Scale { factor: i64 },
}

/// The turtle as a mathematical value: its stack and what it has recorded.
pub struct Turtle {
    pub states: Seq<State>,
    pub shapes: Seq<RenderShape>,
}

/// The turtle with the given stack and record.
pub open spec fn turtle_of(states: Seq<State>, shapes: Seq<RenderShape>) -> Turtle {
    Turtle { states, shapes }
}

/// The state of a turtle that has not moved: unit scale, generation zero.
pub open spec fn root_state() -> State {
    State { scale: ONE, age: 0 }
}

/// The turtle before its first step.
pub open spec fn start() -> Turtle {
    Turtle { states: seq![root_state()], shapes: Seq::empty() }
}

/// The length multiplier of generation `g`.
pub open spec fn growth_at(growth: Seq<i64>, g: int) -> int {
    if 0 <= g < growth.len() {
        growth[g] as int
    } else {
        0
    }
}

/// A generation as a fixed-point number, as the gates of rules are written.
pub open spec fn age_of(g: int) -> int {
    g * ONE
}

/// Whether a rule symbol met in generation `g` is rewritten: the grammar has
/// iterations at all, the generation is not past the ceiling, and the
/// generation has grown enough.
pub open spec fn expandable(iterations: int, growth: Seq<i64>, g: int) -> bool {
    &&& iterations > 0
    &&& g <= iterations
    &&& growth_at(growth, g) >= GROWTH_EPSILON
}

/// The shape that a terminal draws in a state, if the symbol has one.
pub open spec fn drawn_shape(
    shapes: Seq<(char, Shape)>,
    width_mod: Option<i64>,
    id: char,
    age: u64,
    state: State,
    len_mod: int,
) -> Option<RenderShape> {
    let widen = match width_mod {
        Some(factor) => factor as int,
        None => ONE as int,
    };
    match lookup(shapes, id) {
        None => None,
        Some(Shape::Circle { size }) => Some(
            RenderShape::Circle { size: spec_fixed_mul(size as int, state.scale as int) as i64, age },
        ),
        Some(Shape::Line { width, length }) => Some(
            RenderShape::Line {
                length: spec_fixed_mul(
                    spec_fixed_mul(length as int, len_mod),
                    state.scale as int,
                ) as i64,
                width: spec_fixed_mul(width as int, widen) as i64,
                age,
                last_age: state.age,
            },
        ),
        Some(Shape::Branch { width, length }) => Some(
            RenderShape::Line {
                length: spec_fixed_mul(
                    spec_fixed_mul(length as int, len_mod),
                    state.scale as int,
                ) as i64,
                width: spec_fixed_mul(width as int, widen) as i64,
                age,
                last_age: state.age,
            },
        ),
    }
}

/// The turtle after one step. A step leaves a turtle without a state as it is;
/// no turtle that started with one ever loses its last.
pub open spec fn advance(c: ConfigView, t: Turtle, step: TurtleStep) -> Turtle {
    if t.states.len() == 0 {
        t
    } else {
        let top = t.states.last();
        match step {
            TurtleStep::Scope { age } => Turtle {
                states: t.states.push(State { scale: top.scale, age }),
                shapes: t.shapes.push(RenderShape::Scope),
            },
            TurtleStep::ScopeEnd => if t.states.len() > 1 {
                Turtle {
                    states: t.states.drop_last(),
                    shapes: t.shapes.push(RenderShape::ScopeEnd { reset: false }),
                }
            } else {
                Turtle {
                    states: seq![root_state()],
                    shapes: t.shapes.push(RenderShape::ScopeEnd { reset: true }),
                }
            },
            TurtleStep::Object { id, age } => match drawn_shape(
                c.shapes,
                c.width_mod,
                id,
                age,
                top,
                growth_at(c.growth, age as int),
            ) {
                Some(shape) => Turtle { states: t.states, shapes: t.shapes.push(shape) },
                None => t,
            },
            TurtleStep::Turn { axis, angle } => Turtle {
                states: t.states,
                shapes: t.shapes.push(RenderShape::Turn { axis, angle }),
            },
            TurtleStep::Scale { factor } => Turtle {
                states: t.states.update(
                    t.states.len() - 1,
                    State {
                        scale: spec_fixed_mul(top.scale as int, factor as int) as i64,
                        age: top.age,
                    },
                ),
                shapes: t.shapes,
            },
        }
    }
}

/// The turtle after a sequence of steps.
pub open spec fn interpret(c: ConfigView, t: Turtle, steps: Seq<TurtleStep>) -> Turtle
    decreases steps.len(),
{
    if steps.len() == 0 {
        t
    } else {
        advance(c, interpret(c, t, steps.drop_last()), steps.last())
    }
}

/// Whether `step` is a resolution of the symbol in generation `g`: the symbol
/// itself with the generation attached, and for a rotation or a scale a number
/// that its parameter can yield. A rule symbol has no resolution.
pub open spec fn resolves_to(symbol: SymbolView, default_angle: int, g: int, step: TurtleStep) -> bool {
    match symbol {
        SymbolView::Scope => step == (TurtleStep::Scope { age: g as u64 }),
        SymbolView::ScopeEnd => step == TurtleStep::ScopeEnd,
        SymbolView::Object { id } => step == (TurtleStep::Object { id, age: g as u64 }),
        SymbolView::Rotate { axis, values } => {
            &&& step matches TurtleStep::Turn { axis: about, angle }
            &&& about == axis
            &&& admits(values, default_angle, angle as int)
        },
        SymbolView::Scale(values) => {
            &&& step matches TurtleStep::Scale { factor }
            &&& admits(values, ONE as int, factor as int)
        },
        SymbolView::Rule(_) => false,
    }
}

/// How many generations may still be entered from generation `g`.
pub open spec fn depth_left(iterations: int, g: int) -> nat {
    if g <= iterations {
        (iterations + 1 - g) as nat
    } else {
        0
    }
}

/// Whether `steps` is a derivation of `symbols` in generation `g`: the
/// derivations of the symbols one after another.
pub open spec fn expands_to(c: ConfigView, symbols: Seq<LSymbol>, g: int, steps: Seq<TurtleStep>) -> bool
    decreases depth_left(c.iterations, g), symbols.len(), 1nat,
{
    if symbols.len() == 0 {
        steps.len() == 0
    } else {
        exists|k: int|
            {
                &&& 0 <= k <= steps.len()
                &&& expands_to(c, symbols.drop_last(), g, #[trigger] steps.subrange(0, k))
                &&& symbol_expands_to(
                    c,
                    symbols.last(),
                    g,
                    steps.subrange(k, steps.len() as int),
                )
            }
    }
}

/// Whether `steps` is a derivation of one symbol in generation `g`. A symbol
/// other than a rule gives one step, a resolution of it. A rule symbol gives
/// nothing where it is not rewritten: past the ceiling, before the generation
/// has grown, without rules, or where the eligible rules have no weight.
/// Otherwise it gives a derivation, in the next generation, of the body of a
/// rule that can be selected.
pub open spec fn symbol_expands_to(c: ConfigView, symbol: LSymbol, g: int, steps: Seq<TurtleStep>) -> bool
    decreases depth_left(c.iterations, g), 0nat, 0nat,
{
    match symbol@ {
        SymbolView::Rule(id) => {
            if !expandable(c.iterations, c.growth, g) {
                steps.len() == 0
            } else {
                match active_rules(c.rule_sets, id) {
                    None => steps.len() == 0,
                    Some(rules) => if total_weight(rules, age_of(g)) == 0 {
                        steps.len() == 0
                    } else {
                        exists|k: int|
                            #[trigger] selectable(rules, age_of(g), k) && expands_to(
                                c,
                                rules[k].result@,
                                g + 1,
                                steps,
                            )
                    },
                }
            }
        },
        other => steps.len() == 1 && resolves_to(other, c.default_angle, g, steps[0]),
    }
}

/// Steps taken one after another: the turtle after `a + b` is the turtle
/// after `b`, started where `a` left it.
pub proof fn lemma_interpret_append(c: ConfigView, t: Turtle, a: Seq<TurtleStep>, b: Seq<TurtleStep>)
    ensures
        interpret(c, t, a + b) == interpret(c, interpret(c, t, a), b),
    decreases b.len(),
{
    if b.len() == 0 {
        assert(a + b =~= a);
    } else {
        assert((a + b).drop_last() =~= a + b.drop_last());
        lemma_interpret_append(c, t, a, b.drop_last());
    }
}

/// A single step is one advance.
pub proof fn lemma_interpret_one(c: ConfigView, t: Turtle, step: TurtleStep)
    ensures
        interpret(c, t, seq![step]) == advance(c, t, step),
{
    assert(seq![step].drop_last() =~= Seq::<TurtleStep>::empty());
    assert(interpret(c, t, seq![step].drop_last()) == t);
}

/// The turtle's stack is never empty: no step, not even a closing bracket
/// that closes nothing, takes its last state.
pub proof fn law_stack_never_empty(c: ConfigView, t: Turtle, steps: Seq<TurtleStep>)
    requires
        t.states.len() >= 1,
    ensures
        interpret(c, t, steps).states.len() >= 1,
    decreases steps.len(),
{
    if steps.len() > 0 {
        law_stack_never_empty(c, t, steps.drop_last());
    }
}

/// A derivation of the first `i` symbols, followed by a derivation of the
/// next symbol, is a derivation of the first `i + 1`.
pub proof fn lemma_expands_next(
    c: ConfigView,
    symbols: Seq<LSymbol>,
    i: int,
    g: int,
    before: Seq<TurtleStep>,
    next: Seq<TurtleStep>,
)
    requires
        0 <= i < symbols.len(),
        expands_to(c, symbols.take(i), g, before),
        symbol_expands_to(c, symbols[i], g, next),
    ensures
        expands_to(c, symbols.take(i + 1), g, before + next),
{
    let all = before + next;
    let k = before.len() as int;
    assert(symbols.take(i + 1).drop_last() =~= symbols.take(i));
    assert(symbols.take(i + 1).last() == symbols[i]);
    assert(all.subrange(0, k) =~= before);
    assert(all.subrange(k, all.len() as int) =~= next);
}

/// A closing bracket that closes nothing puts the turtle back to its root
/// state, and says so in what it records.
pub proof fn law_unmatched_close_resets(c: ConfigView, t: Turtle)
    requires
        t.states.len() == 1,
    ensures
        advance(c, t, TurtleStep::ScopeEnd).states == seq![root_state()],
        advance(c, t, TurtleStep::ScopeEnd).shapes == t.shapes.push(
            RenderShape::ScopeEnd { reset: true },
        ),
{
}

/// How many branches stand open after the recorded shapes: an opening
/// bracket opens one, a closing bracket closes one, and a closing bracket that
/// resets the turtle leaves none open.
pub open spec fn open_branches(shapes: Seq<RenderShape>) -> int
    decreases shapes.len(),
{
    if shapes.len() == 0 {
        0
    } else {
        let before = open_branches(shapes.drop_last());
        match shapes.last() {
            RenderShape::Scope => before + 1,
            RenderShape::ScopeEnd { reset } => if reset {
                0
            } else {
                before - 1
            },
            _ => before,
        }
    }
}

/// Whether every closing bracket among the shapes tells the truth: it resets
/// the turtle exactly where no branch stands open before it.
pub open spec fn well_bracketed(shapes: Seq<RenderShape>) -> bool {
    forall|i: int|
        0 <= i < shapes.len() ==> (#[trigger] shapes[i] matches RenderShape::ScopeEnd { reset }
            ==> (reset <==> open_branches(shapes.take(i)) == 0))
}

/// Whether the turtle's stack and its record agree: the stack holds the root
/// and one state for every branch that stands open, and the record is well
/// bracketed.
pub open spec fn in_step(t: Turtle) -> bool {
    &&& t.states.len() == open_branches(t.shapes) + 1
    &&& well_bracketed(t.shapes)
}

/// One step keeps stack and record in agreement.
proof fn lemma_advance_in_step(c: ConfigView, t: Turtle, step: TurtleStep)
    requires
        in_step(t),
    ensures
        in_step(advance(c, t, step)),
{
    let after = advance(c, t, step);
    if after.shapes != t.shapes {
        let added = after.shapes.last();
        assert(after.shapes =~= t.shapes.push(added));
        assert(after.shapes.drop_last() =~= t.shapes);
        assert forall|i: int| 0 <= i < after.shapes.len() implies (
        #[trigger] after.shapes[i] matches RenderShape::ScopeEnd { reset } ==> (reset
            <==> open_branches(after.shapes.take(i)) == 0)) by {
            if i < t.shapes.len() {
                assert(after.shapes.take(i) =~= t.shapes.take(i));
                assert(after.shapes[i] == t.shapes[i]);
            } else {
                assert(after.shapes.take(i) =~= t.shapes);
            }
        }
    }
}

/// Stack discipline: whatever steps the turtle takes from its start, its
/// stack holds one state for every open branch above the root, and a closing
/// bracket resets the turtle exactly where it has no branch to close.
pub proof fn law_brackets_match(c: ConfigView, t: Turtle, steps: Seq<TurtleStep>)
    requires
        in_step(t),
    ensures
        in_step(interpret(c, t, steps)),
    decreases steps.len(),
{
    if steps.len() > 0 {
        law_brackets_match(c, t, steps.drop_last());
        lemma_advance_in_step(c, interpret(c, t, steps.drop_last()), steps.last());
    }
}

/// The symbols without the rule symbols among them.
pub open spec fn without_rules(symbols: Seq<LSymbol>) -> Seq<LSymbol>
    decreases symbols.len(),
{
    if symbols.len() == 0 {
        Seq::empty()
    } else if symbols.last()@ is Rule {
        without_rules(symbols.drop_last())
    } else {
        without_rules(symbols.drop_last()).push(symbols.last())
    }
}

/// Whether `steps` resolves `symbols` one for one in generation `g`.
pub open spec fn resolves_each(c: ConfigView, symbols: Seq<LSymbol>, g: int, steps: Seq<TurtleStep>) -> bool {
    &&& steps.len() == symbols.len()
    &&& forall|i: int|
        0 <= i < symbols.len() ==> resolves_to(
            (#[trigger] symbols[i])@,
            c.default_angle,
            g,
            steps[i],
        )
}

/// Where rule symbols are not rewritten, a derivation holds the other symbols
/// and nothing else: one step for each, in order and in the same generation.
/// A grammar with no iterations rewrites in no generation, so its build holds
/// the terminals of the axiom only, however many rule symbols the axiom has.
pub proof fn law_ceiling(c: ConfigView, symbols: Seq<LSymbol>, g: int, steps: Seq<TurtleStep>)
    requires
        !expandable(c.iterations, c.growth, g),
        expands_to(c, symbols, g, steps),
    ensures
        resolves_each(c, without_rules(symbols), g, steps),
    decreases symbols.len(),
{
    if symbols.len() > 0 {
        let k = choose|k: int|
            {
                &&& 0 <= k <= steps.len()
                &&& expands_to(c, symbols.drop_last(), g, #[trigger] steps.subrange(0, k))
                &&& symbol_expands_to(c, symbols.last(), g, steps.subrange(k, steps.len() as int))
            };
        let head = steps.subrange(0, k);
        let tail = steps.subrange(k, steps.len() as int);
        law_ceiling(c, symbols.drop_last(), g, head);
        if symbols.last()@ is Rule {
            assert(steps =~= head);
        } else {
            assert(steps =~= head.push(tail[0]));
        }
    }
}

/// A grammar with no iterations rewrites nothing: whatever the generation, a
/// derivation holds one step for each symbol that is not a rule symbol, and
/// nothing for the rule symbols.
pub proof fn law_no_iterations(c: ConfigView, symbols: Seq<LSymbol>, g: int, steps: Seq<TurtleStep>)
    requires
        c.iterations == 0,
        expands_to(c, symbols, g, steps),
    ensures
        resolves_each(c, without_rules(symbols), g, steps),
{
    law_ceiling(c, symbols, g, steps);
}

impl State {
    /// The state of a turtle that has not moved.
    pub fn root() -> (state: State)
        ensures
            state == root_state(),
    {
        State { scale: ONE, age: 0 }
    }

    /// A copy of this state for a branch opened in generation `age`.
    pub fn fork(&self, age: u64) -> (state: State)
        ensures
            state == (State { scale: self.scale, age }),
    {
        State { scale: self.scale, age }
    }
}

/// The length multiplier of generation `g`.
pub fn growth_of(growth: &Vec<i64>, g: u64) -> (m: i64)
    ensures
        m == growth_at(growth@, g as int),
{
    if g < growth.len() as u64 {
        growth[g as usize]
    } else {
        0
    }
}

/// Whether a rule symbol met in generation `g` is rewritten.
pub fn can_expand(iterations: u32, growth: &Vec<i64>, g: u64) -> (r: bool)
    ensures
        r == expandable(iterations as int, growth@, g as int),
{
    iterations > 0 && g <= iterations as u64 && growth_of(growth, g) >= GROWTH_EPSILON
}

/// The shape that the terminal `id` draws in generation `age`, in the given
/// state and with the generation's length multiplier. A line's length is the
/// shape's length times the multiplier times the scale in force; its width is
/// the shape's width times the configured width factor. A symbol without a
/// shape draws nothing.
pub fn get_shape(id: char, age: u64, render_config: &RenderConfig, state: &State, len_mod: i64) -> (shape:
    Option<RenderShape>)
    ensures
        shape == drawn_shape(
            render_config.shapes@,
            render_config.width_mod,
            id,
            age,
            *state,
            len_mod as int,
        ),
{
    let widen = match render_config.width_mod {
        Some(factor) => factor,
        None => ONE,
    };
    match find(&render_config.shapes, id) {
        None => None,
        Some(i) => match render_config.shapes[i].1 {
            Shape::Circle { size } => Some(
                RenderShape::Circle { size: fixed_mul(size, state.scale), age },
            ),
            Shape::Line { width, length } => Some(
                RenderShape::Line {
                    length: fixed_mul(fixed_mul(length, len_mod), state.scale),
                    width: fixed_mul(width, widen),
                    age,
                    last_age: state.age,
                },
            ),
            Shape::Branch { width, length } => Some(
                RenderShape::Line {
                    length: fixed_mul(fixed_mul(length, len_mod), state.scale),
                    width: fixed_mul(width, widen),
                    age,
                    last_age: state.age,
                },
            ),
        },
    }
}

/// Takes one step with the turtle.
pub fn apply_step(
    states: &mut Vec<State>,
    shapes: &mut Vec<RenderShape>,
    step: TurtleStep,
    rendering: &RenderConfig,
    growth: &Vec<i64>,
)
    requires
        old(states).len() >= 1,
    ensures
        final(states).len() >= 1,
        forall|c: ConfigView|
            c.shapes == rendering.shapes@ && c.width_mod == rendering.width_mod && c.growth
                == growth@ ==> {
                let after = #[trigger] advance(
                    c,
                    turtle_of(old(states)@, old(shapes)@),
                    step,
                );
                final(states)@ == after.states && final(shapes)@ == after.shapes
            },
{
    let top = states[states.len() - 1];
    match step {
        TurtleStep::Scope { age } => {
            states.push(top.fork(age));
            shapes.push(RenderShape::Scope);
        },
        TurtleStep::ScopeEnd => {
            if states.len() > 1 {
                states.pop();
                shapes.push(RenderShape::ScopeEnd { reset: false });
            } else {
                states.set(0, State::root());
                shapes.push(RenderShape::ScopeEnd { reset: true });
                assert(states@ =~= seq![root_state()]);
            }
        },
        TurtleStep::Object { id, age } => {
            let len_mod = growth_of(growth, age);
            match get_shape(id, age, rendering, &top, len_mod) {
                Some(shape) => {
                    shapes.push(shape);
                },
                None => {},
            }
        },
        TurtleStep::Turn { axis, angle } => {
            shapes.push(RenderShape::Turn { axis, angle });
        },
        TurtleStep::Scale { factor } => {
            let last = states.len() - 1;
            states.set(last, State { scale: fixed_mul(top.scale, factor), age: top.age });
        },
    }
}

/// Resolves a symbol that is not a rule: draws the number of a rotation or a
/// scale and attaches the generation.
fn resolve(symbol: &LSymbol, default_angle: i64, iteration: u64, rng: &mut LRng) -> (step:
    TurtleStep)
    requires
        !(symbol@ is Rule),
    ensures
        resolves_to(symbol@, default_angle as int, iteration as int, step),
{
    match symbol {
        LSymbol::Scope => TurtleStep::Scope { age: iteration },
        LSymbol::ScopeEnd => TurtleStep::ScopeEnd,
        LSymbol::Object { id } => TurtleStep::Object { id: *id, age: iteration },
        LSymbol::RotateX(values) => TurtleStep::Turn {
            axis: Axis::X,
            angle: values.get(default_angle, rng),
        },
        LSymbol::RotateNegX(values) => TurtleStep::Turn {
            axis: Axis::NegX,
            angle: values.get(default_angle, rng),
        },
        LSymbol::RotateY(values) => TurtleStep::Turn {
            axis: Axis::Y,
            angle: values.get(default_angle, rng),
        },
        LSymbol::RotateNegY(values) => TurtleStep::Turn {
            axis: Axis::NegY,
            angle: values.get(default_angle, rng),
        },
        LSymbol::RotateZ(values) => TurtleStep::Turn {
            axis: Axis::Z,
            angle: values.get(default_angle, rng),
        },
        LSymbol::RotateNegZ(values) => TurtleStep::Turn {
            axis: Axis::NegZ,
            angle: values.get(default_angle, rng),
        },
        LSymbol::Scale(values) => TurtleStep::Scale { factor: values.get(ONE, rng) },
        LSymbol::Rule(_) => TurtleStep::ScopeEnd,
    }
}

/// A generation as a fixed-point number.
fn generation_age(iteration: u64) -> (age: i64)
    requires
        iteration <= 0x1_0000_0000,
    ensures
        age == age_of(iteration as int),
{
    (iteration as i64) * ONE
}

/// Walks `symbols` in generation `iteration` with the turtle, rewriting each
/// rule symbol on the way. The derivation followed comes back.
fn build_symbols(
    states: &mut Vec<State>,
    shapes: &mut Vec<RenderShape>,
    symbols: &Vec<LSymbol>,
    rendering: &RenderConfig,
    rules: &LSystemBuildConfig,
    growth: &Vec<i64>,
    rng: &mut LRng,
    iteration: u64,
) -> (steps: Ghost<Seq<TurtleStep>>)
    requires
        old(states).len() >= 1,
        iteration <= rules.iterations + 1,
    ensures
        final(states).len() >= 1,
        expands_to(view_of(*rendering, *rules, growth@), symbols@, iteration as int, steps@),
        final(states)@ == interpret(
            view_of(*rendering, *rules, growth@),
            turtle_of(old(states)@, old(shapes)@),
            steps@,
        ).states,
        final(shapes)@ == interpret(
            view_of(*rendering, *rules, growth@),
            turtle_of(old(states)@, old(shapes)@),
            steps@,
        ).shapes,
    decreases rules.iterations + 1 - iteration,
{
    let ghost c = view_of(*rendering, *rules, growth@);
    let ghost t0 = turtle_of(states@, shapes@);
    let ghost mut acc: Seq<TurtleStep> = Seq::empty();
    assert(symbols@.take(0) =~= Seq::<LSymbol>::empty());
    let mut i: usize = 0;
    while i < symbols.len()
        invariant
            i <= symbols.len(),
            states.len() >= 1,
            iteration <= rules.iterations + 1,
            c == view_of(*rendering, *rules, growth@),
            expands_to(c, symbols@.take(i as int), iteration as int, acc),
            turtle_of(states@, shapes@) == interpret(c, t0, acc),
        decreases symbols.len() - i,
    {
        let symbol = &symbols[i];
        let ghost before = turtle_of(states@, shapes@);
        let ghost mut out: Seq<TurtleStep> = Seq::empty();
        match symbol {
            LSymbol::Rule(id) => {
                if can_expand(rules.iterations, growth, iteration) {
                    match rules.current_rules(*id) {
                        Some(list) => {
                            match pick_rule(list, generation_age(iteration), rng) {
                                Some(body) => {
                                    let sub = build_symbols(
                                        states,
                                        shapes,
                                        body,
                                        rendering,
                                        rules,
                                        growth,
                                        rng,
                                        iteration + 1,
                                    );
                                    proof {
                                        out = sub@;
                                    }
                                },
                                None => {},
                            }
                        },
                        None => {},
                    }
                }
            },
            _ => {
                let step = resolve(symbol, rendering.default_angle_change, iteration, rng);
                apply_step(states, shapes, step, rendering, growth);
                proof {
                    out = seq![step];
                    lemma_interpret_one(c, before, step);
                }
            },
        }
        proof {
            assert(symbol_expands_to(c, symbols@[i as int], iteration as int, out));
            assert(turtle_of(states@, shapes@) == interpret(c, before, out));
            lemma_expands_next(c, symbols@, i as int, iteration as int, acc, out);
            lemma_interpret_append(c, t0, acc, out);
            acc = acc + out;
        }
        i += 1;
    }
    assert(symbols@.take(symbols.len() as int) =~= symbols@);
    Ghost(acc)
}

/// Builds the shapes of the configured grammar: the turtle walks the axiom,
/// rewriting each rule symbol as it meets it, down to the generation ceiling.
/// What comes back is what the turtle records for a derivation of the axiom.
pub fn build(config: &mut LConfig) -> (shapes: Vec<RenderShape>)
    ensures
        final(config)@ == old(config)@,
        final(config).seed == old(config).seed,
        exists|steps: Seq<TurtleStep>|
            #[trigger] expands_to(old(config)@, old(config)@.initial, 0, steps) && shapes@
                == interpret(old(config)@, start(), steps).shapes,
        well_bracketed(shapes@),
{
    let mut states: Vec<State> = Vec::new();
    states.push(State::root());
    let mut shapes: Vec<RenderShape> = Vec::new();
    assert(states@ =~= start().states);
    assert(shapes@ =~= start().shapes);
    let steps = build_symbols(
        &mut states,
        &mut shapes,
        &config.rules.initial,
        &config.rendering,
        &config.rules,
        &config.growth,
        &mut config.rng,
        0,
    );
    assert(expands_to(old(config)@, old(config)@.initial, 0, steps@));
    proof {
        law_brackets_match(old(config)@, start(), steps@);
    }
    shapes
}

/// Rewrites `symbols` in generation `iteration` ahead of any drawing and
/// appends the derivation to `steps`.
fn expand_symbols(
    steps: &mut Vec<TurtleStep>,
    symbols: &Vec<LSymbol>,
    rendering: &RenderConfig,
    rules: &LSystemBuildConfig,
    growth: &Vec<i64>,
    rng: &mut LRng,
    iteration: u64,
) -> (added: Ghost<Seq<TurtleStep>>)
    requires
        iteration <= rules.iterations + 1,
    ensures
        final(steps)@ == old(steps)@ + added@,
        expands_to(view_of(*rendering, *rules, growth@), symbols@, iteration as int, added@),
    decreases rules.iterations + 1 - iteration,
{
    let ghost c = view_of(*rendering, *rules, growth@);
    let ghost mut acc: Seq<TurtleStep> = Seq::empty();
    assert(symbols@.take(0) =~= Seq::<LSymbol>::empty());
    assert(steps@ =~= old(steps)@ + acc);
    let mut i: usize = 0;
    while i < symbols.len()
        invariant
            i <= symbols.len(),
            iteration <= rules.iterations + 1,
            c == view_of(*rendering, *rules, growth@),
            expands_to(c, symbols@.take(i as int), iteration as int, acc),
            steps@ == old(steps)@ + acc,
        decreases symbols.len() - i,
    {
        let symbol = &symbols[i];
        let ghost mut out: Seq<TurtleStep> = Seq::empty();
        match symbol {
            LSymbol::Rule(id) => {
                if can_expand(rules.iterations, growth, iteration) {
                    match rules.current_rules(*id) {
                        Some(list) => {
                            match pick_rule(list, generation_age(iteration), rng) {
                                Some(body) => {
                                    let sub = expand_symbols(
                                        steps,
                                        body,
                                        rendering,
                                        rules,
                                        growth,
                                        rng,
                                        iteration + 1,
                                    );
                                    proof {
                                        out = sub@;
                                    }
                                },
                                None => {},
                            }
                        },
                        None => {},
                    }
                }
            },
            _ => {
                let step = resolve(symbol, rendering.default_angle_change, iteration, rng);
                steps.push(step);
                proof {
                    out = seq![step];
                }
            },
        }
        proof {
            assert(symbol_expands_to(c, symbols@[i as int], iteration as int, out));
            lemma_expands_next(c, symbols@, i as int, iteration as int, acc, out);
            assert(steps@ =~= old(steps)@ + (acc + out));
            acc = acc + out;
        }
        i += 1;
    }
    assert(symbols@.take(symbols.len() as int) =~= symbols@);
    Ghost(acc)
}

/// Rewrites the axiom of the configured grammar in full, ahead of any
/// drawing: what comes back is a derivation of the axiom.
pub fn expand(config: &mut LConfig) -> (steps: Vec<TurtleStep>)
    ensures
        final(config)@ == old(config)@,
        final(config).seed == old(config).seed,
        expands_to(old(config)@, old(config)@.initial, 0, steps@),
{
    let mut steps: Vec<TurtleStep> = Vec::new();
    let added = expand_symbols(
        &mut steps,
        &config.rules.initial,
        &config.rendering,
        &config.rules,
        &config.growth,
        &mut config.rng,
        0,
    );
    assert(steps@ =~= added@);
    steps
}

/// Draws a derivation: what the turtle records when it takes the steps one
/// after another from its starting state.
pub fn draw(config: &LConfig, steps: &Vec<TurtleStep>) -> (shapes: Vec<RenderShape>)
    ensures
        shapes@ == interpret(config@, start(), steps@).shapes,
        well_bracketed(shapes@),
{
    let ghost c = config@;
    let mut states: Vec<State> = Vec::new();
    states.push(State::root());
    let mut shapes: Vec<RenderShape> = Vec::new();
    assert(states@ =~= start().states);
    assert(shapes@ =~= start().shapes);
    assert(steps@.take(0) =~= Seq::<TurtleStep>::empty());
    let mut i: usize = 0;
    while i < steps.len()
        invariant
            i <= steps.len(),
            states.len() >= 1,
            c == config@,
            states@ == interpret(c, start(), steps@.take(i as int)).states,
            shapes@ == interpret(c, start(), steps@.take(i as int)).shapes,
        decreases steps.len() - i,
    {
        let ghost before = turtle_of(states@, shapes@);
        apply_step(&mut states, &mut shapes, steps[i], &config.rendering, &config.growth);
        proof {
            assert(steps@.take(i + 1).drop_last() =~= steps@.take(i as int));
            assert(before == interpret(c, start(), steps@.take(i as int)));
        }
        i += 1;
    }
    assert(steps@.take(steps.len() as int) =~= steps@);
    proof {
        law_brackets_match(c, start(), steps@);
    }
    shapes
}

} // verus!
