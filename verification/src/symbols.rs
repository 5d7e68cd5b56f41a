//! The symbols of a grammar and the numeric parameter that a symbol may carry.

use crate::rng::{draw_between, draw_index, LRng};
use vstd::prelude::*;

verus! {

/// One numeric choice: a literal, or a half-open range to draw from.
#[derive(Debug, Clone, Copy, PartialEq, Eq, Structural)]
pub enum Value {
    Range { min: i64, max: i64 },
    Exact(i64),
}

/// The parameter of a symbol.
#[derive(Debug, Clone, PartialEq, Eq)]
pub enum Values {
    /// Several choices, one of which is taken with equal chance.
    Multiple(Vec<Value>),
    /// A single choice.
    Exact(Value),
    /// No parameter was written: the caller supplies the number.
    Default,
}

/// The mathematical content of a [`Values`].
pub enum ValuesView {
    Multiple(Seq<Value>),
    Exact(Value),
    Default,
}

impl View for Values {
    type V = ValuesView;

    open spec fn view(&self) -> ValuesView {
        match *self {
            Values::Multiple(list) => ValuesView::Multiple(list@),
            Values::Exact(value) => ValuesView::Exact(value),
            Values::Default => ValuesView::Default,
        }
    }
}

/// The signed axis that a rotation turns about.
#[derive(Debug, Clone, Copy, PartialEq, Eq, Structural)]
pub enum Axis {
    X,
    NegX,
    Y,
    NegY,
    Z,
    NegZ,
}

/// One symbol of a grammar.
#[derive(Debug, Clone, PartialEq, Eq)]
pub enum LSymbol {
    Scope,
    ScopeEnd,
    Rule(char),
    Object { id: char },
    RotateX(Values),
    RotateNegX(Values),
    RotateY(Values),
    RotateNegY(Values),
    RotateZ(Values),
    RotateNegZ(Values),
    Scale(Values),
}

/// The mathematical content of an [`LSymbol`]. The six rotations are one
/// variant here, told apart by their axis.
pub enum SymbolView {
    Scope,
    ScopeEnd,
    Rule(char),
    Object { id: char },
    Rotate { axis: Axis, values: ValuesView },
    Scale(ValuesView),
}

impl View for LSymbol {
    type V = SymbolView;

    open spec fn view(&self) -> SymbolView {
        match *self {
            LSymbol::Scope => SymbolView::Scope,
            LSymbol::ScopeEnd => SymbolView::ScopeEnd,
            LSymbol::Rule(id) => SymbolView::Rule(id),
            LSymbol::Object { id } => SymbolView::Object { id },
            LSymbol::RotateX(values) => SymbolView::Rotate { axis: Axis::X, values: values@ },
            LSymbol::RotateNegX(values) => SymbolView::Rotate { axis: Axis::NegX, values: values@ },
            LSymbol::RotateY(values) => SymbolView::Rotate { axis: Axis::Y, values: values@ },
            LSymbol::RotateNegY(values) => SymbolView::Rotate { axis: Axis::NegY, values: values@ },
            LSymbol::RotateZ(values) => SymbolView::Rotate { axis: Axis::Z, values: values@ },
            LSymbol::RotateNegZ(values) => SymbolView::Rotate { axis: Axis::NegZ, values: values@ },
            LSymbol::Scale(values) => SymbolView::Scale(values@),
        }
    }
}

/// The content of a sequence of symbols, symbol by symbol.
pub open spec fn symbols_view(symbols: Seq<LSymbol>) -> Seq<SymbolView> {
    symbols.map_values(|s: LSymbol| s@)
}

/// The number that a single choice yields when `drawn` came out of the random
/// source: the literal itself, or the draw where it lies in the range. A range
/// that holds nothing yields its lower end.
pub open spec fn resolved(value: Value, drawn: int) -> int {
    match value {
        Value::Exact(x) => x as int,
        Value::Range { min, max } => if min <= drawn < max {
            drawn
        } else {
            min as int
        },
    }
}

/// Whether sampling the choice takes a draw: only a range that holds
/// something is drawn from.
pub open spec fn value_draws(value: Value) -> bool {
    value matches Value::Range { min, max } && min < max
}

/// Whether sampling the parameter takes a draw: a parameter that was not
/// written takes none, a single choice takes one where it is a range to draw
/// from, and a list with choices takes at least the draw that picks one.
pub open spec fn draws(values: ValuesView) -> bool {
    match values {
        ValuesView::Default => false,
        ValuesView::Exact(value) => value_draws(value),
        ValuesView::Multiple(list) => list.len() > 0,
    }
}

/// Whether `sampled` is a number that the choice can yield.
pub open spec fn value_admits(value: Value, sampled: int) -> bool {
    match value {
        Value::Exact(x) => sampled == x,
        Value::Range { min, max } => if min < max {
            min <= sampled < max
        } else {
            sampled == min
        },
    }
}

/// The number that a parameter yields when choice `index` was taken and
/// `drawn` came out of the random source. A parameter that was not written,
/// and a list with no choice at `index`, yield the caller's default.
pub open spec fn picked(values: ValuesView, default: int, index: int, drawn: int) -> int {
    match values {
        ValuesView::Default => default,
        ValuesView::Exact(value) => resolved(value, drawn),
        ValuesView::Multiple(list) => if 0 <= index < list.len() {
            resolved(list[index], drawn)
        } else {
            default
        },
    }
}

/// Whether `sampled` is a number that the parameter can yield, given the
/// caller's default.
pub open spec fn admits(values: ValuesView, default: int, sampled: int) -> bool {
    match values {
        ValuesView::Default => sampled == default,
        ValuesView::Exact(value) => value_admits(value, sampled),
        ValuesView::Multiple(list) => if list.len() == 0 {
            sampled == default
        } else {
            exists|i: int| 0 <= i < list.len() && value_admits(#[trigger] list[i], sampled)
        },
    }
}

impl Value {
    /// The number this choice yields for a given draw.
    pub fn resolve(&self, drawn: i64) -> (r: i64)
        ensures
            r == resolved(*self, drawn as int),
            value_admits(*self, r as int),
    {
        match *self {
            Value::Exact(x) => x,
            Value::Range { min, max } => if min <= drawn && drawn < max {
                drawn
            } else {
                min
            },
        }
    }

    /// Samples this choice: a literal as it is, a range by one uniform draw.
    /// Where no draw is needed the random source is left as it was.
    pub fn get(&self, rng: &mut LRng) -> (r: i64)
        ensures
            value_admits(*self, r as int),
            !value_draws(*self) ==> *final(rng) == *old(rng),
    {
        match *self {
            Value::Exact(x) => x,
            Value::Range { min, max } => if min < max {
                let drawn = draw_between(rng, min, max);
                self.resolve(drawn)
            } else {
                min
            },
        }
    }
}

impl Values {
    /// The number this parameter yields when choice `index` was taken and
    /// `drawn` came out of the random source.
    pub fn pick(&self, default: i64, index: usize, drawn: i64) -> (r: i64)
        ensures
            r == picked(self@, default as int, index as int, drawn as int),
            admits(self@, default as int, r as int) || (self@ matches ValuesView::Multiple(list)
                && index >= list.len()),
    {
        match self {
            Values::Default => default,
            Values::Exact(value) => value.resolve(drawn),
            Values::Multiple(list) => if index < list.len() {
                list[index].resolve(drawn)
            } else {
                default
            },
        }
    }

    /// Samples the parameter: one of several choices is taken with equal
    /// chance, a range is drawn from uniformly, and a parameter that was not
    /// written yields `default`. Where no draw is needed the random source is
    /// left as it was.
    pub fn get(&self, default: i64, rng: &mut LRng) -> (r: i64)
        ensures
            admits(self@, default as int, r as int),
            !draws(self@) ==> *final(rng) == *old(rng),
    {
        match self {
            Values::Default => default,
            Values::Exact(value) => value.get(rng),
            Values::Multiple(list) => {
                if list.len() == 0 {
                    return default;
                }
                let index = draw_index(rng, list.len());
                list[index].get(rng)
            },
        }
    }
}

} // verus!
