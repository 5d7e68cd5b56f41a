//! The grammar's textual notation.

use crate::fixed::ONE;
use crate::symbols::{symbols_view, Axis, LSymbol, SymbolView, Value, Values, ValuesView};
use vstd::prelude::*;
use vstd::std_specs::iter::IteratorSpec;

verus! {

/// The characters of a text, one by one.
pub fn characters(text: &str) -> (chars: Vec<char>)
    ensures
        chars@ == text@,
{
    let mut chars: Vec<char> = Vec::new();
    let mut rest = text.chars();
    loop
        invariant
            rest.obeys_prophetic_iter_laws(),
            rest.decrease() is Some,
            chars@ + rest.remaining() == text@,
        ensures
            chars@ == text@,
        decreases rest.decrease()->0,
    {
        let ghost before = rest.remaining();
        let ghost collected = chars@;
        match rest.next() {
            Some(c) => {
                chars.push(c);
                assert(chars@ + rest.remaining() =~= collected + before) by {
                    assert(before =~= seq![c] + before.drop_first());
                }
            },
            None => {
                assert(chars@ + before =~= chars@);
                break ;
            },
        }
    }
    chars
}

/// The largest whole part that a number is read with, so that every number
/// read fits its 64 bits with room for a fraction. A number written with a
/// larger whole part is read as the largest number there is.
pub const MAX_WHOLE: u64 = 1_000_000_000_000;

/// Whether the character is a decimal digit.
pub open spec fn is_digit(c: char) -> bool {
    0x30 <= c as u32 <= 0x39
}

/// The value of a decimal digit.
pub open spec fn digit(c: char) -> int {
    c as u32 - 0x30
}

/// Whether `text[lo..hi]` holds decimal digits only.
pub open spec fn all_digits(text: Seq<char>, lo: int, hi: int) -> bool {
    forall|k: int| lo <= k < hi ==> is_digit(#[trigger] text[k])
}

/// The first place in `text[lo..hi]` where `c` stands, or `hi` if it stands
/// nowhere there.
pub open spec fn first_at(text: Seq<char>, c: char, lo: int, hi: int) -> int
    decreases hi - lo,
{
    if lo >= hi {
        hi
    } else if text[lo] == c {
        lo
    } else {
        first_at(text, c, lo + 1, hi)
    }
}

/// The number that the digits `text[lo..hi]` write.
pub open spec fn whole_value(text: Seq<char>, lo: int, hi: int) -> int
    decreases hi - lo,
{
    if lo >= hi {
        0
    } else {
        whole_value(text, lo, hi - 1) * 10 + digit(text[hi - 1])
    }
}

/// The fraction, in millionths, that the digits `text[lo..hi]` write behind
/// the point, where the first of them counts `unit` millionths. Digits past
/// the sixth count nothing.
pub open spec fn fraction_value(text: Seq<char>, lo: int, hi: int, unit: int) -> int
    decreases hi - lo,
{
    if lo >= hi || unit <= 0 {
        0
    } else {
        digit(text[lo]) * unit + fraction_value(text, lo + 1, hi, unit / 10)
    }
}

/// The number that `text[lo..hi]` writes, in millionths: an optional minus
/// sign, then digits with at most one point among them and at least one digit
/// in all. A number whose whole part is above [`MAX_WHOLE`] saturates: it is
/// read as `MAX_WHOLE` units and 999999 millionths, with its sign.
pub open spec fn number(text: Seq<char>, lo: int, hi: int) -> Option<int> {
    let start = if lo < hi && text[lo] == '-' {
        lo + 1
    } else {
        lo
    };
    let dot = first_at(text, '.', start, hi);
    let behind = if dot < hi {
        dot + 1
    } else {
        hi
    };
    if all_digits(text, start, dot) && all_digits(text, behind, hi) && (dot - start) + (hi
        - behind) >= 1 {
        let size = if whole_value(text, start, dot) <= MAX_WHOLE {
            whole_value(text, start, dot) * ONE + fraction_value(text, behind, hi, 100_000)
        } else {
            MAX_WHOLE * ONE + 999_999
        };
        Some(
            if start > lo {
                -size
            } else {
                size
            },
        )
    } else {
        None
    }
}

/// Where the searched character stands first, it stands at or after `lo` and
/// nowhere before.
pub proof fn lemma_first_at(text: Seq<char>, c: char, lo: int, hi: int)
    requires
        lo <= hi,
    ensures
        lo <= first_at(text, c, lo, hi) <= hi,
        forall|k: int| lo <= k < first_at(text, c, lo, hi) ==> #[trigger] text[k] != c,
        first_at(text, c, lo, hi) < hi ==> text[first_at(text, c, lo, hi)] == c,
    decreases hi - lo,
{
    if lo < hi && text[lo] != c {
        lemma_first_at(text, c, lo + 1, hi);
    }
}

/// A search that starts behind a stretch without the character finds what the
/// search from the stretch's start finds.
pub proof fn lemma_first_at_skip(text: Seq<char>, c: char, lo: int, mid: int, hi: int)
    requires
        lo <= mid <= hi,
        forall|k: int| lo <= k < mid ==> #[trigger] text[k] != c,
    ensures
        first_at(text, c, lo, hi) == first_at(text, c, mid, hi),
    decreases mid - lo,
{
    if lo < mid {
        lemma_first_at_skip(text, c, lo + 1, mid, hi);
    }
}

fn digit_of(c: char) -> (d: Option<u64>)
    ensures
        d is Some <==> is_digit(c),
        d matches Some(v) ==> v == digit(c) && v <= 9,
{
    let code = c as u32;
    if 0x30 <= code && code <= 0x39 {
        Some((code - 0x30) as u64)
    } else {
        None
    }
}

/// Reads the number that `text[lo..hi]` writes.
pub fn parse_number(text: &Vec<char>, lo: usize, hi: usize) -> (parsed: Option<i64>)
    requires
        lo <= hi <= text.len(),
    ensures
        match parsed {
            Some(x) => number(text@, lo as int, hi as int) == Some(x as int),
            None => number(text@, lo as int, hi as int) is None,
        },
{
    let negative = lo < hi && text[lo] == '-';
    let start: usize = if negative {
        lo + 1
    } else {
        lo
    };
    let mut at: usize = start;
    let mut whole: u64 = 0;
    let mut over = false;
    while at < hi && text[at] != '.'
        invariant
            start <= at <= hi <= text.len(),
            lo <= hi,
            start == if lo < hi && text@[lo as int] == '-' {
                lo + 1
            } else {
                lo as int
            },
            forall|k: int| start <= k < at ==> #[trigger] text@[k] != '.',
            all_digits(text@, start as int, at as int),
            !over ==> whole == whole_value(text@, start as int, at as int) && whole <= MAX_WHOLE,
            over ==> whole_value(text@, start as int, at as int) > MAX_WHOLE,
        decreases hi - at,
    {
        match digit_of(text[at]) {
            None => {
                proof {
                    lemma_first_at(text@, '.', start as int, hi as int);
                    let dot = first_at(text@, '.', start as int, hi as int);
                    assert(dot > at);
                    assert(!is_digit(text@[at as int]));
                }
                return None;
            },
            Some(d) => {
                if !over {
                    whole = whole * 10 + d;
                    if whole > MAX_WHOLE {
                        over = true;
                    }
                }
            },
        }
        at += 1;
    }
    let dot = at;
    proof {
        lemma_first_at_skip(text@, '.', start as int, dot as int, hi as int);
        lemma_first_at(text@, '.', dot as int, hi as int);
        assert(first_at(text@, '.', start as int, hi as int) == dot);
    }
    let behind: usize = if dot < hi {
        dot + 1
    } else {
        hi
    };
    let mut frac: u64 = 0;
    let mut unit: u64 = 100_000;
    let mut k: usize = behind;
    while k < hi
        invariant
            behind <= k <= hi <= text.len(),
            lo <= start <= dot <= hi,
            start == if lo < hi && text@[lo as int] == '-' {
                lo + 1
            } else {
                lo as int
            },
            first_at(text@, '.', start as int, hi as int) == dot,
            behind == if dot < hi {
                dot + 1
            } else {
                hi as int
            },
            all_digits(text@, behind as int, k as int),
            frac + 10 * unit <= 1_000_000,
            fraction_value(text@, behind as int, hi as int, 100_000) == frac + fraction_value(
                text@,
                k as int,
                hi as int,
                unit as int,
            ),
        decreases hi - k,
    {
        match digit_of(text[k]) {
            None => {
                assert(!is_digit(text@[k as int]));
                return None;
            },
            Some(d) => {
                assert(d * unit <= 9 * unit) by (nonlinear_arith)
                    requires
                        d <= 9,
                        unit >= 0,
                ;
                frac = frac + d * unit;
                unit = unit / 10;
            },
        }
        k += 1;
    }
    if (dot - start) + (hi - behind) == 0 {
        return None;
    }
    let size: i64 = if over {
        1_000_000_000_000_999_999
    } else {
        (whole * 1_000_000 + frac) as i64
    };
    if negative {
        Some(-size)
    } else {
        Some(size)
    }
}

/// The numbers that the pieces of `text[lo..hi]` between `~` write, in order.
/// A piece that writes no number is passed over.
pub open spec fn numbers(text: Seq<char>, lo: int, hi: int) -> Seq<int>
    decreases hi - lo,
{
    if lo > hi {
        Seq::empty()
    } else {
        let end = first_at(text, '~', lo, hi);
        let head = match number(text, lo, end) {
            Some(x) => seq![x],
            None => Seq::empty(),
        };
        if lo <= end < hi {
            head + numbers(text, end + 1, hi)
        } else {
            head
        }
    }
}

/// The choice that `text[lo..hi]` writes: one number is a literal, several
/// are the range from the first to the last, none is no choice.
pub open spec fn choice(text: Seq<char>, lo: int, hi: int) -> Option<Value> {
    let found = numbers(text, lo, hi);
    if found.len() == 0 {
        None
    } else if found.len() == 1 {
        Some(Value::Exact(found[0] as i64))
    } else {
        Some(Value::Range { min: found.first() as i64, max: found.last() as i64 })
    }
}

/// The choices that the pieces of `text[lo..hi]` between `,` write, in order.
/// A piece that writes no choice is passed over.
pub open spec fn choices(text: Seq<char>, lo: int, hi: int) -> Seq<Value>
    decreases hi - lo,
{
    if lo > hi {
        Seq::empty()
    } else {
        let end = first_at(text, ',', lo, hi);
        let head = match choice(text, lo, end) {
            Some(value) => seq![value],
            None => Seq::empty(),
        };
        if lo <= end < hi {
            head + choices(text, end + 1, hi)
        } else {
            head
        }
    }
}

/// Whether the character may stand between the brackets of a parameter.
pub open spec fn is_body_char(c: char) -> bool {
    is_digit(c) || c == '.' || c == '-' || c == '~' || c == ','
}

/// The first place at or after `from` where no character of a parameter's
/// body stands, or the end of the text.
pub open spec fn body_end(text: Seq<char>, from: int) -> int
    decreases text.len() - from,
{
    if from < 0 || from >= text.len() {
        text.len() as int
    } else if is_body_char(text[from]) {
        body_end(text, from + 1)
    } else {
        from
    }
}

/// The parameter written at `at`, and where reading goes on. A parameter is
/// an opening bracket, a body of digits, points, minus signs, `~` and `,`, and
/// a closing bracket, where the body writes at least one choice. Anything else
/// is no parameter, and reading goes on at `at` itself.
pub open spec fn parameter(text: Seq<char>, at: int) -> (ValuesView, int) {
    if 0 <= at < text.len() && text[at] == '(' {
        let close = body_end(text, at + 1);
        if close < text.len() && text[close] == ')' {
            let found = choices(text, at + 1, close);
            if found.len() == 0 {
                (ValuesView::Default, at)
            } else if found.len() == 1 {
                (ValuesView::Exact(found[0]), close + 1)
            } else {
                (ValuesView::Multiple(found), close + 1)
            }
        } else {
            (ValuesView::Default, at)
        }
    } else {
        (ValuesView::Default, at)
    }
}

/// Whether the character is one of the operators that may carry a parameter.
pub open spec fn is_operator(c: char) -> bool {
    c == '+' || c == '-' || c == '&' || c == '^' || c == '\\' || c == '/' || c == '>' || c == '<'
        || c == '|'
}

/// The symbol that an operator with its parameter stands for.
pub open spec fn operator_symbol(c: char, values: ValuesView) -> SymbolView {
    if c == '+' {
        SymbolView::Rotate { axis: Axis::Y, values }
    } else if c == '-' {
        SymbolView::Rotate { axis: Axis::NegY, values }
    } else if c == '&' {
        SymbolView::Rotate { axis: Axis::X, values }
    } else if c == '^' {
        SymbolView::Rotate { axis: Axis::NegX, values }
    } else if c == '\\' || c == '<' {
        SymbolView::Rotate { axis: Axis::Z, values }
    } else if c == '/' || c == '>' {
        SymbolView::Rotate { axis: Axis::NegZ, values }
    } else {
        SymbolView::Scale(values)
    }
}

/// Whether the character is a lower-case letter of ASCII.
pub open spec fn is_lower(c: char) -> bool {
    0x61 <= c as u32 <= 0x7a
}

/// Whether the character is an upper-case letter of ASCII.
pub open spec fn is_upper(c: char) -> bool {
    0x41 <= c as u32 <= 0x5a
}

/// The symbols that the text writes from `at` on.
pub open spec fn parse_from(text: Seq<char>, at: int) -> Seq<SymbolView>
    decreases text.len() - at,
{
    if at < 0 || at >= text.len() {
        Seq::empty()
    } else {
        let c = text[at];
        if c == '[' {
            seq![SymbolView::Scope] + parse_from(text, at + 1)
        } else if c == ']' {
            seq![SymbolView::ScopeEnd] + parse_from(text, at + 1)
        } else if is_operator(c) {
            let (values, next) = parameter(text, at + 1);
            if next > at {
                seq![operator_symbol(c, values)] + parse_from(text, next)
            } else {
                seq![operator_symbol(c, values)]
            }
        } else if is_lower(c) {
            seq![SymbolView::Object { id: c }] + parse_from(text, at + 1)
        } else if is_upper(c) {
            seq![SymbolView::Rule(c)] + parse_from(text, at + 1)
        } else {
            parse_from(text, at + 1)
        }
    }
}

/// The symbols that a text writes. `[` and `]` open and close a branch; `+`
/// `-` `&` `^` `\` `/` `<` `>` are rotations and `|` is a scale, each with the
/// parameter that follows it; a lower-case letter is a terminal, an upper-case
/// letter a rule symbol; every other character is passed over.
pub open spec fn parse(text: Seq<char>) -> Seq<SymbolView> {
    parse_from(text, 0)
}

/// Finds the first place in `text[lo..hi]` where `c` stands.
pub fn find_char(text: &Vec<char>, c: char, lo: usize, hi: usize) -> (at: usize)
    requires
        lo <= hi <= text.len(),
    ensures
        at == first_at(text@, c, lo as int, hi as int),
        lo <= at <= hi,
{
    let mut at: usize = lo;
    while at < hi && text[at] != c
        invariant
            lo <= at <= hi <= text.len(),
            first_at(text@, c, lo as int, hi as int) == first_at(text@, c, at as int, hi as int),
        decreases hi - at,
    {
        at += 1;
    }
    at
}

/// Reads the choice that `text[lo..hi]` writes.
pub fn parse_choice(text: &Vec<char>, lo: usize, hi: usize) -> (parsed: Option<Value>)
    requires
        lo <= hi <= text.len(),
    ensures
        parsed == choice(text@, lo as int, hi as int),
{
    let ghost mut seen: Seq<int> = Seq::empty();
    let mut count: u8 = 0;
    let mut first: i64 = 0;
    let mut last: i64 = 0;
    let mut from: usize = lo;
    let mut done = false;
    assert(seen + numbers(text@, from as int, hi as int) =~= numbers(text@, lo as int, hi as int));
    while !done
        invariant
            lo <= from <= hi <= text.len(),
            !done ==> numbers(text@, lo as int, hi as int) == seen + numbers(
                text@,
                from as int,
                hi as int,
            ),
            done ==> numbers(text@, lo as int, hi as int) == seen,
            count <= 2,
            count == 0 <==> seen.len() == 0,
            count == 1 <==> seen.len() == 1,
            count >= 1 ==> first == seen.first() && last == seen.last(),
        decreases (hi - from) + (if done { 0int } else { 1int }),
    {
        let end = find_char(text, '~', from, hi);
        let piece = parse_number(text, from, end);
        let ghost rest = if end < hi {
            numbers(text@, end + 1, hi as int)
        } else {
            Seq::empty()
        };
        let ghost head = match piece {
            Some(x) => seq![x as int],
            None => Seq::empty(),
        };
        assert(numbers(text@, from as int, hi as int) =~= head + rest);
        assert(seen + (head + rest) =~= (seen + head) + rest);
        match piece {
            Some(x) => {
                if count == 0 {
                    first = x;
                    count = 1;
                } else {
                    count = 2;
                }
                last = x;
            },
            None => {},
        }
        proof {
            seen = seen + head;
        }
        if end < hi {
            from = end + 1;
        } else {
            done = true;
            assert(seen + rest =~= seen);
        }
    }
    if count == 0 {
        None
    } else if count == 1 {
        Some(Value::Exact(first))
    } else {
        Some(Value::Range { min: first, max: last })
    }
}

/// Reads the choices that `text[lo..hi]` writes.
pub fn parse_choices(text: &Vec<char>, lo: usize, hi: usize) -> (parsed: Vec<Value>)
    requires
        lo <= hi <= text.len(),
    ensures
        parsed@ == choices(text@, lo as int, hi as int),
{
    let mut parsed: Vec<Value> = Vec::new();
    let mut from: usize = lo;
    let mut done = false;
    assert(parsed@ + choices(text@, from as int, hi as int) =~= choices(text@, lo as int, hi as int));
    while !done
        invariant
            lo <= from <= hi <= text.len(),
            !done ==> choices(text@, lo as int, hi as int) == parsed@ + choices(
                text@,
                from as int,
                hi as int,
            ),
            done ==> choices(text@, lo as int, hi as int) == parsed@,
        decreases (hi - from) + (if done { 0int } else { 1int }),
    {
        let end = find_char(text, ',', from, hi);
        let piece = parse_choice(text, from, end);
        let ghost rest = if end < hi {
            choices(text@, end + 1, hi as int)
        } else {
            Seq::empty()
        };
        let ghost head = match piece {
            Some(value) => seq![value],
            None => Seq::empty(),
        };
        let ghost before = parsed@;
        assert(choices(text@, from as int, hi as int) =~= head + rest);
        assert(before + (head + rest) =~= (before + head) + rest);
        match piece {
            Some(value) => {
                parsed.push(value);
            },
            None => {},
        }
        assert(parsed@ =~= before + head);
        if end < hi {
            from = end + 1;
        } else {
            done = true;
            assert(parsed@ + rest =~= parsed@);
        }
    }
    parsed
}

fn body_char(c: char) -> (r: bool)
    ensures
        r == is_body_char(c),
{
    digit_of(c).is_some() || c == '.' || c == '-' || c == '~' || c == ','
}

impl Values {
    /// Reads the parameter written at `at` and tells where reading goes on:
    /// behind the closing bracket where a parameter was read, at `at` itself
    /// where none stands there.
    pub fn new(text: &Vec<char>, at: usize) -> (read: (Values, usize))
        requires
            at <= text.len(),
        ensures
            (read.0@, read.1 as int) == parameter(text@, at as int),
            at <= read.1 <= text.len(),
    {
        if at < text.len() && text[at] == '(' {
            let mut close: usize = at + 1;
            while close < text.len() && body_char(text[close])
                invariant
                    at + 1 <= close <= text.len(),
                    body_end(text@, at + 1) == body_end(text@, close as int),
                decreases text.len() - close,
            {
                close += 1;
            }
            if close < text.len() && text[close] == ')' {
                let found = parse_choices(text, at + 1, close);
                if found.len() == 0 {
                    (Values::Default, at)
                } else if found.len() == 1 {
                    (Values::Exact(found[0]), close + 1)
                } else {
                    (Values::Multiple(found), close + 1)
                }
            } else {
                (Values::Default, at)
            }
        } else {
            (Values::Default, at)
        }
    }
}

fn operator(c: char) -> (r: bool)
    ensures
        r == is_operator(c),
{
    c == '+' || c == '-' || c == '&' || c == '^' || c == '\\' || c == '/' || c == '>' || c == '<'
        || c == '|'
}

fn operator_with(c: char, values: Values) -> (symbol: LSymbol)
    requires
        is_operator(c),
    ensures
        symbol@ == operator_symbol(c, values@),
{
    if c == '+' {
        LSymbol::RotateY(values)
    } else if c == '-' {
        LSymbol::RotateNegY(values)
    } else if c == '&' {
        LSymbol::RotateX(values)
    } else if c == '^' {
        LSymbol::RotateNegX(values)
    } else if c == '\\' || c == '<' {
        LSymbol::RotateZ(values)
    } else if c == '/' || c == '>' {
        LSymbol::RotateNegZ(values)
    } else {
        LSymbol::Scale(values)
    }
}

/// What a letter, or a character outside the notation, reads as.
proof fn lemma_read_plain(text: Seq<char>, at: int, c: char)
    requires
        0 <= at < text.len(),
        text[at] == c,
        c != '[',
        c != ']',
        !is_operator(c),
    ensures
        is_lower(c) ==> parse_from(text, at) =~= seq![SymbolView::Object { id: c }] + parse_from(
            text,
            at + 1,
        ),
        !is_lower(c) && is_upper(c) ==> parse_from(text, at) =~= seq![SymbolView::Rule(c)]
            + parse_from(text, at + 1),
        !is_lower(c) && !is_upper(c) ==> parse_from(text, at) == parse_from(text, at + 1),
{
}

/// Appending a symbol appends its content.
proof fn lemma_read_one(
    before: Seq<LSymbol>,
    added: LSymbol,
    rest: Seq<SymbolView>,
)
    ensures
        symbols_view(before.push(added)) + rest == symbols_view(before) + (seq![added@] + rest),
{
    assert(symbols_view(before.push(added)) =~= symbols_view(before).push(added@));
    assert(symbols_view(before).push(added@) + rest =~= symbols_view(before) + (seq![added@]
        + rest));
}

/// Reads the symbols that the characters write.
pub fn symbols_of(text: &Vec<char>) -> (symbols: Vec<LSymbol>)
    ensures
        symbols_view(symbols@) == parse(text@),
{
    let mut symbols: Vec<LSymbol> = Vec::new();
    let mut at: usize = 0;
    assert(symbols_view(symbols@) + parse_from(text@, 0) =~= parse(text@));
    while at < text.len()
        invariant
            at <= text.len(),
            parse(text@) == symbols_view(symbols@) + parse_from(text@, at as int),
        decreases text.len() - at,
    {
        let c = text[at];
        let code = c as u32;
        let ghost before = symbols@;
        if c == '[' {
            symbols.push(LSymbol::Scope);
            proof {
                lemma_read_one(before, LSymbol::Scope, parse_from(text@, at + 1));
            }
            at += 1;
        } else if c == ']' {
            symbols.push(LSymbol::ScopeEnd);
            proof {
                lemma_read_one(before, LSymbol::ScopeEnd, parse_from(text@, at + 1));
            }
            at += 1;
        } else if operator(c) {
            let (values, next) = Values::new(text, at + 1);
            let symbol = operator_with(c, values);
            proof {
                lemma_read_one(before, symbol, parse_from(text@, next as int));
                assert(parse_from(text@, at as int) == seq![symbol@] + parse_from(
                    text@,
                    next as int,
                ));
            }
            symbols.push(symbol);
            at = next;
        } else if 0x61 <= code && code <= 0x7a {
            symbols.push(LSymbol::Object { id: c });
            proof {
                lemma_read_one(before, LSymbol::Object { id: c }, parse_from(text@, at + 1));
                lemma_read_plain(text@, at as int, c);
            }
            at += 1;
        } else if 0x41 <= code && code <= 0x5a {
            symbols.push(LSymbol::Rule(c));
            proof {
                lemma_read_one(before, LSymbol::Rule(c), parse_from(text@, at + 1));
                lemma_read_plain(text@, at as int, c);
            }
            at += 1;
        } else {
            proof {
                lemma_read_plain(text@, at as int, c);
            }
            at += 1;
        }
    }
    assert(symbols_view(symbols@) + parse_from(text@, at as int) =~= symbols_view(symbols@));
    symbols
}

/// Reads the symbols that a text writes. Reading never fails: what is not
/// part of the notation is passed over.
pub fn string_to_symbols(string: &str) -> (symbols: Vec<LSymbol>)
    ensures
        symbols_view(symbols@) == parse(string@),
{
    let text = characters(string);
    symbols_of(&text)
}

} // verus!
