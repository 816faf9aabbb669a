//! Tradeable items and their equality.
//!
//! The skill and knowledge levels of agents and knowledge items are IEEE-754
//! binary64 numbers. They are held here by their bit patterns (the value that
//! `f64::to_bits` gives), and compared as binary64 numbers are compared: two
//! levels are equal when neither is a NaN and either their bits agree or both
//! are zeros (`+0.0 == -0.0`).
use vstd::prelude::*;
use vstd::std_specs::cmp::PartialEqSpecImpl;

verus! {

/// The exponent bits of a binary64 number.
pub const EXPONENT_BITS: u64 = 0x7ff0_0000_0000_0000u64;

/// The fraction bits of a binary64 number.
pub const FRACTION_BITS: u64 = 0x000f_ffff_ffff_ffffu64;

/// Every bit of a binary64 number but its sign.
pub const MAGNITUDE_BITS: u64 = 0x7fff_ffff_ffff_ffffu64;

/// A binary64 level, given by its bit pattern, is a NaN.
pub open spec fn level_is_nan(bits: u64) -> bool {
    &&& bits & EXPONENT_BITS == EXPONENT_BITS
    &&& bits & FRACTION_BITS != 0
}

/// A binary64 level, given by its bit pattern, is `+0.0` or `-0.0`.
pub open spec fn level_is_zero(bits: u64) -> bool {
    bits & MAGNITUDE_BITS == 0
}

/// Two binary64 levels, given by their bit patterns, compare equal with `==`.
pub open spec fn levels_equal(a: u64, b: u64) -> bool {
    &&& !level_is_nan(a)
    &&& !level_is_nan(b)
    &&& (a == b || (level_is_zero(a) && level_is_zero(b)))
}

/// Compares two binary64 levels, given by their bit patterns, as `f64 == f64` does.
pub fn level_eq(a: u64, b: u64) -> (r: bool)
    ensures
        r == levels_equal(a, b),
{
    let a_nan = (a & EXPONENT_BITS) == EXPONENT_BITS && (a & FRACTION_BITS) != 0;
    let b_nan = (b & EXPONENT_BITS) == EXPONENT_BITS && (b & FRACTION_BITS) != 0;
    if a_nan || b_nan {
        false
    } else {
        a == b || ((a & MAGNITUDE_BITS) == 0 && (b & MAGNITUDE_BITS) == 0)
    }
}

/// Items that can be traded between players: materials, agents, knowledge, recipes, and pets.
///
/// `Agent` and `Knowledge` carry a binary64 level by its bit pattern (`f64::to_bits`).
#[derive(Debug, Clone)]
pub enum Tradeable {
    Material(String, usize),
    Agent(String, u64),
    Knowledge(String, u64),
    Recipe(String),
    Pet(String, u32),
}

/// The mathematical value of a [`Tradeable`]: its names as character sequences.
pub enum TradeableView {
    Material(Seq<char>, usize),
    Agent(Seq<char>, u64),
    Knowledge(Seq<char>, u64),
    Recipe(Seq<char>),
    Pet(Seq<char>, u32),
}

impl View for Tradeable {
    type V = TradeableView;

    open spec fn view(&self) -> TradeableView {
        match self {
            Tradeable::Material(n, q) => TradeableView::Material(n@, *q),
            Tradeable::Agent(n, l) => TradeableView::Agent(n@, *l),
            Tradeable::Knowledge(n, l) => TradeableView::Knowledge(n@, *l),
            Tradeable::Recipe(n) => TradeableView::Recipe(n@),
            Tradeable::Pet(n, l) => TradeableView::Pet(n@, *l),
        }
    }
}

/// Two items compare equal: the same kind, the same name, and equal numbers
/// (levels compared as binary64 numbers).
pub open spec fn same_item(a: TradeableView, b: TradeableView) -> bool {
    match (a, b) {
        (TradeableView::Material(n, q), TradeableView::Material(m, r)) => n == m && q == r,
        (TradeableView::Agent(n, x), TradeableView::Agent(m, y)) => n == m && levels_equal(x, y),
        (TradeableView::Knowledge(n, x), TradeableView::Knowledge(m, y)) => n == m && levels_equal(x, y),
        (TradeableView::Recipe(n), TradeableView::Recipe(m)) => n == m,
        (TradeableView::Pet(n, x), TradeableView::Pet(m, y)) => n == m && x == y,
        _ => false,
    }
}

impl PartialEq for Tradeable {
    fn eq(&self, other: &Self) -> (r: bool) {
        match (self, other) {
            (Tradeable::Material(n, q), Tradeable::Material(m, r)) => *n == *m && *q == *r,
            (Tradeable::Agent(n, x), Tradeable::Agent(m, y)) => *n == *m && level_eq(*x, *y),
            (Tradeable::Knowledge(n, x), Tradeable::Knowledge(m, y)) => *n == *m && level_eq(*x, *y),
            (Tradeable::Recipe(n), Tradeable::Recipe(m)) => *n == *m,
            (Tradeable::Pet(n, x), Tradeable::Pet(m, y)) => *n == *m && *x == *y,
            _ => false,
        }
    }
}

impl PartialEqSpecImpl for Tradeable {
    open spec fn obeys_eq_spec() -> bool {
        true
    }

    open spec fn eq_spec(&self, other: &Self) -> bool {
        same_item(self@, other@)
    }
}

} // verus!
