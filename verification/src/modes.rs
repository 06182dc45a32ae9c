//! Reduction modes: the identity (reset) value and the combine operation that
//! aggregation applies across slot values.
//!
//! Sum and Average combine by wrapping 64-bit addition, exactly as the
//! fetch-and-add on a slot does; Max and Min combine by comparison.

use vstd::prelude::*;

verus! {

/// The reduction mode of a counter, fixed at its first declaration.
#[derive(Clone, Copy, Debug, PartialEq, Eq, Structural)]
pub enum CounterMode {
    Sum,
    Max,
    Min,
    Avg,
}

/// The value a slot (and the dead-slot accumulator) is reset to, and the
/// starting point of every reduction: 0 for Sum, Max and Avg, the largest
/// representable value for Min.
pub open spec fn reset_val(m: CounterMode) -> i64 {
    match m {
        CounterMode::Min => i64::MAX,
        _ => 0,
    }
}

/// Wrapping 64-bit addition, the effect of a fetch-and-add on a slot.
pub open spec fn wadd(a: i64, b: i64) -> i64 {
    a.wrapping_add(b)
}

/// Mode-specific combine: wrapping addition for Sum/Avg, maximum for Max,
/// minimum for Min.
pub open spec fn combine(m: CounterMode, a: i64, b: i64) -> i64 {
    match m {
        CounterMode::Max => if a >= b { a } else { b },
        CounterMode::Min => if a <= b { a } else { b },
        _ => wadd(a, b),
    }
}

/// Executable counterpart of `combine`.
pub fn combine_exec(m: CounterMode, a: i64, b: i64) -> (r: i64)
    ensures
        r == combine(m, a, b),
{
    match m {
        CounterMode::Max => if a >= b { a } else { b },
        CounterMode::Min => if a <= b { a } else { b },
        _ => a.wrapping_add(b),
    }
}

/// Executable counterpart of `reset_val`.
pub fn reset_val_exec(m: CounterMode) -> (r: i64)
    ensures
        r == reset_val(m),
{
    match m {
        CounterMode::Min => i64::MAX,
        _ => 0,
    }
}

/// Marker trait of the four mode types a typed counter handle can carry;
/// `Extra` is whatever companion state the mode needs (only Average has any).
pub trait AtomicCounterMode {
    type Extra;

    spec fn mode() -> CounterMode;
}

/// Marker for Sum-mode counters.
pub struct SumMode {}

impl AtomicCounterMode for SumMode {
    type Extra = ();

    open spec fn mode() -> CounterMode {
        CounterMode::Sum
    }
}

/// Marker for Max-mode counters.
pub struct MaxMode {}

impl AtomicCounterMode for MaxMode {
    type Extra = ();

    open spec fn mode() -> CounterMode {
        CounterMode::Max
    }
}

/// Marker for Min-mode counters.
pub struct MinMode {}

impl AtomicCounterMode for MinMode {
    type Extra = ();

    open spec fn mode() -> CounterMode {
        CounterMode::Min
    }
}

/// Marker for Average-mode counters; its `Extra` is set by the handle type.
pub struct AvgMode {}

} // verus!
