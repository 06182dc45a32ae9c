//! Process-wide counters: named counters in one of four reduction modes
//! (sum, max, min, average), mutated through per-thread slots and read by a
//! consumer that folds every slot's value together with an accumulator that
//! keeps the contributions of threads that have since terminated.

pub mod counter;
pub mod laws;
pub mod modes;
pub mod registry;

pub use counter::AtomicCounter;
pub use counter::AtomicCounterGuardSum;
pub use modes::AtomicCounterMode;
pub use modes::AvgMode;
pub use modes::CounterMode;
pub use modes::MaxMode;
pub use modes::MinMode;
pub use modes::SumMode;
pub use registry::companion_name;
pub use registry::get_average_value;
pub use registry::get_counter_value;
pub use registry::is_internal_name;
pub use registry::retire_slot;
pub use registry::CounterRegistry;
