//! Typed counter handles. An `AtomicCounter<MODE>` names one slot of the
//! registry — the slot a declaration allocated for the calling thread,
//! addressed by the entry's index and the slot's stable id — and its methods
//! are the per-mode mutations; only the operations of the handle's mode are
//! available on it. `AtomicCounterGuardSum` adds a delta to a Sum counter
//! and takes the same delta back when released.

use vstd::prelude::*;
use crate::modes::{wadd, AtomicCounterMode, AvgMode, CounterMode, MaxMode, MinMode, SumMode};
use crate::registry::{
    companion_name, counter_suffix, find_slot, register_slot, register_spec, CounterRegistry,
    EntryModel, RegistryModel, Slot,
};

verus! {

/// A handle to one slot: the entry index of the counter's name and the
/// stable id of this holder's slot within it.
pub struct AtomicCounter<MODE: AtomicCounterMode> {
    pub entry_id: usize,
    pub slot_id: usize,
    pub extra: MODE::Extra,
    pub phantom: core::marker::PhantomData<MODE>,
}

impl AtomicCounterMode for AvgMode {
    type Extra = AtomicCounter<SumMode>;

    open spec fn mode() -> CounterMode {
        CounterMode::Avg
    }
}

impl<MODE: AtomicCounterMode> AtomicCounter<MODE> {
    /// The handle points at a live slot of an entry of the handle's mode.
    pub open spec fn slot_ok(self, m: RegistryModel) -> bool {
        &&& self.entry_id < m.entries.len()
        &&& m.entries[self.entry_id as int].mode == MODE::mode()
        &&& m.entries[self.entry_id as int].has_slot(self.slot_id)
        &&& m.entries[self.entry_id as int].slot_at(self.slot_id).live
    }

    /// The value this handle's slot holds.
    pub open spec fn slot_value(self, m: RegistryModel) -> i64 {
        m.entries[self.entry_id as int].slot_at(self.slot_id).value
    }
}

/// The registry after the slot at position `s` of entry `e` changed its
/// value, everything else unchanged.
pub open spec fn with_slot_value(m: RegistryModel, e: int, s: int, v: i64) -> RegistryModel {
    RegistryModel {
        entries: m.entries.update(
            e,
            EntryModel {
                slots: m.entries[e].slots.update(s, Slot { value: v, ..m.entries[e].slots[s] }),
                ..m.entries[e]
            },
        ),
    }
}

/// Stores `v` into the slot at position `s` of entry `e`; the slot's id and
/// liveness and everything else in the registry stay as they were.
fn store_slot(reg: &mut CounterRegistry, e: usize, s: usize, v: i64)
    requires
        old(reg)@.wf(),
        e < old(reg)@.entries.len(),
        s < old(reg)@.entries[e as int].slots.len(),
    ensures
        final(reg)@ == with_slot_value(old(reg)@, e as int, s as int, v),
        final(reg)@.wf(),
{
    let ghost m0 = reg@;
    let mut entry = reg.entries.remove(e);
    let sl = entry.slots.remove(s);
    entry.slots.insert(s, Slot { value: v, ..sl });
    reg.entries.insert(e, entry);
    proof {
        assert(reg@ =~~= with_slot_value(m0, e as int, s as int, v));
        assert(reg@.entries[e as int].wf()) by {
            assert(forall|k: int|
                0 <= k < reg@.entries[e as int].slots.len() ==> reg@.entries[e as int].slots[k].id
                    == m0.entries[e as int].slots[k].id);
        }
        assert(reg@.wf());
    }
}

impl AtomicCounter<SumMode> {
    /// Declares (or re-finds) the Sum counter `name` and allocates this
    /// holder's slot under it. First declaration of a name wins: it is the
    /// caller's responsibility that every declaration site of a name agrees
    /// on mode and reset flag, so a prior entry under this name must be
    /// Sum-mode.
    pub fn declare(reg: &mut CounterRegistry, name: &str, reset_on_read: bool) -> (c: Self)
        requires
            old(reg)@.wf(),
            old(reg)@.has(name@) ==> old(reg)@.entry_at(name@).mode == CounterMode::Sum,
            old(reg)@.has(name@) ==> old(reg)@.entry_at(name@).next_id < usize::MAX,
        ensures
            final(reg)@.wf(),
            c.slot_ok(final(reg)@),
            c.slot_value(final(reg)@) == 0,
            final(reg)@.entries == register_spec(old(reg)@, name@, CounterMode::Sum, reset_on_read),
            c.entry_id == final(reg)@.index_of(name@),
            c.slot_id + 1 == final(reg)@.entries[c.entry_id as int].next_id,
            final(reg)@.entry_at(name@).name == name@,
    {
        let (entry_id, slot_id) = register_slot(reg, name, CounterMode::Sum, reset_on_read);
        proof {
            let fe = reg@.entries[entry_id as int];
            fe.lemma_slot_index_unique(slot_id, fe.slots.len() - 1);
        }
        AtomicCounter { entry_id, slot_id, extra: (), phantom: core::marker::PhantomData }
    }

    /// Adds 1 to this holder's slot.
    pub fn inc(&self, reg: &mut CounterRegistry)
        requires
            old(reg)@.wf(),
            self.slot_ok(old(reg)@),
        ensures
            final(reg)@.wf(),
            final(reg)@ == with_slot_value(
                old(reg)@,
                self.entry_id as int,
                old(reg)@.entries[self.entry_id as int].slot_index(self.slot_id),
                wadd(self.slot_value(old(reg)@), 1),
            ),
    {
        self.inc_by(1, reg);
    }

    /// Adds `value` to this holder's slot, wrapping on 64-bit overflow as a
    /// fetch-and-add does.
    pub fn inc_by(&self, value: i64, reg: &mut CounterRegistry)
        requires
            old(reg)@.wf(),
            self.slot_ok(old(reg)@),
        ensures
            final(reg)@.wf(),
            final(reg)@ == with_slot_value(
                old(reg)@,
                self.entry_id as int,
                old(reg)@.entries[self.entry_id as int].slot_index(self.slot_id),
                wadd(self.slot_value(old(reg)@), value),
            ),
    {
        let k = find_slot(&reg.entries[self.entry_id], self.slot_id).unwrap();
        proof {
            reg@.entries[self.entry_id as int].lemma_slot_index_unique(self.slot_id, k as int);
        }
        let cur = reg.entries[self.entry_id].slots[k].value;
        store_slot(reg, self.entry_id, k, cur.wrapping_add(value));
    }

    /// Subtracts `value` from this holder's slot, wrapping on 64-bit
    /// overflow as a fetch-and-subtract does.
    pub fn sub(&self, value: i64, reg: &mut CounterRegistry)
        requires
            old(reg)@.wf(),
            self.slot_ok(old(reg)@),
        ensures
            final(reg)@.wf(),
            final(reg)@ == with_slot_value(
                old(reg)@,
                self.entry_id as int,
                old(reg)@.entries[self.entry_id as int].slot_index(self.slot_id),
                self.slot_value(old(reg)@).wrapping_sub(value),
            ),
    {
        let k = find_slot(&reg.entries[self.entry_id], self.slot_id).unwrap();
        proof {
            reg@.entries[self.entry_id as int].lemma_slot_index_unique(self.slot_id, k as int);
        }
        let cur = reg.entries[self.entry_id].slots[k].value;
        store_slot(reg, self.entry_id, k, cur.wrapping_sub(value));
    }
}

impl AtomicCounter<MaxMode> {
    /// Declares (or re-finds) the Max counter `name`; see
    /// `AtomicCounter::<SumMode>::declare` for the first-declaration-wins
    /// caller responsibility.
    pub fn declare(reg: &mut CounterRegistry, name: &str, reset_on_read: bool) -> (c: Self)
        requires
            old(reg)@.wf(),
            old(reg)@.has(name@) ==> old(reg)@.entry_at(name@).mode == CounterMode::Max,
            old(reg)@.has(name@) ==> old(reg)@.entry_at(name@).next_id < usize::MAX,
        ensures
            final(reg)@.wf(),
            c.slot_ok(final(reg)@),
            c.slot_value(final(reg)@) == 0,
            final(reg)@.entries == register_spec(old(reg)@, name@, CounterMode::Max, reset_on_read),
            c.entry_id == final(reg)@.index_of(name@),
            c.slot_id + 1 == final(reg)@.entries[c.entry_id as int].next_id,
    {
        let (entry_id, slot_id) = register_slot(reg, name, CounterMode::Max, reset_on_read);
        proof {
            let fe = reg@.entries[entry_id as int];
            fe.lemma_slot_index_unique(slot_id, fe.slots.len() - 1);
        }
        AtomicCounter { entry_id, slot_id, extra: (), phantom: core::marker::PhantomData }
    }

    /// Raises this holder's slot to `val` if `val` is larger, as a
    /// fetch-max does.
    pub fn max(&self, val: i64, reg: &mut CounterRegistry)
        requires
            old(reg)@.wf(),
            self.slot_ok(old(reg)@),
        ensures
            final(reg)@.wf(),
            final(reg)@ == with_slot_value(
                old(reg)@,
                self.entry_id as int,
                old(reg)@.entries[self.entry_id as int].slot_index(self.slot_id),
                if val >= self.slot_value(old(reg)@) {
                    val
                } else {
                    self.slot_value(old(reg)@)
                },
            ),
    {
        let k = find_slot(&reg.entries[self.entry_id], self.slot_id).unwrap();
        proof {
            reg@.entries[self.entry_id as int].lemma_slot_index_unique(self.slot_id, k as int);
        }
        let cur = reg.entries[self.entry_id].slots[k].value;
        let next = if val >= cur {
            val
        } else {
            cur
        };
        store_slot(reg, self.entry_id, k, next);
    }
}

impl AtomicCounter<MinMode> {
    /// Declares (or re-finds) the Min counter `name`; see
    /// `AtomicCounter::<SumMode>::declare` for the first-declaration-wins
    /// caller responsibility.
    pub fn declare(reg: &mut CounterRegistry, name: &str, reset_on_read: bool) -> (c: Self)
        requires
            old(reg)@.wf(),
            old(reg)@.has(name@) ==> old(reg)@.entry_at(name@).mode == CounterMode::Min,
            old(reg)@.has(name@) ==> old(reg)@.entry_at(name@).next_id < usize::MAX,
        ensures
            final(reg)@.wf(),
            c.slot_ok(final(reg)@),
            c.slot_value(final(reg)@) == 0,
            final(reg)@.entries == register_spec(old(reg)@, name@, CounterMode::Min, reset_on_read),
            c.entry_id == final(reg)@.index_of(name@),
            c.slot_id + 1 == final(reg)@.entries[c.entry_id as int].next_id,
    {
        let (entry_id, slot_id) = register_slot(reg, name, CounterMode::Min, reset_on_read);
        proof {
            let fe = reg@.entries[entry_id as int];
            fe.lemma_slot_index_unique(slot_id, fe.slots.len() - 1);
        }
        AtomicCounter { entry_id, slot_id, extra: (), phantom: core::marker::PhantomData }
    }

    /// Lowers this holder's slot to `val` if `val` is smaller, as a
    /// fetch-min does.
    pub fn min(&self, val: i64, reg: &mut CounterRegistry)
        requires
            old(reg)@.wf(),
            self.slot_ok(old(reg)@),
        ensures
            final(reg)@.wf(),
            final(reg)@ == with_slot_value(
                old(reg)@,
                self.entry_id as int,
                old(reg)@.entries[self.entry_id as int].slot_index(self.slot_id),
                if val <= self.slot_value(old(reg)@) {
                    val
                } else {
                    self.slot_value(old(reg)@)
                },
            ),
    {
        let k = find_slot(&reg.entries[self.entry_id], self.slot_id).unwrap();
        proof {
            reg@.entries[self.entry_id as int].lemma_slot_index_unique(self.slot_id, k as int);
        }
        let cur = reg.entries[self.entry_id].slots[k].value;
        let next = if val <= cur {
            val
        } else {
            cur
        };
        store_slot(reg, self.entry_id, k, next);
    }
}

impl AtomicCounter<AvgMode> {
    /// Both slots valid: the declared name's Avg entry and the private
    /// Sum-mode companion that counts samples, in two distinct entries.
    pub open spec fn valid(self, m: RegistryModel) -> bool {
        &&& self.slot_ok(m)
        &&& self.extra.slot_ok(m)
        &&& self.entry_id != self.extra.entry_id
    }

    /// Declares (or re-finds) the Average counter `name`: an entry under
    /// the declared name for the running total, and a Sum-mode companion
    /// under the private suffix for the sample count, both with the same
    /// reset flag. See `AtomicCounter::<SumMode>::declare` for the
    /// first-declaration-wins caller responsibility.
    pub fn declare(reg: &mut CounterRegistry, name: &str, reset_on_read: bool) -> (c: Self)
        requires
            old(reg)@.wf(),
            old(reg)@.has(name@) ==> old(reg)@.entry_at(name@).mode == CounterMode::Avg,
            old(reg)@.has(name@) ==> old(reg)@.entry_at(name@).next_id < usize::MAX,
            old(reg)@.has(name@ + counter_suffix()) ==> old(reg)@.entry_at(
                name@ + counter_suffix(),
            ).mode == CounterMode::Sum,
            old(reg)@.has(name@ + counter_suffix()) ==> old(reg)@.entry_at(
                name@ + counter_suffix(),
            ).next_id < usize::MAX,
        ensures
            final(reg)@.wf(),
            c.valid(final(reg)@),
            c.slot_value(final(reg)@) == 0,
            c.extra.slot_value(final(reg)@) == 0,
            final(reg)@.entries == register_spec(
                RegistryModel {
                    entries: register_spec(old(reg)@, name@, CounterMode::Avg, reset_on_read),
                },
                name@ + counter_suffix(),
                CounterMode::Sum,
                reset_on_read,
            ),
            c.entry_id == final(reg)@.index_of(name@),
            c.extra.entry_id == final(reg)@.index_of(name@ + counter_suffix()),
            c.slot_id + 1 == final(reg)@.entries[c.entry_id as int].next_id,
            c.extra.slot_id + 1 == final(reg)@.entries[c.extra.entry_id as int].next_id,
            final(reg)@.entry_at(name@).reset_on_read == if old(reg)@.has(name@) {
                old(reg)@.entry_at(name@).reset_on_read
            } else {
                reset_on_read
            },
    {
        proof {
            reveal_strlit("$avg_count_internal");
            assert(counter_suffix().len() > 0);
            assert(name@ + counter_suffix() != name@);
        }
        let (entry_id, slot_id) = register_slot(reg, name, CounterMode::Avg, reset_on_read);
        proof {
            let fe = reg@.entries[entry_id as int];
            fe.lemma_slot_index_unique(slot_id, fe.slots.len() - 1);
        }
        let comp = companion_name(name);
        let (comp_entry, comp_slot) = register_slot(
            reg,
            comp.as_str(),
            CounterMode::Sum,
            reset_on_read,
        );
        proof {
            let fe = reg@.entries[comp_entry as int];
            fe.lemma_slot_index_unique(comp_slot, fe.slots.len() - 1);
        }
        AtomicCounter {
            entry_id,
            slot_id,
            extra: AtomicCounter {
                entry_id: comp_entry,
                slot_id: comp_slot,
                extra: (),
                phantom: core::marker::PhantomData,
            },
            phantom: core::marker::PhantomData,
        }
    }

    /// Records one sample: adds `value` to the running total and 1 to the
    /// sample count. The two updates are independent, not one atomic pair.
    pub fn add_value(&self, value: i64, reg: &mut CounterRegistry)
        requires
            old(reg)@.wf(),
            self.valid(old(reg)@),
        ensures
            final(reg)@.wf(),
            final(reg)@ == with_slot_value(
                with_slot_value(
                    old(reg)@,
                    self.entry_id as int,
                    old(reg)@.entries[self.entry_id as int].slot_index(self.slot_id),
                    wadd(self.slot_value(old(reg)@), value),
                ),
                self.extra.entry_id as int,
                old(reg)@.entries[self.extra.entry_id as int].slot_index(self.extra.slot_id),
                wadd(self.extra.slot_value(old(reg)@), 1),
            ),
    {
        let k = find_slot(&reg.entries[self.entry_id], self.slot_id).unwrap();
        proof {
            reg@.entries[self.entry_id as int].lemma_slot_index_unique(self.slot_id, k as int);
        }
        let cur = reg.entries[self.entry_id].slots[k].value;
        store_slot(reg, self.entry_id, k, cur.wrapping_add(value));
        self.extra.inc(reg);
    }
}

/// A scoped delta on a Sum counter: construction adds `value` to the
/// counter's slot, and `release` takes the same delta back, so the counter
/// tracks a quantity outstanding for exactly one scope. The holder must call
/// `release` on every exit path of that scope.
pub struct AtomicCounterGuardSum {
    pub value: i64,
    pub entry_id: usize,
    pub slot_id: usize,
}

impl AtomicCounterGuardSum {
    /// The guard still points at a live slot.
    pub open spec fn slot_ok(self, m: RegistryModel) -> bool {
        &&& self.entry_id < m.entries.len()
        &&& m.entries[self.entry_id as int].has_slot(self.slot_id)
        &&& m.entries[self.entry_id as int].slot_at(self.slot_id).live
    }

    /// The delta this guard added and will take back.
    pub open spec fn delta(self) -> i64 {
        self.value
    }

    /// Adds `value` to the counter's slot and remembers it for `release`.
    pub fn new(counter: &AtomicCounter<SumMode>, value: i64, reg: &mut CounterRegistry) -> (g:
        Self)
        requires
            old(reg)@.wf(),
            counter.slot_ok(old(reg)@),
        ensures
            final(reg)@.wf(),
            final(reg)@ == with_slot_value(
                old(reg)@,
                counter.entry_id as int,
                old(reg)@.entries[counter.entry_id as int].slot_index(counter.slot_id),
                wadd(counter.slot_value(old(reg)@), value),
            ),
            g.entry_id == counter.entry_id,
            g.slot_id == counter.slot_id,
            g.delta() == value,
            g.slot_ok(final(reg)@),
    {
        counter.inc_by(value, reg);
        proof {
            let fe = reg@.entries[counter.entry_id as int];
            let m0e = old(reg)@.entries[counter.entry_id as int];
            fe.lemma_slot_index_unique(counter.slot_id, m0e.slot_index(counter.slot_id));
        }
        AtomicCounterGuardSum { value, entry_id: counter.entry_id, slot_id: counter.slot_id }
    }

    /// Takes the guard's delta back out of the counter's slot; consuming the
    /// guard makes this happen exactly once.
    pub fn release(self, reg: &mut CounterRegistry)
        requires
            old(reg)@.wf(),
            self.slot_ok(old(reg)@),
        ensures
            final(reg)@.wf(),
            final(reg)@ == with_slot_value(
                old(reg)@,
                self.entry_id as int,
                old(reg)@.entries[self.entry_id as int].slot_index(self.slot_id),
                old(reg)@.entries[self.entry_id as int].slot_at(self.slot_id).value.wrapping_sub(
                    self.delta(),
                ),
            ),
    {
        let k = find_slot(&reg.entries[self.entry_id], self.slot_id).unwrap();
        proof {
            reg@.entries[self.entry_id as int].lemma_slot_index_unique(self.slot_id, k as int);
        }
        let cur = reg.entries[self.entry_id].slots[k].value;
        store_slot(reg, self.entry_id, k, cur.wrapping_sub(self.value));
    }
}

} // verus!
