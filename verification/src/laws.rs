//! The laws of aggregation: what a read reports for entries built by known
//! histories, that pruning dead slots never loses a contribution, that a
//! reset-on-read entry reads as its reset value the second time, and that
//! aggregation depends only on the multiset of slot values.

use vstd::prelude::*;
use crate::modes::{combine, reset_val, wadd, CounterMode};
use crate::registry::{
    aggregate_spec, aggregated, counter_suffix, dead_values, entry_total, fold_vals,
    lemma_fold_snoc, live_slots, slot_values, with_slot_dead, EntryModel, RegistryModel, Slot,
};

verus! {

/// Two values can be combined onto an accumulator in either order.
pub proof fn lemma_combine_exchange(m: CounterMode, a: i64, x: i64, y: i64)
    ensures
        combine(m, combine(m, a, x), y) == combine(m, combine(m, a, y), x),
{
}

/// Combining a value into the seed of a fold is the same as combining it
/// onto the fold's result.
pub proof fn lemma_fold_pull(m: CounterMode, acc: i64, x: i64, vals: Seq<i64>)
    ensures
        fold_vals(m, combine(m, acc, x), vals) == combine(m, fold_vals(m, acc, vals), x),
    decreases vals.len(),
{
    if vals.len() == 0 {
    } else {
        lemma_combine_exchange(m, acc, x, vals[0]);
        lemma_fold_pull(m, combine(m, acc, vals[0]), x, vals.drop_first());
    }
}

/// Folding the dead values into the seed and then the live values over it is
/// the same as folding every slot's value in place.
proof fn lemma_fold_split(m: CounterMode, acc: i64, slots: Seq<Slot>)
    ensures
        fold_vals(m, fold_vals(m, acc, dead_values(slots)), slot_values(live_slots(slots)))
            == fold_vals(m, acc, slot_values(slots)),
    decreases slots.len(),
{
    if slots.len() == 0 {
        assert(slot_values(live_slots(slots)) =~= Seq::<i64>::empty());
        assert(slot_values(slots) =~= Seq::<i64>::empty());
    } else {
        let h = slots[0];
        let rest = slots.drop_first();
        assert(slot_values(slots)[0] == h.value);
        assert(slot_values(slots).drop_first() =~= slot_values(rest));
        lemma_fold_split(m, combine(m, acc, h.value), rest);
        if h.live {
            assert(live_slots(slots) =~= seq![h] + live_slots(rest));
            assert(dead_values(slots) == dead_values(rest));
            assert(slot_values(seq![h] + live_slots(rest))[0] == h.value);
            assert(slot_values(seq![h] + live_slots(rest)).drop_first() =~= slot_values(
                live_slots(rest),
            ));
            lemma_fold_pull(m, acc, h.value, dead_values(rest));
            assert(fold_vals(m, acc, slot_values(slots)) == fold_vals(
                m,
                combine(m, acc, h.value),
                slot_values(rest),
            ));
        } else {
            assert(dead_values(slots) =~= seq![h.value] + dead_values(rest));
            assert(live_slots(slots) == live_slots(rest));
            assert((seq![h.value] + dead_values(rest))[0] == h.value);
            assert((seq![h.value] + dead_values(rest)).drop_first() =~= dead_values(rest));
        }
    }
}

/// No loss on thread death: when an entry does not reset on read, one
/// aggregation — which prunes every dead slot, folding its last value into
/// the accumulator exactly once — leaves the entry's total unchanged, so a
/// terminated thread's contribution is reported by every later read as well.
pub proof fn lemma_no_loss_on_death(e: EntryModel)
    requires
        !e.reset_on_read,
    ensures
        entry_total(aggregated(e)) == entry_total(e),
{
    lemma_fold_split(e.mode, e.dead_acc, e.slots);
}

/// Marking a slot dead changes no value, so it changes nothing a read
/// reports: the very next aggregation still counts the terminated thread's
/// last value, and `lemma_no_loss_on_death` carries it into every later one.
pub proof fn lemma_retire_preserves_total(m: RegistryModel, e: int, s: int)
    requires
        0 <= e < m.entries.len(),
        0 <= s < m.entries[e].slots.len(),
    ensures
        entry_total(with_slot_dead(m, e, s).entries[e]) == entry_total(m.entries[e]),
{
    assert(slot_values(with_slot_dead(m, e, s).entries[e].slots) =~= slot_values(
        m.entries[e].slots,
    ));
}

/// Folding values that all equal the mode's reset value onto the reset value
/// yields the reset value again.
proof fn lemma_fold_all_reset(m: CounterMode, vals: Seq<i64>)
    requires
        forall|k: int| 0 <= k < vals.len() ==> vals[k] == reset_val(m),
    ensures
        fold_vals(m, reset_val(m), vals) == reset_val(m),
    decreases vals.len(),
{
    if vals.len() == 0 {
    } else {
        assert(combine(m, reset_val(m), vals[0]) == reset_val(m));
        lemma_fold_all_reset(m, vals.drop_first());
    }
}

/// Reset idempotence for one entry: after an aggregation of a reset-on-read
/// entry, with no increment in between, the entry's total is the mode's
/// reset value (0 for Sum, Max and Average; the largest value for Min).
pub proof fn lemma_reset_entry_idempotent(e: EntryModel)
    requires
        e.reset_on_read,
    ensures
        entry_total(aggregated(e)) == reset_val(e.mode),
{
    let ae = aggregated(e);
    assert(forall|k: int|
        0 <= k < slot_values(ae.slots).len() ==> slot_values(ae.slots)[k] == reset_val(e.mode));
    lemma_fold_all_reset(e.mode, slot_values(ae.slots));
}

/// A fold may pick up the value at any one position last.
proof fn lemma_fold_remove(m: CounterMode, acc: i64, vals: Seq<i64>, i: int)
    requires
        0 <= i < vals.len(),
    ensures
        fold_vals(m, acc, vals) == combine(m, fold_vals(m, acc, vals.remove(i)), vals[i]),
    decreases i,
{
    if i == 0 {
        assert(vals.remove(0) =~= vals.drop_first());
        lemma_fold_pull(m, acc, vals[0], vals.drop_first());
    } else {
        assert(vals.remove(i)[0] == vals[0]);
        assert(vals.remove(i).drop_first() =~= vals.drop_first().remove(i - 1));
        assert(vals.drop_first()[i - 1] == vals[i]);
        lemma_fold_remove(m, combine(m, acc, vals[0]), vals.drop_first(), i - 1);
    }
}

/// A fold over a sequence of values depends only on their multiset: any
/// permutation folds to the same result.
pub proof fn lemma_fold_multiset(m: CounterMode, acc: i64, s1: Seq<i64>, s2: Seq<i64>)
    requires
        s1.to_multiset() == s2.to_multiset(),
    ensures
        fold_vals(m, acc, s1) == fold_vals(m, acc, s2),
    decreases s1.len(),
{
    broadcast use vstd::seq_lib::group_to_multiset_ensures;
    broadcast use vstd::multiset::group_multiset_axioms;

    s1.to_multiset_ensures();
    s2.to_multiset_ensures();
    if s1.len() == 0 {
        assert(s2.len() == 0);
    } else {
        let x = s1.last();
        assert(s1[s1.len() - 1] == x);
        assert(s1.contains(x));
        assert(s2.to_multiset().count(x) > 0);
        assert(s2.contains(x));
        let j = choose|j: int| 0 <= j < s2.len() && s2[j] == x;
        assert(s1.drop_last().push(x) =~= s1);
        lemma_fold_snoc(m, acc, s1.drop_last(), x);
        lemma_fold_remove(m, acc, s2, j);
        assert(s1.drop_last().push(x).to_multiset() =~= s1.drop_last().to_multiset().insert(x));
        assert(s2.remove(j).to_multiset() =~= s2.to_multiset().remove(s2[j]));
        assert(s1.drop_last().to_multiset() =~= s2.remove(j).to_multiset());
        lemma_fold_multiset(m, acc, s1.drop_last(), s2.remove(j));
    }
}

/// Order-independence: an entry's total depends only on the multiset of its
/// slot values and the accumulator, not on the order the slots were
/// registered in. Since a Max or Min slot's own value is itself a fold of
/// the values written to it, the same lemma shows that the interleaving of
/// writes does not matter either.
pub proof fn lemma_order_independence(e1: EntryModel, e2: EntryModel)
    requires
        e1.mode == e2.mode,
        e1.dead_acc == e2.dead_acc,
        slot_values(e1.slots).to_multiset() == slot_values(e2.slots).to_multiset(),
    ensures
        entry_total(e1) == entry_total(e2),
{
    lemma_fold_multiset(e1.mode, e1.dead_acc, slot_values(e1.slots), slot_values(e2.slots));
}

/// Reset idempotence: two consecutive reads of a reset-on-read counter with
/// no increment in between — the second read reports the mode's reset value
/// (0 for Sum, Max and Average, where an Average also reports 0 samples and
/// so "no data"; the largest value for Min).
pub proof fn lemma_reset_read_idempotent(m: RegistryModel, name: Seq<char>)
    requires
        m.wf(),
        m.has(name) ==> m.entry_at(name).reset_on_read,
        (m.has(name) && m.entry_at(name).mode == CounterMode::Avg && m.has(
            name + counter_suffix(),
        )) ==> (m.entry_at(name + counter_suffix()).reset_on_read && m.entry_at(
            name + counter_suffix(),
        ).mode == CounterMode::Sum),
    ensures
        ({
            let second = aggregate_spec(aggregate_spec(m, name).0, name).1;
            &&& m.has(name) ==> second.0 == reset_val(m.entry_at(name).mode)
            &&& second.1 == 0
        }),
{
    reveal_strlit("$avg_count_internal");
    let comp = name + counter_suffix();
    assert(comp.len() > name.len());
    assert(comp != name);
    if !m.has(name) {
        assert(aggregate_spec(m, name).0 == m);
    } else {
        let i = m.index_of(name);
        let e = m.entries[i];
        let m1a = RegistryModel { entries: m.entries.update(i, aggregated(e)) };
        assert(forall|k: int|
            0 <= k < m1a.entries.len() ==> m1a.entries[k].name == m.entries[k].name);
        assert(m1a.names_unique());
        m1a.lemma_index_of_unique(name, i);
        lemma_reset_entry_idempotent(e);
        if e.mode != CounterMode::Avg {
            assert(aggregate_spec(m, name).0 == m1a);
            assert(aggregate_spec(m1a, name).1.0 == entry_total(aggregated(e)));
        } else {
            assert(m1a.has(comp) <==> m.has(comp)) by {
                if m1a.has(comp) {
                    let k = choose|k: int|
                        0 <= k < m1a.entries.len() && m1a.entries[k].name == comp;
                    assert(m.entries[k].name == comp);
                }
                if m.has(comp) {
                    let k = choose|k: int| 0 <= k < m.entries.len() && m.entries[k].name == comp;
                    assert(m1a.entries[k].name == comp);
                }
            }
            if !m.has(comp) {
                assert(aggregate_spec(m, name).0 == m1a);
                let second = aggregate_spec(m1a, name);
                assert(second.1.0 == entry_total(aggregated(e)));
                let m2a = RegistryModel {
                    entries: m1a.entries.update(i, aggregated(aggregated(e))),
                };
                assert(forall|k: int|
                    0 <= k < m2a.entries.len() ==> m2a.entries[k].name == m.entries[k].name);
                assert(!m2a.has(comp)) by {
                    if m2a.has(comp) {
                        let k = choose|k: int|
                            0 <= k < m2a.entries.len() && m2a.entries[k].name == comp;
                        assert(m.entries[k].name == comp);
                    }
                }
                assert(second.1.1 == 0);
            } else {
                let j = m.index_of(comp);
                let ce = m.entries[j];
                m1a.lemma_index_of_unique(comp, j);
                assert(j != i);
                assert(m1a.entries[j] == ce);
                let m1 = RegistryModel { entries: m1a.entries.update(j, aggregated(ce)) };
                assert(aggregate_spec(m, name).0 == m1);
                assert(forall|k: int|
                    0 <= k < m1.entries.len() ==> m1.entries[k].name == m.entries[k].name);
                assert(m1.names_unique());
                m1.lemma_index_of_unique(name, i);
                m1.lemma_index_of_unique(comp, j);
                assert(m1.entries[i] == aggregated(e));
                let second = aggregate_spec(m1, name);
                assert(second.1.0 == entry_total(aggregated(e)));
                let m2a = RegistryModel {
                    entries: m1.entries.update(i, aggregated(aggregated(e))),
                };
                assert(forall|k: int|
                    0 <= k < m2a.entries.len() ==> m2a.entries[k].name == m.entries[k].name);
                assert(m2a.names_unique());
                m2a.lemma_index_of_unique(comp, j);
                assert(m2a.entries[j] == aggregated(ce));
                lemma_reset_entry_idempotent(ce);
                assert(second.1.1 == entry_total(aggregated(ce)));
            }
        }
    }
}

/// The value a Sum slot holds after `n` fetch-adds of `v`, starting from
/// the 0 a fresh slot holds.
pub open spec fn repeat_inc(v: i64, n: nat) -> i64
    decreases n,
{
    if n == 0 {
        0
    } else {
        wadd(repeat_inc(v, (n - 1) as nat), v)
    }
}

/// As long as the mathematical product stays representable, `n` wrapping
/// additions of a non-negative `v` really add up to `n * v`.
pub proof fn lemma_repeat_inc(v: i64, n: nat)
    requires
        0 <= v,
        n * v <= i64::MAX,
    ensures
        repeat_inc(v, n) == n * v,
    decreases n,
{
    if n == 0 {
        assert(n * v == 0) by (nonlinear_arith)
            requires
                n == 0,
        ;
    } else {
        let p = (n - 1) as nat;
        assert(p * v == n * v - v) by (nonlinear_arith)
            requires
                n >= 1,
                p == n - 1,
        ;
        assert(p * v >= 0) by (nonlinear_arith)
            requires
                p >= 0,
                v >= 0,
        ;
        lemma_repeat_inc(v, p);
        assert(wadd((p * v) as i64, v) == p * v + v) by {
            assert(p * v + v <= i64::MAX);
        }
    }
}

/// Folding a Sum over values that all equal `c` adds `len * c` onto the
/// accumulator, with no wrap, as long as the result stays representable.
proof fn lemma_fold_sum_const(m: CounterMode, acc: i64, vals: Seq<i64>, c: i64)
    requires
        m == CounterMode::Sum || m == CounterMode::Avg,
        forall|k: int| 0 <= k < vals.len() ==> vals[k] == c,
        0 <= acc,
        0 <= c,
        acc + vals.len() * c <= i64::MAX,
    ensures
        fold_vals(m, acc, vals) == acc + vals.len() * c,
    decreases vals.len(),
{
    if vals.len() == 0 {
    } else {
        let rest = vals.drop_first();
        assert(vals.len() * c == rest.len() * c + c) by (nonlinear_arith)
            requires
                vals.len() == rest.len() + 1,
        ;
        assert(rest.len() * c >= 0) by (nonlinear_arith)
            requires
                c >= 0,
        ;
        assert(combine(m, acc, c) == acc + c);
        lemma_fold_sum_const(m, (acc + c) as i64, rest, c);
    }
}

/// A Sum counter under uniform load: `t` threads that each applied `n`
/// fetch-adds of `v` to their own fresh slot, with nothing yet in the
/// accumulator, aggregate to exactly `t * n * v` — as long as that product
/// is representable.
pub proof fn lemma_sum_aggregate_uniform(e: EntryModel, n: nat, v: i64, t: nat)
    requires
        e.mode == CounterMode::Sum,
        e.dead_acc == 0,
        e.slots.len() == t,
        forall|k: int| 0 <= k < e.slots.len() ==> e.slots[k].value == repeat_inc(v, n),
        0 <= v,
        n * v <= i64::MAX,
        t * (n * v) <= i64::MAX,
    ensures
        entry_total(e) == t * (n * v),
{
    lemma_repeat_inc(v, n);
    let c = (n * v) as i64;
    assert(t * (n * v) >= 0) by (nonlinear_arith)
        requires
            n * v >= 0,
            t >= 0,
    ;
    assert(forall|k: int|
        0 <= k < slot_values(e.slots).len() ==> slot_values(e.slots)[k] == c);
    lemma_fold_sum_const(CounterMode::Sum, 0, slot_values(e.slots), c);
}

} // verus!
