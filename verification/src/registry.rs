//! The counter registry: the process-wide table mapping a counter name to its
//! slots (one per registered thread), its dead-slot accumulator, its reduction
//! mode and its reset-on-read flag, together with the aggregation routine.

use vstd::prelude::*;
use vstd::string::{StrSliceExecFns, StringExecFns};
use crate::modes::{combine, combine_exec, reset_val, reset_val_exec, wadd, CounterMode};

verus! {

/// One thread's storage cell for one counter. The `id` is the stable
/// identity a handle addresses the slot by: pruning shrinks an entry's slot
/// list, so positions shift, but an id is never reused within an entry.
/// `live` is false once the owning thread has terminated; the cell then
/// still holds its last observable value until the next aggregation folds it
/// into the accumulator and prunes it.
#[derive(Clone, Copy, Debug, PartialEq, Eq, Structural)]
pub struct Slot {
    pub id: usize,
    pub value: i64,
    pub live: bool,
}

/// Mathematical model of one registry entry.
#[verifier::ext_equal]
pub ghost struct EntryModel {
    pub name: Seq<char>,
    pub slots: Seq<Slot>,
    pub next_id: usize,
    pub dead_acc: i64,
    pub mode: CounterMode,
    pub reset_on_read: bool,
}

/// One registry entry: everything the registry tracks for one counter name.
pub struct CounterEntry {
    pub name: String,
    pub slots: Vec<Slot>,
    pub next_id: usize,
    pub dead_acc: i64,
    pub mode: CounterMode,
    pub reset_on_read: bool,
}

impl View for CounterEntry {
    type V = EntryModel;

    open spec fn view(&self) -> EntryModel {
        EntryModel {
            name: self.name@,
            slots: self.slots@,
            next_id: self.next_id,
            dead_acc: self.dead_acc,
            mode: self.mode,
            reset_on_read: self.reset_on_read,
        }
    }
}

/// Mathematical model of the whole registry.
#[verifier::ext_equal]
pub ghost struct RegistryModel {
    pub entries: Seq<EntryModel>,
}

/// The process-wide counter table. Entries are created on first declaration
/// and never removed; only their slot lists shrink when dead slots are pruned.
pub struct CounterRegistry {
    pub entries: Vec<CounterEntry>,
}

impl View for CounterRegistry {
    type V = RegistryModel;

    open spec fn view(&self) -> RegistryModel {
        RegistryModel { entries: self.entries@.map_values(|e: CounterEntry| e@) }
    }
}

impl EntryModel {
    /// Well-formedness of one entry: slot ids are pairwise distinct and all
    /// below the next id to hand out.
    pub open spec fn wf(self) -> bool {
        &&& forall|i: int, j: int|
            0 <= i < j < self.slots.len() ==> self.slots[i].id != self.slots[j].id
        &&& forall|k: int| 0 <= k < self.slots.len() ==> self.slots[k].id < self.next_id
    }

    /// Whether some slot of the entry carries this id.
    pub open spec fn has_slot(self, id: usize) -> bool {
        exists|k: int| 0 <= k < self.slots.len() && self.slots[k].id == id
    }

    /// The position of the slot carrying this id (unique under `wf`).
    pub open spec fn slot_index(self, id: usize) -> int {
        choose|k: int| 0 <= k < self.slots.len() && self.slots[k].id == id
    }

    /// The slot carrying this id.
    pub open spec fn slot_at(self, id: usize) -> Slot {
        self.slots[self.slot_index(id)]
    }

    /// Under `wf`, `slot_index` returns the one position whose slot carries
    /// the id.
    pub proof fn lemma_slot_index_unique(self, id: usize, k: int)
        requires
            self.wf(),
            0 <= k < self.slots.len(),
            self.slots[k].id == id,
        ensures
            self.has_slot(id),
            self.slot_index(id) == k,
    {
        assert(self.has_slot(id));
        let w = self.slot_index(id);
        if w < k {
            assert(self.slots[w].id != self.slots[k].id);
        } else if k < w {
            assert(self.slots[k].id != self.slots[w].id);
        }
    }
}

impl RegistryModel {
    /// Counter names are unique.
    pub open spec fn names_unique(self) -> bool {
        forall|i: int, j: int|
            0 <= i < j < self.entries.len() ==> self.entries[i].name != self.entries[j].name
    }

    /// Well-formedness: names are unique and every entry is well-formed.
    pub open spec fn wf(self) -> bool {
        &&& self.names_unique()
        &&& forall|i: int| 0 <= i < self.entries.len() ==> (#[trigger] self.entries[i]).wf()
    }

    /// Whether some entry carries this name.
    pub open spec fn has(self, name: Seq<char>) -> bool {
        exists|i: int| 0 <= i < self.entries.len() && self.entries[i].name == name
    }

    /// The index of the entry carrying this name (unique under `wf`).
    pub open spec fn index_of(self, name: Seq<char>) -> int {
        choose|i: int| 0 <= i < self.entries.len() && self.entries[i].name == name
    }

    /// The entry carrying this name.
    pub open spec fn entry_at(self, name: Seq<char>) -> EntryModel {
        self.entries[self.index_of(name)]
    }

    /// Under `wf`, `index_of` returns the one index whose entry carries the
    /// name.
    pub proof fn lemma_index_of_unique(self, name: Seq<char>, i: int)
        requires
            self.names_unique(),
            0 <= i < self.entries.len(),
            self.entries[i].name == name,
        ensures
            self.has(name),
            self.index_of(name) == i,
    {
        assert(self.has(name));
        let w = self.index_of(name);
        if w < i {
            assert(self.entries[w].name != self.entries[i].name);
        } else if i < w {
            assert(self.entries[i].name != self.entries[w].name);
        }
    }
}

/// The values held by a sequence of slots, in order.
pub open spec fn slot_values(slots: Seq<Slot>) -> Seq<i64> {
    slots.map_values(|s: Slot| s.value)
}

/// Left fold of the mode's combine over a sequence of values.
pub open spec fn fold_vals(m: CounterMode, acc: i64, vals: Seq<i64>) -> i64
    decreases vals.len(),
{
    if vals.len() == 0 {
        acc
    } else {
        fold_vals(m, combine(m, acc, vals[0]), vals.drop_first())
    }
}

/// What one aggregation reports for an entry: the fold of its combine over
/// the dead-slot accumulator and every slot's value, live or dead, in order.
pub open spec fn entry_total(e: EntryModel) -> i64 {
    fold_vals(e.mode, e.dead_acc, slot_values(e.slots))
}

/// The live slots of a sequence, in order.
pub open spec fn live_slots(slots: Seq<Slot>) -> Seq<Slot>
    decreases slots.len(),
{
    if slots.len() == 0 {
        Seq::empty()
    } else if slots[0].live {
        seq![slots[0]] + live_slots(slots.drop_first())
    } else {
        live_slots(slots.drop_first())
    }
}

/// The values of the dead slots of a sequence, in order.
pub open spec fn dead_values(slots: Seq<Slot>) -> Seq<i64>
    decreases slots.len(),
{
    if slots.len() == 0 {
        Seq::empty()
    } else if slots[0].live {
        dead_values(slots.drop_first())
    } else {
        seq![slots[0].value] + dead_values(slots.drop_first())
    }
}

/// An entry after one aggregation: dead slots pruned (their values folded
/// into the accumulator), and, when the entry resets on read, every kept slot
/// and the accumulator set back to the mode's reset value.
pub open spec fn aggregated(e: EntryModel) -> EntryModel {
    EntryModel {
        slots: if e.reset_on_read {
            live_slots(e.slots).map_values(|s: Slot| Slot { value: reset_val(e.mode), ..s })
        } else {
            live_slots(e.slots)
        },
        dead_acc: if e.reset_on_read {
            reset_val(e.mode)
        } else {
            fold_vals(e.mode, e.dead_acc, dead_values(e.slots))
        },
        ..e
    }
}

/// One aggregation step on one name: the registry afterwards, the reported
/// value, and the mode of the entry if the name was known.
pub open spec fn aggregate_one_spec(m: RegistryModel, name: Seq<char>) -> (
    RegistryModel,
    i64,
    Option<CounterMode>,
) {
    if m.has(name) {
        let i = m.index_of(name);
        (
            RegistryModel { entries: m.entries.update(i, aggregated(m.entries[i])) },
            entry_total(m.entries[i]),
            Some(m.entries[i].mode),
        )
    } else {
        (m, 0, None)
    }
}

/// The private name suffix under which an Average counter keeps its sample
/// count.
pub open spec fn counter_suffix() -> Seq<char> {
    "$avg_count_internal"@
}

/// A full read of one counter: aggregate the named entry, and, for an
/// Average entry, aggregate its sample-count companion as well; the result is
/// the registry afterwards and the reported `(value, sample_count)` pair.
pub open spec fn aggregate_spec(m: RegistryModel, name: Seq<char>) -> (RegistryModel, (i64, i64)) {
    let first = aggregate_one_spec(m, name);
    if m.has(name) && m.entry_at(name).mode == CounterMode::Avg {
        let second = aggregate_one_spec(first.0, name + counter_suffix());
        (second.0, (first.1, second.1))
    } else {
        (first.0, (first.1, 0))
    }
}

/// The entries after one slot registration under `name`: a fresh live slot
/// holding 0 appended to the name's entry, the entry itself created first if
/// the name is new (a later declaration never changes mode or reset flag).
pub open spec fn register_spec(
    m: RegistryModel,
    name: Seq<char>,
    mode: CounterMode,
    reset_on_read: bool,
) -> Seq<EntryModel> {
    if m.has(name) {
        let i = m.index_of(name);
        m.entries.update(
            i,
            EntryModel {
                slots: m.entries[i].slots.push(
                    Slot { id: m.entries[i].next_id, value: 0, live: true },
                ),
                next_id: (m.entries[i].next_id + 1) as usize,
                ..m.entries[i]
            },
        )
    } else {
        m.entries.push(
            EntryModel {
                name: name,
                slots: seq![Slot { id: 0, value: 0, live: true }],
                next_id: 1,
                dead_acc: 0,
                mode: mode,
                reset_on_read: reset_on_read,
            },
        )
    }
}

/// Folding one more value combines it onto the fold of the values before it.
pub proof fn lemma_fold_snoc(m: CounterMode, acc: i64, vals: Seq<i64>, x: i64)
    ensures
        fold_vals(m, acc, vals.push(x)) == combine(m, fold_vals(m, acc, vals), x),
    decreases vals.len(),
{
    let p = vals.push(x);
    if vals.len() == 0 {
        assert(p[0] == x);
        assert(p.drop_first() =~= Seq::<i64>::empty());
        assert(fold_vals(m, acc, p) == fold_vals(m, combine(m, acc, x), p.drop_first()));
        assert(fold_vals(m, combine(m, acc, x), p.drop_first()) == combine(m, acc, x));
        assert(fold_vals(m, acc, vals) == acc);
    } else {
        assert(p[0] == vals[0]);
        assert(p.drop_first() =~= vals.drop_first().push(x));
        assert(fold_vals(m, acc, p) == fold_vals(m, combine(m, acc, vals[0]), vals.drop_first().push(x)));
        assert(fold_vals(m, acc, vals) == fold_vals(m, combine(m, acc, vals[0]), vals.drop_first()));
        lemma_fold_snoc(m, combine(m, acc, vals[0]), vals.drop_first(), x);
    }
}

/// How appending a slot extends the sequence of live slots.
pub proof fn lemma_live_snoc(slots: Seq<Slot>, x: Slot)
    ensures
        live_slots(slots.push(x)) == if x.live {
            live_slots(slots).push(x)
        } else {
            live_slots(slots)
        },
    decreases slots.len(),
{
    if slots.len() == 0 {
        assert(slots.push(x)[0] == x);
        assert(slots.push(x).drop_first() =~= Seq::<Slot>::empty());
        if x.live {
            assert(seq![x] + live_slots(Seq::empty()) =~= live_slots(Seq::<Slot>::empty()).push(x));
        }
    } else {
        assert(slots.push(x)[0] == slots[0]);
        assert(slots.push(x).drop_first() =~= slots.drop_first().push(x));
        lemma_live_snoc(slots.drop_first(), x);
        if slots[0].live {
            if x.live {
                assert(seq![slots[0]] + live_slots(slots.drop_first()).push(x) =~= (seq![slots[0]]
                    + live_slots(slots.drop_first())).push(x));
            }
        }
    }
}

/// How appending a slot extends the sequence of dead values.
pub proof fn lemma_dead_snoc(slots: Seq<Slot>, x: Slot)
    ensures
        dead_values(slots.push(x)) == if x.live {
            dead_values(slots)
        } else {
            dead_values(slots).push(x.value)
        },
    decreases slots.len(),
{
    if slots.len() == 0 {
        assert(slots.push(x)[0] == x);
        assert(slots.push(x).drop_first() =~= Seq::<Slot>::empty());
        if !x.live {
            assert(seq![x.value] + dead_values(Seq::empty()) =~= dead_values(
                Seq::<Slot>::empty(),
            ).push(x.value));
        }
    } else {
        assert(slots.push(x)[0] == slots[0]);
        assert(slots.push(x).drop_first() =~= slots.drop_first().push(x));
        lemma_dead_snoc(slots.drop_first(), x);
        if !slots[0].live {
            if !x.live {
                assert(seq![slots[0].value] + dead_values(slots.drop_first()).push(x.value) =~= (
                seq![slots[0].value] + dead_values(slots.drop_first())).push(x.value));
            }
        }
    }
}

impl CounterRegistry {
    /// An empty registry: no counter has been declared yet.
    pub fn new() -> (r: Self)
        ensures
            r@.entries.len() == 0,
            r@.wf(),
    {
        CounterRegistry { entries: Vec::new() }
    }
}

/// Looks the name up in the registry; `Some(i)` exactly when entry `i`
/// carries it.
fn find_entry(reg: &CounterRegistry, name: &str) -> (r: Option<usize>)
    ensures
        match r {
            Some(i) => i < reg@.entries.len() && reg@.entries[i as int].name == name@,
            None => !reg@.has(name@),
        },
{
    let key: String = name.to_owned();
    let n = reg.entries.len();
    let mut i: usize = 0;
    while i < n
        invariant
            n == reg@.entries.len(),
            i <= n,
            key@ == name@,
            forall|j: int| 0 <= j < i ==> reg@.entries[j].name != name@,
        decreases n - i,
    {
        if reg.entries[i].name == key {
            return Some(i);
        }
        i += 1;
    }
    None
}

/// Registers one more slot under `name`, creating the entry on first
/// declaration of the name (with the given mode and reset flag; a later
/// declaration keeps the first entry unchanged) and appending a fresh live
/// slot holding 0. Returns the entry's index and the new slot's id.
pub fn register_slot(reg: &mut CounterRegistry, name: &str, mode: CounterMode, reset_on_read: bool) -> (r: (
    usize,
    usize,
))
    requires
        old(reg)@.wf(),
        old(reg)@.has(name@) ==> old(reg)@.entry_at(name@).next_id < usize::MAX,
    ensures
        final(reg)@.wf(),
        final(reg)@.has(name@),
        r.0 < final(reg)@.entries.len(),
        final(reg)@.entries[r.0 as int].name == name@,
        final(reg)@.index_of(name@) == r.0,
        final(reg)@.entries == register_spec(old(reg)@, name@, mode, reset_on_read),
        ({
            let m0 = old(reg)@;
            if m0.has(name@) {
                &&& r.0 == m0.index_of(name@)
                &&& r.1 == m0.entries[r.0 as int].next_id
            } else {
                &&& r.0 == m0.entries.len()
                &&& r.1 == 0
            }
        }),
{
    match find_entry(reg, name) {
        Some(i) => {
            let ghost m0 = reg@;
            proof {
                m0.lemma_index_of_unique(name@, i as int);
            }
            let mut e = reg.entries.remove(i);
            let slot_id = e.next_id;
            e.slots.push(Slot { id: slot_id, value: 0, live: true });
            e.next_id = e.next_id + 1;
            reg.entries.insert(i, e);
            proof {
                assert(reg@.entries =~= register_spec(m0, name@, mode, reset_on_read));
                assert(forall|k: int|
                    0 <= k < reg@.entries.len() ==> reg@.entries[k].name == m0.entries[k].name);
                assert(reg@.entries[i as int].wf());
                assert(reg@.wf());
                reg@.lemma_index_of_unique(name@, i as int);
            }
            (i, slot_id)
        },
        None => {
            let ghost m0 = reg@;
            let i = reg.entries.len();
            let mut slots: Vec<Slot> = Vec::new();
            slots.push(Slot { id: 0, value: 0, live: true });
            reg.entries.push(CounterEntry {
                name: name.to_owned(),
                slots: slots,
                next_id: 1,
                dead_acc: 0,
                mode: mode,
                reset_on_read: reset_on_read,
            });
            proof {
                assert(reg@.entries =~= register_spec(m0, name@, mode, reset_on_read));
                assert(reg@.entries[i as int].wf());
                assert(reg@.wf());
                reg@.lemma_index_of_unique(name@, i as int);
            }
            (i, 0)
        },
    }
}

/// Finds the position of the slot carrying `id` in the entry; `Some(k)`
/// exactly when slot `k` carries it.
pub fn find_slot(entry: &CounterEntry, id: usize) -> (r: Option<usize>)
    ensures
        match r {
            Some(k) => k < entry@.slots.len() && entry@.slots[k as int].id == id,
            None => !entry@.has_slot(id),
        },
{
    let n = entry.slots.len();
    let mut k: usize = 0;
    while k < n
        invariant
            n == entry@.slots.len(),
            k <= n,
            forall|j: int| 0 <= j < k ==> entry@.slots[j].id != id,
        decreases n - k,
    {
        if entry.slots[k].id == id {
            return Some(k);
        }
        k += 1;
    }
    None
}

/// Keeping only the live slots keeps every slot an element of the original
/// sequence and keeps the slot ids pairwise distinct and below any bound
/// they were below.
pub proof fn lemma_live_slots_wf(slots: Seq<Slot>)
    requires
        forall|i: int, j: int| 0 <= i < j < slots.len() ==> slots[i].id != slots[j].id,
    ensures
        forall|k: int|
            0 <= k < live_slots(slots).len() ==> slots.contains(#[trigger] live_slots(slots)[k]),
        forall|i: int, j: int|
            0 <= i < j < live_slots(slots).len() ==> live_slots(slots)[i].id != live_slots(
                slots,
            )[j].id,
    decreases slots.len(),
{
    if slots.len() == 0 {
    } else {
        let h = slots[0];
        let rest = slots.drop_first();
        assert(forall|k: int| 0 <= k < rest.len() ==> rest[k] == slots[k + 1]);
        lemma_live_slots_wf(rest);
        assert(forall|k: int| 0 <= k < live_slots(rest).len() ==> slots.contains(
            #[trigger] live_slots(rest)[k],
        )) by {
            assert forall|k: int| 0 <= k < live_slots(rest).len() implies slots.contains(
                #[trigger] live_slots(rest)[k],
            ) by {
                let l = choose|l: int| 0 <= l < rest.len() && rest[l] == live_slots(rest)[k];
                assert(slots[l + 1] == live_slots(rest)[k]);
            }
        }
        assert(forall|k: int| 0 <= k < live_slots(rest).len() ==> h.id != (
        #[trigger] live_slots(rest)[k]).id) by {
            assert forall|k: int| 0 <= k < live_slots(rest).len() implies h.id != (
            #[trigger] live_slots(rest)[k]).id by {
                let l = choose|l: int| 0 <= l < rest.len() && rest[l] == live_slots(rest)[k];
                assert(slots[0].id != slots[l + 1].id);
            }
        }
        if h.live {
            assert(live_slots(slots) =~= seq![h] + live_slots(rest));
            assert(forall|k: int|
                1 <= k < live_slots(slots).len() ==> live_slots(slots)[k] == live_slots(
                    rest,
                )[k - 1]);
            assert(slots.contains(h)) by {
                assert(slots[0] == h);
            }
        } else {
            assert(live_slots(slots) == live_slots(rest));
        }
    }
}

/// Aggregates the one entry under `name`: folds the accumulator and every
/// slot value, prunes dead slots (folding each last value into the
/// accumulator exactly once), and resets kept slots and the accumulator when
/// the entry resets on read. Returns the folded value and the entry's mode.
fn aggregate_one(reg: &mut CounterRegistry, name: &str) -> (r: (i64, Option<CounterMode>))
    requires
        old(reg)@.wf(),
    ensures
        final(reg)@.wf(),
        final(reg)@ == aggregate_one_spec(old(reg)@, name@).0,
        r.0 == aggregate_one_spec(old(reg)@, name@).1,
        r.1 == aggregate_one_spec(old(reg)@, name@).2,
{
    let idx = match find_entry(reg, name) {
        Some(i) => i,
        None => {
            return (0, None);
        },
    };
    let ghost m0 = reg@;
    proof {
        m0.lemma_index_of_unique(name@, idx as int);
    }
    let mut e = reg.entries.remove(idx);
    let ghost e0 = e@;
    let rv = reset_val_exec(e.mode);
    let mut kept: Vec<Slot> = Vec::new();
    let mut result: i64 = e.dead_acc;
    let mut acc2: i64 = e.dead_acc;
    let n = e.slots.len();
    let mut k: usize = 0;
    while k < n
        invariant
            e@ == e0,
            n == e0.slots.len(),
            k <= n,
            rv == reset_val(e0.mode),
            result == fold_vals(e0.mode, e0.dead_acc, slot_values(e0.slots.take(k as int))),
            acc2 == fold_vals(e0.mode, e0.dead_acc, dead_values(e0.slots.take(k as int))),
            kept@ == if e0.reset_on_read {
                live_slots(e0.slots.take(k as int)).map_values(
                    |s: Slot| Slot { value: reset_val(e0.mode), ..s },
                )
            } else {
                live_slots(e0.slots.take(k as int))
            },
        decreases n - k,
    {
        let s = e.slots[k];
        proof {
            assert(e0.slots.take(k + 1) =~= e0.slots.take(k as int).push(e0.slots[k as int]));
            assert(slot_values(e0.slots.take(k as int).push(e0.slots[k as int])) =~= slot_values(
                e0.slots.take(k as int),
            ).push(e0.slots[k as int].value));
            lemma_fold_snoc(
                e0.mode,
                e0.dead_acc,
                slot_values(e0.slots.take(k as int)),
                e0.slots[k as int].value,
            );
            lemma_live_snoc(e0.slots.take(k as int), e0.slots[k as int]);
            lemma_dead_snoc(e0.slots.take(k as int), e0.slots[k as int]);
            lemma_fold_snoc(
                e0.mode,
                e0.dead_acc,
                dead_values(e0.slots.take(k as int)),
                e0.slots[k as int].value,
            );
            if e0.slots[k as int].live && e0.reset_on_read {
                assert(live_slots(e0.slots.take(k as int)).push(e0.slots[k as int]).map_values(
                    |s: Slot| Slot { value: reset_val(e0.mode), ..s },
                ) =~= live_slots(e0.slots.take(k as int)).map_values(
                    |s: Slot| Slot { value: reset_val(e0.mode), ..s },
                ).push(Slot { value: reset_val(e0.mode), ..e0.slots[k as int] }));
            }
        }
        result = combine_exec(e.mode, result, s.value);
        if s.live {
            if e.reset_on_read {
                kept.push(Slot { id: s.id, value: rv, live: true });
            } else {
                kept.push(s);
            }
        } else {
            acc2 = combine_exec(e.mode, acc2, s.value);
        }
        k += 1;
    }
    proof {
        assert(e0.slots.take(n as int) =~= e0.slots);
    }
    let md = e.mode;
    e.slots = kept;
    e.dead_acc = if e.reset_on_read {
        rv
    } else {
        acc2
    };
    reg.entries.insert(idx, e);
    proof {
        assert(reg@.entries[idx as int] =~~= aggregated(e0));
        assert(reg@ =~~= aggregate_one_spec(m0, name@).0);
        assert(forall|j: int|
            0 <= j < reg@.entries.len() ==> reg@.entries[j].name == m0.entries[j].name);
        lemma_live_slots_wf(e0.slots);
        assert(reg@.entries[idx as int].wf()) by {
            assert forall|k: int|
                0 <= k < reg@.entries[idx as int].slots.len() implies (
            #[trigger] reg@.entries[idx as int].slots[k]).id < reg@.entries[idx as int].next_id by {
                let l = choose|l: int|
                    0 <= l < e0.slots.len() && e0.slots[l] == live_slots(e0.slots)[k];
                assert(e0.slots[l].id < e0.next_id);
            }
        }
        assert(reg@.wf());
    }
    (result, Some(md))
}

/// The name under which an Average counter's sample count is kept: the
/// declared name followed by the private suffix.
pub fn companion_name(name: &str) -> (r: String)
    ensures
        r@ == name@ + counter_suffix(),
{
    let mut s: String = name.to_owned();
    s.append("$avg_count_internal");
    s
}

/// Reads one counter: aggregates the named entry and, for an Average
/// counter, its sample-count companion. Returns `(value, sample_count)`;
/// an unknown name reads as `(0, 0)`, and `sample_count` is 0 for every
/// mode but Average.
pub fn get_counter_value(reg: &mut CounterRegistry, name: &str) -> (r: (i64, i64))
    requires
        old(reg)@.wf(),
    ensures
        final(reg)@.wf(),
        final(reg)@ == aggregate_spec(old(reg)@, name@).0,
        r == aggregate_spec(old(reg)@, name@).1,
{
    let (value, mode) = aggregate_one(reg, name);
    match mode {
        Some(CounterMode::Avg) => {
            let companion = companion_name(name);
            let second = aggregate_one(reg, companion.as_str());
            (value, second.0)
        },
        _ => (value, 0),
    }
}

/// Reads an Average counter and applies the "no data" guard: `None` when no
/// sample has been recorded since the last reset, `Some((sum, count))` with
/// `count > 0` otherwise. The caller divides; this library never does.
pub fn get_average_value(reg: &mut CounterRegistry, name: &str) -> (r: Option<(i64, i64)>)
    requires
        old(reg)@.wf(),
    ensures
        final(reg)@.wf(),
        final(reg)@ == aggregate_spec(old(reg)@, name@).0,
        ({
            let read = aggregate_spec(old(reg)@, name@).1;
            r == if read.1 > 0 {
                Some(read)
            } else {
                None::<(i64, i64)>
            }
        }),
{
    let (value, count) = get_counter_value(reg, name);
    if count > 0 {
        Some((value, count))
    } else {
        None
    }
}

/// Whether a name is one of the library's own derived names — it ends with
/// the private sample-count suffix. The logging consumer skips such names:
/// their contents are reported through the counter they belong to.
pub fn is_internal_name(name: &str) -> (r: bool)
    ensures
        r == (name@.len() >= counter_suffix().len() && name@.subrange(
            name@.len() - counter_suffix().len(),
            name@.len() as int,
        ) == counter_suffix()),
{
    let suffix = "$avg_count_internal";
    proof {
        reveal_strlit("$avg_count_internal");
    }
    let nl = name.unicode_len();
    let sl = suffix.unicode_len();
    if nl < sl {
        return false;
    }
    let start = nl - sl;
    let mut i: usize = 0;
    while i < sl
        invariant
            sl == counter_suffix().len(),
            nl == name@.len(),
            sl <= nl,
            start == nl - sl,
            i <= sl,
            suffix@ == counter_suffix(),
            forall|k: int| 0 <= k < i ==> name@[start + k] == counter_suffix()[k],
        decreases sl - i,
    {
        if name.get_char(start + i) != suffix.get_char(i) {
            proof {
                assert(name@.subrange(start as int, nl as int)[i as int] != counter_suffix()[i as int]);
            }
            return false;
        }
        i += 1;
    }
    proof {
        assert(name@.subrange(start as int, nl as int) =~= counter_suffix());
    }
    true
}

/// The registry after one slot is marked dead, its last value kept for the
/// next aggregation to fold into the accumulator.
pub open spec fn with_slot_dead(m: RegistryModel, e: int, s: int) -> RegistryModel {
    RegistryModel {
        entries: m.entries.update(
            e,
            EntryModel {
                slots: m.entries[e].slots.update(
                    s,
                    Slot { live: false, ..m.entries[e].slots[s] },
                ),
                ..m.entries[e]
            },
        ),
    }
}

/// Marks the slot carrying id `slot_id` under entry `entry_id` dead: the
/// owning thread has terminated. The slot's last value stays in place until
/// the next aggregation folds it into the dead-slot accumulator and prunes
/// the slot. A handle that no longer resolves — the entry index out of
/// range, or no slot under that id — is ignored.
pub fn retire_slot(reg: &mut CounterRegistry, entry_id: usize, slot_id: usize)
    requires
        old(reg)@.wf(),
    ensures
        final(reg)@.wf(),
        final(reg)@ == if entry_id < old(reg)@.entries.len() && old(reg)@.entries[
            entry_id as int
        ].has_slot(slot_id) {
            with_slot_dead(
                old(reg)@,
                entry_id as int,
                old(reg)@.entries[entry_id as int].slot_index(slot_id),
            )
        } else {
            old(reg)@
        },
{
    if entry_id >= reg.entries.len() {
        return ;
    }
    let k = match find_slot(&reg.entries[entry_id], slot_id) {
        Some(k) => k,
        None => {
            return ;
        },
    };
    proof {
        reg@.entries[entry_id as int].lemma_slot_index_unique(slot_id, k as int);
    }
    let ghost m0 = reg@;
    let mut e = reg.entries.remove(entry_id);
    let s = e.slots.remove(k);
    e.slots.insert(k, Slot { live: false, ..s });
    reg.entries.insert(entry_id, e);
    proof {
        assert(reg@ =~~= with_slot_dead(m0, entry_id as int, k as int));
        assert(reg@.entries[entry_id as int].wf()) by {
            assert(forall|j: int|
                0 <= j < reg@.entries[entry_id as int].slots.len() ==> reg@.entries[
                    entry_id as int
                ].slots[j].id == m0.entries[entry_id as int].slots[j].id);
        }
        assert(reg@.wf());
    }
}

} // verus!
