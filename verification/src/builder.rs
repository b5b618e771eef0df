//! Witness building: from an ordered trace to the committed tables.
//!
//! The constraint system only checks order and continuity; it never sorts.
//! The builder therefore derives the memory rows from the events, sorts
//! them by the canonical key, derives the jump rows from the transfer
//! steps, and computes the shared `rest_mops` counter columns that tie the
//! event and memory tables together.

use vstd::prelude::*;
use vstd::multiset::Multiset;
use crate::checker::{
    count_non_init, jt_contains, mops_accounted, mtable_sorted_strict, mtable_wf,
    spec_count_non_init, spec_total_mops, step_ops_in_mtable, total_mops,
};
use crate::etable::{EventTableEntry, StepInfo, spec_mops};
use crate::itable::Opcode;
use crate::jtable::JumpTableEntry;
use crate::mtable::{AccessType, MTable, MemoryTableEntry, key_le, key_lt, same_key, sorted_by_key};
use crate::opcode::{memory_event_of_step, spec_assign_emids, spec_step_ops};

verus! {

broadcast use vstd::seq_lib::group_seq_properties;

/// The memory rows one event contributes, sub-operation ids assigned.
pub open spec fn spec_event_ops(e: EventTableEntry) -> Seq<MemoryTableEntry> {
    spec_assign_emids(spec_step_ops(e))
}

/// The memory rows of a whole trace, in trace order.
pub open spec fn spec_all_ops(es: Seq<EventTableEntry>) -> Seq<MemoryTableEntry>
    decreases es.len(),
{
    if es.len() == 0 {
        Seq::empty()
    } else {
        spec_all_ops(es.drop_last()) + spec_event_ops(es.last())
    }
}

/// Derives the memory table of a trace: every step's operations, sorted by
/// the canonical key.
pub fn build_mtable(events: &Vec<EventTableEntry>) -> (r: MTable)
    requires
        forall|i: int| 0 <= i < events@.len() ==> (#[trigger] events@[i]).wf(),
    ensures
        sorted_by_key(r@),
        r@.to_multiset() == spec_all_ops(events@).to_multiset(),
{
    let mut all: Vec<MemoryTableEntry> = Vec::new();
    let n = events.len();
    for i in 0..n
        invariant
            n == events@.len(),
            forall|q: int| 0 <= q < n ==> (#[trigger] events@[q]).wf(),
            all@ == spec_all_ops(events@.subrange(0, i as int)),
    {
        let ops = memory_event_of_step(&events[i]);
        let m = ops.len();
        for j in 0..m
            invariant
                m == ops@.len(),
                ops@ == spec_event_ops(events@[i as int]),
                all@ == spec_all_ops(events@.subrange(0, i as int)) + ops@.subrange(0, j as int),
        {
            all.push(ops[j]);
            proof {
                assert(ops@.subrange(0, j + 1) =~= ops@.subrange(0, j as int).push(ops@[j as int]));
                assert(all@ =~= spec_all_ops(events@.subrange(0, i as int)) + ops@.subrange(
                    0,
                    j + 1,
                ));
            }
        }
        proof {
            assert(ops@.subrange(0, m as int) =~= ops@);
            assert(events@.subrange(0, i + 1).drop_last() =~= events@.subrange(0, i as int));
            assert(events@.subrange(0, i + 1).last() == events@[i as int]);
            assert(all@ =~= spec_all_ops(events@.subrange(0, i + 1)));
        }
    }
    proof {
        assert(events@.subrange(0, n as int) =~= events@);
    }
    let mut mt = MTable::new(all);
    mt.sort();
    mt
}

/// Derives the jump table of a trace: one transfer record per call step.
pub fn build_jtable(events: &Vec<EventTableEntry>) -> (r: Vec<JumpTableEntry>)
    ensures
        forall|i: int|
            0 <= i < events@.len() && ((#[trigger] events@[i]).inst.opcode matches Opcode::Call {
                ..
            }) ==> jt_contains(r@, events@[i]),
{
    let mut r: Vec<JumpTableEntry> = Vec::new();
    let n = events.len();
    for i in 0..n
        invariant
            n == events@.len(),
            forall|q: int|
                0 <= q < i && ((#[trigger] events@[q]).inst.opcode matches Opcode::Call { .. })
                    ==> jt_contains(r@, events@[q]),
    {
        let e = &events[i];
        match &e.inst.opcode {
            Opcode::Call { .. } => {
                let ghost r_old = r@;
                r.push(JumpTableEntry {
                    eid: e.eid,
                    last_jump_eid: e.last_jump_eid,
                    instruction: Box::new(e.inst),
                });
                proof {
                    assert(r@[r@.len() - 1].eid == events@[i as int].eid);
                    assert(jt_contains(r@, events@[i as int]));
                    assert forall|q: int|
                        0 <= q < i + 1 && ((#[trigger] events@[q]).inst.opcode
                            matches Opcode::Call { .. }) implies jt_contains(r@, events@[q]) by {
                        if q < i {
                            let k = choose|k: int|
                                0 <= k < r_old.len() && (#[trigger] r_old[k]).eid
                                    == events@[q].eid && r_old[k].last_jump_eid
                                    == events@[q].last_jump_eid && *r_old[k].instruction
                                    == events@[q].inst;
                            assert(r@[k] == r_old[k]);
                        }
                    }
                }
            },
            _ => {},
        }
    }
    r
}

/// The `rest_mops` column of the event table: row `i` holds the operation
/// count still owed from step `i` on, so row 0 holds the trace total.
pub fn event_rest_mops(events: &Vec<EventTableEntry>) -> (r: Vec<u64>)
    requires
        forall|i: int| 0 <= i < events@.len() ==> (#[trigger] events@[i]).wf(),
        spec_total_mops(events@) <= u64::MAX,
    ensures
        r@.len() == events@.len(),
        forall|i: int|
            0 <= i < r@.len() ==> r@[i] == spec_total_mops(events@) - spec_total_mops(
                events@.subrange(0, i),
            ),
{
    let total = total_mops(events);
    let n = events.len();
    let mut used: u128 = 0;
    let mut r: Vec<u64> = Vec::new();
    proof {
        assert(events@.subrange(0, 0) =~= Seq::<EventTableEntry>::empty());
    }
    for i in 0..n
        invariant
            n == events@.len(),
            forall|q: int| 0 <= q < n ==> (#[trigger] events@[q]).wf(),
            total == spec_total_mops(events@),
            total <= u64::MAX,
            used == spec_total_mops(events@.subrange(0, i as int)),
            0 <= used <= total,
            r@.len() == i,
            forall|q: int|
                0 <= q < i ==> r@[q] == spec_total_mops(events@) - spec_total_mops(
                    events@.subrange(0, q),
                ),
    {
        proof {
            reveal(crate::etable::EventTableEntry::wf);
            lemma_total_mops_prefix(events@, i as int);
        }
        r.push((total - used) as u64);
        let m = crate::etable::mops_of_opcode(&events[i].inst.opcode);
        proof {
            assert(events@.subrange(0, i + 1).drop_last() =~= events@.subrange(0, i as int));
            assert(events@.subrange(0, i + 1).last() == events@[i as int]);
            lemma_total_mops_prefix(events@, i + 1);
        }
        used = used + (m as u128);
    }
    r
}

/// A prefix never declares more operations than the whole trace.
proof fn lemma_total_mops_prefix(es: Seq<EventTableEntry>, i: int)
    requires
        0 <= i <= es.len(),
        forall|q: int| 0 <= q < es.len() ==> (#[trigger] es[q]).wf(),
    ensures
        0 <= spec_total_mops(es.subrange(0, i)) <= spec_total_mops(es),
    decreases es.len() - i,
{
    if i == es.len() {
        assert(es.subrange(0, i) =~= es);
        lemma_total_mops_nonneg(es);
    } else {
        lemma_total_mops_prefix(es, i + 1);
        assert(es.subrange(0, i + 1).drop_last() =~= es.subrange(0, i));
        assert(es.subrange(0, i + 1).last() == es[i]);
        assert(spec_mops(es[i].inst.opcode) >= 0);
        lemma_total_mops_nonneg(es.subrange(0, i));
    }
}

/// A trace never declares a negative operation total.
proof fn lemma_total_mops_nonneg(es: Seq<EventTableEntry>)
    ensures
        spec_total_mops(es) >= 0,
    decreases es.len(),
{
    if es.len() > 0 {
        lemma_total_mops_nonneg(es.drop_last());
        lemma_mops_nonneg(es.last().inst.opcode);
    }
}

/// No opcode declares a negative operation count.
proof fn lemma_mops_nonneg(op: Opcode)
    ensures
        spec_mops(op) >= 0,
{
}

/// The `rest_mops` column of the memory table: row `i` holds the count of
/// real operations from row `i` on, so row 0 holds the table total.
pub fn memory_rest_mops(entries: &Vec<MemoryTableEntry>) -> (r: Vec<u64>)
    requires
        entries@.len() <= u64::MAX,
    ensures
        r@.len() == entries@.len(),
        forall|i: int|
            0 <= i < r@.len() ==> r@[i] == spec_count_non_init(entries@) - spec_count_non_init(
                entries@.subrange(0, i),
            ),
{
    let total = count_non_init(entries);
    let n = entries.len();
    let mut used: usize = 0;
    let mut r: Vec<u64> = Vec::new();
    proof {
        assert(entries@.subrange(0, 0) =~= Seq::<MemoryTableEntry>::empty());
        lemma_count_non_init_len(entries@);
    }
    for i in 0..n
        invariant
            n == entries@.len() <= u64::MAX,
            total == spec_count_non_init(entries@),
            used == spec_count_non_init(entries@.subrange(0, i as int)),
            0 <= used <= total <= n,
            r@.len() == i,
            forall|q: int|
                0 <= q < i ==> r@[q] == spec_count_non_init(entries@) - spec_count_non_init(
                    entries@.subrange(0, q),
                ),
    {
        proof {
            lemma_count_non_init_prefix(entries@, i as int);
            lemma_count_non_init_len(entries@);
            lemma_count_non_init_len(entries@.subrange(0, i as int));
        }
        r.push((total - used) as u64);
        proof {
            assert(entries@.subrange(0, i + 1).drop_last() =~= entries@.subrange(0, i as int));
            assert(entries@.subrange(0, i + 1).last() == entries@[i as int]);
            lemma_count_non_init_prefix(entries@, i + 1);
        }
        if !(entries[i].atype == AccessType::Init) {
            used = used + 1;
        }
    }
    r
}

/// A prefix never counts more real operations than the whole table.
proof fn lemma_count_non_init_prefix(mt: Seq<MemoryTableEntry>, i: int)
    requires
        0 <= i <= mt.len(),
    ensures
        0 <= spec_count_non_init(mt.subrange(0, i)) <= spec_count_non_init(mt),
    decreases mt.len() - i,
{
    if i == mt.len() {
        assert(mt.subrange(0, i) =~= mt);
        lemma_count_non_init_len(mt);
    } else {
        lemma_count_non_init_prefix(mt, i + 1);
        assert(mt.subrange(0, i + 1).drop_last() =~= mt.subrange(0, i));
        assert(mt.subrange(0, i + 1).last() == mt[i]);
        lemma_count_non_init_len(mt.subrange(0, i));
    }
}

/// The real-operation count lies between zero and the row count.
proof fn lemma_count_non_init_len(mt: Seq<MemoryTableEntry>)
    ensures
        0 <= spec_count_non_init(mt) <= mt.len(),
    decreases mt.len(),
{
    if mt.len() > 0 {
        lemma_count_non_init_len(mt.drop_last());
    }
}

/// No two rows of the sequence share a canonical key.
pub open spec fn all_keys_distinct(s: Seq<MemoryTableEntry>) -> bool {
    forall|i: int, j: int| 0 <= i < j < s.len() ==> !same_key(#[trigger] s[i], #[trigger] s[j])
}

/// What one event's memory rows look like: one row per declared operation,
/// each a well-formed real operation of that step.
pub proof fn lemma_event_ops_fields(e: EventTableEntry)
    requires
        e.wf(),
    ensures
        spec_event_ops(e).len() == spec_mops(e.inst.opcode),
        forall|j: int|
            0 <= j < spec_event_ops(e).len() ==> {
                let op = #[trigger] spec_event_ops(e)[j];
                op.eid == e.eid && op.atype != AccessType::Init && op.wf()
            },
{
    reveal(crate::etable::EventTableEntry::wf);
    reveal(crate::etable::EventTableEntry::spec_values_canonical);
    reveal(crate::etable::EventTableEntry::spec_step_matches);
    let raw = spec_step_ops(e);
    let ops = spec_event_ops(e);
    assert(ops.len() == raw.len());
    match e.step_info {
        StepInfo::GetLocal { .. } => {
            assert(raw.len() == 2);
        },
        StepInfo::Return { drop: _, keep: _, drop_values, keep_values } => {
            assert(raw.len() == drop_values@.len() + keep_values@.len());
        },
        _ => {},
    }
    assert forall|j: int| 0 <= j < ops.len() implies {
        let op = #[trigger] ops[j];
        op.eid == e.eid && op.atype != AccessType::Init && op.wf()
    } by {
        crate::opcode::lemma_count_loc_bounds(raw, raw[j], j);
        assert(ops[j].emid == 1 + crate::opcode::spec_count_loc(raw, raw[j], j));
        assert(ops[j].emid <= j + 1);
    }
}

/// Inside one event's rows, no two share a canonical key: operations on
/// different cells differ in their cell, operations on the same cell get
/// strictly increasing sub-operation ids.
pub proof fn lemma_event_ops_distinct(e: EventTableEntry)
    requires
        e.wf(),
    ensures
        all_keys_distinct(spec_event_ops(e)),
{
    let raw = spec_step_ops(e);
    let ops = spec_event_ops(e);
    assert forall|i: int, j: int| 0 <= i < j < ops.len() implies !same_key(
        #[trigger] ops[i],
        #[trigger] ops[j],
    ) by {
        if crate::opcode::same_loc(raw[i], raw[j]) {
            reveal(crate::etable::EventTableEntry::wf);
            lemma_event_ops_fields(e);
            assert(spec_mops(e.inst.opcode) < 0x10002);
            crate::opcode::lemma_count_loc_bounds(raw, raw[i], i);
            crate::opcode::lemma_count_loc_bounds(raw, raw[j], j);
            crate::opcode::lemma_step_emids_increase(raw, i, j);
            assert(ops[i].emid == (1 + crate::opcode::spec_count_loc(raw, raw[i], i)) as u64);
            assert(ops[j].emid == (1 + crate::opcode::spec_count_loc(raw, raw[j], j)) as u64);
            assert(ops[i].emid != ops[j].emid);
        }
    }
}

/// Every row of the trace's operation list carries the step id of some
/// event of the trace.
proof fn lemma_all_ops_eids(es: Seq<EventTableEntry>)
    requires
        forall|q: int| 0 <= q < es.len() ==> (#[trigger] es[q]).wf(),
    ensures
        forall|q: int|
            0 <= q < spec_all_ops(es).len() ==> exists|k: int|
                0 <= k < es.len() && (#[trigger] spec_all_ops(es)[q]).eid == es[k].eid,
    decreases es.len(),
{
    if es.len() > 0 {
        let prefix = es.drop_last();
        lemma_all_ops_eids(prefix);
        lemma_event_ops_fields(es.last());
        let a = spec_all_ops(prefix);
        let b = spec_event_ops(es.last());
        assert forall|q: int| 0 <= q < spec_all_ops(es).len() implies exists|k: int|
            0 <= k < es.len() && (#[trigger] spec_all_ops(es)[q]).eid == es[k].eid by {
            if q < a.len() {
                assert(spec_all_ops(es)[q] == a[q]);
                let k = choose|k: int| 0 <= k < prefix.len() && a[q].eid == prefix[k].eid;
                assert(es[k].eid == prefix[k].eid);
            } else {
                assert(spec_all_ops(es)[q] == b[q - a.len()]);
                assert(b[q - a.len()].eid == es[es.len() - 1].eid);
            }
        }
    }
}

/// Across the whole trace no two memory rows share a canonical key: rows of
/// different steps differ in `eid`, rows of one step by
/// [`lemma_event_ops_distinct`].
pub proof fn lemma_all_ops_distinct(es: Seq<EventTableEntry>)
    requires
        forall|q: int| 0 <= q < es.len() ==> (#[trigger] es[q]).wf(),
        forall|i: int, j: int| 0 <= i < j < es.len() ==> (#[trigger] es[i]).eid != (
        #[trigger] es[j]).eid,
    ensures
        all_keys_distinct(spec_all_ops(es)),
    decreases es.len(),
{
    if es.len() > 0 {
        let prefix = es.drop_last();
        lemma_all_ops_distinct(prefix);
        lemma_all_ops_eids(prefix);
        lemma_event_ops_fields(es.last());
        lemma_event_ops_distinct(es.last());
        let a = spec_all_ops(prefix);
        let b = spec_event_ops(es.last());
        let s = spec_all_ops(es);
        assert forall|i: int, j: int| 0 <= i < j < s.len() implies !same_key(
            #[trigger] s[i],
            #[trigger] s[j],
        ) by {
            if j < a.len() {
                assert(s[i] == a[i] && s[j] == a[j]);
            } else if i >= a.len() {
                assert(s[i] == b[i - a.len()] && s[j] == b[j - a.len()]);
                assert(!same_key(b[i - a.len()], b[j - a.len()]));
            } else {
                assert(s[i] == a[i] && s[j] == b[j - a.len()]);
                let k = choose|k: int| 0 <= k < prefix.len() && a[i].eid == prefix[k].eid;
                assert(es[k].eid == prefix[k].eid);
                assert(es[k].eid != es[es.len() - 1].eid);
                assert(b[j - a.len()].eid == es[es.len() - 1].eid);
            }
        }
    }
}

/// A weakly sorted permutation of rows with pairwise distinct keys is
/// strictly sorted: sorting cannot create the duplicate the order rule
/// forbids.
pub proof fn lemma_sorted_unique_strict(pre: Seq<MemoryTableEntry>, sorted: Seq<MemoryTableEntry>)
    requires
        sorted_by_key(sorted),
        sorted.to_multiset() == pre.to_multiset(),
        all_keys_distinct(pre),
    ensures
        mtable_sorted_strict(sorted),
{
    assert(pre.no_duplicates()) by {
        assert forall|i: int, j: int|
            0 <= i < pre.len() && 0 <= j < pre.len() && i != j implies pre[i] != pre[j] by {
            if i < j {
                assert(!same_key(pre[i], pre[j]));
            } else {
                assert(!same_key(pre[j], pre[i]));
            }
        }
    }
    pre.lemma_multiset_has_no_duplicates();
    sorted.lemma_multiset_has_no_duplicates_conv();
    assert forall|i: int| 0 < i < sorted.len() implies key_lt(
        #[trigger] sorted[i - 1],
        sorted[i],
    ) by {
        let x = sorted[i - 1];
        let y = sorted[i];
        assert(key_le(x, y));
        if same_key(x, y) {
            assert(sorted.to_multiset().count(x) > 0);
            assert(sorted.to_multiset().count(y) > 0);
            assert(pre.to_multiset().count(x) > 0);
            assert(pre.to_multiset().count(y) > 0);
            assert(pre.contains(x));
            assert(pre.contains(y));
            if x == y {
                assert(sorted[i - 1] == sorted[i]);
                assert(!sorted.no_duplicates());
            } else {
                let a = choose|a: int| 0 <= a < pre.len() && pre[a] == x;
                let b = choose|b: int| 0 <= b < pre.len() && pre[b] == y;
                assert(a != b);
                if a < b {
                    assert(!same_key(pre[a], pre[b]));
                } else {
                    assert(!same_key(pre[b], pre[a]));
                }
            }
        }
    }
}

/// Splitting a row list splits its real-operation count.
proof fn lemma_count_non_init_concat(a: Seq<MemoryTableEntry>, b: Seq<MemoryTableEntry>)
    ensures
        spec_count_non_init(a + b) == spec_count_non_init(a) + spec_count_non_init(b),
    decreases b.len(),
{
    if b.len() == 0 {
        assert(a + b =~= a);
    } else {
        lemma_count_non_init_concat(a, b.drop_last());
        assert((a + b).drop_last() =~= a + b.drop_last());
        assert((a + b).last() == b.last());
    }
}

/// A list of real operations counts its own length.
proof fn lemma_count_all_non_init(s: Seq<MemoryTableEntry>)
    requires
        forall|j: int| 0 <= j < s.len() ==> (#[trigger] s[j]).atype != AccessType::Init,
    ensures
        spec_count_non_init(s) == s.len(),
    decreases s.len(),
{
    if s.len() > 0 {
        lemma_count_all_non_init(s.drop_last());
    }
}

/// The trace's operation list holds exactly as many real operations as the
/// events declare.
pub proof fn lemma_all_ops_count(es: Seq<EventTableEntry>)
    requires
        forall|q: int| 0 <= q < es.len() ==> (#[trigger] es[q]).wf(),
    ensures
        spec_count_non_init(spec_all_ops(es)) == spec_total_mops(es),
    decreases es.len(),
{
    if es.len() > 0 {
        let prefix = es.drop_last();
        lemma_all_ops_count(prefix);
        lemma_event_ops_fields(es.last());
        lemma_count_non_init_concat(spec_all_ops(prefix), spec_event_ops(es.last()));
        lemma_count_all_non_init(spec_event_ops(es.last()));
    }
}

/// A row performs a real operation.
pub open spec fn is_real_op(e: MemoryTableEntry) -> bool {
    e.atype != AccessType::Init
}

/// The real-operation count is the size of the real-operation part of the
/// row multiset, so permuting rows never changes it.
proof fn lemma_count_non_init_filter(s: Seq<MemoryTableEntry>)
    ensures
        spec_count_non_init(s) == s.to_multiset().filter(|e: MemoryTableEntry| is_real_op(e)).len(),
    decreases s.len(),
{
    broadcast use vstd::multiset::group_multiset_axioms;

    let f = |e: MemoryTableEntry| is_real_op(e);
    if s.len() == 0 {
        assert(s.to_multiset().filter(f) =~= Multiset::<MemoryTableEntry>::empty());
    } else {
        let prefix = s.drop_last();
        let x = s.last();
        lemma_count_non_init_filter(prefix);
        assert(prefix.push(x) =~= s);
        assert(s.to_multiset() =~= prefix.to_multiset().insert(x));
        if is_real_op(x) {
            assert(s.to_multiset().filter(f) =~= prefix.to_multiset().filter(f).insert(x));
            vstd::multiset::lemma_insert_len(prefix.to_multiset().filter(f), x);
        } else {
            assert(s.to_multiset().filter(f) =~= prefix.to_multiset().filter(f));
        }
    }
}

/// Row lists with the same multiset count the same real operations.
pub proof fn lemma_count_non_init_permutation(
    s1: Seq<MemoryTableEntry>,
    s2: Seq<MemoryTableEntry>,
)
    requires
        s1.to_multiset() == s2.to_multiset(),
    ensures
        spec_count_non_init(s1) == spec_count_non_init(s2),
{
    lemma_count_non_init_filter(s1);
    lemma_count_non_init_filter(s2);
}

/// The derived tables are consistent: a memory table that is a sorted
/// permutation of the trace's operations keeps every row well formed, is
/// strictly ordered in the canonical key, balances the shared operation
/// counter, and answers every memory lookup the event table registers.
pub proof fn lemma_derived_tables_consistent(
    es: Seq<EventTableEntry>,
    sorted: Seq<MemoryTableEntry>,
)
    requires
        forall|q: int| 0 <= q < es.len() ==> (#[trigger] es[q]).wf(),
        forall|i: int, j: int| 0 <= i < j < es.len() ==> (#[trigger] es[i]).eid != (
        #[trigger] es[j]).eid,
        sorted_by_key(sorted),
        sorted.to_multiset() == spec_all_ops(es).to_multiset(),
    ensures
        mtable_wf(sorted),
        mtable_sorted_strict(sorted),
        mops_accounted(es, sorted),
        forall|i: int| 0 <= i < es.len() ==> step_ops_in_mtable(#[trigger] es[i], sorted),
{
    let pre = spec_all_ops(es);
    lemma_all_ops_distinct(es);
    lemma_sorted_unique_strict(pre, sorted);
    lemma_all_ops_count(es);
    lemma_count_non_init_permutation(pre, sorted);
    lemma_all_ops_wf(es);
    assert(mtable_wf(sorted)) by {
        assert forall|q: int| 0 <= q < sorted.len() implies (#[trigger] sorted[q]).wf() by {
            assert(sorted.contains(sorted[q]));
            assert(sorted.to_multiset().count(sorted[q]) > 0);
            assert(pre.to_multiset().count(sorted[q]) > 0);
            assert(pre.contains(sorted[q]));
            let k = choose|k: int| 0 <= k < pre.len() && pre[k] == sorted[q];
        }
    }
    assert forall|i: int| 0 <= i < es.len() implies step_ops_in_mtable(
        #[trigger] es[i],
        sorted,
    ) by {
        reveal(crate::checker::step_ops_in_mtable);
        lemma_event_ops_in_all(es, i);
        let ops = spec_event_ops(es[i]);
        assert forall|j: int| 0 <= j < ops.len() implies crate::checker::mt_contains(
            sorted,
            #[trigger] ops[j],
        ) by {
            assert(pre.contains(ops[j]));
            assert(pre.to_multiset().count(ops[j]) > 0);
            assert(sorted.to_multiset().count(ops[j]) > 0);
            assert(sorted.contains(ops[j]));
            let k = choose|k: int| 0 <= k < sorted.len() && sorted[k] == ops[j];
        }
    }
}

/// Every row of the trace's operation list is well formed.
proof fn lemma_all_ops_wf(es: Seq<EventTableEntry>)
    requires
        forall|q: int| 0 <= q < es.len() ==> (#[trigger] es[q]).wf(),
    ensures
        forall|q: int| 0 <= q < spec_all_ops(es).len() ==> (#[trigger] spec_all_ops(es)[q]).wf(),
    decreases es.len(),
{
    if es.len() > 0 {
        let prefix = es.drop_last();
        lemma_all_ops_wf(prefix);
        lemma_event_ops_fields(es.last());
        let a = spec_all_ops(prefix);
        let b = spec_event_ops(es.last());
        assert forall|q: int| 0 <= q < spec_all_ops(es).len() implies (
        #[trigger] spec_all_ops(es)[q]).wf() by {
            if q < a.len() {
                assert(spec_all_ops(es)[q] == a[q]);
            } else {
                assert(spec_all_ops(es)[q] == b[q - a.len()]);
            }
        }
    }
}

/// One event's rows all stand in the trace's operation list.
proof fn lemma_event_ops_in_all(es: Seq<EventTableEntry>, i: int)
    requires
        0 <= i < es.len(),
    ensures
        forall|j: int|
            0 <= j < spec_event_ops(es[i]).len() ==> spec_all_ops(es).contains(
                #[trigger] spec_event_ops(es[i])[j],
            ),
    decreases es.len(),
{
    if es.len() > 0 {
        let prefix = es.drop_last();
        let a = spec_all_ops(prefix);
        let b = spec_event_ops(es.last());
        if i == es.len() - 1 {
            assert forall|j: int| 0 <= j < spec_event_ops(es[i]).len() implies spec_all_ops(
                es,
            ).contains(#[trigger] spec_event_ops(es[i])[j]) by {
                assert(spec_all_ops(es)[a.len() + j] == b[j]);
            }
        } else {
            lemma_event_ops_in_all(prefix, i);
            assert(prefix[i] == es[i]);
            assert forall|j: int| 0 <= j < spec_event_ops(es[i]).len() implies spec_all_ops(
                es,
            ).contains(#[trigger] spec_event_ops(es[i])[j]) by {
                let k = choose|k: int| 0 <= k < a.len() && a[k] == spec_event_ops(es[i])[j];
                assert(spec_all_ops(es)[k] == a[k]);
            }
        }
    }
}

} // verus!
