//! Memory semantics of a trace, and the acceptance theorem.
//!
//! A trace is memory-consistent when, replaying its operations in execution
//! order against a cell store, every read returns exactly what the store
//! holds for its cell.  The theorem at the bottom shows that the derived
//! tables of any such trace satisfy every checker rule: the witness built
//! from an honest run is always accepted.

use vstd::prelude::*;
use crate::builder::{lemma_all_ops_distinct, lemma_event_ops_fields, spec_all_ops, spec_event_ops};
use crate::checker::{
    erow_ok, etable_valid, inst_contains, jt_contains, mops_accounted, mtable_first_touch,
    mtable_read_continuity, mtable_sorted_strict, mtable_valid, step_ops_in_mtable,
};
use crate::etable::{EventTableEntry, spec_sp_delta};
use crate::imtable::InitMemoryTableEntry;
use crate::itable::{InstructionTableEntry, Opcode};
use crate::jtable::JumpTableEntry;
use crate::mtable::{
    key_le, key_lt, same_key, sorted_by_key, AccessType, LocationType, MemoryTableEntry, VarType,
};

verus! {

/// The cell a memory row touches.
pub open spec fn cell_of(e: MemoryTableEntry) -> (LocationType, u64, u64) {
    (e.ltype, e.mmid, e.offset)
}

/// A store of typed cell contents.
pub type CellStore = Map<(LocationType, u64, u64), (VarType, u64)>;

/// The store after one operation: writes replace the cell, reads leave it.
pub open spec fn step_store(s: CellStore, op: MemoryTableEntry) -> CellStore {
    if op.atype == AccessType::Write {
        s.insert(cell_of(op), (op.vtype, op.value))
    } else {
        s
    }
}

/// One operation is consistent with the store: a read finds its cell
/// holding exactly its claimed type and value.
pub open spec fn op_enabled(s: CellStore, op: MemoryTableEntry) -> bool {
    op.atype == AccessType::Read ==> s.contains_key(cell_of(op)) && s[cell_of(op)] == (
    op.vtype,
    op.value,
    )
}

/// The operations from index `i` on replay consistently from store `s`.
pub open spec fn ops_valid_from(s: CellStore, ops: Seq<MemoryTableEntry>, i: int) -> bool
    decreases ops.len() - i,
{
    if i < 0 || i >= ops.len() {
        true
    } else {
        op_enabled(s, ops[i]) && ops_valid_from(step_store(s, ops[i]), ops, i + 1)
    }
}

/// The store after the first `i` operations, starting from the empty store.
pub open spec fn store_at(ops: Seq<MemoryTableEntry>, i: int) -> CellStore
    decreases i,
{
    if i <= 0 {
        Map::empty()
    } else {
        step_store(store_at(ops, i - 1), ops[i - 1])
    }
}

/// A trace is memory-consistent: its operations, in execution order, replay
/// from the empty store.
pub open spec fn trace_memory_consistent(es: Seq<EventTableEntry>) -> bool {
    ops_valid_from(Map::empty(), spec_all_ops(es), 0)
}

/// In a consistent replay every operation is enabled against the store its
/// prefix built.
proof fn lemma_enabled_at(s: CellStore, ops: Seq<MemoryTableEntry>, i: int, j: int)
    requires
        0 <= i <= j < ops.len(),
        s == store_at(ops, i),
        ops_valid_from(s, ops, i),
    ensures
        op_enabled(store_at(ops, j), ops[j]),
        ops_valid_from(store_at(ops, j), ops, j),
    decreases j - i,
{
    if i < j {
        lemma_enabled_at(step_store(s, ops[i]), ops, i + 1, j);
    }
}

/// Operations on other cells leave a cell's content alone.
proof fn lemma_store_skips(ops: Seq<MemoryTableEntry>, a: int, b: int, c: (LocationType, u64, u64))
    requires
        0 <= a <= b <= ops.len(),
        forall|k: int| a <= k < b ==> cell_of(#[trigger] ops[k]) != c,
    ensures
        store_at(ops, b).contains_key(c) == store_at(ops, a).contains_key(c),
        store_at(ops, a).contains_key(c) ==> store_at(ops, b)[c] == store_at(ops, a)[c],
    decreases b - a,
{
    if a < b {
        lemma_store_skips(ops, a, b - 1, c);
    }
}

/// Before any operation touches a cell, the store does not hold it.
proof fn lemma_untouched_absent(ops: Seq<MemoryTableEntry>, b: int, c: (LocationType, u64, u64))
    requires
        0 <= b <= ops.len(),
        forall|k: int| 0 <= k < b ==> cell_of(#[trigger] ops[k]) != c,
    ensures
        !store_at(ops, b).contains_key(c),
{
    lemma_store_skips(ops, 0, b, c);
}

/// After an enabled operation on a cell, the store holds that operation's
/// type and value for it.
proof fn lemma_store_after_op(ops: Seq<MemoryTableEntry>, a: int)
    requires
        0 <= a < ops.len(),
        ops[a].atype != AccessType::Init,
        op_enabled(store_at(ops, a), ops[a]),
    ensures
        store_at(ops, a + 1).contains_key(cell_of(ops[a])),
        store_at(ops, a + 1)[cell_of(ops[a])] == (ops[a].vtype, ops[a].value),
{
}

/// If `ops[a]` and `ops[b]` are consecutive operations on one cell and the
/// replay is consistent, a read at `b` repeats the type and value at `a`.
proof fn lemma_consecutive_ops(ops: Seq<MemoryTableEntry>, a: int, b: int)
    requires
        0 <= a < b < ops.len(),
        ops_valid_from(Map::empty(), ops, 0),
        forall|k: int| 0 <= k < ops.len() ==> (#[trigger] ops[k]).atype != AccessType::Init,
        cell_of(ops[a]) == cell_of(ops[b]),
        forall|k: int| a < k < b ==> cell_of(#[trigger] ops[k]) != cell_of(ops[a]),
        ops[b].atype == AccessType::Read,
    ensures
        ops[b].value == ops[a].value && ops[b].vtype == ops[a].vtype,
{
    let c = cell_of(ops[a]);
    lemma_enabled_at(Map::empty(), ops, 0, a);
    lemma_store_after_op(ops, a);
    lemma_store_skips(ops, a + 1, b, c);
    lemma_enabled_at(Map::empty(), ops, 0, b);
}

/// In a consistent replay the first operation on a stack cell is a write.
proof fn lemma_first_op_writes(ops: Seq<MemoryTableEntry>, b: int)
    requires
        0 <= b < ops.len(),
        ops_valid_from(Map::empty(), ops, 0),
        forall|k: int| 0 <= k < b ==> cell_of(#[trigger] ops[k]) != cell_of(ops[b]),
        ops[b].atype != AccessType::Init,
    ensures
        ops[b].atype == AccessType::Write,
{
    if ops[b].atype == AccessType::Read {
        lemma_untouched_absent(ops, b, cell_of(ops[b]));
        lemma_enabled_at(Map::empty(), ops, 0, b);
    }
}

/// Execution order of two operations on one cell: earlier step, or same
/// step and earlier sub-operation.
pub open spec fn chrono_lt(a: MemoryTableEntry, b: MemoryTableEntry) -> bool {
    a.eid < b.eid || (a.eid == b.eid && a.emid < b.emid)
}

/// Every operation of the trace belongs to the step whose block holds it,
/// and blocks follow the step order: the operation list is in execution
/// order, cell by cell.
proof fn lemma_all_ops_chrono(es: Seq<EventTableEntry>)
    requires
        forall|q: int| 0 <= q < es.len() ==> (#[trigger] es[q]).wf(),
        forall|i: int, j: int| 0 <= i < j < es.len() ==> (#[trigger] es[i]).eid < (
        #[trigger] es[j]).eid,
    ensures
        forall|i: int, j: int|
            0 <= i < j < spec_all_ops(es).len() && cell_of(#[trigger] spec_all_ops(es)[i])
                == cell_of(#[trigger] spec_all_ops(es)[j]) ==> chrono_lt(
                spec_all_ops(es)[i],
                spec_all_ops(es)[j],
            ),
    decreases es.len(),
{
    if es.len() > 0 {
        let prefix = es.drop_last();
        lemma_all_ops_chrono(prefix);
        lemma_all_ops_eids_bound(prefix, es[es.len() - 1].eid);
        lemma_event_ops_fields(es.last());
        lemma_event_ops_chrono(es.last());
        let a = spec_all_ops(prefix);
        let b = spec_event_ops(es.last());
        let s = spec_all_ops(es);
        assert forall|i: int, j: int|
            0 <= i < j < s.len() && cell_of(#[trigger] s[i]) == cell_of(#[trigger] s[j])
                implies chrono_lt(s[i], s[j]) by {
            if j < a.len() {
                assert(s[i] == a[i] && s[j] == a[j]);
            } else if i >= a.len() {
                assert(s[i] == b[i - a.len()] && s[j] == b[j - a.len()]);
            } else {
                assert(s[i] == a[i] && s[j] == b[j - a.len()]);
                assert(a[i].eid < es[es.len() - 1].eid);
                assert(b[j - a.len()].eid == es[es.len() - 1].eid);
            }
        }
    }
}

/// Operations of earlier steps carry step ids below a later step's id.
proof fn lemma_all_ops_eids_bound(es: Seq<EventTableEntry>, bound: u64)
    requires
        forall|q: int| 0 <= q < es.len() ==> (#[trigger] es[q]).wf(),
        forall|q: int| 0 <= q < es.len() ==> (#[trigger] es[q]).eid < bound,
    ensures
        forall|q: int| 0 <= q < spec_all_ops(es).len() ==> (#[trigger] spec_all_ops(es)[q]).eid
            < bound,
    decreases es.len(),
{
    if es.len() > 0 {
        let prefix = es.drop_last();
        lemma_all_ops_eids_bound(prefix, bound);
        lemma_event_ops_fields(es.last());
        let a = spec_all_ops(prefix);
        let b = spec_event_ops(es.last());
        assert forall|q: int| 0 <= q < spec_all_ops(es).len() implies (
        #[trigger] spec_all_ops(es)[q]).eid < bound by {
            if q < a.len() {
                assert(spec_all_ops(es)[q] == a[q]);
            } else {
                assert(spec_all_ops(es)[q] == b[q - a.len()]);
            }
        }
    }
}

/// Inside one step, operations on one cell get increasing sub-operation
/// ids: the block is in execution order, cell by cell.
proof fn lemma_event_ops_chrono(e: EventTableEntry)
    requires
        e.wf(),
    ensures
        forall|i: int, j: int|
            0 <= i < j < spec_event_ops(e).len() && cell_of(#[trigger] spec_event_ops(e)[i])
                == cell_of(#[trigger] spec_event_ops(e)[j]) ==> chrono_lt(
                spec_event_ops(e)[i],
                spec_event_ops(e)[j],
            ),
{
    let raw = crate::opcode::spec_step_ops(e);
    let ops = spec_event_ops(e);
    lemma_event_ops_fields(e);
    assert forall|i: int, j: int|
        0 <= i < j < ops.len() && cell_of(#[trigger] ops[i]) == cell_of(#[trigger] ops[j])
            implies chrono_lt(ops[i], ops[j]) by {
        reveal(crate::etable::EventTableEntry::wf);
        assert(crate::opcode::same_loc(raw[i], raw[j]));
        assert(crate::etable::spec_mops(e.inst.opcode) < 0x10002);
        crate::opcode::lemma_count_loc_bounds(raw, raw[i], i);
        crate::opcode::lemma_count_loc_bounds(raw, raw[j], j);
        crate::opcode::lemma_step_emids_increase(raw, i, j);
    }
}

/// On one cell, the canonical key orders operations exactly by execution
/// order.
proof fn lemma_same_cell_key_chrono(a: MemoryTableEntry, b: MemoryTableEntry)
    requires
        cell_of(a) == cell_of(b),
    ensures
        key_lt(a, b) <==> chrono_lt(a, b),
{
}

/// A row lying between two rows of one cell, in key order, lies on that
/// cell too: cell groups are contiguous in a key-sorted table.
proof fn lemma_key_between_same_cell(x: MemoryTableEntry, y: MemoryTableEntry, z: MemoryTableEntry)
    requires
        key_le(x, y),
        key_le(y, z),
        cell_of(x) == cell_of(z),
    ensures
        cell_of(y) == cell_of(x),
{
}

/// All operations a trace produces act on the stack and perform real
/// reads or writes.
proof fn lemma_all_ops_stack(es: Seq<EventTableEntry>)
    requires
        forall|q: int| 0 <= q < es.len() ==> (#[trigger] es[q]).wf(),
    ensures
        forall|q: int| 0 <= q < spec_all_ops(es).len() ==> (#[trigger] spec_all_ops(es)[q]).ltype
            == LocationType::Stack && spec_all_ops(es)[q].atype != AccessType::Init,
    decreases es.len(),
{
    if es.len() > 0 {
        let prefix = es.drop_last();
        lemma_all_ops_stack(prefix);
        lemma_event_ops_fields(es.last());
        let a = spec_all_ops(prefix);
        let b = spec_event_ops(es.last());
        assert forall|q: int| 0 <= q < spec_all_ops(es).len() implies (
        #[trigger] spec_all_ops(es)[q]).ltype == LocationType::Stack && spec_all_ops(es)[q].atype
            != AccessType::Init by {
            if q < a.len() {
                assert(spec_all_ops(es)[q] == a[q]);
            } else {
                assert(spec_all_ops(es)[q] == b[q - a.len()]);
            }
        }
    }
}

/// In a key-sorted table, earlier rows are weakly below later ones.
proof fn lemma_sorted_le(s: Seq<MemoryTableEntry>, i: int, j: int)
    requires
        mtable_sorted_strict(s),
        0 <= i <= j < s.len(),
    ensures
        key_le(s[i], s[j]),
{
    if i < j {
        crate::checker::lemma_sorted_strict_pairwise(s, i, j);
    }
}

/// The weak key order is antisymmetric up to key equality.
proof fn lemma_key_le_antisym(a: MemoryTableEntry, b: MemoryTableEntry)
    requires
        key_le(a, b),
        key_le(b, a),
    ensures
        same_key(a, b),
{
}

/// The two rows adjacent in the sorted table stand consecutive in the
/// trace's operation list as well: no third operation on their cell comes
/// between them in execution order.
#[verifier::rlimit(100)]
#[verifier::spinoff_prover]
proof fn lemma_adjacent_rows_consecutive(
    pre: Seq<MemoryTableEntry>,
    sorted: Seq<MemoryTableEntry>,
    a: int,
    b: int,
    i: int,
)
    requires
        mtable_sorted_strict(sorted),
        sorted.to_multiset() == pre.to_multiset(),
        forall|q: int, r: int|
            0 <= q < r < pre.len() && cell_of(#[trigger] pre[q]) == cell_of(#[trigger] pre[r])
                ==> chrono_lt(pre[q], pre[r]),
        0 < i < sorted.len(),
        0 <= a < pre.len(),
        0 <= b < pre.len(),
        pre[a] == sorted[i - 1],
        pre[b] == sorted[i],
        cell_of(sorted[i - 1]) == cell_of(sorted[i]),
    ensures
        a < b,
        forall|k: int| a < k < b ==> cell_of(#[trigger] pre[k]) != cell_of(pre[a]),
{
    broadcast use vstd::seq_lib::group_to_multiset_ensures;

    let x = sorted[i - 1];
    let y = sorted[i];
    assert(key_lt(x, y));
    lemma_same_cell_key_chrono(x, y);
    assert(a < b) by {
        if b < a {
            assert(chrono_lt(pre[b], pre[a]));
        } else if a == b {
            assert(x == y);
        }
    }
    assert forall|k: int| a < k < b implies cell_of(#[trigger] pre[k]) != cell_of(pre[a]) by {
        if cell_of(pre[k]) == cell_of(pre[a]) {
            let z = pre[k];
            assert(chrono_lt(pre[a], pre[k]));
            assert(chrono_lt(pre[k], pre[b]));
            assert(pre.contains(z));
            assert(pre.to_multiset().count(z) > 0);
            assert(sorted.to_multiset().count(z) > 0);
            assert(sorted.contains(z));
            let m = choose|m: int| 0 <= m < sorted.len() && sorted[m] == z;
            lemma_same_cell_key_chrono(x, z);
            lemma_same_cell_key_chrono(z, y);
            assert(key_lt(x, z) && key_lt(z, y));
            if m <= i - 1 {
                lemma_sorted_le(sorted, m, i - 1);
                lemma_key_le_antisym(x, z);
            } else {
                lemma_sorted_le(sorted, i, m);
                lemma_key_le_antisym(z, y);
            }
            assert(false);
        }
    }
}

/// A first-touch row of the sorted table is also the first operation on
/// its cell in execution order.
#[verifier::rlimit(100)]
#[verifier::spinoff_prover]
proof fn lemma_first_touch_first_op(
    pre: Seq<MemoryTableEntry>,
    sorted: Seq<MemoryTableEntry>,
    b: int,
    i: int,
)
    requires
        mtable_sorted_strict(sorted),
        sorted.to_multiset() == pre.to_multiset(),
        forall|q: int, r: int|
            0 <= q < r < pre.len() && cell_of(#[trigger] pre[q]) == cell_of(#[trigger] pre[r])
                ==> chrono_lt(pre[q], pre[r]),
        0 <= i < sorted.len(),
        crate::checker::is_first_touch(sorted, i),
        0 <= b < pre.len(),
        pre[b] == sorted[i],
    ensures
        forall|k: int| 0 <= k < b ==> cell_of(#[trigger] pre[k]) != cell_of(pre[b]),
{
    broadcast use vstd::seq_lib::group_to_multiset_ensures;

    let y = sorted[i];
    assert forall|k: int| 0 <= k < b implies cell_of(#[trigger] pre[k]) != cell_of(pre[b]) by {
        if cell_of(pre[k]) == cell_of(pre[b]) {
            let z = pre[k];
            assert(chrono_lt(z, y));
            assert(pre.contains(z));
            assert(pre.to_multiset().count(z) > 0);
            assert(sorted.to_multiset().count(z) > 0);
            assert(sorted.contains(z));
            let m = choose|m: int| 0 <= m < sorted.len() && sorted[m] == z;
            lemma_same_cell_key_chrono(z, y);
            assert(key_lt(z, y));
            if m >= i {
                lemma_sorted_le(sorted, i, m);
                lemma_key_le_antisym(z, y);
            }
            assert(m < i);
            assert(i > 0);
            lemma_sorted_le(sorted, m, i - 1);
            lemma_sorted_le(sorted, i - 1, i);
            lemma_key_between_same_cell(z, sorted[i - 1], y);
            assert(sorted[i - 1].spec_same_location(sorted[i]));
            assert(false);
        }
    }
}

/// Reads of the sorted table repeat their predecessor's type and value:
/// read continuity from memory consistency.
#[verifier::rlimit(100)]
#[verifier::spinoff_prover]
proof fn lemma_sorted_read_continuity(pre: Seq<MemoryTableEntry>, sorted: Seq<MemoryTableEntry>)
    requires
        mtable_sorted_strict(sorted),
        sorted.to_multiset() == pre.to_multiset(),
        forall|q: int, r: int|
            0 <= q < r < pre.len() && cell_of(#[trigger] pre[q]) == cell_of(#[trigger] pre[r])
                ==> chrono_lt(pre[q], pre[r]),
        forall|k: int| 0 <= k < pre.len() ==> (#[trigger] pre[k]).atype != AccessType::Init,
        ops_valid_from(Map::empty(), pre, 0),
    ensures
        mtable_read_continuity(sorted),
{
    broadcast use vstd::seq_lib::group_to_multiset_ensures;

    assert forall|i: int|
        0 < i < sorted.len() && (#[trigger] sorted[i]).atype == AccessType::Read
            && sorted[i - 1].spec_same_location(sorted[i]) implies sorted[i].value == sorted[i
        - 1].value && sorted[i].vtype == sorted[i - 1].vtype by {
        let x = sorted[i - 1];
        let y = sorted[i];
        assert(sorted.contains(x) && sorted.contains(y));
        assert(sorted.to_multiset().count(x) > 0 && sorted.to_multiset().count(y) > 0);
        assert(pre.to_multiset().count(x) > 0 && pre.to_multiset().count(y) > 0);
        assert(pre.contains(x) && pre.contains(y));
        let a = choose|a: int| 0 <= a < pre.len() && pre[a] == x;
        let b = choose|b: int| 0 <= b < pre.len() && pre[b] == y;
        assert(cell_of(x) == cell_of(y));
        lemma_adjacent_rows_consecutive(pre, sorted, a, b, i);
        lemma_consecutive_ops(pre, a, b);
    }
}

/// First touches of the sorted table write their cell: the stack
/// first-touch rule from memory consistency, for stack-only traces.
#[verifier::rlimit(100)]
#[verifier::spinoff_prover]
proof fn lemma_sorted_first_touch(
    pre: Seq<MemoryTableEntry>,
    sorted: Seq<MemoryTableEntry>,
    im: Seq<InitMemoryTableEntry>,
)
    requires
        mtable_sorted_strict(sorted),
        sorted.to_multiset() == pre.to_multiset(),
        forall|q: int, r: int|
            0 <= q < r < pre.len() && cell_of(#[trigger] pre[q]) == cell_of(#[trigger] pre[r])
                ==> chrono_lt(pre[q], pre[r]),
        forall|k: int| 0 <= k < pre.len() ==> (#[trigger] pre[k]).atype != AccessType::Init
            && pre[k].ltype == LocationType::Stack,
        ops_valid_from(Map::empty(), pre, 0),
    ensures
        mtable_first_touch(sorted, im),
{
    broadcast use vstd::seq_lib::group_to_multiset_ensures;

    assert forall|i: int|
        0 <= i < sorted.len() && crate::checker::is_first_touch(sorted, i) implies (
    match (#[trigger] sorted[i]).ltype {
        LocationType::Stack => sorted[i].atype == AccessType::Write,
        LocationType::Heap => crate::checker::init_contains(im, sorted[i].mmid, sorted[i].offset,
            sorted[i].value),
    }) by {
        let y = sorted[i];
        assert(sorted.contains(y));
        assert(sorted.to_multiset().count(y) > 0);
        assert(pre.to_multiset().count(y) > 0);
        assert(pre.contains(y));
        let b = choose|b: int| 0 <= b < pre.len() && pre[b] == y;
        assert(y.ltype == LocationType::Stack);
        lemma_first_touch_first_op(pre, sorted, b, i);
        lemma_first_op_writes(pre, b);
    }
}

/// The acceptance theorem, memory side: the sorted operation rows of a
/// well-formed, memory-consistent trace satisfy every memory table rule.
#[verifier::rlimit(100)]
#[verifier::spinoff_prover]
pub proof fn lemma_consistent_trace_mtable_valid(
    es: Seq<EventTableEntry>,
    sorted: Seq<MemoryTableEntry>,
    im: Seq<InitMemoryTableEntry>,
)
    requires
        forall|q: int| 0 <= q < es.len() ==> (#[trigger] es[q]).wf(),
        forall|i: int, j: int| 0 <= i < j < es.len() ==> (#[trigger] es[i]).eid < (
        #[trigger] es[j]).eid,
        trace_memory_consistent(es),
        sorted_by_key(sorted),
        sorted.to_multiset() == spec_all_ops(es).to_multiset(),
    ensures
        mtable_valid(sorted, im),
        mops_accounted(es, sorted),
{
    let pre = spec_all_ops(es);
    assert(forall|i: int, j: int| 0 <= i < j < es.len() ==> (#[trigger] es[i]).eid != (
    #[trigger] es[j]).eid);
    crate::builder::lemma_derived_tables_consistent(es, sorted);
    lemma_all_ops_chrono(es);
    lemma_all_ops_stack(es);
    lemma_sorted_read_continuity(pre, sorted);
    lemma_sorted_first_touch(pre, sorted, im);
}

/// Row-wise event table validity from its per-row ingredients.
#[verifier::rlimit(100)]
#[verifier::spinoff_prover]
proof fn lemma_etable_valid_from_parts(
    es: Seq<EventTableEntry>,
    it: Seq<InstructionTableEntry>,
    mt: Seq<MemoryTableEntry>,
    jt: Seq<JumpTableEntry>,
)
    requires
        forall|q: int| 0 <= q < es.len() ==> (#[trigger] es[q]).wf(),
        forall|q: int| 0 <= q < es.len() ==> (#[trigger] es[q]).eid == q + 1,
        forall|q: int|
            0 < q < es.len() ==> (#[trigger] es[q]).sp == es[q - 1].sp + spec_sp_delta(
                es[q - 1].inst.opcode,
            ),
        forall|q: int| 0 <= q < es.len() ==> inst_contains(it, (#[trigger] es[q]).inst),
        forall|q: int|
            0 <= q < es.len() && ((#[trigger] es[q]).inst.opcode matches Opcode::Call { .. })
                ==> jt_contains(jt, es[q]),
        forall|q: int| 0 <= q < es.len() ==> step_ops_in_mtable(#[trigger] es[q], mt),
    ensures
        etable_valid(es, it, mt, jt),
{
    assert forall|i: int| 0 <= i < es.len() implies erow_ok(
        if i == 0 {
            None
        } else {
            Some(es[i - 1])
        },
        #[trigger] es[i],
        i,
        it,
        mt,
        jt,
    ) by {
        assert(es[i].wf());
        assert(step_ops_in_mtable(es[i], mt));
    }
}

/// The acceptance theorem, event side: the event table of a trace whose
/// step counter, stack pointer, instruction fetches and transfer records
/// are in order is valid against its sorted operation table.
#[verifier::rlimit(100)]
#[verifier::spinoff_prover]
pub proof fn lemma_trace_etable_valid(
    es: Seq<EventTableEntry>,
    it: Seq<InstructionTableEntry>,
    jt: Seq<JumpTableEntry>,
    sorted: Seq<MemoryTableEntry>,
)
    requires
        forall|q: int| 0 <= q < es.len() ==> (#[trigger] es[q]).wf(),
        forall|q: int| 0 <= q < es.len() ==> (#[trigger] es[q]).eid == q + 1,
        forall|q: int|
            0 < q < es.len() ==> (#[trigger] es[q]).sp == es[q - 1].sp + spec_sp_delta(
                es[q - 1].inst.opcode,
            ),
        forall|q: int| 0 <= q < es.len() ==> inst_contains(it, (#[trigger] es[q]).inst),
        forall|q: int|
            0 <= q < es.len() && ((#[trigger] es[q]).inst.opcode matches Opcode::Call { .. })
                ==> jt_contains(jt, es[q]),
        sorted_by_key(sorted),
        sorted.to_multiset() == spec_all_ops(es).to_multiset(),
    ensures
        etable_valid(es, it, sorted, jt),
{
    assert(forall|i: int, j: int| 0 <= i < j < es.len() ==> (#[trigger] es[i]).eid != (
    #[trigger] es[j]).eid);
    lemma_step_lookups(es, sorted);
    lemma_etable_valid_from_parts(es, it, sorted, jt);
}

/// Every step's declared operations stand in its sorted operation table.
#[verifier::rlimit(100)]
#[verifier::spinoff_prover]
proof fn lemma_step_lookups(es: Seq<EventTableEntry>, sorted: Seq<MemoryTableEntry>)
    requires
        forall|q: int| 0 <= q < es.len() ==> (#[trigger] es[q]).wf(),
        forall|i: int, j: int| 0 <= i < j < es.len() ==> (#[trigger] es[i]).eid != (
        #[trigger] es[j]).eid,
        sorted_by_key(sorted),
        sorted.to_multiset() == spec_all_ops(es).to_multiset(),
    ensures
        forall|q: int| 0 <= q < es.len() ==> step_ops_in_mtable(#[trigger] es[q], sorted),
{
    crate::builder::lemma_derived_tables_consistent(es, sorted);
}

} // verus!
