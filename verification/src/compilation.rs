//! The row allocator / compiler: walks the MIG in a bottom-up ready order,
//! assigns each live signal to a concrete DRAM row, emits the instruction
//! stream and retires dead signals.
//!
//! The compiler works in a single home subarray (subarray 0). Rows
//! `0 .. outputs.len()` are reserved as output sinks; two further rows are
//! seeded with the constants 0 and 1; the remaining rows form the allocator
//! pool. At every step the occupied rows, the free rows and the reserved
//! output rows partition the subarray, so their counts always sum to the
//! number of usable rows.

use vstd::prelude::*;
use vstd::pervasive::VecAdditionalExecFns;

use crate::architecture::{
    spec_partner, spec_subarray_of, PRADAArchitecture, RowAddress, ROWS_PER_SUBARRAY,
};
use crate::mig::{
    count_uses, is_output_node, node_use_count, signal_of_index,
    MigNetwork, MigNode, Signal,
};
use crate::program::{sum_energy, sum_latency, Instruction, Program};

verus! {

/// Largest node or output count the compiler accepts; keeps every internal
/// count and cost sum far below the integer limits.
pub const MAX_NETWORK_NODES: usize = 0x1000_0000;

/// A typed compilation failure. The whole compile call fails; the caller
/// receives no partial program.
#[derive(Clone, Copy, PartialEq, Eq, Structural, Debug)]
pub enum CompileError {
    /// The MIG contains an output whose value is never producible: a cycle, a
    /// dangling reference, or an unreachable output.
    InvalidGraph,
    /// The free-row pool was exhausted mid-compilation.
    OutOfRows,
    /// An input signal was not materialized at emission time.
    MissingSignal,
}

/// The state of one row at a concrete compilation step.
#[derive(Clone, Copy, Debug)]
pub struct RowState {
    /// Compute rows are reserved scratch rows for TRA and never hold a
    /// long-lived signal.
    pub is_compute_row: bool,
    /// The signal currently held by this row, if any.
    pub live_value: Option<Signal>,
    /// A row seeded with all 0s or all 1s for the reference subarray.
    pub constant: Option<bool>,
}

/// Number of occupied entries of the row table.
pub open spec fn count_some(s: Seq<Option<RowState>>) -> int
    decreases s.len(),
{
    if s.len() == 0 {
        0
    } else {
        count_some(s.drop_last()) + if s.last() is Some {
            1int
        } else {
            0int
        }
    }
}

/// Number of set flags.
pub open spec fn count_true(s: Seq<bool>) -> int
    decreases s.len(),
{
    if s.len() == 0 {
        0
    } else {
        count_true(s.drop_last()) + if s.last() {
            1int
        } else {
            0int
        }
    }
}

/// Updating one entry changes the occupied count by the difference of the old
/// and new occupancy.
pub proof fn lemma_count_some_update(s: Seq<Option<RowState>>, i: int, v: Option<RowState>)
    requires
        0 <= i < s.len(),
    ensures
        count_some(s.update(i, v)) == count_some(s) + (if v is Some {
            1int
        } else {
            0int
        }) - (if s[i] is Some {
            1int
        } else {
            0int
        }),
    decreases s.len(),
{
    let t = s.update(i, v);
    if i == s.len() - 1 {
        assert(t.drop_last() =~= s.drop_last());
    } else {
        assert(t.drop_last() =~= s.drop_last().update(i, v));
        lemma_count_some_update(s.drop_last(), i, v);
    }
}

/// The count of set flags lies between 0 and the table length.
pub proof fn lemma_count_true_bounds(s: Seq<bool>)
    ensures
        0 <= count_true(s) <= s.len(),
    decreases s.len(),
{
    if s.len() > 0 {
        lemma_count_true_bounds(s.drop_last());
    }
}

/// Updating one flag changes the count by the difference of the old and new
/// value.
pub proof fn lemma_count_true_update(s: Seq<bool>, i: int, v: bool)
    requires
        0 <= i < s.len(),
    ensures
        count_true(s.update(i, v)) == count_true(s) + (if v {
            1int
        } else {
            0int
        }) - (if s[i] {
            1int
        } else {
            0int
        }),
    decreases s.len(),
{
    let t = s.update(i, v);
    if i == s.len() - 1 {
        assert(t.drop_last() =~= s.drop_last());
    } else {
        assert(t.drop_last() =~= s.drop_last().update(i, v));
        lemma_count_true_update(s.drop_last(), i, v);
    }
}

/// Well-formedness of the row bookkeeping: `dram` is the row table of the home
/// subarray, `vs` maps (node, polarity) pairs to rows, `free` is the allocator
/// pool, `k` reserved output rows, `r` usable rows in the home subarray.
///
/// The reserved rows are never occupied; the free rows are unoccupied,
/// in range and pairwise distinct; occupied, free and reserved rows partition
/// the subarray (row conservation); a bound signal's row holds exactly that
/// signal live; and no two signals share a row.
pub open spec fn rows_inv(
    dram: Seq<Option<RowState>>,
    vs: Seq<Option<RowAddress>>,
    free: Seq<RowAddress>,
    k: int,
    r: int,
) -> bool {
    &&& dram.len() == r
    &&& 0 <= k <= r
    &&& r <= ROWS_PER_SUBARRAY
    &&& forall|row: int| 0 <= row < k ==> #[trigger] dram[row] is None
    &&& forall|i: int|
        0 <= i < free.len() ==> k <= (#[trigger] free[i]).0 < r && dram[free[i].0 as int] is None
    &&& forall|i: int, j: int|
        0 <= i < j < free.len() ==> (#[trigger] free[i]).0 != (#[trigger] free[j]).0
    &&& count_some(dram) + free.len() + k == r
    &&& forall|idx: int|
        0 <= idx < vs.len() && #[trigger] vs[idx] is Some ==> {
            let row = vs[idx]->Some_0.0 as int;
            &&& k <= row < r
            &&& dram[row] is Some
            &&& dram[row]->Some_0.live_value == Some(signal_of_index(idx))
        }
    &&& forall|i1: int, i2: int|
        0 <= i1 < vs.len() && 0 <= i2 < vs.len() && #[trigger] vs[i1] is Some
            && #[trigger] vs[i2] is Some && vs[i1]->Some_0.0 == vs[i2]->Some_0.0 ==> i1 == i2
}

/// No signal is bound to an unoccupied row.
pub proof fn lemma_none_row_unreferenced(
    dram: Seq<Option<RowState>>,
    vs: Seq<Option<RowAddress>>,
    free: Seq<RowAddress>,
    k: int,
    r: int,
    row: int,
)
    requires
        rows_inv(dram, vs, free, k, r),
        0 <= row < dram.len(),
        dram[row] is None,
    ensures
        forall|i: int| 0 <= i < vs.len() && #[trigger] vs[i] is Some ==> vs[i]->Some_0.0 != row,
{
}

/// A table without occupied entries has occupied count 0.
pub proof fn lemma_count_some_all_none(s: Seq<Option<RowState>>)
    requires
        forall|i: int| 0 <= i < s.len() ==> #[trigger] s[i] is None,
    ensures
        count_some(s) == 0,
    decreases s.len(),
{
    if s.len() > 0 {
        lemma_count_some_all_none(s.drop_last());
    }
}

/// No signal is bound to a row that holds no live value.
pub proof fn lemma_no_live_unreferenced(
    dram: Seq<Option<RowState>>,
    vs: Seq<Option<RowAddress>>,
    free: Seq<RowAddress>,
    k: int,
    r: int,
    row: int,
)
    requires
        rows_inv(dram, vs, free, k, r),
        0 <= row < dram.len(),
        dram[row] is Some ==> dram[row]->Some_0.live_value is None,
    ensures
        forall|i: int| 0 <= i < vs.len() && #[trigger] vs[i] is Some ==> vs[i]->Some_0.0 != row,
{
}

/// A vector of `len` copies of `value`.
fn fill_copy<T: Copy>(value: T, len: usize) -> (r: Vec<T>)
    ensures
        r@.len() == len,
        forall|i: int| 0 <= i < len ==> r@[i] == value,
{
    let mut v: Vec<T> = Vec::new();
    let mut i: usize = 0;
    while i < len
        invariant
            i <= len,
            v@.len() == i,
            forall|j: int| 0 <= j < i ==> v@[j] == value,
        decreases len - i,
    {
        v.push(value);
        i = i + 1;
    }
    v
}

/// Pops a row from the free pool and seeds it with the given state. Fails
/// with `OutOfRows` when the pool is empty; the bookkeeping stays well formed
/// either way.
fn alloc_seed(
    dram: &mut Vec<Option<RowState>>,
    free: &mut Vec<RowAddress>,
    vs: &Vec<Option<RowAddress>>,
    k: usize,
    r: u64,
    st: RowState,
) -> (res: Result<RowAddress, CompileError>)
    requires
        rows_inv(old(dram)@, vs@, old(free)@, k as int, r as int),
    ensures
        rows_inv(final(dram)@, vs@, final(free)@, k as int, r as int),
        res matches Ok(row) ==> {
            &&& k <= row.0 < r
            &&& old(dram)@[row.0 as int] is None
            &&& final(dram)@ =~= old(dram)@.update(row.0 as int, Some(st))
            &&& final(free)@ =~= old(free)@.drop_last()
            &&& final(free)@.len() == old(free)@.len() - 1
            &&& forall|i: int|
                0 <= i < vs@.len() && #[trigger] vs@[i] is Some ==> vs@[i]->Some_0.0 != row.0
        },
        res is Err ==> {
            &&& res == Err::<RowAddress, CompileError>(CompileError::OutOfRows)
            &&& old(free)@.len() == 0
            &&& final(dram)@ == old(dram)@
            &&& final(free)@ == old(free)@
        },
{
    match free.pop() {
        Some(row) => {
            proof {
                lemma_none_row_unreferenced(
                    dram@,
                    vs@,
                    old(free)@,
                    k as int,
                    r as int,
                    row.0 as int,
                );
                lemma_count_some_update(dram@, row.0 as int, Some(st));
            }
            dram.set(row.0 as usize, Some(st));
            Ok(row)
        },
        None => Err(CompileError::OutOfRows),
    }
}

/// Binds a signal to a row that already holds it live and that no other
/// signal is bound to.
fn bind_signal(
    vs: &mut Vec<Option<RowAddress>>,
    dram: &Vec<Option<RowState>>,
    free: &Vec<RowAddress>,
    k: usize,
    r: u64,
    idx: usize,
    row: RowAddress,
)
    requires
        rows_inv(dram@, old(vs)@, free@, k as int, r as int),
        idx < old(vs)@.len(),
        k <= row.0 < r,
        dram@[row.0 as int] is Some,
        dram@[row.0 as int]->Some_0.live_value == Some(signal_of_index(idx as int)),
        forall|i: int|
            0 <= i < old(vs)@.len() && #[trigger] old(vs)@[i] is Some ==> old(vs)@[i]->Some_0.0
                != row.0,
    ensures
        rows_inv(dram@, final(vs)@, free@, k as int, r as int),
        final(vs)@ =~= old(vs)@.update(idx as int, Some(row)),
{
    vs.set(idx, Some(row));
}

/// A constant node's two polarities are bound to constant rows: the positive
/// signal to a row of all 0s, the negative one to a row of all 1s.
pub open spec fn constant_node_bound(
    dram: Seq<Option<RowState>>,
    vs: Seq<Option<RowAddress>>,
    id: int,
) -> bool {
    &&& vs[2 * id] is Some
    &&& dram[vs[2 * id]->Some_0.0 as int] is Some
    &&& dram[vs[2 * id]->Some_0.0 as int]->Some_0.constant == Some(false)
    &&& vs[2 * id + 1] is Some
    &&& dram[vs[2 * id + 1]->Some_0.0 as int] is Some
    &&& dram[vs[2 * id + 1]->Some_0.0 as int]->Some_0.constant == Some(true)
}

/// After initialization only leaf signals are bound to rows, one table slot
/// per (node, polarity) pair.
pub open spec fn init_inv(vs: Seq<Option<RowAddress>>, network: MigNetwork) -> bool {
    &&& vs.len() == 2 * network.nodes@.len()
    &&& forall|idx: int|
        0 <= idx < vs.len() && #[trigger] vs[idx] is Some ==> network.nodes@[idx / 2].spec_is_leaf()
}

/// Seeds the two constant rows the reference subarray needs: one of all 0s,
/// one of all 1s, both popped from the free pool and not yet holding a signal.
fn seed_constants(
    dram: &mut Vec<Option<RowState>>,
    free: &mut Vec<RowAddress>,
    vs: &Vec<Option<RowAddress>>,
    k: usize,
    r: u64,
) -> (res: Result<(RowAddress, RowAddress), CompileError>)
    requires
        rows_inv(old(dram)@, vs@, old(free)@, k as int, r as int),
    ensures
        rows_inv(final(dram)@, vs@, final(free)@, k as int, r as int),
        res matches Ok((rf, rt)) ==> {
            &&& k <= rf.0 < r
            &&& k <= rt.0 < r
            &&& rf.0 != rt.0
            &&& final(dram)@[rf.0 as int] == Some(
                RowState { is_compute_row: false, live_value: None, constant: Some(false) },
            )
            &&& final(dram)@[rt.0 as int] == Some(
                RowState { is_compute_row: false, live_value: None, constant: Some(true) },
            )
            &&& forall|row: int|
                0 <= row < old(dram)@.len() && row != rf.0 && row != rt.0 ==> final(dram)@[row]
                    == old(dram)@[row]
            &&& final(free)@.len() == old(free)@.len() - 2
        },
        res is Err ==> res->Err_0 == CompileError::OutOfRows && old(free)@.len() < 2,
{
    let row_for_false = match alloc_seed(
        dram,
        free,
        vs,
        k,
        r,
        RowState { is_compute_row: false, live_value: None, constant: Some(false) },
    ) {
        Ok(row) => row,
        Err(e) => {
            return Err(e);
        },
    };
    let row_for_true = match alloc_seed(
        dram,
        free,
        vs,
        k,
        r,
        RowState { is_compute_row: false, live_value: None, constant: Some(true) },
    ) {
        Ok(row) => row,
        Err(e) => {
            return Err(e);
        },
    };
    Ok((row_for_false, row_for_true))
}

/// Places the leaves of the network: two fresh rows per primary input, one
/// per polarity, and for constant nodes the seeded constant rows (the first
/// constant node is bound to them; further ones get constant rows of their
/// own).
#[verifier::rlimit(100)]
fn place_leaves(
    network: &MigNetwork,
    dram: &mut Vec<Option<RowState>>,
    vs: &mut Vec<Option<RowAddress>>,
    free: &mut Vec<RowAddress>,
    k: usize,
    r: u64,
    row_for_false: RowAddress,
    row_for_true: RowAddress,
) -> (res: Result<(), CompileError>)
    requires
        network.nodes@.len() <= MAX_NETWORK_NODES,
        r <= ROWS_PER_SUBARRAY,
        old(vs)@.len() == 2 * network.nodes@.len(),
        rows_inv(old(dram)@, old(vs)@, old(free)@, k as int, r as int),
        forall|i: int| 0 <= i < old(vs)@.len() ==> (#[trigger] old(vs)@[i]) is None,
        forall|row: int|
            0 <= row < old(dram)@.len() && (#[trigger] old(dram)@[row]) is Some ==> old(dram)@[row]->Some_0.live_value is None,
        k <= row_for_false.0 < r,
        k <= row_for_true.0 < r,
        row_for_false.0 != row_for_true.0,
        old(dram)@[row_for_false.0 as int] is Some && old(dram)@[row_for_false.0
            as int]->Some_0.constant == Some(false),
        old(dram)@[row_for_true.0 as int] is Some && old(dram)@[row_for_true.0
            as int]->Some_0.constant == Some(true),
    ensures
        rows_inv(final(dram)@, final(vs)@, final(free)@, k as int, r as int),
        final(vs)@.len() == 2 * network.nodes@.len(),
        forall|idx: int|
            0 <= idx < final(vs)@.len() && #[trigger] final(vs)@[idx] is Some
                ==> network.nodes@[idx / 2].spec_is_leaf(),
        forall|row: int|
            0 <= row < final(dram)@.len() && (#[trigger] final(dram)@[row]) is Some && final(dram)@[row]->Some_0.live_value is Some ==> {
                let s = final(dram)@[row]->Some_0.live_value->Some_0;
                s.id < network.nodes@.len() && network.nodes@[s.id as int].spec_is_leaf()
            },
        final(dram)@[row_for_false.0 as int] is Some && final(dram)@[row_for_false.0
            as int]->Some_0.constant == Some(false),
        final(dram)@[row_for_true.0 as int] is Some && final(dram)@[row_for_true.0
            as int]->Some_0.constant == Some(true),
        res is Ok ==> forall|id: int|
            0 <= id < network.nodes@.len() && (#[trigger] network.nodes@[id]).spec_is_leaf()
                ==> final(vs)@[2 * id] is Some && final(vs)@[2 * id + 1] is Some,
        res is Ok ==> forall|id: int|
            0 <= id < network.nodes@.len() && (#[trigger] network.nodes@[id]) is False
                ==> constant_node_bound(final(dram)@, final(vs)@, id),
        old(free)@.len() >= 2 * network.nodes@.len() ==> res is Ok,
        res is Err ==> res->Err_0 == CompileError::OutOfRows,
{
    let n = network.nodes.len();
    let ghost enough = old(free)@.len() >= 2 * network.nodes@.len();
    let mut bound_false = false;
    let mut id: usize = 0;
    while id < n
        invariant
            id <= n,
            n == network.nodes@.len(),
            n <= MAX_NETWORK_NODES,
            k <= r <= ROWS_PER_SUBARRAY,
            vs@.len() == 2 * n,
            rows_inv(dram@, vs@, free@, k as int, r as int),
            enough == (old(free)@.len() >= 2 * n),
            enough ==> free@.len() >= 2 * (n - id),
            forall|id2: int|
                0 <= id2 < id && (#[trigger] network.nodes@[id2]).spec_is_leaf() ==> vs@[2 * id2]
                    is Some && vs@[2 * id2 + 1] is Some,
            forall|idx: int|
                0 <= idx < vs@.len() && #[trigger] vs@[idx] is Some ==> network.nodes@[idx
                    / 2].spec_is_leaf(),
            forall|row: int|
                0 <= row < dram@.len() && (#[trigger] dram@[row]) is Some
                    && dram@[row]->Some_0.live_value is Some ==> {
                    let s = dram@[row]->Some_0.live_value->Some_0;
                    s.id < network.nodes@.len() && network.nodes@[s.id as int].spec_is_leaf()
                },
            k <= row_for_false.0 < r,
            k <= row_for_true.0 < r,
            row_for_false.0 != row_for_true.0,
            dram@[row_for_false.0 as int] is Some,
            dram@[row_for_false.0 as int]->Some_0.constant == Some(false),
            dram@[row_for_true.0 as int] is Some,
            dram@[row_for_true.0 as int]->Some_0.constant == Some(true),
            !bound_false ==> {
                &&& dram@[row_for_false.0 as int]->Some_0.live_value is None
                &&& dram@[row_for_true.0 as int]->Some_0.live_value is None
            },
            forall|id2: int|
                0 <= id2 < id && (#[trigger] network.nodes@[id2]) is False
                    ==> constant_node_bound(dram@, vs@, id2),
        decreases n - id,
    {
        let node = network.nodes[id];
        match node {
            MigNode::Input(_) => {
                let row0 = match alloc_seed(
                    dram,
                    free,
                    vs,
                    k,
                    r,
                    RowState {
                        is_compute_row: false,
                        live_value: Some(Signal::new(id, false)),
                        constant: None,
                    },
                ) {
                    Ok(row) => row,
                    Err(e) => {
                        return Err(e);
                    },
                };
                proof {
                    assert(signal_of_index(2 * id as int) == Signal { id, inverted: false });
                }
                bind_signal(vs, dram, free, k, r, 2 * id, row0);
                let row1 = match alloc_seed(
                    dram,
                    free,
                    vs,
                    k,
                    r,
                    RowState {
                        is_compute_row: false,
                        live_value: Some(Signal::new(id, true)),
                        constant: None,
                    },
                ) {
                    Ok(row) => row,
                    Err(e) => {
                        return Err(e);
                    },
                };
                proof {
                    assert(signal_of_index(2 * id as int + 1) == Signal { id, inverted: true });
                }
                bind_signal(vs, dram, free, k, r, 2 * id + 1, row1);
            },
            MigNode::False => {
                if !bound_false {
                    // bind the constant node to the two seeded constant rows
                    proof {
                        lemma_no_live_unreferenced(
                            dram@,
                            vs@,
                            free@,
                            k as int,
                            r as int,
                            row_for_false.0 as int,
                        );
                        lemma_count_some_update(
                            dram@,
                            row_for_false.0 as int,
                            Some(
                                RowState {
                                    is_compute_row: false,
                                    live_value: Some(Signal { id, inverted: false }),
                                    constant: Some(false),
                                },
                            ),
                        );
                    }
                    dram.set(
                        row_for_false.0 as usize,
                        Some(
                            RowState {
                                is_compute_row: false,
                                live_value: Some(Signal::new(id, false)),
                                constant: Some(false),
                            },
                        ),
                    );
                    proof {
                        assert(signal_of_index(2 * id as int) == Signal { id, inverted: false });
                    }
                    bind_signal(vs, dram, free, k, r, 2 * id, row_for_false);
                    proof {
                        lemma_no_live_unreferenced(
                            dram@,
                            vs@,
                            free@,
                            k as int,
                            r as int,
                            row_for_true.0 as int,
                        );
                        lemma_count_some_update(
                            dram@,
                            row_for_true.0 as int,
                            Some(
                                RowState {
                                    is_compute_row: false,
                                    live_value: Some(Signal { id, inverted: true }),
                                    constant: Some(true),
                                },
                            ),
                        );
                    }
                    dram.set(
                        row_for_true.0 as usize,
                        Some(
                            RowState {
                                is_compute_row: false,
                                live_value: Some(Signal::new(id, true)),
                                constant: Some(true),
                            },
                        ),
                    );
                    proof {
                        assert(signal_of_index(2 * id as int + 1) == Signal { id, inverted: true });
                    }
                    bind_signal(vs, dram, free, k, r, 2 * id + 1, row_for_true);
                    bound_false = true;
                } else {
                    // a further constant node gets constant rows of its own
                    let row0 = match alloc_seed(
                        dram,
                        free,
                        &vs,
                        k,
                        r,
                        RowState {
                            is_compute_row: false,
                            live_value: Some(Signal::new(id, false)),
                            constant: Some(false),
                        },
                    ) {
                        Ok(row) => row,
                        Err(e) => {
                            return Err(e);
                        },
                    };
                    proof {
                        assert(signal_of_index(2 * id as int) == Signal { id, inverted: false });
                    }
                    bind_signal(vs, dram, free, k, r, 2 * id, row0);
                    let row1 = match alloc_seed(
                        dram,
                        free,
                        &vs,
                        k,
                        r,
                        RowState {
                            is_compute_row: false,
                            live_value: Some(Signal::new(id, true)),
                            constant: Some(true),
                        },
                    ) {
                        Ok(row) => row,
                        Err(e) => {
                            return Err(e);
                        },
                    };
                    proof {
                        assert(signal_of_index(2 * id as int + 1) == Signal { id, inverted: true });
                    }
                    bind_signal(vs, dram, free, k, r, 2 * id + 1, row1);
                }
            },
            MigNode::Maj(_, _, _) => {},
        }
        id = id + 1;
    }

    Ok(())
}

/// Builds the row bookkeeping the compiler starts from: two rows seeded with
/// the constants 0 and 1, and two rows per primary input, one per polarity. A
/// constant node is bound to the constant rows; further constant nodes get
/// freshly seeded rows of their own. Returns the row table, the signal table
/// and what is left of the free pool.
#[verifier::rlimit(100)]
#[verifier::spinoff_prover]
pub fn get_init_states(
    network: &MigNetwork,
    free_rows_per_subarray: Vec<RowAddress>,
    rows_per_subarray: u64,
    reserved_outputs: usize,
) -> (res: Result<(Vec<Option<RowState>>, Vec<Option<RowAddress>>, Vec<RowAddress>), CompileError>)
    requires
        network.nodes@.len() <= MAX_NETWORK_NODES,
        reserved_outputs <= rows_per_subarray,
        rows_per_subarray <= ROWS_PER_SUBARRAY,
        forall|i: int|
            0 <= i < free_rows_per_subarray@.len() ==> reserved_outputs <= (
            #[trigger] free_rows_per_subarray@[i]).0 < rows_per_subarray,
        forall|i: int, j: int|
            0 <= i < j < free_rows_per_subarray@.len() ==> (#[trigger] free_rows_per_subarray@[i]).0
                != (#[trigger] free_rows_per_subarray@[j]).0,
        free_rows_per_subarray@.len() + reserved_outputs == rows_per_subarray,
    ensures
        res matches Ok((dram, vs, free)) ==> {
            &&& rows_inv(dram@, vs@, free@, reserved_outputs as int, rows_per_subarray as int)
            &&& init_inv(vs@, *network)
            &&& forall|row: int|
                0 <= row < dram@.len() && (#[trigger] dram@[row]) is Some
                    && dram@[row]->Some_0.live_value is Some ==> {
                    let s = dram@[row]->Some_0.live_value->Some_0;
                    s.id < network.nodes@.len() && network.nodes@[s.id as int].spec_is_leaf()
                }
            &&& forall|id: int|
                0 <= id < network.nodes@.len() && (#[trigger] network.nodes@[id]).spec_is_leaf()
                    ==> vs@[2 * id] is Some && vs@[2 * id + 1] is Some
            &&& exists|rf: int, rt: int|
                {
                    &&& reserved_outputs <= rf < rows_per_subarray
                    &&& reserved_outputs <= rt < rows_per_subarray
                    &&& rf != rt
                    &&& (#[trigger] dram@[rf]) is Some
                    &&& dram@[rf]->Some_0.constant == Some(false)
                    &&& (#[trigger] dram@[rt]) is Some
                    &&& dram@[rt]->Some_0.constant == Some(true)
                }
            &&& forall|id: int|
                0 <= id < network.nodes@.len() && (#[trigger] network.nodes@[id]) is False
                    ==> constant_node_bound(dram@, vs@, id)
        },
        // two constant rows and two rows per node always suffice, and the only
        // failure is running out of them
        free_rows_per_subarray@.len() >= 2 + 2 * network.nodes@.len() ==> res is Ok,
        res is Err ==> res->Err_0 == CompileError::OutOfRows,
{
    let n = network.nodes.len();
    let k = reserved_outputs;
    let r = rows_per_subarray;
    let mut dram: Vec<Option<RowState>> = fill_copy(None, r as usize);
    let mut vs: Vec<Option<RowAddress>> = fill_copy(None, 2 * n);
    let mut free = free_rows_per_subarray;
    proof {
        lemma_count_some_all_none(dram@);
    }

    // seed the two constant rows the reference subarray needs
    let (row_for_false, row_for_true) = match seed_constants(&mut dram, &mut free, &vs, k, r) {
        Ok(rows) => rows,
        Err(e) => {
            return Err(e);
        },
    };

    // place the leaves: both polarities of every input, and the constants
    match place_leaves(network, &mut dram, &mut vs, &mut free, k, r, row_for_false, row_for_true)
    {
        Ok(_) => {},
        Err(e) => {
            return Err(e);
        },
    }

    Ok((dram, vs, free))
}

/// Lowers a majority-inverter graph to a straight-line row program for the
/// given architecture. The compiler works in the home subarray: it reserves
/// rows `0 .. outputs.len()` as output sinks, seeds constants, places the
/// inputs, then repeatedly compiles the cheapest ready node until all outputs
/// stand in their reserved rows.
///
/// On success the returned program is well formed for the architecture (every
/// TRA works on three rows of one subarray, every row copy stays within a
/// subarray or crosses to its partner), every declared output position has a
/// copy into its reserved row, and the runtime and energy estimates are the
/// sums of the per-instruction table entries. Moreover, for some legitimate
/// initial loading of leaf signals into rows, running the program under the
/// abstract reading `run_rows` leaves every declared output signal readable
/// in its reserved output row.
pub fn compile(architecture: &PRADAArchitecture, network: &MigNetwork) -> (res: Result<
    Program,
    CompileError,
>)
    requires
        architecture.rows_per_subarray <= ROWS_PER_SUBARRAY,
        network.nodes@.len() <= MAX_NETWORK_NODES,
        network.outputs@.len() <= MAX_NETWORK_NODES,
    ensures
        res matches Ok(p) ==> {
            &&& p.architecture == *architecture
            &&& forall|i: int|
                0 <= i < p.instructions@.len() ==> instr_valid(
                    #[trigger] p.instructions@[i],
                    architecture.rows_per_subarray,
                )
            &&& p.runtime_estimate == sum_latency(p.instructions@)
            &&& p.energy_consumption_estimate == sum_energy(p.instructions@)
            &&& forall|o: int| 0 <= o < network.outputs@.len() ==> output_placed(p.instructions@, o)
            &&& exists|init: Seq<Set<Signal>>|
                #[trigger] placement_wf(
                    init,
                    *network,
                    architecture.rows_per_subarray as int,
                    network.outputs@.len() as int,
                ) && (forall|o: int|
                    0 <= o < network.outputs@.len() ==> (#[trigger] run_rows(
                        *network,
                        init,
                        p.instructions@,
                    )[o]).contains(network.outputs@[o]))
        },
        // success is owed on networks of leaves alone whose outputs are
        // non-inverted, when the subarray holds the output sinks, the two
        // constant rows and two rows per node
        ({
            &&& architecture.rows_per_subarray as int >= network.outputs@.len() + 2 + 2
                * network.nodes@.len()
            &&& forall|j: int|
                0 <= j < network.nodes@.len() ==> (#[trigger] network.nodes@[j]).spec_is_leaf()
            &&& forall|oo: int|
                0 <= oo < network.outputs@.len() ==> (#[trigger] network.outputs@[oo]).id
                    < network.nodes@.len() && !network.outputs@[oo].inverted
        }) ==> res is Ok,
        // and without the row bound, the only possible failure on such a
        // network is pool exhaustion
        ({
            &&& forall|j: int|
                0 <= j < network.nodes@.len() ==> (#[trigger] network.nodes@[j]).spec_is_leaf()
            &&& forall|oo: int|
                0 <= oo < network.outputs@.len() ==> (#[trigger] network.outputs@[oo]).id
                    < network.nodes@.len() && !network.outputs@[oo].inverted
        }) ==> res is Ok || (res is Err && res->Err_0 == CompileError::OutOfRows),
{
    let ghost leafy = {
        &&& forall|j: int|
            0 <= j < network.nodes@.len() ==> (#[trigger] network.nodes@[j]).spec_is_leaf()
        &&& forall|oo: int|
            0 <= oo < network.outputs@.len() ==> (#[trigger] network.outputs@[oo]).id
                < network.nodes@.len() && !network.outputs@[oo].inverted
    };
    let mut state = match CompilationState::new(architecture, network) {
        Ok(st) => st,
        Err(e) => {
            return Err(e);
        },
    };

    // outputs that come straight from leaves are never touched by the main
    // loop; place them first
    let n = network.nodes.len();
    let k = state.outputs.len();
    let mut o: usize = 0;
    while o < k
        invariant
            o <= k,
            k == state.outputs@.len(),
            n == network.nodes@.len(),
            state.inv(*network),
            state.sim_inv(*network),
            state.budget_ok(),
            state.architecture == *architecture,
            leafy == ({
                &&& forall|j: int|
                    0 <= j < network.nodes@.len() ==> (#[trigger] network.nodes@[j]).spec_is_leaf()
                &&& forall|oo: int|
                    0 <= oo < network.outputs@.len() ==> (#[trigger] network.outputs@[oo]).id
                        < network.nodes@.len() && !network.outputs@[oo].inverted
            }),
            leafy ==> forall|id: int|
                0 <= id < network.nodes@.len() && (#[trigger] network.nodes@[id]).spec_is_leaf()
                    ==> state.value_states@[2 * id] is Some && state.value_states@[2 * id + 1]
                    is Some,
            leafy ==> forall|j: int| 0 <= j < o ==> state.output_done@[j],
        decreases k - o,
    {
        let sig = state.outputs[o];
        proof {
            if leafy {
                // a leaf output is already materialized, so placing it cannot
                // fail and marks it done
                assert(sig == network.outputs@[o as int]);
                assert(sig.id < network.nodes@.len() && !sig.inverted);
                assert(network.nodes@[sig.id as int].spec_is_leaf());
                assert(state.value_states@[2 * sig.id] is Some);
                assert(state.computed@[sig.id as int]);
            }
        }
        if !state.output_done[o] && sig.node_id() < n {
            if state.computed[sig.node_id()] {
                match state.materialize_output(network, o) {
                    Ok(_) => {},
                    Err(e) => {
                        return Err(e);
                    },
                }
            }
        }
        o = o + 1;
    }

    proof {
        // networks of leaves alone have nothing left to compile
        if leafy && state.candidates@.len() > 0 {
            assert(network.nodes@[state.candidates@[0] as int] is Maj);
            assert(network.nodes@[state.candidates@[0] as int].spec_is_leaf());
        }
    }

    // the main loop: compile one ready node per round
    while state.candidates.len() > 0
        invariant
            state.inv(*network),
            state.sim_inv(*network),
            state.budget_ok(),
            state.architecture == *architecture,
            leafy == ({
                &&& forall|j: int|
                    0 <= j < network.nodes@.len() ==> (#[trigger] network.nodes@[j]).spec_is_leaf()
                &&& forall|oo: int|
                    0 <= oo < network.outputs@.len() ==> (#[trigger] network.outputs@[oo]).id
                        < network.nodes@.len() && !network.outputs@[oo].inverted
            }),
            leafy ==> state.candidates@.len() == 0,
            leafy ==> forall|j: int|
                0 <= j < state.output_done@.len() ==> (#[trigger] state.output_done@[j]),
        decreases network.nodes@.len() - count_true(state.computed@),
    {
        proof {
            lemma_count_true_bounds(state.computed@);
            if leafy {
                // nothing is ever ready on a network of leaves alone
                assert(false);
            }
        }
        let pos = state.select_candidate(network);
        match state.compute(network, pos) {
            Ok(_) => {},
            Err(e) => {
                return Err(e);
            },
        }
        proof {
            lemma_count_true_bounds(state.computed@);
        }
    }

    // every output must now stand in its reserved row
    let kk = state.output_done.len();
    let mut all_done = true;
    let mut o2: usize = 0;
    while o2 < kk
        invariant
            o2 <= kk,
            kk == state.output_done@.len(),
            all_done <==> (forall|j: int| 0 <= j < o2 ==> state.output_done@[j]),
        decreases kk - o2,
    {
        if !state.output_done[o2] {
            all_done = false;
        }
        o2 = o2 + 1;
    }
    if !all_done {
        return Err(CompileError::InvalidGraph);
    }

    proof {
        // the budget bounds the program length, so the cost sums fit
        lemma_count_true_bounds(state.computed@);
        lemma_count_true_bounds(state.output_done@);
        crate::program::lemma_sum_bounds(state.program@);
        assert forall|oo: int| 0 <= oo < network.outputs@.len() implies output_placed(
            state.program@,
            oo,
        ) by {
            assert(state.output_done@[oo]);
        }
        // running the program from the recorded initial loading places every
        // output signal in its reserved row
        assert(placement_wf(
            state.init_rows@,
            *network,
            architecture.rows_per_subarray as int,
            network.outputs@.len() as int,
        ));
        assert forall|oo: int| 0 <= oo < network.outputs@.len() implies (#[trigger] run_rows(
            *network,
            state.init_rows@,
            state.program@,
        )[oo]).contains(network.outputs@[oo]) by {
            assert(state.output_done@[oo]);
            assert(state.ghost_rows@[oo].contains(state.outputs@[oo]));
        }
    }
    let instructions = state.program;
    let program = Program::new(architecture, instructions);
    Ok(program)
}

/// One instruction is well formed for an architecture with `rows` usable rows
/// in the home subarray: every operand is a usable row, the three TRA operands
/// share a subarray, and the two ends of a row copy share a subarray or lie in
/// partner subarrays.
pub open spec fn instr_valid(instr: Instruction, rows: u64) -> bool {
    match instr {
        Instruction::AAPRowCopy(src, dst) => {
            &&& src.0 < rows
            &&& dst.0 < rows
            &&& (spec_subarray_of(src.0) == spec_subarray_of(dst.0) || spec_subarray_of(dst.0)
                == spec_partner(spec_subarray_of(src.0) as u64) as int)
        },
        Instruction::AAPTRA(a, b, c) => {
            &&& a.0 < rows
            &&& b.0 < rows
            &&& c.0 < rows
            &&& spec_subarray_of(a.0) == spec_subarray_of(b.0)
            &&& spec_subarray_of(b.0) == spec_subarray_of(c.0)
        },
        Instruction::N(a) => a.0 < rows,
    }
}

/// All operand rows of the instruction, destinations included, lie below
/// `rows`.
pub open spec fn instr_rows_below(instr: Instruction, rows: u64) -> bool {
    match instr {
        Instruction::AAPRowCopy(src, dst) => src.0 < rows && dst.0 < rows,
        Instruction::AAPTRA(a, b, c) => a.0 < rows && b.0 < rows && c.0 < rows,
        Instruction::N(a) => a.0 < rows,
    }
}

/// An instruction whose operands all lie in the home subarray is well formed.
pub proof fn lemma_home_instr_valid(instr: Instruction, rows: u64)
    requires
        rows <= ROWS_PER_SUBARRAY,
        instr_rows_below(instr, rows),
    ensures
        instr_valid(instr, rows),
{
}

/// TRA locality: a well-formed triple-row activation works on three rows of
/// one subarray. `compile` guarantees `instr_valid` for every emitted
/// instruction.
pub proof fn lemma_tra_locality(a: RowAddress, b: RowAddress, c: RowAddress, rows: u64)
    requires
        instr_valid(Instruction::AAPTRA(a, b, c), rows),
    ensures
        spec_subarray_of(a.0) == spec_subarray_of(b.0),
        spec_subarray_of(b.0) == spec_subarray_of(c.0),
{
}

/// Copy partnership: a well-formed row copy stays within one subarray or
/// crosses to the partner subarray. `compile` guarantees `instr_valid` for
/// every emitted instruction.
pub proof fn lemma_copy_partnership(src: RowAddress, dst: RowAddress, rows: u64)
    requires
        instr_valid(Instruction::AAPRowCopy(src, dst), rows),
    ensures
        spec_subarray_of(src.0) == spec_subarray_of(dst.0) || spec_subarray_of(dst.0)
            == spec_partner(spec_subarray_of(src.0) as u64) as int,
{
}

/// Some instruction of the program copies a row into output row `o`.
pub open spec fn output_placed(program: Seq<Instruction>, o: int) -> bool {
    exists|i: int|
        0 <= i < program.len() && ((#[trigger] program[i]) matches Instruction::AAPRowCopy(
            src,
            dst,
        ) && dst.0 == o)
}

/// Inverting a row inverts every signal reading of it.
pub open spec fn invert_set(s: Set<Signal>) -> Set<Signal> {
    Set::new(|x: Signal| s.contains(Signal { id: x.id, inverted: !x.inverted }))
}

/// The signal readings of a row written by a TRA, given the readings of its
/// three operand rows: the positive signal of every majority node whose three
/// inputs are read, in order, from the three operands.
pub open spec fn maj_set(
    network: MigNetwork,
    sa: Set<Signal>,
    sb: Set<Signal>,
    sc: Set<Signal>,
) -> Set<Signal> {
    Set::new(
        |x: Signal|
            {
                &&& !x.inverted
                &&& x.id < network.nodes@.len()
                &&& (network.nodes@[x.id as int] matches MigNode::Maj(u0, u1, u2) && sa.contains(u0)
                    && sb.contains(u1) && sc.contains(u2))
            },
    )
}

/// One step of the abstract reading of a program: a row copy carries the
/// source's readings to the destination, a negation inverts the row's
/// readings, and a TRA gives all three rows the readings of the majority of
/// their contents.
pub open spec fn step_rows(
    network: MigNetwork,
    rows: Seq<Set<Signal>>,
    instr: Instruction,
) -> Seq<Set<Signal>> {
    match instr {
        Instruction::AAPRowCopy(src, dst) => if src.0 < rows.len() && dst.0 < rows.len() {
            rows.update(dst.0 as int, rows[src.0 as int])
        } else {
            rows
        },
        Instruction::N(a) => if a.0 < rows.len() {
            rows.update(a.0 as int, invert_set(rows[a.0 as int]))
        } else {
            rows
        },
        Instruction::AAPTRA(a, b, c) => if a.0 < rows.len() && b.0 < rows.len() && c.0
            < rows.len() {
            let s = maj_set(network, rows[a.0 as int], rows[b.0 as int], rows[c.0 as int]);
            rows.update(a.0 as int, s).update(b.0 as int, s).update(c.0 as int, s)
        } else {
            rows
        },
    }
}

/// The abstract reading of every row after a program runs from an initial
/// loading.
pub open spec fn run_rows(
    network: MigNetwork,
    init: Seq<Set<Signal>>,
    program: Seq<Instruction>,
) -> Seq<Set<Signal>>
    decreases program.len(),
{
    if program.len() == 0 {
        init
    } else {
        step_rows(network, run_rows(network, init, program.drop_last()), program.last())
    }
}

/// Running one more instruction steps the abstract reading once.
pub proof fn lemma_run_rows_push(
    network: MigNetwork,
    init: Seq<Set<Signal>>,
    program: Seq<Instruction>,
    instr: Instruction,
)
    ensures
        run_rows(network, init, program.push(instr)) == step_rows(
            network,
            run_rows(network, init, program),
            instr,
        ),
{
    assert(program.push(instr).drop_last() =~= program);
    assert(program.push(instr).last() == instr);
}

/// The reading of each row right after initialization: the one live signal it
/// holds, if any.
pub open spec fn rows_of_dram(dram: Seq<Option<RowState>>) -> Seq<Set<Signal>> {
    Seq::new(
        dram.len(),
        |row: int|
            if dram[row] is Some && dram[row]->Some_0.live_value is Some {
                set![dram[row]->Some_0.live_value->Some_0]
            } else {
                Set::empty()
            },
    )
}

/// A legitimate initial loading of the home subarray: the reserved output
/// rows start empty, and every loaded signal comes from a leaf — a primary
/// input or a constant, which the host loads before the program runs.
pub open spec fn placement_wf(
    init: Seq<Set<Signal>>,
    network: MigNetwork,
    rows: int,
    reserved: int,
) -> bool {
    &&& init.len() == rows
    &&& forall|row: int| 0 <= row < reserved ==> (#[trigger] init[row]) =~= Set::empty()
    &&& forall|row: int, s: Signal|
        0 <= row < rows && #[trigger] init[row].contains(s) ==> s.id < network.nodes@.len()
            && network.nodes@[s.id as int].spec_is_leaf()
}

/// After a TRA step and its rebooking, every row holding a signal live still
/// reads as that signal: the result row reads as the computed node's positive
/// signal, the freed rows hold nothing, and every other row kept both its
/// contents and its reading. Rows below `k` keep their readings.
pub proof fn lemma_tra_sim_link(
    old_dram: Seq<Option<RowState>>,
    new_dram: Seq<Option<RowState>>,
    g0: Seq<Set<Signal>>,
    g1: Seq<Set<Signal>>,
    r: int,
    k: int,
    r0: int,
    r1: int,
    r2: int,
    result_reading: Set<Signal>,
    id: usize,
)
    requires
        old_dram.len() == r,
        new_dram.len() == r,
        g0.len() == r,
        g1.len() == r,
        0 <= k <= r0 < r,
        k <= r1 < r,
        k <= r2 < r,
        g1 =~= g0.update(r0, result_reading).update(r1, result_reading).update(
            r2,
            result_reading,
        ),
        result_reading.contains(Signal { id, inverted: false }),
        new_dram[r0] is Some && new_dram[r0]->Some_0.live_value == Some(
            Signal { id, inverted: false },
        ),
        r1 != r0 ==> new_dram[r1] is None,
        r2 != r0 && r2 != r1 ==> new_dram[r2] is None,
        forall|row: int|
            0 <= row < r && row != r0 && row != r1 && row != r2 ==> new_dram[row] == old_dram[row],
        forall|row: int|
            0 <= row < r && (#[trigger] old_dram[row]) is Some
                && old_dram[row]->Some_0.live_value is Some ==> (g0[row]).contains(
                old_dram[row]->Some_0.live_value->Some_0,
            ),
    ensures
        forall|row: int|
            0 <= row < r && (#[trigger] new_dram[row]) is Some
                && new_dram[row]->Some_0.live_value is Some ==> (g1[row]).contains(
                new_dram[row]->Some_0.live_value->Some_0,
            ),
        forall|row: int| 0 <= row < k ==> g1[row] == g0[row],
{
    assert forall|row: int|
        0 <= row < r && (#[trigger] new_dram[row]) is Some
            && new_dram[row]->Some_0.live_value is Some implies (g1[row]).contains(
        new_dram[row]->Some_0.live_value->Some_0,
    ) by {
        if row == r0 {
        } else if row == r1 || row == r2 {
        } else {
            assert(new_dram[row] == old_dram[row]);
            assert(g1[row] == g0[row]);
        }
    }
}

/// Whether a signal is materialized in some row of the given signal table.
pub open spec fn spec_signal_bound(
    vs: Seq<Option<RowAddress>>,
    network: MigNetwork,
    s: Signal,
) -> bool {
    s.id < network.nodes@.len() && vs[s.spec_index()] is Some
}

/// A node is ready: a not yet computed majority all of whose inputs are
/// materialized.
pub open spec fn node_ready(
    computed: Seq<bool>,
    vs: Seq<Option<RowAddress>>,
    network: MigNetwork,
    c: int,
) -> bool {
    &&& 0 <= c < network.nodes@.len()
    &&& !computed[c]
    &&& (network.nodes@[c] matches MigNode::Maj(a, b, d) && spec_signal_bound(vs, network, a)
        && spec_signal_bound(vs, network, b) && spec_signal_bound(vs, network, d))
}

/// Whether a node stands in the candidate worklist.
pub open spec fn in_candidates(cands: Seq<usize>, c: int) -> bool {
    exists|j: int| 0 <= j < cands.len() && (#[trigger] cands[j]) as int == c
}

/// Membership in the worklist survives its growth by appending.
pub proof fn lemma_in_candidates_prefix(pre: Seq<usize>, post: Seq<usize>, c: int)
    requires
        pre.is_prefix_of(post),
        in_candidates(pre, c),
    ensures
        in_candidates(post, c),
{
    let j = choose|j: int| 0 <= j < pre.len() && (#[trigger] pre[j]) as int == c;
    assert(pre =~= post.subrange(0, pre.len() as int));
    assert(post[j] as int == c);
}

/// How many of a node's inputs are not materialized in the signal table.
pub open spec fn spec_not_present(
    vs: Seq<Option<RowAddress>>,
    network: MigNetwork,
    c: int,
) -> int {
    match network.nodes@[c] {
        MigNode::Maj(a, b, d) => (if spec_signal_bound(vs, network, a) {
            0int
        } else {
            1int
        }) + (if spec_signal_bound(vs, network, b) {
            0int
        } else {
            1int
        }) + (if spec_signal_bound(vs, network, d) {
            0int
        } else {
            1int
        }),
        _ => 0,
    }
}

/// The candidate order of the main loop: first by how many inputs are not yet
/// materialized (a correctness guard), then by fanout, then outputs before
/// non-outputs, with ties broken by node id.
pub open spec fn candidate_le(
    st: CompilationState,
    network: MigNetwork,
    a: int,
    b: int,
) -> bool {
    let npa = spec_not_present(st.value_states@, network, a);
    let npb = spec_not_present(st.value_states@, network, b);
    let fa = st.fanout@[a] as int;
    let fb = st.fanout@[b] as int;
    let oa: int = if st.is_output@[a] {
        0
    } else {
        1
    };
    let ob: int = if st.is_output@[b] {
        0
    } else {
        1
    };
    ||| npa < npb
    ||| (npa == npb && fa < fb)
    ||| (npa == npb && fa == fb && oa < ob)
    ||| (npa == npb && fa == fb && oa == ob && a <= b)
}

/// The shape of one compute step on node `nid` with inputs `(s0, s1, s2)`:
/// the program grows by one disposable copy per input whose producer is needed
/// again, in slot order and reading the input's bound row, followed by the TRA
/// on the three bound rows; when the node is no output nothing else is
/// emitted. Afterwards the node's positive signal lives in the first operand
/// row (unless this step was also the node's last use), and for a non-output
/// node the other two operand rows are free.
pub open spec fn tra_step_shape(
    pre: CompilationState,
    post: CompilationState,
    network: MigNetwork,
    nid: int,
    s0: Signal,
    s1: Signal,
    s2: Signal,
) -> bool {
    let base = pre.program@.len() as int;
    &&& spec_signal_bound(pre.value_states@, network, s0)
    &&& spec_signal_bound(pre.value_states@, network, s1)
    &&& spec_signal_bound(pre.value_states@, network, s2)
    &&& {
        let row0 = pre.value_states@[s0.spec_index()]->Some_0;
        let row1 = pre.value_states@[s1.spec_index()]->Some_0;
        let row2 = pre.value_states@[s2.spec_index()]->Some_0;
        let n0: int = if pre.leftover_use_count@[s0.id as int] > 1 {
            1
        } else {
            0
        };
        let n1: int = if pre.leftover_use_count@[s1.id as int] > 1 {
            1
        } else {
            0
        };
        let n2: int = if pre.leftover_use_count@[s2.id as int] > 1 {
            1
        } else {
            0
        };
        &&& post.program@.len() >= base + n0 + n1 + n2 + 1
        &&& (n0 == 1 ==> (post.program@[base] matches Instruction::AAPRowCopy(src, dst) && src
            == row0))
        &&& (n1 == 1 ==> (post.program@[base + n0] matches Instruction::AAPRowCopy(src, dst)
            && src == row1))
        &&& (n2 == 1 ==> (post.program@[base + n0 + n1] matches Instruction::AAPRowCopy(src, dst)
            && src == row2))
        &&& post.program@[base + n0 + n1 + n2] == Instruction::AAPTRA(row0, row1, row2)
        &&& (!pre.is_output@[nid] ==> post.program@.len() == base + n0 + n1 + n2 + 1)
        &&& (!(pre.is_output@[nid] && pre.leftover_use_count@[nid] == 1) ==> {
            &&& post.value_states@[2 * nid] == Some(row0)
            &&& post.dram_state@[row0.0 as int] is Some
            &&& post.dram_state@[row0.0 as int]->Some_0.live_value == Some(
                Signal { id: nid as usize, inverted: false },
            )
        })
        &&& (!pre.is_output@[nid] && row1.0 != row0.0 ==> post.dram_state@[row1.0 as int] is None)
        &&& (!pre.is_output@[nid] && row2.0 != row0.0 && row2.0 != row1.0 ==> post.dram_state@[
            row2.0 as int] is None)
    }
}

/// The bookkeeping the compiler holds throughout one compilation.
pub struct CompilationState {
    /// The architecture compiled for.
    pub architecture: PRADAArchitecture,
    /// Per row of the home subarray: its state, or nothing when the row is
    /// free or reserved.
    pub dram_state: Vec<Option<RowState>>,
    /// Per (node, polarity) pair: the row currently holding that signal.
    pub value_states: Vec<Option<RowAddress>>,
    /// Free rows of the home subarray, popped from the back.
    pub free_rows_per_subarray: Vec<RowAddress>,
    /// The instructions emitted so far, in execution order.
    pub program: Vec<Instruction>,
    /// Not yet computed nodes whose inputs are all materialized.
    pub candidates: Vec<usize>,
    /// The primary outputs, in declaration order.
    pub outputs: Vec<Signal>,
    /// Per output position: whether its value stands in its reserved row.
    pub output_done: Vec<bool>,
    /// Per node: remaining consumers, plus one when the node is an output.
    pub leftover_use_count: Vec<u64>,
    /// Per node: number of consuming input slots in the network (static).
    pub fanout: Vec<u64>,
    /// Per node: whether its value has been materialized in some row.
    pub computed: Vec<bool>,
    /// Per node: whether some output signal refers to it.
    pub is_output: Vec<bool>,
    /// The abstract reading of each row right after initialization.
    pub init_rows: Ghost<Seq<Set<Signal>>>,
    /// The abstract reading of each row after the program emitted so far.
    pub ghost_rows: Ghost<Seq<Set<Signal>>>,
}

impl CompilationState {
    /// The state invariant: the row bookkeeping is well formed (including row
    /// conservation: occupied, free and reserved rows partition the home
    /// subarray), every bound signal belongs to a materialized node, the
    /// candidates are pending majority nodes without duplicates, every emitted
    /// instruction is well formed for the architecture, and every output
    /// marked done has its copy instruction in the program.
    pub open spec fn inv(self, network: MigNetwork) -> bool {
        let n = network.nodes@.len() as int;
        let r = self.architecture.rows_per_subarray;
        let k = self.outputs@.len() as int;
        &&& self.architecture.rows_per_subarray <= ROWS_PER_SUBARRAY
        &&& network.nodes@.len() <= MAX_NETWORK_NODES
        &&& self.outputs@ == network.outputs@
        &&& self.outputs@.len() <= MAX_NETWORK_NODES
        &&& rows_inv(
            self.dram_state@,
            self.value_states@,
            self.free_rows_per_subarray@,
            k,
            r as int,
        )
        &&& self.value_states@.len() == 2 * n
        &&& self.leftover_use_count@.len() == n
        &&& self.fanout@.len() == n
        &&& self.computed@.len() == n
        &&& self.is_output@.len() == n
        &&& self.output_done@.len() == k
        &&& forall|idx: int|
            0 <= idx < 2 * n && #[trigger] self.value_states@[idx] is Some ==> self.computed@[idx
                / 2]
        &&& forall|j: int| 0 <= j < n ==> (#[trigger] self.is_output@[j]) == is_output_node(
            network,
            j,
        )
        &&& forall|i: int|
            0 <= i < self.candidates@.len() ==> (#[trigger] self.candidates@[i]) < n
                && !self.computed@[self.candidates@[i] as int]
                && network.nodes@[self.candidates@[i] as int] is Maj
        &&& forall|i: int, j: int|
            0 <= i < j < self.candidates@.len() ==> (#[trigger] self.candidates@[i]) != (
            #[trigger] self.candidates@[j])
        &&& forall|i: int|
            0 <= i < self.program@.len() ==> instr_valid(
                #[trigger] self.program@[i],
                self.architecture.rows_per_subarray,
            )
        &&& forall|o: int|
            0 <= o < k && #[trigger] self.output_done@[o] ==> output_placed(self.program@, o)
    }

    /// The simulation invariant tying the bookkeeping to the abstract reading
    /// of the emitted program: the initial loading is legitimate, the tracked
    /// reading is what running the program from that loading gives, every row
    /// holding a signal live reads as that signal, and every output already
    /// placed reads as its declared signal in its reserved row.
    pub open spec fn sim_inv(self, network: MigNetwork) -> bool {
        let r = self.architecture.rows_per_subarray as int;
        let k = self.outputs@.len() as int;
        &&& placement_wf(self.init_rows@, network, r, k)
        &&& self.ghost_rows@ == run_rows(network, self.init_rows@, self.program@)
        &&& self.ghost_rows@.len() == r
        &&& forall|row: int|
            0 <= row < r && (#[trigger] self.dram_state@[row]) is Some
                && self.dram_state@[row]->Some_0.live_value is Some ==> (
            self.ghost_rows@[row]).contains(self.dram_state@[row]->Some_0.live_value->Some_0)
        &&& forall|o: int|
            0 <= o < k && #[trigger] self.output_done@[o] ==> self.ghost_rows@[o].contains(
                self.outputs@[o],
            )
    }

    /// The emitted program stays within four instructions per computed node
    /// plus three per materialized output, which bounds its summed cost.
    pub open spec fn budget_ok(self) -> bool {
        self.program@.len() <= 4 * count_true(self.computed@) + 3 * count_true(self.output_done@)
    }

    /// Remaining uses of a node: consumers not yet compiled, plus one when the
    /// node is an output whose placement is still owed.
    pub fn leftover_use_count(&self, id: usize) -> (r: u64)
        requires
            id < self.leftover_use_count@.len(),
        ensures
            r == self.leftover_use_count@[id as int],
    {
        self.leftover_use_count[id]
    }
}

/// A prefix of a prefix is a prefix.
pub proof fn lemma_prefix_transitive<T>(a: Seq<T>, b: Seq<T>, c: Seq<T>)
    requires
        a.is_prefix_of(b),
        b.is_prefix_of(c),
    ensures
        a.is_prefix_of(c),
{
    assert(a =~= c.subrange(0, a.len() as int));
}

/// Extending a program keeps every placed output placed.
pub proof fn lemma_output_placed_extend(p1: Seq<Instruction>, p2: Seq<Instruction>, o: int)
    requires
        p1.is_prefix_of(p2),
        output_placed(p1, o),
    ensures
        output_placed(p2, o),
{
    let i = choose|i: int|
        0 <= i < p1.len() && ((#[trigger] p1[i]) matches Instruction::AAPRowCopy(src, dst)
            && dst.0 == o);
    assert(p2[i] == p1[i]);
}

/// Returns an occupied, unreferenced row to the free pool.
fn release_row(
    dram: &mut Vec<Option<RowState>>,
    free: &mut Vec<RowAddress>,
    vs: &Vec<Option<RowAddress>>,
    k: usize,
    r: u64,
    row: RowAddress,
)
    requires
        rows_inv(old(dram)@, vs@, old(free)@, k as int, r as int),
        k <= row.0 < r,
        old(dram)@[row.0 as int] is Some,
        forall|i: int|
            0 <= i < vs@.len() && #[trigger] vs@[i] is Some ==> vs@[i]->Some_0.0 != row.0,
    ensures
        rows_inv(final(dram)@, vs@, final(free)@, k as int, r as int),
        final(dram)@ =~= old(dram)@.update(row.0 as int, None),
        final(free)@ =~= old(free)@.push(row),
{
    proof {
        lemma_count_some_update(dram@, row.0 as int, None);
    }
    dram.set(row.0 as usize, None);
    free.push(row);
}

/// Row conservation: under the state invariant the occupied rows, the free
/// rows and the reserved output rows together account for every usable row of
/// the home subarray. `CompilationState::new` establishes the invariant and
/// `compute` preserves it, so the equation holds at every program step.
pub proof fn lemma_row_conservation(st: CompilationState, network: MigNetwork)
    requires
        st.inv(network),
    ensures
        count_some(st.dram_state@) + st.free_rows_per_subarray@.len() + st.outputs@.len()
            == st.architecture.rows_per_subarray,
{
}

/// A copy of a signal list.
fn copy_signals(v: &Vec<Signal>) -> (r: Vec<Signal>)
    ensures
        r@ == v@,
{
    let mut out: Vec<Signal> = Vec::new();
    let mut i: usize = 0;
    while i < v.len()
        invariant
            i <= v@.len(),
            out@ =~= v@.subrange(0, i as int),
        decreases v@.len() - i,
    {
        out.push(v[i]);
        i = i + 1;
    }
    proof {
        assert(v@.subrange(0, v@.len() as int) =~= v@);
    }
    out
}

/// Whether a signal is currently materialized in some row.
fn signal_bound(vs: &Vec<Option<RowAddress>>, n: usize, s: Signal) -> (r: bool)
    requires
        vs@.len() == 2 * n,
        n <= MAX_NETWORK_NODES,
    ensures
        r == (s.id < n && vs@[s.spec_index()] is Some),
{
    if s.id < n {
        let idx = 2 * s.id + if s.inverted {
            1
        } else {
            0
        };
        vs[idx].is_some()
    } else {
        false
    }
}

impl CompilationState {
    /// Builds the initial compilation state for one network: output rows
    /// reserved, constants and primary inputs placed, use counts derived from
    /// the network's backward edges, and the initially ready nodes collected.
    pub fn new(architecture: &PRADAArchitecture, network: &MigNetwork) -> (res: Result<
        CompilationState,
        CompileError,
    >)
        requires
            architecture.rows_per_subarray <= ROWS_PER_SUBARRAY,
            network.nodes@.len() <= MAX_NETWORK_NODES,
            network.outputs@.len() <= MAX_NETWORK_NODES,
        ensures
            res matches Ok(st) ==> {
                &&& st.inv(*network)
                &&& st.sim_inv(*network)
                &&& st.budget_ok()
                &&& st.program@.len() == 0
                &&& st.architecture == *architecture
                &&& forall|j: int|
                    0 <= j < network.nodes@.len() ==> (#[trigger] st.fanout@[j]) == count_uses(
                        network.nodes@,
                        j,
                    )
                &&& forall|j: int|
                    0 <= j < network.nodes@.len() ==> (#[trigger] st.leftover_use_count@[j])
                        == count_uses(network.nodes@, j) + (if is_output_node(*network, j) {
                        1int
                    } else {
                        0int
                    })
                &&& forall|id: int|
                    0 <= id < network.nodes@.len() && (#[trigger] network.nodes@[id]).spec_is_leaf()
                        ==> st.value_states@[2 * id] is Some && st.value_states@[2 * id + 1]
                        is Some
                &&& forall|c: int|
                    node_ready(st.computed@, st.value_states@, *network, c) ==> in_candidates(
                        st.candidates@,
                        c,
                    )
                &&& forall|id: int|
                    0 <= id < network.nodes@.len() && (#[trigger] network.nodes@[id]) is False
                        ==> constant_node_bound(st.dram_state@, st.value_states@, id)
            },
            // output sinks, two constant rows and two rows per node suffice,
            // and the only failure is running out of rows
            architecture.rows_per_subarray as int >= network.outputs@.len() + 2 + 2
                * network.nodes@.len() ==> res is Ok,
            res is Err ==> res->Err_0 == CompileError::OutOfRows,
    {
        let n = network.nodes.len();
        let n_out = network.outputs.len();
        let r = architecture.rows_per_subarray;
        if n_out as u64 > r {
            // the output sinks alone outnumber the usable rows
            return Err(CompileError::OutOfRows);
        }
        // initially all non-reserved rows are free; the stack is built so that
        // the lowest rows are handed out first
        let mut free: Vec<RowAddress> = Vec::new();
        let mut row: u64 = r;
        while row > n_out as u64
            invariant
                n_out as u64 <= row <= r,
                free@.len() == r - row,
                forall|i: int| 0 <= i < free@.len() ==> (#[trigger] free@[i]).0 == r - 1 - i,
            decreases row,
        {
            row = row - 1;
            free.push(RowAddress(row));
        }
        let (dram, vs, free) = match get_init_states(network, free, r, n_out) {
            Ok(parts) => parts,
            Err(e) => {
                return Err(e);
            },
        };

        // a node is materialized from the start exactly when it is a leaf
        let mut computed: Vec<bool> = Vec::new();
        let mut id: usize = 0;
        while id < n
            invariant
                id <= n,
                n == network.nodes@.len(),
                computed@.len() == id,
                forall|j: int|
                    0 <= j < id ==> computed@[j] == network.nodes@[j].spec_is_leaf(),
            decreases n - id,
        {
            computed.push(network.nodes[id].is_leaf());
            id = id + 1;
        }

        // which nodes some output signal refers to
        let mut is_output: Vec<bool> = fill_copy(false, n);
        let mut oi: usize = 0;
        while oi < n_out
            invariant
                oi <= n_out,
                n_out == network.outputs@.len(),
                n == network.nodes@.len(),
                is_output@.len() == n,
                forall|j: int|
                    0 <= j < n ==> (#[trigger] is_output@[j]) == (exists|k: int|
                        0 <= k < oi && (#[trigger] network.outputs@[k]).id == j),
            decreases n_out - oi,
        {
            let s = network.outputs[oi];
            if s.id < n {
                is_output.set(s.id, true);
            }
            proof {
                assert forall|j: int|
                    0 <= j < n implies (#[trigger] is_output@[j]) == (exists|k: int|
                        0 <= k < oi + 1 && (#[trigger] network.outputs@[k]).id == j) by {
                    if s.id < n && j == s.id {
                        assert(network.outputs@[oi as int].id == j);
                    } else {
                        assert(network.outputs@[oi as int].id != j);
                    }
                }
            }
            oi = oi + 1;
        }

        // fanout: one use per consuming input slot of any node
        let mut fanout: Vec<u64> = fill_copy(0u64, n);
        proof {
            assert forall|j: int| 0 <= j < n implies (#[trigger] fanout@[j]) == count_uses(
                network.nodes@.subrange(0, 0),
                j,
            ) by {
                assert(network.nodes@.subrange(0, 0) =~= Seq::<MigNode>::empty());
            }
        }
        let mut c: usize = 0;
        while c < n
            invariant
                c <= n,
                n == network.nodes@.len(),
                n <= MAX_NETWORK_NODES,
                fanout@.len() == n,
                forall|j: int| 0 <= j < n ==> (#[trigger] fanout@[j]) <= 3 * c,
                forall|j: int|
                    0 <= j < n ==> (#[trigger] fanout@[j]) == count_uses(
                        network.nodes@.subrange(0, c as int),
                        j,
                    ),
            decreases n - c,
        {
            let node = network.nodes[c];
            let ghost fanout_before = fanout@;
            if let MigNode::Maj(s0, s1, s2) = node {
                if s0.id < n {
                    let cur = fanout[s0.id];
                    fanout.set(s0.id, cur + 1);
                }
                if s1.id < n {
                    let cur = fanout[s1.id];
                    fanout.set(s1.id, cur + 1);
                }
                if s2.id < n {
                    let cur = fanout[s2.id];
                    fanout.set(s2.id, cur + 1);
                }
            }
            proof {
                let pre = network.nodes@.subrange(0, c as int);
                let post = network.nodes@.subrange(0, c + 1);
                assert(post.drop_last() =~= pre);
                assert(post.last() == node);
                assert forall|j: int| 0 <= j < n implies (#[trigger] fanout@[j]) == count_uses(
                    post,
                    j,
                ) by {
                    assert(fanout@[j] == fanout_before[j] + node_use_count(node, j));
                }
            }
            c = c + 1;
        }
        proof {
            assert(network.nodes@.subrange(0, n as int) =~= network.nodes@);
        }

        // remaining uses: the fanout, plus one when the node is an output
        let mut leftover: Vec<u64> = Vec::new();
        let mut id: usize = 0;
        while id < n
            invariant
                id <= n,
                n == network.nodes@.len(),
                n_out == network.outputs@.len(),
                n <= MAX_NETWORK_NODES,
                fanout@.len() == n,
                is_output@.len() == n,
                leftover@.len() == id,
                forall|j: int| 0 <= j < n ==> (#[trigger] fanout@[j]) <= 3 * n,
                forall|j: int|
                    0 <= j < n ==> (#[trigger] fanout@[j]) == count_uses(network.nodes@, j),
                forall|j: int|
                    0 <= j < n ==> (#[trigger] is_output@[j]) == is_output_node(*network, j),
                forall|j: int|
                    0 <= j < id ==> (#[trigger] leftover@[j]) == count_uses(network.nodes@, j) + (
                    if is_output_node(*network, j) {
                        1int
                    } else {
                        0int
                    }),
            decreases n - id,
        {
            let bonus: u64 = if is_output[id] {
                1
            } else {
                0
            };
            leftover.push(fanout[id] + bonus);
            id = id + 1;
        }

        // the initially ready nodes: majority nodes whose inputs are all
        // materialized, i.e. whose children are all leaves
        let mut candidates: Vec<usize> = Vec::new();
        let mut c: usize = 0;
        while c < n
            invariant
                c <= n,
                n == network.nodes@.len(),
                n <= MAX_NETWORK_NODES,
                vs@.len() == 2 * n,
                forall|j: int|
                    0 <= j < computed@.len() ==> computed@[j] == network.nodes@[j].spec_is_leaf(),
                computed@.len() == n,
                forall|i: int|
                    0 <= i < candidates@.len() ==> (#[trigger] candidates@[i]) < c
                        && network.nodes@[candidates@[i] as int] is Maj,
                forall|i: int, j: int|
                    0 <= i < j < candidates@.len() ==> (#[trigger] candidates@[i]) != (
                    #[trigger] candidates@[j]),
                forall|c2: int|
                    0 <= c2 < c && node_ready(computed@, vs@, *network, c2) ==> in_candidates(
                        candidates@,
                        c2,
                    ),
            decreases n - c,
        {
            let ghost cands_before = candidates@;
            if let MigNode::Maj(s0, s1, s2) = network.nodes[c] {
                if signal_bound(&vs, n, s0) && signal_bound(&vs, n, s1) && signal_bound(&vs, n, s2)
                {
                    candidates.push(c);
                    proof {
                        assert(candidates@.last() == c);
                        assert(in_candidates(candidates@, c as int));
                    }
                } else {
                    proof {
                        assert(!node_ready(computed@, vs@, *network, c as int));
                    }
                }
            } else {
                proof {
                    assert(!node_ready(computed@, vs@, *network, c as int));
                }
            }
            proof {
                assert(cands_before.is_prefix_of(candidates@)) by {
                    assert(cands_before =~= candidates@.subrange(0, cands_before.len() as int));
                }
                assert forall|c2: int|
                    0 <= c2 < c + 1 && node_ready(computed@, vs@, *network, c2)
                        implies in_candidates(candidates@, c2) by {
                    if c2 < c {
                        lemma_in_candidates_prefix(cands_before, candidates@, c2);
                    }
                }
            }
            c = c + 1;
        }

        let outputs = copy_signals(&network.outputs);
        let output_done: Vec<bool> = fill_copy(false, n_out);
        let ghost initial_reading = rows_of_dram(dram@);
        let st = CompilationState {
            architecture: *architecture,
            dram_state: dram,
            value_states: vs,
            free_rows_per_subarray: free,
            program: Vec::new(),
            candidates,
            outputs,
            output_done,
            leftover_use_count: leftover,
            fanout,
            computed,
            is_output,
            init_rows: Ghost(initial_reading),
            ghost_rows: Ghost(initial_reading),
        };
        proof {
            lemma_count_true_bounds(st.computed@);
            lemma_count_true_bounds(st.output_done@);
            assert(run_rows(*network, initial_reading, st.program@) == initial_reading);
            assert(st.sim_inv(*network));
        }
        Ok(st)
    }

    /// The row currently holding a signal, if any.
    fn lookup_signal(&self, network: &MigNetwork, s: Signal) -> (r: Option<RowAddress>)
        requires
            self.inv(*network),
        ensures
            r == if s.id < network.nodes@.len() {
                self.value_states@[s.spec_index()]
            } else {
                None::<RowAddress>
            },
    {
        let n = network.nodes.len();
        if s.id < n {
            let idx = 2 * s.id + if s.inverted {
                1
            } else {
                0
            };
            self.value_states[idx]
        } else {
            None
        }
    }

    /// Whether a node is already listed as a candidate.
    fn contains_candidate(&self, c: usize) -> (r: bool)
        ensures
            r == exists|i: int| 0 <= i < self.candidates@.len() && self.candidates@[i] == c,
    {
        let mut i: usize = 0;
        while i < self.candidates.len()
            invariant
                i <= self.candidates@.len(),
                forall|j: int| 0 <= j < i ==> self.candidates@[j] != c,
            decreases self.candidates@.len() - i,
        {
            if self.candidates[i] == c {
                return true;
            }
            i = i + 1;
        }
        false
    }

    /// The selection key of a candidate: how many of its inputs are not
    /// materialized (a correctness guard; 0 for a well-formed candidate), its
    /// fanout, and whether it is not an output. Smaller keys compile first.
    fn candidate_key(&self, network: &MigNetwork, id: usize) -> (key: (u8, u64, u8))
        requires
            self.inv(*network),
            id < network.nodes@.len(),
        ensures
            key.0 as int == spec_not_present(self.value_states@, *network, id as int),
            key.1 == self.fanout@[id as int],
            (key.2 == 0 <==> self.is_output@[id as int]) && (key.2 == 0 || key.2 == 1),
    {
        let n = network.nodes.len();
        let mut not_present: u8 = 0;
        if let MigNode::Maj(s0, s1, s2) = network.nodes[id] {
            if !signal_bound(&self.value_states, n, s0) {
                not_present = not_present + 1;
            }
            if !signal_bound(&self.value_states, n, s1) {
                not_present = not_present + 1;
            }
            if !signal_bound(&self.value_states, n, s2) {
                not_present = not_present + 1;
            }
        }
        let not_output: u8 = if self.is_output[id] {
            0
        } else {
            1
        };
        (not_present, self.fanout[id], not_output)
    }

    /// Picks the position of the next candidate to compile: the one with the
    /// smallest key, ties broken deterministically by node id.
    fn select_candidate(&self, network: &MigNetwork) -> (pos: usize)
        requires
            self.inv(*network),
            self.candidates@.len() > 0,
        ensures
            pos < self.candidates@.len(),
            forall|i: int|
                0 <= i < self.candidates@.len() ==> candidate_le(
                    *self,
                    *network,
                    self.candidates@[pos as int] as int,
                    (#[trigger] self.candidates@[i]) as int,
                ),
    {
        let first = self.candidates[0];
        let (mut best_np, mut best_fo, mut best_no) = self.candidate_key(network, first);
        let mut best_id = first;
        let mut best_pos: usize = 0;
        let mut i: usize = 1;
        while i < self.candidates.len()
            invariant
                self.inv(*network),
                1 <= i <= self.candidates@.len(),
                best_pos < i,
                best_id == self.candidates@[best_pos as int],
                best_np as int == spec_not_present(self.value_states@, *network, best_id as int),
                best_fo == self.fanout@[best_id as int],
                (best_no == 0 <==> self.is_output@[best_id as int]) && (best_no == 0 || best_no
                    == 1),
                forall|j: int|
                    0 <= j < i ==> candidate_le(
                        *self,
                        *network,
                        best_id as int,
                        (#[trigger] self.candidates@[j]) as int,
                    ),
            decreases self.candidates@.len() - i,
        {
            let cid = self.candidates[i];
            let (np, fo, no) = self.candidate_key(network, cid);
            let better = np < best_np || (np == best_np && (fo < best_fo || (fo == best_fo && (no
                < best_no || (no == best_no && cid < best_id)))));
            if better {
                proof {
                    // the new minimum is below the old one, hence below all
                    // earlier candidates
                    assert(candidate_le(*self, *network, cid as int, best_id as int));
                    assert forall|j: int| 0 <= j < i + 1 implies candidate_le(
                        *self,
                        *network,
                        cid as int,
                        (#[trigger] self.candidates@[j]) as int,
                    ) by {
                        assert(candidate_le(*self, *network, best_id as int, self.candidates@[j]
                            as int) || j == i);
                    }
                }
                best_pos = i;
                best_id = cid;
                best_np = np;
                best_fo = fo;
                best_no = no;
            } else {
                proof {
                    // the candidates are distinct, so equal keys still order
                    // the two by node id
                    assert(best_id != cid);
                    assert(candidate_le(*self, *network, best_id as int, cid as int));
                }
            }
            i = i + 1;
        }
        best_pos
    }

    /// Unbinds one (node, polarity) slot and, unless the row is a constant
    /// seed, returns its row to the free pool.
    fn retire_slot(&mut self, network: &MigNetwork, idx: usize)
        requires
            old(self).inv(*network),
            old(self).sim_inv(*network),
            idx < old(self).value_states@.len(),
        ensures
            final(self).inv(*network),
            final(self).sim_inv(*network),
            forall|i: int|
                0 <= i < old(self).value_states@.len() && i != idx ==> final(self).value_states@[i] == old(self).value_states@[i],
            forall|row: int|
                0 <= row < old(self).dram_state@.len() && #[trigger] final(self).dram_state@[row]
                    is Some ==> final(self).dram_state@[row] == old(self).dram_state@[row],
            final(self).architecture == old(self).architecture,
            final(self).program@ == old(self).program@,
            final(self).candidates@ == old(self).candidates@,
            final(self).outputs@ == old(self).outputs@,
            final(self).output_done@ == old(self).output_done@,
            final(self).computed@ == old(self).computed@,
            final(self).leftover_use_count@ == old(self).leftover_use_count@,
            final(self).is_output@ == old(self).is_output@,
            final(self).init_rows == old(self).init_rows,
            final(self).ghost_rows == old(self).ghost_rows,
    {
        match self.value_states[idx] {
            Some(rowaddr) => {
                self.value_states.set(idx, None);
                let row = rowaddr.0 as usize;
                proof {
                    assert forall|i: int|
                        0 <= i < self.value_states@.len()
                            && #[trigger] self.value_states@[i] is Some implies (
                    self.value_states@[i])->Some_0.0 != rowaddr.0 by {
                        assert(old(self).value_states@[i] is Some);
                    }
                }
                match self.dram_state[row] {
                    Some(state) => {
                        if state.constant.is_none() {
                            let k = self.outputs.len();
                            let r = self.architecture.rows_per_subarray;
                            release_row(
                                &mut self.dram_state,
                                &mut self.free_rows_per_subarray,
                                &self.value_states,
                                k,
                                r,
                                rowaddr,
                            );
                        }
                    },
                    None => {},
                }
            },
            None => {},
        }
    }

    /// Retires a node whose last remaining use has been consumed: both its
    /// polarities are unbound and their rows freed.
    fn retire_node(&mut self, network: &MigNetwork, node: usize)
        requires
            old(self).inv(*network),
            old(self).sim_inv(*network),
            node < network.nodes@.len(),
        ensures
            final(self).inv(*network),
            final(self).sim_inv(*network),
            forall|i: int|
                0 <= i < old(self).value_states@.len() && i != 2 * node && i != 2 * node + 1
                    ==> final(self).value_states@[i] == old(self).value_states@[i],
            forall|row: int|
                0 <= row < old(self).dram_state@.len() && #[trigger] final(self).dram_state@[row]
                    is Some ==> final(self).dram_state@[row] == old(self).dram_state@[row],
            final(self).architecture == old(self).architecture,
            final(self).program@ == old(self).program@,
            final(self).candidates@ == old(self).candidates@,
            final(self).outputs@ == old(self).outputs@,
            final(self).output_done@ == old(self).output_done@,
            final(self).computed@ == old(self).computed@,
            final(self).leftover_use_count@ == old(self).leftover_use_count@,
            final(self).is_output@ == old(self).is_output@,
            final(self).init_rows == old(self).init_rows,
            final(self).ghost_rows == old(self).ghost_rows,
    {
        self.retire_slot(network, 2 * node);
        self.retire_slot(network, 2 * node + 1);
    }

    /// Appends one instruction whose operands lie in the home subarray.
    fn emit(&mut self, network: &MigNetwork, instr: Instruction)
        requires
            old(self).inv(*network),
            instr_rows_below(instr, old(self).architecture.rows_per_subarray),
        ensures
            final(self).inv(*network),
            final(self).program@ =~= old(self).program@.push(instr),
            final(self).architecture == old(self).architecture,
            final(self).dram_state@ == old(self).dram_state@,
            final(self).value_states@ == old(self).value_states@,
            final(self).free_rows_per_subarray@ == old(self).free_rows_per_subarray@,
            final(self).candidates@ == old(self).candidates@,
            final(self).outputs@ == old(self).outputs@,
            final(self).output_done@ == old(self).output_done@,
            final(self).leftover_use_count@ == old(self).leftover_use_count@,
            final(self).fanout@ == old(self).fanout@,
            final(self).computed@ == old(self).computed@,
            final(self).is_output@ == old(self).is_output@,
            final(self).init_rows == old(self).init_rows,
            final(self).ghost_rows == old(self).ghost_rows,
    {
        proof {
            lemma_home_instr_valid(instr, self.architecture.rows_per_subarray);
        }
        self.program.push(instr);
        proof {
            assert(old(self).program@.is_prefix_of(self.program@)) by {
                assert(old(self).program@ =~= self.program@.subrange(
                    0,
                    old(self).program@.len() as int,
                ));
            }
            assert forall|o: int|
                0 <= o < self.output_done@.len() && #[trigger] self.output_done@[o] implies
            output_placed(self.program@, o) by {
                lemma_output_placed_extend(old(self).program@, self.program@, o);
            }
        }
    }

    /// The shape of a freshly seeded disposable copy of signal `s`: an
    /// occupied row holding `s` live that no signal is bound to yet.
    pub open spec fn fresh_copy(self, f: RowAddress, s: Signal) -> bool {
        &&& self.outputs@.len() <= f.0 < self.architecture.rows_per_subarray
        &&& self.dram_state@[f.0 as int] is Some
        &&& self.dram_state@[f.0 as int]->Some_0.live_value == Some(s)
        &&& forall|i: int|
            0 <= i < self.value_states@.len() && #[trigger] self.value_states@[i] is Some ==> (
            self.value_states@[i])->Some_0.0 != f.0
    }

    /// Takes the candidate at the given worklist position out of the worklist
    /// and marks its node computed.
    fn take_candidate(&mut self, network: &MigNetwork, pos: usize) -> (id: usize)
        requires
            old(self).inv(*network),
            pos < old(self).candidates@.len(),
        ensures
            final(self).inv(*network),
            id == old(self).candidates@[pos as int],
            id < network.nodes@.len(),
            network.nodes@[id as int] is Maj,
            !old(self).computed@[id as int],
            final(self).computed@ =~= old(self).computed@.update(id as int, true),
            count_true(final(self).computed@) == count_true(old(self).computed@) + 1,
            final(self).value_states@[2 * id] is None,
            final(self).value_states@[2 * id + 1] is None,
            forall|j: int|
                0 <= j < final(self).candidates@.len() ==> (#[trigger] final(self).candidates@[j])
                    != id,
            forall|j: int|
                0 <= j < old(self).candidates@.len() && j != pos ==> in_candidates(
                    final(self).candidates@,
                    (#[trigger] old(self).candidates@[j]) as int,
                ),
            final(self).architecture == old(self).architecture,
            final(self).dram_state@ == old(self).dram_state@,
            final(self).value_states@ == old(self).value_states@,
            final(self).free_rows_per_subarray@ == old(self).free_rows_per_subarray@,
            final(self).program@ == old(self).program@,
            final(self).outputs@ == old(self).outputs@,
            final(self).output_done@ == old(self).output_done@,
            final(self).leftover_use_count@ == old(self).leftover_use_count@,
            final(self).fanout@ == old(self).fanout@,
            final(self).is_output@ == old(self).is_output@,
            final(self).init_rows == old(self).init_rows,
            final(self).ghost_rows == old(self).ghost_rows,
    {
        let id = self.candidates[pos];
        let _ = self.candidates.swap_remove(pos);
        proof {
            let oldc = old(self).candidates@;
            assert forall|j: int| 0 <= j < self.candidates@.len() implies {
                &&& (#[trigger] self.candidates@[j]) < network.nodes@.len()
                &&& !self.computed@[self.candidates@[j] as int]
                &&& network.nodes@[self.candidates@[j] as int] is Maj
                &&& self.candidates@[j] != id
            } by {
                if j == pos {
                    assert(self.candidates@[j] == oldc[oldc.len() - 1]);
                } else {
                    assert(self.candidates@[j] == oldc[j]);
                }
            }
            assert forall|j1: int, j2: int|
                0 <= j1 < j2 < self.candidates@.len() implies (#[trigger] self.candidates@[j1])
                != (#[trigger] self.candidates@[j2]) by {
                if j1 == pos {
                    assert(self.candidates@[j1] == oldc[oldc.len() - 1]);
                    assert(self.candidates@[j2] == oldc[j2]);
                } else if j2 == pos {
                    assert(self.candidates@[j2] == oldc[oldc.len() - 1]);
                    assert(self.candidates@[j1] == oldc[j1]);
                } else {
                    assert(self.candidates@[j1] == oldc[j1]);
                    assert(self.candidates@[j2] == oldc[j2]);
                }
            }
        }
        proof {
            lemma_count_true_update(self.computed@, id as int, true);
            let oldc = old(self).candidates@;
            assert forall|j: int| 0 <= j < oldc.len() && j != pos implies in_candidates(
                self.candidates@,
                (#[trigger] oldc[j]) as int,
            ) by {
                if j < oldc.len() - 1 {
                    assert(self.candidates@[j] == oldc[j]);
                } else {
                    assert(self.candidates@[pos as int] == oldc[oldc.len() - 1]);
                }
            }
        }
        self.computed.set(id, true);
        id
    }

    /// Unbinds the three operand slots of a TRA; afterwards no signal is bound
    /// to any of the three operand rows.
    fn unbind_operands(
        &mut self,
        network: &MigNetwork,
        idx0: usize,
        idx1: usize,
        idx2: usize,
        row0: RowAddress,
        row1: RowAddress,
        row2: RowAddress,
    )
        requires
            old(self).inv(*network),
            idx0 < old(self).value_states@.len(),
            idx1 < old(self).value_states@.len(),
            idx2 < old(self).value_states@.len(),
            old(self).value_states@[idx0 as int] == Some(row0),
            old(self).value_states@[idx1 as int] == Some(row1),
            old(self).value_states@[idx2 as int] == Some(row2),
        ensures
            final(self).inv(*network),
            final(self).value_states@ =~= old(self).value_states@.update(idx0 as int, None).update(
                idx1 as int,
                None,
            ).update(idx2 as int, None),
            forall|i: int|
                0 <= i < final(self).value_states@.len() && #[trigger] final(self).value_states@[i] is Some ==> (final(self).value_states@[i])->Some_0.0 != row0.0
                    && (final(self).value_states@[i])->Some_0.0 != row1.0 && (final(self).value_states@[i])->Some_0.0 != row2.0,
            final(self).architecture == old(self).architecture,
            final(self).dram_state@ == old(self).dram_state@,
            final(self).free_rows_per_subarray@ == old(self).free_rows_per_subarray@,
            final(self).program@ == old(self).program@,
            final(self).candidates@ == old(self).candidates@,
            final(self).outputs@ == old(self).outputs@,
            final(self).output_done@ == old(self).output_done@,
            final(self).leftover_use_count@ == old(self).leftover_use_count@,
            final(self).fanout@ == old(self).fanout@,
            final(self).computed@ == old(self).computed@,
            final(self).is_output@ == old(self).is_output@,
            final(self).init_rows == old(self).init_rows,
            final(self).ghost_rows == old(self).ghost_rows,
    {
        self.value_states.set(idx0, None);
        self.value_states.set(idx1, None);
        self.value_states.set(idx2, None);
        proof {
            assert forall|i: int|
                0 <= i < self.value_states@.len()
                    && #[trigger] self.value_states@[i] is Some implies (
            self.value_states@[i])->Some_0.0 != row0.0 && (self.value_states@[i])->Some_0.0
                != row1.0 && (self.value_states@[i])->Some_0.0 != row2.0 by {
                assert(old(self).value_states@[i] is Some);
                assert(old(self).value_states@[i] == self.value_states@[i]);
            }
        }
    }

    /// Returns an occupied row that no signal is bound to any more to the
    /// free pool.
    fn release_operand(&mut self, network: &MigNetwork, row: RowAddress)
        requires
            old(self).inv(*network),
            old(self).outputs@.len() <= row.0 < old(self).architecture.rows_per_subarray,
            old(self).dram_state@[row.0 as int] is Some,
            forall|i: int|
                0 <= i < old(self).value_states@.len() && #[trigger] old(self).value_states@[i]
                    is Some ==> (old(self).value_states@[i])->Some_0.0 != row.0,
        ensures
            final(self).inv(*network),
            final(self).dram_state@ =~= old(self).dram_state@.update(row.0 as int, None),
            final(self).value_states@ == old(self).value_states@,
            final(self).architecture == old(self).architecture,
            final(self).program@ == old(self).program@,
            final(self).candidates@ == old(self).candidates@,
            final(self).outputs@ == old(self).outputs@,
            final(self).output_done@ == old(self).output_done@,
            final(self).leftover_use_count@ == old(self).leftover_use_count@,
            final(self).fanout@ == old(self).fanout@,
            final(self).computed@ == old(self).computed@,
            final(self).is_output@ == old(self).is_output@,
            final(self).init_rows == old(self).init_rows,
            final(self).ghost_rows == old(self).ghost_rows,
    {
        let k = self.outputs.len();
        let r = self.architecture.rows_per_subarray;
        release_row(
            &mut self.dram_state,
            &mut self.free_rows_per_subarray,
            &self.value_states,
            k,
            r,
            row,
        );
    }

    /// Makes an occupied, unreferenced row the home of a signal of a
    /// materialized node: the row's new live value is the signal, and the
    /// signal is bound to the row.
    fn make_home(&mut self, network: &MigNetwork, s: Signal, row: RowAddress, constant: Option<
        bool,
    >)
        requires
            old(self).inv(*network),
            s.id < network.nodes@.len(),
            old(self).computed@[s.spec_index() / 2],
            old(self).outputs@.len() <= row.0 < old(self).architecture.rows_per_subarray,
            old(self).dram_state@[row.0 as int] is Some,
            forall|i: int|
                0 <= i < old(self).value_states@.len() && #[trigger] old(self).value_states@[i]
                    is Some ==> (old(self).value_states@[i])->Some_0.0 != row.0,
        ensures
            final(self).inv(*network),
            final(self).value_states@ =~= old(self).value_states@.update(
                s.spec_index(),
                Some(row),
            ),
            final(self).dram_state@ =~= old(self).dram_state@.update(
                row.0 as int,
                Some(RowState { is_compute_row: false, live_value: Some(s), constant }),
            ),
            final(self).architecture == old(self).architecture,
            final(self).free_rows_per_subarray@ == old(self).free_rows_per_subarray@,
            final(self).program@ == old(self).program@,
            final(self).candidates@ == old(self).candidates@,
            final(self).outputs@ == old(self).outputs@,
            final(self).output_done@ == old(self).output_done@,
            final(self).leftover_use_count@ == old(self).leftover_use_count@,
            final(self).fanout@ == old(self).fanout@,
            final(self).computed@ == old(self).computed@,
            final(self).is_output@ == old(self).is_output@,
            final(self).init_rows == old(self).init_rows,
            final(self).ghost_rows == old(self).ghost_rows,
    {
        let k = self.outputs.len();
        let r = self.architecture.rows_per_subarray;
        proof {
            lemma_count_some_update(
                self.dram_state@,
                row.0 as int,
                Some(RowState { is_compute_row: false, live_value: Some(s), constant }),
            );
            assert(signal_of_index(s.spec_index()) == s);
        }
        self.dram_state.set(
            row.0 as usize,
            Some(RowState { is_compute_row: false, live_value: Some(s), constant }),
        );
        let idx = 2 * s.id + if s.inverted {
            1
        } else {
            0
        };
        bind_signal(
            &mut self.value_states,
            &self.dram_state,
            &self.free_rows_per_subarray,
            k,
            r,
            idx,
            row,
        );
    }

    /// Binds a signal of a materialized node to a fresh copy row that already
    /// holds it.
    fn rebind_copy(&mut self, network: &MigNetwork, s: Signal, f: RowAddress)
        requires
            old(self).inv(*network),
            s.id < network.nodes@.len(),
            old(self).computed@[s.spec_index() / 2],
            old(self).fresh_copy(f, s),
        ensures
            final(self).inv(*network),
            final(self).value_states@ =~= old(self).value_states@.update(
                s.spec_index(),
                Some(f),
            ),
            final(self).architecture == old(self).architecture,
            final(self).dram_state@ == old(self).dram_state@,
            final(self).free_rows_per_subarray@ == old(self).free_rows_per_subarray@,
            final(self).program@ == old(self).program@,
            final(self).candidates@ == old(self).candidates@,
            final(self).outputs@ == old(self).outputs@,
            final(self).output_done@ == old(self).output_done@,
            final(self).leftover_use_count@ == old(self).leftover_use_count@,
            final(self).fanout@ == old(self).fanout@,
            final(self).computed@ == old(self).computed@,
            final(self).is_output@ == old(self).is_output@,
            final(self).init_rows == old(self).init_rows,
            final(self).ghost_rows == old(self).ghost_rows,
    {
        let k = self.outputs.len();
        let r = self.architecture.rows_per_subarray;
        proof {
            assert(signal_of_index(s.spec_index()) == s);
        }
        let idx = 2 * s.id + if s.inverted {
            1
        } else {
            0
        };
        bind_signal(
            &mut self.value_states,
            &self.dram_state,
            &self.free_rows_per_subarray,
            k,
            r,
            idx,
            f,
        );
    }

    /// Rebooks the rows after a TRA on `(row0, row1, row2)` that computed
    /// node `id`: the three consumed homes are unbound, rows 1 and 2 return to
    /// the pool, row 0 becomes the home of the node's positive signal, and the
    /// preserved copies become the new homes of their signals.
    #[verifier::rlimit(100)]
    #[verifier::spinoff_prover]
    fn rebook_rows(
        &mut self,
        network: &MigNetwork,
        id: usize,
        s0: Signal,
        s1: Signal,
        s2: Signal,
        row0: RowAddress,
        row1: RowAddress,
        row2: RowAddress,
        f0: Option<RowAddress>,
        f1: Option<RowAddress>,
        f2: Option<RowAddress>,
    )
        requires
            old(self).inv(*network),
            id < network.nodes@.len(),
            old(self).computed@[id as int],
            s0.id < network.nodes@.len(),
            s1.id < network.nodes@.len(),
            s2.id < network.nodes@.len(),
            s0.id != id,
            s1.id != id,
            s2.id != id,
            old(self).value_states@[s0.spec_index()] == Some(row0),
            old(self).value_states@[s1.spec_index()] == Some(row1),
            old(self).value_states@[s2.spec_index()] == Some(row2),
            f0 is Some ==> old(self).fresh_copy(f0->Some_0, s0),
            f1 is Some ==> old(self).fresh_copy(f1->Some_0, s1),
            f2 is Some ==> old(self).fresh_copy(f2->Some_0, s2),
            f0 is Some && f1 is Some ==> f0->Some_0.0 != f1->Some_0.0,
            f0 is Some && f2 is Some ==> f0->Some_0.0 != f2->Some_0.0,
            f1 is Some && f2 is Some ==> f1->Some_0.0 != f2->Some_0.0,
        ensures
            final(self).inv(*network),
            final(self).architecture == old(self).architecture,
            final(self).program@ == old(self).program@,
            final(self).candidates@ == old(self).candidates@,
            final(self).outputs@ == old(self).outputs@,
            final(self).output_done@ == old(self).output_done@,
            final(self).leftover_use_count@ == old(self).leftover_use_count@,
            final(self).fanout@ == old(self).fanout@,
            final(self).computed@ == old(self).computed@,
            final(self).is_output@ == old(self).is_output@,
            final(self).init_rows == old(self).init_rows,
            final(self).ghost_rows == old(self).ghost_rows,
            final(self).dram_state@[row0.0 as int] == Some(
                RowState {
                    is_compute_row: false,
                    live_value: Some(Signal { id, inverted: false }),
                    constant: None,
                },
            ),
            row1.0 != row0.0 ==> final(self).dram_state@[row1.0 as int] is None,
            row2.0 != row0.0 && row2.0 != row1.0 ==> final(self).dram_state@[row2.0 as int]
                is None,
            forall|row: int|
                0 <= row < old(self).dram_state@.len() && row != row0.0 && row != row1.0 && row
                    != row2.0 ==> final(self).dram_state@[row] == old(self).dram_state@[row],
            final(self).value_states@[2 * id] == Some(row0),
            forall|i: int|
                0 <= i < old(self).value_states@.len() && i != s0.spec_index() && i
                    != s1.spec_index() && i != s2.spec_index() && i != 2 * id ==> final(self).value_states@[i] == old(self).value_states@[i],
    {
        let idx0 = 2 * s0.id + if s0.inverted {
            1
        } else {
            0
        };
        let idx1 = 2 * s1.id + if s1.inverted {
            1
        } else {
            0
        };
        let idx2 = 2 * s2.id + if s2.inverted {
            1
        } else {
            0
        };
        proof {
            assert(s0.spec_index() == idx0 && s1.spec_index() == idx1 && s2.spec_index() == idx2);
            assert(idx0 != 2 * id && idx1 != 2 * id && idx2 != 2 * id);
        }

        // the consumed homes are unbound; only their own slots were bound to
        // the three operand rows
        self.unbind_operands(network, idx0, idx1, idx2, row0, row1, row2);

        // rows 1 and 2 return to the pool; row 0 keeps the result
        if row1.0 != row0.0 {
            self.release_operand(network, row1);
        }
        if row2.0 != row0.0 && row2.0 != row1.0 {
            self.release_operand(network, row2);
        }

        // row 0 becomes the home of the new signal
        proof {
            assert((Signal { id, inverted: false }).spec_index() == 2 * id);
        }
        self.make_home(network, Signal::new(id, false), row0, None);

        // the preserved copies become the new homes of their signals
        if let Some(fresh) = f0 {
            proof {
                assert(self.fresh_copy(fresh, s0));
            }
            self.rebind_copy(network, s0, fresh);
        }
        if let Some(fresh) = f1 {
            proof {
                assert(self.fresh_copy(fresh, s1));
            }
            self.rebind_copy(network, s1, fresh);
        }
        if let Some(fresh) = f2 {
            proof {
                assert(self.fresh_copy(fresh, s2));
            }
            self.rebind_copy(network, s2, fresh);
        }
    }

    /// Emits the TRA on `(row0, row1, row2)` that computes node `id` and
    /// rebooks the rows behind it: the abstract reading of the three rows
    /// becomes the majority of their readings, which contains the node's
    /// positive signal.
    fn tra_update_rows(
        &mut self,
        network: &MigNetwork,
        id: usize,
        s0: Signal,
        s1: Signal,
        s2: Signal,
        row0: RowAddress,
        row1: RowAddress,
        row2: RowAddress,
        f0: Option<RowAddress>,
        f1: Option<RowAddress>,
        f2: Option<RowAddress>,
    )
        requires
            old(self).inv(*network),
            old(self).sim_inv(*network),
            id < network.nodes@.len(),
            network.nodes@[id as int] == MigNode::Maj(s0, s1, s2),
            old(self).computed@[id as int],
            s0.id < network.nodes@.len(),
            s1.id < network.nodes@.len(),
            s2.id < network.nodes@.len(),
            s0.id != id,
            s1.id != id,
            s2.id != id,
            old(self).value_states@[s0.spec_index()] == Some(row0),
            old(self).value_states@[s1.spec_index()] == Some(row1),
            old(self).value_states@[s2.spec_index()] == Some(row2),
            f0 is Some ==> old(self).fresh_copy(f0->Some_0, s0),
            f1 is Some ==> old(self).fresh_copy(f1->Some_0, s1),
            f2 is Some ==> old(self).fresh_copy(f2->Some_0, s2),
            f0 is Some && f1 is Some ==> f0->Some_0.0 != f1->Some_0.0,
            f0 is Some && f2 is Some ==> f0->Some_0.0 != f2->Some_0.0,
            f1 is Some && f2 is Some ==> f1->Some_0.0 != f2->Some_0.0,
        ensures
            final(self).inv(*network),
            final(self).sim_inv(*network),
            final(self).init_rows == old(self).init_rows,
            final(self).architecture == old(self).architecture,
            final(self).program@ =~= old(self).program@.push(
                Instruction::AAPTRA(row0, row1, row2),
            ),
            final(self).candidates@ == old(self).candidates@,
            final(self).outputs@ == old(self).outputs@,
            final(self).output_done@ == old(self).output_done@,
            final(self).leftover_use_count@ == old(self).leftover_use_count@,
            final(self).fanout@ == old(self).fanout@,
            final(self).computed@ == old(self).computed@,
            final(self).is_output@ == old(self).is_output@,
            final(self).value_states@[2 * id] == Some(row0),
            final(self).dram_state@[row0.0 as int] is Some && final(self).dram_state@[row0.0
                as int]->Some_0.live_value == Some(Signal { id, inverted: false }),
            row1.0 != row0.0 ==> final(self).dram_state@[row1.0 as int] is None,
            row2.0 != row0.0 && row2.0 != row1.0 ==> final(self).dram_state@[row2.0 as int]
                is None,
            forall|row: int|
                0 <= row < old(self).dram_state@.len() && row != row0.0 && row != row1.0 && row
                    != row2.0 ==> final(self).dram_state@[row] == old(self).dram_state@[row],
            forall|i: int|
                0 <= i < old(self).value_states@.len() && i != s0.spec_index() && i
                    != s1.spec_index() && i != s2.spec_index() && i != 2 * id ==> final(self).value_states@[i] == old(self).value_states@[i],
    {
        proof {
            // the operand rows hold the three input signals live, so their
            // readings contain them
            assert(old(self).value_states@[s0.spec_index()] is Some);
            assert(old(self).value_states@[s1.spec_index()] is Some);
            assert(old(self).value_states@[s2.spec_index()] is Some);
            assert(old(self).dram_state@[row0.0 as int]->Some_0.live_value == Some(s0));
            assert(old(self).dram_state@[row1.0 as int]->Some_0.live_value == Some(s1));
            assert(old(self).dram_state@[row2.0 as int]->Some_0.live_value == Some(s2));
        }

        // the majority itself, destructive on all three rows
        let tra = Instruction::AAPTRA(row0, row1, row2);
        let ghost g0 = self.ghost_rows@;
        let ghost prog0 = self.program@;
        self.emit(network, tra);
        proof {
            lemma_run_rows_push(*network, self.init_rows@, prog0, tra);
        }
        self.ghost_rows = Ghost(step_rows(*network, g0, tra));
        let ghost result_reading = maj_set(
            *network,
            g0[row0.0 as int],
            g0[row1.0 as int],
            g0[row2.0 as int],
        );
        proof {
            assert(self.ghost_rows@ =~= g0.update(row0.0 as int, result_reading).update(
                row1.0 as int,
                result_reading,
            ).update(row2.0 as int, result_reading));
            // the majority node's positive signal is read from all three rows
            assert(g0[row0.0 as int].contains(s0));
            assert(g0[row1.0 as int].contains(s1));
            assert(g0[row2.0 as int].contains(s2));
            assert(result_reading.contains(Signal { id, inverted: false }));
        }

        // homes consumed, result in row 0, copies rebound
        self.rebook_rows(network, id, s0, s1, s2, row0, row1, row2, f0, f1, f2);

        proof {
            // every row holding a signal live still reads as that signal
            lemma_tra_sim_link(
                old(self).dram_state@,
                self.dram_state@,
                g0,
                self.ghost_rows@,
                self.architecture.rows_per_subarray as int,
                self.outputs@.len() as int,
                row0.0 as int,
                row1.0 as int,
                row2.0 as int,
                result_reading,
                id,
            );
            assert(self.sim_inv(*network));
        }
    }

    /// Copies an input signal into a disposable fresh row when its producer
    /// will be needed again after the TRA destroys its home row.
    fn preserve_input(&mut self, network: &MigNetwork, s: Signal, row: RowAddress) -> (res: Result<
        Option<RowAddress>,
        CompileError,
    >)
        requires
            old(self).inv(*network),
            old(self).sim_inv(*network),
            s.id < network.nodes@.len(),
            old(self).value_states@[s.spec_index()] == Some(row),
        ensures
            final(self).inv(*network),
            final(self).sim_inv(*network),
            final(self).init_rows == old(self).init_rows,
            final(self).architecture == old(self).architecture,
            final(self).value_states@ == old(self).value_states@,
            final(self).free_rows_per_subarray@.len() <= old(self).free_rows_per_subarray@.len(),
            final(self).candidates@ == old(self).candidates@,
            final(self).outputs@ == old(self).outputs@,
            final(self).output_done@ == old(self).output_done@,
            final(self).leftover_use_count@ == old(self).leftover_use_count@,
            final(self).fanout@ == old(self).fanout@,
            final(self).computed@ == old(self).computed@,
            final(self).is_output@ == old(self).is_output@,
            final(self).program@.len() <= old(self).program@.len() + 1,
            forall|row2: int|
                0 <= row2 < old(self).dram_state@.len() && #[trigger] old(self).dram_state@[row2] is Some ==> final(self).dram_state@[row2] == old(self).dram_state@[row2],
            res matches Ok(opt) ==> {
                opt matches Some(f) ==> final(self).fresh_copy(f, s) && old(self).dram_state@[f.0
                    as int] is None
            },
            res matches Ok(opt) ==> {
                &&& (opt is Some <==> old(self).leftover_use_count@[s.id as int] > 1)
                &&& (opt is Some ==> final(self).program@ =~= old(self).program@.push(
                    Instruction::AAPRowCopy(row, opt->Some_0),
                ))
                &&& (opt is None ==> *final(self) == *old(self))
            },
            res is Err ==> {
                &&& res == Err::<Option<RowAddress>, CompileError>(CompileError::OutOfRows)
                &&& final(self).program@ == old(self).program@
                &&& final(self).value_states@ == old(self).value_states@
                &&& final(self).dram_state@ == old(self).dram_state@
                &&& final(self).free_rows_per_subarray@ == old(self).free_rows_per_subarray@
                &&& final(self).output_done@ == old(self).output_done@
                &&& final(self).candidates@ == old(self).candidates@
                &&& final(self).ghost_rows == old(self).ghost_rows
                &&& final(self).init_rows == old(self).init_rows
            },
    {
        if self.leftover_use_count[s.id] > 1 {
            let k = self.outputs.len();
            let r = self.architecture.rows_per_subarray;
            let fresh = match alloc_seed(
                &mut self.dram_state,
                &mut self.free_rows_per_subarray,
                &self.value_states,
                k,
                r,
                RowState { is_compute_row: false, live_value: Some(s), constant: None },
            ) {
                Ok(f) => f,
                Err(e) => {
                    return Err(e);
                },
            };
            proof {
                assert(self.value_states@[s.spec_index()] is Some);
                assert(row.0 < r);
                // the home row still holds the signal, so its reading has it
                assert(old(self).dram_state@[row.0 as int]->Some_0.live_value == Some(s));
                assert(self.ghost_rows@[row.0 as int].contains(s));
            }
            let instr = Instruction::AAPRowCopy(row, fresh);
            self.emit(network, instr);
            proof {
                lemma_run_rows_push(*network, self.init_rows@, old(self).program@, instr);
            }
            self.ghost_rows = Ghost(step_rows(*network, self.ghost_rows@, instr));
            proof {
                assert(self.ghost_rows@ =~= old(self).ghost_rows@.update(
                    fresh.0 as int,
                    old(self).ghost_rows@[row.0 as int],
                ));
                assert(self.sim_inv(*network));
            }
            Ok(Some(fresh))
        } else {
            Ok(None)
        }
    }

    /// After a node has been computed: places every output position that
    /// refers to it, consumes one use of it per output placement and per input
    /// occurrence, retires producers whose uses are exhausted, and adds every
    /// node that is now ready to the worklist.
    #[verifier::rlimit(100)]
    fn finish_node(
        &mut self,
        network: &MigNetwork,
        id: usize,
        s0: Signal,
        s1: Signal,
        s2: Signal,
    ) -> (res: Result<(), CompileError>)
        requires
            old(self).inv(*network),
            old(self).sim_inv(*network),
            old(self).budget_ok(),
            id < network.nodes@.len(),
            s0.id < network.nodes@.len(),
            s1.id < network.nodes@.len(),
            s2.id < network.nodes@.len(),
            s0.id != id,
            s1.id != id,
            s2.id != id,
        ensures
            final(self).inv(*network),
            final(self).sim_inv(*network),
            final(self).init_rows == old(self).init_rows,
            final(self).budget_ok(),
            final(self).architecture == old(self).architecture,
            final(self).outputs@ == old(self).outputs@,
            final(self).computed@ == old(self).computed@,
            // the program only grows, and only with output placements
            old(self).program@.is_prefix_of(final(self).program@),
            !old(self).is_output@[id as int] ==> final(self).program@ == old(self).program@,
            // every output position of the node is placed; placed stays placed
            res is Ok ==> forall|o: int|
                0 <= o < old(self).outputs@.len() && (#[trigger] old(self).outputs@[o]).id == id
                    ==> final(self).output_done@[o],
            forall|o: int|
                0 <= o < old(self).output_done@.len() && #[trigger] old(self).output_done@[o]
                    ==> final(self).output_done@[o],
            // nothing leaves the worklist, and every ready node stands in it
            old(self).candidates@.is_prefix_of(final(self).candidates@),
            res is Ok ==> forall|c: int|
                node_ready(final(self).computed@, final(self).value_states@, *network, c)
                    ==> in_candidates(final(self).candidates@, c),
            // signals of unrelated nodes keep their bindings
            forall|i: int|
                0 <= i < old(self).value_states@.len() && i / 2 != id && i / 2 != s0.id && i / 2
                    != s1.id && i / 2 != s2.id ==> final(self).value_states@[i] == old(self).value_states@[i],
            // the node keeps its home unless this placement was its last use
            !(old(self).is_output@[id as int] && old(self).leftover_use_count@[id as int] == 1)
                ==> final(self).value_states@[2 * id] == old(self).value_states@[2 * id],
            // occupied rows keep their contents or return to the pool
            forall|row: int|
                0 <= row < old(self).dram_state@.len() && #[trigger] old(self).dram_state@[row]
                    is Some ==> final(self).dram_state@[row] == old(self).dram_state@[row]
                    || final(self).dram_state@[row] is None,
            // when the node is no output nothing is allocated: free rows stay free
            !old(self).is_output@[id as int] ==> forall|row: int|
                0 <= row < old(self).dram_state@.len() && #[trigger] old(self).dram_state@[row]
                    is None ==> final(self).dram_state@[row] is None,
            // with the node's home bound, only pool exhaustion can fail
            old(self).value_states@[2 * id] is Some ==> res is Ok || res == Err::<
                (),
                CompileError,
            >(CompileError::OutOfRows),
    {
        let n = network.nodes.len();
        let k = self.outputs.len();

        // place every output position that refers to this node
        if self.is_output[id] {
            let mut o: usize = 0;
            while o < k
                invariant
                    o <= k,
                    k == self.outputs@.len(),
                    self.inv(*network),
                    self.sim_inv(*network),
                    self.init_rows == old(self).init_rows,
                    self.budget_ok(),
                    self.computed@ == old(self).computed@,
                    self.outputs@ == old(self).outputs@,
                    self.architecture == old(self).architecture,
                    self.candidates@ == old(self).candidates@,
                    self.leftover_use_count@ == old(self).leftover_use_count@,
                    id < network.nodes@.len(),
                    old(self).is_output@[id as int],
                    old(self).value_states@.len() == 2 * network.nodes@.len(),
                    old(self).dram_state@.len() == self.dram_state@.len(),
                    old(self).program@.is_prefix_of(self.program@),
                    self.output_done@.len() == old(self).output_done@.len(),
                    forall|j: int|
                        0 <= j < o && (#[trigger] self.outputs@[j]).id == id
                            ==> self.output_done@[j],
                    forall|j: int|
                        0 <= j < old(self).output_done@.len() && #[trigger] old(self).output_done@[j] ==> self.output_done@[j],
                    forall|i: int|
                        0 <= i < old(self).value_states@.len() && i != 2 * id + 1
                            ==> self.value_states@[i] == old(self).value_states@[i],
                    forall|row: int|
                        0 <= row < old(self).dram_state@.len() && #[trigger] old(self).dram_state@[row] is Some ==> self.dram_state@[row] == old(self).dram_state@[row],
                decreases k - o,
            {
                if self.outputs[o].node_id() == id && !self.output_done[o] {
                    let ghost before = *self;
                    match self.materialize_output(network, o) {
                        Ok(_) => {
                            proof {
                                lemma_prefix_transitive(
                                    old(self).program@,
                                    before.program@,
                                    self.program@,
                                );
                            }
                        },
                        Err(e) => {
                            proof {
                                if old(self).value_states@[2 * id] is Some {
                                    assert(before.value_states@[2 * id] is Some);
                                    assert(e == CompileError::OutOfRows);
                                }
                            }
                            return Err(e);
                        },
                    }
                }
                o = o + 1;
            }
            // the output placement consumes one use of the node
            let cur = self.leftover_use_count[id];
            if cur > 0 {
                self.leftover_use_count.set(id, cur - 1);
                if cur == 1 {
                    self.retire_node(network, id);
                }
            }
        }

        // each input occurrence consumes one use of its producer
        let cur0 = self.leftover_use_count[s0.id];
        if cur0 > 0 {
            self.leftover_use_count.set(s0.id, cur0 - 1);
            if cur0 == 1 {
                self.retire_node(network, s0.id);
            }
        }
        let cur1 = self.leftover_use_count[s1.id];
        if cur1 > 0 {
            self.leftover_use_count.set(s1.id, cur1 - 1);
            if cur1 == 1 {
                self.retire_node(network, s1.id);
            }
        }
        let cur2 = self.leftover_use_count[s2.id];
        if cur2 > 0 {
            self.leftover_use_count.set(s2.id, cur2 - 1);
            if cur2 == 1 {
                self.retire_node(network, s2.id);
            }
        }

        // nodes whose inputs all stand in rows now are ready
        let ghost mid = *self;
        let mut c: usize = 0;
        while c < n
            invariant
                c <= n,
                n == network.nodes@.len(),
                self.inv(*network),
                self.sim_inv(*network),
                self.init_rows == mid.init_rows,
                self.budget_ok(),
                self.computed@ == mid.computed@,
                self.outputs@ == mid.outputs@,
                self.architecture == mid.architecture,
                self.program@ == mid.program@,
                self.value_states@ == mid.value_states@,
                self.dram_state@ == mid.dram_state@,
                self.output_done@ == mid.output_done@,
                self.leftover_use_count@ == mid.leftover_use_count@,
                mid.candidates@.is_prefix_of(self.candidates@),
                forall|c2: int|
                    0 <= c2 < c && node_ready(self.computed@, self.value_states@, *network, c2)
                        ==> in_candidates(self.candidates@, c2),
            decreases n - c,
        {
            let ghost cands_before = self.candidates@;
            if let MigNode::Maj(a, b, cc) = network.nodes[c] {
                if !self.computed[c] && signal_bound(&self.value_states, n, a) && signal_bound(
                    &self.value_states,
                    n,
                    b,
                ) && signal_bound(&self.value_states, n, cc) {
                    if !self.contains_candidate(c) {
                        self.candidates.push(c);
                        proof {
                            assert(self.candidates@.last() == c);
                            assert(in_candidates(self.candidates@, c as int));
                        }
                    } else {
                        proof {
                            assert(in_candidates(self.candidates@, c as int));
                        }
                    }
                } else {
                    proof {
                        assert(!node_ready(self.computed@, self.value_states@, *network, c as int));
                    }
                }
            } else {
                proof {
                    assert(!node_ready(self.computed@, self.value_states@, *network, c as int));
                }
            }
            proof {
                assert(cands_before.is_prefix_of(self.candidates@)) by {
                    assert(cands_before =~= self.candidates@.subrange(
                        0,
                        cands_before.len() as int,
                    ));
                }
                lemma_prefix_transitive(mid.candidates@, cands_before, self.candidates@);
                assert forall|c2: int|
                    0 <= c2 < c + 1 && node_ready(self.computed@, self.value_states@, *network, c2)
                        implies in_candidates(self.candidates@, c2) by {
                    if c2 < c {
                        lemma_in_candidates_prefix(cands_before, self.candidates@, c2);
                    }
                }
            }
            c = c + 1;
        }
        proof {
            lemma_prefix_transitive(old(self).candidates@, mid.candidates@, self.candidates@);
        }
        Ok(())
    }

    /// Compiles one ready candidate, given by its position in the worklist:
    /// still-needed inputs are preserved with disposable copies, one TRA
    /// computes the majority destructively in the three home rows, the first
    /// operand row becomes the home of the new signal and the other two return
    /// to the pool, the node's outputs are placed, dead inputs retire, and the
    /// nodes that became ready join the worklist.
    #[verifier::rlimit(100)]
    pub fn compute(&mut self, network: &MigNetwork, pos: usize) -> (res: Result<
        (),
        CompileError,
    >)
        requires
            old(self).inv(*network),
            old(self).sim_inv(*network),
            old(self).budget_ok(),
            pos < old(self).candidates@.len(),
        ensures
            final(self).inv(*network),
            final(self).sim_inv(*network),
            final(self).init_rows == old(self).init_rows,
            final(self).budget_ok(),
            final(self).architecture == old(self).architecture,
            final(self).outputs@ == old(self).outputs@,
            res is Ok ==> count_true(final(self).computed@) == count_true(old(self).computed@)
                + 1,
            // nothing already emitted changes, and placed outputs stay placed
            old(self).program@.is_prefix_of(final(self).program@),
            forall|o: int|
                0 <= o < old(self).output_done@.len() && #[trigger] old(self).output_done@[o]
                    ==> final(self).output_done@[o],
            // on success exactly the chosen candidate is newly computed
            res is Ok ==> final(self).computed@ =~= old(self).computed@.update(
                old(self).candidates@[pos as int] as int,
                true,
            ),
            // every output position of the node is placed
            res is Ok ==> forall|o: int|
                0 <= o < old(self).outputs@.len() && (#[trigger] old(self).outputs@[o]).id == old(self).candidates@[pos as int] ==> final(self).output_done@[o],
            // the worklist loses the compiled candidate and nothing else, and
            // afterwards holds every node that is ready
            res is Ok ==> !in_candidates(
                final(self).candidates@,
                old(self).candidates@[pos as int] as int,
            ),
            forall|j: int|
                0 <= j < old(self).candidates@.len() && (#[trigger] old(self).candidates@[j])
                    != old(self).candidates@[pos as int] ==> in_candidates(
                    final(self).candidates@,
                    old(self).candidates@[j] as int,
                ),
            res is Ok ==> forall|c: int|
                node_ready(final(self).computed@, final(self).value_states@, *network, c)
                    ==> in_candidates(final(self).candidates@, c),
            // the emitted instructions and the row rebooking
            res is Ok ==> (network.nodes@[old(self).candidates@[pos as int] as int]
                matches MigNode::Maj(s0, s1, s2) && tra_step_shape(
                *old(self),
                *final(self),
                *network,
                old(self).candidates@[pos as int] as int,
                s0,
                s1,
                s2,
            )),
            // signals of unrelated nodes keep their bindings, and their rows
            // keep their contents
            res is Ok ==> (network.nodes@[old(self).candidates@[pos as int] as int]
                matches MigNode::Maj(s0, s1, s2) ==> forall|i: int|
                0 <= i < old(self).value_states@.len() && i / 2 != old(self).candidates@[pos
                    as int] && i / 2 != s0.id && i / 2 != s1.id && i / 2 != s2.id ==> final(self).value_states@[i] == old(self).value_states@[i]),
            res is Ok ==> (network.nodes@[old(self).candidates@[pos as int] as int]
                matches MigNode::Maj(s0, s1, s2) ==> forall|i: int|
                0 <= i < old(self).value_states@.len() && i / 2 != old(self).candidates@[pos
                    as int] && i / 2 != s0.id && i / 2 != s1.id && i / 2 != s2.id && (
                #[trigger] old(self).value_states@[i]) is Some ==> final(self).dram_state@[(old(self).value_states@[i])->Some_0.0 as int] == old(self).dram_state@[(old(self).value_states@[i])->Some_0.0 as int]),
            // with the candidate's inputs materialized, only exhaustion fails
            (network.nodes@[old(self).candidates@[pos as int] as int] matches MigNode::Maj(
                s0,
                s1,
                s2,
            ) && spec_signal_bound(old(self).value_states@, *network, s0) && spec_signal_bound(
                old(self).value_states@,
                *network,
                s1,
            ) && spec_signal_bound(old(self).value_states@, *network, s2)) ==> res is Ok || res
                == Err::<(), CompileError>(CompileError::OutOfRows),
    {
        let id = self.take_candidate(network, pos);
        let node = network.nodes[id];
        let (s0, s1, s2) = match node {
            MigNode::Maj(a, b, c) => (a, b, c),
            _ => {
                proof {
                    assert(false);
                }
                return Err(CompileError::MissingSignal);
            },
        };

        // all three inputs must be materialized
        let row0 = match self.lookup_signal(network, s0) {
            Some(row) => row,
            None => {
                return Err(CompileError::MissingSignal);
            },
        };
        let row1 = match self.lookup_signal(network, s1) {
            Some(row) => row,
            None => {
                return Err(CompileError::MissingSignal);
            },
        };
        let row2 = match self.lookup_signal(network, s2) {
            Some(row) => row,
            None => {
                return Err(CompileError::MissingSignal);
            },
        };
        proof {
            // the inputs cannot be the node itself: its slots are still unbound
            assert(s0.id != id && s1.id != id && s2.id != id);
        }

        // inputs that are needed again survive in disposable copies
        let f0 = match self.preserve_input(network, s0, row0) {
            Ok(opt) => opt,
            Err(e) => {
                return Err(e);
            },
        };
        let ghost st_a = *self;
        let f1 = match self.preserve_input(network, s1, row1) {
            Ok(opt) => opt,
            Err(e) => {
                return Err(e);
            },
        };
        let ghost st_b = *self;
        let f2 = match self.preserve_input(network, s2, row2) {
            Ok(opt) => opt,
            Err(e) => {
                return Err(e);
            },
        };
        proof {
            // the copies are pairwise distinct rows and still fresh: a later
            // copy lands in a row that was unoccupied when it was seeded,
            // while the earlier ones were occupied already
            if f0 is Some {
                assert(st_a.dram_state@[f0->Some_0.0 as int] is Some);
                assert(st_b.dram_state@[f0->Some_0.0 as int] is Some);
                assert(self.fresh_copy(f0->Some_0, s0));
            }
            if f1 is Some {
                assert(st_a.dram_state@[f1->Some_0.0 as int] is None);
                assert(st_b.dram_state@[f1->Some_0.0 as int] is Some);
                assert(self.fresh_copy(f1->Some_0, s1));
            }
            if f2 is Some {
                assert(st_b.dram_state@[f2->Some_0.0 as int] is None);
                assert(self.fresh_copy(f2->Some_0, s2));
            }
        }

        let ghost st_c = *self;

        // the majority itself, destructive on all three rows: homes consumed,
        // result in row 0, copies rebound
        proof {
            assert(node == MigNode::Maj(s0, s1, s2));
        }
        self.tra_update_rows(network, id, s0, s1, s2, row0, row1, row2, f0, f1, f2);
        let ghost st_tra = *self;
        proof {
            // the copies and the TRA stand at fixed positions of the program
            let base = old(self).program@.len() as int;
            let n0: int = if f0 is Some {
                1
            } else {
                0
            };
            let n1: int = if f1 is Some {
                1
            } else {
                0
            };
            assert(st_tra.program@.len() == st_c.program@.len() + 1);
            if f0 is Some {
                assert(st_tra.program@[base] == Instruction::AAPRowCopy(row0, f0->Some_0));
            }
            if f1 is Some {
                assert(st_tra.program@[base + n0] == Instruction::AAPRowCopy(row1, f1->Some_0));
            }
            if f2 is Some {
                assert(st_tra.program@[base + n0 + n1] == Instruction::AAPRowCopy(
                    row2,
                    f2->Some_0,
                ));
            }
            assert(st_tra.program@[st_c.program@.len() as int] == Instruction::AAPTRA(
                row0,
                row1,
                row2,
            ));
            // at most four instructions were emitted, covered by the budget of
            // the freshly computed node
            assert(self.budget_ok());
        }

        // outputs, retirement of dead inputs, and the newly ready nodes
        match self.finish_node(network, id, s0, s1, s2) {
            Ok(_) => {},
            Err(e) => {
                return Err(e);
            },
        }
        proof {
            lemma_prefix_transitive(old(self).program@, st_tra.program@, self.program@);
            assert(st_tra.program@ =~= self.program@.subrange(0, st_tra.program@.len() as int));
            // the compiled node left the worklist for good
            assert(!in_candidates(self.candidates@, id as int)) by {
                if in_candidates(self.candidates@, id as int) {
                    let j = choose|j: int|
                        0 <= j < self.candidates@.len() && (#[trigger] self.candidates@[j]) as int
                            == id;
                    assert(!self.computed@[self.candidates@[j] as int]);
                }
            }
            // the other candidates are still listed
            assert forall|j: int|
                0 <= j < old(self).candidates@.len() && (#[trigger] old(self).candidates@[j])
                    != id implies in_candidates(self.candidates@, old(self).candidates@[j] as int) by {
                lemma_in_candidates_prefix(
                    st_tra.candidates@,
                    self.candidates@,
                    old(self).candidates@[j] as int,
                );
            }
            // the node's home and the freed rows after the whole step
            assert(signal_of_index(2 * id as int) == Signal { id, inverted: false });
            if !(old(self).is_output@[id as int] && old(self).leftover_use_count@[id as int]
                == 1) {
                assert(self.value_states@[2 * id] == Some(row0));
                assert(self.dram_state@[row0.0 as int] is Some && self.dram_state@[row0.0
                    as int]->Some_0.live_value == Some(Signal { id, inverted: false }));
            }
            assert(tra_step_shape(*old(self), *self, *network, id as int, s0, s1, s2));
            // rows of unrelated signals were never touched: not by the copies
            // (they land in free rows), not by the TRA (injectivity keeps the
            // operand rows apart), and not afterwards (the row stays occupied)
            assert forall|i: int|
                0 <= i < old(self).value_states@.len() && i / 2 != id as int && i / 2 != s0.id
                    && i / 2 != s1.id && i / 2 != s2.id && (
                #[trigger] old(self).value_states@[i]) is Some implies self.dram_state@[(old(
                self,
            ).value_states@[i])->Some_0.0 as int] == old(self).dram_state@[(old(
                self,
            ).value_states@[i])->Some_0.0 as int] by {
                let rr = (old(self).value_states@[i])->Some_0.0 as int;
                assert(old(self).dram_state@[rr] is Some);
                assert(old(self).value_states@[s0.spec_index()] is Some);
                assert(old(self).value_states@[s1.spec_index()] is Some);
                assert(old(self).value_states@[s2.spec_index()] is Some);
                assert(i != s0.spec_index() && i != s1.spec_index() && i != s2.spec_index());
                assert(rr != row0.0 && rr != row1.0 && rr != row2.0);
                assert(st_a.dram_state@[rr] == old(self).dram_state@[rr]);
                assert(st_b.dram_state@[rr] == st_a.dram_state@[rr]);
                assert(st_c.dram_state@[rr] == st_b.dram_state@[rr]);
                assert(st_tra.dram_state@[rr] == st_c.dram_state@[rr]);
                assert(self.value_states@[i] == old(self).value_states@[i]);
                assert(self.dram_state@[rr] is Some);
                assert(self.dram_state@[rr] == st_tra.dram_state@[rr]);
            }
        }
        Ok(())
    }

    /// Emits the copies that place output position `o` into its reserved row.
    /// A non-inverted output is copied straight from its home row; an inverted
    /// one is copied to a fresh backup row, negated there, and moved into the
    /// output row.
    fn materialize_output(&mut self, network: &MigNetwork, o: usize) -> (res: Result<
        (),
        CompileError,
    >)
        requires
            old(self).inv(*network),
            old(self).sim_inv(*network),
            old(self).budget_ok(),
            o < old(self).outputs@.len(),
            !old(self).output_done@[o as int],
        ensures
            final(self).inv(*network),
            final(self).sim_inv(*network),
            final(self).init_rows == old(self).init_rows,
            final(self).budget_ok(),
            final(self).architecture == old(self).architecture,
            final(self).candidates@ == old(self).candidates@,
            final(self).outputs@ == old(self).outputs@,
            final(self).computed@ == old(self).computed@,
            final(self).leftover_use_count@ == old(self).leftover_use_count@,
            final(self).is_output@ == old(self).is_output@,
            final(self).output_done@.len() == old(self).output_done@.len(),
            old(self).program@.is_prefix_of(final(self).program@),
            forall|o2: int|
                0 <= o2 < old(self).output_done@.len() && #[trigger] old(self).output_done@[o2]
                    ==> final(self).output_done@[o2],
            res is Ok ==> final(self).output_done@ =~= old(self).output_done@.update(
                o as int,
                true,
            ),
            // a non-inverted output whose signal stands in a row always
            // succeeds, with one copy and no allocation
            !old(self).outputs@[o as int].inverted && old(self).outputs@[o as int].id
                < network.nodes@.len() && old(self).value_states@[2 * old(self).outputs@[o
                as int].id] is Some ==> res is Ok,
            !old(self).outputs@[o as int].inverted ==> final(self).value_states@ == old(self).value_states@ && final(self).dram_state@ == old(self).dram_state@,
            // a bound output can only fail for want of a backup row
            old(self).outputs@[o as int].id < network.nodes@.len() && old(self).value_states@[2
                * old(self).outputs@[o as int].id] is Some ==> res is Ok || res == Err::<
                (),
                CompileError,
            >(CompileError::OutOfRows),
            res is Err ==> {
                &&& final(self).program@ == old(self).program@
                &&& final(self).value_states@ == old(self).value_states@
                &&& final(self).dram_state@ == old(self).dram_state@
                &&& final(self).free_rows_per_subarray@ == old(self).free_rows_per_subarray@
                &&& final(self).output_done@ == old(self).output_done@
                &&& final(self).candidates@ == old(self).candidates@
                &&& final(self).ghost_rows == old(self).ghost_rows
                &&& final(self).init_rows == old(self).init_rows
            },
            forall|i: int|
                0 <= i < old(self).value_states@.len() && i != 2 * old(self).outputs@[o as int].id
                    + 1 ==> final(self).value_states@[i] == old(self).value_states@[i],
            forall|row: int|
                0 <= row < old(self).dram_state@.len() && #[trigger] old(self).dram_state@[row]
                    is Some ==> final(self).dram_state@[row] == old(self).dram_state@[row],
    {
        let sig = self.outputs[o];
        let n = network.nodes.len();
        if sig.id >= n {
            return Err(CompileError::MissingSignal);
        }
        let src = match self.value_states[2 * sig.id] {
            Some(row) => row,
            None => {
                return Err(CompileError::MissingSignal);
            },
        };
        proof {
            assert(signal_of_index(2 * sig.id as int) == Signal { id: sig.id, inverted: false });
        }
        let k = self.outputs.len();
        let r = self.architecture.rows_per_subarray;
        if !sig.inverted {
            proof {
                lemma_count_true_update(self.output_done@, o as int, true);
            }
            self.output_done.set(o, true);
            let instr = Instruction::AAPRowCopy(src, RowAddress(o as u64));
            proof {
                lemma_home_instr_valid(instr, r);
            }
            self.program.push(instr);
            proof {
                assert(old(self).program@.is_prefix_of(self.program@)) by {
                    assert(old(self).program@ =~= self.program@.subrange(
                        0,
                        old(self).program@.len() as int,
                    ));
                }
                assert forall|o2: int|
                    0 <= o2 < self.output_done@.len()
                        && #[trigger] self.output_done@[o2] implies output_placed(
                    self.program@,
                    o2,
                ) by {
                    if o2 == o {
                        assert(self.program@[self.program@.len() - 1] == instr);
                    } else {
                        lemma_output_placed_extend(old(self).program@, self.program@, o2);
                    }
                }
                lemma_run_rows_push(*network, self.init_rows@, old(self).program@, instr);
            }
            self.ghost_rows = Ghost(step_rows(*network, self.ghost_rows@, instr));
            proof {
                // the home row reads as the declared output signal, and the
                // copy carries that reading into the output row
                assert(sig == Signal { id: sig.id, inverted: false });
                assert(old(self).dram_state@[src.0 as int]->Some_0.live_value == Some(sig));
                assert(old(self).ghost_rows@[src.0 as int].contains(sig));
                assert(self.ghost_rows@ =~= old(self).ghost_rows@.update(
                    o as int,
                    old(self).ghost_rows@[src.0 as int],
                ));
                assert(self.sim_inv(*network));
            }
            Ok(())
        } else {
            // save the non-inverted value in a backup row, negate it there,
            // then move it into the output row
            let backup = match alloc_seed(
                &mut self.dram_state,
                &mut self.free_rows_per_subarray,
                &self.value_states,
                k,
                r,
                RowState {
                    is_compute_row: false,
                    live_value: Some(Signal::new(sig.id, true)),
                    constant: None,
                },
            ) {
                Ok(row) => row,
                Err(e) => {
                    return Err(e);
                },
            };
            let idx1 = 2 * sig.id + 1;
            if self.value_states[idx1].is_none() {
                proof {
                    assert(signal_of_index(idx1 as int) == Signal { id: sig.id, inverted: true });
                }
                bind_signal(
                    &mut self.value_states,
                    &self.dram_state,
                    &self.free_rows_per_subarray,
                    k,
                    r,
                    idx1,
                    backup,
                );
            }
            proof {
                lemma_count_true_update(self.output_done@, o as int, true);
            }
            self.output_done.set(o, true);
            let copy_in = Instruction::AAPRowCopy(src, backup);
            let negate = Instruction::N(backup);
            let copy_out = Instruction::AAPRowCopy(backup, RowAddress(o as u64));
            proof {
                lemma_home_instr_valid(copy_in, r);
                lemma_home_instr_valid(negate, r);
                lemma_home_instr_valid(copy_out, r);
            }
            let ghost g0 = self.ghost_rows@;
            let ghost prog0 = self.program@;
            self.program.push(copy_in);
            proof {
                lemma_run_rows_push(*network, self.init_rows@, prog0, copy_in);
            }
            self.ghost_rows = Ghost(step_rows(*network, g0, copy_in));
            let ghost g1 = self.ghost_rows@;
            let ghost prog1 = self.program@;
            self.program.push(negate);
            proof {
                lemma_run_rows_push(*network, self.init_rows@, prog1, negate);
            }
            self.ghost_rows = Ghost(step_rows(*network, g1, negate));
            let ghost g2 = self.ghost_rows@;
            let ghost prog2 = self.program@;
            self.program.push(copy_out);
            proof {
                lemma_run_rows_push(*network, self.init_rows@, prog2, copy_out);
            }
            self.ghost_rows = Ghost(step_rows(*network, g2, copy_out));
            proof {
                assert(old(self).program@.is_prefix_of(self.program@)) by {
                    assert(old(self).program@ =~= self.program@.subrange(
                        0,
                        old(self).program@.len() as int,
                    ));
                }
                assert forall|o2: int|
                    0 <= o2 < self.output_done@.len()
                        && #[trigger] self.output_done@[o2] implies output_placed(
                    self.program@,
                    o2,
                ) by {
                    if o2 == o {
                        assert(self.program@[self.program@.len() - 1] == copy_out);
                    } else {
                        lemma_output_placed_extend(old(self).program@, self.program@, o2);
                    }
                }
                // the backup row picks up the positive reading, the negation
                // turns it into the inverted one, and the final copy carries
                // it into the output row
                let b = backup.0 as int;
                let pos = Signal { id: sig.id, inverted: false };
                let neg = Signal { id: sig.id, inverted: true };
                assert(old(self).dram_state@[src.0 as int]->Some_0.live_value == Some(pos));
                assert(g0[src.0 as int].contains(pos));
                assert(g1 =~= g0.update(b, g0[src.0 as int]));
                assert(g1[b].contains(pos));
                assert(g2 =~= g1.update(b, invert_set(g1[b])));
                assert(g2[b].contains(neg));
                assert(self.ghost_rows@ =~= g2.update(o as int, g2[b]));
                assert(sig == neg);
                assert forall|row2: int|
                    0 <= row2 < self.architecture.rows_per_subarray && (
                    #[trigger] self.dram_state@[row2]) is Some
                        && self.dram_state@[row2]->Some_0.live_value is Some implies (
                self.ghost_rows@[row2]).contains(
                    self.dram_state@[row2]->Some_0.live_value->Some_0,
                ) by {
                    if row2 == b {
                        assert(self.dram_state@[row2]->Some_0.live_value == Some(neg));
                    } else {
                        assert(self.dram_state@[row2] == old(self).dram_state@[row2]);
                        assert(self.ghost_rows@[row2] == g0[row2]);
                    }
                }
                assert(self.sim_inv(*network));
            }
            Ok(())
        }
    }
}

} // verus!
