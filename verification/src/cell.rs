//! The tag presence cell.
//!
//! One signed integer holds both whether a tag is present and the timestamp
//! of the latest mutation that won: `+t` after an add at `t`, `-t` after a
//! remove at `t`. Zero is never stored.

use vstd::prelude::*;

verus! {

/// The timestamp that a cell carries, whatever its sign.
pub open spec fn magnitude(v: int) -> int {
    if v < 0 {
        -v
    } else {
        v
    }
}

/// A positive cell means that the tag is present.
pub open spec fn is_present(v: int) -> bool {
    v > 0
}

/// The values a cell may hold: never zero, and with a magnitude that is a
/// timestamp.
pub open spec fn valid_cell(v: int) -> bool {
    v != 0 && -i64::MAX <= v <= i64::MAX
}

/// The cell after an add at `ts` has met the value `v`: an observation at
/// least as new as `ts` stays, anything older gives way to `+ts`.
pub open spec fn after_add(v: int, ts: int) -> int {
    if magnitude(v) >= ts {
        v
    } else {
        ts
    }
}

/// The cell after a remove at `ts` has met the value `v`: a strictly newer
/// observation stays, and so does a remove already recorded at `ts`; anything
/// else gives way to `-ts`. At equal timestamps a remove beats an add.
pub open spec fn after_remove(v: int, ts: int) -> int {
    if ts < magnitude(v) || (ts == magnitude(v) && v < 0) {
        v
    } else {
        -ts
    }
}

/// Whether the value of a cell says that its tag is present.
pub fn present(v: i64) -> (r: bool)
    ensures
        r == is_present(v as int),
{
    v > 0
}

/// Reconciles an add at `ts` against the cell value `v`.
pub fn apply_add(v: i64, ts: i64) -> (r: i64)
    requires
        ts > 0,
    ensures
        r == after_add(v as int, ts as int),
{
    if v >= ts || v <= -ts {
        v
    } else {
        ts
    }
}

/// Reconciles a remove at `ts` against the cell value `v`.
pub fn apply_remove(v: i64, ts: i64) -> (r: i64)
    requires
        ts > 0,
    ensures
        r == after_remove(v as int, ts as int),
{
    if v > ts || v <= -ts {
        v
    } else {
        -ts
    }
}

/// The magnitude of a cell never goes down: whatever a mutation does to a
/// cell, the timestamp the cell carries afterwards is at least the one it
/// carried before.
pub proof fn lemma_reconciling_keeps_magnitude(v: int, ts: int)
    requires
        ts > 0,
    ensures
        magnitude(after_add(v, ts)) >= magnitude(v),
        magnitude(after_remove(v, ts)) >= magnitude(v),
{
}

/// An add and a remove at the same timestamp, in either order, leave the tag
/// absent, unless the cell was present with a strictly newer timestamp, in
/// which case neither of them is seen.
pub proof fn lemma_remove_wins_tie(v: int, ts: int)
    requires
        ts > 0,
        !(v > ts),
    ensures
        !is_present(after_remove(after_add(v, ts), ts)),
        !is_present(after_add(after_remove(v, ts), ts)),
{
}

/// A mutation whose timestamp is older than the one the cell carries is not
/// seen; nor is an add at the very timestamp the cell carries.
pub proof fn lemma_older_mutation_is_silent(v: int, ts: int)
    requires
        ts > 0,
    ensures
        ts <= magnitude(v) ==> after_add(v, ts) == v,
        ts < magnitude(v) ==> after_remove(v, ts) == v,
{
}

/// A mutation whose timestamp is newer than the one the cell carries decides
/// the cell.
pub proof fn lemma_newer_mutation_wins(v: int, ts: int)
    requires
        ts > magnitude(v),
    ensures
        after_add(v, ts) == ts,
        after_remove(v, ts) == -ts,
{
}

} // verus!
