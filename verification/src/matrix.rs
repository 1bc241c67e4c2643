use vstd::prelude::*;

verus! {

/// The sign that a minor carries in a cofactor expansion: plus where column
/// and row add up to an even number, minus where they do not.
pub open spec fn sign_of(x: nat, y: nat) -> int {
    if (x + y) % 2 == 0 {
        1
    } else {
        -1
    }
}

/// The row (or column) of a matrix from which row (or column) `k` of a
/// minor is taken, when the minor leaves out `skipped`: the rows before the
/// one left out keep their place, those behind it move up by one.
pub open spec fn source_of(k: nat, skipped: nat) -> nat {
    if k < skipped {
        k
    } else {
        k + 1
    }
}

/// The sign of the minor at column `x` and row `y`.
pub fn sign_at(x: usize, y: usize) -> (sign: i8)
    ensures
        sign == sign_of(x as nat, y as nat),
{
    if (x % 2 == 0) == (y % 2 == 0) {
        1
    } else {
        -1
    }
}

/// The row (or column) of the matrix that row (or column) `k` of the minor
/// without `skipped` is taken from.
pub fn minor_source(k: usize, skipped: usize) -> (source: usize)
    requires
        k < usize::MAX,
    ensures
        source == source_of(k as nat, skipped as nat),
{
    if k < skipped {
        k
    } else {
        k + 1
    }
}

/// The row (or column) of the minor without `skipped` that holds row (or
/// column) `row` of the matrix; `row` is not the one left out.
pub open spec fn place_of(row: nat, skipped: nat) -> nat {
    if row < skipped {
        row
    } else {
        (row - 1) as nat
    }
}

/// A minor takes its rows in order, never takes the row left out, and takes
/// every other row.
pub proof fn lemma_minor_rows(skipped: nat)
    ensures
        forall|j: nat, k: nat| j < k ==> source_of(j, skipped) < source_of(k, skipped),
        forall|k: nat| source_of(k, skipped) != skipped,
        forall|row: nat|
            row != skipped ==> source_of(#[trigger] place_of(row, skipped), skipped) == row,
{
}

/// The signs of a cofactor expansion alternate along every row and column.
pub proof fn lemma_signs_alternate(x: nat, y: nat)
    ensures
        sign_of(x + 1, y) == -sign_of(x, y),
        sign_of(x, y + 1) == -sign_of(x, y),
        sign_of(0, 0) == 1,
{
}

} // verus!
