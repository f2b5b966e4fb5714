//! The Nim-sum of a board, and why a board whose Nim-sum is not zero always
//! has a move that brings it to zero.

use vstd::prelude::*;
use crate::nim::Row;

verus! {

/// The Nim-sum: the bitwise exclusive or of all the rows' counts.
pub open spec fn nim_sum(rows: Seq<Row>) -> Row
    decreases rows.len(),
{
    if rows.len() == 0 {
        0
    } else {
        nim_sum(rows.drop_last()) ^ rows.last()
    }
}

/// The count that row `i` must be cut down to for the Nim-sum to become zero.
pub open spec fn balanced_count(rows: Seq<Row>, i: int) -> Row {
    rows[i] ^ nim_sum(rows)
}

/// Row `i` can be cut down to its balanced count: that count is less than
/// what the row holds.
pub open spec fn can_balance(rows: Seq<Row>, i: int) -> bool {
    0 <= i < rows.len() && balanced_count(rows, i) < rows[i]
}

/// The highest bit that is set in `s`, as a mask; zero for zero.
pub open spec fn top_bit(s: Row) -> Row {
    if s >= 128 {
        128
    } else if s >= 64 {
        64
    } else if s >= 32 {
        32
    } else if s >= 16 {
        16
    } else if s >= 8 {
        8
    } else if s >= 4 {
        4
    } else if s >= 2 {
        2
    } else if s >= 1 {
        1
    } else {
        0
    }
}

/// Changing one row changes the Nim-sum by the old count and the new one.
pub proof fn lemma_nim_sum_update(rows: Seq<Row>, i: int, count: Row)
    requires
        0 <= i < rows.len(),
    ensures
        nim_sum(rows.update(i, count)) == nim_sum(rows) ^ rows[i] ^ count,
    decreases rows.len(),
{
    let changed = rows.update(i, count);
    let rest = nim_sum(rows.drop_last());
    let last = rows.last();
    if i == rows.len() - 1 {
        assert(changed.drop_last() =~= rows.drop_last());
        assert(rest ^ count == (rest ^ last) ^ last ^ count) by (bit_vector);
    } else {
        assert(changed.drop_last() =~= rows.drop_last().update(i, count));
        lemma_nim_sum_update(rows.drop_last(), i, count);
        let before = rows[i];
        assert((rest ^ before ^ count) ^ last == (rest ^ last) ^ before ^ count) by (bit_vector);
    }
}

/// Cutting a row down to its balanced count leaves a board whose Nim-sum is
/// zero.
pub proof fn lemma_balanced_count_balances(rows: Seq<Row>, i: int)
    requires
        0 <= i < rows.len(),
    ensures
        nim_sum(rows.update(i, balanced_count(rows, i))) == 0,
{
    lemma_nim_sum_update(rows, i, balanced_count(rows, i));
    let s = nim_sum(rows);
    let r = rows[i];
    assert(s ^ r ^ (r ^ s) == 0) by (bit_vector);
}

/// On a board whose Nim-sum is zero, every change of a single row leaves a
/// board whose Nim-sum is not zero.
pub proof fn lemma_balanced_board_cannot_stay_balanced(rows: Seq<Row>, i: int, count: Row)
    requires
        nim_sum(rows) == 0,
        0 <= i < rows.len(),
        count != rows[i],
    ensures
        nim_sum(rows.update(i, count)) != 0,
{
    lemma_nim_sum_update(rows, i, count);
    let before = rows[i];
    assert(0u8 ^ before ^ count != 0) by (bit_vector)
        requires
            count != before,
    ;
}

/// A bit that is set in the Nim-sum is set in some row.
proof fn lemma_bit_of_nim_sum_is_in_a_row(rows: Seq<Row>, bit: Row)
    requires
        nim_sum(rows) & bit != 0,
    ensures
        exists|i: int| 0 <= i < rows.len() && rows[i] & bit != 0,
    decreases rows.len(),
{
    if rows.len() == 0 {
        assert(0u8 & bit == 0) by (bit_vector);
    } else {
        let rest = nim_sum(rows.drop_last());
        let last = rows.last();
        if last & bit != 0 {
            assert(rows[rows.len() - 1] & bit != 0);
        } else {
            assert(rest & bit != 0) by (bit_vector)
                requires
                    (rest ^ last) & bit != 0,
                    last & bit == 0,
            ;
            lemma_bit_of_nim_sum_is_in_a_row(rows.drop_last(), bit);
            let i = choose|i: int| 0 <= i < rows.drop_last().len() && rows.drop_last()[i] & bit != 0;
            assert(rows[i] & bit != 0);
        }
    }
}

/// A board whose Nim-sum is not zero has a row that can be cut down to its
/// balanced count: any row in which the Nim-sum's highest bit is set.
pub proof fn lemma_unbalanced_board_can_be_balanced(rows: Seq<Row>)
    requires
        nim_sum(rows) != 0,
    ensures
        exists|i: int| can_balance(rows, i),
{
    let s = nim_sum(rows);
    let bit = top_bit(s);
    assert(s & bit != 0) by (bit_vector)
        requires
            s != 0,
            bit == top_bit(s),
    ;
    lemma_bit_of_nim_sum_is_in_a_row(rows, bit);
    let i = choose|i: int| 0 <= i < rows.len() && rows[i] & bit != 0;
    let r = rows[i];
    assert(r ^ s < r) by (bit_vector)
        requires
            s != 0,
            bit == top_bit(s),
            r & bit != 0,
    ;
    assert(can_balance(rows, i));
}

} // verus!
