//! The rows of a board in order of their counts, the longest first.

use vstd::prelude::*;
use vstd::relations::{sorted_by, total_ordering};
use vstd::seq_lib::{
    lemma_sorted_unique, to_multiset_build, to_multiset_contains, to_multiset_insert,
    to_multiset_len,
};
use crate::nim::Row;

verus! {

/// A row's index, and the count it holds.
pub type Ranked = (usize, Row);

/// The order of the ranking: a longer row comes before a shorter one, and of
/// two rows of the same length the one with the lower index comes first.
pub open spec fn ranks_before(a: Ranked, b: Ranked) -> bool {
    a.1 > b.1 || (a.1 == b.1 && a.0 <= b.0)
}

/// `ranks_before` as a relation.
pub open spec fn by_rank() -> spec_fn(Ranked, Ranked) -> bool {
    |a: Ranked, b: Ranked| ranks_before(a, b)
}

/// The rows with their indices, in the order of the board.
pub open spec fn numbered(rows: Seq<Row>) -> Seq<Ranked> {
    Seq::new(rows.len(), |i: int| (i as usize, rows[i]))
}

/// The rows with their indices, sorted by `ranks_before`.
pub open spec fn ranking(rows: Seq<Row>) -> Seq<Ranked> {
    numbered(rows).sort_by(by_rank())
}

/// `ranks_before` orders all rows: any two compare, and only a row itself
/// compares both ways with it.
pub proof fn lemma_by_rank_is_total()
    ensures
        total_ordering(by_rank()),
{
    assert forall|x: Ranked, y: Ranked| #[trigger]
        by_rank()(x, y) && #[trigger] by_rank()(y, x) implies x == y by {
        assert(x.0 == y.0 && x.1 == y.1);
    }
}

/// The ranking lists every row of the board once, with the count it holds,
/// and no row in it is longer than one before it; of rows of the same length
/// the one with the lower index comes first.
pub proof fn lemma_ranking(rows: Seq<Row>)
    requires
        rows.len() <= usize::MAX,
    ensures
        ranking(rows).len() == rows.len(),
        forall|k: int|
            0 <= k < rows.len() ==> (#[trigger] ranking(rows)[k]).0 < rows.len() && ranking(
                rows,
            )[k].1 == rows[ranking(rows)[k].0 as int],
        forall|j: int, k: int|
            0 <= j < k < rows.len() ==> {
                let a = #[trigger] ranking(rows)[j];
                let b = #[trigger] ranking(rows)[k];
                a.1 > b.1 || (a.1 == b.1 && a.0 < b.0)
            },
        forall|i: int| 0 <= i < rows.len() ==> ranking(rows).contains(#[trigger] numbered(rows)[i]),
{
    let plain = numbered(rows);
    let order = ranking(rows);
    lemma_by_rank_is_total();
    plain.lemma_sort_by_ensures(by_rank());
    assert(order.len() == rows.len()) by {
        to_multiset_len(plain);
        to_multiset_len(order);
    }
    assert forall|k: int| 0 <= k < rows.len() implies (#[trigger] order[k]).0 < rows.len()
        && order[k].1 == rows[order[k].0 as int] by {
        assert(plain.contains(order[k])) by {
            assert(order.contains(order[k]));
            to_multiset_contains(order, order[k]);
            to_multiset_contains(plain, order[k]);
        }
        let i = choose|i: int| 0 <= i < plain.len() && plain[i] == order[k];
        assert(order[k] == (i as usize, rows[i]));
    }
    assert forall|i: int| 0 <= i < rows.len() implies order.contains(#[trigger] plain[i]) by {
        assert(plain.contains(plain[i]));
        to_multiset_contains(order, plain[i]);
        to_multiset_contains(plain, plain[i]);
    }
    assert forall|j: int, k: int| 0 <= j < k < rows.len() implies ({
        let a = #[trigger] order[j];
        let b = #[trigger] order[k];
        a.1 > b.1 || (a.1 == b.1 && a.0 < b.0)
    }) by {
        assert(by_rank()(order[j], order[k]));
        if order[j] == order[k] {
            assert(plain.no_duplicates());
            plain.lemma_multiset_has_no_duplicates();
            order.lemma_multiset_has_no_duplicates_conv();
        }
    }
}

/// Ranks the rows of a board.
pub fn rank_rows(rows: &Vec<Row>) -> (order: Vec<Ranked>)
    ensures
        order@ == ranking(rows@),
{
    let mut order: Vec<Ranked> = Vec::new();
    let mut i: usize = 0;
    assert(order@ =~= numbered(rows@).take(0));
    while i < rows.len()
        invariant
            i <= rows.len(),
            sorted_by(order@, by_rank()),
            order@.to_multiset() == numbered(rows@).take(i as int).to_multiset(),
            forall|k: int| 0 <= k < order@.len() ==> (#[trigger] order@[k]).0 < i,
        decreases rows.len() - i,
    {
        let count: Row = rows[i];
        let mut at: usize = 0;
        while at < order.len() && order[at].1 >= count
            invariant
                at <= order.len(),
                forall|k: int| 0 <= k < at ==> (#[trigger] order@[k]).1 >= count,
            decreases order.len() - at,
        {
            at += 1;
        }
        let ghost before = order@;
        order.insert(at, (i, count));
        proof {
            let entry: Ranked = (i, count);
            to_multiset_insert(before, at as int, entry);
            to_multiset_build(numbered(rows@).take(i as int), entry);
            assert(numbered(rows@).take(i as int).push(entry) =~= numbered(rows@).take(i + 1));
            assert forall|j: int, k: int| 0 <= j < k < order@.len() implies #[trigger] by_rank()(
                order@[j],
                order@[k],
            ) by {
                if j < at && k > at {
                    assert(by_rank()(before[j], before[k - 1]));
                } else if j < at && k < at {
                    assert(by_rank()(before[j], before[k]));
                } else if j > at {
                    assert(by_rank()(before[j - 1], before[k - 1]));
                } else if j == at {
                    assert(by_rank()(before[at as int], before[k - 1]));
                }
            }
        }
        i += 1;
    }
    proof {
        assert(numbered(rows@).take(i as int) =~= numbered(rows@));
        lemma_by_rank_is_total();
        numbered(rows@).lemma_sort_by_ensures(by_rank());
        lemma_sorted_unique(order@, ranking(rows@), by_rank());
    }
    order
}

} // verus!
