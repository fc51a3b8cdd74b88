use vstd::prelude::*;
use crate::models::Row;

verus! {

/// Identifiers strictly ascend along the table (rows are kept in insertion order).
pub open spec fn ids_ascending<T: Row>(s: Seq<T>) -> bool {
    forall|i: int, j: int| 0 <= i < j < s.len() ==> s[i].row_id() < s[j].row_id()
}

/// Every identifier is positive and below `next`, the next one to be handed out.
pub open spec fn ids_below<T: Row>(s: Seq<T>, next: i32) -> bool {
    forall|i: int| 0 <= i < s.len() ==> 0 < #[trigger] s[i].row_id() < next
}

/// A well-formed table: ascending identifiers under the next free one.
pub open spec fn table_wf<T: Row>(s: Seq<T>, next: i32) -> bool {
    &&& ids_ascending(s)
    &&& ids_below(s, next)
    &&& 0 < next
}

pub open spec fn has_row<T: Row>(s: Seq<T>, id: i32) -> bool {
    exists|i: int| 0 <= i < s.len() && #[trigger] s[i].row_id() == id
}

/// Position of the row with identifier `id` (meaningful when `has_row(s, id)`).
pub open spec fn row_index<T: Row>(s: Seq<T>, id: i32) -> int {
    choose|i: int| 0 <= i < s.len() && #[trigger] s[i].row_id() == id
}

/// The row with identifier `id` (meaningful when `has_row(s, id)`).
pub open spec fn row_of<T: Row>(s: Seq<T>, id: i32) -> T {
    s[row_index(s, id)]
}

/// In a table with ascending identifiers, a row's position is the only one with its identifier.
pub proof fn lemma_row_index<T: Row>(s: Seq<T>, i: int)
    requires
        ids_ascending(s),
        0 <= i < s.len(),
    ensures
        has_row(s, s[i].row_id()),
        row_index(s, s[i].row_id()) == i,
{
    let id = s[i].row_id();
    assert(has_row(s, id));
    let k = row_index(s, id);
    if k < i {
        assert(s[k].row_id() < s[i].row_id());
    } else if k > i {
        assert(s[i].row_id() < s[k].row_id());
    }
}

/// Two tables with the same identifier at every position have the same rows
/// by identifier, and the same well-formedness.
pub proof fn lemma_same_ids<T: Row>(s: Seq<T>, s2: Seq<T>)
    requires
        s.len() == s2.len(),
        forall|i: int| 0 <= i < s.len() ==> #[trigger] s[i].row_id() == s2[i].row_id(),
    ensures
        forall|id: i32| has_row(s, id) <==> has_row(s2, id),
        ids_ascending(s) ==> ids_ascending(s2),
        forall|next: i32| ids_below(s, next) ==> ids_below(s2, next),
{
    assert forall|id: i32| has_row(s, id) <==> has_row(s2, id) by {
        if has_row(s, id) {
            let i = row_index(s, id);
            assert(s2[i].row_id() == id);
        }
        if has_row(s2, id) {
            let i = row_index(s2, id);
            assert(s[i].row_id() == id);
        }
    }
    assert forall|next: i32| ids_below(s, next) implies ids_below(s2, next) by {
        assert forall|i: int| 0 <= i < s2.len() implies 0 < #[trigger] s2[i].row_id() < next by {
            assert(s[i].row_id() == s2[i].row_id());
        }
    }
    if ids_ascending(s) {
        assert forall|i: int, j: int| 0 <= i < j < s2.len() implies s2[i].row_id() < s2[j].row_id() by {
            assert(s[i].row_id() == s2[i].row_id());
            assert(s[j].row_id() == s2[j].row_id());
        }
    }
}

/// Appending a row whose identifier is the next free one keeps the table
/// well-formed under the following identifier.
pub proof fn lemma_push_row<T: Row>(s: Seq<T>, next: i32, row: T)
    requires
        table_wf(s, next),
        row.row_id() == next,
        next < i32::MAX,
    ensures
        table_wf(s.push(row), (next + 1) as i32),
        forall|id: i32| has_row(s, id) ==> has_row(s.push(row), id),
        has_row(s.push(row), next),
{
    let s2 = s.push(row);
    assert(s2[s.len() as int] == row);
    assert forall|i: int| 0 <= i < s2.len() implies 0 < #[trigger] s2[i].row_id() < next + 1 by {
        if i < s.len() {
            assert(s2[i] == s[i]);
        }
    }
    assert forall|i: int, j: int| 0 <= i < j < s2.len() implies s2[i].row_id() < s2[j].row_id() by {
        assert(s2[i] == s[i]);
        if j < s.len() {
            assert(s2[j] == s[j]);
        }
    }
    assert forall|id: i32| has_row(s, id) implies has_row(s.push(row), id) by {
        let i = row_index(s, id);
        assert(s2[i] == s[i]);
    }
}

/// Removing a row keeps the table well-formed.
pub proof fn lemma_remove_row<T: Row>(s: Seq<T>, next: i32, k: int)
    requires
        table_wf(s, next),
        0 <= k < s.len(),
    ensures
        table_wf(s.remove(k), next),
{
    let s2 = s.remove(k);
    assert forall|i: int| 0 <= i < s2.len() implies 0 < #[trigger] s2[i].row_id() < next by {
        if i < k {
            assert(s2[i] == s[i]);
        } else {
            assert(s2[i] == s[i + 1]);
        }
    }
    assert forall|i: int, j: int| 0 <= i < j < s2.len() implies s2[i].row_id() < s2[j].row_id() by {
        let a = if i < k { i } else { i + 1 };
        let b = if j < k { j } else { j + 1 };
        assert(s2[i] == s[a]);
        assert(s2[j] == s[b]);
    }
}

/// Removing the row at `k` keeps every other identifier's row.
pub proof fn lemma_remove_keeps_rows<T: Row>(s: Seq<T>, k: int)
    requires
        0 <= k < s.len(),
    ensures
        forall|id: i32| has_row(s, id) && s[k].row_id() != id ==> has_row(#[trigger] s.remove(k), id),
{
    let s2 = s.remove(k);
    assert forall|id: i32| has_row(s, id) && s[k].row_id() != id implies has_row(#[trigger] s.remove(k), id) by {
        let j = row_index(s, id);
        if j < k {
            assert(s2[j] == s[j]);
        } else {
            assert(j > k);
            assert(s2[j - 1] == s[j]);
        }
    }
}

/// Finds the position of the row with identifier `id`.
pub fn find_row<T: Row>(rows: &Vec<T>, id: i32) -> (r: Option<usize>)
    requires
        ids_ascending(rows@),
    ensures
        r is None <==> !has_row(rows@, id),
        r matches Some(i) ==> i == row_index(rows@, id) && i < rows.len()
            && rows@[i as int].row_id() == id,
{
    let mut i: usize = 0;
    while i < rows.len()
        invariant
            i <= rows.len(),
            ids_ascending(rows@),
            forall|j: int| 0 <= j < i ==> #[trigger] rows@[j].row_id() != id,
        decreases rows.len() - i,
    {
        if rows[i].id() == id {
            proof {
                lemma_row_index(rows@, i as int);
            }
            return Some(i);
        }
        i += 1;
    }
    None
}

} // verus!
