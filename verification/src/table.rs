//! Two notions that every table of the cache is described with: the first
//! row that meets a condition, and the rows that meet a condition.

use vstd::prelude::*;

verus! {

/// The first position at or after `from` whose row meets `wanted`, or the
/// number of rows if none does.
pub open spec fn first_where<T>(rows: Seq<T>, wanted: spec_fn(T) -> bool, from: int) -> int
    decreases rows.len() - from,
{
    if from >= rows.len() || from < 0 {
        rows.len() as int
    } else if wanted(rows[from]) {
        from
    } else {
        first_where(rows, wanted, from + 1)
    }
}

/// Whether some row meets `wanted`.
pub open spec fn any_where<T>(rows: Seq<T>, wanted: spec_fn(T) -> bool) -> bool {
    first_where(rows, wanted, 0) < rows.len()
}

/// What `first_where` returns: a position in range, a row that meets the
/// condition there if it is inside the table, and none before it.
pub proof fn lemma_first_where<T>(rows: Seq<T>, wanted: spec_fn(T) -> bool, from: int)
    requires
        0 <= from <= rows.len(),
    ensures
        from <= first_where(rows, wanted, from) <= rows.len(),
        first_where(rows, wanted, from) < rows.len() ==> wanted(
            rows[first_where(rows, wanted, from)],
        ),
        forall|k: int| from <= k < first_where(rows, wanted, from) ==> !wanted(#[trigger] rows[k]),
    decreases rows.len() - from,
{
    if from < rows.len() && !wanted(rows[from]) {
        lemma_first_where(rows, wanted, from + 1);
    }
}

/// A row that meets the condition shows that some row does.
pub proof fn lemma_any_where<T>(rows: Seq<T>, wanted: spec_fn(T) -> bool, at: int)
    requires
        0 <= at < rows.len(),
        wanted(rows[at]),
    ensures
        any_where(rows, wanted),
        first_where(rows, wanted, 0) <= at,
{
    lemma_first_where(rows, wanted, 0);
}

/// Two tables whose rows meet a condition at the same positions have their
/// first such row at the same position.
pub proof fn lemma_first_where_alike<T>(
    a: Seq<T>,
    b: Seq<T>,
    wanted: spec_fn(T) -> bool,
    from: int,
)
    requires
        a.len() == b.len(),
        0 <= from,
        forall|i: int| 0 <= i < a.len() ==> wanted(#[trigger] a[i]) == wanted(b[i]),
    ensures
        first_where(a, wanted, from) == first_where(b, wanted, from),
    decreases a.len() - from,
{
    if from < a.len() {
        assert(wanted(a[from]) == wanted(b[from]));
        if !wanted(a[from]) {
            lemma_first_where_alike(a, b, wanted, from + 1);
        }
    }
}

/// The rows that meet `wanted`, in their order.
pub open spec fn kept<T>(rows: Seq<T>, wanted: spec_fn(T) -> bool) -> Seq<T>
    decreases rows.len(),
{
    if rows.len() == 0 {
        Seq::empty()
    } else {
        let before = kept(rows.drop_last(), wanted);
        if wanted(rows.last()) {
            before.push(rows.last())
        } else {
            before
        }
    }
}

/// The kept rows after one more row was looked at.
pub proof fn lemma_kept_step<T>(rows: Seq<T>, wanted: spec_fn(T) -> bool, upto: int)
    requires
        0 <= upto < rows.len(),
    ensures
        kept(rows.take(upto + 1), wanted) == if wanted(rows[upto]) {
            kept(rows.take(upto), wanted).push(rows[upto])
        } else {
            kept(rows.take(upto), wanted)
        },
{
    assert(rows.take(upto + 1).drop_last() =~= rows.take(upto));
    assert(rows.take(upto + 1).last() == rows[upto]);
}

/// Every kept row is a row of the table that meets the condition, and every
/// such row of the table is kept.
pub proof fn lemma_kept<T>(rows: Seq<T>, wanted: spec_fn(T) -> bool)
    ensures
        kept(rows, wanted).len() <= rows.len(),
        forall|k: int|
            0 <= k < kept(rows, wanted).len() ==> wanted(#[trigger] kept(rows, wanted)[k])
                && rows.contains(kept(rows, wanted)[k]),
        forall|i: int|
            0 <= i < rows.len() && wanted(#[trigger] rows[i]) ==> kept(rows, wanted).contains(
                rows[i],
            ),
    decreases rows.len(),
{
    if rows.len() > 0 {
        let front = rows.drop_last();
        lemma_kept(front, wanted);
        let before = kept(front, wanted);
        let now = kept(rows, wanted);
        assert forall|k: int| 0 <= k < now.len() implies wanted(#[trigger] now[k])
            && rows.contains(now[k]) by {
            if k < before.len() {
                assert(now[k] == before[k]);
                assert(front.contains(before[k]));
                let j = choose|j: int| 0 <= j < front.len() && front[j] == before[k];
                assert(rows[j] == now[k]);
            } else {
                assert(rows[rows.len() - 1] == now[k]);
            }
        }
        assert forall|i: int| 0 <= i < rows.len() && wanted(#[trigger] rows[i]) implies now.contains(
            rows[i],
        ) by {
            if i < rows.len() - 1 {
                assert(front[i] == rows[i]);
                assert(before.contains(front[i]));
                let j = choose|j: int| 0 <= j < before.len() && before[j] == rows[i];
                assert(now[j] == rows[i]);
            } else {
                assert(now[now.len() - 1] == rows[i]);
            }
        }
    }
}

/// Whether no two rows are related by `same`.
pub open spec fn all_differ<T>(rows: Seq<T>, same: spec_fn(T, T) -> bool) -> bool {
    forall|i: int, j: int| 0 <= i < j < rows.len() ==> !same(#[trigger] rows[i], #[trigger] rows[j])
}

/// Keeping some rows of a table in which no two rows are related leaves a
/// table in which no two rows are related.
pub proof fn lemma_kept_differ<T>(rows: Seq<T>, wanted: spec_fn(T) -> bool, same: spec_fn(T, T) -> bool)
    requires
        all_differ(rows, same),
    ensures
        all_differ(kept(rows, wanted), same),
    decreases rows.len(),
{
    if rows.len() > 0 {
        let front = rows.drop_last();
        assert forall|i: int, j: int| 0 <= i < j < front.len() implies !same(
            #[trigger] front[i],
            #[trigger] front[j],
        ) by {
            assert(!same(rows[i], rows[j]));
        }
        lemma_kept_differ(front, wanted, same);
        lemma_kept(front, wanted);
        let before = kept(front, wanted);
        let now = kept(rows, wanted);
        assert forall|i: int, j: int| 0 <= i < j < now.len() implies !same(
            #[trigger] now[i],
            #[trigger] now[j],
        ) by {
            if j < before.len() {
                assert(!same(before[i], before[j]));
            } else {
                assert(front.contains(before[i]));
                let k = choose|k: int| 0 <= k < front.len() && front[k] == before[i];
                assert(!same(rows[k], rows[rows.len() - 1]));
            }
        }
    }
}

} // verus!
