//! Looking rows up in a table.
//!
//! A table is a sequence of rows. A row is found by scanning from the front:
//! where two rows carry the key that is looked for, the first one counts.

use vstd::prelude::*;

verus! {

/// The position of the first row for which `hit` holds.
pub open spec fn first_index<T>(rows: Seq<T>, hit: spec_fn(T) -> bool) -> Option<int>
    decreases rows.len(),
{
    if rows.len() == 0 {
        None
    } else {
        match first_index(rows.drop_last(), hit) {
            Some(i) => Some(i),
            None => if hit(rows.last()) {
                Some(rows.len() - 1)
            } else {
                None
            },
        }
    }
}

/// What `first_index` finds is a row for which `hit` holds, and no row
/// before it is one; where it finds nothing, no row is one.
pub proof fn lemma_first_index<T>(rows: Seq<T>, hit: spec_fn(T) -> bool)
    ensures
        match first_index(rows, hit) {
            Some(i) => 0 <= i < rows.len() && hit(rows[i]) && forall|j: int|
                0 <= j < i ==> !hit(#[trigger] rows[j]),
            None => forall|j: int| 0 <= j < rows.len() ==> !hit(#[trigger] rows[j]),
        },
    decreases rows.len(),
{
    if rows.len() > 0 {
        let init = rows.drop_last();
        lemma_first_index(init, hit);
        assert(forall|j: int| 0 <= j < init.len() ==> init[j] == rows[j]);
    }
}

/// The first row for which `hit` holds is what `first_index` finds.
pub proof fn lemma_first_index_is<T>(rows: Seq<T>, hit: spec_fn(T) -> bool, i: int)
    requires
        0 <= i < rows.len(),
        hit(rows[i]),
        forall|j: int| 0 <= j < i ==> !hit(#[trigger] rows[j]),
    ensures
        first_index(rows, hit) == Some(i),
{
    lemma_first_index(rows, hit);
}

/// Where no row is one for which `hit` holds, `first_index` finds nothing.
pub proof fn lemma_first_index_none<T>(rows: Seq<T>, hit: spec_fn(T) -> bool)
    requires
        forall|j: int| 0 <= j < rows.len() ==> !hit(#[trigger] rows[j]),
    ensures
        first_index(rows, hit) is None,
{
    lemma_first_index(rows, hit);
}

/// A row added at the end is found only where none was found before.
pub proof fn lemma_first_index_push<T>(rows: Seq<T>, hit: spec_fn(T) -> bool, row: T)
    ensures
        first_index(rows.push(row), hit) == match first_index(rows, hit) {
            Some(i) => Some(i),
            None => if hit(row) {
                Some(rows.len() as int)
            } else {
                None
            },
        },
{
    assert(rows.push(row).drop_last() =~= rows);
}

/// Replacing a row by one that `hit` judges alike changes nothing.
pub proof fn lemma_first_index_update<T>(rows: Seq<T>, hit: spec_fn(T) -> bool, at: int, row: T)
    requires
        0 <= at < rows.len(),
        hit(row) == hit(rows[at]),
    ensures
        first_index(rows.update(at, row), hit) == first_index(rows, hit),
{
    let after = rows.update(at, row);
    lemma_first_index(rows, hit);
    lemma_first_index(after, hit);
    match first_index(rows, hit) {
        Some(i) => {
            assert(hit(after[i]));
            assert forall|j: int| 0 <= j < i implies !hit(#[trigger] after[j]) by {
                assert(!hit(rows[j]));
            }
            lemma_first_index_is(after, hit, i);
        },
        None => {
            assert forall|j: int| 0 <= j < after.len() implies !hit(#[trigger] after[j]) by {
                assert(!hit(rows[j]));
            }
            lemma_first_index_none(after, hit);
        },
    }
}

/// Taking out a row for which `hit` does not hold leaves the row that is
/// found the same, one place further to the front where it stood behind the
/// row that was taken out.
pub proof fn lemma_first_index_remove<T>(rows: Seq<T>, hit: spec_fn(T) -> bool, at: int)
    requires
        0 <= at < rows.len(),
        !hit(rows[at]),
    ensures
        first_index(rows.remove(at), hit) == match first_index(rows, hit) {
            Some(i) => Some(
                if i < at {
                    i
                } else {
                    i - 1
                },
            ),
            None => None,
        },
        first_index(rows, hit) matches Some(i) ==> rows.remove(at)[if i < at {
            i
        } else {
            i - 1
        }] == rows[i],
{
    let after = rows.remove(at);
    lemma_first_index(rows, hit);
    assert forall|j: int| 0 <= j < after.len() implies after[j] == rows[if j < at {
        j
    } else {
        j + 1
    }] by {}
    match first_index(rows, hit) {
        Some(i) => {
            let k = if i < at {
                i
            } else {
                i - 1
            };
            assert(after[k] == rows[i]);
            assert forall|j: int| 0 <= j < k implies !hit(#[trigger] after[j]) by {
                assert(!hit(rows[if j < at {
                    j
                } else {
                    j + 1
                }]));
            }
            lemma_first_index_is(after, hit, k);
        },
        None => {
            assert forall|j: int| 0 <= j < after.len() implies !hit(#[trigger] after[j]) by {
                assert(!hit(rows[if j < at {
                    j
                } else {
                    j + 1
                }]));
            }
            lemma_first_index_none(after, hit);
        },
    }
}

/// Whether `hit` holds of no more than one row.
pub open spec fn at_most_one<T>(rows: Seq<T>, hit: spec_fn(T) -> bool) -> bool {
    forall|i: int, j: int|
        0 <= i < rows.len() && 0 <= j < rows.len() && hit(#[trigger] rows[i]) && hit(
            #[trigger] rows[j],
        ) ==> i == j
}

/// Where `hit` holds of no more than one row, a row of which it holds is
/// the one that is found.
pub proof fn lemma_only_row_is_found<T>(rows: Seq<T>, hit: spec_fn(T) -> bool, i: int)
    requires
        at_most_one(rows, hit),
        0 <= i < rows.len(),
        hit(rows[i]),
    ensures
        first_index(rows, hit) == Some(i),
{
    lemma_first_index(rows, hit);
}

/// Where `hit` holds of no more than one row, nothing is found once the row
/// that was found is taken out.
pub proof fn lemma_found_row_removed<T>(rows: Seq<T>, hit: spec_fn(T) -> bool)
    requires
        at_most_one(rows, hit),
        first_index(rows, hit) is Some,
    ensures
        first_index(rows.remove(first_index(rows, hit)->0), hit) is None,
{
    let at = first_index(rows, hit)->0;
    let after = rows.remove(at);
    lemma_first_index(rows, hit);
    assert forall|j: int| 0 <= j < after.len() implies !hit(#[trigger] after[j]) by {
        let k = if j < at {
            j
        } else {
            j + 1
        };
        assert(after[j] == rows[k]);
        if hit(rows[k]) {
            assert(k == at);
        }
    }
    lemma_first_index_none(after, hit);
}

/// Whether no two rows have the same key.
pub open spec fn distinct_by<T, K>(rows: Seq<T>, key: spec_fn(T) -> K) -> bool {
    forall|i: int, j: int|
        0 <= i < rows.len() && 0 <= j < rows.len() && key(#[trigger] rows[i]) == key(
            #[trigger] rows[j],
        ) ==> i == j
}

/// Taking a row out leaves the keys distinct.
pub proof fn lemma_distinct_remove<T, K>(rows: Seq<T>, key: spec_fn(T) -> K, at: int)
    requires
        distinct_by(rows, key),
        0 <= at < rows.len(),
    ensures
        distinct_by(rows.remove(at), key),
{
    let after = rows.remove(at);
    assert forall|i: int, j: int|
        0 <= i < after.len() && 0 <= j < after.len() && key(#[trigger] after[i]) == key(
            #[trigger] after[j],
        ) implies i == j by {
        let a = if i < at {
            i
        } else {
            i + 1
        };
        let b = if j < at {
            j
        } else {
            j + 1
        };
        assert(after[i] == rows[a] && after[j] == rows[b]);
    }
}

/// Replacing a row by one of the same key leaves the keys distinct.
pub proof fn lemma_distinct_update<T, K>(rows: Seq<T>, key: spec_fn(T) -> K, at: int, row: T)
    requires
        distinct_by(rows, key),
        0 <= at < rows.len(),
        key(row) == key(rows[at]),
    ensures
        distinct_by(rows.update(at, row), key),
{
    let after = rows.update(at, row);
    assert forall|i: int, j: int|
        0 <= i < after.len() && 0 <= j < after.len() && key(#[trigger] after[i]) == key(
            #[trigger] after[j],
        ) implies i == j by {
        assert(key(after[i]) == key(rows[i]) && key(after[j]) == key(rows[j]));
    }
}

/// Adding a row whose key no row has leaves the keys distinct.
pub proof fn lemma_distinct_push<T, K>(rows: Seq<T>, key: spec_fn(T) -> K, row: T)
    requires
        distinct_by(rows, key),
        forall|i: int| 0 <= i < rows.len() ==> key(#[trigger] rows[i]) != key(row),
    ensures
        distinct_by(rows.push(row), key),
{
    let after = rows.push(row);
    assert forall|i: int, j: int|
        0 <= i < after.len() && 0 <= j < after.len() && key(#[trigger] after[i]) == key(
            #[trigger] after[j],
        ) implies i == j by {
        if i < rows.len() {
            assert(after[i] == rows[i]);
        }
        if j < rows.len() {
            assert(after[j] == rows[j]);
        }
    }
}

} // verus!
