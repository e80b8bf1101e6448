//! Grouping of a sequence into runs of equal keys, and into chunks of a fixed size.

use vstd::prelude::*;

verus! {

/// The maximal runs of consecutive items with equal keys, in order, each with its key and
/// its values (as `Itertools::chunk_by` forms them).
pub open spec fn runs<K, V>(items: Seq<(K, V)>) -> Seq<(K, Seq<V>)>
    decreases items.len(),
{
    if items.len() == 0 {
        Seq::empty()
    } else {
        let prev = runs(items.drop_last());
        let item = items.last();
        if prev.len() > 0 && prev.last().0 == item.0 {
            prev.drop_last().push((item.0, prev.last().1.push(item.1)))
        } else {
            prev.push((item.0, seq![item.1]))
        }
    }
}

/// The items in consecutive chunks of `size`, the last one possibly shorter (as
/// `Itertools::chunks` forms them).
pub open spec fn chunks<V>(items: Seq<V>, size: nat) -> Seq<Seq<V>>
    decreases items.len(),
{
    if items.len() == 0 || size == 0 {
        Seq::empty()
    } else if items.len() <= size {
        seq![items]
    } else {
        seq![items.take(size as int)] + chunks(items.skip(size as int), size)
    }
}

/// The values of `items`, in order.
pub open spec fn item_values<K, V>(items: Seq<(K, V)>) -> Seq<V> {
    items.map_values(|item: (K, V)| item.1)
}

/// The values of the runs, one after another.
pub open spec fn run_values<K, V>(groups: Seq<(K, Seq<V>)>) -> Seq<V>
    decreases groups.len(),
{
    if groups.len() == 0 {
        Seq::empty()
    } else {
        run_values(groups.drop_last()) + groups.last().1
    }
}

/// Concatenation of a sequence of sequences.
pub open spec fn flatten<V>(rows: Seq<Seq<V>>) -> Seq<V>
    decreases rows.len(),
{
    if rows.len() == 0 {
        Seq::empty()
    } else {
        flatten(rows.drop_last()) + rows.last()
    }
}

/// A run expanded back into its items.
pub open spec fn expand_run<K, V>(group: (K, Seq<V>)) -> Seq<(K, V)> {
    group.1.map_values(|v: V| (group.0, v))
}

/// The runs expanded back into items, one after another.
pub open spec fn run_items<K, V>(groups: Seq<(K, Seq<V>)>) -> Seq<(K, V)>
    decreases groups.len(),
{
    if groups.len() == 0 {
        Seq::empty()
    } else {
        run_items(groups.drop_last()) + expand_run(groups.last())
    }
}

/// Runs partition the items: expanded again, in order, they give back exactly the items,
/// so every item lies in one run and carries that run's key.
pub proof fn runs_cover_items<K, V>(items: Seq<(K, V)>)
    ensures
        run_items(runs(items)) == items,
    decreases items.len(),
{
    if items.len() > 0 {
        let prev = runs(items.drop_last());
        let item = items.last();
        runs_cover_items(items.drop_last());
        if prev.len() > 0 && prev.last().0 == item.0 {
            let merged = (item.0, prev.last().1.push(item.1));
            assert(prev.drop_last().push(merged).drop_last() =~= prev.drop_last());
            assert(expand_run(merged) =~= expand_run(prev.last()).push(item));
            assert(run_items(prev) == run_items(prev.drop_last()) + expand_run(prev.last()));
        } else {
            assert(prev.push((item.0, seq![item.1])).drop_last() =~= prev);
            assert(expand_run((item.0, seq![item.1])) =~= seq![item]);
        }
        assert(items =~= items.drop_last().push(item));
    }
}

/// Runs are maximal: none is empty and neighbouring runs have different keys.
pub proof fn runs_are_maximal<K, V>(items: Seq<(K, V)>)
    ensures
        forall|i: int| 0 <= i < runs(items).len() ==> (#[trigger] runs(items)[i]).1.len() > 0,
        forall|i: int| 0 <= i < runs(items).len() - 1 ==> (#[trigger] runs(items)[i]).0 != runs(items)[i + 1].0,
    decreases items.len(),
{
    if items.len() > 0 {
        runs_are_maximal(items.drop_last());
        let prev = runs(items.drop_last());
        let cur = runs(items);
        if prev.len() > 0 && prev.last().0 == items.last().0 {
            assert forall|i: int| 0 <= i < cur.len() - 1 implies (#[trigger] cur[i]).0 != cur[i + 1].0 by {
                assert(cur[i] == prev[i]);
                if i + 1 < cur.len() - 1 {
                    assert(cur[i + 1] == prev[i + 1]);
                } else {
                    assert(cur[i + 1].0 == prev[i + 1].0);
                }
            }
            assert forall|i: int| 0 <= i < cur.len() implies (#[trigger] cur[i]).1.len() > 0 by {
                if i < cur.len() - 1 {
                    assert(cur[i] == prev[i]);
                }
            }
        } else {
            assert forall|i: int| 0 <= i < cur.len() - 1 implies (#[trigger] cur[i]).0 != cur[i + 1].0 by {
                assert(cur[i] == prev[i]);
                if i + 1 < cur.len() - 1 {
                    assert(cur[i + 1] == prev[i + 1]);
                }
            }
            assert forall|i: int| 0 <= i < cur.len() implies (#[trigger] cur[i]).1.len() > 0 by {
                if i < cur.len() - 1 {
                    assert(cur[i] == prev[i]);
                }
            }
        }
    }
}

/// Chunks partition the items: concatenated they give back the items, none is empty or
/// longer than `size`, and all but the last have exactly `size` items.
pub proof fn chunks_cover_items<V>(items: Seq<V>, size: nat)
    requires
        size > 0,
    ensures
        flatten(chunks(items, size)) == items,
        forall|i: int| 0 <= i < chunks(items, size).len() ==> 0 < (#[trigger] chunks(items, size)[i]).len() <= size,
        forall|i: int| 0 <= i < chunks(items, size).len() - 1 ==> (#[trigger] chunks(items, size)[i]).len() == size,
    decreases items.len(),
{
    if items.len() == 0 {
    } else if items.len() <= size {
        lemma_flatten_prepend(items, Seq::empty());
        assert(seq![items] + Seq::<Seq<V>>::empty() =~= seq![items]);
        assert(items + Seq::<V>::empty() =~= items);
    } else {
        let rest = items.skip(size as int);
        chunks_cover_items(rest, size);
        lemma_flatten_prepend(items.take(size as int), chunks(rest, size));
        assert(items.take(size as int) + rest =~= items);
    }
}

/// Concatenating a row in front of rows.
pub proof fn lemma_flatten_prepend<V>(first: Seq<V>, rows: Seq<Seq<V>>)
    ensures
        flatten(seq![first] + rows) == first + flatten(rows),
    decreases rows.len(),
{
    if rows.len() == 0 {
        assert(seq![first] + rows =~= seq![first]);
        assert(seq![first].drop_last() =~= Seq::<Seq<V>>::empty());
        assert(flatten(seq![first]) == flatten(seq![first].drop_last()) + first);
        assert(Seq::<V>::empty() + first =~= first);
        assert(first + Seq::<V>::empty() =~= first);
    } else {
        lemma_flatten_prepend(first, rows.drop_last());
        assert((seq![first] + rows).drop_last() =~= seq![first] + rows.drop_last());
        assert((seq![first] + rows).last() == rows.last());
        assert(first + flatten(rows.drop_last()) + rows.last() =~= first + (flatten(rows.drop_last()) + rows.last()));
    }
}


/// Where row `r` starts in the concatenated rows: the number of items in the rows before it.
pub open spec fn row_start<V>(rows: Seq<Seq<V>>, r: int) -> int {
    flatten(rows.take(r)).len() as int
}

/// The values of each run, one row per run.
pub open spec fn run_value_rows<K, V>(groups: Seq<(K, Seq<V>)>) -> Seq<Seq<V>> {
    groups.map_values(|g: (K, Seq<V>)| g.1)
}

/// Each run expanded back into its items, one row per run.
pub open spec fn expanded_runs<K, V>(groups: Seq<(K, Seq<V>)>) -> Seq<Seq<(K, V)>> {
    groups.map_values(|g: (K, Seq<V>)| expand_run(g))
}

/// Concatenating two lists of rows concatenates their items.
pub proof fn lemma_flatten_append<V>(a: Seq<Seq<V>>, b: Seq<Seq<V>>)
    ensures
        flatten(a + b) == flatten(a) + flatten(b),
    decreases b.len(),
{
    if b.len() == 0 {
        assert(a + b =~= a);
        assert(flatten(a) + flatten(b) =~= flatten(a));
    } else {
        lemma_flatten_append(a, b.drop_last());
        assert((a + b).drop_last() =~= a + b.drop_last());
        assert((a + b).last() == b.last());
        assert(flatten(a) + flatten(b.drop_last()) + b.last() =~= flatten(a) + (flatten(b.drop_last()) + b.last()));
    }
}

/// Item `j` of row `r` stands at `row_start(rows, r) + j` in the concatenation, and the
/// next row starts right after the whole of row `r`.
pub proof fn lemma_flatten_index<V>(rows: Seq<Seq<V>>, r: int)
    requires
        0 <= r < rows.len(),
    ensures
        row_start(rows, r + 1) == row_start(rows, r) + rows[r].len(),
        row_start(rows, r + 1) <= flatten(rows).len(),
        forall|j: int| 0 <= j < rows[r].len() ==> flatten(rows)[row_start(rows, r) + j] == #[trigger] rows[r][j],
{
    let a = rows.take(r + 1);
    let b = rows.skip(r + 1);
    assert(rows =~= a + b);
    lemma_flatten_append(a, b);
    assert(a.drop_last() =~= rows.take(r));
    assert(a.last() == rows[r]);
    assert(flatten(a) == flatten(rows.take(r)) + rows[r]);
}

/// Where a row starts depends on the lengths of the rows before it alone.
pub proof fn lemma_row_start_by_lengths<A, B>(a: Seq<Seq<A>>, b: Seq<Seq<B>>, r: int)
    requires
        a.len() == b.len(),
        0 <= r <= a.len(),
        forall|i: int| 0 <= i < a.len() ==> (#[trigger] a[i]).len() == b[i].len(),
    ensures
        row_start(a, r) == row_start(b, r),
    decreases r,
{
    if r > 0 {
        lemma_row_start_by_lengths(a, b, r - 1);
        assert(a.take(r).drop_last() =~= a.take(r - 1));
        assert(b.take(r).drop_last() =~= b.take(r - 1));
        assert(a.take(r).last() == a[r - 1]);
        assert(b.take(r).last() == b[r - 1]);
    } else {
        assert(a.take(r).len() == 0);
        assert(b.take(r).len() == 0);
    }
}

/// The runs expanded back are the rows of the expanded runs, concatenated.
proof fn lemma_run_items_flatten<K, V>(groups: Seq<(K, Seq<V>)>)
    ensures
        run_items(groups) == flatten(expanded_runs(groups)),
    decreases groups.len(),
{
    if groups.len() > 0 {
        lemma_run_items_flatten(groups.drop_last());
        assert(expanded_runs(groups).drop_last() =~= expanded_runs(groups.drop_last()));
    } else {
        assert(expanded_runs(groups).len() == 0);
    }
}

/// Each item of run `r` stands, under the run's key, at its own place among the items: the
/// runs of `items` cut `items` into consecutive stretches of one key each.
pub proof fn lemma_run_positions<K, V>(items: Seq<(K, V)>, r: int)
    requires
        0 <= r < runs(items).len(),
    ensures
        row_start(run_value_rows(runs(items)), r + 1) == row_start(run_value_rows(runs(items)), r)
            + runs(items)[r].1.len(),
        row_start(run_value_rows(runs(items)), r + 1) <= items.len(),
        forall|j: int| 0 <= j < runs(items)[r].1.len() ==> items[row_start(run_value_rows(runs(items)), r) + j]
            == (runs(items)[r].0, #[trigger] runs(items)[r].1[j]),
{
    let g = runs(items);
    let e = expanded_runs(g);
    let v = run_value_rows(g);
    runs_cover_items(items);
    lemma_run_items_flatten(g);
    assert forall|i: int| 0 <= i < e.len() implies (#[trigger] e[i]).len() == v[i].len() by {
        assert(e[i] == expand_run(g[i]));
    }
    lemma_row_start_by_lengths(e, v, r);
    lemma_row_start_by_lengths(e, v, r + 1);
    lemma_flatten_index(e, r);
    assert(e[r] == expand_run(g[r]));
    assert forall|j: int| 0 <= j < g[r].1.len() implies items[row_start(v, r) + j] == (g[r].0, #[trigger] g[r].1[j]) by {
        assert(e[r][j] == (g[r].0, g[r].1[j]));
    }
}

} // verus!
