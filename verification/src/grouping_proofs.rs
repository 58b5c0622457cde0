//! What holds of every grouping, proved over the model of `grouping`.
use crate::grouping::{
    children_by_key, children_of, combined_by, contribution, group_keys, groups_view, is_grouping,
    keys_of, left_merge, lemma_children_of_absent_key, lemma_children_push, lemma_keys_push,
    lemma_runs_push, observations_of, observes, runs,
};
use vstd::multiset::Multiset;
use vstd::prelude::*;

verus! {

/// The rows of each key stand together: between two rows of one key there is
/// no row of another key.
pub open spec fn contiguous<A, B>(obs: Seq<(A, Option<B>)>) -> bool {
    forall|i: int, j: int, k: int|
        0 <= i < j < k < obs.len() && (#[trigger] obs[i]).0 == (#[trigger] obs[k]).0
            ==> (#[trigger] obs[j]).0 == obs[i].0
}

/// The distinct keys of `obs`, each at the place of its first row.
pub open spec fn first_keys<A, B>(obs: Seq<(A, Option<B>)>) -> Seq<A>
    decreases obs.len(),
{
    if obs.len() == 0 {
        Seq::empty()
    } else {
        let before = first_keys(obs.drop_last());
        if before.contains(obs.last().0) {
            before
        } else {
            before.push(obs.last().0)
        }
    }
}

/// The grouping of `obs` whose keys stand in the order of their first rows.
pub open spec fn grouping_in_order<A, B>(obs: Seq<(A, Option<B>)>) -> Seq<(A, Seq<B>)> {
    first_keys(obs).map_values(|k: A| (k, children_of(obs, k)))
}

/// `first_keys` lists every key of `obs` once.
pub proof fn lemma_first_keys<A, B>(obs: Seq<(A, Option<B>)>)
    ensures
        first_keys(obs).no_duplicates(),
        first_keys(obs).to_set() == keys_of(obs),
    decreases obs.len(),
{
    if obs.len() > 0 {
        let rest = obs.drop_last();
        let o = obs.last();
        assert(obs =~= rest.push(o));
        lemma_first_keys(rest);
        lemma_keys_push(rest, o);
        let before = first_keys(rest);
        if !before.contains(o.0) {
            let after = before.push(o.0);
            assert forall|k: A| after.to_set().contains(k) <==> keys_of(obs).contains(k) by {
                if before.to_set().contains(k) {
                    let i = choose|i: int| 0 <= i < before.len() && before[i] == k;
                    assert(after[i] == k);
                }
                if k == o.0 {
                    assert(after[before.len() as int] == k);
                }
            }
        }
    }
}

/// The key `first` has a row before every row of the key `second`.
pub open spec fn appears_before<A, B>(obs: Seq<(A, Option<B>)>, first: A, second: A) -> bool {
    exists|i: int|
        0 <= i < obs.len() && (#[trigger] obs[i]).0 == first && forall|j: int|
            0 <= j <= i ==> (#[trigger] obs[j]).0 != second
}

/// `first_keys` lists the keys in the order in which they first appear: of
/// two keys in the list, the earlier has a row before every row of the later.
pub proof fn lemma_first_keys_order<A, B>(obs: Seq<(A, Option<B>)>)
    ensures
        forall|p: int, q: int|
            #![trigger first_keys(obs)[p], first_keys(obs)[q]]
            0 <= p < q < first_keys(obs).len() ==> appears_before(
                obs,
                first_keys(obs)[p],
                first_keys(obs)[q],
            ),
    decreases obs.len(),
{
    if obs.len() > 0 {
        let rest = obs.drop_last();
        let o = obs.last();
        let before = first_keys(rest);
        let after = first_keys(obs);
        lemma_first_keys_order(rest);
        lemma_first_keys(rest);
        assert forall|p: int, q: int|
            #![trigger after[p], after[q]]
            0 <= p < q < after.len() implies appears_before(obs, after[p], after[q]) by {
            if q < before.len() {
                // Both keys were there before: a row that shows it still does.
                let i = choose|i: int|
                    0 <= i < rest.len() && (#[trigger] rest[i]).0 == before[p] && forall|j: int|
                        0 <= j <= i ==> (#[trigger] rest[j]).0 != before[q];
                assert(obs[i] == rest[i]);
                assert forall|j: int| 0 <= j <= i implies (#[trigger] obs[j]).0 != after[q] by {
                    assert(obs[j] == rest[j]);
                }
            } else {
                // The later key is new: any row of the earlier key comes first.
                let ks = rest.map_values(|x: (A, Option<B>)| x.0);
                assert(before.to_set().contains(before[p]));
                let i = choose|i: int| 0 <= i < ks.len() && ks[i] == before[p];
                assert(obs[i] == rest[i]);
                assert forall|j: int| 0 <= j <= i implies (#[trigger] obs[j]).0 != after[q] by {
                    assert(obs[j] == rest[j]);
                    if rest[j].0 == o.0 {
                        assert(ks[j] == o.0);
                        assert(before.to_set().contains(o.0));
                    }
                }
            }
        }
    }
}

/// The grouping in order of first appearance is a grouping.
pub proof fn lemma_grouping_in_order<A, B>(obs: Seq<(A, Option<B>)>)
    ensures
        is_grouping(obs, grouping_in_order(obs)),
{
    lemma_first_keys(obs);
    assert(group_keys(grouping_in_order(obs)) =~= first_keys(obs));
}

/// The last group of the run-length grouping has the key of the last row.
pub proof fn lemma_runs_last<A, B>(obs: Seq<(A, Option<B>)>)
    requires
        obs.len() > 0,
    ensures
        runs(obs).len() > 0,
        runs(obs).last().0 == obs.last().0,
{
    lemma_runs_push(obs.drop_last(), obs.last());
}

/// Where the rows of each key stand together, the run-length grouping is the
/// grouping of the rows: its keys stand in the order in which they first
/// appear, each once, and each group holds the children of its key in row
/// order.
pub proof fn lemma_runs_of_contiguous<A, B>(obs: Seq<(A, Option<B>)>)
    requires
        contiguous(obs),
    ensures
        runs(obs) == grouping_in_order(obs),
        is_grouping(obs, runs(obs)),
    decreases obs.len(),
{
    lemma_grouping_in_order(obs);
    if obs.len() > 0 {
        let rest = obs.drop_last();
        let o = obs.last();
        assert(contiguous(rest)) by {
            assert forall|i: int, j: int, k: int|
                0 <= i < j < k < rest.len() && (#[trigger] rest[i]).0 == (#[trigger] rest[k]).0
                    implies (#[trigger] rest[j]).0 == rest[i].0 by {
                assert(obs[i] == rest[i] && obs[j] == rest[j] && obs[k] == rest[k]);
            }
        }
        lemma_runs_of_contiguous(rest);
        lemma_runs_push(rest, o);
        lemma_first_keys(rest);
        lemma_first_keys(obs);
        assert forall|k: A| #![auto] true implies children_of(obs, k) == if o.0 == k {
            children_of(rest, k) + contribution(o.1)
        } else {
            children_of(rest, k)
        } by {
            lemma_children_push(rest, o, k);
        }
        if rest.len() > 0 {
            lemma_runs_last(rest);
        }
        if rest.len() == 0 || rest.last().0 != o.0 {
            // The row opens a run, so its key is new: a row of that key further
            // up would have a row of another key between itself and this one.
            if keys_of(rest).contains(o.0) {
                let ks = rest.map_values(|x: (A, Option<B>)| x.0);
                let i = choose|i: int| 0 <= i < ks.len() && ks[i] == o.0;
                assert(obs[i] == rest[i]);
                assert(obs[rest.len() - 1] == rest.last());
            }
            lemma_children_of_absent_key(rest, o.0);
        }
    }
}

/// A grouping has exactly one entry for each distinct key of the rows: as many
/// entries as there are keys, an entry for every key, and no key twice.
pub proof fn lemma_one_entry_per_key<A, B>(obs: Seq<(A, Option<B>)>, groups: Seq<(A, Seq<B>)>)
    requires
        is_grouping(obs, groups),
    ensures
        keys_of(obs).finite(),
        groups.len() == keys_of(obs).len(),
        forall|k: A|
            keys_of(obs).contains(k) ==> exists|i: int|
                0 <= i < groups.len() && (#[trigger] groups[i]).0 == k,
        forall|i: int, j: int|
            0 <= i < groups.len() && 0 <= j < groups.len() && (#[trigger] groups[i]).0 == (
            #[trigger] groups[j]).0 ==> i == j,
{
    let keys = group_keys(groups);
    keys.unique_seq_to_set();
    vstd::seq_lib::seq_to_set_is_finite(keys);
    assert forall|k: A| keys_of(obs).contains(k) implies exists|i: int|
        0 <= i < groups.len() && (#[trigger] groups[i]).0 == k by {
        let i = choose|i: int| 0 <= i < keys.len() && keys[i] == k;
        assert(groups[i].0 == k);
    }
    assert forall|i: int, j: int|
        0 <= i < groups.len() && 0 <= j < groups.len() && (#[trigger] groups[i]).0 == (
        #[trigger] groups[j]).0 implies i == j by {
        assert(keys[i] == keys[j]);
    }
}

/// The number of children in all groups together.
pub open spec fn total_children<A, B>(groups: Seq<(A, Seq<B>)>) -> nat
    decreases groups.len(),
{
    if groups.len() == 0 {
        0
    } else {
        total_children(groups.drop_last()) + groups.last().1.len()
    }
}

/// The number of rows that yield a child.
pub open spec fn present_count<A, B>(obs: Seq<(A, Option<B>)>) -> nat {
    obs.filter(|o: (A, Option<B>)| o.1 is Some).len()
}

/// The number of children that `obs` holds under the keys listed in `keys`.
pub open spec fn children_under<A, B>(obs: Seq<(A, Option<B>)>, keys: Seq<A>) -> nat
    decreases keys.len(),
{
    if keys.len() == 0 {
        0
    } else {
        children_under(obs, keys.drop_last()) + children_of(obs, keys.last()).len()
    }
}

proof fn lemma_children_under_push<A, B>(obs: Seq<(A, Option<B>)>, o: (A, Option<B>), keys: Seq<A>)
    requires
        keys.no_duplicates(),
    ensures
        children_under(obs.push(o), keys) == children_under(obs, keys) + if keys.contains(o.0)
            && o.1 is Some {
            1nat
        } else {
            0nat
        },
    decreases keys.len(),
{
    if keys.len() > 0 {
        let rest = keys.drop_last();
        let k = keys.last();
        lemma_children_under_push(obs, o, rest);
        lemma_children_push(obs, o, k);
        if rest.contains(o.0) {
            let i = choose|i: int| 0 <= i < rest.len() && rest[i] == o.0;
            assert(keys[i] == o.0);
        }
        if keys.contains(o.0) && k != o.0 {
            let i = choose|i: int| 0 <= i < keys.len() && keys[i] == o.0;
            assert(rest[i] == o.0);
        }
    }
}

proof fn lemma_children_under_all_keys<A, B>(obs: Seq<(A, Option<B>)>, keys: Seq<A>)
    requires
        keys.no_duplicates(),
        keys_of(obs).subset_of(keys.to_set()),
    ensures
        children_under(obs, keys) == present_count(obs),
    decreases obs.len(),
{
    let present = |o: (A, Option<B>)| o.1 is Some;
    if obs.len() == 0 {
        assert(children_under(obs, keys) == 0) by {
            lemma_children_under_empty::<A, B>(obs, keys);
        }
        assert(obs.filter(present).len() == 0) by {
            reveal(Seq::filter);
        }
    } else {
        let rest = obs.drop_last();
        let o = obs.last();
        assert(obs =~= rest.push(o));
        lemma_keys_push(rest, o);
        lemma_children_under_all_keys(rest, keys);
        lemma_children_under_push(rest, o, keys);
        rest.lemma_filter_len_push(present, o);
        assert(keys.to_set().contains(o.0));
    }
}

proof fn lemma_children_under_empty<A, B>(obs: Seq<(A, Option<B>)>, keys: Seq<A>)
    requires
        obs.len() == 0,
    ensures
        children_under(obs, keys) == 0,
    decreases keys.len(),
{
    if keys.len() > 0 {
        lemma_children_under_empty(obs, keys.drop_last());
    }
}

proof fn lemma_total_children_under<A, B>(obs: Seq<(A, Option<B>)>, groups: Seq<(A, Seq<B>)>)
    requires
        forall|i: int|
            0 <= i < groups.len() ==> (#[trigger] groups[i]).1 == children_of(obs, groups[i].0),
    ensures
        total_children(groups) == children_under(obs, group_keys(groups)),
    decreases groups.len(),
{
    if groups.len() > 0 {
        let rest = groups.drop_last();
        assert forall|i: int| 0 <= i < rest.len() implies (#[trigger] rest[i]).1 == children_of(
            obs,
            rest[i].0,
        ) by {
            assert(rest[i] == groups[i]);
        }
        lemma_total_children_under(obs, rest);
        assert(group_keys(groups).drop_last() =~= group_keys(rest));
    }
}

/// The groups of a grouping hold, all together, as many children as there are
/// rows that yield one.
pub proof fn lemma_children_total<A, B>(obs: Seq<(A, Option<B>)>, groups: Seq<(A, Seq<B>)>)
    requires
        is_grouping(obs, groups),
    ensures
        total_children(groups) == present_count(obs),
{
    lemma_total_children_under(obs, groups);
    lemma_children_under_all_keys(obs, group_keys(groups));
}

/// Whether or not the rows of each key stand together, the run-length
/// grouping passes over nothing: its keys are the keys of the rows, and its
/// groups hold, all together, as many children as there are rows that yield
/// one.
pub proof fn lemma_runs_keep_all<A, B>(obs: Seq<(A, Option<B>)>)
    ensures
        group_keys(runs(obs)).to_set() == keys_of(obs),
        total_children(runs(obs)) == present_count(obs),
    decreases obs.len(),
{
    let present = |o: (A, Option<B>)| o.1 is Some;
    if obs.len() == 0 {
        assert(group_keys(runs(obs)).to_set() =~= keys_of(obs));
        assert(obs.filter(present).len() == 0) by {
            reveal(Seq::filter);
        }
    } else {
        let rest = obs.drop_last();
        let o = obs.last();
        let before = runs(rest);
        let after = runs(obs);
        assert(obs =~= rest.push(o));
        lemma_runs_keep_all(rest);
        lemma_runs_push(rest, o);
        lemma_keys_push(rest, o);
        rest.lemma_filter_len_push(present, o);
        assert(after.drop_last() =~= if before.len() > 0 && before.last().0 == o.0 {
            before.drop_last()
        } else {
            before
        });
        assert forall|k: A|
            group_keys(after).to_set().contains(k) <==> group_keys(before).to_set().insert(
                o.0,
            ).contains(k) by {
            let (longer, shorter) = (group_keys(after), group_keys(before));
            if longer.contains(k) {
                let i = choose|i: int| 0 <= i < longer.len() && longer[i] == k;
                if i < after.len() - 1 {
                    assert(shorter[i] == k);
                }
            }
            if shorter.contains(k) {
                let i = choose|i: int| 0 <= i < shorter.len() && shorter[i] == k;
                if i < after.len() - 1 {
                    assert(longer[i] == k);
                }
            }
            assert(longer[after.len() - 1] == o.0);
        }
        assert(group_keys(after).to_set() =~= keys_of(obs));
    }
}

/// A child occurs among the children of a key as often as the row made of
/// that key and that child occurs among the rows.
pub proof fn lemma_children_count<A, B>(obs: Seq<(A, Option<B>)>, key: A, child: B)
    ensures
        children_of(obs, key).to_multiset().count(child) == obs.to_multiset().count(
            (key, Some(child)),
        ),
    decreases obs.len(),
{
    broadcast use vstd::multiset::group_multiset_axioms;

    if obs.len() == 0 {
        assert(obs.to_multiset().len() == 0) by {
            vstd::seq_lib::to_multiset_len(obs);
        }
        assert(children_of(obs, key).to_multiset().len() == 0) by {
            vstd::seq_lib::to_multiset_len(children_of(obs, key));
        }
    } else {
        let rest = obs.drop_last();
        let o = obs.last();
        assert(obs =~= rest.push(o));
        lemma_children_count(rest, key, child);
        lemma_children_push(rest, o, key);
        vstd::seq_lib::to_multiset_build(rest, o);
        if o.0 == key {
            if let Some(b) = o.1 {
                assert(children_of(obs, key) =~= children_of(rest, key).push(b));
                vstd::seq_lib::to_multiset_build(children_of(rest, key), b);
            }
        }
    }
}

/// Groupings do not depend on the order of the rows: two groupings of the
/// same rows, taken in any two orders, have the same number of entries and the
/// same keys, and under each key the same children up to their order.
pub proof fn lemma_grouping_ignores_row_order<A, B>(
    obs1: Seq<(A, Option<B>)>,
    obs2: Seq<(A, Option<B>)>,
    groups1: Seq<(A, Seq<B>)>,
    groups2: Seq<(A, Seq<B>)>,
)
    requires
        obs1.to_multiset() == obs2.to_multiset(),
        is_grouping(obs1, groups1),
        is_grouping(obs2, groups2),
    ensures
        groups1.len() == groups2.len(),
        group_keys(groups1).to_set() == group_keys(groups2).to_set(),
        forall|i: int, j: int|
            0 <= i < groups1.len() && 0 <= j < groups2.len() && (#[trigger] groups1[i]).0 == (
            #[trigger] groups2[j]).0 ==> groups1[i].1.to_multiset() == groups2[j].1.to_multiset(),
{
    lemma_keys_ignore_row_order(obs1, obs2);
    lemma_keys_ignore_row_order(obs2, obs1);
    assert(keys_of(obs1) =~= keys_of(obs2));
    lemma_one_entry_per_key(obs1, groups1);
    lemma_one_entry_per_key(obs2, groups2);
    assert forall|i: int, j: int|
        0 <= i < groups1.len() && 0 <= j < groups2.len() && (#[trigger] groups1[i]).0 == (
        #[trigger] groups2[j]).0 implies groups1[i].1.to_multiset() == groups2[j].1.to_multiset() by {
        let key = groups1[i].0;
        assert forall|b: B|
            children_of(obs1, key).to_multiset().count(b) == children_of(
                obs2,
                key,
            ).to_multiset().count(b) by {
            lemma_children_count(obs1, key, b);
            lemma_children_count(obs2, key, b);
        }
    }
}

proof fn lemma_keys_ignore_row_order<A, B>(obs1: Seq<(A, Option<B>)>, obs2: Seq<(A, Option<B>)>)
    requires
        obs1.to_multiset() == obs2.to_multiset(),
    ensures
        keys_of(obs1).subset_of(keys_of(obs2)),
{
    let f = |o: (A, Option<B>)| o.0;
    assert forall|k: A| keys_of(obs1).contains(k) implies keys_of(obs2).contains(k) by {
        let i = choose|i: int| 0 <= i < obs1.map_values(f).len() && obs1.map_values(f)[i] == k;
        let o = obs1[i];
        vstd::seq_lib::to_multiset_contains(obs1, o);
        vstd::seq_lib::to_multiset_contains(obs2, o);
        let j = choose|j: int| 0 <= j < obs2.len() && obs2[j] == o;
        assert(obs2.map_values(f)[j] == k);
    }
}

/// The extractors are pure on `rows`: whatever clone of a row they are handed
/// and however often, they can report one observation only for the row.
pub open spec fn single_valued<
    T: Clone,
    A,
    B,
    F: Fn(T) -> A,
    G: Fn(T) -> Result<B, sqlx::Error>,
>(rows: Seq<T>, one: F, many: G) -> bool {
    forall|i: int, o1: (A, Option<B>), o2: (A, Option<B>)|
        0 <= i < rows.len() && #[trigger] observes(one, many, rows[i], o1) && #[trigger] observes(
            one,
            many,
            rows[i],
            o2,
        ) ==> o1 == o2
}

/// With pure extractors, the same rows in another order give the same
/// observations in another order.
pub proof fn lemma_observations_follow_rows<
    T: Clone,
    A,
    B,
    F: Fn(T) -> A,
    G: Fn(T) -> Result<B, sqlx::Error>,
>(
    rows1: Seq<T>,
    rows2: Seq<T>,
    one: F,
    many: G,
    obs1: Seq<(A, Option<B>)>,
    obs2: Seq<(A, Option<B>)>,
)
    requires
        single_valued(rows1, one, many),
        rows1.to_multiset() == rows2.to_multiset(),
        observations_of(rows1, one, many, obs1),
        observations_of(rows2, one, many, obs2),
    ensures
        obs1.to_multiset() == obs2.to_multiset(),
    decreases rows1.len(),
{
    broadcast use vstd::multiset::group_multiset_axioms;

    vstd::seq_lib::to_multiset_len(rows1);
    vstd::seq_lib::to_multiset_len(rows2);
    if rows1.len() == 0 {
        assert(obs1 =~= obs2);
    } else {
        let n = rows1.len() - 1;
        let row = rows1[n];
        assert(rows1.contains(row));
        vstd::seq_lib::to_multiset_contains(rows1, row);
        vstd::seq_lib::to_multiset_contains(rows2, row);
        let j = choose|j: int| 0 <= j < rows2.len() && rows2[j] == row;
        let (rest1, seen1) = (rows1.remove(n), obs1.remove(n));
        let (rest2, seen2) = (rows2.remove(j), obs2.remove(j));
        vstd::seq_lib::to_multiset_remove(rows1, n);
        vstd::seq_lib::to_multiset_remove(rows2, j);
        vstd::seq_lib::to_multiset_remove(obs1, n);
        vstd::seq_lib::to_multiset_remove(obs2, j);
        assert(single_valued(rest1, one, many)) by {
            assert forall|i: int, o1: (A, Option<B>), o2: (A, Option<B>)|
                0 <= i < rest1.len() && #[trigger] observes(one, many, rest1[i], o1)
                    && #[trigger] observes(one, many, rest1[i], o2) implies o1 == o2 by {
                assert(rest1[i] == rows1[i]);
            }
        }
        assert(observations_of(rest1, one, many, seen1)) by {
            assert forall|i: int| 0 <= i < rest1.len() implies observes(
                one,
                many,
                rest1[i],
                #[trigger] seen1[i],
            ) by {
                assert(rest1[i] == rows1[i] && seen1[i] == obs1[i]);
            }
        }
        assert(observations_of(rest2, one, many, seen2)) by {
            assert forall|i: int| 0 <= i < rest2.len() implies observes(
                one,
                many,
                rest2[i],
                #[trigger] seen2[i],
            ) by {
                let k = if i < j {
                    i
                } else {
                    i + 1
                };
                assert(rest2[i] == rows2[k] && seen2[i] == obs2[k]);
            }
        }
        lemma_observations_follow_rows(rest1, rest2, one, many, seen1, seen2);
        assert(obs1[n] == obs2[j]) by {
            assert(observes(one, many, rows1[n], obs1[n]));
            assert(observes(one, many, rows2[j], obs2[j]));
        }
        assert(obs1.contains(obs1[n]) && obs2.contains(obs2[j]));
        vstd::seq_lib::to_multiset_contains(obs1, obs1[n]);
        vstd::seq_lib::to_multiset_contains(obs2, obs2[j]);
        let y = obs1[n];
        assert forall|v: (A, Option<B>)|
            obs1.to_multiset().count(v) == obs2.to_multiset().count(v) by {
            assert(seen1.to_multiset().count(v) == obs1.to_multiset().remove(y).count(v));
            assert(seen2.to_multiset().count(v) == obs2.to_multiset().remove(y).count(v));
            assert(Multiset::singleton(y).count(v) == if v == y {
                1nat
            } else {
                0nat
            });
        }
        assert(obs1.to_multiset() =~= obs2.to_multiset());
    }
}

/// With pure extractors, grouping does not depend on the order of the rows:
/// the groupings of two lists that hold the same rows have the same number of
/// entries and the same keys, and under each key the same children up to
/// their order.
pub proof fn lemma_extraction_ignores_row_order<
    T: Clone,
    A,
    B,
    F: Fn(T) -> A,
    G: Fn(T) -> Result<B, sqlx::Error>,
>(
    rows1: Seq<T>,
    rows2: Seq<T>,
    one: F,
    many: G,
    obs1: Seq<(A, Option<B>)>,
    obs2: Seq<(A, Option<B>)>,
    groups1: Seq<(A, Seq<B>)>,
    groups2: Seq<(A, Seq<B>)>,
)
    requires
        single_valued(rows1, one, many),
        rows1.to_multiset() == rows2.to_multiset(),
        observations_of(rows1, one, many, obs1),
        observations_of(rows2, one, many, obs2),
        is_grouping(obs1, groups1),
        is_grouping(obs2, groups2),
    ensures
        groups1.len() == groups2.len(),
        group_keys(groups1).to_set() == group_keys(groups2).to_set(),
        forall|i: int, j: int|
            0 <= i < groups1.len() && 0 <= j < groups2.len() && (#[trigger] groups1[i]).0 == (
            #[trigger] groups2[j]).0 ==> groups1[i].1.to_multiset() == groups2[j].1.to_multiset(),
{
    lemma_observations_follow_rows(rows1, rows2, one, many, obs1, obs2);
    lemma_grouping_ignores_row_order(obs1, obs2, groups1, groups2);
}

/// Combining a grouping gives as many parents as the rows have distinct keys.
pub proof fn lemma_combine_keeps_count<A, B, F: Fn(A, Vec<B>) -> A>(
    obs: Seq<(A, Option<B>)>,
    values: Seq<(A, Vec<B>)>,
    combinator: F,
    combined: Seq<A>,
)
    requires
        is_grouping(obs, groups_view(values)),
        combined_by(values, combinator, combined),
    ensures
        keys_of(obs).finite(),
        combined.len() == keys_of(obs).len(),
{
    lemma_one_entry_per_key(obs, groups_view(values));
}

/// The keys under which `children_by_key` finds children are the keys of the
/// list, and where no key occurs twice it finds under each key the children
/// of the entry with that key.
pub proof fn lemma_children_by_key<A, C>(groups: Seq<(A, Seq<C>)>)
    ensures
        forall|k: A| children_by_key(groups).contains_key(k) <==> group_keys(groups).contains(k),
        group_keys(groups).no_duplicates() ==> forall|j: int|
            0 <= j < groups.len() ==> children_by_key(groups)[(#[trigger] groups[j]).0]
                == groups[j].1,
    decreases groups.len(),
{
    if groups.len() > 0 {
        let rest = groups.drop_last();
        let last = groups.last();
        let keys = group_keys(groups);
        lemma_children_by_key(rest);
        assert(group_keys(rest) =~= keys.drop_last());
        assert(keys[keys.len() - 1] == last.0);
        assert forall|k: A| children_by_key(groups).contains_key(k) <==> keys.contains(k) by {
            if group_keys(rest).contains(k) {
                let j = choose|j: int| 0 <= j < rest.len() && group_keys(rest)[j] == k;
                assert(keys[j] == k);
            }
            if keys.contains(k) && k != last.0 {
                let j = choose|j: int| 0 <= j < keys.len() && keys[j] == k;
                assert(group_keys(rest)[j] == k);
            }
        }
        if keys.no_duplicates() {
            assert forall|j: int| 0 <= j < groups.len() implies children_by_key(groups)[(
            #[trigger] groups[j]).0] == groups[j].1 by {
                if j < rest.len() {
                    assert(rest[j] == groups[j]);
                    assert(keys[j] != keys[keys.len() - 1]);
                }
            }
        }
    }
}

/// The left merge of two groupings keeps every entry of the first in place
/// and puts beside it the children that the second holds for the same key,
/// or none where the second lacks the key. No key of the second alone heads
/// an entry.
pub proof fn lemma_left_merge_of_groupings<A, B, C>(
    first: Seq<(A, Seq<B>)>,
    second: Seq<(A, Seq<C>)>,
)
    requires
        group_keys(first).no_duplicates(),
        group_keys(second).no_duplicates(),
    ensures
        left_merge(first, second).len() == first.len(),
        forall|i: int|
            0 <= i < first.len() ==> (#[trigger] left_merge(first, second)[i]).0 == first[i].0
                && left_merge(first, second)[i].1 == first[i].1,
        forall|i: int, j: int|
            0 <= i < first.len() && 0 <= j < second.len() && (#[trigger] first[i]).0 == (
            #[trigger] second[j]).0 ==> left_merge(first, second)[i].2 == second[j].1,
        forall|i: int|
            0 <= i < first.len() && !group_keys(second).contains((#[trigger] first[i]).0)
                ==> left_merge(first, second)[i].2 == Seq::<C>::empty(),
{
    lemma_children_by_key(second);
    assert forall|i: int| 0 <= i < first.len() implies !group_keys(first.take(i)).contains(
        (#[trigger] first[i]).0,
    ) by {
        let earlier = group_keys(first.take(i));
        if earlier.contains(first[i].0) {
            let p = choose|p: int| 0 <= p < earlier.len() && earlier[p] == first[i].0;
            assert(group_keys(first)[p] == group_keys(first)[i]);
        }
    }
    assert forall|i: int, j: int|
        0 <= i < first.len() && 0 <= j < second.len() && (#[trigger] first[i]).0 == (
        #[trigger] second[j]).0 implies left_merge(first, second)[i].2 == second[j].1 by {
        assert(group_keys(second)[j] == first[i].0);
        assert(group_keys(second).contains(first[i].0));
    }
}

} // verus!
