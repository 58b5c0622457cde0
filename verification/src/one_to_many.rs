//! Regrouping of flat joined rows into parents with their children.
use crate::grouping::{
    children_by_key, children_of, combined_by, compares_exactly, contribution, extractors_accept,
    group_keys, groups_view, is_grouping, keys_of, left_merge, lemma_children_of_absent_key,
    lemma_children_push, lemma_keys_push, lemma_runs_push, merged_children, observations_of,
    outcome, runs, triples_view,
};
use std::collections::HashMap;
use std::fmt::Debug;
use std::hash::Hash;
use vstd::prelude::*;
use vstd::std_specs::hash::obeys_key_model;

verus! {

/// `Vec::from_iter` on a `HashMap`: the map's consuming iterator moves every
/// entry out exactly once, in an order that the map does not promise. The
/// contract claims that much and nothing about the order: no key stands twice
/// in the list, the keys of the list are the keys of the map, and each stands
/// beside the value that the map held for it.
#[verifier::external_body]
fn into_entries<A, B>(items: HashMap<A, Vec<B>>) -> (entries: Vec<(A, Vec<B>)>)
    ensures
        obeys_key_model::<A>() ==> {
            &&& group_keys(groups_view(entries@)).no_duplicates()
            &&& group_keys(groups_view(entries@)).to_set() == items@.dom()
            &&& forall|i: int|
                0 <= i < entries@.len() ==> items@[(#[trigger] entries@[i]).0] == entries@[i].1
        },
{
    Vec::from_iter(items)
}

/// The functions that regroup flat joined rows.
pub struct OneToMany;

impl OneToMany {
    /// Groups `rows` by key, whatever their order: every key that `one` reports
    /// gets one entry, which holds the children that `many` yields for the rows
    /// of that key, in row order. A row for which `many` fails adds no child,
    /// but its key still gets its entry. The order of the entries is open.
    ///
    /// Each extractor is called once for each row, on a clone of the row.
    pub fn extract<T, A, B>(
        rows: &[T],
        one: impl Fn(T) -> A,
        many: impl Fn(T) -> Result<B, sqlx::Error>,
    ) -> (res: Vec<(A, Vec<B>)>) where
        A: From<T> + Debug + Eq + PartialEq + Hash + Clone,
        B: TryFrom<T> + Debug + Clone,
        T: Clone,

        requires
            obeys_key_model::<A>(),
            extractors_accept(rows@, one, many),
        ensures
            exists|obs: Seq<(A, Option<B>)>|
                observations_of(rows@, one, many, obs) && #[trigger] is_grouping(
                    obs,
                    groups_view(res@),
                ),
            rows@.len() == 0 ==> res@.len() == 0,
    {
        broadcast use vstd::std_specs::hash::group_hash_axioms;

        let mut items = HashMap::<A, Vec<B>>::with_capacity(500);
        let ghost mut obs: Seq<(A, Option<B>)> = Seq::empty();
        let mut i: usize = 0;
        while i < rows.len()
            invariant
                obeys_key_model::<A>(),
                extractors_accept(rows@, one, many),
                i <= rows@.len(),
                observations_of(rows@.take(i as int), one, many, obs),
                items@.dom() == keys_of(obs),
                forall|k: A|
                    items@.contains_key(k) ==> (#[trigger] items@[k])@ == children_of(obs, k),
            decreases rows@.len() - i,
        {
            let c1 = rows[i].clone();
            assert(cloned(rows@[i as int], c1));
            let a = one(c1);
            let c2 = rows[i].clone();
            assert(cloned(rows@[i as int], c2));
            let b_opt = many(c2);
            let ghost o = (a, outcome(b_opt));
            match b_opt {
                Ok(b) => {
                    let v = items.entry(a).or_insert(Vec::new());
                    v.push(b);
                },
                Err(_) => {
                    let _ = items.entry(a).or_insert(Vec::new());
                },
            }
            proof {
                lemma_keys_push(obs, o);
                if !keys_of(obs).contains(o.0) {
                    lemma_children_of_absent_key(obs, o.0);
                }
                assert forall|k: A| items@.contains_key(k) implies (#[trigger] items@[k])@
                    == children_of(obs.push(o), k) by {
                    lemma_children_push(obs, o, k);
                }
                obs = obs.push(o);
            }
            i += 1;
        }
        let res = into_entries(items);
        proof {
            let groups = groups_view(res@);
            assert forall|i: int| 0 <= i < groups.len() implies (#[trigger] groups[i]).1
                == children_of(obs, groups[i].0) by {
                assert(group_keys(groups).to_set().contains(group_keys(groups)[i]));
            }
            assert(is_grouping(obs, groups));
            if rows@.len() == 0 && groups.len() > 0 {
                assert(group_keys(groups).to_set().contains(group_keys(groups)[0]));
            }
        }
        res
    }

    /// Groups `rows` run by run, in one pass that holds one open group: every
    /// maximal block of consecutive rows with the same key gives one entry, in
    /// the order of the blocks, which holds the children that `many` yields for
    /// the rows of the block, in row order. A row without a child keeps the
    /// open group as it is where it has that group's key, and closes it and
    /// opens an empty group where it has another.
    ///
    /// Where the rows of each key stand together, this is the grouping of the
    /// rows with the keys in the order in which they first appear; where they
    /// do not, a key heads one entry for each of its blocks.
    pub fn extract_from_ordered<T, A, B>(
        rows: &[T],
        one: impl Fn(T) -> A,
        many: impl Fn(T) -> Result<B, sqlx::Error>,
    ) -> (res: Vec<(A, Vec<B>)>) where
        A: From<T> + Debug + Eq + PartialEq + Hash + Clone,
        B: TryFrom<T> + Debug + Clone,
        T: Clone,

        requires
            compares_exactly::<A>(),
            extractors_accept(rows@, one, many),
        ensures
            exists|obs: Seq<(A, Option<B>)>|
                #[trigger] observations_of(rows@, one, many, obs) && groups_view(res@) == runs(obs),
            rows@.len() == 0 ==> res@.len() == 0,
    {
        let mut items: Vec<(A, Vec<B>)> = Vec::new();
        let mut current: Option<(A, Vec<B>)> = None;
        let ghost mut obs: Seq<(A, Option<B>)> = Seq::empty();
        let mut i: usize = 0;
        while i < rows.len()
            invariant
                compares_exactly::<A>(),
                extractors_accept(rows@, one, many),
                i <= rows@.len(),
                observations_of(rows@.take(i as int), one, many, obs),
                runs(obs) == in_flight_view(items@, current),
                current is None ==> obs.len() == 0 && items@.len() == 0,
            decreases rows@.len() - i,
        {
            let c1 = rows[i].clone();
            assert(cloned(rows@[i as int], c1));
            let a = one(c1);
            let c2 = rows[i].clone();
            assert(cloned(rows@[i as int], c2));
            let b_opt = many(c2);
            let ghost o = (a, outcome(b_opt));
            proof {
                lemma_runs_push(obs, o);
            }
            match b_opt {
                Ok(b) => match current {
                    Some((curr, evts)) => {
                        if curr == a {
                            let mut v = evts;
                            v.push(b);
                            current = Some((curr, v));
                            assert(v@ =~= evts@ + contribution(o.1));
                        } else {
                            items.push((curr, evts));
                            let mut v = Vec::new();
                            v.push(b);
                            current = Some((a, v));
                        }
                    },
                    None => {
                        let mut v = Vec::new();
                        v.push(b);
                        current = Some((a, v));
                    },
                },
                Err(_) => match current {
                    Some((curr, evts)) => {
                        if curr != a {
                            items.push((curr, evts));
                            current = Some((a, Vec::new()));
                        } else {
                            current = Some((curr, evts));
                        }
                    },
                    None => {
                        current = Some((a, Vec::new()));
                    },
                },
            }
            proof {
                obs = obs.push(o);
            }
            i += 1;
        }
        assert(rows@.take(i as int) =~= rows@);
        if let Some(cur) = current {
            items.push(cur);
        }
        items
    }

    /// Rebuilds one parent from each entry of a grouping: `combinator` is
    /// applied to every pair of a key and its children, and the results come
    /// back in the order of the entries.
    pub fn combine<A, B>(values: Vec<(A, Vec<B>)>, combinator: impl Fn(A, Vec<B>) -> A) -> (res:
        Vec<A>) where A: Clone, B: Clone
        requires
            forall|i: int|
                0 <= i < values@.len() ==> call_requires(
                    combinator,
                    (#[trigger] values@[i].0, values@[i].1),
                ),
        ensures
            combined_by(values@, combinator, res@),
    {
        let mut res: Vec<A> = Vec::new();
        for x in it: values.into_iter()
            invariant
                res@.len() == it.index(),
                it.seq() == values@,
                forall|i: int|
                    0 <= i < values@.len() ==> call_requires(
                        combinator,
                        (#[trigger] values@[i].0, values@[i].1),
                    ),
                forall|i: int|
                    0 <= i < it.index() ==> call_ensures(
                        combinator,
                        (values@[i].0, values@[i].1),
                        #[trigger] res@[i],
                    ),
        {
            res.push(combinator(x.0, x.1));
        }
        res
    }

    /// Left merge of two groupings over the same keys: every entry of `first`
    /// comes back in place, with its own children and, beside them, the
    /// children that `second` holds for its key, or none where `second` lacks
    /// the key. Keys that only `second` has are dropped.
    pub fn merge_one_to_manies<A, B, C>(first: Vec<(A, Vec<B>)>, second: Vec<(A, Vec<C>)>) -> (res:
        Vec<(A, Vec<B>, Vec<C>)>) where
        A: Debug + Eq + PartialEq + Hash + Clone,
        B: Debug + Clone,
        C: Debug + Clone,

        requires
            obeys_key_model::<A>(),
        ensures
            res@.len() == first@.len(),
            triples_view(res@) == left_merge(groups_view(first@), groups_view(second@)),
    {
        broadcast use vstd::std_specs::hash::group_hash_axioms;

        let ghost firsts = groups_view(first@);
        let ghost seconds = groups_view(second@);
        let mut second_map: HashMap<A, Vec<C>> = HashMap::new();
        for e in it: second.into_iter()
            invariant
                obeys_key_model::<A>(),
                it.seq() == second@,
                seconds == groups_view(second@),
                second_map@.dom() == children_by_key(seconds.take(it.index() as int)).dom(),
                forall|k: A|
                    second_map@.contains_key(k) ==> (#[trigger] second_map@[k])@ == children_by_key(
                        seconds.take(it.index() as int),
                    )[k],
        {
            proof {
                let n = it.index() as int;
                assert(seconds.take(n + 1).drop_last() =~= seconds.take(n));
            }
            second_map.insert(e.0, e.1);
        }
        assert(seconds.take(second@.len() as int) =~= seconds);
        let ghost by_key = children_by_key(seconds);
        let mut res: Vec<(A, Vec<B>, Vec<C>)> = Vec::new();
        for e in it: first.into_iter()
            invariant
                obeys_key_model::<A>(),
                it.seq() == first@,
                firsts == groups_view(first@),
                by_key == children_by_key(seconds),
                res@.len() == it.index(),
                forall|k: A|
                    second_map@.contains_key(k) <==> by_key.contains_key(k) && !group_keys(
                        firsts.take(it.index() as int),
                    ).contains(k),
                forall|k: A|
                    second_map@.contains_key(k) ==> (#[trigger] second_map@[k])@ == by_key[k],
                forall|i: int|
                    0 <= i < it.index() ==> {
                        &&& (#[trigger] res@[i]).0 == first@[i].0
                        &&& res@[i].1 == first@[i].1
                        &&& res@[i].2@ == merged_children(firsts, seconds, i)
                    },
        {
            let ghost n = it.index() as int;
            let ghost before = second_map@;
            let c_vec = match second_map.remove(&e.0) {
                Some(found) => found,
                None => Vec::new(),
            };
            proof {
                let longer = group_keys(firsts.take(n + 1));
                let shorter = group_keys(firsts.take(n));
                assert(longer =~= shorter.push(e.0));
                assert forall|k: A|
                    second_map@.contains_key(k) <==> by_key.contains_key(k) && !longer.contains(
                        k,
                    ) by {
                    assert(before.contains_key(k) <==> by_key.contains_key(k) && !shorter.contains(
                        k,
                    ));
                    if shorter.contains(k) {
                        let j = choose|j: int| 0 <= j < shorter.len() && shorter[j] == k;
                        assert(longer[j] == k);
                    }
                    if k == e.0 {
                        assert(longer[n] == k);
                    }
                }
            }
            res.push((e.0, e.1, c_vec));
        }
        res
    }
}

/// The groups finished so far, followed by the group that is still open.
spec fn in_flight_view<A, B>(
    items: Seq<(A, Vec<B>)>,
    current: Option<(A, Vec<B>)>,
) -> Seq<(A, Seq<B>)> {
    match current {
        Some((key, children)) => groups_view(items).push((key, children@)),
        None => groups_view(items),
    }
}

} // verus!
