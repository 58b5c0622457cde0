//! The mathematical model of one-to-many grouping.
//!
//! A flat result set is modelled as a sequence of observations, one per row:
//! the parent key of the row and the child the row yields, if it yields one.
//! Everything the grouping functions promise is stated over these sequences.
use vstd::prelude::*;
use vstd::std_specs::cmp::PartialEqSpec;

verus! {

/// `sqlx::Error`, the error that a child extractor returns where a row has
/// no child. Nothing is read from it: only its presence counts.
#[verifier::external_type_specification]
#[verifier::external_body]
pub struct ExSqlxError(sqlx::Error);

/// The child carried by an extraction result: `Ok` is a child, any error means
/// that the row has no child.
pub open spec fn outcome<B>(r: Result<B, sqlx::Error>) -> Option<B> {
    match r {
        Ok(b) => Some(b),
        Err(_) => None,
    }
}

/// `o` is what the extractors may report for `row`: each extractor is handed a
/// clone of the row, `one` gives the key and `many` the child or its absence.
pub open spec fn observes<T: Clone, A, B, F: Fn(T) -> A, G: Fn(T) -> Result<B, sqlx::Error>>(
    one: F,
    many: G,
    row: T,
    o: (A, Option<B>),
) -> bool {
    &&& exists|c: T| #[trigger] cloned(row, c) && call_ensures(one, (c,), o.0)
    &&& exists|c: T, r: Result<B, sqlx::Error>|
        #[trigger] cloned(row, c) && #[trigger] call_ensures(many, (c,), r) && o.1 == outcome(r)
}

/// `obs` holds one observation for each row of `rows`, in row order.
pub open spec fn observations_of<
    T: Clone,
    A,
    B,
    F: Fn(T) -> A,
    G: Fn(T) -> Result<B, sqlx::Error>,
>(rows: Seq<T>, one: F, many: G, obs: Seq<(A, Option<B>)>) -> bool {
    &&& obs.len() == rows.len()
    &&& forall|i: int| 0 <= i < rows.len() ==> observes(one, many, rows[i], #[trigger] obs[i])
}

/// Both extractors accept every clone of every row.
pub open spec fn extractors_accept<
    T: Clone,
    A,
    B,
    F: Fn(T) -> A,
    G: Fn(T) -> Result<B, sqlx::Error>,
>(rows: Seq<T>, one: F, many: G) -> bool {
    forall|i: int, c: T|
        0 <= i < rows.len() && #[trigger] cloned(rows[i], c) ==> call_requires(one, (c,))
            && call_requires(many, (c,))
}

/// The `==` of `A` in compiled code is equality: it answers `true` exactly on
/// equal values. Grouping by comparison needs this of its keys.
pub open spec fn compares_exactly<A: PartialEq>() -> bool {
    &&& A::obeys_eq_spec()
    &&& forall|x: A, y: A| #[trigger] x.eq_spec(&y) <==> x == y
}

/// The distinct keys that occur in `obs`.
pub open spec fn keys_of<A, B>(obs: Seq<(A, Option<B>)>) -> Set<A> {
    obs.map_values(|o: (A, Option<B>)| o.0).to_set()
}

/// The children that the rows with key `key` yield, in row order.
pub open spec fn children_of<A, B>(obs: Seq<(A, Option<B>)>, key: A) -> Seq<B> {
    obs.filter_map(
        |o: (A, Option<B>)|
            if o.0 == key {
                o.1
            } else {
                None
            },
    )
}

/// The keys of a list of groups, in list order.
pub open spec fn group_keys<A, B>(groups: Seq<(A, Seq<B>)>) -> Seq<A> {
    groups.map_values(|g: (A, Seq<B>)| g.0)
}

/// `groups` is a grouping of `obs`: every key of `obs` heads exactly one group,
/// no other key heads a group, and each group holds the children of its key in
/// row order. The order of the groups is left open.
pub open spec fn is_grouping<A, B>(obs: Seq<(A, Option<B>)>, groups: Seq<(A, Seq<B>)>) -> bool {
    &&& group_keys(groups).no_duplicates()
    &&& group_keys(groups).to_set() == keys_of(obs)
    &&& forall|i: int|
        0 <= i < groups.len() ==> (#[trigger] groups[i]).1 == children_of(obs, groups[i].0)
}

/// The children that one observation contributes: one or none.
pub open spec fn contribution<B>(child: Option<B>) -> Seq<B> {
    match child {
        Some(b) => seq![b],
        None => Seq::empty(),
    }
}

/// The run-length grouping of `obs`: one group for each maximal block of
/// consecutive observations with the same key, in block order, holding the
/// children of that block in row order.
pub open spec fn runs<A, B>(obs: Seq<(A, Option<B>)>) -> Seq<(A, Seq<B>)>
    decreases obs.len(),
{
    if obs.len() == 0 {
        Seq::empty()
    } else {
        let before = runs(obs.drop_last());
        let (key, child) = obs.last();
        if before.len() > 0 && before.last().0 == key {
            before.drop_last().push((key, before.last().1 + contribution(child)))
        } else {
            before.push((key, contribution(child)))
        }
    }
}

/// The children found under each key of `groups`. Where a key heads several
/// entries, the last of them counts.
pub open spec fn children_by_key<A, C>(groups: Seq<(A, Seq<C>)>) -> Map<A, Seq<C>>
    decreases groups.len(),
{
    if groups.len() == 0 {
        Map::empty()
    } else {
        children_by_key(groups.drop_last()).insert(groups.last().0, groups.last().1)
    }
}

/// What a left merge puts beside entry `i` of `first`: the children that
/// `second` holds for the key of that entry. There are none where `second`
/// lacks the key, and none where an earlier entry of `first` has the same key
/// and so has taken them already.
pub open spec fn merged_children<A, B, C>(
    first: Seq<(A, Seq<B>)>,
    second: Seq<(A, Seq<C>)>,
    i: int,
) -> Seq<C> {
    let key = first[i].0;
    if children_by_key(second).contains_key(key) && !group_keys(first.take(i)).contains(key) {
        children_by_key(second)[key]
    } else {
        Seq::empty()
    }
}

/// The left merge of two lists of groups: the entries of `first`, in place,
/// each with the children that `second` holds for its key.
pub open spec fn left_merge<A, B, C>(first: Seq<(A, Seq<B>)>, second: Seq<(A, Seq<C>)>) -> Seq<
    (A, Seq<B>, Seq<C>),
> {
    Seq::new(first.len(), |i: int| (first[i].0, first[i].1, merged_children(first, second, i)))
}

/// `combined` holds, for each entry of `values` in order, a result of
/// `combinator` on the key and the children of that entry.
pub open spec fn combined_by<A, B, F: Fn(A, Vec<B>) -> A>(
    values: Seq<(A, Vec<B>)>,
    combinator: F,
    combined: Seq<A>,
) -> bool {
    &&& combined.len() == values.len()
    &&& forall|i: int|
        0 <= i < values.len() ==> call_ensures(
            combinator,
            (values[i].0, values[i].1),
            #[trigger] combined[i],
        )
}

/// The view of a list of merged groups as it is held in memory.
pub open spec fn triples_view<A, B, C>(triples: Seq<(A, Vec<B>, Vec<C>)>) -> Seq<
    (A, Seq<B>, Seq<C>),
> {
    triples.map_values(|t: (A, Vec<B>, Vec<C>)| (t.0, t.1@, t.2@))
}

/// The view of a list of groups as it is held in memory.
pub open spec fn groups_view<A, B>(groups: Seq<(A, Vec<B>)>) -> Seq<(A, Seq<B>)> {
    groups.map_values(|g: (A, Vec<B>)| (g.0, g.1@))
}

/// Adding an observation adds its key to the key set.
pub proof fn lemma_keys_push<A, B>(obs: Seq<(A, Option<B>)>, o: (A, Option<B>))
    ensures
        keys_of(obs.push(o)) == keys_of(obs).insert(o.0),
{
    let f = |o: (A, Option<B>)| o.0;
    let before = obs.map_values(f);
    let after = obs.push(o).map_values(f);
    assert forall|k: A| after.to_set().contains(k) <==> before.to_set().insert(o.0).contains(
        k,
    ) by {
        if after.contains(k) {
            let i = choose|i: int| 0 <= i < after.len() && after[i] == k;
            if i < before.len() {
                assert(before[i] == k);
            }
        }
        if before.contains(k) {
            let i = choose|i: int| 0 <= i < before.len() && before[i] == k;
            assert(after[i] == k);
        }
        if k == o.0 {
            assert(after[before.len() as int] == k);
        }
    }
}

/// Adding an observation extends the children of its own key by what it
/// contributes and leaves the children of every other key as they were.
pub proof fn lemma_children_push<A, B>(obs: Seq<(A, Option<B>)>, o: (A, Option<B>), key: A)
    ensures
        children_of(obs.push(o), key) == if o.0 == key {
            children_of(obs, key) + contribution(o.1)
        } else {
            children_of(obs, key)
        },
{
    assert(obs.push(o).drop_last() =~= obs);
}

/// How one more observation changes the run-length grouping: it joins the
/// last group if it has that group's key, and opens a new group otherwise.
pub proof fn lemma_runs_push<A, B>(obs: Seq<(A, Option<B>)>, o: (A, Option<B>))
    ensures
        runs(obs.push(o)) == if runs(obs).len() > 0 && runs(obs).last().0 == o.0 {
            runs(obs).drop_last().push((o.0, runs(obs).last().1 + contribution(o.1)))
        } else {
            runs(obs).push((o.0, contribution(o.1)))
        },
{
    assert(obs.push(o).drop_last() =~= obs);
}

/// A key that does not occur has no children.
pub proof fn lemma_children_of_absent_key<A, B>(obs: Seq<(A, Option<B>)>, key: A)
    requires
        !keys_of(obs).contains(key),
    ensures
        children_of(obs, key) == Seq::<B>::empty(),
    decreases obs.len(),
{
    if obs.len() > 0 {
        let rest = obs.drop_last();
        assert(obs =~= rest.push(obs.last()));
        lemma_keys_push(rest, obs.last());
        lemma_children_push(rest, obs.last(), key);
        lemma_children_of_absent_key(rest, key);
    }
}

} // verus!
