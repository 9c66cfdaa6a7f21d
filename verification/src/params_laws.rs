//! Laws of a module's parameters: what becomes of each when they are flattened.

use vstd::prelude::*;

use crate::params::{
    all_inserted, distinct_keys, flat_view, flattened, inserted, law_insert_keeps_keys_distinct,
    law_insert_sets_just_one_key, law_well_named_parameters_have_their_own_paths, leaves,
    value_leaves, values_of, well_named, NestedView,
};

verus! {

/// The names lead through the submodules, one by one, to a parameter, which is this array.
pub open spec fn leads<A>(
    entries: Seq<(Seq<char>, NestedView<A>)>,
    names: Seq<Seq<char>>,
    array: A,
) -> bool
    decreases names.len(),
{
    &&& names.len() > 0
    &&& exists|i: int|
        {
            &&& 0 <= i < entries.len()
            &&& (#[trigger] entries[i]).0 == names[0]
            &&& match entries[i].1 {
                NestedView::Value(value) => names.len() == 1 && value == array,
                NestedView::Nested(nested) => leads(nested, names.drop_first(), array),
            }
        }
}

/// The names with a dot between each and the next.
pub open spec fn joined(names: Seq<Seq<char>>) -> Seq<char>
    decreases names.len(),
{
    if names.len() == 0 {
        Seq::empty()
    } else if names.len() == 1 {
        names[0]
    } else {
        names[0] + seq!['.'] + joined(names.drop_first())
    }
}

/// The number of parameters of a value.
pub open spec fn parameters_of<A>(value: NestedView<A>) -> nat
    decreases value,
{
    match value {
        NestedView::Value(_) => 1,
        NestedView::Nested(entries) => parameters(entries),
    }
}

/// The number of parameters of a module, those of its submodules included.
pub open spec fn parameters<A>(entries: Seq<(Seq<char>, NestedView<A>)>) -> nat
    decreases entries,
{
    if entries.len() == 0 {
        0
    } else {
        parameters(entries.drop_last()) + parameters_of(entries.last().1)
    }
}

proof fn lemma_leaves_of_an_entry<A>(
    entries: Seq<(Seq<char>, NestedView<A>)>,
    prefix: Seq<char>,
    i: int,
    leaf: (Seq<char>, A),
)
    requires
        0 <= i < entries.len(),
        value_leaves(entries[i].1, prefix + entries[i].0).contains(leaf),
    ensures
        leaves(entries, prefix).contains(leaf),
    decreases entries.len(),
{
    let before = leaves(entries.drop_last(), prefix);
    let added = value_leaves(entries.last().1, prefix + entries.last().0);
    let all = leaves(entries, prefix);
    assert(all == before + added);
    if i == entries.len() - 1 {
        let k = choose|k: int| 0 <= k < added.len() && added[k] == leaf;
        assert(all[before.len() + k] == leaf);
    } else {
        lemma_leaves_of_an_entry(entries.drop_last(), prefix, i, leaf);
        let k = choose|k: int| 0 <= k < before.len() && before[k] == leaf;
        assert(all[k] == leaf);
    }
}

proof fn lemma_names_lead_to_a_leaf<A>(
    entries: Seq<(Seq<char>, NestedView<A>)>,
    prefix: Seq<char>,
    names: Seq<Seq<char>>,
    array: A,
)
    requires
        leads(entries, names, array),
    ensures
        leaves(entries, prefix).contains((prefix + joined(names), array)),
    decreases names.len(),
{
    let i = choose|i: int|
        {
            &&& 0 <= i < entries.len()
            &&& (#[trigger] entries[i]).0 == names[0]
            &&& match entries[i].1 {
                NestedView::Value(value) => names.len() == 1 && value == array,
                NestedView::Nested(nested) => leads(nested, names.drop_first(), array),
            }
        };
    let path = prefix + names[0];
    let leaf = (prefix + joined(names), array);
    match entries[i].1 {
        NestedView::Value(_) => {
            assert(value_leaves(entries[i].1, path)[0] == leaf);
        },
        NestedView::Nested(nested) => {
            let rest = names.drop_first();
            assert(rest.len() > 0);
            lemma_names_lead_to_a_leaf(nested, path.push('.'), rest, array);
            assert(path.push('.') + joined(rest) =~= leaf.0);
        },
    }
    lemma_leaves_of_an_entry(entries, prefix, i, leaf);
}

proof fn lemma_value_leaf_is_led_to<A>(value: NestedView<A>, path: Seq<char>, k: int) -> (names:
    Seq<Seq<char>>)
    requires
        0 <= k < value_leaves(value, path).len(),
    ensures
        ({
            let (leaf, array) = value_leaves(value, path)[k];
            match value {
                NestedView::Value(found) => {
                    &&& names.len() == 0
                    &&& array == found
                    &&& leaf == path
                },
                NestedView::Nested(nested) => {
                    &&& leads(nested, names, array)
                    &&& leaf == path + seq!['.'] + joined(names)
                },
            }
        }),
    decreases value,
{
    match value {
        NestedView::Value(_) => Seq::empty(),
        NestedView::Nested(nested) => {
            let names = lemma_leaf_is_led_to(nested, path.push('.'), k);
            assert(path.push('.') + joined(names) =~= path + seq!['.'] + joined(names));
            names
        },
    }
}

proof fn lemma_leaf_is_led_to<A>(
    entries: Seq<(Seq<char>, NestedView<A>)>,
    prefix: Seq<char>,
    k: int,
) -> (names: Seq<Seq<char>>)
    requires
        0 <= k < leaves(entries, prefix).len(),
    ensures
        leads(entries, names, leaves(entries, prefix)[k].1),
        leaves(entries, prefix)[k].0 == prefix + joined(names),
    decreases entries,
{
    let rest = entries.drop_last();
    let before = leaves(rest, prefix);
    let (key, value) = entries.last();
    let array = leaves(entries, prefix)[k].1;
    if k < before.len() {
        let names = lemma_leaf_is_led_to(rest, prefix, k);
        let i = choose|i: int|
            {
                &&& 0 <= i < rest.len()
                &&& (#[trigger] rest[i]).0 == names[0]
                &&& match rest[i].1 {
                    NestedView::Value(value) => names.len() == 1 && value == array,
                    NestedView::Nested(nested) => leads(nested, names.drop_first(), array),
                }
            };
        assert(entries[i] == rest[i]);
        names
    } else {
        let below = lemma_value_leaf_is_led_to(value, prefix + key, k - before.len());
        let names = seq![key] + below;
        assert(names.drop_first() =~= below);
        assert(entries[entries.len() - 1] == entries.last());
        assert(prefix + joined(names) =~= if below.len() == 0 {
            prefix + key
        } else {
            prefix + key + seq!['.'] + joined(below)
        });
        names
    }
}

proof fn lemma_number_of_value_leaves<A>(value: NestedView<A>, path: Seq<char>)
    ensures
        value_leaves(value, path).len() == parameters_of(value),
    decreases value,
{
    if let NestedView::Nested(nested) = value {
        lemma_number_of_leaves(nested, path.push('.'));
    }
}

proof fn lemma_number_of_leaves<A>(
    entries: Seq<(Seq<char>, NestedView<A>)>,
    prefix: Seq<char>,
)
    ensures
        leaves(entries, prefix).len() == parameters(entries),
    decreases entries,
{
    if entries.len() > 0 {
        lemma_number_of_leaves(entries.drop_last(), prefix);
        lemma_number_of_value_leaves(entries.last().1, prefix + entries.last().0);
    }
}

/// Each parameter of a module, however deep in its submodules, is among its leaves, under the path
/// that joins the names which lead to it. There are as many leaves as parameters, and names lead
/// to each of them.
pub proof fn law_leaves_are_what_names_lead_to<A>(
    params: Seq<(Seq<char>, NestedView<A>)>,
    names: Seq<Seq<char>>,
    array: A,
    k: int,
)
    ensures
        leads(params, names, array) ==> exists|i: int|
            0 <= i < leaves(params, Seq::empty()).len() && #[trigger] leaves(
                params,
                Seq::empty(),
            )[i] == (joined(names), array),
        leaves(params, Seq::empty()).len() == parameters(params),
        0 <= k < leaves(params, Seq::empty()).len() ==> exists|found: Seq<Seq<char>>|
            {
                &&& #[trigger] leads(params, found, leaves(params, Seq::empty())[k].1)
                &&& leaves(params, Seq::empty())[k].0 == joined(found)
            },
{
    let empty = Seq::<char>::empty();
    if leads(params, names, array) {
        lemma_names_lead_to_a_leaf(params, empty, names, array);
        assert(empty + joined(names) =~= joined(names));
    }
    lemma_number_of_leaves(params, empty);
    if 0 <= k < leaves(params, empty).len() {
        let found = lemma_leaf_is_led_to(params, empty, k);
        assert(empty + joined(found) =~= joined(found));
    }
}

/// No later leaf has the path of this one.
pub open spec fn last_of_its_path<A>(leaves: Seq<(Seq<char>, A)>, k: int) -> bool {
    &&& 0 <= k < leaves.len()
    &&& forall|j: int| k < j < leaves.len() ==> (#[trigger] leaves[j]).0 != leaves[k].0
}

/// The entry is the last leaf of its path.
pub open spec fn is_a_last_leaf<A>(leaves: Seq<(Seq<char>, A)>, entry: (Seq<char>, A)) -> bool {
    exists|k: int| #[trigger] last_of_its_path(leaves, k) && leaves[k] == entry
}

proof fn lemma_last_of_a_path<A>(leaves: Seq<(Seq<char>, A)>, k: int) -> (last: int)
    requires
        0 <= k < leaves.len(),
    ensures
        last_of_its_path(leaves, last),
        leaves[last].0 == leaves[k].0,
    decreases leaves.len() - k,
{
    if exists|j: int| k < j < leaves.len() && (#[trigger] leaves[j]).0 == leaves[k].0 {
        let j = choose|j: int| k < j < leaves.len() && (#[trigger] leaves[j]).0 == leaves[k].0;
        lemma_last_of_a_path(leaves, j)
    } else {
        k
    }
}

proof fn lemma_all_inserted_are_the_last<A>(leaves: Seq<(Seq<char>, A)>)
    ensures
        distinct_keys(all_inserted(Seq::empty(), leaves)),
        forall|k: int| #[trigger]
            last_of_its_path(leaves, k) ==> all_inserted(Seq::empty(), leaves).contains(leaves[k]),
        forall|i: int|
            0 <= i < all_inserted(Seq::empty(), leaves).len() ==> is_a_last_leaf(
                leaves,
                #[trigger] all_inserted(Seq::empty(), leaves)[i],
            ),
    decreases leaves.len(),
{
    let after = all_inserted(Seq::empty(), leaves);
    if leaves.len() > 0 {
        let n = leaves.len() - 1;
        let rest = leaves.drop_last();
        let before = all_inserted(Seq::empty(), rest);
        let (key, value) = leaves.last();
        lemma_all_inserted_are_the_last(rest);
        law_insert_keeps_keys_distinct(before, key, value);
        law_insert_sets_just_one_key(before, key, value);
        assert(after == inserted(before, key, value));
        assert(leaves[n] == (key, value));
        assert forall|k: int| #[trigger] last_of_its_path(leaves, k) implies after.contains(
            leaves[k],
        ) by {
            if k == n {
                if exists|i: int| 0 <= i < before.len() && (#[trigger] before[i]).0 == key {
                    let i = choose|i: int| 0 <= i < before.len() && (#[trigger] before[i]).0 == key;
                    assert(after[i] == (key, value));
                } else {
                    assert(after[before.len() as int] == (key, value));
                }
            } else {
                assert(leaves[n].0 != leaves[k].0);
                assert forall|j: int| k < j < rest.len() implies (#[trigger] rest[j]).0
                    != rest[k].0 by {
                    assert(leaves[j].0 != leaves[k].0);
                }
                assert(last_of_its_path(rest, k));
                let j = choose|j: int| 0 <= j < before.len() && before[j] == rest[k];
                assert(after[j] == before[j]);
            }
        }
        assert forall|i: int| 0 <= i < after.len() implies is_a_last_leaf(
            leaves,
            #[trigger] after[i],
        ) by {
            if i < before.len() && before[i].0 != key {
                assert(after[i] == before[i]);
                assert(is_a_last_leaf(rest, before[i]));
                let k = choose|k: int| #[trigger]
                    last_of_its_path(rest, k) && rest[k] == before[i];
                assert forall|j: int| k < j < leaves.len() implies (#[trigger] leaves[j]).0
                    != leaves[k].0 by {
                    if j < n {
                        assert(rest[j].0 != rest[k].0);
                    }
                }
                assert(last_of_its_path(leaves, k));
            } else {
                assert(after[i] == (key, value));
                assert(last_of_its_path(leaves, n));
            }
        }
    }
}

/// The flattened parameters are just the last leaves of each path: each of these is among them, and
/// each of them is one of these.
pub proof fn law_flattened_are_the_last_of_each_path<A>(
    params: Seq<(Seq<char>, NestedView<A>)>,
    k: int,
)
    ensures
        last_of_its_path(leaves(params, Seq::empty()), k) ==> flattened(params).contains(
            leaves(params, Seq::empty())[k],
        ),
        0 <= k < flattened(params).len() ==> is_a_last_leaf(
            leaves(params, Seq::empty()),
            flattened(params)[k],
        ),
{
    lemma_all_inserted_are_the_last(leaves(params, Seq::empty()));
}

/// Whatever the names are: where names lead to a parameter, the path that joins them is among those
/// of the flattened parameters, and names that its path joins lead to each flattened parameter.
pub proof fn law_flattened_are_what_names_lead_to<A>(
    params: Seq<(Seq<char>, NestedView<A>)>,
    names: Seq<Seq<char>>,
    array: A,
    k: int,
)
    ensures
        leads(params, names, array) ==> exists|i: int|
            0 <= i < flattened(params).len() && (#[trigger] flattened(params)[i]).0 == joined(
                names,
            ),
        0 <= k < flattened(params).len() ==> exists|found: Seq<Seq<char>>|
            {
                &&& #[trigger] leads(params, found, flattened(params)[k].1)
                &&& flattened(params)[k].0 == joined(found)
            },
{
    let all = leaves(params, Seq::empty());
    let flat = flattened(params);
    lemma_all_inserted_are_the_last(all);
    if leads(params, names, array) {
        law_leaves_are_what_names_lead_to(params, names, array, 0);
        let i = choose|i: int| 0 <= i < all.len() && #[trigger] all[i] == (joined(names), array);
        let last = lemma_last_of_a_path(all, i);
        let j = choose|j: int| 0 <= j < flat.len() && flat[j] == all[last];
        assert(flat[j].0 == joined(names));
    }
    if 0 <= k < flat.len() {
        assert(is_a_last_leaf(all, flat[k]));
        let i = choose|i: int| #[trigger] last_of_its_path(all, i) && all[i] == flat[k];
        law_leaves_are_what_names_lead_to(params, names, array, i);
    }
}

/// Where no two siblings have one name and no name holds the delimiter, flattening finds every
/// parameter that names lead to, under the path that joins them, and as many as there are.
pub proof fn law_flatten_finds_what_names_lead_to<A>(
    params: Seq<(Seq<char>, NestedView<A>)>,
    names: Seq<Seq<char>>,
    array: A,
)
    requires
        well_named(params),
        leads(params, names, array),
    ensures
        flattened(params).len() == parameters(params),
        flattened(params).contains((joined(names), array)),
        values_of(flattened(params)).len() == parameters(params),
        values_of(flattened(params)).contains(array),
{
    law_well_named_parameters_have_their_own_paths(params);
    law_leaves_are_what_names_lead_to(params, names, array, 0);
    let flat = flattened(params);
    let i = choose|i: int| 0 <= i < flat.len() && #[trigger] flat[i] == (joined(names), array);
    law_values_are_those_of_the_entries(flat, i);
}

/// Entries have one value each, and the values stand in the order of the entries.
pub proof fn law_values_are_those_of_the_entries<T>(entries: Seq<(Seq<char>, T)>, i: int)
    ensures
        values_of(entries).len() == entries.len(),
        0 <= i < entries.len() ==> values_of(entries)[i] == entries[i].1,
{
}

/// The view of flattened parameters has each of them, its path and its array, at its own place.
pub proof fn law_flat_views_keep_every_parameter<A>(flat: Seq<(String, &A)>, i: int)
    ensures
        flat_view(flat).len() == flat.len(),
        0 <= i < flat.len() ==> flat_view(flat)[i] == (flat[i].0@, *flat[i].1),
{
}

} // verus!
