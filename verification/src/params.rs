//! Parameters of a module, nested as its submodules are.

use vstd::prelude::*;

verus! {

/// The separator between the names on the path to a nested parameter.
pub const DELIMITER: char = '.';

/// The parameters of a module by name, those of a submodule nested under its name.
///
/// An entry keeps its place when its value is replaced.
pub struct ModuleParamRef<'a, A> {
    entries: Vec<(String, NestedValue<'a, A>)>,
}

/// A parameter, or the parameters of a submodule.
pub enum NestedValue<'a, A> {
    Value(&'a A),
    Nested(ModuleParamRef<'a, A>),
}

/// The view of a [`NestedValue`].
pub enum NestedView<A> {
    Value(A),
    Nested(Seq<(Seq<char>, NestedView<A>)>),
}

spec fn value_view<A>(value: NestedValue<'_, A>) -> NestedView<A>
    decreases value,
{
    match value {
        NestedValue::Value(array) => NestedView::Value(*array),
        NestedValue::Nested(params) => NestedView::Nested(entries_view(params.entries@)),
    }
}

spec fn entries_view<A>(entries: Seq<(String, NestedValue<'_, A>)>) -> Seq<
    (Seq<char>, NestedView<A>),
>
    decreases entries,
{
    if entries.len() == 0 {
        Seq::empty()
    } else {
        entries_view(entries.drop_last()).push((entries.last().0@, value_view(entries.last().1)))
    }
}

impl<'a, A> View for NestedValue<'a, A> {
    type V = NestedView<A>;

    open spec fn view(&self) -> NestedView<A> {
        match *self {
            NestedValue::Value(array) => NestedView::Value(*array),
            NestedValue::Nested(params) => NestedView::Nested(params@),
        }
    }
}

impl<'a, A> View for ModuleParamRef<'a, A> {
    type V = Seq<(Seq<char>, NestedView<A>)>;

    closed spec fn view(&self) -> Seq<(Seq<char>, NestedView<A>)> {
        entries_view(self.entries@)
    }
}

/// The key stands first at this index of the entries.
pub open spec fn first_at<T>(entries: Seq<(Seq<char>, T)>, key: Seq<char>, i: int) -> bool {
    &&& 0 <= i < entries.len()
    &&& entries[i].0 == key
    &&& forall|j: int| 0 <= j < i ==> (#[trigger] entries[j]).0 != key
}

/// The entries with a value set under a key: in place of the key's value, else at the end.
pub open spec fn inserted<T>(entries: Seq<(Seq<char>, T)>, key: Seq<char>, value: T) -> Seq<
    (Seq<char>, T),
> {
    if exists|i: int| first_at(entries, key, i) {
        entries.update(choose|i: int| first_at(entries, key, i), (key, value))
    } else {
        entries.push((key, value))
    }
}

/// The entries with all the leaves set, in their order.
pub open spec fn all_inserted<T>(
    entries: Seq<(Seq<char>, T)>,
    leaves: Seq<(Seq<char>, T)>,
) -> Seq<(Seq<char>, T)>
    decreases leaves.len(),
{
    if leaves.len() == 0 {
        entries
    } else {
        inserted(
            all_inserted(entries, leaves.drop_last()),
            leaves.last().0,
            leaves.last().1,
        )
    }
}

/// The parameters below an entry with this path, each with its own path.
pub open spec fn value_leaves<A>(value: NestedView<A>, path: Seq<char>) -> Seq<(Seq<char>, A)>
    decreases value,
{
    match value {
        NestedView::Value(array) => seq![(path, array)],
        NestedView::Nested(entries) => leaves(entries, path.push(DELIMITER)),
    }
}

/// The parameters of all entries, each with its path, which starts with the prefix.
pub open spec fn leaves<A>(entries: Seq<(Seq<char>, NestedView<A>)>, prefix: Seq<char>) -> Seq<
    (Seq<char>, A),
>
    decreases entries,
{
    if entries.len() == 0 {
        Seq::empty()
    } else {
        leaves(entries.drop_last(), prefix) + value_leaves(
            entries.last().1,
            prefix + entries.last().0,
        )
    }
}

/// The parameters by their paths. Of two with one path, the later counts.
pub open spec fn flattened<A>(params: Seq<(Seq<char>, NestedView<A>)>) -> Seq<(Seq<char>, A)> {
    all_inserted(Seq::empty(), leaves(params, Seq::empty()))
}

/// The values of entries, without their keys.
pub open spec fn values_of<T>(entries: Seq<(Seq<char>, T)>) -> Seq<T> {
    Seq::new(entries.len(), |i: int| entries[i].1)
}

/// The view of parameters by their paths.
pub open spec fn flat_view<A>(flat: Seq<(String, &A)>) -> Seq<(Seq<char>, A)> {
    Seq::new(flat.len(), |i: int| (flat[i].0@, *flat[i].1))
}

proof fn lemma_entries_view<A>(entries: Seq<(String, NestedValue<'_, A>)>)
    ensures
        entries_view(entries).len() == entries.len(),
        forall|i: int|
            0 <= i < entries.len() ==> #[trigger] entries_view(entries)[i] == (
                entries[i].0@,
                value_view(entries[i].1),
            ),
    decreases entries.len(),
{
    if entries.len() > 0 {
        lemma_entries_view(entries.drop_last());
        assert(forall|i: int|
            0 <= i < entries.len() - 1 ==> entries[i] == #[trigger] entries.drop_last()[i]);
    }
}

proof fn lemma_first_at_is_unique<T>(entries: Seq<(Seq<char>, T)>, key: Seq<char>, i: int, j: int)
    requires
        first_at(entries, key, i),
        first_at(entries, key, j),
    ensures
        i == j,
{
    if i < j {
        assert(entries[i].0 != key);
    }
    if j < i {
        assert(entries[j].0 != key);
    }
}

proof fn lemma_first_at_exists<T>(entries: Seq<(Seq<char>, T)>, key: Seq<char>, i: int)
    requires
        0 <= i < entries.len(),
        entries[i].0 == key,
    ensures
        exists|j: int| first_at(entries, key, j),
    decreases i,
{
    if exists|j: int| 0 <= j < i && (#[trigger] entries[j]).0 == key {
        let j = choose|j: int| 0 <= j < i && (#[trigger] entries[j]).0 == key;
        lemma_first_at_exists(entries, key, j);
    } else {
        assert(first_at(entries, key, i));
    }
}

/// Sets a value under a key.
fn insert_flat<'a, A>(flat: &mut Vec<(String, &'a A)>, key: String, value: &'a A)
    ensures
        flat_view(final(flat)@) == inserted(flat_view(old(flat)@), key@, *value),
{
    let ghost before = flat_view(flat@);
    let mut i: usize = 0;
    while i < flat.len()
        invariant
            i <= flat.len(),
            before == flat_view(flat@),
            before == flat_view(old(flat)@),
            forall|j: int| 0 <= j < i ==> (#[trigger] before[j]).0 != key@,
        decreases flat.len() - i,
    {
        if flat[i].0 == key {
            proof {
                assert(first_at(before, key@, i as int));
                lemma_first_at_is_unique(
                    before,
                    key@,
                    i as int,
                    choose|j: int| first_at(before, key@, j),
                );
            }
            flat.set(i, (key, value));
            assert(flat_view(flat@) =~= before.update(i as int, (key@, *value)));
            return;
        }
        i = i + 1;
    }
    flat.push((key, value));
    assert(flat_view(flat@) =~= before.push((key@, *value)));
}

proof fn lemma_all_inserted_in_turn<T>(
    entries: Seq<(Seq<char>, T)>,
    first: Seq<(Seq<char>, T)>,
    second: Seq<(Seq<char>, T)>,
)
    ensures
        all_inserted(all_inserted(entries, first), second) == all_inserted(entries, first + second),
    decreases second.len(),
{
    if second.len() == 0 {
        assert(first + second =~= first);
    } else {
        lemma_all_inserted_in_turn(entries, first, second.drop_last());
        assert((first + second).drop_last() =~= first + second.drop_last());
    }
}

/// Sets all parameters of the entries under their paths.
fn flatten_entries<'a, A>(
    entries: &Vec<(String, NestedValue<'a, A>)>,
    prefix: &String,
    flat: &mut Vec<(String, &'a A)>,
)
    ensures
        flat_view(final(flat)@) == all_inserted(
            flat_view(old(flat)@),
            leaves(entries_view(entries@), prefix@),
        ),
    decreases entries@,
{
    let mut i: usize = 0;
    assert(entries@.take(0) =~= Seq::empty());
    while i < entries.len()
        invariant
            i <= entries.len(),
            flat_view(flat@) == all_inserted(
                flat_view(old(flat)@),
                leaves(entries_view(entries@.take(i as int)), prefix@),
            ),
        decreases entries.len() - i,
    {
        let entry = &entries[i];
        let mut path = prefix.clone();
        path.append(entry.0.as_str());
        flatten_value(&entry.1, path, flat);
        proof {
            let before = entries_view(entries@.take(i as int));
            let after = entries_view(entries@.take(i + 1));
            assert(entries@.take(i + 1).drop_last() =~= entries@.take(i as int));
            assert(after.drop_last() =~= before);
            lemma_all_inserted_in_turn(
                flat_view(old(flat)@),
                leaves(before, prefix@),
                value_leaves(value_view(entries@[i as int].1), prefix@ + entries@[i as int].0@),
            );
        }
        i = i + 1;
    }
    assert(entries@.take(i as int) =~= entries@);
}

/// Sets all parameters below an entry under their paths.
fn flatten_value<'a, A>(
    value: &NestedValue<'a, A>,
    path: String,
    flat: &mut Vec<(String, &'a A)>,
)
    ensures
        flat_view(final(flat)@) == all_inserted(
            flat_view(old(flat)@),
            value_leaves(value_view(*value), path@),
        ),
    decreases *value,
{
    match value {
        NestedValue::Value(array) => {
            proof {
                reveal_with_fuel(all_inserted, 2);
                let leaf = seq![(path@, **array)];
                assert(leaf.drop_last() =~= Seq::empty());
            }
            insert_flat(flat, path, *array);
        },
        NestedValue::Nested(params) => {
            let mut prefix = path;
            prefix.append(".");
            proof {
                reveal_strlit(".");
                assert(prefix@ =~= path@.push(DELIMITER));
            }
            flatten_entries(&params.entries, &prefix, flat);
        },
    }
}

impl<'a, A> ModuleParamRef<'a, A> {
    pub fn new() -> (params: ModuleParamRef<'a, A>)
        ensures
            params@ == Seq::<(Seq<char>, NestedView<A>)>::empty(),
    {
        ModuleParamRef { entries: Vec::new() }
    }

    /// Sets the value under a key.
    pub fn insert(&mut self, key: String, value: NestedValue<'a, A>)
        ensures
            final(self)@ == inserted(old(self)@, key@, value@),
    {
        let ghost before = self@;
        proof {
            lemma_entries_view(self.entries@);
        }
        let mut i: usize = 0;
        while i < self.entries.len()
            invariant
                i <= self.entries.len(),
                before == old(self)@,
                self.entries == old(self).entries,
                before == entries_view(self.entries@),
                before.len() == self.entries.len(),
                forall|j: int|
                    0 <= j < before.len() ==> #[trigger] before[j] == (
                        self.entries@[j].0@,
                        value_view(self.entries@[j].1),
                    ),
                forall|j: int| 0 <= j < i ==> (#[trigger] before[j]).0 != key@,
            decreases self.entries.len() - i,
        {
            if self.entries[i].0 == key {
                proof {
                    assert(before[i as int].0 == key@);
                    assert(first_at(before, key@, i as int));
                    lemma_first_at_is_unique(
                        before,
                        key@,
                        i as int,
                        choose|j: int| first_at(before, key@, j),
                    );
                }
                self.entries.set(i, (key, value));
                proof {
                    lemma_entries_view(self.entries@);
                    assert(self@ =~= before.update(i as int, (key@, value@)));
                }
                return;
            }
            i = i + 1;
        }
        self.entries.push((key, value));
        proof {
            lemma_entries_view(self.entries@);
            assert(self@ =~= before.push((key@, value@)));
        }
    }

    /// The parameters by their paths, the names joined by [`DELIMITER`].
    pub fn flatten(self) -> (flat: Vec<(String, &'a A)>)
        ensures
            flat_view(flat@) == flattened(self@),
    {
        let mut flat: Vec<(String, &'a A)> = Vec::new();
        assert(flat_view(flat@) =~= Seq::empty());
        flatten_entries(&self.entries, &String::new(), &mut flat);
        flat
    }
}

/// The values of parameters by their paths.
pub fn values<'a, A>(flat: &Vec<(String, &'a A)>) -> (values: Vec<&'a A>)
    ensures
        values@.unref() == values_of(flat_view(flat@)),
        values@.len() == flat@.len(),
        forall|i: int| 0 <= i < flat@.len() ==> #[trigger] values@[i] == flat@[i].1,
{
    let mut values: Vec<&'a A> = Vec::new();
    let mut i: usize = 0;
    while i < flat.len()
        invariant
            i <= flat.len(),
            values@.len() == i,
            forall|j: int| 0 <= j < i ==> #[trigger] values@[j] == flat@[j].1,
        decreases flat.len() - i,
    {
        values.push(flat[i].1);
        i = i + 1;
    }
    assert(values@.unref() =~= values_of(flat_view(flat@)));
    values
}

/// No two entries have one key.
pub open spec fn distinct_keys<T>(entries: Seq<(Seq<char>, T)>) -> bool {
    forall|i: int, j: int|
        0 <= i < j < entries.len() ==> (#[trigger] entries[i]).0 != (#[trigger] entries[j]).0
}

/// No two siblings have one name, and no name holds the delimiter.
pub open spec fn well_named<A>(entries: Seq<(Seq<char>, NestedView<A>)>) -> bool
    decreases entries,
{
    &&& distinct_keys(entries)
    &&& forall|i: int|
        0 <= i < entries.len() ==> {
            &&& !(#[trigger] entries[i]).0.contains(DELIMITER)
            &&& (entries[i].1 matches NestedView::Nested(nested) ==> well_named(nested))
        }
}

/// The path leads to the entry with this key behind the prefix, or to one below it.
spec fn leads_to(path: Seq<char>, prefix: Seq<char>, key: Seq<char>) -> bool {
    let end = prefix.len() + key.len();
    &&& path.len() >= end
    &&& path.take(end as int) == prefix + key
    &&& path.len() > end ==> path[end as int] == DELIMITER
}

proof fn lemma_one_key(path: Seq<char>, prefix: Seq<char>, first: Seq<char>, second: Seq<char>)
    requires
        leads_to(path, prefix, first),
        leads_to(path, prefix, second),
        !first.contains(DELIMITER),
        !second.contains(DELIMITER),
    ensures
        first == second,
{
    let n = prefix.len() as int;
    assert forall|i: int| 0 <= i < first.len() implies first[i] == path[n + i] by {
        assert((prefix + first)[n + i] == path.take(n + first.len())[n + i]);
    }
    assert forall|i: int| 0 <= i < second.len() implies second[i] == path[n + i] by {
        assert((prefix + second)[n + i] == path.take(n + second.len())[n + i]);
    }
    if first.len() < second.len() {
        assert(second[first.len() as int] == DELIMITER);
    }
    if second.len() < first.len() {
        assert(first[second.len() as int] == DELIMITER);
    }
    assert(first =~= second);
}

proof fn lemma_value_leaves<A>(value: NestedView<A>, prefix: Seq<char>, key: Seq<char>)
    requires
        value matches NestedView::Nested(nested) ==> well_named(nested),
    ensures
        distinct_keys(value_leaves(value, prefix + key)),
        forall|i: int|
            0 <= i < value_leaves(value, prefix + key).len() ==> leads_to(
                (#[trigger] value_leaves(value, prefix + key)[i]).0,
                prefix,
                key,
            ),
    decreases value,
{
    let path = prefix + key;
    match value {
        NestedView::Value(_) => {
            assert(path.take(path.len() as int) =~= path);
        },
        NestedView::Nested(nested) => {
            let inner = path.push(DELIMITER);
            lemma_leaves(nested, inner);
            assert forall|i: int| 0 <= i < leaves(nested, inner).len() implies leads_to(
                (#[trigger] leaves(nested, inner)[i]).0,
                prefix,
                key,
            ) by {
                let leaf = leaves(nested, inner)[i].0;
                assert(leaf.take(path.len() as int) =~= leaf.take(inner.len() as int).drop_last());
                assert(inner.drop_last() =~= path);
                assert(leaf[path.len() as int] == leaf.take(inner.len() as int).last());
            }
        },
    }
}

proof fn lemma_leaves<A>(entries: Seq<(Seq<char>, NestedView<A>)>, prefix: Seq<char>)
    requires
        well_named(entries),
    ensures
        distinct_keys(leaves(entries, prefix)),
        forall|i: int|
            0 <= i < leaves(entries, prefix).len() ==> {
                let path = (#[trigger] leaves(entries, prefix)[i]).0;
                &&& path.len() >= prefix.len()
                &&& path.take(prefix.len() as int) == prefix
                &&& exists|k: int|
                    0 <= k < entries.len() && leads_to(path, prefix, (#[trigger] entries[k]).0)
            },
    decreases entries,
{
    if entries.len() > 0 {
        let rest = entries.drop_last();
        let (key, value) = entries.last();
        assert(entries[entries.len() - 1] == entries.last());
        assert forall|i: int| 0 <= i < rest.len() implies rest[i] == #[trigger] entries[i] by {}
        assert(well_named(rest));
        lemma_leaves(rest, prefix);
        lemma_value_leaves(value, prefix, key);
        let before = leaves(rest, prefix);
        let added = value_leaves(value, prefix + key);
        let all = leaves(entries, prefix);
        assert(all == before + added);
        assert forall|i: int, j: int| 0 <= i < j < all.len() implies (#[trigger] all[i]).0 != (
        #[trigger] all[j]).0 by {
            if j < before.len() {
                assert(before[i].0 != before[j].0);
            } else if i >= before.len() {
                assert(added[i - before.len()].0 != added[j - before.len()].0);
            } else if all[i].0 == all[j].0 {
                let path = before[i].0;
                let k = choose|k: int|
                    0 <= k < rest.len() && leads_to(path, prefix, (#[trigger] rest[k]).0);
                assert(added[j - before.len()].0 == path);
                assert(rest[k] == entries[k]);
                lemma_one_key(path, prefix, rest[k].0, key);
            }
        }
        assert forall|i: int| 0 <= i < all.len() implies {
            let path = (#[trigger] all[i]).0;
            &&& path.len() >= prefix.len()
            &&& path.take(prefix.len() as int) == prefix
            &&& exists|k: int|
                0 <= k < entries.len() && leads_to(path, prefix, (#[trigger] entries[k]).0)
        } by {
            let path = all[i].0;
            if i < before.len() {
                assert(path == before[i].0);
                let k = choose|k: int|
                    0 <= k < rest.len() && leads_to(path, prefix, (#[trigger] rest[k]).0);
                assert(leads_to(path, prefix, entries[k].0));
            } else {
                assert(path == added[i - before.len()].0);
                assert(leads_to(path, prefix, entries[entries.len() - 1].0));
                assert(path.take(prefix.len() as int) =~= path.take(
                    (prefix.len() + key.len()) as int,
                ).take(prefix.len() as int));
                assert((prefix + key).take(prefix.len() as int) =~= prefix);
            }
        }
    }
}

proof fn lemma_all_inserted_of_distinct<T>(leaves: Seq<(Seq<char>, T)>)
    requires
        distinct_keys(leaves),
    ensures
        all_inserted(Seq::empty(), leaves) == leaves,
    decreases leaves.len(),
{
    if leaves.len() > 0 {
        let rest = leaves.drop_last();
        assert forall|i: int| 0 <= i < rest.len() implies rest[i] == #[trigger] leaves[i] by {}
        lemma_all_inserted_of_distinct(rest);
        assert(leaves[leaves.len() - 1] == leaves.last());
        assert(!exists|i: int| first_at(rest, leaves.last().0, i));
        assert(rest.push(leaves.last()) =~= leaves);
    }
}

/// Flattening loses no parameter: where no two parameters have one path, the flattened parameters
/// are all the parameters, each once, under its own path.
pub proof fn law_flatten_keeps_every_parameter<A>(params: Seq<(Seq<char>, NestedView<A>)>)
    requires
        distinct_keys(leaves(params, Seq::empty())),
    ensures
        flattened(params) == leaves(params, Seq::empty()),
        values_of(flattened(params)) == values_of(leaves(params, Seq::empty())),
{
    lemma_all_inserted_of_distinct(leaves(params, Seq::empty()));
}

/// Where no two siblings have one name and no name holds the delimiter, no two parameters have
/// one path.
pub proof fn law_well_named_parameters_have_their_own_paths<A>(
    params: Seq<(Seq<char>, NestedView<A>)>,
)
    requires
        well_named(params),
    ensures
        distinct_keys(leaves(params, Seq::empty())),
        flattened(params) == leaves(params, Seq::empty()),
{
    lemma_leaves(params, Seq::empty());
    law_flatten_keeps_every_parameter(params);
}

/// Whatever the names, no two flattened parameters have one path.
pub proof fn law_flattened_paths_are_distinct<A>(params: Seq<(Seq<char>, NestedView<A>)>)
    ensures
        distinct_keys(flattened(params)),
{
    lemma_all_inserted_keeps_keys_distinct(
        Seq::<(Seq<char>, A)>::empty(),
        leaves(params, Seq::empty()),
    );
}

proof fn lemma_all_inserted_keeps_keys_distinct<T>(
    entries: Seq<(Seq<char>, T)>,
    leaves: Seq<(Seq<char>, T)>,
)
    requires
        distinct_keys(entries),
    ensures
        distinct_keys(all_inserted(entries, leaves)),
    decreases leaves.len(),
{
    if leaves.len() > 0 {
        lemma_all_inserted_keeps_keys_distinct(entries, leaves.drop_last());
        law_insert_keeps_keys_distinct(
            all_inserted(entries, leaves.drop_last()),
            leaves.last().0,
            leaves.last().1,
        );
    }
}

/// Setting a value keeps the keys distinct.
pub proof fn law_insert_keeps_keys_distinct<T>(
    entries: Seq<(Seq<char>, T)>,
    key: Seq<char>,
    value: T,
)
    requires
        distinct_keys(entries),
    ensures
        distinct_keys(inserted(entries, key, value)),
{
    let after = inserted(entries, key, value);
    if exists|i: int| first_at(entries, key, i) {
        let k = choose|i: int| first_at(entries, key, i);
        assert forall|i: int| 0 <= i < after.len() implies (#[trigger] after[i]).0
            == entries[i].0 by {}
    } else {
        assert forall|i: int| 0 <= i < entries.len() implies (#[trigger] entries[i]).0 != key by {
            if entries[i].0 == key {
                lemma_first_at_exists(entries, key, i);
            }
        }
    }
}

/// Setting a value sets just one key: the key has the value, at its old place or else behind all
/// others, and every other entry is as it was, at its old place.
pub proof fn law_insert_sets_just_one_key<T>(
    entries: Seq<(Seq<char>, T)>,
    key: Seq<char>,
    value: T,
)
    requires
        distinct_keys(entries),
    ensures
        forall|i: int|
            0 <= i < entries.len() ==> #[trigger] inserted(entries, key, value)[i] == (
            if entries[i].0 == key {
                (key, value)
            } else {
                entries[i]
            }),
        (exists|i: int| 0 <= i < entries.len() && (#[trigger] entries[i]).0 == key) ==> inserted(
            entries,
            key,
            value,
        ).len() == entries.len(),
        !(exists|i: int| 0 <= i < entries.len() && (#[trigger] entries[i]).0 == key) ==> inserted(
            entries,
            key,
            value,
        ) == entries.push((key, value)),
{
    if exists|i: int| first_at(entries, key, i) {
        let k = choose|i: int| first_at(entries, key, i);
        assert(entries[k].0 == key);
    } else {
        assert forall|i: int| 0 <= i < entries.len() implies (#[trigger] entries[i]).0 != key by {
            if entries[i].0 == key {
                lemma_first_at_exists(entries, key, i);
            }
        }
    }
}

} // verus!
