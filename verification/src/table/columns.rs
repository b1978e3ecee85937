//! Picking the values of some columns out of a row.

use vstd::prelude::*;

use crate::equality::decides;
use crate::storage::clones_to_itself;

verus! {

/// `i` is the place of the first of the `columns` that is the `same` as `name`.
pub open spec fn is_position<K>(
    same: spec_fn(K, K) -> bool,
    columns: Seq<K>,
    name: K,
    i: int,
) -> bool {
    &&& 0 <= i < columns.len()
    &&& same(columns[i], name)
    &&& forall|j: int| 0 <= j < i ==> !same(#[trigger] columns[j], name)
}

/// One of the `columns` is the `same` as `name`.
pub open spec fn has_column<K>(same: spec_fn(K, K) -> bool, columns: Seq<K>, name: K) -> bool {
    exists|i: int| 0 <= i < columns.len() && same(#[trigger] columns[i], name)
}

/// The place of the column `name` among the `columns`: the first one that is the `same`.
pub open spec fn position_of<K>(same: spec_fn(K, K) -> bool, columns: Seq<K>, name: K) -> Option<int> {
    if has_column(same, columns, name) {
        Some(choose|i: int| is_position(same, columns, name, i))
    } else {
        None
    }
}

/// The values that `row`, whose columns are `columns_in`, holds in the columns `columns_out`,
/// in the order of `columns_out`. A column that the row does not have is passed over.
pub open spec fn select<K, V>(
    same: spec_fn(K, K) -> bool,
    row: Seq<V>,
    columns_in: Seq<K>,
    columns_out: Seq<K>,
) -> Seq<V>
    decreases columns_out.len(),
{
    if columns_out.len() == 0 {
        Seq::empty()
    } else {
        let before = select(same, row, columns_in, columns_out.drop_last());
        match position_of(same, columns_in, columns_out.last()) {
            Some(i) => before.push(row[i]),
            None => before,
        }
    }
}

/// Every one of the `names` is among the `columns`.
pub open spec fn has_columns<K>(same: spec_fn(K, K) -> bool, columns: Seq<K>, names: Seq<K>) -> bool {
    forall|i: int| 0 <= i < names.len() ==> has_column(same, columns, #[trigger] names[i])
}

/// The places of the columns `columns_out` among the columns `columns_in`.
pub open spec fn positions<K>(
    same: spec_fn(K, K) -> bool,
    columns_in: Seq<K>,
    columns_out: Seq<K>,
) -> Seq<int> {
    columns_out.map_values(|name: K| position_of(same, columns_in, name)->0)
}

/// `value` is a copy of the default value of its type.
pub open spec fn is_blank<V: Default + Clone>(value: V) -> bool {
    exists|d: V| #[trigger] call_ensures(V::default, (), d) && cloned(d, value)
}

/// No place before the `j`th of `places` is the same.
pub open spec fn is_first_use(places: Seq<int>, j: int) -> bool {
    forall|h: int| 0 <= h < j ==> #[trigger] places[h] != places[j]
}

/// `out` holds the values that were moved out of `row` at the given `places`, in that order.
/// A value can be moved only once: where a place comes up again, `out` holds a blank.
pub open spec fn moved_out<V: Default + Clone>(row: Seq<V>, places: Seq<int>, out: Seq<V>) -> bool {
    &&& out.len() == places.len()
    &&& forall|j: int|
        0 <= j < out.len() ==> if is_first_use(places, j) {
            #[trigger] out[j] == row[places[j]]
        } else {
            is_blank(out[j])
        }
}

/// The first equal column is the only candidate for a column's place.
pub proof fn lemma_position_of<K>(
    same: spec_fn(K, K) -> bool,
    columns: Seq<K>,
    name: K,
    i: int,
)
    requires
        is_position(same, columns, name, i),
    ensures
        position_of(same, columns, name) == Some(i),
{
    assert(same(columns[i], name));
    let p = choose|p: int| is_position(same, columns, name, p);
    assert(is_position(same, columns, name, p));
    if p < i {
        assert(!same(columns[p], name));
    } else if i < p {
        assert(!same(columns[i], name));
    }
}

/// A column that is there has a place.
pub proof fn lemma_has_position<K>(same: spec_fn(K, K) -> bool, columns: Seq<K>, name: K)
    requires
        has_column(same, columns, name),
    ensures
        position_of(same, columns, name) is Some,
        is_position(same, columns, name, position_of(same, columns, name)->0),
{
    let i = choose|i: int| 0 <= i < columns.len() && same(#[trigger] columns[i], name);
    lemma_first_equal(same, columns, name, i);
}

proof fn lemma_first_equal<K>(
    same: spec_fn(K, K) -> bool,
    columns: Seq<K>,
    name: K,
    i: int,
)
    requires
        0 <= i < columns.len(),
        same(columns[i], name),
    ensures
        exists|p: int| is_position(same, columns, name, p),
    decreases i,
{
    if exists|j: int| 0 <= j < i && same(#[trigger] columns[j], name) {
        let j = choose|j: int| 0 <= j < i && same(#[trigger] columns[j], name);
        lemma_first_equal(same, columns, name, j);
    } else {
        assert(is_position(same, columns, name, i));
    }
}

/// Where among the `columns` the column `name` stands.
pub fn position<K: PartialEq>(columns: &[K], name: &K) -> (place: Option<usize>)
    ensures
        place matches Some(i) ==> i < columns@.len(),
        forall|same: spec_fn(K, K) -> bool| #[trigger]
            decides(same) ==> match place {
                Some(i) => position_of(same, columns@, *name) == Some(i as int),
                None => position_of(same, columns@, *name) is None,
            },
{
    let mut i: usize = 0;
    while i < columns.len()
        invariant
            i <= columns@.len(),
            forall|j: int|
                0 <= j < i ==> call_ensures(K::eq, (&#[trigger] columns@[j], name), false),
        decreases columns@.len() - i,
    {
        if columns[i].eq(name) {
            proof {
                assert forall|same: spec_fn(K, K) -> bool| #[trigger] decides(same) implies
                    position_of(same, columns@, *name) == Some(i as int) by {
                    lemma_position_of(same, columns@, *name, i as int);
                }
            }
            return Some(i);
        }
        i += 1;
    }
    None
}

/// Borrow the values of the columns `columns_out` from a `row` whose columns are `columns_in`.
pub fn borrow_columns<'a, K: Eq, V>(
    row: &'a [V],
    columns_in: &[K],
    columns_out: &[K],
) -> (selection: Vec<&'a V>)
    requires
        row@.len() == columns_in@.len(),
    ensures
        forall|same: spec_fn(K, K) -> bool| #[trigger]
            decides(same) ==> selection@.unref() == select(
                same,
                row@,
                columns_in@,
                columns_out@,
            ),
{
    let mut selection: Vec<&'a V> = Vec::new();
    let mut i: usize = 0;
    while i < columns_out.len()
        invariant
            i <= columns_out@.len(),
            row@.len() == columns_in@.len(),
            forall|same: spec_fn(K, K) -> bool| #[trigger]
                decides(same) ==> selection@.unref() == select(
                    same,
                    row@,
                    columns_in@,
                    columns_out@.take(i as int),
                ),
        decreases columns_out@.len() - i,
    {
        proof {
            assert(columns_out@.take(i + 1).drop_last() == columns_out@.take(i as int));
        }
        let ghost before = selection@;
        if let Some(place) = position(columns_in, &columns_out[i]) {
            selection.push(&row[place]);
            proof {
                assert(selection@.unref() == before.unref().push(row@[place as int]));
            }
        }
        i += 1;
    }
    proof {
        assert(columns_out@.take(columns_out@.len() as int) == columns_out@);
    }
    selection
}

/// `copies` are clones of the `values`.
pub open spec fn are_clones<V: Clone>(values: Seq<V>, copies: Seq<V>) -> bool {
    &&& copies.len() == values.len()
    &&& forall|i: int| 0 <= i < values.len() ==> cloned(values[i], #[trigger] copies[i])
}

/// Clone the values of the columns `columns_out` of a `row` whose columns are `columns_in`.
pub fn clone_columns<K: Eq, V: Clone>(
    row: &[V],
    columns_in: &[K],
    columns_out: &[K],
) -> (selection: Vec<V>)
    requires
        row@.len() == columns_in@.len(),
    ensures
        forall|same: spec_fn(K, K) -> bool| #[trigger]
            decides(same) ==> are_clones(
                select(same, row@, columns_in@, columns_out@),
                selection@,
            ),
        forall|same: spec_fn(K, K) -> bool|
            clones_to_itself::<V>() && #[trigger] decides(same) ==> selection@ == select(
                same,
                row@,
                columns_in@,
                columns_out@,
            ),
{
    let mut selection: Vec<V> = Vec::new();
    let mut i: usize = 0;
    while i < columns_out.len()
        invariant
            i <= columns_out@.len(),
            row@.len() == columns_in@.len(),
            forall|same: spec_fn(K, K) -> bool| #[trigger]
                decides(same) ==> are_clones(
                    select(same, row@, columns_in@, columns_out@.take(i as int)),
                    selection@,
                ),
        decreases columns_out@.len() - i,
    {
        proof {
            assert(columns_out@.take(i + 1).drop_last() == columns_out@.take(i as int));
        }
        if let Some(place) = position(columns_in, &columns_out[i]) {
            selection.push(row[place].clone());
        }
        i += 1;
    }
    proof {
        assert(columns_out@.take(columns_out@.len() as int) == columns_out@);
        if clones_to_itself::<V>() {
            assert forall|same: spec_fn(K, K) -> bool| #[trigger] decides(same) implies selection@
                == select(same, row@, columns_in@, columns_out@) by {
                let values = select(same, row@, columns_in@, columns_out@);
                assert forall|j: int| 0 <= j < values.len() implies selection@[j] == values[j] by {
                    assert(cloned(values[j], selection@[j]));
                }
                assert(selection@ =~= values);
            }
        }
    }
    selection
}

/// All of the columns `names` are among the `columns`, as `==` decides.
pub open spec fn finds_columns<K: PartialEq>(columns: Seq<K>, names: Seq<K>) -> bool {
    exists|same: spec_fn(K, K) -> bool| #[trigger] decides(same) && has_columns(same, columns, names)
}

/// Where among the columns `columns_in` each of the columns `columns_out` stands.
fn places<K: PartialEq>(columns_in: &[K], columns_out: &[K]) -> (indices: Vec<usize>)
    requires
        finds_columns(columns_in@, columns_out@),
    ensures
        forall|same: spec_fn(K, K) -> bool| #[trigger]
            decides(same) ==> indices@.map_values(|i: usize| i as int) == positions(
                same,
                columns_in@,
                columns_out@,
            ),
        forall|j: int| 0 <= j < indices@.len() ==> #[trigger] indices@[j] < columns_in@.len(),
{
    let ghost found = choose|same: spec_fn(K, K) -> bool| #[trigger]
        decides(same) && has_columns(same, columns_in@, columns_out@);
    let mut indices: Vec<usize> = Vec::new();
    let mut i: usize = 0;
    while i < columns_out.len()
        invariant
            i <= columns_out@.len(),
            i == indices@.len(),
            decides(found),
            has_columns(found, columns_in@, columns_out@),
            forall|j: int| 0 <= j < i ==> #[trigger] indices@[j] < columns_in@.len(),
            forall|same: spec_fn(K, K) -> bool, j: int|
                #![trigger decides(same), indices@[j]]
                decides(same) && 0 <= j < i ==> position_of(same, columns_in@, columns_out@[j])
                    == Some(indices@[j] as int),
        decreases columns_out@.len() - i,
    {
        proof {
            assert(has_column(found, columns_in@, columns_out@[i as int]));
        }
        if let Some(place) = position(columns_in, &columns_out[i]) {
            indices.push(place);
        }
        i += 1;
    }
    proof {
        assert forall|same: spec_fn(K, K) -> bool| #[trigger] decides(same) implies
            indices@.map_values(|i: usize| i as int) == positions(
            same,
            columns_in@,
            columns_out@,
        ) by {
            assert(indices@.map_values(|i: usize| i as int) =~= positions(
                same,
                columns_in@,
                columns_out@,
            ));
        }
    }
    indices
}

/// Move the values at the places `indices` out of `row`, leaving blanks behind.
fn move_out<V: Default + Clone>(row: Vec<V>, indices: &Vec<usize>) -> (selection: Vec<V>)
    requires
        forall|j: int| 0 <= j < indices@.len() ==> #[trigger] indices@[j] < row@.len(),
    ensures
        moved_out(row@, indices@.map_values(|i: usize| i as int), selection@),
{
    let ghost source = row@;
    let ghost from = indices@.map_values(|i: usize| i as int);
    let mut row = row;
    let blank = V::default();
    let mut selection: Vec<V> = vec![blank; indices.len()];
    let mut i: usize = 0;
    proof {
        assert forall|j: int| 0 <= j < selection@.len() implies is_blank(
            #[trigger] selection@[j],
        ) by {
            assert(call_ensures(V::default, (), blank));
            assert(cloned(blank, selection@[j]));
        }
    }
    while i < indices.len()
        invariant
            i <= indices@.len(),
            selection@.len() == indices@.len(),
            row@.len() == source.len(),
            from == indices@.map_values(|i: usize| i as int),
            forall|j: int| 0 <= j < indices@.len() ==> #[trigger] indices@[j] < source.len(),
            forall|j: int|
                0 <= j < i ==> if is_first_use(from, j) {
                    #[trigger] selection@[j] == source[from[j]]
                } else {
                    is_blank(selection@[j])
                },
            forall|j: int| i <= j < selection@.len() ==> is_blank(#[trigger] selection@[j]),
            forall|p: int|
                0 <= p < row@.len() ==> if exists|h: int| 0 <= h < i && #[trigger] from[h] == p {
                    is_blank(#[trigger] row@[p])
                } else {
                    row@[p] == source[p]
                },
        decreases indices@.len() - i,
    {
        let ghost row_before = row@;
        let ghost selection_before = selection@;
        let place = indices[i];
        assert(from[i as int] == place);
        assert(is_blank(selection_before[i as int]));
        std::mem::swap(&mut row[place], &mut selection[i]);
        proof {
            let p = place as int;
            assert(row@ == row_before.update(p, selection_before[i as int]));
            assert(selection@ == selection_before.update(i as int, row_before[p]));
            if is_first_use(from, i as int) {
                assert(selection@[i as int] == source[p]);
            } else {
                let h = choose|h: int| 0 <= h < i && #[trigger] from[h] == from[i as int];
                assert(is_blank(row_before[p]));
            }
            assert forall|q: int| 0 <= q < row@.len() implies if exists|h: int|
                0 <= h < i + 1 && #[trigger] from[h] == q {
                is_blank(#[trigger] row@[q])
            } else {
                row@[q] == source[q]
            } by {
                if q == p {
                    assert(from[i as int] == q);
                } else if exists|h: int| 0 <= h < i + 1 && #[trigger] from[h] == q {
                    let h = choose|h: int| 0 <= h < i + 1 && #[trigger] from[h] == q;
                    assert(h < i);
                    assert(is_blank(row_before[q]));
                } else {
                    assert(row_before[q] == source[q]);
                }
            }
        }
        i += 1;
    }
    selection
}

/// A `key` is long enough to extract the columns `columns_out` from it,
/// where its first columns are `columns_in`.
pub open spec fn is_extractable<K: PartialEq, V>(
    columns_in: Seq<K>,
    columns_out: Seq<K>,
    key: Seq<V>,
) -> bool {
    exists|same: spec_fn(K, K) -> bool|
        {
            &&& #[trigger] decides(same)
            &&& forall|j: int|
                0 <= j < columns_out.len() ==> #[trigger] positions(
                    same,
                    columns_in,
                    columns_out,
                )[j] < key.len()
        }
}

/// Construct a function that moves the values of the columns `columns_out`
/// out of a key that begins with the columns `columns_in`.
pub fn prefix_extractor<K: PartialEq, V: Default + Clone>(
    columns_in: &[K],
    columns_out: &[K],
) -> (extractor: impl Fn(Vec<V>) -> Vec<V>)
    requires
        finds_columns(columns_in@, columns_out@),
    ensures
        forall|key: Vec<V>|
            is_extractable(columns_in@, columns_out@, key@) ==> #[trigger] call_requires(
                extractor,
                (key,),
            ),
        forall|same: spec_fn(K, K) -> bool, key: Vec<V>, prefix: Vec<V>| #[trigger]
            decides(same) && #[trigger] call_ensures(extractor, (key,), prefix) ==> moved_out(
                key@,
                positions(same, columns_in@, columns_out@),
                prefix@,
            ),
{
    let indices = places(columns_in, columns_out);
    let ghost from = indices@.map_values(|i: usize| i as int);
    let extractor = move |key: Vec<V>| -> (prefix: Vec<V>)
        requires
            forall|j: int| 0 <= j < indices@.len() ==> #[trigger] indices@[j] < key@.len(),
        ensures
            moved_out(key@, indices@.map_values(|i: usize| i as int), prefix@),
        { move_out(key, &indices) };
    proof {
        assert forall|key: Vec<V>|
            is_extractable(columns_in@, columns_out@, key@) implies #[trigger] call_requires(
            extractor,
            (key,),
        ) by {
            let same = choose|same: spec_fn(K, K) -> bool|
                {
                    &&& #[trigger] decides(same)
                    &&& forall|j: int|
                        0 <= j < columns_out@.len() ==> #[trigger] positions(
                            same,
                            columns_in@,
                            columns_out@,
                        )[j] < key@.len()
                };
            assert(from == positions(same, columns_in@, columns_out@));
            assert forall|j: int| 0 <= j < indices@.len() implies #[trigger] indices@[j]
                < key@.len() by {
                assert(from[j] == positions(same, columns_in@, columns_out@)[j]);
            }
        }
    }
    extractor
}

/// Move the values of the columns `columns_out` out of a `key`
/// that begins with the columns `columns_in`.
pub fn extract_prefix<K: PartialEq, V: Default + Clone>(
    key: Vec<V>,
    columns_in: &[K],
    columns_out: &[K],
) -> (prefix: Vec<V>)
    requires
        finds_columns(columns_in@, columns_out@),
        is_extractable(columns_in@, columns_out@, key@),
    ensures
        forall|same: spec_fn(K, K) -> bool| #[trigger]
            decides(same) ==> moved_out(
                key@,
                positions(same, columns_in@, columns_out@),
                prefix@,
            ),
{
    let extractor = prefix_extractor(columns_in, columns_out);
    extractor(key)
}

/// Move the values of the columns `columns_out` out of a `row` whose columns are `columns_in`.
pub fn extract_columns<K: Eq, V: Default + Clone>(
    row: Vec<V>,
    columns_in: &[K],
    columns_out: &[K],
) -> (selection: Vec<V>)
    requires
        row@.len() == columns_in@.len(),
        finds_columns(columns_in@, columns_out@),
    ensures
        forall|same: spec_fn(K, K) -> bool| #[trigger]
            decides(same) ==> moved_out(
                row@,
                positions(same, columns_in@, columns_out@),
                selection@,
            ),
{
    proof {
        let same = choose|same: spec_fn(K, K) -> bool| #[trigger]
            decides(same) && has_columns(same, columns_in@, columns_out@);
        assert forall|j: int| 0 <= j < columns_out@.len() implies #[trigger] positions(
            same,
            columns_in@,
            columns_out@,
        )[j] < row@.len() by {
            assert(has_column(same, columns_in@, columns_out@[j]));
            lemma_has_position(same, columns_in@, columns_out@[j]);
        }
    }
    extract_prefix(row, columns_in, columns_out)
}

} // verus!
