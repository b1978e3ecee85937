//! Which values of a row stand in which columns.

use vstd::prelude::*;

use crate::equality::decides;
use crate::table::columns::{
    borrow_columns, clone_columns, extract_columns, extract_prefix, finds_columns, has_column, has_columns,
    is_blank, is_extractable, is_first_use, is_position, lemma_has_position, lemma_position_of,
    moved_out, position, position_of, positions, select,
};

verus! {

/// The place that is found for a column is the first one with the same name,
/// and none is found just if no column has that name.
pub proof fn law_found_place<K: PartialEq>(
    same: spec_fn(K, K) -> bool,
    columns: &[K],
    name: &K,
    place: Option<usize>,
)
    requires
        decides(same),
        call_ensures(position::<K>, (columns, name), place),
    ensures
        match place {
            Some(i) => {
                &&& i < columns@.len()
                &&& same(columns@[i as int], *name)
                &&& forall|j: int| 0 <= j < i ==> !same(#[trigger] columns@[j], *name)
            },
            None => forall|j: int|
                0 <= j < columns@.len() ==> !same(#[trigger] columns@[j], *name),
        },
{
    if has_column(same, columns@, *name) {
        lemma_has_position(same, columns@, *name);
    } else {
        assert forall|j: int| 0 <= j < columns@.len() implies !same(
            #[trigger] columns@[j],
            *name,
        ) by {}
    }
}

/// The first column with a name is its place.
proof fn lemma_place<K>(same: spec_fn(K, K) -> bool, columns: Seq<K>, name: K, p: int)
    requires
        0 <= p < columns.len(),
        same(columns[p], name),
        forall|q: int| 0 <= q < p ==> !same(#[trigger] columns[q], name),
    ensures
        position_of(same, columns, name) == Some(p),
{
    assert(is_position(same, columns, name, p));
    lemma_position_of(same, columns, name, p);
}

/// Selecting columns one after the other is selecting them together.
proof fn lemma_select_concat<K, V>(
    same: spec_fn(K, K) -> bool,
    row: Seq<V>,
    columns: Seq<K>,
    first: Seq<K>,
    second: Seq<K>,
)
    ensures
        select(same, row, columns, first + second) == select(same, row, columns, first) + select(
            same,
            row,
            columns,
            second,
        ),
    decreases second.len(),
{
    if second.len() == 0 {
        assert(first + second =~= first);
        assert(select(same, row, columns, first) + select(same, row, columns, second) =~= select(
            same,
            row,
            columns,
            first,
        ));
    } else {
        assert((first + second).drop_last() =~= first + second.drop_last());
        lemma_select_concat(same, row, columns, first, second.drop_last());
        assert(select(same, row, columns, first + second) =~= select(same, row, columns, first)
            + select(same, row, columns, second));
    }
}

/// Borrowing one column gives the value that the row has in the first column of that name,
/// and nothing if it has none.
pub proof fn law_borrowed_column<'a, K: Eq, V>(
    same: spec_fn(K, K) -> bool,
    row: &'a [V],
    columns_in: &[K],
    columns_out: &[K],
    p: int,
    selection: Vec<&'a V>,
)
    requires
        decides(same),
        call_ensures(borrow_columns::<K, V>, (row, columns_in, columns_out), selection),
        columns_out@.len() == 1,
        0 <= p <= columns_in@.len(),
        forall|q: int| 0 <= q < p ==> !same(#[trigger] columns_in@[q], columns_out@[0]),
        p < columns_in@.len() ==> same(columns_in@[p], columns_out@[0]),
    ensures
        p < columns_in@.len() ==> selection@.len() == 1 && *selection@[0] == row@[p],
        p == columns_in@.len() ==> selection@.len() == 0,
{
    let name = columns_out@[0];
    assert(columns_out@.drop_last() =~= Seq::<K>::empty());
    reveal_with_fuel(select, 2);
    if p < columns_in@.len() {
        lemma_place(same, columns_in@, name, p);
        let values = selection@.unref();
        assert(values =~= seq![row@[p]]);
        assert(values.len() == selection@.len());
        assert(values[0] == *selection@[0]);
    } else {
        assert(!has_column(same, columns_in@, name));
        assert(selection@.unref().len() == selection@.len());
    }
}

/// Borrowing columns one after the other is borrowing them together, in the same order.
pub proof fn law_borrowed_columns<'a, K: Eq, V>(
    same: spec_fn(K, K) -> bool,
    row: &'a [V],
    columns_in: &[K],
    first: (&[K], Vec<&'a V>),
    second: (&[K], Vec<&'a V>),
    both: (&[K], Vec<&'a V>),
)
    requires
        decides(same),
        call_ensures(borrow_columns::<K, V>, (row, columns_in, first.0), first.1),
        call_ensures(borrow_columns::<K, V>, (row, columns_in, second.0), second.1),
        call_ensures(borrow_columns::<K, V>, (row, columns_in, both.0), both.1),
        both.0@ == first.0@ + second.0@,
    ensures
        both.1@ == first.1@ + second.1@,
{
    lemma_select_concat(same, row@, columns_in@, first.0@, second.0@);
    let a = first.1@;
    let b = second.1@;
    let c = both.1@;
    assert(c.unref() == a.unref() + b.unref());
    assert(c.len() == a.len() + b.len());
    assert forall|i: int| 0 <= i < c.len() implies c[i] == (a + b)[i] by {
        assert(c.unref()[i] == *c[i]);
        if i < a.len() {
            assert(a.unref()[i] == *a[i]);
        } else {
            assert(b.unref()[i - a.len()] == *b[i - a.len()]);
        }
    }
    assert(c =~= a + b);
}

/// If the row has all of the columns, the value borrowed for each of them is the one
/// that the row has in the first column of that name.
pub proof fn law_borrowed_value<'a, K: Eq, V>(
    same: spec_fn(K, K) -> bool,
    row: &'a [V],
    columns_in: &[K],
    columns_out: &[K],
    i: int,
    p: int,
    selection: Vec<&'a V>,
)
    requires
        decides(same),
        call_ensures(borrow_columns::<K, V>, (row, columns_in, columns_out), selection),
        forall|j: int|
            0 <= j < columns_out@.len() ==> exists|q: int|
                0 <= q < columns_in@.len() && same(
                    #[trigger] columns_in@[q],
                    #[trigger] columns_out@[j],
                ),
        0 <= i < columns_out@.len(),
        0 <= p < columns_in@.len(),
        same(columns_in@[p], columns_out@[i]),
        forall|q: int| 0 <= q < p ==> !same(#[trigger] columns_in@[q], columns_out@[i]),
    ensures
        selection@.len() == columns_out@.len(),
        *selection@[i] == row@[p],
{
    assert forall|j: int| 0 <= j < columns_out@.len() implies has_column(
        same,
        columns_in@,
        #[trigger] columns_out@[j],
    ) by {}
    lemma_place(same, columns_in@, columns_out@[i], p);
    super::lemma_select(same, row@, columns_in@, columns_out@);
    assert(selection@.unref().len() == selection@.len());
    assert(selection@.unref()[i] == *selection@[i]);
    assert(select(same, row@, columns_in@, columns_out@)[i] == row@[p]);
}

/// Cloning columns gives, value for value and in the same order, clones of what borrowing them gives:
/// the very same values, if they clone to themselves.
pub proof fn law_cloned_columns<'a, K: Eq, V: Clone>(
    same: spec_fn(K, K) -> bool,
    row: &'a [V],
    columns_in: &[K],
    columns_out: &[K],
    borrowed: Vec<&'a V>,
    selection: Vec<V>,
)
    requires
        decides(same),
        call_ensures(borrow_columns::<K, V>, (row, columns_in, columns_out), borrowed),
        call_ensures(clone_columns::<K, V>, (row, columns_in, columns_out), selection),
    ensures
        selection@.len() == borrowed@.len(),
        forall|i: int|
            0 <= i < selection@.len() ==> cloned(*borrowed@[i], #[trigger] selection@[i]),
        (forall|value: V, copy: V| #[trigger] cloned(value, copy) ==> copy == value)
            ==> selection@ == select(same, row@, columns_in@, columns_out@),
{
    let values = select(same, row@, columns_in@, columns_out@);
    assert(borrowed@.unref().len() == borrowed@.len());
    assert forall|i: int| 0 <= i < selection@.len() implies cloned(
        *borrowed@[i],
        #[trigger] selection@[i],
    ) by {
        assert(borrowed@.unref()[i] == *borrowed@[i]);
        assert(cloned(values[i], selection@[i]));
    }
    if forall|value: V, copy: V| #[trigger] cloned(value, copy) ==> copy == value {
        assert forall|i: int| 0 <= i < values.len() implies selection@[i] == values[i] by {
            assert(cloned(values[i], selection@[i]));
        }
        assert(selection@ =~= values);
    }
}

/// Each value that is moved out of a row is the one that the row has in the first column
/// of that name, unless it was moved out before; then it is a copy of the default value.
pub proof fn law_extracted_value<K: Eq, V: Default + Clone>(
    same: spec_fn(K, K) -> bool,
    row: Vec<V>,
    columns_in: &[K],
    columns_out: &[K],
    from: Seq<int>,
    j: int,
    selection: Vec<V>,
)
    requires
        0 <= j < from.len(),
        decides(same),
        call_ensures(extract_columns::<K, V>, (row, columns_in, columns_out), selection),
        from.len() == columns_out@.len(),
        forall|j: int|
            0 <= j < from.len() ==> {
                &&& 0 <= #[trigger] from[j] < columns_in@.len()
                &&& same(columns_in@[from[j]], columns_out@[j])
            },
        forall|j: int, q: int|
            #![trigger from[j], columns_in@[q]]
            0 <= j < from.len() && 0 <= q < from[j] ==> !same(columns_in@[q], columns_out@[j]),
    ensures
        selection@.len() == columns_out@.len(),
        (forall|h: int| 0 <= h < j ==> #[trigger] from[h] != from[j]) ==> selection@[j] == row@[from[j]],
        (exists|h: int| 0 <= h < j && #[trigger] from[h] == from[j]) ==> exists|blank: V| #[trigger]
            call_ensures(V::default, (), blank) && cloned(blank, selection@[j]),
{
    lemma_moved_places(same, columns_in@, columns_out@, from);
    lemma_moved(row@, from, j, selection@);
}

/// The places of columns are the first ones with their names.
proof fn lemma_moved_places<K>(
    same: spec_fn(K, K) -> bool,
    columns_in: Seq<K>,
    columns_out: Seq<K>,
    from: Seq<int>,
)
    requires
        from.len() == columns_out.len(),
        forall|j: int|
            0 <= j < from.len() ==> {
                &&& 0 <= #[trigger] from[j] < columns_in.len()
                &&& same(columns_in[from[j]], columns_out[j])
            },
        forall|j: int, q: int|
            #![trigger from[j], columns_in[q]]
            0 <= j < from.len() && 0 <= q < from[j] ==> !same(columns_in[q], columns_out[j]),
    ensures
        positions(same, columns_in, columns_out) == from,
{
    assert forall|j: int| 0 <= j < from.len() implies positions(same, columns_in, columns_out)[j]
        == from[j] by {
        lemma_place(same, columns_in, columns_out[j], from[j]);
    }
    assert(positions(same, columns_in, columns_out) =~= from);
}

/// What is moved out of a row at each place.
proof fn lemma_moved<V: Default + Clone>(row: Seq<V>, from: Seq<int>, j: int, out: Seq<V>)
    requires
        0 <= j < from.len(),
        moved_out(row, from, out),
    ensures
        out.len() == from.len(),
        (forall|h: int| 0 <= h < j ==> #[trigger] from[h] != from[j]) ==> out[j] == row[from[j]],
        (exists|h: int| 0 <= h < j && #[trigger] from[h] == from[j]) ==> exists|blank: V| #[trigger]
            call_ensures(V::default, (), blank) && cloned(blank, out[j]),
{
    if exists|h: int| 0 <= h < j && #[trigger] from[h] == from[j] {
        assert(!is_first_use(from, j));
        assert(is_blank(out[j]));
    } else {
        assert(is_first_use(from, j));
    }
}

/// An extracted prefix has, for each of its columns, the value that the key has in the first column
/// of that name, unless it was moved out before; then it is a copy of the default value.
pub proof fn law_extracted_prefix<K: PartialEq, V: Default + Clone>(
    same: spec_fn(K, K) -> bool,
    key: Vec<V>,
    columns_in: &[K],
    columns_out: &[K],
    from: Seq<int>,
    j: int,
    prefix: Vec<V>,
)
    requires
        0 <= j < from.len(),
        decides(same),
        call_ensures(extract_prefix::<K, V>, (key, columns_in, columns_out), prefix),
        from.len() == columns_out@.len(),
        forall|j: int|
            0 <= j < from.len() ==> {
                &&& 0 <= #[trigger] from[j] < columns_in@.len()
                &&& same(columns_in@[from[j]], columns_out@[j])
            },
        forall|j: int, q: int|
            #![trigger from[j], columns_in@[q]]
            0 <= j < from.len() && 0 <= q < from[j] ==> !same(columns_in@[q], columns_out@[j]),
    ensures
        prefix@.len() == columns_out@.len(),
        (forall|h: int| 0 <= h < j ==> #[trigger] from[h] != from[j]) ==> prefix@[j]
            == key@[from[j]],
        (exists|h: int| 0 <= h < j && #[trigger] from[h] == from[j]) ==> exists|blank: V| #[trigger]
            call_ensures(V::default, (), blank) && cloned(blank, prefix@[j]),
{
    lemma_moved_places(same, columns_in@, columns_out@, from);
    lemma_moved(key@, from, j, prefix@);
}

/// Columns can be moved out of every row that has them,
/// and out of every key that begins with columns which have them.
pub proof fn law_extractable<K: PartialEq, V>(
    same: spec_fn(K, K) -> bool,
    columns_in: Seq<K>,
    columns_out: Seq<K>,
    key: Seq<V>,
)
    requires
        decides(same),
        columns_in.len() <= key.len(),
        forall|j: int|
            0 <= j < columns_out.len() ==> exists|q: int|
                0 <= q < columns_in.len() && same(
                    #[trigger] columns_in[q],
                    #[trigger] columns_out[j],
                ),
    ensures
        finds_columns(columns_in, columns_out),
        is_extractable(columns_in, columns_out, key),
{
    assert forall|j: int| 0 <= j < columns_out.len() implies has_column(
        same,
        columns_in,
        #[trigger] columns_out[j],
    ) by {}
    assert(has_columns(same, columns_in, columns_out));
    assert forall|j: int| 0 <= j < columns_out.len() implies #[trigger] positions(
        same,
        columns_in,
        columns_out,
    )[j] < key.len() by {
        lemma_has_position(same, columns_in, columns_out[j]);
    }
}

} // verus!
