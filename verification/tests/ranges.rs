use std::collections::HashMap;
use std::ops::Bound;

use b_table::plan::IndexQuery;
use b_table::schema::{ColumnRange, Range};
use b_table::table::ranges::{
    clone_index_range, index_range_borrow, index_range_for, inner_range_for, IndexRange,
};

fn range() -> HashMap<&'static str, ColumnRange<i32>> {
    let mut range = HashMap::new();
    range.insert("a", ColumnRange::Eq(1));
    range.insert("b", ColumnRange::Eq(2));
    range.insert("c", ColumnRange::In((Bound::Included(3), Bound::Excluded(4))));
    range.insert("d", ColumnRange::Eq(5));
    range
}

fn columns_left(range: &HashMap<&'static str, ColumnRange<i32>>) -> Vec<&'static str> {
    let mut left: Vec<&'static str> = range.keys().copied().collect();
    left.sort();
    left
}

#[test]
fn a_range_of_keys_ends_at_the_first_bounds() {
    let range = range();
    let keys = index_range_borrow(&["b", "a", "c", "d"], &range);
    let keys = IndexRange::from_tree_range(keys);
    assert_eq!(keys.prefix, vec![&2, &1]);
    assert_eq!(keys.start, Bound::Included(&3));
    assert_eq!(keys.end, Bound::Excluded(&4));
}

#[test]
fn a_range_of_keys_ends_at_the_first_free_column() {
    let range = range();
    let keys = IndexRange::from_tree_range(index_range_borrow(&["a", "x", "b"], &range));
    assert_eq!(keys.prefix, vec![&1]);
    assert_eq!(keys.start, Bound::Unbounded);
    assert_eq!(keys.end, Bound::Unbounded);
}

#[test]
fn a_range_of_keys_ends_with_the_columns() {
    let range = range();
    let keys = IndexRange::from_tree_range(index_range_borrow(&["d", "a"], &range));
    assert_eq!(keys.prefix, vec![&5, &1]);
    assert_eq!(keys.start, Bound::Unbounded);
    let none = IndexRange::from_tree_range(index_range_borrow(&[], &range));
    assert!(none.prefix.is_empty());
    assert_eq!(none.end, Bound::Unbounded);
}

#[test]
fn taking_a_range_of_keys_leaves_the_other_columns() {
    let mut range = range();
    let keys = IndexRange::from_tree_range(index_range_for(&["a", "c", "b"], &mut range));
    assert_eq!(keys.prefix, vec![1]);
    assert_eq!(keys.start, Bound::Included(3));
    assert_eq!(keys.end, Bound::Excluded(4));
    assert_eq!(columns_left(&range), vec!["b", "d"]);
}

#[test]
fn taking_a_range_of_keys_stops_at_a_free_column() {
    let mut range = range();
    let keys = IndexRange::from_tree_range(index_range_for(&["d", "x", "a"], &mut range));
    assert_eq!(keys.prefix, vec![5]);
    assert_eq!(keys.start, Bound::Unbounded);
    assert_eq!(columns_left(&range), vec!["a", "b", "c"]);
}

#[test]
fn a_column_is_taken_only_once() {
    let mut range = range();
    let keys = IndexRange::from_tree_range(index_range_for(&["a", "b", "a", "d"], &mut range));
    assert_eq!(keys.prefix, vec![1, 2]);
    assert_eq!(columns_left(&range), vec!["c", "d"]);
    let whole = self::range();
    let borrowed = IndexRange::from_tree_range(index_range_borrow(&["a", "b", "a", "d"], &whole));
    assert_eq!(borrowed.prefix, vec![&1, &2, &1, &5]);
}

#[test]
fn borrowed_and_taken_ranges_agree_on_distinct_columns() {
    let columns = ["b", "c", "a"];
    let whole = range();
    let mut taken = range();
    let borrowed = IndexRange::from_tree_range(index_range_borrow(&columns, &whole));
    let keys = IndexRange::from_tree_range(index_range_for(&columns, &mut taken));
    assert_eq!(borrowed.prefix, keys.prefix.iter().collect::<Vec<&i32>>());
    assert_eq!(borrowed.start, keys.start.as_ref());
    assert_eq!(borrowed.end, keys.end.as_ref());
}

#[test]
fn the_range_of_a_query_is_cloned() {
    let range = range();
    let bounded = IndexQuery::new(&["b", "a", "c"]);
    let keys = IndexRange::from_tree_range(inner_range_for(&bounded, &range));
    assert_eq!(keys.prefix, vec![2, 1]);
    assert_eq!(keys.start, Bound::Included(3));
    assert_eq!(keys.end, Bound::Excluded(4));

    let fixed = IndexQuery::new(&["d"]);
    let keys = IndexRange::from_tree_range(inner_range_for(&fixed, &range));
    assert_eq!(keys.prefix, vec![5]);
    assert_eq!(keys.start, Bound::Unbounded);
    assert_eq!(keys.end, Bound::Unbounded);

    let all = IndexQuery::new(&[]);
    let keys = IndexRange::from_tree_range(inner_range_for(&all, &range));
    assert!(keys.prefix.is_empty());
    assert_eq!(range.len(), 4);
}

#[test]
fn a_query_that_cannot_be_answered_has_no_range() {
    let range = range();
    assert!(clone_index_range(&IndexQuery::new(&["a", "x"]), &range).is_none());
    assert!(clone_index_range(&IndexQuery::new(&["c", "a"]), &range).is_none());
    let keys = clone_index_range(&IndexQuery::new(&["a", "c"]), &range).expect("keys");
    assert_eq!(keys.prefix, vec![1]);
    assert_eq!(keys.start, Bound::Included(3));
    assert_eq!(keys.end, Bound::Excluded(4));
}

#[test]
fn a_range_of_keys_comes_apart_as_it_was_made() {
    let made = IndexRange {
        prefix: vec![1, 2, 3],
        start: Bound::Excluded(7),
        end: Bound::Unbounded,
    };
    let parts = IndexRange::from_tree_range(made.into_tree_range());
    assert_eq!(parts.prefix, vec![1, 2, 3]);
    assert_eq!(parts.start, Bound::Excluded(7));
    assert_eq!(parts.end, Bound::Unbounded);
}

#[test]
fn the_default_range_is_free() {
    let range: Range<String, i32> = Range::default();
    assert!(range.into_inner().is_empty());
    let some = Range::new(self::range());
    assert_eq!(some.into_inner().len(), 4);
}

fn in_bounds(start: &Bound<i32>, end: &Bound<i32>, value: i32) -> bool {
    let after = match start {
        Bound::Included(least) => *least <= value,
        Bound::Excluded(least) => *least < value,
        Bound::Unbounded => true,
    };
    let until = match end {
        Bound::Included(greatest) => value <= *greatest,
        Bound::Excluded(greatest) => value < *greatest,
        Bound::Unbounded => true,
    };
    after && until
}

fn in_range(range: &HashMap<&'static str, ColumnRange<i32>>, row: &[(&'static str, i32)]) -> bool {
    row.iter().all(|(name, value)| match range.get(name) {
        Some(ColumnRange::Eq(only)) => only == value,
        Some(ColumnRange::In((start, end))) => in_bounds(start, end, *value),
        None => true,
    })
}

fn in_keys(keys: &IndexRange<i32>, key: &[i32]) -> bool {
    let len = keys.prefix.len();
    key[..len] == keys.prefix[..] && (key.len() == len || in_bounds(&keys.start, &keys.end, key[len]))
}

#[test]
fn taking_a_range_of_keys_loses_no_rows_and_adds_none() {
    let make = || {
        let mut range = HashMap::new();
        range.insert("a", ColumnRange::Eq(1));
        range.insert("b", ColumnRange::In((Bound::Excluded(0), Bound::Included(2))));
        range.insert("c", ColumnRange::Eq(2));
        range
    };
    let indices: [&[&'static str]; 6] = [
        &["a", "b", "c"],
        &["c", "a", "b"],
        &["b", "a", "c"],
        &["a", "c"],
        &["d", "a"],
        &["a", "a", "b"],
    ];
    for columns in indices {
        let whole = make();
        let mut left = make();
        let keys = IndexRange::from_tree_range(index_range_for(columns, &mut left));
        for n in 0..256 {
            let row = [("a", n % 4), ("b", n / 4 % 4), ("c", n / 16 % 4), ("d", n / 64)];
            let key: Vec<i32> = columns
                .iter()
                .map(|name| row.iter().find(|(column, _)| column == name).expect("column").1)
                .collect();
            assert_eq!(in_range(&whole, &row), in_keys(&keys, &key) && in_range(&left, &row));
        }
    }
}
