use b_table::table::columns::{
    borrow_columns, clone_columns, extract_columns, position, prefix_extractor,
};

fn names(columns: &[&str]) -> Vec<String> {
    columns.iter().map(|name| name.to_string()).collect()
}

#[test]
fn position_is_the_first_equal_column() {
    let columns = names(&["a", "b", "a"]);
    assert_eq!(position(&columns, &"a".to_string()), Some(0));
    assert_eq!(position(&columns, &"b".to_string()), Some(1));
    assert_eq!(position(&columns, &"c".to_string()), None);
    assert_eq!(position(&[], &"a".to_string()), None);
}

#[test]
fn columns_are_borrowed_in_the_order_asked_for() {
    let row = [10, 20, 30];
    let columns = names(&["a", "b", "c"]);
    assert_eq!(borrow_columns(&row, &columns, &names(&["c", "a"])), vec![&30, &10]);
    assert_eq!(borrow_columns(&row, &columns, &names(&["b", "b"])), vec![&20, &20]);
    assert_eq!(borrow_columns(&row, &columns, &columns), vec![&10, &20, &30]);
    assert!(borrow_columns(&row, &columns, &[]).is_empty());
}

#[test]
fn columns_are_cloned_in_the_order_asked_for() {
    let row = names(&["x", "y", "z"]);
    let columns = [1, 2, 3];
    assert_eq!(clone_columns(&row, &columns, &[3, 1]), names(&["z", "x"]));
    assert_eq!(clone_columns(&row, &columns, &[2, 2]), names(&["y", "y"]));
    assert_eq!(clone_columns(&row, &columns, &columns), row);
    assert!(clone_columns(&row, &columns, &[]).is_empty());
}

#[test]
fn a_column_that_is_not_there_is_passed_over() {
    let row = [10, 20, 30];
    let columns = [1, 2, 3];
    assert_eq!(borrow_columns(&row, &columns, &[4, 2, 5]), vec![&20]);
    assert_eq!(clone_columns(&row, &columns, &[4, 2, 5]), vec![20]);
}

#[test]
fn columns_are_moved_out() {
    let row = names(&["x", "y", "z"]);
    let columns = names(&["a", "b", "c"]);
    assert_eq!(
        extract_columns(row.clone(), &columns, &names(&["c", "a"])),
        names(&["z", "x"])
    );
    assert_eq!(extract_columns(row.clone(), &columns, &columns), row);
    assert!(extract_columns(row, &columns, &[]).is_empty());
}

#[test]
fn a_column_can_be_moved_out_only_once() {
    let columns = [1, 2, 3];
    assert_eq!(extract_columns(vec![10, 20, 30], &columns, &[2, 2, 1]), vec![20, 0, 10]);
    assert_eq!(extract_columns(vec![10, 20, 30], &columns, &[2, 2, 2]), vec![20, 0, 0]);
}

#[test]
fn extraction_agrees_with_cloning_and_borrowing() {
    let row = vec![10, 20, 30, 40];
    let columns = [1, 2, 3, 4];
    let out = [4, 2, 1];
    let cloned = clone_columns(&row, &columns, &out);
    let borrowed: Vec<i32> = borrow_columns(&row, &columns, &out).into_iter().copied().collect();
    let prefix = prefix_extractor(&columns, &out)(row.clone());
    assert_eq!(cloned, vec![40, 20, 10]);
    assert_eq!(borrowed, cloned);
    assert_eq!(prefix, cloned);
    assert_eq!(extract_columns(row, &columns, &out), cloned);
}

#[test]
fn a_prefix_extractor_ignores_what_follows_its_columns() {
    let extract = prefix_extractor(&["a", "b"], &["b", "a"]);
    assert_eq!(extract(vec![1, 2]), vec![2, 1]);
    assert_eq!(extract(vec![1, 2, 3, 4]), vec![2, 1]);
    let first = prefix_extractor(&["a", "b", "c"], &["a"]);
    assert_eq!(first(vec![7]), vec![7]);
}

fn hand_over<T: Send + 'static>(value: T) -> T {
    value
}

#[test]
fn a_prefix_extractor_can_be_handed_to_another_task() {
    let extract = hand_over(prefix_extractor(&["a", "b"], &["b"]));
    assert_eq!(extract(vec![1, 2]), vec![2]);
}

#[test]
fn the_key_of_a_row_can_be_taken_through_an_index() {
    let row = [10, 20, 30, 40];
    let primary = names(&["k", "l", "v", "w"]);
    let index = names(&["w", "l", "k"]);
    let key = names(&["k", "l"]);
    let part = clone_columns(&row, &primary, &index);
    assert_eq!(part, vec![40, 20, 10]);
    assert_eq!(clone_columns(&part, &index, &key), vec![10, 20]);
    assert_eq!(clone_columns(&row, &primary, &key), vec![10, 20]);
}
