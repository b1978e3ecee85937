use std::collections::HashMap;
use std::fmt;
use std::io;
use std::ops::Bound;
use std::path::PathBuf;
use std::sync::Arc;

use b_table::error::TableError;
use b_table::schema::{ColumnRange, IndexSchema, Range, Schema};
use b_table::table::acquire::Progress;
use b_table::table::row_of;
use b_table::table::table_lock::TableLock;
use b_table::table::validity::{
    bad_key, fault_message, schema_fault, valid_schema, IndexFault, SchemaFault,
};
use b_table::text::{debug_string, decimal_string};
use b_tree::collate::Collate;
use b_tree::{BTreeLock, Node};
use freqfs::{Cache, DirLock, FileSave};
use safecast::AsType;
use tokio::runtime::Runtime;

#[derive(Clone)]
struct File(Node<Vec<Vec<u64>>>);

impl From<Node<Vec<Vec<u64>>>> for File {
    fn from(node: Node<Vec<Vec<u64>>>) -> Self {
        File(node)
    }
}

impl AsType<Node<Vec<Vec<u64>>>> for File {
    fn as_type(&self) -> Option<&Node<Vec<Vec<u64>>>> {
        Some(&self.0)
    }

    fn as_type_mut(&mut self) -> Option<&mut Node<Vec<Vec<u64>>>> {
        Some(&mut self.0)
    }

    fn into_type(self) -> Option<Node<Vec<Vec<u64>>>> {
        Some(self.0)
    }
}

impl FileSave for File {
    async fn save(&self, _file: &mut tokio::fs::File) -> io::Result<u64> {
        Ok(0)
    }
}

#[derive(Clone, Debug, PartialEq, Eq)]
struct Numbers {
    rank: u8,
}

impl Collate for Numbers {
    type Value = u64;

    fn cmp(&self, left: &u64, right: &u64) -> std::cmp::Ordering {
        left.cmp(right)
    }
}

#[derive(Debug)]
struct Refusal(String);

impl fmt::Display for Refusal {
    fn fmt(&self, f: &mut fmt::Formatter<'_>) -> fmt::Result {
        f.write_str(&self.0)
    }
}

impl std::error::Error for Refusal {}

#[derive(Clone, Debug, PartialEq, Eq)]
struct Index(Vec<String>);

impl IndexSchema for Index {
    type Id = String;

    fn columns(&self) -> &[String] {
        &self.0
    }
}

impl b_tree::Schema for Index {
    type Error = Refusal;
    type Value = u64;

    fn block_size(&self) -> usize {
        4_096
    }

    fn len(&self) -> usize {
        self.0.len()
    }

    fn is_empty(&self) -> bool {
        self.0.is_empty()
    }

    fn order(&self) -> usize {
        8
    }

    fn validate_key(&self, key: Vec<u64>) -> Result<Vec<u64>, Refusal> {
        Ok(key)
    }
}

#[derive(Clone, Debug, PartialEq, Eq)]
struct Plain {
    key: Vec<String>,
    primary: Index,
    auxiliary: Vec<(String, Index)>,
}

impl Schema for Plain {
    type Id = String;
    type Value = u64;
    type Error = Refusal;
    type Index = Index;

    fn key(&self) -> &[String] {
        &self.key
    }

    fn primary(&self) -> &Index {
        &self.primary
    }

    fn auxiliary(&self) -> &[(String, Index)] {
        &self.auxiliary
    }

    fn validate_key(&self, key: Vec<u64>) -> Result<Vec<u64>, Refusal> {
        if key.len() == self.key.len() {
            Ok(key)
        } else {
            Err(Refusal("key".to_string()))
        }
    }

    fn validate_values(&self, values: Vec<u64>) -> Result<Vec<u64>, Refusal> {
        if values.len() + self.key.len() == self.primary.0.len() {
            Ok(values)
        } else {
            Err(Refusal("values".to_string()))
        }
    }
}

type Lock = TableLock<Plain, Index, Numbers, File>;

fn names(columns: &[&str]) -> Vec<String> {
    columns.iter().map(|name| name.to_string()).collect()
}

fn schema(auxiliary: &[(&str, &[&str])]) -> Plain {
    Plain {
        key: names(&["id", "part"]),
        primary: Index(names(&["id", "part", "size", "color"])),
        auxiliary: auxiliary
            .iter()
            .map(|(name, columns)| (name.to_string(), Index(names(columns))))
            .collect(),
    }
}

fn indexed() -> Plain {
    schema(&[
        ("size", &["size", "id", "part"]),
        ("color", &["color", "id", "part"]),
    ])
}

fn numbers() -> Numbers {
    Numbers { rank: 3 }
}

fn directory(runtime: &Runtime, name: &str) -> DirLock<File> {
    let path = PathBuf::from("/tmp/b_table_tests").join(name);
    runtime.block_on(async move {
        tokio::fs::create_dir_all(&path).await.expect("directory");
        let cache: Arc<Cache<File>> = Cache::new(1_000_000, None);
        cache.load(path).expect("cache")
    })
}

fn create(schema: Plain, dir: DirLock<File>) -> Result<Lock, TableError> {
    TableLock::create(schema, numbers(), dir, |index, collator, dir| {
        BTreeLock::create(index, collator, dir)
    })
}

fn load(schema: Plain, dir: DirLock<File>) -> Result<Lock, TableError> {
    TableLock::load(schema, numbers(), dir, |index, collator, dir| {
        BTreeLock::load(index, collator, dir)
    })
}

fn message(error: TableError) -> String {
    match error {
        TableError::InvalidInput(message) => message,
        TableError::Io(cause) => panic!("{cause}"),
    }
}

fn kind<T>(result: Result<T, TableError>) -> Option<io::ErrorKind> {
    match result {
        Err(TableError::Io(cause)) => Some(cause.kind()),
        _ => None,
    }
}

#[test]
fn decimal_numbers() {
    assert_eq!(decimal_string(0), "0");
    assert_eq!(decimal_string(7), "7");
    assert_eq!(decimal_string(10), "10");
    assert_eq!(decimal_string(90_210), "90210");
    assert_eq!(decimal_string(usize::MAX), usize::MAX.to_string());
}

#[test]
fn debug_texts() {
    assert_eq!(debug_string("a\"b"), "\"a\\\"b\"");
    assert_eq!(debug_string(&Some(3)), "Some(3)");
}

#[test]
fn a_bad_key_is_described() {
    assert_eq!(
        message(bad_key(&[1, 2, 3], 2)),
        "invalid key: [1, 2, 3], expected exactly 2 column(s)"
    );
    assert_eq!(
        message(bad_key::<String>(&[], 12)),
        "invalid key: [], expected exactly 12 column(s)"
    );
}

#[test]
fn a_schema_without_faults_is_valid() {
    assert!(valid_schema(&schema(&[])).is_ok());
    assert!(valid_schema(&indexed()).is_ok());
    assert!(schema_fault(&indexed()).is_none());
}

#[test]
fn the_order_of_columns_and_indices_does_not_matter() {
    let mut turned = schema(&[
        ("color", &["part", "color", "id"]),
        ("size", &["id", "size", "part"]),
    ]);
    turned.key = names(&["part", "id"]);
    turned.primary = Index(names(&["color", "size", "part", "id"]));
    assert!(valid_schema(&turned).is_ok());
    turned.primary = Index(names(&["color", "part", "id"]));
    assert!(valid_schema(&turned).is_err());
    let mut straight = indexed();
    straight.primary = Index(names(&["id", "part", "color"]));
    assert!(valid_schema(&straight).is_err());
}

#[test]
fn a_table_needs_columns() {
    let mut empty = indexed();
    empty.primary = Index(vec![]);
    let expected = format!("{empty:?} contains no columns");
    assert_eq!(message(valid_schema(&empty).unwrap_err()), expected);
    assert!(matches!(schema_fault(&empty), Some(SchemaFault::NoColumns)));
}

#[test]
fn an_index_needs_columns() {
    let faulty = schema(&[("size", &["size", "id", "part"]), ("none", &[])]);
    assert_eq!(message(valid_schema(&faulty).unwrap_err()), "index none is empty");
}

#[test]
fn an_index_has_columns_of_the_table() {
    let faulty = schema(&[("weight", &["size", "weight", "id", "age"])]);
    assert_eq!(
        message(valid_schema(&faulty).unwrap_err()),
        "index weight refers to unknown column weight"
    );
}

#[test]
fn an_index_has_the_columns_of_the_key() {
    let faulty = schema(&[("color", &["color", "id"]), ("none", &[])]);
    assert_eq!(
        message(valid_schema(&faulty).unwrap_err()),
        "index color is missing primary key column part"
    );
    assert!(matches!(
        schema_fault(&faulty),
        Some(SchemaFault::Index(0, IndexFault::MissingKeyColumn(1)))
    ));
    assert_eq!(
        fault_message(&faulty, SchemaFault::Index(1, IndexFault::Empty)),
        "index none is empty"
    );
}

#[test]
fn a_row_is_its_key_and_its_values() {
    assert_eq!(row_of(vec![1, 2], vec![3, 4]), vec![1, 2, 3, 4]);
    assert_eq!(row_of(vec![], vec![3]), vec![3]);
}

#[test]
fn a_created_table_has_all_of_its_indices() {
    let runtime = Runtime::new().expect("runtime");
    let dir = directory(&runtime, "created");
    let lock = create(indexed(), dir.clone()).expect("table");
    assert_eq!(lock.schema(), &indexed());
    assert_eq!(lock.collator().inner(), &numbers());
    assert_eq!(lock.auxiliary.len(), 2);
    assert_eq!(lock.auxiliary.at(0).0, "color");
    assert_eq!(lock.auxiliary.at(1).0, "size");
    assert_eq!(lock.primary.schema(), &indexed().primary);
    assert_eq!(lock.auxiliary.at(0).1.schema(), &indexed().auxiliary[1].1);
    let contents = dir.try_read().expect("contents");
    assert_eq!(contents.len(), 3);
    for name in ["primary", "color", "size"] {
        assert!(contents.get_dir(name).is_some());
    }
}

#[test]
fn a_table_is_created_once_but_loaded_often() {
    let runtime = Runtime::new().expect("runtime");
    let dir = directory(&runtime, "often");
    assert!(load(indexed(), dir.clone()).is_ok());
    assert!(load(indexed(), dir.clone()).is_ok());
    assert_eq!(
        kind(create(indexed(), dir.clone())),
        Some(io::ErrorKind::AlreadyExists)
    );
    assert_eq!(dir.try_read().expect("contents").len(), 3);
}

#[test]
fn two_indices_cannot_be_created_with_one_name() {
    let runtime = Runtime::new().expect("runtime");
    let twice = schema(&[
        ("size", &["size", "id", "part"]),
        ("size", &["color", "id", "part"]),
    ]);
    let dir = directory(&runtime, "twice");
    assert_eq!(
        kind(create(twice.clone(), dir)),
        Some(io::ErrorKind::AlreadyExists)
    );
    let lock = load(twice, directory(&runtime, "twice_loaded")).expect("table");
    assert_eq!(lock.auxiliary.len(), 1);
    assert_eq!(
        lock.auxiliary.get("size").expect("index").schema(),
        &Index(names(&["color", "id", "part"]))
    );
}

#[test]
fn an_invalid_schema_is_refused_before_the_directory_is_touched() {
    let runtime = Runtime::new().expect("runtime");
    let dir = directory(&runtime, "untouched");
    let faulty = schema(&[("none", &[])]);
    let guard = dir.try_write().expect("guard");
    assert_eq!(
        message(create(faulty.clone(), dir.clone()).map(|_| ()).unwrap_err()),
        "index none is empty"
    );
    assert_eq!(
        message(load(faulty, dir.clone()).map(|_| ()).unwrap_err()),
        "index none is empty"
    );
    assert_eq!(guard.len(), 0);
}

#[test]
fn a_directory_that_is_in_use_is_not_opened() {
    let runtime = Runtime::new().expect("runtime");
    let dir = directory(&runtime, "in_use");
    let guard = dir.try_read().expect("guard");
    assert_eq!(
        kind(create(indexed(), dir.clone())),
        Some(io::ErrorKind::WouldBlock)
    );
    assert_eq!(
        kind(load(indexed(), dir.clone())),
        Some(io::ErrorKind::WouldBlock)
    );
    drop(guard);
    assert!(create(indexed(), dir).is_ok());
}

#[test]
fn the_error_of_an_index_is_passed_on() {
    let runtime = Runtime::new().expect("runtime");
    let dir = directory(&runtime, "passed_on");
    let result: Result<Lock, TableError> =
        TableLock::create(indexed(), numbers(), dir.clone(), |index: Index, collator, dir| {
            if index.0[0] == "color" {
                Err(io::Error::from(io::ErrorKind::OutOfMemory))
            } else {
                BTreeLock::create(index, collator, dir)
            }
        });
    assert_eq!(kind(result), Some(io::ErrorKind::OutOfMemory));
    assert_eq!(dir.try_read().expect("contents").len(), 3);
}

#[test]
fn a_table_can_be_read_by_many_or_written_by_one() {
    let runtime = Runtime::new().expect("runtime");
    let lock = create(indexed(), directory(&runtime, "many_or_one")).expect("table");
    let reader = lock.try_read().expect("reader");
    assert_eq!(reader.state.auxiliary.len(), 2);
    assert!(reader.state.auxiliary.get("size").is_some());
    assert!(lock.try_read().is_ok());
    assert_eq!(kind(lock.try_write()), Some(io::ErrorKind::WouldBlock));
    drop(reader);
    let writer = lock.try_write().expect("writer");
    assert_eq!(kind(lock.try_read()), Some(io::ErrorKind::WouldBlock));
    assert_eq!(kind(lock.try_write()), Some(io::ErrorKind::WouldBlock));
    let downgraded = writer.downgrade();
    assert_eq!(downgraded.schema.inner(), &indexed());
    assert_eq!(downgraded.state.auxiliary.len(), 2);
    assert!(lock.try_read().is_ok());
    assert_eq!(kind(lock.try_write()), Some(io::ErrorKind::WouldBlock));
    let copy = downgraded.clone();
    drop(downgraded);
    assert_eq!(kind(lock.try_write()), Some(io::ErrorKind::WouldBlock));
    drop(copy);
    assert!(lock.try_write().is_ok());
}

#[test]
fn a_lock_on_one_index_is_enough_to_refuse() {
    let runtime = Runtime::new().expect("runtime");
    let lock = create(indexed(), directory(&runtime, "one_index")).expect("table");
    let copy = lock.clone();
    let index = copy.auxiliary.get("size").expect("index").try_write().expect("guard");
    assert_eq!(kind(lock.try_read()), Some(io::ErrorKind::WouldBlock));
    assert!(lock.primary.try_write().is_ok());
    drop(index);
    assert!(lock.try_read().is_ok());
}

#[test]
fn locks_are_taken_in_order() {
    let runtime = Runtime::new().expect("runtime");
    let three = schema(&[
        ("size", &["size", "id", "part"]),
        ("color", &["color", "id", "part"]),
        ("both", &["color", "size", "id", "part"]),
    ]);
    let lock = create(three, directory(&runtime, "in_order")).expect("table");
    let (mut next, mut acquisition) = lock.write();
    let mut columns = Vec::new();
    let table = loop {
        columns.push(next.schema().0[0].clone());
        let tree = next.try_write().expect("tree");
        match acquisition.acquired(tree) {
            Progress::Next(lock, going_on) => {
                next = lock;
                acquisition = going_on;
            }
            Progress::Done(table) => break table,
        }
    };
    assert_eq!(columns, names(&["id", "color", "color", "size"]));
    assert_eq!(table.state.auxiliary.len(), 3);
    assert_eq!(table.state.auxiliary.at(0).0, "both");
    drop(table);

    let (first, acquisition) = lock.into_read();
    assert_eq!(first.schema().0[0], "id");
    match acquisition.acquired(first.try_read().expect("tree")) {
        Progress::Next(second, _) => assert_eq!(second.schema().0.len(), 4),
        Progress::Done(_) => panic!("too early"),
    }
}

#[test]
fn a_table_without_auxiliary_indices_takes_one_lock() {
    let runtime = Runtime::new().expect("runtime");
    let lock = create(schema(&[]), directory(&runtime, "one_lock")).expect("table");
    let (first, acquisition) = lock.clone().into_write();
    let tree = first.try_write().expect("tree");
    match acquisition.acquired(tree) {
        Progress::Next(_, _) => panic!("too many"),
        Progress::Done(table) => assert_eq!(table.state.auxiliary.len(), 0),
    }
    let (first, acquisition) = lock.read();
    match acquisition.acquired(first.try_read().expect("tree")) {
        Progress::Next(_, _) => panic!("too many"),
        Progress::Done(table) => assert_eq!(table.schema.inner(), &schema(&[])),
    };
}

#[test]
fn a_key_has_the_columns_of_the_primary_key() {
    let runtime = Runtime::new().expect("runtime");
    let lock = create(indexed(), directory(&runtime, "keys")).expect("table");
    let table = lock.try_write().expect("table");
    let expected = "invalid key: [1], expected exactly 2 column(s)";
    assert_eq!(table.contains(&[1, 2]).expect("key"), &[1, 2]);
    assert_eq!(table.get_row(&[1, 2]).expect("key"), &[1, 2]);
    assert_eq!(table.delete_row(&[1, 2]).expect("key"), &[1, 2]);
    assert_eq!(message(table.contains(&[1]).unwrap_err()), expected);
    assert_eq!(message(table.get_row(&[1]).unwrap_err()), expected);
    assert_eq!(message(table.delete_row(&[1]).unwrap_err()), expected);
    assert!(table.contains(&[1, 2, 3]).is_err());
}

#[test]
fn a_value_is_what_was_inserted() {
    let runtime = Runtime::new().expect("runtime");
    let lock = create(indexed(), directory(&runtime, "values")).expect("table");
    let table = lock.try_write().expect("table");
    let row = table.upsert(vec![1, 2], vec![3, 4]).expect("row");
    assert_eq!(row, vec![1, 2, 3, 4]);
    assert_eq!(table.get_value(Some(row)), Some(vec![3, 4]));
    assert_eq!(table.get_value(Some(vec![1, 2])), Some(vec![]));
    assert_eq!(table.get_value(None), None);
    assert_eq!(table.upsert(vec![1], vec![3]).unwrap_err().0, "key");
    assert_eq!(table.upsert(vec![1, 2], vec![3]).unwrap_err().0, "values");
}

#[test]
fn queries_name_the_columns_of_the_schema() {
    let runtime = Runtime::new().expect("runtime");
    let lock = create(indexed(), directory(&runtime, "queries")).expect("table");
    let table = lock.try_read().expect("table");
    let key = names(&["id", "part"]);
    let order = names(&["size"]);
    let select = names(&["color"]);
    let range = || {
        let mut columns = HashMap::new();
        columns.insert(
            "size".to_string(),
            ColumnRange::In((Bound::Included(1), Bound::Unbounded)),
        );
        Range::new(columns)
    };

    let first = table.first(range(), &order, None);
    assert_eq!(first.select, &key[..]);
    assert_eq!(first.order, &order[..]);
    assert_eq!(first.key, &key[..]);
    assert!(!first.reverse);
    assert!(first.range.contains_key("size"));
    assert_eq!(table.first(range(), &order, Some(&select)).select, &select[..]);

    let rows = table.rows(range(), &order, true, None);
    assert_eq!(rows.select, &names(&["id", "part", "size", "color"])[..]);
    assert!(rows.reverse);
    assert_eq!(table.rows(range(), &[], false, Some(&select)).select, &select[..]);

    let all = table.into_rows();
    assert!(all.range.is_empty());
    assert!(all.order.is_empty());
    assert_eq!(all.select.len(), 4);

    assert_eq!(table.count(range()).plan_key, &key[..]);
    assert_eq!(table.delete_range(range()).plan_key, &key[..]);
    assert!(table.is_empty(range()).plan_key.is_empty());
    assert!(table.count(range()).order.is_empty());
    assert!(table.delete_range(range()).order.is_empty());
    assert!(table.is_empty(range()).order.is_empty());
    assert_eq!(table.is_empty(range()).key, &key[..]);
}

#[test]
fn only_tables_with_equal_schemata_are_merged() {
    let runtime = Runtime::new().expect("runtime");
    let lock = create(indexed(), directory(&runtime, "merged")).expect("table");
    let equal = create(indexed(), directory(&runtime, "merged_equal")).expect("table");
    let other = create(schema(&[]), directory(&runtime, "merged_other")).expect("table");
    let table = lock.try_write().expect("table");

    let rows = table.merge(equal.try_read().expect("table")).expect("rows");
    assert_eq!(rows.auxiliary.len(), 2);
    assert!(table.delete_all(equal.try_read().expect("table")).is_ok());

    let a = schema(&[]);
    let b = indexed();
    assert_eq!(
        message(table.merge(other.try_read().expect("table")).map(|_| ()).unwrap_err()),
        format!("cannot merge a table with schema {a:?} into one with schema {b:?}")
    );
    assert_eq!(
        message(table.delete_all(other.try_read().expect("table")).map(|_| ()).unwrap_err()),
        format!("cannot delete the contents of a table with schema {a:?} from one with schema {b:?}")
    );
}

#[test]
fn a_table_is_described_by_its_schema() {
    let runtime = Runtime::new().expect("runtime");
    let lock = create(schema(&[]), directory(&runtime, "described")).expect("table");
    let table = lock.try_read().expect("table");
    let inner = schema(&[]);
    assert_eq!(table.describe(), format!("table with schema {inner:?}"));
}
