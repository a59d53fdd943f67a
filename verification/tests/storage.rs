use std::path::PathBuf;
use little_collections::heap_array::HeapArray;
use storaj_db::distribution::execute_operation;
use storaj_db::protocol::errors::{AddRowError, GetRowError, RemoveRowError, SetRowError};
use storaj_db::protocol::types::{Data, Operation, OperationResult};
use storaj_db::storage::backend::{
    get_next_part_number, part_number_available, Backend, CombinedBackend, MemoryBackend,
};
use storaj_db::storage::parts::{existing_part_numbers, parse_decimal, part_number, sort_part_numbers, PartFile};
use storaj_db::storage::table::Table;

fn row(cells: &[Data]) -> HeapArray<Data> {
    HeapArray::from_slice(cells)
}

fn columns() -> HeapArray<(String, Data)> {
    HeapArray::from_slice(&[("a".to_string(), Data::U32(0)), ("b".to_string(), Data::I64(0))])
}

fn table(max: usize) -> Table<MemoryBackend> {
    Table::new("t".to_string(), 1, columns(), MemoryBackend::new(max, 0))
}

fn cells(r: &HeapArray<Data>) -> Vec<Data> {
    r.as_slice().to_vec()
}

#[test]
fn memory_backend_starts_empty() {
    let backend = MemoryBackend::new(3, 1);
    assert_eq!(backend.row_count(), 0);
    assert!(backend.get_row(0).is_err());
}

#[test]
fn memory_backend_adds_in_front() {
    let mut backend = MemoryBackend::new(3, 0);
    assert!(backend.add_row(row(&[Data::U32(1)])).is_ok());
    assert!(backend.add_row(row(&[Data::U32(2)])).is_ok());
    assert_eq!(cells(&backend.get_row(0).unwrap()), vec![Data::U32(2)]);
    assert_eq!(cells(&backend.get_row(1).unwrap()), vec![Data::U32(1)]);
    assert_eq!(backend.row_count(), 2);
}

#[test]
fn memory_backend_refuses_when_full() {
    let mut backend = MemoryBackend::new(1, 8);
    assert!(backend.add_row(row(&[])).is_ok());
    assert!(backend.add_row(row(&[Data::U32(9)])).is_err());
    assert_eq!(backend.row_count(), 1);
}

#[test]
fn memory_backend_set_and_remove() {
    let mut backend = MemoryBackend::new(5, 0);
    backend.add_row(row(&[Data::U32(1)])).unwrap();
    backend.add_row(row(&[Data::U32(2)])).unwrap();
    assert!(backend.set_row(1, row(&[Data::U64(5)])).is_ok());
    assert!(backend.set_row(2, row(&[])).is_err());
    assert_eq!(cells(&backend.get_row(1).unwrap()), vec![Data::U64(5)]);
    let removed = backend.remove_row(0).unwrap();
    assert_eq!(cells(&removed), vec![Data::U32(2)]);
    assert_eq!(cells(&backend.get_row(0).unwrap()), vec![Data::U64(5)]);
    assert!(backend.remove_row(1).is_err());
}

#[test]
fn memory_backend_copy_is_independent() {
    let mut backend = MemoryBackend::new(5, 0);
    backend.add_row(row(&[Data::U32(1), Data::U32(2)])).unwrap();
    let mut copy = backend.get_row(0).unwrap();
    copy[0] = Data::U32(99);
    assert_eq!(cells(&backend.get_row(0).unwrap()), vec![Data::U32(1), Data::U32(2)]);
}

#[test]
fn table_read_after_write() {
    let mut t = table(10);
    assert!(t.add_row(row(&[Data::U32(1), Data::I64(-1)])).is_ok());
    assert!(t.set_row(0, row(&[Data::U32(2), Data::I64(-2)])).is_ok());
    assert_eq!(cells(&t.get_row(0).unwrap()), vec![Data::U32(2), Data::I64(-2)]);
}

#[test]
fn table_add_puts_row_first() {
    let mut t = table(10);
    t.add_row(row(&[Data::U32(1)])).unwrap();
    t.add_row(row(&[Data::U32(2)])).unwrap();
    assert_eq!(cells(&t.get_row(0).unwrap()), vec![Data::U32(2)]);
    assert_eq!(cells(&t.get_row(1).unwrap()), vec![Data::U32(1)]);
}

#[test]
fn table_checks_column_types_as_far_as_both_reach() {
    let mut t = table(10);
    assert_eq!(t.add_row(row(&[Data::U64(1)])), Err(AddRowError::InappropriateRows));
    assert_eq!(t.add_row(row(&[Data::U32(1), Data::I32(1)])), Err(AddRowError::InappropriateRows));
    assert_eq!(t.add_row(row(&[Data::U32(1)])), Ok(()));
    assert_eq!(t.add_row(row(&[Data::U32(1), Data::I64(2), Data::F32(0)])), Ok(()));
    assert_eq!(t.add_row(row(&[])), Ok(()));
    assert_eq!(t.set_row(0, row(&[Data::I64(1)])), Err(SetRowError::InappropriateRows));
}

#[test]
fn table_errors() {
    let mut t = table(1);
    assert!(matches!(t.get_row(0), Err(GetRowError::NotFound)));
    assert_eq!(t.set_row(0, row(&[Data::U32(1)])), Err(SetRowError::NotFound));
    assert!(matches!(t.remove_row(0), Err(RemoveRowError::NotFound)));
    assert_eq!(t.add_row(row(&[Data::U32(1)])), Ok(()));
    assert_eq!(t.add_row(row(&[Data::U32(2)])), Err(AddRowError::Overflow));
    assert_eq!(cells(&t.get_row(0).unwrap()), vec![Data::U32(1)]);
    assert!(t.get_row(1).is_err());
}

#[test]
fn table_remove_closes_gap() {
    let mut t = table(10);
    for v in [1u32, 2, 3] {
        t.add_row(row(&[Data::U32(v)])).unwrap();
    }
    let removed = t.remove_row(1).unwrap();
    assert_eq!(cells(&removed), vec![Data::U32(2)]);
    assert_eq!(cells(&t.get_row(0).unwrap()), vec![Data::U32(3)]);
    assert_eq!(cells(&t.get_row(1).unwrap()), vec![Data::U32(1)]);
    assert!(t.get_row(2).is_err());
}

#[test]
fn execute_operations_on_a_table() {
    let mut t = table(10);
    let added = execute_operation(&mut t, Operation::AddRow(1, row(&[Data::U32(4)])));
    assert!(matches!(added, OperationResult::AddRow(Ok(()))));
    match execute_operation(&mut t, Operation::GetRow(1, 0)) {
        OperationResult::GetRow(Ok(r)) => assert_eq!(cells(&r), vec![Data::U32(4)]),
        _ => panic!("expected a row"),
    }
    let set = execute_operation(&mut t, Operation::SetRow(1, 3, row(&[Data::U32(1)])));
    assert!(matches!(set, OperationResult::SetRow(Err(SetRowError::NotFound))));
    match execute_operation(&mut t, Operation::RemoveRow(1, 0)) {
        OperationResult::RemoveRow(Ok(r)) => assert_eq!(cells(&r), vec![Data::U32(4)]),
        _ => panic!("expected the removed row"),
    }
    assert!(matches!(execute_operation(&mut t, Operation::GetRow(1, 0)), OperationResult::GetRow(Err(GetRowError::NotFound))));
}

#[test]
fn force_save_of_memory_backend() {
    let t = table(2);
    let backend = MemoryBackend::new(2, 0);
    assert_eq!(backend.force_save(&t), Ok(()));
}

#[test]
fn combined_backend_new() {
    let b = CombinedBackend::new(5, 2, PathBuf::from("/tmp/x"));
    let _ = b;
}

#[test]
fn next_part_number_cases() {
    assert_eq!(get_next_part_number(vec![]), 0);
    assert_eq!(get_next_part_number(vec![0, 1, 2]), 3);
    assert_eq!(get_next_part_number(vec![5]), 0);
    assert_eq!(get_next_part_number(vec![0]), 1);
    assert_eq!(get_next_part_number(vec![0, 1, 3]), 2);
    assert_eq!(get_next_part_number(vec![2, 5, 9]), 3);
    assert_eq!(get_next_part_number(vec![0, 0]), 1);
}

#[test]
fn next_part_number_is_fresh() {
    for parts in [vec![], vec![0, 1], vec![3], vec![0, 2, 3], vec![1, 4, 5, 8]] {
        let next = get_next_part_number(parts.clone());
        assert!(!parts.contains(&next));
    }
}

#[test]
fn part_number_availability() {
    assert!(part_number_available(&vec![]));
    assert!(part_number_available(&vec![0, 1]));
    assert!(part_number_available(&vec![7]));
    assert!(part_number_available(&vec![1, 3]));
    assert!(!part_number_available(&vec![1, 2, 3]));
    assert!(!part_number_available(&vec![usize::MAX]));
    assert!(!part_number_available(&vec![4, 2]));
}

#[test]
fn decimal_parsing() {
    assert_eq!(parse_decimal(b"17"), Some(17));
    assert_eq!(parse_decimal(b"+5"), Some(5));
    assert_eq!(parse_decimal(b"007"), Some(7));
    assert_eq!(parse_decimal(b""), None);
    assert_eq!(parse_decimal(b"+"), None);
    assert_eq!(parse_decimal(b"-5"), None);
    assert_eq!(parse_decimal(b"++5"), None);
    assert_eq!(parse_decimal(b"12a"), None);
    assert_eq!(parse_decimal(b"99999999999999999999999"), None);
    assert_eq!(parse_decimal(usize::MAX.to_string().as_bytes()), Some(usize::MAX));
    for text in ["0", "+0", "42", " 1", "1 ", "18446744073709551616"] {
        assert_eq!(parse_decimal(text.as_bytes()), usize::from_str_radix(text, 10).ok());
    }
}

fn file(is_file: bool, ext: Option<&str>, stem: Option<&str>) -> PartFile {
    PartFile {
        is_file,
        extension: ext.map(|e| e.as_bytes().to_vec()),
        stem: stem.map(|s| s.as_bytes().to_vec()),
    }
}

#[test]
fn part_files() {
    assert_eq!(part_number(&file(true, Some("datapart"), Some("12"))), Some(12));
    assert_eq!(part_number(&file(false, Some("datapart"), Some("12"))), None);
    assert_eq!(part_number(&file(true, Some("data"), Some("12"))), None);
    assert_eq!(part_number(&file(true, None, Some("12"))), None);
    assert_eq!(part_number(&file(true, Some("datapart"), None)), None);
    assert_eq!(part_number(&file(true, Some("datapart"), Some("x"))), None);
    let files = vec![
        file(true, Some("datapart"), Some("4")),
        file(true, Some("txt"), Some("1")),
        file(true, Some("datapart"), Some("0")),
    ];
    assert_eq!(existing_part_numbers(&files), vec![4, 0]);
}

#[test]
fn sorting_part_numbers() {
    assert_eq!(sort_part_numbers(vec![4, 0, 2, 2, 9, 1]), vec![0, 1, 2, 2, 4, 9]);
    assert_eq!(sort_part_numbers(vec![]), Vec::<usize>::new());
}

#[test]
fn remove_undoes_add() {
    let mut t = table(10);
    t.add_row(row(&[Data::U32(1)])).unwrap();
    t.add_row(row(&[Data::U32(2), Data::I64(5)])).unwrap();
    let removed = t.remove_row(0).unwrap();
    assert_eq!(cells(&removed), vec![Data::U32(2), Data::I64(5)]);
    assert_eq!(cells(&t.get_row(0).unwrap()), vec![Data::U32(1)]);
    assert!(t.get_row(1).is_err());
}

#[test]
fn full_exactly_at_limit() {
    let mut t = Table::new("z".to_string(), 2, columns(), MemoryBackend::new(0, 0));
    assert_eq!(t.add_row(row(&[])), Err(AddRowError::Overflow));
    let mut t2 = table(2);
    t2.add_row(row(&[])).unwrap();
    t2.add_row(row(&[])).unwrap();
    assert_eq!(t2.add_row(row(&[])), Err(AddRowError::Overflow));
    t2.remove_row(0).unwrap();
    assert_eq!(t2.add_row(row(&[])), Ok(()));
}
