use little_collections::heap_array::HeapArray;
use storaj_db::protocol::errors::{AddRowError, AddUserError, GetRowError, RemoveRowError, SetRowError};
use storaj_db::protocol::message::{Answer, Authentication, Request};
use storaj_db::protocol::types::{Data, Operation, OperationResult};
use storaj_db::text::decode_text_or;
use storaj_db::util::{
    be_encode, data_array_readable, deserialize_data_array, get_u32, get_u64, read_be, serialize_data_array,
    Deserializable, Serializable,
};

fn row(cells: &[Data]) -> HeapArray<Data> {
    HeapArray::from_slice(cells)
}

#[test]
fn get_u64_reads_big_endian() {
    assert_eq!(get_u64(&[0, 0, 0, 0, 0, 0, 1, 2]), 258);
    assert_eq!(get_u64(&[0xff; 8]), u64::MAX);
    assert_eq!(get_u64(&[1, 2, 3, 4, 5, 6, 7, 8]), 0x0102030405060708);
}

#[test]
fn get_u32_and_read_be() {
    assert_eq!(get_u32(&[0, 0, 1, 0]), 256);
    assert_eq!(read_be(&[]), 0);
    assert_eq!(read_be(&[7, 1]), 0x0701);
}

#[test]
fn be_encode_matches_to_be_bytes() {
    assert_eq!(be_encode(0x0102030405060708, 8), 0x0102030405060708u64.to_be_bytes().to_vec());
    assert_eq!(be_encode(0xdeadbeef, 4), 0xdeadbeefu32.to_be_bytes().to_vec());
    assert_eq!(be_encode(5, 0), Vec::<u8>::new());
}

#[test]
fn u64_round_trip() {
    for v in [0u64, 1, 255, 256, 0x1234_5678_9abc_def0, u64::MAX] {
        assert_eq!(get_u64(&be_encode(v, 8)), v);
    }
}

#[test]
fn data_serialize_each_kind() {
    assert_eq!(Data::U32(1).serialize(), vec![0, 0, 0, 0, 1]);
    assert_eq!(Data::U64(2).serialize(), vec![1, 0, 0, 0, 0, 0, 0, 0, 2]);
    assert_eq!(Data::I32(-1).serialize(), vec![2, 0xff, 0xff, 0xff, 0xff]);
    assert_eq!(Data::I64(-2).serialize(), [vec![3u8], (-2i64).to_be_bytes().to_vec()].concat());
    assert_eq!(Data::F32(1.5f32.to_bits()).serialize(), [vec![4u8], 1.5f32.to_be_bytes().to_vec()].concat());
    assert_eq!(Data::F64((-0.25f64).to_bits()).serialize(), [vec![5u8], (-0.25f64).to_be_bytes().to_vec()].concat());
}

#[test]
fn data_round_trip_with_trailing_bytes() {
    let cells = [
        Data::U32(123),
        Data::U64(u64::MAX),
        Data::I32(i32::MIN),
        Data::I64(-42),
        Data::F32(3.25f32.to_bits()),
        Data::F64(f64::MAX.to_bits()),
    ];
    for cell in cells {
        let mut bytes = cell.serialize();
        let len = bytes.len();
        bytes.extend_from_slice(&[9, 9, 9]);
        assert_eq!(Data::deserialize(&bytes), (len, cell));
    }
}

#[test]
fn data_compare_by_kind() {
    assert!(Data::U32(1).compare(&Data::U32(2)));
    assert!(Data::F64(0).compare(&Data::F64(7)));
    assert!(!Data::U32(1).compare(&Data::U64(1)));
    assert!(!Data::I32(1).compare(&Data::I64(1)));
}

#[test]
fn error_codes() {
    assert_eq!(GetRowError::NoPermission.serialize(), vec![0]);
    assert_eq!(GetRowError::NotFound.serialize(), vec![1]);
    assert_eq!(SetRowError::NoPermission.serialize(), vec![0]);
    assert_eq!(SetRowError::NotFound.serialize(), vec![1]);
    assert_eq!(SetRowError::InappropriateRows.serialize(), vec![2]);
    assert_eq!(AddRowError::NoPermission.serialize(), vec![0]);
    assert_eq!(AddRowError::Overflow.serialize(), vec![1]);
    assert_eq!(AddRowError::InappropriateRows.serialize(), vec![2]);
    assert_eq!(RemoveRowError::NoPermission.serialize(), vec![0]);
    assert_eq!(RemoveRowError::NotFound.serialize(), vec![1]);
    assert_eq!(AddUserError::NoPermission.serialize(), vec![0]);
    assert_eq!(AddUserError::RoleNotFound.serialize(), vec![1]);
}

#[test]
fn data_array_serialization() {
    let r = row(&[Data::U32(7), Data::I32(-1)]);
    let expected = [vec![0u8, 0, 0, 0, 0, 0, 0, 2], vec![0, 0, 0, 0, 7], vec![2, 0xff, 0xff, 0xff, 0xff]].concat();
    assert_eq!(serialize_data_array(&r), expected);
    assert_eq!(serialize_data_array(&row(&[])), vec![0u8; 8]);
}

#[test]
fn operation_result_serialization() {
    let get = OperationResult::GetRow(Ok(row(&[Data::U64(1)])));
    assert_eq!(get.serialize(), [vec![0u8, 0], vec![0, 0, 0, 0, 0, 0, 0, 1], vec![1, 0, 0, 0, 0, 0, 0, 0, 1]].concat());
    assert_eq!(OperationResult::GetRow(Err(GetRowError::NotFound)).serialize(), vec![0, 1, 1]);
    assert_eq!(OperationResult::SetRow(Ok(())).serialize(), vec![1, 0]);
    assert_eq!(OperationResult::SetRow(Err(SetRowError::InappropriateRows)).serialize(), vec![1, 1, 2]);
    assert_eq!(OperationResult::AddRow(Ok(())).serialize(), vec![2, 0]);
    assert_eq!(OperationResult::AddRow(Err(AddRowError::Overflow)).serialize(), vec![2, 1, 1]);
    let removed = OperationResult::RemoveRow(Ok(row(&[])));
    assert_eq!(removed.serialize(), [vec![3u8, 0], vec![0u8; 8]].concat());
    assert_eq!(OperationResult::RemoveRow(Err(RemoveRowError::NotFound)).serialize(), vec![3, 1, 1]);
    assert_eq!(OperationResult::AddUser(Ok(0x0102)).serialize(), vec![4, 0, 0, 0, 0, 0, 0, 0, 1, 2]);
    assert_eq!(OperationResult::AddUser(Err(AddUserError::RoleNotFound)).serialize(), vec![4, 1, 1]);
}

#[test]
fn answer_serialization() {
    assert_eq!(Answer::Operation(OperationResult::SetRow(Ok(()))).serialize(), vec![0, 1, 0]);
    assert_eq!(Answer::GiveSession(5).serialize(), vec![1, 0, 0, 0, 0, 0, 0, 0, 5]);
    assert_eq!(Answer::WrongUser.serialize(), vec![2]);
    assert_eq!(Answer::WrongPassword.serialize(), vec![3]);
    assert_eq!(Answer::WrongSessionId.serialize(), vec![4]);
}

#[test]
fn session_answer_reads_back() {
    let bytes = Answer::GiveSession(0xfeed_beef_0000_0001).serialize();
    assert_eq!(bytes[0], 1);
    assert_eq!(get_u64(&bytes[1..9]), 0xfeed_beef_0000_0001);
}

fn u64b(v: u64) -> Vec<u8> {
    v.to_be_bytes().to_vec()
}

#[test]
fn operation_get_and_remove_row() {
    let bytes = [vec![0u8], u64b(3), u64b(9)].concat();
    assert!(matches!(Operation::deserialize(&bytes), Operation::GetRow(3, 9)));
    let bytes = [vec![3u8], u64b(4), u64b(1), vec![77]].concat();
    assert!(matches!(Operation::deserialize(&bytes), Operation::RemoveRow(4, 1)));
}

#[test]
fn operation_add_user() {
    let bytes = [vec![4u8], u64b(2), u64b(3), u64b(2), b"bobpw".to_vec()].concat();
    match Operation::deserialize(&bytes) {
        Operation::AddUser(name, password, role) => {
            assert_eq!(name, "bob");
            assert_eq!(password, "pw");
            assert_eq!(role, 2);
        }
        _ => panic!("expected AddUser"),
    }
}

#[test]
fn operation_add_user_with_bad_utf8() {
    let bytes = [vec![4u8], u64b(1), u64b(1), u64b(1), vec![0xff, 0xfe]].concat();
    match Operation::deserialize(&bytes) {
        Operation::AddUser(name, password, role) => {
            assert_eq!(name, "Non-UTF8 user name");
            assert_eq!(password, "Non-UTF8 password");
            assert_eq!(role, 1);
        }
        _ => panic!("expected AddUser"),
    }
}

#[test]
fn authentication_deserialize() {
    let bytes = [u64b(42), u64b(6), b"secret".to_vec(), vec![1, 2]].concat();
    let auth = Authentication::deserialize(&bytes);
    assert_eq!(auth.id, 42);
    assert_eq!(auth.password, "secret");
    let bad = [u64b(1), u64b(1), vec![0xc3]].concat();
    assert_eq!(Authentication::deserialize(&bad).password, "Non-UTF8 password");
}

#[test]
fn request_deserialize() {
    let bytes = [u64b(77), vec![0u8], u64b(1), u64b(2)].concat();
    let request = Request::deserialize(&bytes);
    assert_eq!(request.session, 77);
    assert!(matches!(request.operation, Operation::GetRow(1, 2)));
}

#[test]
fn decode_text_falls_back() {
    assert_eq!(decode_text_or("héllo".as_bytes(), "x"), "héllo");
    assert_eq!(decode_text_or(&[0x80], "fallback"), "fallback");
    assert_eq!(decode_text_or(&[], "fallback"), "");
}

#[test]
fn no_permission_answers() {
    assert!(matches!(
        Operation::GetRow(1, 2).get_no_permission(),
        OperationResult::GetRow(Err(GetRowError::NoPermission))
    ));
    assert!(matches!(
        Operation::SetRow(1, 2, row(&[])).get_no_permission(),
        OperationResult::SetRow(Err(SetRowError::NoPermission))
    ));
    assert!(matches!(
        Operation::AddRow(1, row(&[])).get_no_permission(),
        OperationResult::AddRow(Err(AddRowError::NoPermission))
    ));
    assert!(matches!(
        Operation::RemoveRow(1, 2).get_no_permission(),
        OperationResult::RemoveRow(Err(RemoveRowError::NoPermission))
    ));
    assert!(matches!(
        Operation::AddUser("a".to_string(), "b".to_string(), 0).get_no_permission(),
        OperationResult::AddUser(Err(AddUserError::NoPermission))
    ));
}

#[test]
fn table_ids() {
    assert_eq!(Operation::GetRow(5, 0).get_table_id(), Some(5));
    assert_eq!(Operation::SetRow(6, 0, row(&[])).get_table_id(), Some(6));
    assert_eq!(Operation::AddRow(7, row(&[])).get_table_id(), Some(7));
    assert_eq!(Operation::RemoveRow(8, 0).get_table_id(), Some(8));
    assert_eq!(Operation::AddUser(String::new(), String::new(), 1).get_table_id(), None);
}

#[test]
fn data_array_round_trip() {
    let cells = [Data::U32(7), Data::I64(-3), Data::F32(2.5f32.to_bits()), Data::U64(u64::MAX)];
    let mut bytes = serialize_data_array(&row(&cells));
    bytes.extend_from_slice(&[1, 2, 3]);
    assert!(data_array_readable(&bytes));
    assert_eq!(deserialize_data_array(&bytes).as_slice(), &cells[..]);
    let empty = serialize_data_array(&row(&[]));
    assert!(data_array_readable(&empty));
    assert_eq!(deserialize_data_array(&empty).len(), 0);
}

#[test]
fn data_array_unreadable_inputs() {
    assert!(!data_array_readable(&[0, 0, 0, 0, 0, 0, 0]));
    assert!(!data_array_readable(&[0, 0, 0, 0, 0, 0, 0, 1]));
    assert!(!data_array_readable(&[0, 0, 0, 0, 0, 0, 0, 1, 0, 0, 0, 0]));
    assert!(!data_array_readable(&[0, 0, 0, 0, 0, 0, 0, 1, 9, 0, 0, 0, 0]));
    assert!(!data_array_readable(&[0xff; 8]));
}

#[test]
fn data_readable() {
    assert!(Data::readable(&[0, 0, 0, 0, 1]));
    assert!(!Data::readable(&[0, 0, 0, 0]));
    assert!(!Data::readable(&[1, 0, 0, 0, 0, 0, 0, 0]));
    assert!(!Data::readable(&[6, 0, 0, 0, 0, 0, 0, 0, 0]));
    assert!(!Data::readable(&[]));
}

#[test]
fn operation_rows_read_back() {
    let cells = [Data::U32(1), Data::I32(-9)];
    let add = [vec![2u8], u64b(4), serialize_data_array(&row(&cells))].concat();
    assert!(Operation::readable(&add));
    match Operation::deserialize(&add) {
        Operation::AddRow(t, r) => {
            assert_eq!(t, 4);
            assert_eq!(r.as_slice(), &cells[..]);
        }
        _ => panic!("expected AddRow"),
    }
    let set = [vec![1u8], u64b(4), u64b(2), serialize_data_array(&row(&cells))].concat();
    let request = [u64b(11), set.clone()].concat();
    assert!(Request::readable(&request));
    match Request::deserialize(&request).operation {
        Operation::SetRow(t, i, r) => {
            assert_eq!((t, i), (4, 2));
            assert_eq!(r.as_slice(), &cells[..]);
        }
        _ => panic!("expected SetRow"),
    }
    assert!(!Operation::readable(&set[..set.len() - 1]));
}
