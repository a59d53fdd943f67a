use vstd::prelude::*;
use little_collections::heap_array::HeapArray;
use crate::collections::row_items;
use crate::protocol::errors::{AddRowError, AddUserError, GetRowError, RemoveRowError, SetRowError};
use crate::text::{decode_text_or, text_or};
use crate::util::{
    be_bytes, be_encode, be_value, data_array_decodable, data_array_encoding, data_array_readable, deserialize_data_array, lemma_data_array_round_trip, lemma_u64_round_trip, row_cells,
    get_u32, get_u64, lemma_be_bytes_len, lemma_be_round_trip, lemma_byte_power_8, serialize_data_array,
    u64_be, Deserializable, Serializable,
};

verus! {

/// One cell of a row. Floating-point cells hold the IEEE-754 bit pattern of
/// their value, which is all that their encoding needs.
#[derive(Clone, Copy, Debug, PartialEq, Eq, Structural)]
pub enum Data {
    U32(u32),
    U64(u64),
    I32(i32),
    I64(i64),
    F32(u32),
    F64(u64),
}

/// The number of bytes that the encoding of a cell with type byte `tag` takes.
pub open spec fn data_width(tag: u8) -> nat {
    if tag == 0 || tag == 2 || tag == 4 {
        5
    } else {
        9
    }
}

/// Whether a cell can be read from the front of `data`.
pub open spec fn data_decodable(data: Seq<u8>) -> bool {
    &&& data.len() >= 1
    &&& data[0] <= 5
    &&& data.len() >= data_width(data[0])
}

/// The number of bytes taken and the cell read from the front of `data`.
pub open spec fn data_decode(data: Seq<u8>) -> (usize, Data) {
    let tag = data[0];
    let v = be_value(data.subrange(1, data_width(tag) as int));
    if tag == 0 {
        (5, Data::U32(v as u32))
    } else if tag == 1 {
        (9, Data::U64(v as u64))
    } else if tag == 2 {
        (5, Data::I32((v as u32) as i32))
    } else if tag == 3 {
        (9, Data::I64((v as u64) as i64))
    } else if tag == 4 {
        (5, Data::F32(v as u32))
    } else {
        (9, Data::F64(v as u64))
    }
}

/// Whether two cells hold the same type of value.
pub open spec fn same_kind(a: Data, b: Data) -> bool {
    match (a, b) {
        (Data::U32(_), Data::U32(_)) => true,
        (Data::U64(_), Data::U64(_)) => true,
        (Data::I32(_), Data::I32(_)) => true,
        (Data::I64(_), Data::I64(_)) => true,
        (Data::F32(_), Data::F32(_)) => true,
        (Data::F64(_), Data::F64(_)) => true,
        _ => false,
    }
}

impl Serializable for Data {
    /// A type byte, then the value in big-endian order.
    open spec fn encoded(&self) -> Seq<u8> {
        match *self {
            Data::U32(a) => seq![0u8] + be_bytes(a as nat, 4),
            Data::U64(a) => seq![1u8] + be_bytes(a as nat, 8),
            Data::I32(a) => seq![2u8] + be_bytes((a as u32) as nat, 4),
            Data::I64(a) => seq![3u8] + be_bytes((a as u64) as nat, 8),
            Data::F32(a) => seq![4u8] + be_bytes(a as nat, 4),
            Data::F64(a) => seq![5u8] + be_bytes(a as nat, 8),
        }
    }

    fn serialize(&self) -> (bytes: Vec<u8>) {
        let mut result: Vec<u8> = Vec::new();
        match *self {
            Data::U32(a) => {
                result.push(0);
                let mut b = be_encode(a as u64, 4);
                result.append(&mut b);
            },
            Data::U64(a) => {
                result.push(1);
                let mut b = be_encode(a, 8);
                result.append(&mut b);
            },
            Data::I32(a) => {
                result.push(2);
                let mut b = be_encode((a as u32) as u64, 4);
                result.append(&mut b);
            },
            Data::I64(a) => {
                result.push(3);
                let mut b = be_encode(a as u64, 8);
                result.append(&mut b);
            },
            Data::F32(a) => {
                result.push(4);
                let mut b = be_encode(a as u64, 4);
                result.append(&mut b);
            },
            Data::F64(a) => {
                result.push(5);
                let mut b = be_encode(a, 8);
                result.append(&mut b);
            },
        }
        result
    }
}

impl Data {
    /// Whether `Data::deserialize` can read a cell from the front of `data`.
    pub fn readable(data: &[u8]) -> (readable: bool)
        ensures
            readable == data_decodable(data@),
    {
        let n = data.len();
        if n < 1 || data[0] > 5 {
            return false;
        }
        let tag = data[0];
        if tag == 0 || tag == 2 || tag == 4 {
            n >= 5
        } else {
            n >= 9
        }
    }

    /// Reads one cell from the front of `data`, giving the number of bytes it took.
    pub fn deserialize(data: &[u8]) -> (result: (usize, Data))
        requires
            data_decodable(data@),
        ensures
            result == data_decode(data@),
    {
        match data[0] {
            0 => (5, Data::U32(get_u32(&data[1..5]))),
            1 => (9, Data::U64(get_u64(&data[1..9]))),
            2 => (5, Data::I32(get_u32(&data[1..5]) as i32)),
            3 => (9, Data::I64(get_u64(&data[1..9]) as i64)),
            4 => (5, Data::F32(get_u32(&data[1..5]))),
            _ => (9, Data::F64(get_u64(&data[1..9]))),
        }
    }

    /// Whether `self` and `other` hold the same type of value.
    pub fn compare(&self, other: &Self) -> (same: bool)
        ensures
            same == same_kind(*self, *other),
    {
        match (self, other) {
            (Data::U32(_), Data::U32(_)) => true,
            (Data::U64(_), Data::U64(_)) => true,
            (Data::I32(_), Data::I32(_)) => true,
            (Data::I64(_), Data::I64(_)) => true,
            (Data::F32(_), Data::F32(_)) => true,
            (Data::F64(_), Data::F64(_)) => true,
            _ => false,
        }
    }
}

/// A cell read back from its encoding, with anything after it, is the cell itself,
/// and the reader reports the encoding's length.
pub proof fn lemma_data_round_trip(d: Data, rest: Seq<u8>)
    ensures
        data_decodable(d.encoded() + rest),
        d.encoded().len() == 5 || d.encoded().len() == 9,
        data_decode(d.encoded() + rest) == (d.encoded().len() as usize, d),
{
    lemma_byte_power_8();
    let s = d.encoded() + rest;
    match d {
        Data::U32(a) => {
            lemma_be_bytes_len(a as nat, 4);
            lemma_be_round_trip(a as nat, 4);
            assert(s.subrange(1, 5) =~= be_bytes(a as nat, 4));
        },
        Data::U64(a) => {
            lemma_be_bytes_len(a as nat, 8);
            lemma_be_round_trip(a as nat, 8);
            assert(s.subrange(1, 9) =~= be_bytes(a as nat, 8));
        },
        Data::I32(a) => {
            let u = a as u32;
            lemma_be_bytes_len(u as nat, 4);
            lemma_be_round_trip(u as nat, 4);
            assert(s.subrange(1, 5) =~= be_bytes(u as nat, 4));
            assert((u as u32) as i32 == a) by (bit_vector)
                requires
                    u == a as u32,
            ;
        },
        Data::I64(a) => {
            let u = a as u64;
            lemma_be_bytes_len(u as nat, 8);
            lemma_be_round_trip(u as nat, 8);
            assert(s.subrange(1, 9) =~= be_bytes(u as nat, 8));
            assert((u as u64) as i64 == a) by (bit_vector)
                requires
                    u == a as u64,
            ;
        },
        Data::F32(a) => {
            lemma_be_bytes_len(a as nat, 4);
            lemma_be_round_trip(a as nat, 4);
            assert(s.subrange(1, 5) =~= be_bytes(a as nat, 4));
        },
        Data::F64(a) => {
            lemma_be_bytes_len(a as nat, 8);
            lemma_be_round_trip(a as nat, 8);
            assert(s.subrange(1, 9) =~= be_bytes(a as nat, 8));
        },
    }
}

/// The big-endian `u64` in the eight bytes of `data` that start at `start`.
pub open spec fn field_u64(data: Seq<u8>, start: int) -> u64 {
    be_value(data.subrange(start, start + 8)) as u64
}

/// The length of a new user's name in an `AddUser` request.
pub open spec fn name_len(data: Seq<u8>) -> int {
    field_u64(data, 9) as usize as int
}

/// The length of a new user's password in an `AddUser` request.
pub open spec fn password_len(data: Seq<u8>) -> int {
    field_u64(data, 17) as usize as int
}

/// An operation that a client asks for; the first number of each row operation
/// names the table.
#[derive(Debug)]
pub enum Operation {
    GetRow(usize, usize),
    SetRow(usize, usize, HeapArray<Data>),
    AddRow(usize, HeapArray<Data>),
    RemoveRow(usize, usize),
    AddUser(String, String, u64),
}

/// What is answered to an operation.
pub enum OperationResult {
    GetRow(Result<HeapArray<Data>, GetRowError>),
    SetRow(Result<(), SetRowError>),
    AddRow(Result<(), AddRowError>),
    RemoveRow(Result<HeapArray<Data>, RemoveRowError>),
    AddUser(Result<u64, AddUserError>),
}

impl Deserializable for Operation {
    /// An operation byte, then its fields; the reader stops (panics) on an unknown
    /// operation byte and on a request that ends too early.
    open spec fn decodable(data: Seq<u8>) -> bool {
        &&& data.len() >= 1
        &&& if data[0] == 0 || data[0] == 3 {
            data.len() >= 17
        } else if data[0] == 1 {
            data.len() >= 17 && data_array_decodable(data.subrange(17, data.len() as int))
        } else if data[0] == 2 {
            data.len() >= 9 && data_array_decodable(data.subrange(9, data.len() as int))
        } else if data[0] == 4 {
            &&& data.len() >= 25
            &&& 25 + name_len(data) + password_len(data) <= data.len()
        } else {
            false
        }
    }

    open spec fn decodes_to(data: Seq<u8>, value: Operation) -> bool {
        match value {
            Operation::GetRow(table, row) => {
                &&& data[0] == 0
                &&& table == field_u64(data, 1) as usize
                &&& row == field_u64(data, 9) as usize
            },
            Operation::SetRow(table, row, cells) => {
                &&& data[0] == 1
                &&& table == field_u64(data, 1) as usize
                &&& row == field_u64(data, 9) as usize
                &&& row_items(cells) == row_cells(data.subrange(17, data.len() as int))
            },
            Operation::AddRow(table, cells) => {
                &&& data[0] == 2
                &&& table == field_u64(data, 1) as usize
                &&& row_items(cells) == row_cells(data.subrange(9, data.len() as int))
            },
            Operation::RemoveRow(table, row) => {
                &&& data[0] == 3
                &&& table == field_u64(data, 1) as usize
                &&& row == field_u64(data, 9) as usize
            },
            Operation::AddUser(name, password, role) => {
                let nl = name_len(data);
                let pl = password_len(data);
                &&& data[0] == 4
                &&& name@ == text_or(data.subrange(25, 25 + nl), "Non-UTF8 user name"@)
                &&& password@ == text_or(data.subrange(25 + nl, 25 + nl + pl), "Non-UTF8 password"@)
                &&& role == field_u64(data, 1)
            },
        }
    }

    fn deserialize(data: &[u8]) -> (value: Operation) {
        match data[0] {
            0 => Operation::GetRow(get_u64(&data[1..9]) as usize, get_u64(&data[9..17]) as usize),
            1 => Operation::SetRow(
                get_u64(&data[1..9]) as usize,
                get_u64(&data[9..17]) as usize,
                deserialize_data_array(&data[17..data.len()]),
            ),
            2 => Operation::AddRow(
                get_u64(&data[1..9]) as usize,
                deserialize_data_array(&data[9..data.len()]),
            ),
            3 => Operation::RemoveRow(get_u64(&data[1..9]) as usize, get_u64(&data[9..17]) as usize),
            _ => {
                let name_len = get_u64(&data[9..17]) as usize;
                let password_len = get_u64(&data[17..25]) as usize;
                let name = decode_text_or(&data[25..25 + name_len], "Non-UTF8 user name");
                let password = decode_text_or(
                    &data[25 + name_len..25 + name_len + password_len],
                    "Non-UTF8 password",
                );
                Operation::AddUser(name, password, get_u64(&data[1..9]))
            },
        }
    }
}

impl Operation {
    /// Whether `Operation::deserialize` can read `data` without running past its end.
    pub fn readable(data: &[u8]) -> (readable: bool)
        ensures
            readable == Operation::decodable(data@),
    {
        let n = data.len();
        if n < 1 {
            return false;
        }
        let tag = data[0];
        if tag == 0 || tag == 3 {
            n >= 17
        } else if tag == 1 {
            n >= 17 && data_array_readable(&data[17..n])
        } else if tag == 2 {
            n >= 9 && data_array_readable(&data[9..n])
        } else if tag == 4 {
            if n < 25 {
                return false;
            }
            let name_len = get_u64(&data[9..17]) as usize;
            let password_len = get_u64(&data[17..25]) as usize;
            name_len <= n - 25 && password_len <= n - 25 - name_len
        } else {
            false
        }
    }
}

/// The refusal that answers `op` when the user may not perform it.
pub open spec fn is_refusal_of(op: Operation, result: OperationResult) -> bool {
    match op {
        Operation::GetRow(_, _) => result == OperationResult::GetRow(Err(GetRowError::NoPermission)),
        Operation::SetRow(_, _, _) => result == OperationResult::SetRow(Err(SetRowError::NoPermission)),
        Operation::AddRow(_, _) => result == OperationResult::AddRow(Err(AddRowError::NoPermission)),
        Operation::RemoveRow(_, _) => result == OperationResult::RemoveRow(
            Err(RemoveRowError::NoPermission),
        ),
        Operation::AddUser(_, _, _) => result == OperationResult::AddUser(
            Err(AddUserError::NoPermission),
        ),
    }
}

/// The table that a row operation addresses; user operations address none.
pub open spec fn table_of(op: Operation) -> Option<usize> {
    match op {
        Operation::GetRow(i, _) => Some(i),
        Operation::SetRow(i, _, _) => Some(i),
        Operation::AddRow(i, _) => Some(i),
        Operation::RemoveRow(i, _) => Some(i),
        Operation::AddUser(_, _, _) => None,
    }
}

impl Operation {
    /// The answer that refuses this operation for lack of permission.
    pub fn get_no_permission(&self) -> (result: OperationResult)
        ensures
            is_refusal_of(*self, result),
    {
        match self {
            Operation::GetRow(_, _) => OperationResult::GetRow(Err(GetRowError::NoPermission)),
            Operation::SetRow(_, _, _) => OperationResult::SetRow(Err(SetRowError::NoPermission)),
            Operation::AddRow(_, _) => OperationResult::AddRow(Err(AddRowError::NoPermission)),
            Operation::RemoveRow(_, _) => OperationResult::RemoveRow(Err(RemoveRowError::NoPermission)),
            Operation::AddUser(_, _, _) => OperationResult::AddUser(Err(AddUserError::NoPermission)),
        }
    }

    /// The table that this operation addresses, if it is a row operation.
    pub fn get_table_id(&self) -> (id: Option<usize>)
        ensures
            id == table_of(*self),
    {
        match self {
            Operation::GetRow(i, _) => Some(*i),
            Operation::SetRow(i, _, _) => Some(*i),
            Operation::AddRow(i, _) => Some(*i),
            Operation::RemoveRow(i, _) => Some(*i),
            _ => None,
        }
    }
}

/// The encoding of a success or failure: `0` then the payload, or `1` then the error.
pub open spec fn outcome_encoding(ok: bool, payload: Seq<u8>) -> Seq<u8> {
    if ok {
        seq![0u8] + payload
    } else {
        seq![1u8] + payload
    }
}

impl Serializable for OperationResult {
    /// An operation byte, then a success byte and the payload or the error code.
    open spec fn encoded(&self) -> Seq<u8> {
        match self {
            OperationResult::GetRow(r) => seq![0u8] + match r {
                Ok(row) => outcome_encoding(true, data_array_encoding(row_items(*row))),
                Err(e) => outcome_encoding(false, e.encoded()),
            },
            OperationResult::SetRow(r) => seq![1u8] + match r {
                Ok(_) => outcome_encoding(true, Seq::empty()),
                Err(e) => outcome_encoding(false, e.encoded()),
            },
            OperationResult::AddRow(r) => seq![2u8] + match r {
                Ok(_) => outcome_encoding(true, Seq::empty()),
                Err(e) => outcome_encoding(false, e.encoded()),
            },
            OperationResult::RemoveRow(r) => seq![3u8] + match r {
                Ok(row) => outcome_encoding(true, data_array_encoding(row_items(*row))),
                Err(e) => outcome_encoding(false, e.encoded()),
            },
            OperationResult::AddUser(r) => seq![4u8] + match r {
                Ok(id) => outcome_encoding(true, u64_be(*id)),
                Err(e) => outcome_encoding(false, e.encoded()),
            },
        }
    }

    fn serialize(&self) -> (bytes: Vec<u8>) {
        let mut result: Vec<u8> = Vec::new();
        match self {
            OperationResult::GetRow(success) => {
                result.push(0);
                match success {
                    Ok(row) => {
                        result.push(0);
                        let mut b = serialize_data_array(row);
                        result.append(&mut b);
                    },
                    Err(e) => {
                        result.push(1);
                        let mut b = e.serialize();
                        result.append(&mut b);
                    },
                }
            },
            OperationResult::SetRow(success) => {
                result.push(1);
                match success {
                    Ok(_) => {
                        result.push(0);
                    },
                    Err(e) => {
                        result.push(1);
                        let mut b = e.serialize();
                        result.append(&mut b);
                    },
                }
            },
            OperationResult::AddRow(success) => {
                result.push(2);
                match success {
                    Ok(_) => {
                        result.push(0);
                    },
                    Err(e) => {
                        result.push(1);
                        let mut b = e.serialize();
                        result.append(&mut b);
                    },
                }
            },
            OperationResult::RemoveRow(success) => {
                result.push(3);
                match success {
                    Ok(row) => {
                        result.push(0);
                        let mut b = serialize_data_array(row);
                        result.append(&mut b);
                    },
                    Err(e) => {
                        result.push(1);
                        let mut b = e.serialize();
                        result.append(&mut b);
                    },
                }
            },
            OperationResult::AddUser(success) => {
                result.push(4);
                match success {
                    Ok(id) => {
                        result.push(0);
                        let mut b = be_encode(*id, 8);
                        result.append(&mut b);
                    },
                    Err(e) => {
                        result.push(1);
                        let mut b = e.serialize();
                        result.append(&mut b);
                    },
                }
            },
        }
        proof {
            assert(result@ =~= self.encoded());
        }
        result
    }
}

/// A request to add a row is read, and its row reads back as the cells of the row
/// bytes it carries; likewise a request to replace a row. Every row written by
/// `serialize_data_array` is such row bytes, and reads back as the array's cells
/// (see its `ensures`).
pub proof fn lemma_row_requests_read_back(table: u64, index: u64, row: Seq<u8>, op: Operation)
    requires
        data_array_decodable(row),
    ensures
        Operation::decodable(seq![2u8] + u64_be(table) + row),
        Operation::decodes_to(seq![2u8] + u64_be(table) + row, op) ==> (op matches Operation::AddRow(t, r)
            && t == table as usize && row_items(r) == row_cells(row)),
        Operation::decodable(seq![1u8] + u64_be(table) + u64_be(index) + row),
        Operation::decodes_to(seq![1u8] + u64_be(table) + u64_be(index) + row, op) ==> (op matches Operation::SetRow(
            t,
            i,
            r,
        ) && t == table as usize && i == index as usize && row_items(r) == row_cells(row)),
{
    lemma_u64_round_trip(table);
    lemma_u64_round_trip(index);
    let add = seq![2u8] + u64_be(table) + row;
    assert(add.subrange(1, 9) =~= u64_be(table));
    assert(add.subrange(9, add.len() as int) =~= row);
    let set = seq![1u8] + u64_be(table) + u64_be(index) + row;
    assert(set.subrange(1, 9) =~= u64_be(table));
    assert(set.subrange(9, 17) =~= u64_be(index));
    assert(set.subrange(17, set.len() as int) =~= row);
}

/// Two cells are of the same kind exactly when their encodings start with the
/// same type byte, that is, when they are the same variant.
pub proof fn lemma_same_kind_is_same_type_byte(a: Data, b: Data)
    ensures
        same_kind(a, b) <==> a.encoded()[0] == b.encoded()[0],
{
}

/// A request to add a user, written as the operation byte `4`, the role, the
/// lengths of name and password, then the name and password bytes, is read, and
/// gives a user with that role, and with the name and password those bytes encode
/// (or the fallback texts when they are not UTF-8).
pub proof fn lemma_add_user_request_read_back(role: u64, name: Seq<u8>, password: Seq<u8>, op: Operation)
    requires
        name.len() <= usize::MAX,
        password.len() <= usize::MAX,
    ensures
        Operation::decodable(
            seq![4u8] + u64_be(role) + u64_be(name.len() as u64) + u64_be(password.len() as u64) + name + password,
        ),
        Operation::decodes_to(
            seq![4u8] + u64_be(role) + u64_be(name.len() as u64) + u64_be(password.len() as u64) + name + password,
            op,
        ) ==> (op matches Operation::AddUser(n, p, r) && r == role && n@ == text_or(
            name,
            "Non-UTF8 user name"@,
        ) && p@ == text_or(password, "Non-UTF8 password"@)),
{
    lemma_u64_round_trip(role);
    lemma_u64_round_trip(name.len() as u64);
    lemma_u64_round_trip(password.len() as u64);
    let data = seq![4u8] + u64_be(role) + u64_be(name.len() as u64) + u64_be(password.len() as u64) + name
        + password;
    assert(data.subrange(1, 9) =~= u64_be(role));
    assert(data.subrange(9, 17) =~= u64_be(name.len() as u64));
    assert(data.subrange(17, 25) =~= u64_be(password.len() as u64));
    assert(name_len(data) == name.len());
    assert(password_len(data) == password.len());
    assert(data.subrange(25, 25 + name.len() as int) =~= name);
    assert(data.subrange(25 + name.len() as int, 25 + name.len() as int + password.len() as int) =~= password);
}

/// A successful answer to a read or a removal starts with the operation byte and
/// `0`, and what follows reads back as the cells of the row answered, for every
/// row whose cells can be allocated (as every existing row's can).
pub proof fn lemma_row_answers_read_back(row: HeapArray<Data>)
    requires
        row_items(row).len() <= usize::MAX,
        row_items(row).len() * vstd::layout::size_of::<Data>() <= isize::MAX as int,
    ensures
        OperationResult::GetRow(Ok(row)).encoded().subrange(0, 2) == seq![0u8, 0u8],
        data_array_decodable(
            OperationResult::GetRow(Ok(row)).encoded().subrange(2, OperationResult::GetRow(Ok(row)).encoded().len() as int),
        ),
        row_cells(
            OperationResult::GetRow(Ok(row)).encoded().subrange(2, OperationResult::GetRow(Ok(row)).encoded().len() as int),
        ) == row_items(row),
        OperationResult::RemoveRow(Ok(row)).encoded().subrange(0, 2) == seq![3u8, 0u8],
        data_array_decodable(
            OperationResult::RemoveRow(Ok(row)).encoded().subrange(2, OperationResult::RemoveRow(Ok(row)).encoded().len() as int),
        ),
        row_cells(
            OperationResult::RemoveRow(Ok(row)).encoded().subrange(2, OperationResult::RemoveRow(Ok(row)).encoded().len() as int),
        ) == row_items(row),
{
    let enc = data_array_encoding(row_items(row));
    lemma_data_array_round_trip(row_items(row), Seq::empty());
    assert(enc + Seq::<u8>::empty() =~= enc);
    let g = OperationResult::GetRow(Ok(row)).encoded();
    assert(g =~= seq![0u8, 0u8] + enc);
    assert(g.subrange(0, 2) =~= seq![0u8, 0u8]);
    assert(g.subrange(2, g.len() as int) =~= enc);
    let r = OperationResult::RemoveRow(Ok(row)).encoded();
    assert(r =~= seq![3u8, 0u8] + enc);
    assert(r.subrange(0, 2) =~= seq![3u8, 0u8]);
    assert(r.subrange(2, r.len() as int) =~= enc);
}

} // verus!
