use vstd::prelude::*;
use little_collections::heap_array::HeapArray;
use crate::collections::{new_row, row_item, row_items, row_len, set_row_item};
use crate::protocol::types::{data_decodable, data_decode, lemma_data_round_trip, Data};

verus! {

/// A value that has a byte encoding.
pub trait Serializable {
    /// The bytes that encode this value.
    spec fn encoded(&self) -> Seq<u8>;

    fn serialize(&self) -> (bytes: Vec<u8>)
        ensures
            bytes@ == self.encoded(),
    ;
}

/// A value that can be read back from bytes.
pub trait Deserializable: Sized {
    /// Whether `data` can be read without running past its end.
    spec fn decodable(data: Seq<u8>) -> bool;

    /// Whether `value` is what is read from `data`.
    spec fn decodes_to(data: Seq<u8>, value: Self) -> bool;

    fn deserialize(data: &[u8]) -> (value: Self)
        requires
            Self::decodable(data@),
        ensures
            Self::decodes_to(data@, value),
    ;
}

/// `256` raised to the power `n`: one more than the largest value that `n` bytes hold.
pub open spec fn byte_power(n: nat) -> nat
    decreases n,
{
    if n == 0 {
        1
    } else {
        256 * byte_power((n - 1) as nat)
    }
}

/// The number that `bytes` spell in big-endian order (most significant byte first).
pub open spec fn be_value(bytes: Seq<u8>) -> nat
    decreases bytes.len(),
{
    if bytes.len() == 0 {
        0
    } else {
        be_value(bytes.drop_last()) * 256 + (bytes.last() as nat)
    }
}

/// The `n` low-order bytes of `value`, most significant first.
pub open spec fn be_bytes(value: nat, n: nat) -> Seq<u8>
    decreases n,
{
    if n == 0 {
        Seq::empty()
    } else {
        be_bytes(value / 256, (n - 1) as nat).push((value % 256) as u8)
    }
}

/// The eight bytes that `u64::to_be_bytes` gives for `value`.
pub open spec fn u64_be(value: u64) -> Seq<u8> {
    be_bytes(value as nat, 8)
}

/// The four bytes that `u32::to_be_bytes` gives for `value`.
pub open spec fn u32_be(value: u32) -> Seq<u8> {
    be_bytes(value as nat, 4)
}

pub proof fn lemma_be_bytes_len(value: nat, n: nat)
    ensures
        be_bytes(value, n).len() == n,
    decreases n,
{
    if n > 0 {
        lemma_be_bytes_len(value / 256, (n - 1) as nat);
    }
}

pub proof fn lemma_be_value_bound(bytes: Seq<u8>)
    ensures
        be_value(bytes) < byte_power(bytes.len()),
    decreases bytes.len(),
{
    if bytes.len() > 0 {
        let rest = bytes.drop_last();
        lemma_be_value_bound(rest);
        let v = be_value(rest);
        let p = byte_power(rest.len());
        let b = bytes.last() as nat;
        assert(v * 256 + b < 256 * p) by (nonlinear_arith)
            requires
                v < p,
                b < 256,
        ;
    }
}

/// Reading back the `n` bytes written for `value` gives `value`, when it fits in them.
pub proof fn lemma_be_round_trip(value: nat, n: nat)
    requires
        value < byte_power(n),
    ensures
        be_value(be_bytes(value, n)) == value,
    decreases n,
{
    if n > 0 {
        let q = value / 256;
        let p = byte_power((n - 1) as nat);
        assert(q < p) by (nonlinear_arith)
            requires
                value < 256 * p,
                q == value / 256,
        ;
        lemma_be_round_trip(q, (n - 1) as nat);
        let s = be_bytes(q, (n - 1) as nat).push((value % 256) as u8);
        assert(s.drop_last() =~= be_bytes(q, (n - 1) as nat));
        assert(value == q * 256 + value % 256) by (nonlinear_arith)
            requires
                q == value / 256,
        ;
    }
}

/// Writing the value that `bytes` spell gives `bytes` back.
pub proof fn lemma_be_value_bytes(bytes: Seq<u8>)
    ensures
        be_bytes(be_value(bytes), bytes.len()) == bytes,
    decreases bytes.len(),
{
    if bytes.len() > 0 {
        let rest = bytes.drop_last();
        lemma_be_value_bytes(rest);
        let v = be_value(rest);
        let b = bytes.last() as nat;
        let w = v * 256 + b;
        assert(w / 256 == v && w % 256 == b) by (nonlinear_arith)
            requires
                w == v * 256 + b,
                b < 256,
        ;
        assert(be_bytes(w, bytes.len()) =~= bytes);
    }
}

pub proof fn lemma_byte_power_8()
    ensures
        byte_power(8) == 0x1_0000_0000_0000_0000,
        byte_power(4) == 0x1_0000_0000,
{
    reveal_with_fuel(byte_power, 9);
}

/// Reads the big-endian number held by at most eight bytes.
pub fn read_be(data: &[u8]) -> (value: u64)
    requires
        data@.len() <= 8,
    ensures
        value as nat == be_value(data@),
{
    let n = data.len();
    let mut acc: u64 = 0;
    let mut i: usize = 0;
    proof {
        lemma_byte_power_8();
        assert(data@.subrange(0, 0) =~= Seq::<u8>::empty());
    }
    while i < n
        invariant
            0 <= i <= n,
            n == data@.len(),
            n <= 8,
            acc as nat == be_value(data@.subrange(0, i as int)),
            acc < byte_power(i as nat),
            byte_power(8) == 0x1_0000_0000_0000_0000,
        decreases n - i,
    {
        let ghost p = byte_power(i as nat);
        let b = data[i];
        proof {
            lemma_byte_power_monotone((i + 1) as nat, 8);
            assert((acc as nat) * 256 + (b as nat) < 256 * p) by (nonlinear_arith)
                requires
                    acc < p,
                    b < 256,
            ;
            assert(data@.subrange(0, i + 1).drop_last() =~= data@.subrange(0, i as int));
        }
        acc = acc * 256 + b as u64;
        i = i + 1;
    }
    proof {
        assert(data@.subrange(0, n as int) =~= data@);
    }
    acc
}

/// Reads a big-endian `u64` from exactly eight bytes.
pub fn get_u64(data: &[u8]) -> (value: u64)
    requires
        data@.len() == 8,
    ensures
        value as nat == be_value(data@),
{
    read_be(data)
}

/// Reads a big-endian `u32` from exactly four bytes.
pub fn get_u32(data: &[u8]) -> (value: u32)
    requires
        data@.len() == 4,
    ensures
        value as nat == be_value(data@),
{
    proof {
        lemma_be_value_bound(data@);
        lemma_byte_power_8();
    }
    read_be(data) as u32
}

/// Writes the `n` low-order bytes of `value`, most significant first.
pub fn be_encode(value: u64, n: usize) -> (bytes: Vec<u8>)
    requires
        n <= 8,
    ensures
        bytes@ == be_bytes(value as nat, n as nat),
    decreases n,
{
    if n == 0 {
        Vec::new()
    } else {
        let mut bytes = be_encode(value / 256, n - 1);
        bytes.push((value % 256) as u8);
        bytes
    }
}

/// Reading back the eight bytes written for a `u64` gives it back.
pub proof fn lemma_u64_round_trip(value: u64)
    ensures
        u64_be(value).len() == 8,
        be_value(u64_be(value)) == value,
{
    lemma_byte_power_8();
    lemma_be_bytes_len(value as nat, 8);
    lemma_be_round_trip(value as nat, 8);
}

/// Reading back the four bytes written for a `u32` gives it back.
pub proof fn lemma_u32_round_trip(value: u32)
    ensures
        u32_be(value).len() == 4,
        be_value(u32_be(value)) == value,
{
    lemma_byte_power_8();
    lemma_be_bytes_len(value as nat, 4);
    lemma_be_round_trip(value as nat, 4);
}

pub proof fn lemma_byte_power_monotone(a: nat, b: nat)
    requires
        a <= b,
    ensures
        byte_power(a) <= byte_power(b),
    decreases b,
{
    if a < b {
        lemma_byte_power_monotone(a, (b - 1) as nat);
    }
}

/// The encodings of `items`, one after another.
pub open spec fn data_seq_encoding(items: Seq<Data>) -> Seq<u8>
    decreases items.len(),
{
    if items.len() == 0 {
        Seq::empty()
    } else {
        data_seq_encoding(items.drop_last()) + items.last().encoded()
    }
}

/// A row's encoding: its length as eight big-endian bytes, then its cells.
pub open spec fn data_array_encoding(items: Seq<Data>) -> Seq<u8> {
    u64_be(items.len() as u64) + data_seq_encoding(items)
}

/// The element count at the front of an encoded row: its first eight bytes, big-endian.
pub open spec fn row_count_field(data: Seq<u8>) -> usize {
    (be_value(data.subrange(0, 8)) as u64) as usize
}

/// The `count` cells read one after another from the front of `data`, or `None`
/// when one of them runs past its end or has an unknown type byte.
pub open spec fn cells_decode(data: Seq<u8>, count: nat) -> Option<Seq<Data>>
    decreases count,
{
    if count == 0 {
        Some(Seq::empty())
    } else if !data_decodable(data) {
        None
    } else {
        let (width, cell) = data_decode(data);
        match cells_decode(data.subrange(width as int, data.len() as int), (count - 1) as nat) {
            Some(rest) => Some(seq![cell] + rest),
            None => None,
        }
    }
}

/// The cells of the row encoded at the front of `data`: as many as its count says.
pub open spec fn row_cells(data: Seq<u8>) -> Seq<Data> {
    cells_decode(data.subrange(8, data.len() as int), row_count_field(data) as nat).unwrap()
}

/// Whether a row can be read from the front of `data`: an eight-byte element
/// count that an array of cells can be allocated for, then that many cells.
pub open spec fn data_array_decodable(data: Seq<u8>) -> bool {
    &&& data.len() >= 8
    &&& row_count_field(data) as int * vstd::layout::size_of::<Data>() <= isize::MAX as int
    &&& cells_decode(data.subrange(8, data.len() as int), row_count_field(data) as nat) is Some
}

/// What `cells_decode` reads has the length asked for.
pub proof fn lemma_cells_decode_len(data: Seq<u8>, count: nat)
    requires
        cells_decode(data, count) is Some,
    ensures
        cells_decode(data, count).unwrap().len() == count,
    decreases count,
{
    if count > 0 {
        let (width, cell) = data_decode(data);
        lemma_cells_decode_len(data.subrange(width as int, data.len() as int), (count - 1) as nat);
    }
}

/// Whether `deserialize_data_array` can read `data`.
pub fn data_array_readable(data: &[u8]) -> (readable: bool)
    ensures
        readable == data_array_decodable(data@),
{
    let n = data.len();
    if n < 8 {
        return false;
    }
    let length = get_u64(&data[0..8]) as usize;
    assert(length == row_count_field(data@));
    match length.checked_mul(std::mem::size_of::<Data>()) {
        Some(bytes) => {
            if bytes > isize::MAX as usize {
                return false;
            }
        },
        None => {
            return false;
        },
    }
    let mut offset: usize = 8;
    let mut i: usize = 0;
    while i < length
        invariant
            8 <= offset <= n,
            n == data@.len(),
            i <= length,
            length == row_count_field(data@),
            (cells_decode(data@.subrange(8, n as int), length as nat) is Some) == (cells_decode(
                data@.subrange(offset as int, n as int),
                (length - i) as nat,
            ) is Some),
        decreases length - i,
    {
        let ghost sub = data@.subrange(offset as int, n as int);
        assert(data@.subrange(offset as int, n as int) == sub);
        if !Data::readable(&data[offset..n]) {
            return false;
        }
        let (width, _cell) = Data::deserialize(&data[offset..n]);
        proof {
            assert(sub.subrange(width as int, sub.len() as int) =~= data@.subrange(offset + width, n as int));
        }
        offset = offset + width;
        i = i + 1;
    }
    true
}

/// Reads a row: an eight-byte big-endian element count, as `serialize_data_array`
/// writes it, then that many cells.
pub fn deserialize_data_array(data: &[u8]) -> (array: HeapArray<Data>)
    requires
        data_array_decodable(data@),
    ensures
        row_items(array) == row_cells(data@),
{
    let n = data.len();
    let length = get_u64(&data[0..8]) as usize;
    assert(length == row_count_field(data@));
    let ghost all = row_cells(data@);
    proof {
        lemma_cells_decode_len(data@.subrange(8, n as int), length as nat);
        assert(all.subrange(0, length as int) =~= all);
    }
    let mut offset: usize = 8;
    let mut result = new_row(Data::U32(0), length);
    let mut i: usize = 0;
    while i < length
        invariant
            8 <= offset <= n,
            n == data@.len(),
            i <= length,
            all.len() == length,
            row_items(result).len() == length,
            cells_decode(data@.subrange(offset as int, n as int), (length - i) as nat) == Some(
                all.subrange(i as int, length as int),
            ),
            forall|k: int| 0 <= k < i ==> row_items(result)[k] == all[k],
        decreases length - i,
    {
        let ghost sub = data@.subrange(offset as int, n as int);
        let (width, cell) = Data::deserialize(&data[offset..n]);
        proof {
            assert(sub.subrange(width as int, sub.len() as int) =~= data@.subrange(offset + width, n as int));
            let rest = cells_decode(sub.subrange(width as int, sub.len() as int), (length - i - 1) as nat);
            assert(rest is Some);
            lemma_cells_decode_len(sub.subrange(width as int, sub.len() as int), (length - i - 1) as nat);
            assert(seq![cell] + rest.unwrap() == all.subrange(i as int, length as int));
            assert(all[i as int] == (seq![cell] + rest.unwrap())[0]);
            assert((seq![cell] + rest.unwrap()).subrange(1, (length - i) as int) =~= rest.unwrap());
            assert(all.subrange(i as int, length as int).subrange(1, (length - i) as int) =~= all.subrange(
                i + 1,
                length as int,
            ));
        }
        set_row_item(&mut result, i, cell);
        offset = offset + width;
        i = i + 1;
    }
    proof {
        assert(row_items(result) =~= all);
    }
    result
}

/// The encodings of `items` start with that of the first item.
pub proof fn lemma_seq_encoding_front(items: Seq<Data>)
    requires
        items.len() > 0,
    ensures
        data_seq_encoding(items) == items[0].encoded() + data_seq_encoding(items.drop_first()),
    decreases items.len(),
{
    if items.len() == 1 {
        assert(items.drop_last() =~= Seq::<Data>::empty());
        assert(items.drop_first() =~= Seq::<Data>::empty());
        assert(data_seq_encoding(items.drop_last()) =~= Seq::<u8>::empty());
        assert(items.last() == items[0]);
        assert(data_seq_encoding(items) =~= items[0].encoded());
        assert(data_seq_encoding(items) =~= items[0].encoded() + data_seq_encoding(items.drop_first()));
    } else {
        let front = items.drop_last();
        lemma_seq_encoding_front(front);
        assert(front.drop_first() =~= items.drop_first().drop_last());
        assert(items.drop_first().last() == items.last());
        assert(front[0] == items[0]);
        assert(data_seq_encoding(items) =~= items[0].encoded() + data_seq_encoding(items.drop_first()));
    }
}

/// The cells written one after another, with anything after them, read back as those cells.
pub proof fn lemma_cells_round_trip(cells: Seq<Data>, rest: Seq<u8>)
    ensures
        cells_decode(data_seq_encoding(cells) + rest, cells.len()) == Some(cells),
    decreases cells.len(),
{
    if cells.len() > 0 {
        let tail = cells.drop_first();
        let after = data_seq_encoding(tail) + rest;
        lemma_seq_encoding_front(cells);
        let whole = data_seq_encoding(cells) + rest;
        assert(whole =~= cells[0].encoded() + after);
        lemma_data_round_trip(cells[0], after);
        let width = cells[0].encoded().len();
        assert(whole.subrange(width as int, whole.len() as int) =~= after);
        lemma_cells_round_trip(tail, rest);
        assert(data_decodable(whole));
        assert(data_decode(whole).0 as int == width);
        assert(data_decode(whole).1 == cells[0]);
        assert((cells.len() - 1) as nat == tail.len());
        assert(cells_decode(whole.subrange(width as int, whole.len() as int), tail.len()) == Some(tail));
        assert(seq![cells[0]] + tail =~= cells);
    } else {
        assert(data_seq_encoding(cells) =~= Seq::<u8>::empty());
    }
}

/// A row written by `serialize_data_array`, with anything after it, reads back as
/// the same cells, when an array of that many cells can be allocated.
pub proof fn lemma_data_array_round_trip(cells: Seq<Data>, rest: Seq<u8>)
    requires
        cells.len() <= usize::MAX,
        cells.len() * vstd::layout::size_of::<Data>() <= isize::MAX as int,
    ensures
        data_array_decodable(data_array_encoding(cells) + rest),
        row_cells(data_array_encoding(cells) + rest) == cells,
{
    let data = data_array_encoding(cells) + rest;
    lemma_u64_round_trip(cells.len() as u64);
    assert(data.subrange(0, 8) =~= u64_be(cells.len() as u64));
    assert(row_count_field(data) == cells.len());
    assert(data.subrange(8, data.len() as int) =~= data_seq_encoding(cells) + rest);
    lemma_cells_round_trip(cells, rest);
}

/// Writes a row: its length as eight big-endian bytes, then each cell.
pub fn serialize_data_array(array: &HeapArray<Data>) -> (bytes: Vec<u8>)
    ensures
        bytes@ == data_array_encoding(row_items(*array)),
        forall|rest: Seq<u8>|
            data_array_decodable(#[trigger] (bytes@ + rest)) && row_cells(bytes@ + rest) == row_items(*array),
{
    let n = row_len(array);
    let mut result: Vec<u8> = be_encode(n as u64, 8);
    let mut i: usize = 0;
    proof {
        assert(row_items(*array).subrange(0, 0) =~= Seq::<Data>::empty());
    }
    while i < n
        invariant
            0 <= i <= n,
            n == row_items(*array).len(),
            result@ == u64_be(n as u64) + data_seq_encoding(row_items(*array).subrange(0, i as int)),
        decreases n - i,
    {
        let cell = row_item(array, i);
        let mut b = cell.serialize();
        result.append(&mut b);
        proof {
            let items = row_items(*array);
            assert(items.subrange(0, i + 1).drop_last() =~= items.subrange(0, i as int));
            assert(items.subrange(0, i + 1).last() == items[i as int]);
        }
        i = i + 1;
    }
    proof {
        assert(row_items(*array).subrange(0, n as int) =~= row_items(*array));
        assert forall|rest: Seq<u8>|
            data_array_decodable(#[trigger] (result@ + rest)) && row_cells(result@ + rest) == row_items(
                *array,
            ) by {
            lemma_data_array_round_trip(row_items(*array), rest);
        }
    }
    result
}

} // verus!
