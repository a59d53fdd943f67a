use vstd::prelude::*;

verus! {

broadcast use vstd::seq_lib::group_to_multiset_ensures;

/// What a directory entry shows of a possible part file: whether it is a file,
/// and the UTF-8 bytes of its extension and of its stem (`None` when the name has
/// none, or it is not UTF-8).
pub struct PartFile {
    pub is_file: bool,
    pub extension: Option<Vec<u8>>,
    pub stem: Option<Vec<u8>>,
}

/// The extension of part files, `datapart`, as bytes.
pub open spec fn part_extension() -> Seq<u8> {
    seq![100u8, 97, 116, 97, 112, 97, 114, 116]
}

/// Whether `b` is an ASCII decimal digit.
pub open spec fn is_digit(b: u8) -> bool {
    48 <= b <= 57
}

/// The number that the decimal digits `digits` spell.
pub open spec fn digits_value(digits: Seq<u8>) -> nat
    decreases digits.len(),
{
    if digits.len() == 0 {
        0
    } else {
        digits_value(digits.drop_last()) * 10 + (digits.last() - 48) as nat
    }
}

/// The digits of an unsigned decimal: the text after a leading `+`, when there
/// is something after it, else the whole text.
pub open spec fn unsigned_digits(text: Seq<u8>) -> Seq<u8> {
    if text.len() > 1 && text[0] == 43 {
        text.subrange(1, text.len() as int)
    } else {
        text
    }
}

/// The `usize` that `text` spells as an unsigned decimal, as `usize::from_str_radix`
/// with radix 10 reads it: an optional `+`, then one or more digits, with a value
/// that fits.
pub open spec fn decimal_number(text: Seq<u8>) -> Option<usize> {
    let digits = unsigned_digits(text);
    if digits.len() > 0 && (forall|i: int| 0 <= i < digits.len() ==> is_digit(#[trigger] digits[i]))
        && digits_value(digits) <= usize::MAX {
        Some(digits_value(digits) as usize)
    } else {
        None
    }
}

/// A longer run of digits spells at least as much as any of its prefixes.
proof fn lemma_digits_prefix_bound(digits: Seq<u8>, i: int)
    requires
        0 <= i <= digits.len(),
        forall|k: int| 0 <= k < digits.len() ==> is_digit(#[trigger] digits[k]),
    ensures
        digits_value(digits.subrange(0, i)) <= digits_value(digits),
    decreases digits.len() - i,
{
    if i < digits.len() {
        lemma_digits_prefix_bound(digits, i + 1);
        let p = digits.subrange(0, i + 1);
        assert(p.drop_last() =~= digits.subrange(0, i));
        assert(is_digit(p.last()));
    } else {
        assert(digits.subrange(0, i) =~= digits);
    }
}

/// Reads an unsigned decimal number, as `usize::from_str_radix(text, 10).ok()` does.
pub fn parse_decimal(text: &[u8]) -> (value: Option<usize>)
    ensures
        value == decimal_number(text@),
{
    let n = text.len();
    let start: usize = if n > 1 && text[0] == 43 {
        1
    } else {
        0
    };
    let ghost digits = unsigned_digits(text@);
    assert(digits =~= text@.subrange(start as int, n as int));
    if start == n {
        return None;
    }
    let mut i: usize = start;
    while i < n
        invariant
            start <= i <= n,
            n == text@.len(),
            digits =~= text@.subrange(start as int, n as int),
            digits == unsigned_digits(text@),
            forall|k: int| start <= k < i ==> is_digit(#[trigger] text@[k]),
        decreases n - i,
    {
        if text[i] < 48 || text[i] > 57 {
            proof {
                assert(digits[i - start] == text@[i as int]);
                assert(!is_digit(digits[i - start]));
                assert(!(forall|k: int| 0 <= k < digits.len() ==> is_digit(#[trigger] digits[k])));
            }
            return None;
        }
        i = i + 1;
    }
    assert(forall|k: int| 0 <= k < digits.len() ==> is_digit(#[trigger] digits[k])) by {
        assert forall|k: int| 0 <= k < digits.len() implies is_digit(#[trigger] digits[k]) by {
            assert(digits[k] == text@[start + k]);
        }
    }
    let mut acc: usize = 0;
    let mut j: usize = start;
    assert(digits.subrange(0, 0) =~= Seq::<u8>::empty());
    while j < n
        invariant
            start <= j <= n,
            n == text@.len(),
            digits =~= text@.subrange(start as int, n as int),
            digits == unsigned_digits(text@),
            forall|k: int| 0 <= k < digits.len() ==> is_digit(#[trigger] digits[k]),
            acc as nat == digits_value(digits.subrange(0, j - start)),
        decreases n - j,
    {
        proof {
            assert(digits[j - start] == text@[j as int]);
            assert(is_digit(digits[j - start]));
            assert(digits.subrange(0, j - start + 1).drop_last() =~= digits.subrange(0, j - start));
            assert(digits.subrange(0, j - start + 1).last() == text@[j as int]);
        }
        let d = (text[j] - 48) as usize;
        assert(digits_value(digits.subrange(0, j - start + 1)) == (acc as nat) * 10 + d);
        match acc.checked_mul(10) {
            Some(m) => match m.checked_add(d) {
                Some(next) => {
                    acc = next;
                },
                None => {
                    proof {
                        lemma_digits_prefix_bound(digits, j - start + 1);
                        assert(digits_value(digits) > usize::MAX);
                    }
                    return None;
                },
            },
            None => {
                proof {
                    lemma_digits_prefix_bound(digits, j - start + 1);
                    assert(digits_value(digits.subrange(0, j - start + 1)) >= (acc as nat) * 10);
                    assert(digits_value(digits) > usize::MAX);
                }
                return None;
            },
        }
        j = j + 1;
    }
    assert(digits.subrange(0, n - start) =~= digits);
    Some(acc)
}

/// The number of a part file, when `file` is one: a file with extension
/// `datapart` whose stem is a decimal number.
pub open spec fn part_number_spec(file: PartFile) -> Option<usize> {
    if file.is_file && (file.extension matches Some(e) && e@ == part_extension()) {
        match file.stem {
            Some(s) => decimal_number(s@),
            None => None,
        }
    } else {
        None
    }
}

/// Whether `bytes` are `datapart`.
fn is_part_extension(bytes: &Vec<u8>) -> (matches: bool)
    ensures
        matches == (bytes@ == part_extension()),
{
    let expected: Vec<u8> = vec![100u8, 97, 116, 97, 112, 97, 114, 116];
    assert(expected@ =~= part_extension());
    if bytes.len() != 8 {
        return false;
    }
    let mut i: usize = 0;
    while i < 8
        invariant
            0 <= i <= 8,
            bytes@.len() == 8,
            expected@ == part_extension(),
            forall|k: int| 0 <= k < i ==> bytes@[k] == expected@[k],
        decreases 8 - i,
    {
        if bytes[i] != expected[i] {
            return false;
        }
        i = i + 1;
    }
    assert(bytes@ =~= expected@);
    true
}

/// The number of a part file, when `file` is one.
pub fn part_number(file: &PartFile) -> (number: Option<usize>)
    ensures
        number == part_number_spec(*file),
{
    if !file.is_file {
        return None;
    }
    match &file.extension {
        Some(e) => {
            if !is_part_extension(e) {
                return None;
            }
        },
        None => {
            return None;
        },
    }
    match &file.stem {
        Some(s) => parse_decimal(s.as_slice()),
        None => None,
    }
}

/// The numbers of the part files among `files`, in their order.
pub open spec fn part_numbers_of(files: Seq<PartFile>) -> Seq<usize>
    decreases files.len(),
{
    if files.len() == 0 {
        Seq::empty()
    } else {
        let front = part_numbers_of(files.drop_last());
        match part_number_spec(files.last()) {
            Some(n) => front.push(n),
            None => front,
        }
    }
}

/// The numbers of the part files among `files`, in their order.
pub fn existing_part_numbers(files: &Vec<PartFile>) -> (parts: Vec<usize>)
    ensures
        parts@ == part_numbers_of(files@),
{
    let mut parts: Vec<usize> = Vec::new();
    let mut i: usize = 0;
    assert(files@.subrange(0, 0) =~= Seq::<PartFile>::empty());
    while i < files.len()
        invariant
            0 <= i <= files@.len(),
            parts@ == part_numbers_of(files@.subrange(0, i as int)),
        decreases files@.len() - i,
    {
        proof {
            assert(files@.subrange(0, i + 1).drop_last() =~= files@.subrange(0, i as int));
        }
        match part_number(&files[i]) {
            Some(n) => parts.push(n),
            None => {},
        }
        i = i + 1;
    }
    assert(files@.subrange(0, files@.len() as int) =~= files@);
    parts
}

/// Whether `parts` never go down.
pub open spec fn ascending(parts: Seq<usize>) -> bool {
    forall|a: int, b: int| 0 <= a < b < parts.len() ==> parts[a] <= parts[b]
}

/// The part numbers in ascending order.
pub fn sort_part_numbers(parts: Vec<usize>) -> (sorted: Vec<usize>)
    ensures
        ascending(sorted@),
        sorted@.to_multiset() == parts@.to_multiset(),
{
    let mut sorted: Vec<usize> = Vec::new();
    let mut i: usize = 0;
    assert(parts@.subrange(0, 0) =~= Seq::<usize>::empty());
    while i < parts.len()
        invariant
            0 <= i <= parts@.len(),
            ascending(sorted@),
            sorted@.to_multiset() == parts@.subrange(0, i as int).to_multiset(),
        decreases parts@.len() - i,
    {
        let x = parts[i];
        let mut pos: usize = 0;
        while pos < sorted.len() && sorted[pos] <= x
            invariant
                0 <= pos <= sorted@.len(),
                forall|k: int| 0 <= k < pos ==> sorted@[k] <= x,
            decreases sorted@.len() - pos,
        {
            pos = pos + 1;
        }
        let ghost before = sorted@;
        sorted.insert(pos, x);
        proof {
            assert(sorted@ == before.insert(pos as int, x));
            vstd::seq_lib::to_multiset_insert(before, pos as int, x);
            assert(parts@.subrange(0, i + 1) =~= parts@.subrange(0, i as int).push(x));
            vstd::seq_lib::to_multiset_build(parts@.subrange(0, i as int), x);
            assert forall|a: int, b: int| 0 <= a < b < sorted@.len() implies sorted@[a] <= sorted@[b] by {
                if b < pos {
                } else if a < pos && b == pos {
                } else if a < pos {
                    assert(sorted@[b] == before[b - 1]);
                    if pos < before.len() {
                        assert(before[a] <= before[b - 1]);
                    }
                } else if a == pos {
                    assert(sorted@[b] == before[b - 1]);
                    assert(x < before[pos as int]);
                    assert(before[pos as int] <= before[b - 1]);
                } else {
                    assert(sorted@[a] == before[a - 1]);
                    assert(sorted@[b] == before[b - 1]);
                }
            }
        }
        i = i + 1;
    }
    assert(parts@.subrange(0, parts@.len() as int) =~= parts@);
    sorted
}

} // verus!
