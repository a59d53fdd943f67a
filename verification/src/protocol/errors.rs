use vstd::prelude::*;
use crate::util::Serializable;

verus! {

/// Why a row could not be read.
#[derive(Debug, PartialEq, Eq, Structural)]
pub enum GetRowError {
    NoPermission,
    NotFound,
}

impl Serializable for GetRowError {
    open spec fn encoded(&self) -> Seq<u8> {
        match self {
            GetRowError::NoPermission => seq![0u8],
            GetRowError::NotFound => seq![1u8],
        }
    }

    fn serialize(&self) -> (bytes: Vec<u8>) {
        match self {
            GetRowError::NoPermission => vec![0u8],
            GetRowError::NotFound => vec![1u8],
        }
    }
}

/// Why a row could not be replaced.
#[derive(Debug, PartialEq, Eq, Structural)]
pub enum SetRowError {
    NoPermission,
    NotFound,
    InappropriateRows,
}

impl Serializable for SetRowError {
    open spec fn encoded(&self) -> Seq<u8> {
        match self {
            SetRowError::NoPermission => seq![0u8],
            SetRowError::NotFound => seq![1u8],
            SetRowError::InappropriateRows => seq![2u8],
        }
    }

    fn serialize(&self) -> (bytes: Vec<u8>) {
        match self {
            SetRowError::NoPermission => vec![0u8],
            SetRowError::NotFound => vec![1u8],
            SetRowError::InappropriateRows => vec![2u8],
        }
    }
}

/// Why a row could not be added.
#[derive(Debug, PartialEq, Eq, Structural)]
pub enum AddRowError {
    NoPermission,
    Overflow,
    InappropriateRows,
}

impl Serializable for AddRowError {
    open spec fn encoded(&self) -> Seq<u8> {
        match self {
            AddRowError::NoPermission => seq![0u8],
            AddRowError::Overflow => seq![1u8],
            AddRowError::InappropriateRows => seq![2u8],
        }
    }

    fn serialize(&self) -> (bytes: Vec<u8>) {
        match self {
            AddRowError::NoPermission => vec![0u8],
            AddRowError::Overflow => vec![1u8],
            AddRowError::InappropriateRows => vec![2u8],
        }
    }
}

/// Why a row could not be removed.
#[derive(Debug, PartialEq, Eq, Structural)]
pub enum RemoveRowError {
    NoPermission,
    NotFound,
}

impl Serializable for RemoveRowError {
    open spec fn encoded(&self) -> Seq<u8> {
        match self {
            RemoveRowError::NoPermission => seq![0u8],
            RemoveRowError::NotFound => seq![1u8],
        }
    }

    fn serialize(&self) -> (bytes: Vec<u8>) {
        match self {
            RemoveRowError::NoPermission => vec![0u8],
            RemoveRowError::NotFound => vec![1u8],
        }
    }
}

/// Why a user could not be added.
#[derive(Debug, PartialEq, Eq, Structural)]
pub enum AddUserError {
    NoPermission,
    RoleNotFound,
}

impl Serializable for AddUserError {
    open spec fn encoded(&self) -> Seq<u8> {
        match self {
            AddUserError::NoPermission => seq![0u8],
            AddUserError::RoleNotFound => seq![1u8],
        }
    }

    fn serialize(&self) -> (bytes: Vec<u8>) {
        match self {
            AddUserError::NoPermission => vec![0u8],
            AddUserError::RoleNotFound => vec![1u8],
        }
    }
}

/// Each error answer is a single byte, and distinct errors of one kind get distinct bytes.
pub proof fn lemma_error_codes_distinct()
    ensures
        forall|a: GetRowError, b: GetRowError| #[trigger] a.encoded() == #[trigger] b.encoded() ==> a == b,
        forall|a: SetRowError, b: SetRowError| #[trigger] a.encoded() == #[trigger] b.encoded() ==> a == b,
        forall|a: AddRowError, b: AddRowError| #[trigger] a.encoded() == #[trigger] b.encoded() ==> a == b,
        forall|a: RemoveRowError, b: RemoveRowError| #[trigger] a.encoded() == #[trigger] b.encoded() ==> a == b,
        forall|a: AddUserError, b: AddUserError| #[trigger] a.encoded() == #[trigger] b.encoded() ==> a == b,
        forall|a: GetRowError| #[trigger] a.encoded().len() == 1,
        forall|a: SetRowError| #[trigger] a.encoded().len() == 1,
        forall|a: AddRowError| #[trigger] a.encoded().len() == 1,
        forall|a: RemoveRowError| #[trigger] a.encoded().len() == 1,
        forall|a: AddUserError| #[trigger] a.encoded().len() == 1,
{
    assert forall|a: GetRowError, b: GetRowError| #[trigger] a.encoded() == #[trigger] b.encoded() implies a == b by {
        if a != b {
            assert(a.encoded()[0] != b.encoded()[0]);
        }
    }
    assert forall|a: SetRowError, b: SetRowError| #[trigger] a.encoded() == #[trigger] b.encoded() implies a == b by {
        if a != b {
            assert(a.encoded()[0] != b.encoded()[0]);
        }
    }
    assert forall|a: AddRowError, b: AddRowError| #[trigger] a.encoded() == #[trigger] b.encoded() implies a == b by {
        if a != b {
            assert(a.encoded()[0] != b.encoded()[0]);
        }
    }
    assert forall|a: RemoveRowError, b: RemoveRowError| #[trigger] a.encoded() == #[trigger] b.encoded() implies a == b by {
        if a != b {
            assert(a.encoded()[0] != b.encoded()[0]);
        }
    }
    assert forall|a: AddUserError, b: AddUserError| #[trigger] a.encoded() == #[trigger] b.encoded() implies a == b by {
        if a != b {
            assert(a.encoded()[0] != b.encoded()[0]);
        }
    }
}

} // verus!
