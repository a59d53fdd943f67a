use vstd::prelude::*;
use crate::protocol::types::{field_u64, Operation, OperationResult};
use crate::text::{decode_text_or, text_or};
use crate::util::{be_encode, be_value, get_u64, lemma_u64_round_trip, u64_be, Deserializable, Serializable};

verus! {

/// The credentials that open a session.
pub struct Authentication {
    pub id: u64,
    pub password: String,
}

/// The length of the password in an authentication message.
pub open spec fn auth_password_len(data: Seq<u8>) -> int {
    field_u64(data, 8) as usize as int
}

impl Deserializable for Authentication {
    /// A user id, a password length, then the password.
    open spec fn decodable(data: Seq<u8>) -> bool {
        &&& data.len() >= 16
        &&& 16 + auth_password_len(data) <= data.len()
    }

    open spec fn decodes_to(data: Seq<u8>, value: Authentication) -> bool {
        &&& value.id == field_u64(data, 0)
        &&& value.password@ == text_or(
            data.subrange(16, 16 + auth_password_len(data)),
            "Non-UTF8 password"@,
        )
    }

    fn deserialize(data: &[u8]) -> (value: Authentication) {
        let len_field = get_u64(&data[8..16]);
        assert(len_field == field_u64(data@, 8));
        let total = data.len();
        let password_len = len_field as usize;
        let password = decode_text_or(&data[16..16 + password_len], "Non-UTF8 password");
        Authentication { id: get_u64(&data[0..8]), password }
    }
}

impl Authentication {
    /// Whether `Authentication::deserialize` can read `data` without running past its end.
    pub fn readable(data: &[u8]) -> (readable: bool)
        ensures
            readable == Authentication::decodable(data@),
    {
        let n = data.len();
        if n < 16 {
            return false;
        }
        let password_len = get_u64(&data[8..16]) as usize;
        password_len <= n - 16
    }
}

/// An operation sent within a session.
pub struct Request {
    pub session: u64,
    pub operation: Operation,
}

impl Deserializable for Request {
    /// The session id, then the operation.
    open spec fn decodable(data: Seq<u8>) -> bool {
        &&& data.len() >= 8
        &&& Operation::decodable(data.subrange(8, data.len() as int))
    }

    open spec fn decodes_to(data: Seq<u8>, value: Request) -> bool {
        &&& value.session == field_u64(data, 0)
        &&& Operation::decodes_to(data.subrange(8, data.len() as int), value.operation)
    }

    fn deserialize(data: &[u8]) -> (value: Request) {
        Request {
            session: get_u64(&data[0..8]),
            operation: Operation::deserialize(&data[8..data.len()]),
        }
    }
}

impl Request {
    /// Whether `Request::deserialize` can read `data` without running past its end.
    pub fn readable(data: &[u8]) -> (readable: bool)
        ensures
            readable == Request::decodable(data@),
    {
        let n = data.len();
        n >= 8 && Operation::readable(&data[8..n])
    }
}

/// What the server sends back.
pub enum Answer {
    Operation(OperationResult),
    GiveSession(u64),
    WrongUser,
    WrongPassword,
    WrongSessionId,
}

impl Serializable for Answer {
    /// A kind byte, then the operation's answer or the new session id.
    open spec fn encoded(&self) -> Seq<u8> {
        match self {
            Answer::Operation(or) => seq![0u8] + or.encoded(),
            Answer::GiveSession(id) => seq![1u8] + u64_be(*id),
            Answer::WrongUser => seq![2u8],
            Answer::WrongPassword => seq![3u8],
            Answer::WrongSessionId => seq![4u8],
        }
    }

    fn serialize(&self) -> (bytes: Vec<u8>) {
        let mut result: Vec<u8> = Vec::new();
        match self {
            Answer::Operation(or) => {
                result.push(0);
                let mut b = or.serialize();
                result.append(&mut b);
            },
            Answer::GiveSession(id) => {
                result.push(1);
                let mut b = be_encode(*id, 8);
                result.append(&mut b);
            },
            Answer::WrongUser => {
                result.push(2);
            },
            Answer::WrongPassword => {
                result.push(3);
            },
            Answer::WrongSessionId => {
                result.push(4);
            },
        }
        proof {
            assert(result@ =~= self.encoded());
        }
        result
    }
}

/// Every answer starts with a byte that names its kind, and the session id that
/// opens a session is read back from the eight bytes after it.
pub proof fn lemma_answer_kind_byte(answer: Answer)
    ensures
        answer.encoded().len() >= 1,
        answer.encoded()[0] == match answer {
            Answer::Operation(_) => 0u8,
            Answer::GiveSession(_) => 1u8,
            Answer::WrongUser => 2u8,
            Answer::WrongPassword => 3u8,
            Answer::WrongSessionId => 4u8,
        },
        answer matches Answer::GiveSession(id) ==> answer.encoded().len() == 9 && be_value(
            answer.encoded().subrange(1, 9),
        ) == id,
{
    if let Answer::GiveSession(id) = answer {
        lemma_u64_round_trip(id);
        assert(answer.encoded().subrange(1, 9) =~= u64_be(id));
    }
}

} // verus!
