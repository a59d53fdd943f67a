use vstd::prelude::*;
use little_collections::fn_set::FnSet;
use crate::access::{permits, Role, User};
use crate::collections::{get_role, get_user, insert_user, role_entries, row_items, user_entries, users_keyed_by_id};
use crate::protocol::errors::AddUserError;
use crate::protocol::message::{Answer, Authentication, Request};
use crate::protocol::types::{is_refusal_of, Operation, OperationResult};
use crate::storage::backend::Backend;
use crate::storage::table::{add_row_outcome, get_row_outcome, remove_row_outcome, set_row_outcome, Table};

verus! {

/// Trusted: `rand::random::<u64>()`, a number drawn from the thread's generator.
/// Nothing is promised of it.
#[verifier::external_body]
fn random_u64() -> (value: u64) {
    rand::random()
}

/// Performs a row operation on the table that it addresses.
pub fn execute_operation<B: Backend>(table: &mut Table<B>, operation: Operation) -> (result: OperationResult)
    requires
        !(operation is AddUser),
    ensures
        final(table).table_name() == old(table).table_name(),
        final(table).table_id() == old(table).table_id(),
        final(table).column_list() == old(table).column_list(),
        final(table).row_limit() == old(table).row_limit(),
        match operation {
            Operation::GetRow(_, i) => result matches OperationResult::GetRow(r) && get_row_outcome(
                old(table).rows(),
                i,
                r,
            ) && final(table).rows() == old(table).rows() && final(table).is_full() == old(table).is_full(),
            Operation::SetRow(_, i, row) => result matches OperationResult::SetRow(r) && final(table).is_full()
                == old(table).is_full() && set_row_outcome(
                old(table).column_list(),
                old(table).rows(),
                final(table).rows(),
                i,
                row_items(row),
                r,
            ),
            Operation::AddRow(_, row) => result matches OperationResult::AddRow(r) && (r is Ok ==> final(table).is_full() == (final(table).rows().len() >= final(table).row_limit())) && (r is Err ==> final(table).is_full() == old(table).is_full()) && add_row_outcome(
                old(table).column_list(),
                old(table).is_full(),
                old(table).rows(),
                final(table).rows(),
                row_items(row),
                r,
            ),
            Operation::RemoveRow(_, i) => result matches OperationResult::RemoveRow(r) && (r is Ok ==> final(table).is_full() == (final(table).rows().len() >= final(table).row_limit())) && (r is Err ==> final(table).is_full() == old(table).is_full()) && remove_row_outcome(
                old(table).rows(),
                final(table).rows(),
                i,
                r,
            ),
            Operation::AddUser(_, _, _) => false,
        },
{
    match operation {
        Operation::GetRow(_, i) => OperationResult::GetRow(table.get_row(i)),
        Operation::SetRow(_, i, row) => OperationResult::SetRow(table.set_row(i, row)),
        Operation::AddRow(_, row) => OperationResult::AddRow(table.add_row(row)),
        Operation::RemoveRow(_, i) => OperationResult::RemoveRow(table.remove_row(i)),
        Operation::AddUser(_, _, _) => {
            proof {
                assert(false);
            }
            OperationResult::AddUser(Err(AddUserError::NoPermission))
        },
    }
}

/// Adds a user under `id` when its role exists.
pub fn register_user(
    users: &mut FnSet<User>,
    roles: &FnSet<Role>,
    name: String,
    password: String,
    role: u64,
    id: u64,
) -> (result: OperationResult)
    requires
        users_keyed_by_id(*old(users)),
    ensures
        users_keyed_by_id(*final(users)),
        role_entries(*roles).contains_key(role as usize) ==> {
            &&& result == OperationResult::AddUser(Ok(id))
            &&& user_entries(*final(users)) == user_entries(*old(users)).insert(
                id as usize,
                (User { name, id, password, role }),
            )
        },
        !role_entries(*roles).contains_key(role as usize) ==> {
            &&& result == OperationResult::AddUser(Err(AddUserError::RoleNotFound))
            &&& user_entries(*final(users)) == user_entries(*old(users))
        },
{
    if get_role(roles, role as usize).is_some() {
        insert_user(users, User::new(name, id, password, role));
        OperationResult::AddUser(Ok(id))
    } else {
        OperationResult::AddUser(Err(AddUserError::RoleNotFound))
    }
}

/// Performs an operation on the user list: a new user gets a random id.
pub fn process_global_operation(users: &mut FnSet<User>, roles: &FnSet<Role>, operation: Operation) -> (result:
    OperationResult)
    requires
        operation is AddUser,
        users_keyed_by_id(*old(users)),
    ensures
        users_keyed_by_id(*final(users)),
        match operation {
            Operation::AddUser(name, password, role) => {
                if role_entries(*roles).contains_key(role as usize) {
                    result matches OperationResult::AddUser(Ok(id)) && user_entries(*final(users))
                        == user_entries(*old(users)).insert(id as usize, (User { name, id, password, role }))
                } else {
                    &&& result == OperationResult::AddUser(Err(AddUserError::RoleNotFound))
                    &&& user_entries(*final(users)) == user_entries(*old(users))
                }
            },
            _ => false,
        },
{
    match operation {
        Operation::AddUser(name, password, role) => {
            if get_role(roles, role as usize).is_some() {
                let id = random_u64();
                register_user(users, roles, name, password, role, id)
            } else {
                OperationResult::AddUser(Err(AddUserError::RoleNotFound))
            }
        },
        _ => {
            proof {
                assert(false);
            }
            OperationResult::AddUser(Err(AddUserError::NoPermission))
        },
    }
}

/// What a session does with a request, besides telling a wrong session id.
pub enum RequestAction {
    /// Hand the operation on to be performed.
    Forward(Operation),
    /// Answer this refusal, for lack of permission.
    Refuse(OperationResult),
    /// The session's user is gone: the session ends.
    UnknownUser,
    /// The user's role is gone: the session ends.
    UnknownRole,
}

/// A session's decision on one request.
pub struct RequestStep {
    /// Whether the request named another session; it is answered as such first,
    /// and then handled all the same.
    pub wrong_session: bool,
    pub action: RequestAction,
}

/// What the session of `user` decides for `operation`, given the users and roles.
pub open spec fn request_action(
    user: u64,
    users: Map<usize, User>,
    roles: Map<usize, Role>,
    operation: Operation,
    action: RequestAction,
) -> bool {
    if !users.contains_key(user as usize) {
        action == RequestAction::UnknownUser
    } else {
        let role = users[user as usize].role;
        if !roles.contains_key(role as usize) {
            action == RequestAction::UnknownRole
        } else if permits(roles[role as usize].permissions, operation) {
            action == RequestAction::Forward(operation)
        } else {
            action matches RequestAction::Refuse(refusal) && is_refusal_of(operation, refusal)
        }
    }
}

/// Decides what the session `session` of user `user` does with `request`.
pub fn decide_request(
    session: u64,
    user: u64,
    users: &FnSet<User>,
    roles: &FnSet<Role>,
    request: Request,
) -> (step: RequestStep)
    ensures
        step.wrong_session == (request.session != session),
        request_action(user, user_entries(*users), role_entries(*roles), request.operation, step.action),
        user_entries(*users).contains_key(user as usize) && role_entries(*roles).contains_key(
            user_entries(*users)[user as usize].role as usize,
        ) ==> ((step.action == RequestAction::Forward(request.operation)) <==> permits(
            role_entries(*roles)[user_entries(*users)[user as usize].role as usize].permissions,
            request.operation,
        )),
{
    let wrong_session = request.session != session;
    let action = match get_user(users, user as usize) {
        Some(found) => match get_role(roles, found.role as usize) {
            Some(role) => {
                if role.can_perform(&request.operation) {
                    RequestAction::Forward(request.operation)
                } else {
                    RequestAction::Refuse(request.operation.get_no_permission())
                }
            },
            None => RequestAction::UnknownRole,
        },
        None => RequestAction::UnknownUser,
    };
    RequestStep { wrong_session, action }
}

/// The verdict on a set of credentials.
pub enum Credentials {
    /// The password is the user's; the payload is the user's id.
    Accepted(u64),
    WrongPassword,
    WrongUser,
}

/// The verdict on the credentials `id` and `password`: unknown user, wrong
/// password, or the id of the user they open.
pub open spec fn credentials_verdict(users: Map<usize, User>, id: u64, password: Seq<char>) -> Credentials {
    if !users.contains_key(id as usize) {
        Credentials::WrongUser
    } else if users[id as usize].password@ == password {
        Credentials::Accepted(users[id as usize].id)
    } else {
        Credentials::WrongPassword
    }
}

/// Checks credentials against the users.
pub fn check_credentials(users: &FnSet<User>, auth: &Authentication) -> (verdict: Credentials)
    ensures
        verdict == credentials_verdict(user_entries(*users), auth.id, auth.password@),
{
    match get_user(users, auth.id as usize) {
        Some(user) => {
            if auth.password == user.password {
                Credentials::Accepted(user.id)
            } else {
                Credentials::WrongPassword
            }
        },
        None => Credentials::WrongUser,
    }
}

/// Answers an authentication: a new random session id for good credentials,
/// with the session and the user's id to start it with.
pub fn answer_authentication(users: &FnSet<User>, auth: &Authentication) -> (reply: (Answer, Option<(u64, u64)>))
    ensures
        !user_entries(*users).contains_key(auth.id as usize) ==> reply.0 == Answer::WrongUser && reply.1
            == None::<(u64, u64)>,
        user_entries(*users).contains_key(auth.id as usize) ==> {
            let user = user_entries(*users)[auth.id as usize];
            if user.password@ == auth.password@ {
                reply.0 matches Answer::GiveSession(session) && reply.1 == Some((session, user.id))
            } else {
                reply.0 == Answer::WrongPassword && reply.1 == None::<(u64, u64)>
            }
        },
{
    match check_credentials(users, auth) {
        Credentials::Accepted(user_id) => {
            let session = random_u64();
            (Answer::GiveSession(session), Some((session, user_id)))
        },
        Credentials::WrongPassword => (Answer::WrongPassword, None),
        Credentials::WrongUser => (Answer::WrongUser, None),
    }
}

/// A user added by `register_user` opens a session with its own id and password,
/// and the session belongs to that id.
pub proof fn lemma_registered_user_authenticates(
    before: Map<usize, User>,
    after: Map<usize, User>,
    name: String,
    password: String,
    role: u64,
    id: u64,
)
    requires
        after == before.insert(id as usize, (User { name, id, password, role })),
    ensures
        credentials_verdict(after, id, password@) == Credentials::Accepted(id),
{
}

/// Adding a user leaves every other user filed under a different index as it was,
/// so their credentials are judged as before.
pub proof fn lemma_registration_keeps_others(
    before: Map<usize, User>,
    after: Map<usize, User>,
    added: User,
    id: u64,
    password: Seq<char>,
)
    requires
        after == before.insert(added.id as usize, added),
        id as usize != added.id as usize,
    ensures
        credentials_verdict(after, id, password) == credentials_verdict(before, id, password),
{
}

/// When the session's user and that user's role exist, a request is forwarded
/// exactly when the role's permissions permit its operation, and otherwise it is
/// refused with the refusal of that operation.
pub proof fn lemma_forwarded_exactly_when_permitted(
    user: u64,
    users: Map<usize, User>,
    roles: Map<usize, Role>,
    operation: Operation,
    action: RequestAction,
)
    requires
        users.contains_key(user as usize),
        roles.contains_key(users[user as usize].role as usize),
        request_action(user, users, roles, operation, action),
    ensures
        (action == RequestAction::Forward(operation)) <==> permits(
            roles[users[user as usize].role as usize].permissions,
            operation,
        ),
        !permits(roles[users[user as usize].role as usize].permissions, operation) ==> (action matches RequestAction::Refuse(
            refusal,
        ) && is_refusal_of(operation, refusal)),
{
}

} // verus!
