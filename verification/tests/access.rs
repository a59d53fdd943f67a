use little_collections::heap_array::HeapArray;
use storaj_db::access::{collect_roles, collect_users, Permissions, Role, User};
use storaj_db::distribution::{
    answer_authentication, check_credentials, decide_request, process_global_operation, register_user,
    Credentials, RequestAction,
};
use storaj_db::protocol::errors::{AddUserError, GetRowError, SetRowError};
use storaj_db::protocol::message::{Answer, Authentication, Request};
use storaj_db::protocol::types::{Data, Operation, OperationResult};

fn user(id: u64, password: &str, role: u64) -> User {
    User::new(format!("user{}", id), id, password.to_string(), role)
}

fn reader_role(id: u64) -> Role {
    Role::new("reader".to_string(), id, Permissions::new(vec![1, 2], vec![2], false, false, false, false))
}

fn admin_role(id: u64) -> Role {
    Role::new("admin".to_string(), id, Permissions::new(vec![], vec![], true, true, true, true))
}

fn auth(id: u64, password: &str) -> Authentication {
    Authentication { id, password: password.to_string() }
}

#[test]
fn user_new_keeps_fields() {
    let u = User::new("n".to_string(), 3, "p".to_string(), 4);
    assert_eq!((u.name.as_str(), u.id, u.password.as_str(), u.role), ("n", 3, "p", 4));
}

#[test]
fn role_permissions() {
    let role = reader_role(0);
    assert_eq!(role.name, "reader");
    assert!(role.can_perform(&Operation::GetRow(1, 0)));
    assert!(role.can_perform(&Operation::GetRow(2, 0)));
    assert!(!role.can_perform(&Operation::GetRow(3, 0)));
    assert!(role.can_perform(&Operation::RemoveRow(2, 0)));
    assert!(!role.can_perform(&Operation::RemoveRow(1, 0)));
    assert!(!role.can_perform(&Operation::AddRow(1, HeapArray::from_slice(&[]))));
    assert!(role.can_perform(&Operation::SetRow(2, 0, HeapArray::from_slice(&[Data::U32(0)]))));
    assert!(!role.can_perform(&Operation::AddUser(String::new(), String::new(), 0)));
    assert!(admin_role(1).can_perform(&Operation::AddUser(String::new(), String::new(), 0)));
    assert!(!admin_role(1).can_perform(&Operation::GetRow(0, 0)));
}

#[test]
fn permissions_flags() {
    let p = Permissions::new(vec![], vec![], true, false, true, false);
    assert!(p.edit_tables && !p.edit_roles && p.edit_users && !p.edit_settings);
}

#[test]
fn credentials() {
    let users = collect_users(vec![user(1, "a", 0), user(2, "b", 0)]);
    assert!(matches!(check_credentials(&users, &auth(1, "a")), Credentials::Accepted(1)));
    assert!(matches!(check_credentials(&users, &auth(2, "a")), Credentials::WrongPassword));
    assert!(matches!(check_credentials(&users, &auth(3, "a")), Credentials::WrongUser));
}

#[test]
fn later_user_with_same_id_wins() {
    let users = collect_users(vec![user(1, "old", 0), user(1, "new", 0)]);
    assert!(matches!(check_credentials(&users, &auth(1, "new")), Credentials::Accepted(1)));
    assert!(matches!(check_credentials(&users, &auth(1, "old")), Credentials::WrongPassword));
}

#[test]
fn authentication_answers() {
    let users = collect_users(vec![user(7, "pw", 0)]);
    match answer_authentication(&users, &auth(7, "pw")) {
        (Answer::GiveSession(session), Some((s, u))) => {
            assert_eq!(session, s);
            assert_eq!(u, 7);
        }
        _ => panic!("expected a session"),
    }
    assert!(matches!(answer_authentication(&users, &auth(7, "no")), (Answer::WrongPassword, None)));
    assert!(matches!(answer_authentication(&users, &auth(8, "pw")), (Answer::WrongUser, None)));
}

#[test]
fn registering_users() {
    let mut users = collect_users(vec![]);
    let roles = collect_roles(vec![reader_role(5)]);
    let result = register_user(&mut users, &roles, "x".to_string(), "y".to_string(), 5, 99);
    assert!(matches!(result, OperationResult::AddUser(Ok(99))));
    assert!(matches!(check_credentials(&users, &auth(99, "y")), Credentials::Accepted(99)));
    let refused = register_user(&mut users, &roles, "z".to_string(), "w".to_string(), 6, 100);
    assert!(matches!(refused, OperationResult::AddUser(Err(AddUserError::RoleNotFound))));
    assert!(matches!(check_credentials(&users, &auth(100, "w")), Credentials::WrongUser));
}

#[test]
fn global_operation_adds_user_with_fresh_id() {
    let mut users = collect_users(vec![]);
    let roles = collect_roles(vec![admin_role(1)]);
    let result = process_global_operation(&mut users, &roles, Operation::AddUser("n".to_string(), "p".to_string(), 1));
    match result {
        OperationResult::AddUser(Ok(id)) => {
            assert!(matches!(check_credentials(&users, &auth(id, "p")), Credentials::Accepted(i) if i == id));
        }
        _ => panic!("expected a new user"),
    }
    let missing = process_global_operation(&mut users, &roles, Operation::AddUser("n".to_string(), "p".to_string(), 2));
    assert!(matches!(missing, OperationResult::AddUser(Err(AddUserError::RoleNotFound))));
}

fn request(session: u64, operation: Operation) -> Request {
    Request { session, operation }
}

#[test]
fn session_decisions() {
    let users = collect_users(vec![user(1, "a", 10), user(2, "b", 11)]);
    let roles = collect_roles(vec![reader_role(10)]);
    let step = decide_request(5, 1, &users, &roles, request(5, Operation::GetRow(1, 0)));
    assert!(!step.wrong_session);
    assert!(matches!(step.action, RequestAction::Forward(Operation::GetRow(1, 0))));
    let step = decide_request(5, 1, &users, &roles, request(6, Operation::GetRow(1, 0)));
    assert!(step.wrong_session);
    assert!(matches!(step.action, RequestAction::Forward(Operation::GetRow(1, 0))));
    let step = decide_request(5, 1, &users, &roles, request(5, Operation::GetRow(9, 0)));
    assert!(matches!(step.action, RequestAction::Refuse(OperationResult::GetRow(Err(GetRowError::NoPermission)))));
    let step = decide_request(5, 1, &users, &roles, request(5, Operation::SetRow(1, 0, HeapArray::from_slice(&[]))));
    assert!(matches!(step.action, RequestAction::Refuse(OperationResult::SetRow(Err(SetRowError::NoPermission)))));
    let step = decide_request(5, 2, &users, &roles, request(5, Operation::GetRow(1, 0)));
    assert!(matches!(step.action, RequestAction::UnknownRole));
    let step = decide_request(5, 3, &users, &roles, request(5, Operation::GetRow(1, 0)));
    assert!(matches!(step.action, RequestAction::UnknownUser));
}

#[test]
fn registration_keeps_other_users() {
    let mut users = collect_users(vec![user(1, "a", 5)]);
    let roles = collect_roles(vec![reader_role(5)]);
    register_user(&mut users, &roles, "n".to_string(), "p".to_string(), 5, 2);
    assert!(matches!(check_credentials(&users, &auth(1, "a")), Credentials::Accepted(1)));
    assert!(matches!(check_credentials(&users, &auth(2, "p")), Credentials::Accepted(2)));
}
