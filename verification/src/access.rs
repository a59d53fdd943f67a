use vstd::prelude::*;
use little_collections::fn_set::FnSet;
use crate::collections::{
    get_table, insert_role, insert_table, insert_user, new_role_set, new_table_set, new_user_set,
    role_entries, roles_keyed_by_id, table_entries, tables_keyed_by_value, user_entries,
    users_keyed_by_id,
};
use little_collections::heap_array::HeapArray;
use crate::protocol::types::{Data, Operation};

verus! {

/// An account that can open sessions.
#[derive(Clone)]
pub struct User {
    pub name: String,
    pub id: u64,
    pub password: String,
    pub role: u64,
}

impl User {
    pub fn new(name: String, id: u64, password: String, role: u64) -> (user: Self)
        ensures
            user.name == name,
            user.id == id,
            user.password == password,
            user.role == role,
    {
        Self { name, id, password, role }
    }
}

/// A named set of permissions that users are given.
pub struct Role {
    pub name: String,
    pub id: u64,
    pub permissions: Permissions,
}

/// Whether a role with `permissions` may perform `op`: reading needs the table in
/// the read set, writing needs it in the write set, adding users needs `edit_users`.
pub open spec fn permits(permissions: Permissions, op: Operation) -> bool {
    match op {
        Operation::GetRow(i, _) => table_entries(permissions.read).contains_key(i),
        Operation::SetRow(i, _, _) => table_entries(permissions.write).contains_key(i),
        Operation::AddRow(i, _) => table_entries(permissions.write).contains_key(i),
        Operation::RemoveRow(i, _) => table_entries(permissions.write).contains_key(i),
        Operation::AddUser(_, _, _) => permissions.edit_users,
    }
}

impl Role {
    pub fn new(name: String, id: u64, permissions: Permissions) -> (role: Self)
        ensures
            role.name == name,
            role.id == id,
            role.permissions == permissions,
    {
        Self { name, id, permissions }
    }

    /// Whether this role may perform `operation`.
    pub fn can_perform(&self, operation: &Operation) -> (allowed: bool)
        ensures
            allowed == permits(self.permissions, *operation),
    {
        match operation {
            Operation::GetRow(i, _) => {
                if get_table(&self.permissions.read, *i).is_some() {
                    true
                } else {
                    false
                }
            },
            Operation::SetRow(i, _, _) | Operation::AddRow(i, _) | Operation::RemoveRow(i, _) => {
                if get_table(&self.permissions.write, *i).is_some() {
                    true
                } else {
                    false
                }
            },
            Operation::AddUser(_, _, _) => {
                if self.permissions.edit_users {
                    true
                } else {
                    false
                }
            },
        }
    }
}

/// What a role may do: the tables it may read and write, and what it may edit.
pub struct Permissions {
    pub read: FnSet<u64>,
    pub write: FnSet<u64>,
    pub edit_tables: bool,
    pub edit_roles: bool,
    pub edit_users: bool,
    pub edit_settings: bool,
}

/// The set of table ids that holds `ids`, each filed under itself.
pub open spec fn id_entries(ids: Seq<u64>) -> Map<usize, u64>
    decreases ids.len(),
{
    if ids.len() == 0 {
        Map::empty()
    } else {
        id_entries(ids.drop_last()).insert(ids.last() as usize, ids.last())
    }
}

/// The users that `users` hold, filed by id; a later user replaces an earlier one with the same id.
pub open spec fn users_by_id(users: Seq<User>) -> Map<usize, User>
    decreases users.len(),
{
    if users.len() == 0 {
        Map::empty()
    } else {
        users_by_id(users.drop_last()).insert(users.last().id as usize, users.last())
    }
}

/// The roles that `roles` hold, filed by id; a later role replaces an earlier one with the same id.
pub open spec fn roles_by_id(roles: Seq<Role>) -> Map<usize, Role>
    decreases roles.len(),
{
    if roles.len() == 0 {
        Map::empty()
    } else {
        roles_by_id(roles.drop_last()).insert(roles.last().id as usize, roles.last())
    }
}

/// Files each id of `ids` in a fresh table-id set.
fn table_set_of(ids: &Vec<u64>) -> (set: FnSet<u64>)
    ensures
        tables_keyed_by_value(set),
        table_entries(set) == id_entries(ids@),
{
    let mut set = new_table_set();
    let mut i: usize = 0;
    proof {
        assert(ids@.subrange(0, 0) =~= Seq::<u64>::empty());
    }
    while i < ids.len()
        invariant
            0 <= i <= ids@.len(),
            tables_keyed_by_value(set),
            table_entries(set) == id_entries(ids@.subrange(0, i as int)),
        decreases ids@.len() - i,
    {
        insert_table(&mut set, ids[i]);
        proof {
            assert(ids@.subrange(0, i + 1).drop_last() =~= ids@.subrange(0, i as int));
        }
        i = i + 1;
    }
    proof {
        assert(ids@.subrange(0, ids@.len() as int) =~= ids@);
    }
    set
}

impl Permissions {
    pub fn new(
        read: Vec<u64>,
        write: Vec<u64>,
        edit_tables: bool,
        edit_roles: bool,
        edit_users: bool,
        edit_settings: bool,
    ) -> (permissions: Self)
        ensures
            table_entries(permissions.read) == id_entries(read@),
            table_entries(permissions.write) == id_entries(write@),
            tables_keyed_by_value(permissions.read),
            tables_keyed_by_value(permissions.write),
            permissions.edit_tables == edit_tables,
            permissions.edit_roles == edit_roles,
            permissions.edit_users == edit_users,
            permissions.edit_settings == edit_settings,
    {
        let read_map = table_set_of(&read);
        let write_map = table_set_of(&write);
        Self {
            read: read_map,
            write: write_map,
            edit_tables,
            edit_roles,
            edit_users,
            edit_settings,
        }
    }
}

/// Files `users` by id, in order, so that a later user replaces an earlier one with the same id.
pub fn collect_users(users: Vec<User>) -> (set: FnSet<User>)
    ensures
        users_keyed_by_id(set),
        user_entries(set) == users_by_id(users@),
{
    let ghost all = users@;
    let total = users.len();
    let mut rest = users;
    let mut set = new_user_set();
    let mut i: usize = 0;
    proof {
        assert(all.subrange(0, 0) =~= Seq::<User>::empty());
        assert(all.subrange(0, all.len() as int) =~= all);
    }
    while rest.len() > 0
        invariant
            0 <= i <= all.len(),
            all.len() == total,
            rest@ == all.subrange(i as int, all.len() as int),
            users_keyed_by_id(set),
            user_entries(set) == users_by_id(all.subrange(0, i as int)),
        decreases rest@.len(),
    {
        let user = rest.remove(0);
        insert_user(&mut set, user);
        proof {
            assert(all.subrange(0, i + 1).drop_last() =~= all.subrange(0, i as int));
            assert(rest@ =~= all.subrange(i + 1, all.len() as int));
        }
        i = i + 1;
    }
    proof {
        assert(all.subrange(0, i as int) =~= all);
    }
    set
}

/// Files `roles` by id, in order, so that a later role replaces an earlier one with the same id.
pub fn collect_roles(roles: Vec<Role>) -> (set: FnSet<Role>)
    ensures
        roles_keyed_by_id(set),
        role_entries(set) == roles_by_id(roles@),
{
    let ghost all = roles@;
    let total = roles.len();
    let mut rest = roles;
    let mut set = new_role_set();
    let mut i: usize = 0;
    proof {
        assert(all.subrange(0, 0) =~= Seq::<Role>::empty());
        assert(all.subrange(0, all.len() as int) =~= all);
    }
    while rest.len() > 0
        invariant
            0 <= i <= all.len(),
            all.len() == total,
            rest@ == all.subrange(i as int, all.len() as int),
            roles_keyed_by_id(set),
            role_entries(set) == roles_by_id(all.subrange(0, i as int)),
        decreases rest@.len(),
    {
        let role = rest.remove(0);
        insert_role(&mut set, role);
        proof {
            assert(all.subrange(0, i + 1).drop_last() =~= all.subrange(0, i as int));
            assert(rest@ =~= all.subrange(i + 1, all.len() as int));
        }
        i = i + 1;
    }
    proof {
        assert(all.subrange(0, i as int) =~= all);
    }
    set
}

/// A set made from a list of ids files exactly those ids, each under itself.
pub proof fn lemma_id_entries(ids: Seq<u64>, index: usize)
    ensures
        id_entries(ids).contains_key(index) <==> exists|k: int| 0 <= k < ids.len() && ids[k] as usize == index,
    decreases ids.len(),
{
    if ids.len() > 0 {
        let front = ids.drop_last();
        lemma_id_entries(front, index);
        if id_entries(front).contains_key(index) {
            let k = choose|k: int| 0 <= k < front.len() && front[k] as usize == index;
            assert(ids[k] == front[k]);
        }
        if exists|k: int| 0 <= k < ids.len() && ids[k] as usize == index {
            let k = choose|k: int| 0 <= k < ids.len() && ids[k] as usize == index;
            if k < ids.len() - 1 {
                assert(front[k] == ids[k]);
            }
        }
    }
}

/// A role reads exactly the tables listed as readable when its permissions were
/// made, and writes exactly the tables listed as writable.
pub proof fn lemma_permissions_grant_listed_tables(
    read: Seq<u64>,
    write: Seq<u64>,
    permissions: Permissions,
    table: usize,
    row: usize,
    cells: HeapArray<Data>,
    name: String,
    password: String,
    role: u64,
)
    requires
        table_entries(permissions.read) == id_entries(read),
        table_entries(permissions.write) == id_entries(write),
    ensures
        permits(permissions, Operation::GetRow(table, row)) <==> exists|k: int|
            0 <= k < read.len() && read[k] as usize == table,
        permits(permissions, Operation::RemoveRow(table, row)) <==> exists|k: int|
            0 <= k < write.len() && write[k] as usize == table,
        permits(permissions, Operation::SetRow(table, row, cells)) <==> exists|k: int|
            0 <= k < write.len() && write[k] as usize == table,
        permits(permissions, Operation::AddRow(table, cells)) <==> exists|k: int|
            0 <= k < write.len() && write[k] as usize == table,
        permits(permissions, Operation::AddUser(name, password, role)) <==> permissions.edit_users,
{
    lemma_id_entries(read, table);
    lemma_id_entries(write, table);
}

} // verus!
