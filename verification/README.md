# storaj_db

A small database server: tables of typed rows kept in memory, a binary
request/answer protocol, and users with roles that grant access per table.

- `src/` is the verified library: the byte encodings of the protocol
  (`protocol`, `util`, `text`), tables and their backends (`storage`), users,
  roles and permissions (`access`), and the decisions that the server's tasks
  take on each message (`distribution`). `collections` holds the trusted
  declarations of the `little-collections` types that the library uses.
- `app/` is the server around it: sockets, channels and tasks.
- `tests/` exercises the library on concrete values.
