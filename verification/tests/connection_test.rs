use hive_server::api::{
    create_connection, delete_connection, update_connection, RpcErrorKind,
};
use hive_server::models::{ApiKey, Connection, Session, SessionStatus, Store, User};

#[test]
fn test_connection_crud() {
    let mut store = Store::new();
    let user = User::create(&mut store, "test_user_conn_crud").expect("Failed to create user");

    // Create connection
    let conn = Connection::create(
        &mut store,
        user.id,
        "Test Server",
        "localhost",
        2222,
        "testuser",
        None,
        Some("ls -la"),
    )
    .expect("Failed to create connection");

    assert_eq!(conn.name, "Test Server");
    assert_eq!(conn.host, "localhost");
    assert_eq!(conn.port, 2222);
    assert_eq!(conn.username, "testuser");
    assert_eq!(conn.startup_command.as_deref(), Some("ls -la"));

    // Find by id
    let found = Connection::find_by_id(&store, conn.id)
        .expect("Failed to find connection")
        .expect("Connection should exist");
    assert_eq!(found.id, conn.id);
    assert_eq!(found.name, "Test Server");

    // List for user
    let conns = Connection::list_for_user(&store, user.id).expect("Failed to list connections");
    assert_eq!(conns.len(), 1);
    assert_eq!(conns[0].id, conn.id);

    // Update
    let updated = Connection::update(
        &mut store,
        conn.id,
        "Updated Server",
        "192.168.1.1",
        22,
        "admin",
        None,
        None,
    )
    .expect("Failed to update connection")
    .expect("Connection should exist");
    assert_eq!(updated.id, conn.id);
    assert_eq!(updated.name, "Updated Server");
    assert_eq!(updated.host, "192.168.1.1");
    assert_eq!(updated.port, 22);
    assert_eq!(updated.username, "admin");
    assert_eq!(updated.startup_command, None);

    // Delete
    let deleted = Connection::delete(&mut store, conn.id).expect("Failed to delete connection");
    assert!(deleted);
    let gone = Connection::find_by_id(&store, conn.id).expect("Failed to query");
    assert!(gone.is_none());
}

#[test]
fn test_session_crud() {
    let mut store = Store::new();
    let user = User::create(&mut store, "test_user_session_crud").expect("Failed to create user");
    let conn = Connection::create(
        &mut store,
        user.id,
        "Test Server",
        "localhost",
        2222,
        "testuser",
        None,
        None,
    )
    .expect("Failed to create connection");

    // Create session
    let session = Session::create(&mut store, user.id, conn.id).expect("Failed to create session");
    assert_eq!(session.status, SessionStatus::Active);

    // Find by id
    let found = Session::find_by_id(&store, session.id)
        .expect("Failed to find session")
        .expect("Session should exist");
    assert_eq!(found.id, session.id);

    // List for user
    let sessions = Session::list_for_user(&store, user.id).expect("Failed to list sessions");
    assert!(sessions.iter().any(|s| s.id == session.id));

    // List active for user
    let active = Session::list_active_for_user(&store, user.id)
        .expect("Failed to list active sessions");
    assert!(active.iter().any(|s| s.id == session.id));

    // Update activity
    assert!(Session::update_activity(&mut store, session.id).expect("Failed to update activity"));

    // Close
    assert!(Session::close(&mut store, session.id).expect("Failed to close session"));
    let closed = Session::find_by_id(&store, session.id)
        .expect("Failed to find session")
        .expect("Session should exist");
    assert_eq!(closed.status, SessionStatus::Closed);
    let active = Session::list_active_for_user(&store, user.id)
        .expect("Failed to list active sessions");
    assert!(!active.iter().any(|s| s.id == session.id));
}

#[test]
fn test_multiple_connections() {
    let mut store = Store::new();
    let user = User::create(&mut store, "test_user_multi_conn").expect("Failed to create user");

    for i in 0..5 {
        Connection::create(
            &mut store,
            user.id,
            &format!("Server {}", i),
            &format!("server{}.example.com", i),
            22,
            "user",
            None,
            None,
        )
        .expect("Failed to create connection");
    }

    let conns = Connection::list_for_user(&store, user.id).expect("Failed to list connections");
    assert_eq!(conns.len(), 5);
}

#[test]
fn test_session_status_is_monotone() {
    // active -> closed, and never back
    let mut store = Store::new();
    let user = User::create(&mut store, "monotone_user").expect("Failed to create user");
    let conn = Connection::create(&mut store, user.id, "m", "h", 22, "u", None, None)
        .expect("Failed to create connection");
    let session = Session::create(&mut store, user.id, conn.id).expect("Failed to create session");

    assert!(Session::close(&mut store, session.id).expect("Failed to close session"));
    // attempting to reopen changes nothing and reports no row changed
    let reopened = Session::update_status(&mut store, session.id, SessionStatus::Active)
        .expect("Failed to update status");
    assert!(!reopened);
    let row = Session::find_by_id(&store, session.id)
        .expect("Failed to find session")
        .expect("Session should exist");
    assert_eq!(row.status, SessionStatus::Closed);
}

#[test]
fn test_sessions_listed_most_recent_first() {
    let mut store = Store::new();
    let user = User::create(&mut store, "recency_user").expect("Failed to create user");
    let conn = Connection::create(&mut store, user.id, "r", "h", 22, "u", None, None)
        .expect("Failed to create connection");
    let s1 = Session::create(&mut store, user.id, conn.id).expect("Failed to create session");
    let s2 = Session::create(&mut store, user.id, conn.id).expect("Failed to create session");

    // s2 was created later, so it is the most recently active
    let listed = Session::list_for_user(&store, user.id).expect("Failed to list sessions");
    assert_eq!(listed.len(), 2);
    assert_eq!(listed[0].id, s2.id);
    assert_eq!(listed[1].id, s1.id);

    // touching s1 makes it the most recent
    assert!(Session::update_activity(&mut store, s1.id).expect("Failed to update activity"));
    let listed = Session::list_for_user(&store, user.id).expect("Failed to list sessions");
    assert_eq!(listed[0].id, s1.id);
    assert_eq!(listed[1].id, s2.id);
    let active = Session::list_active_for_user(&store, user.id)
        .expect("Failed to list active sessions");
    assert_eq!(active[0].id, s1.id);
    assert_eq!(active[1].id, s2.id);
}

#[test]
fn test_create_with_id_rejects_collisions() {
    // The inserts under caller-chosen ids succeed exactly when the id is
    // unused (and names and foreign keys allow).
    let mut store = Store::new();
    let user = User::create_with_id(&mut store, 1, "fixed_id_user")
        .expect("a fresh id and name are accepted");
    assert_eq!(user.id, 1);
    let taken_id = User::create_with_id(&mut store, 1, "another_name");
    assert!(matches!(taken_id, Err(hive_server::HiveError::Database(_))));
    let taken_name = User::create_with_id(&mut store, 2, "fixed_id_user");
    assert!(matches!(taken_name, Err(hive_server::HiveError::Database(_))));

    let conn = Connection::create_with_id(&mut store, 7, user.id, "c", "h", 22, "u", None, None)
        .expect("a fresh connection id is accepted");
    assert_eq!(conn.id, 7);
    let taken = Connection::create_with_id(&mut store, 7, user.id, "c2", "h", 22, "u", None, None);
    assert!(matches!(taken, Err(hive_server::HiveError::Database(_))));

    let session = Session::create_with_id(&mut store, 9, user.id, conn.id)
        .expect("a fresh session id is accepted");
    assert_eq!(session.id, 9);
    let taken = Session::create_with_id(&mut store, 9, user.id, conn.id);
    assert!(matches!(taken, Err(hive_server::HiveError::Database(_))));

    let raw_key = ApiKey::generate_key();
    let key = ApiKey::create_with_id(&mut store, 5, user.id, "k", &raw_key)
        .expect("a fresh key id is accepted");
    assert_eq!(key.id, 5);
    let taken = ApiKey::create_with_id(&mut store, 5, user.id, "k2", &raw_key);
    assert!(matches!(taken, Err(hive_server::HiveError::Database(_))));
}

#[test]
fn test_connection_ownership() {
    // Another user's requests against a connection are forbidden, whatever
    // they ask for; the owner's requests go through.
    let mut store = Store::new();
    let u1 = User::create(&mut store, "owner_one").expect("Failed to create user").id;
    let u2 = User::create(&mut store, "owner_two").expect("Failed to create user").id;
    let c1 = create_connection(&mut store, u1, "c1", "h", 2222, "testuser", None, None)
        .expect("Failed to create connection")
        .id;

    let denied = update_connection(&mut store, u2, c1, "stolen", "h2", 22, "root", None, None);
    assert!(matches!(denied, Err(RpcErrorKind::PermissionDenied)));
    let denied = delete_connection(&mut store, u2, c1);
    assert_eq!(denied, Err(RpcErrorKind::PermissionDenied));

    delete_connection(&mut store, u1, c1).expect("owner may delete");
    assert!(Connection::find_by_id(&store, c1).expect("Failed to query").is_none());
    assert_eq!(delete_connection(&mut store, u1, c1), Err(RpcErrorKind::NotFound));
}

#[test]
fn test_connection_field_validation() {
    let mut store = Store::new();
    let user = User::create(&mut store, "validation_user").expect("Failed to create user").id;

    let refused = create_connection(&mut store, user, "", "h", 22, "u", None, None);
    assert!(matches!(refused, Err(RpcErrorKind::InvalidArgument)));
    let refused = create_connection(&mut store, user, "c", "h", 0, "u", None, None);
    assert!(matches!(refused, Err(RpcErrorKind::InvalidArgument)));
    let refused = create_connection(&mut store, user, "c", "h", 65536, "u", None, None);
    assert!(matches!(refused, Err(RpcErrorKind::InvalidArgument)));
    let refused = create_connection(&mut store, user, "c", "", 22, "u", None, None);
    assert!(matches!(refused, Err(RpcErrorKind::InvalidArgument)));

    create_connection(&mut store, user, "c", "h", 65535, "u", None, None)
        .expect("valid fields are accepted");
}

#[test]
fn test_delete_connection_with_sessions_refused() {
    let mut store = Store::new();
    let user = User::create(&mut store, "fk_user").expect("Failed to create user");
    let conn = Connection::create(&mut store, user.id, "fk", "h", 22, "u", None, None)
        .expect("Failed to create connection");
    Session::create(&mut store, user.id, conn.id).expect("Failed to create session");

    let refused = Connection::delete(&mut store, conn.id);
    assert!(matches!(refused, Err(hive_server::HiveError::Database(_))));
    assert!(Connection::find_by_id(&store, conn.id).expect("Failed to query").is_some());
}
