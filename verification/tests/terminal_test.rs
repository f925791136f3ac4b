use hive_server::bridge::{authorize_terminal_attach, handle_terminal_input, InputPayload};
use hive_server::hub::{Hub, HubReceiver, Received};
use hive_server::manager::{PumpStep, SessionManager, SshOutcome};
use hive_server::models::{Connection, Session, SessionStatus, Store, User};

fn manager_with_connection(username: &str) -> (SessionManager, u128, u128) {
    let mut store = Store::new();
    let user = User::create(&mut store, username).expect("Failed to create user");
    let conn = Connection::create(&mut store, user.id, "Test Server", "localhost", 2222,
        "testuser", None, None)
        .expect("Failed to create connection");
    (SessionManager::new(store), user.id, conn.id)
}

fn recv_from(mgr: &SessionManager, session_id: u128, rx: &mut HubReceiver) -> Option<Vec<u8>> {
    let i = mgr.get_session(session_id).expect("session should be live");
    match mgr.registry[i].hub.recv(rx) {
        Received::Data(m) => Some(m),
        _ => None,
    }
}

fn drain_pump(mgr: &mut SessionManager, session_id: u128, rx: &mut HubReceiver) {
    loop {
        match mgr.pump_scrollback_step(session_id, rx) {
            PumpStep::Persisted | PumpStep::Dropped | PumpStep::LaggedBy(_) => {},
            PumpStep::Finished | PumpStep::Idle => break,
        }
    }
}

#[test]
fn test_session_manager_create_session() {
    let (mut mgr, user, conn) = manager_with_connection("create_session_user");

    let (session_id, mut rx) = mgr
        .create_session(user, conn, 80, 24, "testpass", SshOutcome::Connected)
        .expect("Failed to create session");

    // the session row is active
    let row = Session::find_by_id(&mgr.store, session_id)
        .expect("Failed to find session")
        .expect("Session should exist");
    assert_eq!(row.status, SessionStatus::Active);

    // initial output reaches the first subscriber
    assert!(mgr.deliver_to_session(session_id, b"login banner\n".to_vec()));
    let first = recv_from(&mgr, session_id, &mut rx).expect("Timeout waiting for initial output");
    assert_eq!(first, b"login banner\n");

    mgr.close_session(session_id).expect("Failed to close session");
    let row = Session::find_by_id(&mgr.store, session_id)
        .expect("Failed to find session")
        .expect("Session should exist");
    assert_eq!(row.status, SessionStatus::Closed);
}

#[test]
fn test_session_manager_send_command() {
    let (mut mgr, user, conn) = manager_with_connection("send_command_user");
    let (session_id, mut rx) = mgr
        .create_session(user, conn, 80, 24, "testpass", SshOutcome::Connected)
        .expect("Failed to create session");

    mgr.send_to_session(session_id, b"echo TESTMARKER123\n").expect("Failed to send data");
    // the shell echoes the marker back
    assert!(mgr.deliver_to_session(session_id, b"TESTMARKER123\n".to_vec()));
    let out = recv_from(&mgr, session_id, &mut rx).expect("Did not receive expected output marker");
    assert!(String::from_utf8_lossy(&out).contains("TESTMARKER123"));

    // the channel saw exactly what was sent
    let i = mgr.get_session(session_id).unwrap();
    assert_eq!(mgr.registry[i].channel.sent.len(), 1);
    assert_eq!(mgr.registry[i].channel.sent[0], b"echo TESTMARKER123\n");
}

#[test]
fn test_session_manager_multi_client_attach() {
    let (mut mgr, user, conn) = manager_with_connection("multi_client_user");
    let (session_id, mut rx1) = mgr
        .create_session(user, conn, 80, 24, "testpass", SshOutcome::Connected)
        .expect("Failed to create session");

    let mut rx2 = mgr.attach_to_session(session_id, user).expect("Failed to attach");

    assert!(mgr.deliver_to_session(session_id, b"MULTICLIENT_TEST\n".to_vec()));

    let m1 = recv_from(&mgr, session_id, &mut rx1).expect("First client did not receive output");
    assert!(String::from_utf8_lossy(&m1).contains("MULTICLIENT_TEST"));
    let m2 = recv_from(&mgr, session_id, &mut rx2).expect("Second client did not receive output");
    assert!(String::from_utf8_lossy(&m2).contains("MULTICLIENT_TEST"));
}

#[test]
fn test_session_manager_resize() {
    let (mut mgr, user, conn) = manager_with_connection("resize_user");
    let (session_id, _rx) = mgr
        .create_session(user, conn, 80, 24, "testpass", SshOutcome::Connected)
        .expect("Failed to create session");

    mgr.resize_session(session_id, 120, 40).expect("Failed to resize");
    // resizing to the same dimensions is accepted
    mgr.resize_session(session_id, 120, 40).expect("Failed to resize");
    let i = mgr.get_session(session_id).unwrap();
    assert_eq!(mgr.registry[i].channel.cols, 120);
    assert_eq!(mgr.registry[i].channel.rows, 40);
}

#[test]
fn test_session_manager_auth_check() {
    let (mut mgr, user1, conn) = manager_with_connection("auth_check_user1");
    let user2 = User::create(&mut mgr.store, "auth_check_user2")
        .expect("Failed to create user")
        .id;

    let (session_id, _rx) = mgr
        .create_session(user1, conn, 80, 24, "testpass", SshOutcome::Connected)
        .expect("Failed to create session");

    let denied = mgr.attach_to_session(session_id, user2);
    assert!(denied.is_err(), "User2 should not be able to attach to User1's session");
}

#[test]
fn test_session_manager_invalid_password() {
    let (mut mgr, user, conn) = manager_with_connection("invalid_password_user");
    let refused = mgr.create_session(user, conn, 80, 24, "wrongpassword", SshOutcome::AuthFailed);
    assert!(refused.is_err(), "Should fail with wrong password");
    assert!(matches!(refused, Err(hive_server::HiveError::Auth(_))));
}

#[test]
fn test_session_manager_connection_not_owned() {
    let (mut mgr, _user1, conn) = manager_with_connection("conn_owner_user1");
    let user2 = User::create(&mut mgr.store, "conn_owner_user2")
        .expect("Failed to create user")
        .id;

    let result = mgr.create_session(user2, conn, 80, 24, "testpass", SshOutcome::Connected);
    assert!(result.is_err(), "User2 should not be able to use User1's connection");
    assert!(matches!(result, Err(hive_server::HiveError::Auth(_))));
}

#[test]
fn test_scrollback_storage() {
    let (mut mgr, user, conn) = manager_with_connection("scrollback_storage_user");
    let (session_id, _rx) = mgr
        .create_session(user, conn, 80, 24, "testpass", SshOutcome::Connected)
        .expect("Failed to create session");

    // the persistence task's own subscription
    let mut pump_rx = mgr.attach_to_session(session_id, user).expect("Failed to attach");

    mgr.send_to_session(session_id, b"echo SCROLLBACK_TEST_MARKER\n").unwrap();
    assert!(mgr.deliver_to_session(session_id, b"SCROLLBACK_TEST_MARKER\n".to_vec()));
    drain_pump(&mut mgr, session_id, &mut pump_rx);

    let scrollback = mgr.get_scrollback(session_id, user).unwrap();
    let scrollback_str = String::from_utf8_lossy(&scrollback).to_string();
    assert!(
        scrollback_str.contains("SCROLLBACK_TEST_MARKER"),
        "Scrollback should contain our marker. Got: {:?}",
        scrollback_str
    );

    let size = mgr.get_scrollback_size(session_id, user).unwrap();
    assert_eq!(size, scrollback.len(), "Scrollback size mismatch");

    mgr.close_session(session_id).unwrap();
}

#[test]
fn test_session_recovery() {
    let (mut mgr, user, conn) = manager_with_connection("recovery_user");
    let (session_id, rx1) = mgr
        .create_session(user, conn, 80, 24, "testpass", SshOutcome::Connected)
        .expect("Failed to create session");
    let mut pump_rx = mgr.attach_to_session(session_id, user).expect("Failed to attach");

    // some output arrives and is persisted while the client is attached
    assert!(mgr.deliver_to_session(session_id, b"early output\n".to_vec()));
    drain_pump(&mut mgr, session_id, &mut pump_rx);
    let total_received = mgr.get_scrollback_size(session_id, user).unwrap();

    // the client disconnects; more output arrives and is persisted
    drop(rx1);
    mgr.send_to_session(session_id, b"echo RECOVERY_MARKER\n").unwrap();
    assert!(mgr.deliver_to_session(session_id, b"RECOVERY_MARKER\n".to_vec()));
    drain_pump(&mut mgr, session_id, &mut pump_rx);

    // reconnect with recovery from the last seen offset
    let (scrollback, _rx2) = mgr
        .attach_with_recovery(session_id, user, Some(total_received))
        .unwrap();
    let scrollback_str = String::from_utf8_lossy(&scrollback);
    assert!(
        scrollback_str.contains("RECOVERY_MARKER"),
        "Recovery scrollback should contain the marker we missed"
    );

    mgr.close_session(session_id).unwrap();
}

#[test]
fn test_scrollback_auth_check() {
    let (mut mgr, user1, conn) = manager_with_connection("scrollback_auth_user1");
    let user2 = User::create(&mut mgr.store, "scrollback_auth_user2")
        .expect("Failed to create user")
        .id;

    let (session_id, _rx) = mgr
        .create_session(user1, conn, 80, 24, "testpass", SshOutcome::Connected)
        .expect("Failed to create session");

    let result = mgr.get_scrollback(session_id, user2);
    assert!(result.is_err(), "User2 should not access User1's scrollback");

    let result = mgr.get_scrollback_size(session_id, user2);
    assert!(result.is_err(), "User2 should not access User1's scrollback size");

    let result = mgr.attach_with_recovery(session_id, user2, None);
    assert!(result.is_err(), "User2 should not attach with recovery to User1's session");

    mgr.close_session(session_id).unwrap();
}

#[test]
fn test_close_session_twice_is_noop() {
    let (mut mgr, user, conn) = manager_with_connection("double_close_user");
    let (session_id, _rx) = mgr
        .create_session(user, conn, 80, 24, "testpass", SshOutcome::Connected)
        .expect("Failed to create session");

    mgr.close_session(session_id).unwrap();
    assert!(mgr.get_session(session_id).is_none());
    // the second close is a no-op
    mgr.close_session(session_id).unwrap();
    let row = Session::find_by_id(&mgr.store, session_id).unwrap().unwrap();
    assert_eq!(row.status, SessionStatus::Closed);

    // a closed session takes no input
    let refused = mgr.send_to_session(session_id, b"late\n");
    assert!(refused.is_err());
}

#[test]
fn test_hub_lag_reports_missed_messages() {
    let mut hub = Hub::new();
    let mut rx = hub.subscribe();
    for i in 0..1030u32 {
        hub.publish(vec![(i % 256) as u8]);
    }
    // the buffer holds 1024 messages: the receiver missed the first 6
    match hub.recv(&mut rx) {
        Received::Lagged(n) => assert_eq!(n, 6),
        _ => panic!("expected a lag report"),
    }
    // after the lag report, delivery resumes in publish order
    match hub.recv(&mut rx) {
        Received::Data(m) => assert_eq!(m, vec![6u8]),
        _ => panic!("expected data"),
    }
}

#[test]
fn test_hub_subscribers_see_same_prefix() {
    let mut hub = Hub::new();
    let mut rx1 = hub.subscribe();
    let mut rx2 = hub.subscribe();
    hub.publish(b"alpha".to_vec());
    hub.publish(b"beta".to_vec());
    hub.close();

    let mut seen1: Vec<Vec<u8>> = Vec::new();
    loop {
        match hub.recv(&mut rx1) {
            Received::Data(m) => seen1.push(m),
            Received::Closed => break,
            _ => panic!("unexpected receive outcome"),
        }
    }
    let mut seen2: Vec<Vec<u8>> = Vec::new();
    loop {
        match hub.recv(&mut rx2) {
            Received::Data(m) => seen2.push(m),
            Received::Closed => break,
            _ => panic!("unexpected receive outcome"),
        }
    }
    assert_eq!(seen1, seen2);
    assert_eq!(seen1, vec![b"alpha".to_vec(), b"beta".to_vec()]);
}

#[test]
fn test_terminal_attach_and_input_dispatch() {
    let (mut mgr, user, conn) = manager_with_connection("bridge_user");
    let user2 = User::create(&mut mgr.store, "bridge_user2").expect("Failed to create user").id;
    let (session_id, _rx) = mgr
        .create_session(user, conn, 80, 24, "testpass", SshOutcome::Connected)
        .expect("Failed to create session");

    assert!(authorize_terminal_attach(&mgr, session_id, user2).is_err());
    let _attached = authorize_terminal_attach(&mgr, session_id, user).expect("owner may attach");

    let step = handle_terminal_input(&mut mgr, session_id, Some(InputPayload::Data(
        b"ls\n".to_vec(),
    )));
    assert!(!step.stop);
    let i = mgr.get_session(session_id).unwrap();
    assert_eq!(mgr.registry[i].channel.sent.last().unwrap(), b"ls\n");

    let step = handle_terminal_input(&mut mgr, session_id, Some(InputPayload::File {
        filename: "notes.txt".to_string(),
        data: b"content".to_vec(),
    }));
    assert!(!step.stop && step.output.is_none());

    // input for a session that is gone ends the attachment with an error
    mgr.close_session(session_id).unwrap();
    let step = handle_terminal_input(&mut mgr, session_id, Some(InputPayload::Data(
        b"late\n".to_vec(),
    )));
    assert!(step.stop);
    assert!(step.output.is_some());
}
