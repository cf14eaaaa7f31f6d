use cde_backend::auth::{create_user_if_not_exists, hash_password, verify_password, AuthError, UserRecord, UserTable};
use cde_backend::protocol::{
    ClientRequest, ClientRequestPayload, ServerMessage, ServerPushPayload, ServerResponsePayload,
};
use cde_backend::session::{cd_target_of, Inbound, PtyMessage, Reaction, UserSession};
use cde_backend::vfs::Store;

fn req(id: &str, payload: ClientRequestPayload) -> Inbound {
    Inbound::Text(ClientRequest { request_id: id.to_string(), payload })
}

fn seeded() -> (UserTable, Store) {
    let mut users = UserTable::new();
    let mut store = Store::new();
    create_user_if_not_exists(&mut users, &mut store, "guest", "password", "Admin", 0).unwrap();
    create_user_if_not_exists(&mut users, &mut store, "root", "root", "Admin", 0).unwrap();
    (users, store)
}

fn logged_in() -> (UserSession, UserTable, Store) {
    let (users, mut store) = seeded();
    let mut sess = UserSession::new();
    let r = sess.handle_client_message(
        &mut store,
        &users,
        req("1", ClientRequestPayload::Login { username: "guest".into(), password: "password".into() }),
        0,
    );
    let pending = r.login.unwrap();
    sess.complete_login(pending, true);
    (sess, users, store)
}

fn error_of(m: &ServerMessage) -> (String, String) {
    match m {
        ServerMessage::Response(resp) => match &resp.payload {
            ServerResponsePayload::Error { message } => (resp.request_id.clone(), message.clone()),
            _ => panic!("not an error"),
        },
        _ => panic!("not a response"),
    }
}

fn is_success(m: &ServerMessage, id: &str) -> bool {
    match m {
        ServerMessage::Response(resp) => resp.request_id == id && matches!(resp.payload, ServerResponsePayload::Success),
        _ => false,
    }
}

fn update_path(m: &ServerMessage) -> String {
    match m {
        ServerMessage::Push(p) => match &p.payload {
            ServerPushPayload::VfsUpdate { path } => path.clone(),
            _ => panic!("not an update"),
        },
        _ => panic!("not a push"),
    }
}

fn send(sess: &mut UserSession, store: &mut Store, users: &UserTable, id: &str, p: ClientRequestPayload) -> Reaction {
    sess.handle_client_message(store, users, req(id, p), 100)
}

#[test]
fn login_succeeds_for_guest() {
    let (users, mut store) = seeded();
    let mut sess = UserSession::new();
    let r = send(&mut sess, &mut store, &users, "1", ClientRequestPayload::Login { username: "guest".into(), password: "password".into() });
    assert!(r.messages.is_empty());
    let pending = r.login.unwrap();
    let m = sess.complete_login(pending, true);
    match m {
        ServerMessage::Response(resp) => {
            assert_eq!(resp.request_id, "1");
            match resp.payload {
                ServerResponsePayload::LoginSuccess { user } => {
                    assert_eq!(user.id, 1);
                    assert_eq!(user.username, "guest");
                    assert_eq!(user.role, "Admin");
                }
                _ => panic!("expected loginSuccess"),
            }
        }
        _ => panic!("expected a response"),
    }
    assert_eq!(sess.cwd, "/home/guest");
    assert_eq!(sess.user.as_ref().unwrap().id, 1);
}

#[test]
fn login_without_terminal_stays_logged_out() {
    let (users, mut store) = seeded();
    let mut sess = UserSession::new();
    let r = send(&mut sess, &mut store, &users, "1", ClientRequestPayload::Login { username: "root".into(), password: "root".into() });
    let m = sess.complete_login(r.login.unwrap(), false);
    assert_eq!(error_of(&m), ("1".to_string(), "Failed to start terminal session".to_string()));
    assert!(sess.user.is_none());
    assert_eq!(sess.cwd, "/");
}

#[test]
fn failed_login_keeps_session_unauthenticated() {
    let (users, mut store) = seeded();
    let mut sess = UserSession::new();
    let r = send(&mut sess, &mut store, &users, "7", ClientRequestPayload::Login { username: "guest".into(), password: "wrong".into() });
    assert!(r.login.is_none());
    assert_eq!(r.messages.len(), 1);
    assert_eq!(error_of(&r.messages[0]), ("7".to_string(), "Invalid credentials".to_string()));
    assert!(sess.user.is_none());
    let r = send(&mut sess, &mut store, &users, "8", ClientRequestPayload::VfsList { path: ".".into() });
    assert_eq!(error_of(&r.messages[0]), ("8".to_string(), "Authentication required".to_string()));
    assert!(!r.close);
}

#[test]
fn unknown_user_is_invalid_credentials() {
    let (users, mut store) = seeded();
    let mut sess = UserSession::new();
    let r = send(&mut sess, &mut store, &users, "2", ClientRequestPayload::Login { username: "nobody".into(), password: "x".into() });
    assert_eq!(error_of(&r.messages[0]).1, "Invalid credentials");
}

#[test]
fn fresh_home_lists_empty() {
    let (mut sess, users, mut store) = logged_in();
    let r = send(&mut sess, &mut store, &users, "2", ClientRequestPayload::VfsList { path: ".".into() });
    assert_eq!(r.messages.len(), 1);
    match &r.messages[0] {
        ServerMessage::Response(resp) => {
            assert_eq!(resp.request_id, "2");
            match &resp.payload {
                ServerResponsePayload::VfsListResponse { items } => assert!(items.is_empty()),
                _ => panic!("expected a listing"),
            }
        }
        _ => panic!("expected a response"),
    }
}

#[test]
fn create_write_read_trash_scenario() {
    let (mut sess, users, mut store) = logged_in();
    let r = send(&mut sess, &mut store, &users, "3", ClientRequestPayload::VfsCreateNode { path: "notes.txt".into(), node_type: "file".into() });
    assert_eq!(r.messages.len(), 2);
    assert!(is_success(&r.messages[0], "3"));
    assert_eq!(update_path(&r.messages[1]), "/home/guest/notes.txt");

    let r = send(&mut sess, &mut store, &users, "4", ClientRequestPayload::VfsWriteFile { path: "notes.txt".into(), content: "aGVsbG8=".into() });
    assert!(is_success(&r.messages[0], "4"));
    assert_eq!(update_path(&r.messages[1]), "/home/guest/notes.txt");

    let r = send(&mut sess, &mut store, &users, "4b", ClientRequestPayload::VfsReadFile { path: "notes.txt".into() });
    match &r.messages[0] {
        ServerMessage::Response(resp) => match &resp.payload {
            ServerResponsePayload::VfsReadFileResponse { content } => assert_eq!(content, "aGVsbG8="),
            _ => panic!("expected content"),
        },
        _ => panic!("expected a response"),
    }

    let r = send(&mut sess, &mut store, &users, "5", ClientRequestPayload::VfsTrashNode { path: "notes.txt".into() });
    assert_eq!(r.messages.len(), 2);
    assert!(is_success(&r.messages[0], "5"));
    assert_eq!(update_path(&r.messages[1]), "/home/guest/notes.txt");

    let r = send(&mut sess, &mut store, &users, "6", ClientRequestPayload::VfsListTrash);
    match &r.messages[0] {
        ServerMessage::Response(resp) => match &resp.payload {
            ServerResponsePayload::VfsListTrashResponse { items } => {
                assert_eq!(items.len(), 1);
                assert_eq!(items[0].original_path, "/home/guest/notes.txt");
            }
            _ => panic!("expected the trash"),
        },
        _ => panic!("expected a response"),
    }
}

#[test]
fn restore_move_delete_and_empty_through_session() {
    let (mut sess, users, mut store) = logged_in();
    send(&mut sess, &mut store, &users, "1", ClientRequestPayload::VfsCreateNode { path: "a".into(), node_type: "dir".into() });
    let r = send(&mut sess, &mut store, &users, "2", ClientRequestPayload::VfsMoveNode { old_path: "a".into(), new_path: "b".into() });
    assert_eq!(r.messages.len(), 3);
    assert!(is_success(&r.messages[0], "2"));
    assert_eq!(update_path(&r.messages[1]), "/home/guest/a");
    assert_eq!(update_path(&r.messages[2]), "/home/guest/b");
    send(&mut sess, &mut store, &users, "3", ClientRequestPayload::VfsTrashNode { path: "b".into() });
    let id = cde_backend::vfs::list_trash(&store, 1)[0].id;
    let r = send(&mut sess, &mut store, &users, "4", ClientRequestPayload::VfsRestoreNode { id });
    assert!(is_success(&r.messages[0], "4"));
    assert_eq!(update_path(&r.messages[1]), "/home/guest/b");
    let r = send(&mut sess, &mut store, &users, "5", ClientRequestPayload::VfsDeleteNode { id });
    assert_eq!(r.messages.len(), 1);
    assert!(is_success(&r.messages[0], "5"));
    assert_eq!(cde_backend::vfs::list_directory(&store, 1, "/home/guest").unwrap().len(), 1);
    send(&mut sess, &mut store, &users, "6", ClientRequestPayload::VfsTrashNode { path: "b".into() });
    let r = send(&mut sess, &mut store, &users, "7", ClientRequestPayload::VfsEmptyTrash);
    assert!(is_success(&r.messages[0], "7"));
    assert!(cde_backend::vfs::list_trash(&store, 1).is_empty());
}

#[test]
fn errors_are_answered_with_the_request_id() {
    let (mut sess, users, mut store) = logged_in();
    let r = send(&mut sess, &mut store, &users, "9", ClientRequestPayload::VfsReadFile { path: "missing".into() });
    assert_eq!(error_of(&r.messages[0]), ("9".to_string(), "File not found".to_string()));
    let r = send(&mut sess, &mut store, &users, "10", ClientRequestPayload::VfsCreateNode { path: "x".into(), node_type: "link".into() });
    assert_eq!(error_of(&r.messages[0]), ("10".to_string(), "Invalid node type".to_string()));
    let r = send(&mut sess, &mut store, &users, "11", ClientRequestPayload::Login { username: "guest".into(), password: "password".into() });
    assert_eq!(error_of(&r.messages[0]), ("11".to_string(), "Unsupported action".to_string()));
    let r = send(&mut sess, &mut store, &users, "12", ClientRequestPayload::VfsRestoreNode { id: 999 });
    assert_eq!(error_of(&r.messages[0]), ("12".to_string(), "Node not found".to_string()));
}

#[test]
fn malformed_frame_is_answered_as_unknown() {
    let (users, mut store) = seeded();
    let mut sess = UserSession::new();
    let r = sess.handle_client_message(&mut store, &users, Inbound::Malformed { detail: "expected value".into() }, 0);
    assert_eq!(error_of(&r.messages[0]), ("unknown".to_string(), "Invalid request format: expected value".to_string()));
    assert!(!r.close);
    let r = sess.handle_client_message(&mut store, &users, Inbound::Other, 0);
    assert!(r.messages.is_empty() && !r.close);
    let r = sess.handle_client_message(&mut store, &users, Inbound::Close, 0);
    assert!(r.close);
}

#[test]
fn run_command_forwards_the_line_and_tracks_cd() {
    let (mut sess, users, mut store) = logged_in();
    let r = send(&mut sess, &mut store, &users, "1", ClientRequestPayload::RunCommand { command: "ls -la".into() });
    assert_eq!(r.pty_input.as_deref(), Some("ls -la\n"));
    assert!(is_success(&r.messages[0], "1"));
    assert_eq!(sess.cwd, "/home/guest");
    let r = send(&mut sess, &mut store, &users, "2", ClientRequestPayload::RunCommand { command: "  cd   ../root/x  y ".into() });
    assert_eq!(r.pty_input.as_deref(), Some("  cd   ../root/x  y \n"));
    assert_eq!(sess.cwd, "/home/root/x");
    send(&mut sess, &mut store, &users, "3", ClientRequestPayload::RunCommand { command: "cd ~".into() });
    assert_eq!(sess.cwd, "/home/guest");
    send(&mut sess, &mut store, &users, "4", ClientRequestPayload::RunCommand { command: "cd".into() });
    assert_eq!(sess.cwd, "/home/guest");
}

#[test]
fn cd_target_parsing() {
    assert_eq!(cd_target_of("cd /tmp"), Some("/tmp".to_string()));
    assert_eq!(cd_target_of("\tcd\u{3000}x"), None);
    assert_eq!(cd_target_of("cd \u{3000}x\u{a0}y"), Some("x".to_string()));
    assert_eq!(cd_target_of("cd   "), None);
    assert_eq!(cd_target_of("echo cd x"), None);
}

#[test]
fn terminal_output_is_a_push_without_request_id() {
    let (mut sess, users, mut store) = logged_in();
    let m = sess.handle_pty_output(PtyMessage::Output("hello\r\n".into()));
    match m {
        ServerMessage::Push(p) => match p.payload {
            ServerPushPayload::TerminalOutput { output } => assert_eq!(output, "hello\r\n"),
            _ => panic!("expected terminal output"),
        },
        _ => panic!("expected a push"),
    }
    let r = send(&mut sess, &mut store, &users, "2", ClientRequestPayload::VfsList { path: ".".into() });
    assert_eq!(r.messages.len(), 1);
    match &r.messages[0] {
        ServerMessage::Response(resp) => assert_eq!(resp.request_id, "2"),
        _ => panic!("expected a response"),
    }
}

#[test]
fn password_hash_is_sha256_of_password_then_salt() {
    let h = hash_password("abc", &Vec::new());
    assert_eq!(h.len(), 32);
    assert_eq!(h[0], 0xba);
    assert_eq!(h[31], 0xad);
    let h2 = hash_password("ab", &vec![b'c']);
    assert_eq!(h, h2);
}

#[test]
fn verify_password_reads_the_stored_hash() {
    let mut users = UserTable::new();
    let digest = hash_password("pw", &vec![0x01, 0xab]);
    let digest_hex: String = digest.iter().map(|b| format!("{:02x}", b)).collect();
    users.records.push(UserRecord { id: 5, username: "u".into(), role: "User".into(), password_hash: format!("01AB:{}", digest_hex) });
    users.records.push(UserRecord { id: 6, username: "bad".into(), role: "User".into(), password_hash: "0102".into() });
    users.records.push(UserRecord { id: 7, username: "two".into(), role: "User".into(), password_hash: "01:02:03".into() });
    users.records.push(UserRecord { id: 8, username: "hex".into(), role: "User".into(), password_hash: "zz:00".into() });
    let u = verify_password(&users, "u", "pw").unwrap().unwrap();
    assert_eq!((u.id, u.username.as_str(), u.role.as_str()), (5, "u", "User"));
    assert!(verify_password(&users, "u", "px").unwrap().is_none());
    assert_eq!(verify_password(&users, "bad", "pw").err(), Some(AuthError::InvalidHashFormat));
    assert_eq!(verify_password(&users, "two", "pw").err(), Some(AuthError::InvalidHashFormat));
    assert_eq!(verify_password(&users, "hex", "pw").err(), Some(AuthError::InvalidHex));
    assert_eq!(AuthError::InvalidHex.message(), "Invalid hex in stored password hash");
}

#[test]
fn seeding_is_idempotent_and_stores_salted_hex() {
    let (mut users, mut store) = seeded();
    create_user_if_not_exists(&mut users, &mut store, "guest", "other", "User", 0).unwrap();
    assert_eq!(users.records.len(), 2);
    assert_eq!(users.records[1].id, 2);
    let h = &users.records[0].password_hash;
    assert_eq!(h.len(), 32 + 1 + 64);
    assert_eq!(h.as_bytes()[32], b':');
    assert!(h.chars().all(|c| c == ':' || c.is_ascii_hexdigit() && !c.is_ascii_uppercase()));
}

#[test]
fn seeding_creates_home_directories() {
    let (_users, store) = seeded();
    assert!(matches!(cde_backend::vfs::get_path_id(&store, 1, "/home/guest"), cde_backend::vfs::PathTarget::Node(_)));
    assert!(matches!(cde_backend::vfs::get_path_id(&store, 2, "/home/root"), cde_backend::vfs::PathTarget::Node(_)));
    assert_eq!(cde_backend::vfs::get_path_id(&store, 1, "/home/root"), cde_backend::vfs::PathTarget::Missing);
}
