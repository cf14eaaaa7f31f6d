//! The session engine: the decisions of one connection, as a step from the
//! current state and one event to the next state and what to do about it.
//! The caller owns the transport and the terminal: it hands each decoded
//! frame or terminal output here, sends the messages that come back, writes
//! `pty_input` to the terminal, and starts the terminal where a login asks.
use vstd::prelude::*;
use vstd::utf8::encode_utf8;

use crate::auth::{home_dir, home_of, AuthError, login_outcome, verify_password, UserRecord, UserTable};
use crate::path::{resolve_path, resolved};
use crate::protocol::{
    ClientRequest, ClientRequestPayload, NodeType, ServerMessage, ServerPush,
    ServerPushPayload, ServerResponse, ServerResponsePayload, UserInfo,
};
use crate::text::{chars_of, push_char, string_of};
use crate::vfs::{
    create_node, create_post, delete_post, empty_trash, empty_trash_post, list_directory,
    list_post, list_trash, list_trash_post, move_node, move_post, permanently_delete_node,
    read_file_content, read_post, restore_node, restore_post, trash_node, trash_post,
    write_file_content, write_post, Store, VfsError,
};

verus! {

/// Output of the terminal.
pub enum PtyMessage {
    Output(String),
}

/// One frame from the transport, decoded.
pub enum Inbound {
    /// A text frame that decoded to a request.
    Text(ClientRequest),
    /// A text frame that did not decode; `detail` says why.
    Malformed { detail: String },
    /// The peer closed the connection.
    Close,
    /// Any other frame.
    Other,
}

/// A login whose credentials were verified; it completes once a terminal
/// has been started for it.
pub struct PendingLogin {
    pub request_id: String,
    pub user: UserInfo,
}

/// What handling one frame asks of the caller.
pub struct Reaction {
    /// To send, in this order.
    pub messages: Vec<ServerMessage>,
    /// To write to the terminal.
    pub pty_input: Option<String>,
    /// A terminal to start, then `complete_login` to call.
    pub login: Option<PendingLogin>,
    /// The session ends.
    pub close: bool,
}

/// The state of one connection: who is logged in, and the directory that
/// relative paths are taken from.
pub struct UserSession {
    pub user: Option<UserInfo>,
    pub cwd: String,
}

/// `char::is_whitespace`: the characters with the Unicode `White_Space`
/// property.
pub open spec fn is_space(c: char) -> bool {
    ('\t' <= c && c <= '\r') || c == ' ' || c == '\u{85}' || c == '\u{a0}' || c == '\u{1680}' || (
    '\u{2000}' <= c && c <= '\u{200a}') || c == '\u{2028}' || c == '\u{2029}' || c == '\u{202f}'
        || c == '\u{205f}' || c == '\u{3000}'
}

fn space(c: char) -> (r: bool)
    ensures
        r == is_space(c),
{
    ('\t' <= c && c <= '\r') || c == ' ' || c == '\u{85}' || c == '\u{a0}' || c == '\u{1680}' || (
    '\u{2000}' <= c && c <= '\u{200a}') || c == '\u{2028}' || c == '\u{2029}' || c == '\u{202f}'
        || c == '\u{205f}' || c == '\u{3000}'
}

/// The first position at or after `i` that holds no white space, or the length.
pub open spec fn skip_space(s: Seq<char>, i: int) -> int
    decreases s.len() - i,
{
    if i < 0 || i >= s.len() {
        s.len() as int
    } else if is_space(s[i]) {
        skip_space(s, i + 1)
    } else {
        i
    }
}

/// The first position at or after `i` that holds white space, or the length.
pub open spec fn word_end(s: Seq<char>, i: int) -> int
    decreases s.len() - i,
{
    if i < 0 || i >= s.len() {
        s.len() as int
    } else if is_space(s[i]) {
        i
    } else {
        word_end(s, i + 1)
    }
}

/// The directory that a command names when, with the white space around it
/// trimmed, it begins with `cd `: the second white-space separated word.
pub open spec fn cd_target(s: Seq<char>) -> Option<Seq<char>> {
    let a = skip_space(s, 0);
    if a < s.len() && s.len() - a >= 3 && s[a] == 'c' && s[a + 1] == 'd' && s[a + 2] == ' ' && skip_space(s, a + 3)
        < s.len() {
        let b = skip_space(s, a + 3);
        Some(s.subrange(b, word_end(s, b)))
    } else {
        None
    }
}

fn skip_space_exec(s: &Vec<char>, i: usize) -> (r: usize)
    requires
        i <= s.len(),
    ensures
        r as int == skip_space(s@, i as int),
        i <= r <= s.len(),
{
    let mut k = i;
    while k < s.len() && space(s[k])
        invariant
            i <= k <= s.len(),
            skip_space(s@, i as int) == skip_space(s@, k as int),
        decreases s.len() - k,
    {
        k = k + 1;
    }
    k
}

fn word_end_exec(s: &Vec<char>, i: usize) -> (r: usize)
    requires
        i <= s.len(),
    ensures
        r as int == word_end(s@, i as int),
        i <= r <= s.len(),
{
    let mut k = i;
    while k < s.len() && !space(s[k])
        invariant
            i <= k <= s.len(),
            word_end(s@, i as int) == word_end(s@, k as int),
        decreases s.len() - k,
    {
        k = k + 1;
    }
    k
}

/// The directory that `command` changes to, if it is a `cd` command.
pub fn cd_target_of(command: &str) -> (r: Option<String>)
    ensures
        match cd_target(command@) {
            Some(d) => r matches Some(t) && t@ == d,
            None => r is None,
        },
{
    let s = chars_of(command);
    let a = skip_space_exec(&s, 0);
    if a < s.len() && s.len() - a >= 3 && s[a] == 'c' && s[a + 1] == 'd' && s[a + 2] == ' ' {
        let b = skip_space_exec(&s, a + 3);
        if b < s.len() {
            let e = word_end_exec(&s, b);
            let mut w: Vec<char> = Vec::new();
            let mut k = b;
            while k < e
                invariant
                    b <= k <= e,
                    e <= s.len(),
                    w@ == s@.subrange(b as int, k as int),
                decreases e - k,
            {
                w.push(s[k]);
                proof {
                    assert(s@.subrange(b as int, k as int + 1) =~= s@.subrange(b as int, k as int).push(s@[k as int]));
                }
                k = k + 1;
            }
            return Some(string_of(&w));
        }
    }
    None
}

/// `m` answers request `id` with an error carrying `text`.
pub open spec fn is_error_to(m: ServerMessage, id: Seq<char>, text: Seq<char>) -> bool {
    match m {
        ServerMessage::Response(resp) => resp.request_id@ == id && match resp.payload {
            ServerResponsePayload::Error { message } => message@ == text,
            _ => false,
        },
        _ => false,
    }
}

/// `m` answers request `id` with success.
pub open spec fn is_success_to(m: ServerMessage, id: Seq<char>) -> bool {
    match m {
        ServerMessage::Response(resp) => resp.request_id@ == id && resp.payload is Success,
        _ => false,
    }
}

/// `m` tells, unasked, that the node at `path` changed.
pub open spec fn is_update(m: ServerMessage, path: Seq<char>) -> bool {
    match m {
        ServerMessage::Push(p) => match p.payload {
            ServerPushPayload::VfsUpdate { path: q } => q@ == path,
            _ => false,
        },
        _ => false,
    }
}

/// `r` sends nothing yet and asks for a terminal for the account `rec`,
/// to complete the login of request `id`.
pub open spec fn logs_in(r: Reaction, id: Seq<char>, rec: UserRecord) -> bool {
    r.messages@.len() == 0 && match r.login {
        Some(pl) => pl.request_id@ == id && pl.user.id == rec.id && pl.user.username@ == rec.username@
            && pl.user.role@ == rec.role@,
        None => false,
    }
}

/// `r` sends one message: an error to `id` carrying `text`.
pub open spec fn one_error(r: Reaction, id: Seq<char>, text: Seq<char>) -> bool {
    r.messages@.len() == 1 && is_error_to(r.messages@[0], id, text)
}

/// `r` sends one message: success to `id`.
pub open spec fn one_success(r: Reaction, id: Seq<char>) -> bool {
    r.messages@.len() == 1 && is_success_to(r.messages@[0], id)
}

/// The reply to a change of the node at `path`: success then an update
/// push, or the error.
pub open spec fn change_reply(r: Reaction, id: Seq<char>, res: Result<(), VfsError>, path: Seq<char>) -> bool {
    match res {
        Ok(_) => r.messages@.len() == 2 && is_success_to(r.messages@[0], id) && is_update(
            r.messages@[1],
            path,
        ),
        Err(e) => one_error(r, id, e.text()),
    }
}

/// What handling an authenticated request does: `s0`/`s1` the store and
/// `cwd0`/`cwd1` the current directory before and after.
pub open spec fn request_post(
    s0: Store,
    s1: Store,
    user: UserInfo,
    cwd0: Seq<char>,
    cwd1: Seq<char>,
    req: ClientRequest,
    now: i64,
    r: Reaction,
) -> bool {
    let id = req.request_id@;
    let home = home_of(user.username@);
    let uid = user.id;
    &&& r.login is None
    &&& !r.close
    &&& match req.payload {
        ClientRequestPayload::RunCommand { command } => {
            &&& s1 == s0
            &&& r.pty_input matches Some(t) && t@ == command@.push('\n')
            &&& cwd1 == match cd_target(command@) {
                Some(d) => resolved(cwd0, d, home),
                None => cwd0,
            }
            &&& one_success(r, id)
        },
        _ => {
            &&& cwd1 == cwd0
            &&& r.pty_input is None
            &&& match req.payload {
                ClientRequestPayload::VfsList { path } => {
                    &&& s1 == s0
                    &&& r.messages@.len() == 1
                    &&& match r.messages@[0] {
                        ServerMessage::Response(resp) => resp.request_id@ == id && match resp.payload {
                            ServerResponsePayload::VfsListResponse { items } => list_post(
                                s0,
                                uid,
                                resolved(cwd0, path@, home),
                                Ok(items),
                            ),
                            ServerResponsePayload::Error { message } => exists|e: VfsError|
                                list_post(s0, uid, resolved(cwd0, path@, home), Err(e)) && message@
                                    == e.text(),
                            _ => false,
                        },
                        _ => false,
                    }
                },
                ClientRequestPayload::VfsReadFile { path } => {
                    &&& s1 == s0
                    &&& r.messages@.len() == 1
                    &&& match r.messages@[0] {
                        ServerMessage::Response(resp) => resp.request_id@ == id && match resp.payload {
                            ServerResponsePayload::VfsReadFileResponse { content } => read_post(
                                s0,
                                uid,
                                resolved(cwd0, path@, home),
                                Ok(content),
                            ),
                            ServerResponsePayload::Error { message } => exists|e: VfsError|
                                read_post(s0, uid, resolved(cwd0, path@, home), Err(e)) && message@
                                    == e.text(),
                            _ => false,
                        },
                        _ => false,
                    }
                },
                ClientRequestPayload::VfsWriteFile { path, content } => exists|
                    res: Result<(), VfsError>,
                |
                    write_post(s0, s1, uid, resolved(cwd0, path@, home), content@, now, res)
                        && change_reply(r, id, res, resolved(cwd0, path@, home)),
                ClientRequestPayload::VfsCreateNode { path, node_type } => if node_type@ == "file"@
                    || node_type@ == "dir"@ {
                    exists|res: Result<(), VfsError>, location: Seq<char>|
                        (node_type@ == "file"@ ==> location.len() == 36) && create_post(
                            s0,
                            s1,
                            uid,
                            resolved(cwd0, path@, home),
                            if node_type@ == "file"@ {
                                NodeType::File
                            } else {
                                NodeType::Dir
                            },
                            now,
                            location,
                            res,
                        ) && change_reply(r, id, res, resolved(cwd0, path@, home))
                } else {
                    s1 == s0 && one_error(r, id, "Invalid node type"@)
                },
                ClientRequestPayload::VfsMoveNode { old_path, new_path } => exists|
                    res: Result<(), VfsError>,
                |
                    move_post(
                        s0,
                        s1,
                        uid,
                        resolved(cwd0, old_path@, home),
                        resolved(cwd0, new_path@, home),
                        now,
                        res,
                    ) && match res {
                        Ok(_) => r.messages@.len() == 3 && is_success_to(r.messages@[0], id)
                            && is_update(r.messages@[1], resolved(cwd0, old_path@, home))
                            && is_update(r.messages@[2], resolved(cwd0, new_path@, home)),
                        Err(e) => one_error(r, id, e.text()),
                    },
                ClientRequestPayload::VfsTrashNode { path } => exists|res: Result<(), VfsError>|
                    trash_post(s0, s1, uid, resolved(cwd0, path@, home), now, res) && change_reply(
                        r,
                        id,
                        res,
                        resolved(cwd0, path@, home),
                    ),
                ClientRequestPayload::VfsListTrash => {
                    &&& s1 == s0
                    &&& r.messages@.len() == 1
                    &&& match r.messages@[0] {
                        ServerMessage::Response(resp) => resp.request_id@ == id && match resp.payload {
                            ServerResponsePayload::VfsListTrashResponse { items } => list_trash_post(
                                s0,
                                uid,
                                items,
                            ),
                            _ => false,
                        },
                        _ => false,
                    }
                },
                ClientRequestPayload::VfsRestoreNode { id: node_id } => exists|
                    res: Result<String, VfsError>,
                |
                    restore_post(s0, s1, uid, node_id, res) && match res {
                        Ok(p) => r.messages@.len() == 2 && is_success_to(r.messages@[0], id)
                            && is_update(r.messages@[1], p@),
                        Err(e) => one_error(r, id, e.text()),
                    },
                ClientRequestPayload::VfsDeleteNode { id: node_id } => delete_post(
                    s0,
                    s1,
                    uid,
                    node_id,
                ) && one_success(r, id),
                ClientRequestPayload::VfsEmptyTrash => empty_trash_post(s0, s1, uid) && one_success(
                    r,
                    id,
                ),
                ClientRequestPayload::Login { .. } => s1 == s0 && one_error(
                    r,
                    id,
                    "Unsupported action"@,
                ),
                ClientRequestPayload::RunCommand { .. } => true,
            }
        },
    }
}

/// What handling one frame does: `sess0`/`sess1` the session and `s0`/`s1`
/// the store before and after.
pub open spec fn message_post(
    sess0: UserSession,
    sess1: UserSession,
    s0: Store,
    s1: Store,
    users: UserTable,
    msg: Inbound,
    now: i64,
    r: Reaction,
) -> bool {
    match msg {
        Inbound::Close => sess1 == sess0 && s1 == s0 && r.close && r.messages@.len() == 0
            && r.pty_input is None && r.login is None,
        Inbound::Other => sess1 == sess0 && s1 == s0 && !r.close && r.messages@.len() == 0
            && r.pty_input is None && r.login is None,
        Inbound::Malformed { detail } => sess1 == sess0 && s1 == s0 && !r.close && r.pty_input is None
            && r.login is None && one_error(r, "unknown"@, "Invalid request format: "@ + detail@),
        Inbound::Text(req) => match sess0.user {
            None => {
                &&& s1 == s0
                &&& sess1 == sess0
                &&& !r.close
                &&& r.pty_input is None
                &&& match req.payload {
                    ClientRequestPayload::Login { username, password } => match login_outcome(
                        users.records@,
                        username@,
                        encode_utf8(password@),
                    ) {
                        Ok(Some(i)) => logs_in(r, req.request_id@, users.records@[i]),
                        Ok(None) => r.login is None && one_error(
                            r,
                            req.request_id@,
                            "Invalid credentials"@,
                        ),
                        Err(e) => r.login is None && one_error(
                            r,
                            req.request_id@,
                            "Login error: "@ + e.text(),
                        ),
                    },
                    _ => r.login is None && one_error(
                        r,
                        req.request_id@,
                        "Authentication required"@,
                    ),
                }
            },
            Some(u) => sess1.user == sess0.user && request_post(
                s0,
                s1,
                u,
                sess0.cwd@,
                sess1.cwd@,
                req,
                now,
                r,
            ),
        },
    }
}

/// A login whose password does not fit is answered by an error to that
/// request, and the session stays logged out: a following request other
/// than a login is refused with "Authentication required", and neither
/// request changes the session or the store.
pub proof fn lemma_failed_login(
    sess0: UserSession,
    sess1: UserSession,
    sess2: UserSession,
    s0: Store,
    s1: Store,
    s2: Store,
    users: UserTable,
    login: ClientRequest,
    next: ClientRequest,
    now: i64,
    r1: Reaction,
    r2: Reaction,
)
    requires
        sess0.user is None,
        match login.payload {
            ClientRequestPayload::Login { username, password } => login_outcome(
                users.records@,
                username@,
                encode_utf8(password@),
            ) == Ok::<Option<int>, AuthError>(None),
            _ => false,
        },
        !(next.payload is Login),
        message_post(sess0, sess1, s0, s1, users, Inbound::Text(login), now, r1),
        message_post(sess1, sess2, s1, s2, users, Inbound::Text(next), now, r2),
    ensures
        one_error(r1, login.request_id@, "Invalid credentials"@),
        r1.login is None,
        sess1 == sess0,
        one_error(r2, next.request_id@, "Authentication required"@),
        r2.login is None,
        sess2 == sess0,
        s2 == s0,
{
}

/// Relies on `chrono::Utc::now`: the current time, in milliseconds since the
/// epoch. Nothing is promised of its value.
#[verifier::external_body]
fn clock_now() -> (r: i64) {
    chrono::Utc::now().timestamp_millis()
}

fn respond(request_id: &String, payload: ServerResponsePayload) -> (m: ServerMessage)
    ensures
        m == ServerMessage::Response(ServerResponse { request_id: *request_id, payload }),
{
    ServerMessage::Response(ServerResponse { request_id: request_id.clone(), payload })
}

fn error_to(request_id: &String, message: String) -> (m: ServerMessage)
    ensures
        is_error_to(m, request_id@, message@),
{
    respond(request_id, ServerResponsePayload::Error { message })
}

fn success_to(request_id: &String) -> (m: ServerMessage)
    ensures
        is_success_to(m, request_id@),
{
    respond(request_id, ServerResponsePayload::Success)
}

fn update_push(path: String) -> (m: ServerMessage)
    ensures
        is_update(m, path@),
{
    ServerMessage::Push(ServerPush { payload: ServerPushPayload::VfsUpdate { path } })
}

fn copy_user(u: &UserInfo) -> (r: UserInfo)
    ensures
        r == *u,
{
    UserInfo { id: u.id, username: u.username.clone(), role: u.role.clone() }
}

fn concat(a: &str, b: &String) -> (r: String)
    ensures
        r@ == a@ + b@,
{
    let mut s = String::from_str(a);
    let c = chars_of(b.as_str());
    let mut i: usize = 0;
    while i < c.len()
        invariant
            c@ == b@,
            0 <= i <= c.len(),
            s@ == a@ + b@.subrange(0, i as int),
        decreases c.len() - i,
    {
        push_char(&mut s, c[i]);
        proof {
            assert(b@.subrange(0, i as int + 1) =~= b@.subrange(0, i as int).push(b@[i as int]));
            assert(s@ =~= a@ + b@.subrange(0, i as int + 1));
        }
        i = i + 1;
    }
    proof {
        assert(b@.subrange(0, c.len() as int) =~= b@);
    }
    s
}

/// The reply to a change: success and an update push, or the error.
fn change_reaction(request_id: &String, res: Result<(), VfsError>, path: String) -> (r: Reaction)
    ensures
        change_reply(r, request_id@, res, path@),
        r.pty_input is None,
        r.login is None,
        !r.close,
{
    let mut messages = Vec::new();
    match res {
        Ok(()) => {
            messages.push(success_to(request_id));
            messages.push(update_push(path));
        },
        Err(e) => {
            messages.push(error_to(request_id, e.message()));
        },
    }
    Reaction { messages, pty_input: None, login: None, close: false }
}

fn reply(m: ServerMessage) -> (r: Reaction)
    ensures
        r.messages@ == seq![m],
        r.pty_input is None,
        r.login is None,
        !r.close,
{
    let mut messages = Vec::new();
    messages.push(m);
    proof {
        assert(messages@ =~= seq![m]);
    }
    Reaction { messages, pty_input: None, login: None, close: false }
}

impl UserSession {
    /// A session that nobody has logged in to yet, at the root.
    pub fn new() -> (r: UserSession)
        ensures
            r.user is None,
            r.cwd@ == seq!['/'],
    {
        let mut cwd = String::new();
        push_char(&mut cwd, '/');
        proof {
            assert(cwd@ =~= seq!['/']);
        }
        UserSession { user: None, cwd }
    }

    /// Handles one frame from the transport, stamping what it changes with
    /// the current time.
    pub fn handle_frame(&mut self, store: &mut Store, users: &UserTable, msg: Inbound) -> (r: Reaction)
        requires
            old(store).wf(),
        ensures
            final(store).wf(),
            exists|now: i64|
                message_post(*old(self), *final(self), *old(store), *final(store), *users, msg, now, r),
    {
        let now = clock_now();
        self.handle_client_message(store, users, msg, now)
    }

    /// Handles one frame from the transport; `now` stamps what it changes.
    pub fn handle_client_message(
        &mut self,
        store: &mut Store,
        users: &UserTable,
        msg: Inbound,
        now: i64,
    ) -> (r: Reaction)
        requires
            old(store).wf(),
        ensures
            final(store).wf(),
            message_post(*old(self), *final(self), *old(store), *final(store), *users, msg, now, r),
    {
        match msg {
            Inbound::Close => Reaction { messages: Vec::new(), pty_input: None, login: None, close: true },
            Inbound::Other => Reaction { messages: Vec::new(), pty_input: None, login: None, close: false },
            Inbound::Malformed { detail } => {
                let unknown = String::from_str("unknown");
                reply(error_to(&unknown, concat("Invalid request format: ", &detail)))
            },
            Inbound::Text(req) => {
                if self.user.is_none() {
                    let request_id = req.request_id;
                    match req.payload {
                        ClientRequestPayload::Login { username, password } => self.handle_login(
                            users,
                            request_id,
                            username,
                            password,
                        ),
                        _ => reply(error_to(&request_id, String::from_str("Authentication required"))),
                    }
                } else {
                    self.handle_authenticated_request(store, req, now)
                }
            },
        }
    }

    fn handle_login(&self, users: &UserTable, request_id: String, username: String, password: String) -> (r:
        Reaction)
        ensures
            !r.close,
            r.pty_input is None,
            match login_outcome(users.records@, username@, encode_utf8(password@)) {
                Ok(Some(i)) => logs_in(r, request_id@, users.records@[i]),
                Ok(None) => r.login is None && one_error(r, request_id@, "Invalid credentials"@),
                Err(e) => r.login is None && one_error(r, request_id@, "Login error: "@ + e.text()),
            },
    {
        match verify_password(users, username.as_str(), password.as_str()) {
            Ok(Some(user)) => Reaction {
                messages: Vec::new(),
                pty_input: None,
                login: Some(PendingLogin { request_id, user }),
                close: false,
            },
            Ok(None) => reply(error_to(&request_id, String::from_str("Invalid credentials"))),
            Err(e) => {
                let text = e.message();
                reply(error_to(&request_id, concat("Login error: ", &text)))
            },
        }
    }

    fn handle_authenticated_request(&mut self, store: &mut Store, req: ClientRequest, now: i64) -> (r:
        Reaction)
        requires
            old(self).user is Some,
            old(store).wf(),
        ensures
            final(store).wf(),
            final(self).user == old(self).user,
            request_post(
                *old(store),
                *final(store),
                old(self).user->0,
                old(self).cwd@,
                final(self).cwd@,
                req,
                now,
                r,
            ),
    {
        let (user_id, home) = match &self.user {
            Some(u) => (u.id, home_dir(u.username.as_str())),
            None => {
                proof {
                    assert(false);
                }
                return Reaction { messages: Vec::new(), pty_input: None, login: None, close: false };
            },
        };
        let request_id = req.request_id;
        match req.payload {
            ClientRequestPayload::RunCommand { command } => {
                match cd_target_of(command.as_str()) {
                    Some(target) => {
                        self.cwd = resolve_path(self.cwd.as_str(), target.as_str(), home.as_str());
                    },
                    None => {},
                }
                let mut line = command.clone();
                push_char(&mut line, '\n');
                let mut r = reply(success_to(&request_id));
                r.pty_input = Some(line);
                r
            },
            ClientRequestPayload::VfsList { path } => {
                let resolved_path = resolve_path(self.cwd.as_str(), path.as_str(), home.as_str());
                match list_directory(store, user_id, resolved_path.as_str()) {
                    Ok(items) => reply(
                        respond(&request_id, ServerResponsePayload::VfsListResponse { items }),
                    ),
                    Err(e) => reply(error_to(&request_id, e.message())),
                }
            },
            ClientRequestPayload::VfsReadFile { path } => {
                let resolved_path = resolve_path(self.cwd.as_str(), path.as_str(), home.as_str());
                match read_file_content(store, user_id, resolved_path.as_str()) {
                    Ok(content) => reply(
                        respond(&request_id, ServerResponsePayload::VfsReadFileResponse { content }),
                    ),
                    Err(e) => reply(error_to(&request_id, e.message())),
                }
            },
            ClientRequestPayload::VfsWriteFile { path, content } => {
                let resolved_path = resolve_path(self.cwd.as_str(), path.as_str(), home.as_str());
                let res = write_file_content(store, user_id, resolved_path.as_str(), content.as_str(), now);
                change_reaction(&request_id, res, resolved_path)
            },
            ClientRequestPayload::VfsCreateNode { path, node_type } => {
                let resolved_path = resolve_path(self.cwd.as_str(), path.as_str(), home.as_str());
                let file = String::from_str("file");
                let dir = String::from_str("dir");
                let kind = if node_type == file {
                    NodeType::File
                } else if node_type == dir {
                    NodeType::Dir
                } else {
                    return reply(error_to(&request_id, String::from_str("Invalid node type")));
                };
                let ghost s0 = *store;
                let res = create_node(store, user_id, resolved_path.as_str(), kind, now);
                let ghost location = choose|location: Seq<char>|
                    (kind == NodeType::File ==> location.len() == 36) && #[trigger] create_post(
                        s0,
                        *store,
                        user_id,
                        resolved_path@,
                        kind,
                        now,
                        location,
                        res,
                    );
                let r = change_reaction(&request_id, res, resolved_path);
                proof {
                    assert((kind == NodeType::File ==> location.len() == 36) && create_post(
                        s0,
                        *store,
                        user_id,
                        resolved_path@,
                        kind,
                        now,
                        location,
                        res,
                    ));
                }
                r
            },
            ClientRequestPayload::VfsMoveNode { old_path, new_path } => {
                let resolved_old = resolve_path(self.cwd.as_str(), old_path.as_str(), home.as_str());
                let resolved_new = resolve_path(self.cwd.as_str(), new_path.as_str(), home.as_str());
                match move_node(store, user_id, resolved_old.as_str(), resolved_new.as_str(), now) {
                    Ok(()) => {
                        let mut messages = Vec::new();
                        messages.push(success_to(&request_id));
                        messages.push(update_push(resolved_old));
                        messages.push(update_push(resolved_new));
                        Reaction { messages, pty_input: None, login: None, close: false }
                    },
                    Err(e) => reply(error_to(&request_id, e.message())),
                }
            },
            ClientRequestPayload::VfsTrashNode { path } => {
                let resolved_path = resolve_path(self.cwd.as_str(), path.as_str(), home.as_str());
                let res = trash_node(store, user_id, resolved_path.as_str(), now);
                change_reaction(&request_id, res, resolved_path)
            },
            ClientRequestPayload::VfsListTrash => {
                let items = list_trash(store, user_id);
                reply(respond(&request_id, ServerResponsePayload::VfsListTrashResponse { items }))
            },
            ClientRequestPayload::VfsRestoreNode { id } => {
                match restore_node(store, user_id, id) {
                    Ok(path) => {
                        let mut messages = Vec::new();
                        messages.push(success_to(&request_id));
                        messages.push(update_push(path));
                        Reaction { messages, pty_input: None, login: None, close: false }
                    },
                    Err(e) => reply(error_to(&request_id, e.message())),
                }
            },
            ClientRequestPayload::VfsDeleteNode { id } => {
                permanently_delete_node(store, user_id, id);
                reply(success_to(&request_id))
            },
            ClientRequestPayload::VfsEmptyTrash => {
                empty_trash(store, user_id);
                reply(success_to(&request_id))
            },
            ClientRequestPayload::Login { .. } => reply(
                error_to(&request_id, String::from_str("Unsupported action")),
            ),
        }
    }

    /// Finishes a login once the caller has tried to start its terminal: on
    /// success the user is logged in at their home directory, else the
    /// session stays as it was.
    pub fn complete_login(&mut self, pending: PendingLogin, spawned: bool) -> (r: ServerMessage)
        ensures
            spawned ==> {
                &&& final(self).user == Some(pending.user)
                &&& final(self).cwd@ == home_of(pending.user.username@)
                &&& r == ServerMessage::Response(
                    ServerResponse {
                        request_id: pending.request_id,
                        payload: ServerResponsePayload::LoginSuccess { user: pending.user },
                    },
                )
            },
            !spawned ==> *final(self) == *old(self) && is_error_to(
                r,
                pending.request_id@,
                "Failed to start terminal session"@,
            ),
    {
        if spawned {
            self.cwd = home_dir(pending.user.username.as_str());
            self.user = Some(copy_user(&pending.user));
            ServerMessage::Response(
                ServerResponse {
                    request_id: pending.request_id,
                    payload: ServerResponsePayload::LoginSuccess { user: pending.user },
                },
            )
        } else {
            error_to(&pending.request_id, String::from_str("Failed to start terminal session"))
        }
    }

    /// Terminal output becomes a push that answers no request; the session
    /// is not touched.
    pub fn handle_pty_output(&self, msg: PtyMessage) -> (r: ServerMessage)
        ensures
            match msg {
                PtyMessage::Output(out) => r == ServerMessage::Push(
                    ServerPush { payload: ServerPushPayload::TerminalOutput { output: out } },
                ),
            },
    {
        match msg {
            PtyMessage::Output(output) => ServerMessage::Push(
                ServerPush { payload: ServerPushPayload::TerminalOutput { output } },
            ),
        }
    }
}

} // verus!
