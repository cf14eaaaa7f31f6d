//! The messages exchanged with a client, as plain values.
use vstd::prelude::*;

verus! {

/// What a node is.
#[derive(Clone, Copy, Debug, PartialEq, Eq, Structural)]
pub enum NodeType {
    Dir,
    File,
}

/// A decoded client request: the correlation id and what is asked.
pub struct ClientRequest {
    pub request_id: String,
    pub payload: ClientRequestPayload,
}

/// What a client can ask for.
pub enum ClientRequestPayload {
    Login { username: String, password: String },
    RunCommand { command: String },
    VfsList { path: String },
    VfsReadFile { path: String },
    VfsWriteFile { path: String, content: String },
    VfsCreateNode { path: String, node_type: String },
    VfsMoveNode { old_path: String, new_path: String },
    VfsTrashNode { path: String },
    VfsListTrash,
    VfsRestoreNode { id: i64 },
    VfsDeleteNode { id: i64 },
    VfsEmptyTrash,
}

/// The identity of an authenticated user.
pub struct UserInfo {
    pub id: i64,
    pub username: String,
    pub role: String,
}

/// One entry of a directory listing. Times are milliseconds since the epoch.
pub struct FileNode {
    pub name: String,
    pub node_type: NodeType,
    pub size: i64,
    pub updated_at: i64,
}

/// One entry of the trash listing.
pub struct TrashedFileNode {
    pub id: i64,
    pub name: String,
    pub original_path: String,
    pub trashed_at: i64,
}

/// A reply to one request, carrying that request's id.
pub struct ServerResponse {
    pub request_id: String,
    pub payload: ServerResponsePayload,
}

#[allow(inconsistent_fields)]
pub enum ServerResponsePayload {
    LoginSuccess { user: UserInfo },
    Error { message: String },
    VfsListResponse { items: Vec<FileNode> },
    VfsReadFileResponse { content: String },
    Success,
    VfsListTrashResponse { items: Vec<TrashedFileNode> },
}

/// A message that answers no request.
pub struct ServerPush {
    pub payload: ServerPushPayload,
}

pub enum ServerPushPayload {
    TerminalOutput { output: String },
    VfsUpdate { path: String },
}

/// Anything the server sends.
pub enum ServerMessage {
    Response(ServerResponse),
    Push(ServerPush),
}

} // verus!
