//! The virtual filesystem: metadata rows addressed by path, with file content
//! held in a blob that each file row names, and a trash for soft deletion.
use vstd::prelude::*;

use crate::codec::{base64_of, base64_decoded, decode_base64, encode_base64};
use crate::path::{components, is_dot, is_dot_dot, split_components, views};
use crate::protocol::{FileNode, NodeType, TrashedFileNode};
use crate::text::{chars_of, string_of};

verus! {

/// The content object that a file row names.
pub struct Blob {
    pub location: String,
    pub data: Vec<u8>,
}

/// One node of one owner's tree. `parent_id` is `None` for a child of the root.
pub struct FileRow {
    pub id: i64,
    pub owner_id: i64,
    pub parent_id: Option<i64>,
    pub name: String,
    pub node_type: NodeType,
    pub blob: Option<Blob>,
    pub original_path: String,
    pub size: i64,
    pub updated_at: i64,
    pub is_trashed: bool,
    pub trashed_at: Option<i64>,
}

/// All rows of all owners.
pub struct Store {
    pub rows: Vec<FileRow>,
    pub next_id: i64,
}

/// Why a filesystem operation failed.
#[derive(Clone, Copy, Debug, PartialEq, Eq, Structural)]
pub enum VfsError {
    FileNotFound,
    NodeNotFound,
    SourceNotFound,
    DirectoryNotFound,
    NotAFile,
    InvalidPath,
    InvalidNewPath,
    InvalidContent,
    IdsExhausted,
    BlobLocationTaken,
}

impl VfsError {
    /// The text sent to a client.
    pub open spec fn text(&self) -> Seq<char> {
        match self {
            VfsError::FileNotFound => "File not found"@,
            VfsError::NodeNotFound => "Node not found"@,
            VfsError::SourceNotFound => "Source not found"@,
            VfsError::DirectoryNotFound => "Directory not found"@,
            VfsError::NotAFile => "Node is a directory, not a file"@,
            VfsError::InvalidPath => "Invalid path or name"@,
            VfsError::InvalidNewPath => "Invalid new path"@,
            VfsError::InvalidContent => "Content is not valid base64"@,
            VfsError::IdsExhausted => "No node ids left"@,
            VfsError::BlobLocationTaken => "Blob location already in use"@,
        }
    }

    pub fn message(&self) -> (r: String)
        ensures
            r@ == self.text(),
    {
        match self {
            VfsError::FileNotFound => String::from_str("File not found"),
            VfsError::NodeNotFound => String::from_str("Node not found"),
            VfsError::SourceNotFound => String::from_str("Source not found"),
            VfsError::DirectoryNotFound => String::from_str("Directory not found"),
            VfsError::NotAFile => String::from_str("Node is a directory, not a file"),
            VfsError::InvalidPath => String::from_str("Invalid path or name"),
            VfsError::InvalidNewPath => String::from_str("Invalid new path"),
            VfsError::InvalidContent => String::from_str("Content is not valid base64"),
            VfsError::IdsExhausted => String::from_str("No node ids left"),
            VfsError::BlobLocationTaken => String::from_str("Blob location already in use"),
        }
    }
}

/// Where a path leads: the root, the row at an index, or nowhere.
#[derive(Clone, Copy, Debug, PartialEq, Eq, Structural)]
pub enum PathTarget {
    Root,
    Node(usize),
    Missing,
}

impl Store {
    /// Ids are positive, below `next_id`, and distinct, and every row is
    /// well formed.
    pub open spec fn wf(&self) -> bool {
        &&& self.next_id >= 1
        &&& forall|i: int| 0 <= i < self.rows@.len() ==> row_wf(#[trigger] self.rows@[i])
        &&& forall|i: int|
            0 <= i < self.rows@.len() ==> 1 <= (#[trigger] self.rows@[i]).id < self.next_id
        &&& forall|i: int, j: int|
            0 <= i < self.rows@.len() && 0 <= j < self.rows@.len() && i != j ==> (
            #[trigger] self.rows@[i]).id != (#[trigger] self.rows@[j]).id
    }

    /// An empty store.
    pub fn new() -> (r: Store)
        ensures
            r.wf(),
            r.rows@.len() == 0,
    {
        Store { rows: Vec::new(), next_id: 1 }
    }
}

/// A file row names a blob and a directory row none; a row has a trash time
/// exactly when it is trashed.
pub open spec fn row_wf(r: FileRow) -> bool {
    &&& (r.node_type == NodeType::File) == (r.blob is Some)
    &&& r.is_trashed == (r.trashed_at is Some)
}

/// `r` is a not-trashed child of `parent`, owned by `owner`, named `name`.
pub open spec fn is_child(r: FileRow, owner: i64, parent: Option<i64>, name: Seq<char>) -> bool {
    r.owner_id == owner && r.parent_id == parent && r.name@ == name && !r.is_trashed
}

/// The first index at or after `from` of a row for which `is_child` holds.
pub open spec fn first_child(
    rows: Seq<FileRow>,
    owner: i64,
    parent: Option<i64>,
    name: Seq<char>,
    from: int,
) -> Option<int>
    decreases rows.len() - from,
{
    if from < 0 || from >= rows.len() {
        None
    } else if is_child(rows[from], owner, parent, name) {
        Some(from)
    } else {
        first_child(rows, owner, parent, name, from + 1)
    }
}

/// The id of the node at `t`, as a parent reference (`None` for the root).
pub open spec fn parent_ref(rows: Seq<FileRow>, t: PathTarget) -> Option<i64> {
    match t {
        PathTarget::Node(j) => Some(rows[j as int].id),
        _ => None,
    }
}

/// One step down: the child named `name` of the node at `t`.
pub open spec fn step_down(rows: Seq<FileRow>, owner: i64, t: PathTarget, name: Seq<char>) -> PathTarget {
    match t {
        PathTarget::Missing => PathTarget::Missing,
        _ => match first_child(rows, owner, parent_ref(rows, t), name, 0) {
            Some(i) => PathTarget::Node(i as usize),
            None => PathTarget::Missing,
        },
    }
}

/// Where the components `comps` lead from the root of `owner`'s tree.
pub open spec fn walk(rows: Seq<FileRow>, owner: i64, comps: Seq<Seq<char>>) -> PathTarget
    decreases comps.len(),
{
    if comps.len() == 0 {
        PathTarget::Root
    } else {
        step_down(rows, owner, walk(rows, owner, comps.drop_last()), comps.last())
    }
}

/// Where the path `p` leads in `owner`'s tree.
pub open spec fn locate(rows: Seq<FileRow>, owner: i64, p: Seq<char>) -> PathTarget {
    walk(rows, owner, components(p))
}

/// A found child is a row at or after `from` for which `is_child` holds.
pub proof fn lemma_first_child_bound(
    rows: Seq<FileRow>,
    owner: i64,
    parent: Option<i64>,
    name: Seq<char>,
    from: int,
)
    ensures
        first_child(rows, owner, parent, name, from) matches Some(i) ==> 0 <= from <= i < rows.len()
            && is_child(rows[i], owner, parent, name),
    decreases rows.len() - from,
{
    if 0 <= from < rows.len() && !is_child(rows[from], owner, parent, name) {
        lemma_first_child_bound(rows, owner, parent, name, from + 1);
    }
}

/// A node that a path leads to is a row of the store that is not trashed.
pub proof fn lemma_walk_finds_live_row(rows: Seq<FileRow>, owner: i64, comps: Seq<Seq<char>>)
    requires
        rows.len() <= usize::MAX,
    ensures
        walk(rows, owner, comps) matches PathTarget::Node(i) ==> i < rows.len()
            && !rows[i as int].is_trashed && rows[i as int].owner_id == owner,
    decreases comps.len(),
{
    if comps.len() > 0 {
        let t = walk(rows, owner, comps.drop_last());
        lemma_first_child_bound(rows, owner, parent_ref(rows, t), comps.last(), 0);
    }
}

fn same_parent(a: Option<i64>, b: Option<i64>) -> (r: bool)
    ensures
        r == (a == b),
{
    match (a, b) {
        (Some(x), Some(y)) => x == y,
        (None, None) => true,
        _ => false,
    }
}

/// The index of the first not-trashed child of `parent` named `name`.
fn find_child(rows: &Vec<FileRow>, owner: i64, parent: Option<i64>, name: &String) -> (r: Option<
    usize,
>)
    ensures
        match r {
            Some(i) => first_child(rows@, owner, parent, name@, 0) == Some(i as int) && i
                < rows.len(),
            None => first_child(rows@, owner, parent, name@, 0) is None,
        },
{
    let mut i: usize = 0;
    while i < rows.len()
        invariant
            0 <= i <= rows.len(),
            first_child(rows@, owner, parent, name@, 0) == first_child(
                rows@,
                owner,
                parent,
                name@,
                i as int,
            ),
        decreases rows.len() - i,
    {
        let row = &rows[i];
        if row.owner_id == owner && same_parent(row.parent_id, parent) && !row.is_trashed
            && row.name == *name {
            return Some(i);
        }
        i = i + 1;
    }
    None
}

/// Follows `comps` from the root of `owner`'s tree.
fn walk_components(rows: &Vec<FileRow>, owner: i64, comps: &Vec<Vec<char>>) -> (r: PathTarget)
    ensures
        r == walk(rows@, owner, views(comps@)),
        r matches PathTarget::Node(i) ==> i < rows.len(),
{
    let mut cur = PathTarget::Root;
    let mut k: usize = 0;
    proof {
        assert(views(comps@).subrange(0, 0) =~= Seq::<Seq<char>>::empty());
    }
    while k < comps.len()
        invariant
            0 <= k <= comps.len(),
            cur == walk(rows@, owner, views(comps@).subrange(0, k as int)),
            cur matches PathTarget::Node(i) ==> i < rows.len(),
        decreases comps.len() - k,
    {
        let ghost post = views(comps@).subrange(0, k as int + 1);
        proof {
            assert(post.drop_last() =~= views(comps@).subrange(0, k as int));
            assert(post.last() == comps@[k as int]@);
        }
        let name = string_of(&comps[k]);
        let parent = match cur {
            PathTarget::Node(j) => Some(rows[j].id),
            _ => None,
        };
        match cur {
            PathTarget::Missing => {},
            _ => {
                cur = match find_child(rows, owner, parent, &name) {
                    Some(i) => PathTarget::Node(i),
                    None => PathTarget::Missing,
                };
            },
        }
        k = k + 1;
    }
    proof {
        assert(views(comps@).subrange(0, comps.len() as int) =~= views(comps@));
    }
    cur
}

/// Where `path` leads in `user_id`'s tree: the root for a path without
/// components, else the row reached by taking, one component at a time, the
/// first not-trashed child of that name.
pub fn get_path_id(store: &Store, user_id: i64, path: &str) -> (r: PathTarget)
    ensures
        r == locate(store.rows@, user_id, path@),
        r matches PathTarget::Node(i) ==> i < store.rows.len(),
{
    let p = chars_of(path);
    let comps = split_components(&p);
    walk_components(&store.rows, user_id, &comps)
}

/// Relies on `uuid::Uuid::new_v4` and the text form of a `Uuid`: a fresh
/// random identifier, written as 36 characters.
#[verifier::external_body]
fn fresh_blob_location() -> (r: String)
    ensures
        r@.len() == 36,
{
    uuid::Uuid::new_v4().to_string()
}

/// The last component names something: it exists and is neither `.` nor `..`.
pub open spec fn names_node(comps: Seq<Seq<char>>) -> bool {
    comps.len() > 0 && !is_dot(comps.last()) && !is_dot_dot(comps.last())
}

/// `row` is the row that `create_node` adds.
pub open spec fn created_row(
    row: FileRow,
    id: i64,
    owner: i64,
    parent: Option<i64>,
    name: Seq<char>,
    node_type: NodeType,
    path: Seq<char>,
    now: i64,
) -> bool {
    &&& row.id == id
    &&& row.owner_id == owner
    &&& row.parent_id == parent
    &&& row.name@ == name
    &&& row.node_type == node_type
    &&& row.original_path@ == path
    &&& row.size == 0
    &&& row.updated_at == now
    &&& !row.is_trashed
    &&& row.trashed_at is None
    &&& match node_type {
        NodeType::File => row.blob matches Some(b) && b.data@.len() == 0,
        NodeType::Dir => row.blob is None,
    }
}

/// The blob of `row`, if any, is at a location that no blob of `rows` is at.
pub open spec fn fresh_blob(rows: Seq<FileRow>, row: FileRow) -> bool {
    forall|k: int|
        0 <= k < rows.len() ==> match ((#[trigger] rows[k]).blob, row.blob) {
            (Some(a), Some(b)) => a.location@ != b.location@,
            _ => true,
        }
}

/// `row` names a blob at `location`.
pub open spec fn blob_at(row: FileRow, location: Seq<char>) -> bool {
    match row.blob {
        Some(b) => b.location@ == location,
        None => false,
    }
}

/// Whether some row's blob is at `location`.
fn location_taken(rows: &Vec<FileRow>, location: &String) -> (r: bool)
    ensures
        r == exists|k: int| 0 <= k < rows@.len() && blob_at(#[trigger] rows@[k], location@),
{
    let mut i: usize = 0;
    while i < rows.len()
        invariant
            0 <= i <= rows.len(),
            forall|k: int| 0 <= k < i ==> !blob_at(#[trigger] rows@[k], location@),
        decreases rows.len() - i,
    {
        match &rows[i].blob {
            Some(b) => {
                if b.location == *location {
                    return true;
                }
            },
            None => {},
        }
        i = i + 1;
    }
    false
}

/// Two blob slots that name the same location and hold the same bytes.
pub open spec fn same_blob(a: Option<Blob>, b: Option<Blob>) -> bool {
    match (a, b) {
        (Some(x), Some(y)) => y.location == x.location && y.data@ == x.data@,
        (None, None) => true,
        _ => false,
    }
}

/// `new` is `old` with the fields that a move changes set anew.
pub open spec fn moved_row(
    old: FileRow,
    new: FileRow,
    parent: Option<i64>,
    name: Seq<char>,
    path: Seq<char>,
    now: i64,
) -> bool {
    &&& new.id == old.id && new.owner_id == old.owner_id && new.node_type == old.node_type
    &&& new.size == old.size && new.is_trashed == old.is_trashed
    &&& new.trashed_at == old.trashed_at && same_blob(old.blob, new.blob)
    &&& new.parent_id == parent && new.name@ == name && new.original_path@ == path
    &&& new.updated_at == now
}

/// `new` is `old` with its blob holding `bytes`, and size and time updated.
pub open spec fn written_row(old: FileRow, new: FileRow, bytes: Seq<u8>, now: i64) -> bool {
    &&& new.id == old.id
    &&& new.owner_id == old.owner_id
    &&& new.parent_id == old.parent_id
    &&& new.name == old.name
    &&& new.node_type == old.node_type
    &&& new.original_path == old.original_path
    &&& new.is_trashed == old.is_trashed
    &&& new.trashed_at == old.trashed_at
    &&& new.size == bytes.len() as i64
    &&& new.updated_at == now
    &&& old.blob matches Some(ob) && new.blob matches Some(nb) && nb.location == ob.location
        && nb.data@ == bytes
}

/// The first index at or after `from` of a row with this id and owner, among
/// the trashed ones only where `trashed_only` holds.
pub open spec fn first_with_id(rows: Seq<FileRow>, owner: i64, id: i64, trashed_only: bool, from: int) -> Option<int>
    decreases rows.len() - from,
{
    if from < 0 || from >= rows.len() {
        None
    } else if rows[from].id == id && rows[from].owner_id == owner && (!trashed_only
        || rows[from].is_trashed) {
        Some(from)
    } else {
        first_with_id(rows, owner, id, trashed_only, from + 1)
    }
}

/// The rows that emptying `owner`'s trash keeps.
pub open spec fn kept_rows(rows: Seq<FileRow>, owner: i64) -> Seq<FileRow>
    decreases rows.len(),
{
    if rows.len() == 0 {
        Seq::empty()
    } else {
        let r = kept_rows(rows.drop_last(), owner);
        if rows.last().owner_id == owner && rows.last().is_trashed {
            r
        } else {
            r.push(rows.last())
        }
    }
}

fn clone_blob(b: &Option<Blob>) -> (r: Option<Blob>)
    ensures
        match (*b, r) {
            (Some(x), Some(y)) => y.location == x.location && y.data@ == x.data@,
            (None, None) => true,
            _ => false,
        },
{
    match b {
        Some(x) => Some(Blob { location: x.location.clone(), data: x.data.clone() }),
        None => None,
    }
}

/// A copy of `row` with other trash fields.
fn with_trash_state(row: &FileRow, is_trashed: bool, trashed_at: Option<i64>) -> (r: FileRow)
    ensures
        r.id == row.id && r.owner_id == row.owner_id && r.parent_id == row.parent_id && r.name
            == row.name && r.node_type == row.node_type && r.original_path == row.original_path
            && r.size == row.size && r.updated_at == row.updated_at,
        match (row.blob, r.blob) {
            (Some(x), Some(y)) => y.location == x.location && y.data@ == x.data@,
            (None, None) => true,
            _ => false,
        },
        r.is_trashed == is_trashed,
        r.trashed_at == trashed_at,
{
    FileRow {
        id: row.id,
        owner_id: row.owner_id,
        parent_id: row.parent_id,
        name: row.name.clone(),
        node_type: row.node_type,
        blob: clone_blob(&row.blob),
        original_path: row.original_path.clone(),
        size: row.size,
        updated_at: row.updated_at,
        is_trashed,
        trashed_at,
    }
}

/// `new` differs from `old` in its trash fields alone.
pub open spec fn trash_state_row(old: FileRow, new: FileRow, is_trashed: bool, trashed_at: Option<i64>) -> bool {
    &&& new.id == old.id && new.owner_id == old.owner_id && new.parent_id == old.parent_id
    &&& new.name == old.name && new.node_type == old.node_type
    &&& new.original_path == old.original_path && new.size == old.size
    &&& new.updated_at == old.updated_at
    &&& match (old.blob, new.blob) {
        (Some(x), Some(y)) => y.location == x.location && y.data@ == x.data@,
        (None, None) => true,
        _ => false,
    }
    &&& new.is_trashed == is_trashed && new.trashed_at == trashed_at
}

/// Splits `path` into the components of its parent and its last component.
fn split_parent(path: &str) -> (r: (Vec<Vec<char>>, Option<Vec<char>>))
    ensures
        views(r.0@) == components(path@).drop_last() || components(path@).len() == 0,
        match r.1 {
            Some(n) => components(path@).len() > 0 && n@ == components(path@).last(),
            None => components(path@).len() == 0,
        },
{
    let p = chars_of(path);
    let mut comps = split_components(&p);
    let ghost all = views(comps@);
    let last = comps.pop();
    proof {
        if all.len() > 0 {
            assert(views(comps@) =~= all.drop_last());
        }
    }
    (comps, last)
}

fn is_dot_exec(n: &Vec<char>) -> (r: bool)
    ensures
        r == (is_dot(n@) || is_dot_dot(n@)),
{
    let r = (n.len() == 1 && n[0] == '.') || (n.len() == 2 && n[0] == '.' && n[1] == '.');
    proof {
        if n.len() == 1 && n[0] == '.' {
            assert(n@ =~= seq!['.']);
        } else if n.len() == 2 && n[0] == '.' && n[1] == '.' {
            assert(n@ =~= seq!['.', '.']);
        } else {
            if is_dot(n@) {
                assert(n@.len() == 1 && n@[0] == seq!['.'][0]);
            }
            if is_dot_dot(n@) {
                assert(n@.len() == 2 && n@[0] == seq!['.', '.'][0] && n@[1] == seq!['.', '.'][1]);
            }
        }
    }
    r
}

/// What `create_node` promises: `s0` before, `s1` after, `r` its result.
pub open spec fn create_post(
    s0: Store,
    s1: Store,
    user_id: i64,
    path: Seq<char>,
    node_type: NodeType,
    now: i64,
    location: Seq<char>,
    r: Result<(), VfsError>,
) -> bool {
    ({
        let comps = components(path);
        let parent = walk(s0.rows@, user_id, comps.drop_last());
        if !names_node(comps) {
            r == Err::<(), VfsError>(VfsError::InvalidPath) && s1 == s0
        } else if parent is Missing {
            r == Err::<(), VfsError>(VfsError::DirectoryNotFound) && s1 == s0
        } else if s0.next_id == i64::MAX {
            r == Err::<(), VfsError>(VfsError::IdsExhausted) && s1 == s0
        } else if node_type == NodeType::File && location_in_use(s0.rows@, location) {
            r == Err::<(), VfsError>(VfsError::BlobLocationTaken) && s1 == s0
        } else {
            &&& r is Ok
            &&& s1.next_id == s0.next_id + 1
            &&& s1.rows@.len() == s0.rows@.len() + 1
            &&& s1.rows@.drop_last() == s0.rows@
            &&& created_row(
                s1.rows@.last(),
                s0.next_id,
                user_id,
                parent_ref(s0.rows@, parent),
                comps.last(),
                node_type,
                path,
                now,
            )
            &&& node_type == NodeType::File ==> blob_at(s1.rows@.last(), location)
            &&& fresh_blob(s0.rows@, s1.rows@.last())
        }
    })
}

/// Some row's blob is at `location`.
pub open spec fn location_in_use(rows: Seq<FileRow>, location: Seq<char>) -> bool {
    exists|k: int| 0 <= k < rows.len() && blob_at(#[trigger] rows[k], location)
}

/// Adds a node at `path` for `user_id`, with an empty file's blob at a
/// freshly drawn location: see `create_node_at`.
pub fn create_node(store: &mut Store, user_id: i64, path: &str, node_type: NodeType, now: i64) -> (r:
    Result<(), VfsError>)
    requires
        old(store).wf(),
    ensures
        final(store).wf(),
        exists|location: Seq<char>|
            (node_type == NodeType::File ==> location.len() == 36) && #[trigger] create_post(
                *old(store),
                *final(store),
                user_id,
                path@,
                node_type,
                now,
                location,
                r,
            ),
{
    let location = match node_type {
        NodeType::File => fresh_blob_location(),
        NodeType::Dir => String::new(),
    };
    let r = create_node_at(store, user_id, path, node_type, now, location);
    proof {
        assert(create_post(*old(store), *store, user_id, path@, node_type, now, location@, r));
    }
    r
}

/// Adds a node at `path` for `user_id`: a directory, or a file with an empty
/// blob at `location`, refused where a row's blob is already there. The
/// parent must resolve (the root counts); no check for a sibling of the same
/// name is made.
pub fn create_node_at(
    store: &mut Store,
    user_id: i64,
    path: &str,
    node_type: NodeType,
    now: i64,
    location: String,
) -> (r: Result<(), VfsError>)
    requires
        old(store).wf(),
    ensures
        final(store).wf(),
        create_post(*old(store), *final(store), user_id, path@, node_type, now, location@, r),
{
    let (parent_comps, last) = split_parent(path);
    let name_chars = match last {
        Some(n) => n,
        None => return Err(VfsError::InvalidPath),
    };
    if is_dot_exec(&name_chars) {
        return Err(VfsError::InvalidPath);
    }
    let parent = walk_components(&store.rows, user_id, &parent_comps);
    let parent_id = match parent {
        PathTarget::Missing => return Err(VfsError::DirectoryNotFound),
        PathTarget::Root => None,
        PathTarget::Node(j) => Some(store.rows[j].id),
    };
    if store.next_id == i64::MAX {
        return Err(VfsError::IdsExhausted);
    }
    let blob = match node_type {
        NodeType::File => {
            if location_taken(&store.rows, &location) {
                return Err(VfsError::BlobLocationTaken);
            }
            Some(Blob { location, data: Vec::new() })
        },
        NodeType::Dir => None,
    };
    let row = FileRow {
        id: store.next_id,
        owner_id: user_id,
        parent_id,
        name: string_of(&name_chars),
        node_type,
        blob,
        original_path: String::from_str(path),
        size: 0,
        updated_at: now,
        is_trashed: false,
        trashed_at: None,
    };
    let ghost old_rows = store.rows@;
    store.rows.push(row);
    store.next_id = store.next_id + 1;
    proof {
        assert(store.rows@.drop_last() =~= old_rows);
        assert forall|i: int, j: int|
            0 <= i < store.rows@.len() && 0 <= j < store.rows@.len() && i != j implies (
            #[trigger] store.rows@[i]).id != (#[trigger] store.rows@[j]).id by {
            if i < old_rows.len() && j < old_rows.len() {
                assert(store.rows@[i] == old_rows[i]);
                assert(store.rows@[j] == old_rows[j]);
            } else if i < old_rows.len() {
                assert(store.rows@[i] == old_rows[i]);
            } else {
                assert(store.rows@[j] == old_rows[j]);
            }
        }
        assert forall|i: int| 0 <= i < store.rows@.len() implies 1 <= (
        #[trigger] store.rows@[i]).id < store.next_id by {
            if i < old_rows.len() {
                assert(store.rows@[i] == old_rows[i]);
            }
        }
        assert forall|i: int| 0 <= i < store.rows@.len() implies row_wf(#[trigger] store.rows@[i]) by {
            if i < old_rows.len() {
                assert(store.rows@[i] == old_rows[i]);
            }
        }
    }
    Ok(())
}

/// What `read_file_content` promises of its result `r` on the store `s`.
pub open spec fn read_post(s: Store, user_id: i64, path: Seq<char>, r: Result<String, VfsError>) -> bool {
    match locate(s.rows@, user_id, path) {
        PathTarget::Node(i) => match s.rows@[i as int].node_type {
            NodeType::File => s.rows@[i as int].blob matches Some(b) && r matches Ok(t) && t@
                == base64_of(b.data@) && (b.data@.len() == 0 ==> t@.len() == 0),
            NodeType::Dir => r == Err::<String, VfsError>(VfsError::NotAFile),
        },
        _ => r == Err::<String, VfsError>(VfsError::FileNotFound)
    }
}

/// The content of the file at `path`, base64-encoded.
pub fn read_file_content(store: &Store, user_id: i64, path: &str) -> (r: Result<String, VfsError>)
    requires
        store.wf(),
    ensures
        read_post(*store, user_id, path@, r),
{
    let t = get_path_id(store, user_id, path);
    proof {
        lemma_walk_finds_live_row(store.rows@, user_id, components(path@));
    }
    match t {
        PathTarget::Node(i) => match &store.rows[i].blob {
            Some(b) => Ok(encode_base64(&b.data)),
            None => Err(VfsError::NotAFile),
        },
        _ => Err(VfsError::FileNotFound),
    }
}

/// What `write_file_content` promises: `s0` before, `s1` after, `r` its result.
pub open spec fn write_post(s0: Store, s1: Store, user_id: i64, path: Seq<char>, content: Seq<char>, now: i64, r: Result<(), VfsError>) -> bool {
    match locate(s0.rows@, user_id, path) {
        PathTarget::Node(i) => match base64_decoded(content) {
            None => r == Err::<(), VfsError>(VfsError::InvalidContent) && s1 == s0,
            Some(bytes) => if s0.rows@[i as int].node_type == NodeType::File {
                &&& r is Ok
                &&& s1.next_id == s0.next_id
                &&& s1.rows@.len() == s0.rows@.len()
                &&& forall|k: int| 0 <= k < s0.rows@.len() && k != i ==> s1.rows@[k] == s0.rows@[k]
                &&& written_row(s0.rows@[i as int], s1.rows@[i as int], bytes, now)
            } else {
                r == Err::<(), VfsError>(VfsError::NotAFile) && s1 == s0
            },
        },
        _ => r == Err::<(), VfsError>(VfsError::FileNotFound) && s1 == s0
    }
}

/// Replaces the content of the existing file at `path` with the bytes that
/// the base64 text `content` decodes to; never creates a node.
pub fn write_file_content(store: &mut Store, user_id: i64, path: &str, content: &str, now: i64) -> (r:
    Result<(), VfsError>)
    requires
        old(store).wf(),
    ensures
        final(store).wf(),
        write_post(*old(store), *final(store), user_id, path@, content@, now, r),
{
    let i = match get_path_id(store, user_id, path) {
        PathTarget::Node(i) => i,
        _ => return Err(VfsError::FileNotFound),
    };
    let bytes = match decode_base64(content) {
        Some(b) => b,
        None => return Err(VfsError::InvalidContent),
    };
    let location = match &store.rows[i].blob {
        Some(b) => b.location.clone(),
        None => return Err(VfsError::NotAFile),
    };
    let old_row = &store.rows[i];
    let size = bytes.len() as i64;
    let row = FileRow {
        id: old_row.id,
        owner_id: old_row.owner_id,
        parent_id: old_row.parent_id,
        name: old_row.name.clone(),
        node_type: old_row.node_type,
        blob: Some(Blob { location, data: bytes }),
        original_path: old_row.original_path.clone(),
        size,
        updated_at: now,
        is_trashed: old_row.is_trashed,
        trashed_at: old_row.trashed_at,
    };
    let ghost old_rows = store.rows@;
    store.rows[i] = row;
    proof {
        assert(store.rows@ == old_rows.update(i as int, row));
        assert forall|a: int, b: int|
            0 <= a < store.rows@.len() && 0 <= b < store.rows@.len() && a != b implies (
            #[trigger] store.rows@[a]).id != (#[trigger] store.rows@[b]).id by {
            assert(store.rows@[a].id == old_rows[a].id);
            assert(store.rows@[b].id == old_rows[b].id);
        }
        assert forall|a: int| 0 <= a < store.rows@.len() implies 1 <= (
        #[trigger] store.rows@[a]).id < store.next_id by {
            assert(store.rows@[a].id == old_rows[a].id);
        }
        assert forall|a: int| 0 <= a < store.rows@.len() implies row_wf(#[trigger] store.rows@[a]) by {
            if a != i as int {
                assert(store.rows@[a] == old_rows[a]);
            }
        }
    }
    Ok(())
}

/// Replaces the row at `i` by one with the same id.
fn set_row(store: &mut Store, i: usize, row: FileRow)
    requires
        old(store).wf(),
        i < old(store).rows.len(),
        row.id == old(store).rows@[i as int].id,
        row_wf(row),
    ensures
        final(store).wf(),
        final(store).next_id == old(store).next_id,
        final(store).rows@ == old(store).rows@.update(i as int, row),
{
    let ghost old_rows = store.rows@;
    store.rows[i] = row;
    proof {
        assert forall|a: int, b: int|
            0 <= a < store.rows@.len() && 0 <= b < store.rows@.len() && a != b implies (
            #[trigger] store.rows@[a]).id != (#[trigger] store.rows@[b]).id by {
            assert(store.rows@[a].id == old_rows[a].id);
            assert(store.rows@[b].id == old_rows[b].id);
        }
        assert forall|a: int| 0 <= a < store.rows@.len() implies 1 <= (
        #[trigger] store.rows@[a]).id < store.next_id by {
            assert(store.rows@[a].id == old_rows[a].id);
        }
        assert forall|a: int| 0 <= a < store.rows@.len() implies row_wf(#[trigger] store.rows@[a]) by {
            if a != i as int {
                assert(store.rows@[a] == old_rows[a]);
            }
        }
    }
}

/// What `trash_node` promises: `s0` before, `s1` after, `r` its result.
pub open spec fn trash_post(s0: Store, s1: Store, user_id: i64, path: Seq<char>, now: i64, r: Result<(), VfsError>) -> bool {
    match locate(s0.rows@, user_id, path) {
        PathTarget::Node(i) => {
            &&& r is Ok
            &&& s1.next_id == s0.next_id
            &&& s1.rows@.len() == s0.rows@.len()
            &&& forall|k: int| 0 <= k < s0.rows@.len() && k != i ==> s1.rows@[k] == s0.rows@[k]
            &&& trash_state_row(s0.rows@[i as int], s1.rows@[i as int], true, Some(now))
        },
        _ => r == Err::<(), VfsError>(VfsError::NodeNotFound) && s1 == s0
    }
}

/// Moves the node at `path` to the trash. Only that node is flagged: its
/// descendants keep their state and become unreachable by path.
pub fn trash_node(store: &mut Store, user_id: i64, path: &str, now: i64) -> (r: Result<(), VfsError>)
    requires
        old(store).wf(),
    ensures
        final(store).wf(),
        trash_post(*old(store), *final(store), user_id, path@, now, r),
{
    let i = match get_path_id(store, user_id, path) {
        PathTarget::Node(i) => i,
        _ => return Err(VfsError::NodeNotFound),
    };
    let row = with_trash_state(&store.rows[i], true, Some(now));
    set_row(store, i, row);
    Ok(())
}

/// The index of the first row with this id and owner (and trashed, where
/// `trashed_only` holds).
fn find_by_id(rows: &Vec<FileRow>, owner: i64, id: i64, trashed_only: bool) -> (r: Option<usize>)
    ensures
        match r {
            Some(i) => first_with_id(rows@, owner, id, trashed_only, 0) == Some(i as int) && i < rows.len(),
            None => first_with_id(rows@, owner, id, trashed_only, 0) is None,
        },
{
    let mut i: usize = 0;
    while i < rows.len()
        invariant
            0 <= i <= rows.len(),
            first_with_id(rows@, owner, id, trashed_only, 0) == first_with_id(rows@, owner, id, trashed_only, i as int),
        decreases rows.len() - i,
    {
        let row = &rows[i];
        if row.id == id && row.owner_id == owner && (!trashed_only || row.is_trashed) {
            return Some(i);
        }
        i = i + 1;
    }
    None
}

/// What `restore_node` promises: `s0` before, `s1` after, `r` its result.
pub open spec fn restore_post(s0: Store, s1: Store, user_id: i64, node_id: i64, r: Result<String, VfsError>) -> bool {
    match first_with_id(s0.rows@, user_id, node_id, false, 0) {
        Some(i) => {
            &&& r matches Ok(p) && p@ == s0.rows@[i].original_path@
            &&& s1.next_id == s0.next_id
            &&& s1.rows@.len() == s0.rows@.len()
            &&& forall|k: int| 0 <= k < s0.rows@.len() && k != i ==> s1.rows@[k] == s0.rows@[k]
            &&& trash_state_row(s0.rows@[i], s1.rows@[i], false, None)
        },
        None => r == Err::<String, VfsError>(VfsError::NodeNotFound) && s1 == s0
    }
}

/// Takes the node with id `node_id` out of the trash and returns the path it
/// was created or last moved at. Its parent is not checked to still exist.
pub fn restore_node(store: &mut Store, user_id: i64, node_id: i64) -> (r: Result<String, VfsError>)
    requires
        old(store).wf(),
    ensures
        final(store).wf(),
        restore_post(*old(store), *final(store), user_id, node_id, r),
{
    let i = match find_by_id(&store.rows, user_id, node_id, false) {
        Some(i) => i,
        None => return Err(VfsError::NodeNotFound),
    };
    let original_path = store.rows[i].original_path.clone();
    let row = with_trash_state(&store.rows[i], false, None);
    set_row(store, i, row);
    Ok(original_path)
}

/// What `permanently_delete_node` promises: `s0` before, `s1` after.
pub open spec fn delete_post(s0: Store, s1: Store, user_id: i64, node_id: i64) -> bool {
    &&& s1.next_id == s0.next_id
    &&& match first_with_id(s0.rows@, user_id, node_id, true, 0) {
        Some(i) => s1.rows@ == s0.rows@.remove(i),
        None => s1 == s0
    }
}

/// Removes the trashed node with id `node_id`, and with it its blob. A node
/// that is not in the trash is left as it is.
pub fn permanently_delete_node(store: &mut Store, user_id: i64, node_id: i64)
    requires
        old(store).wf(),
    ensures
        final(store).wf(),
        delete_post(*old(store), *final(store), user_id, node_id),
{
    match find_by_id(&store.rows, user_id, node_id, true) {
        Some(i) => {
            let ghost old_rows = store.rows@;
            store.rows.remove(i);
            proof {
                assert forall|a: int, b: int|
                    0 <= a < store.rows@.len() && 0 <= b < store.rows@.len() && a != b implies (
                    #[trigger] store.rows@[a]).id != (#[trigger] store.rows@[b]).id by {
                    let oa = if a < i { a } else { a + 1 };
                    let ob = if b < i { b } else { b + 1 };
                    assert(store.rows@[a] == old_rows[oa]);
                    assert(store.rows@[b] == old_rows[ob]);
                }
                assert forall|a: int| 0 <= a < store.rows@.len() implies 1 <= (
                #[trigger] store.rows@[a]).id < store.next_id && row_wf(store.rows@[a]) by {
                    let oa = if a < i { a } else { a + 1 };
                    assert(store.rows@[a] == old_rows[oa]);
                }
            }
        },
        None => {},
    }
}

/// What `empty_trash` promises: `s0` before, `s1` after.
pub open spec fn empty_trash_post(s0: Store, s1: Store, user_id: i64) -> bool {
    &&& s1.next_id == s0.next_id
    &&& s1.rows@ == kept_rows(s0.rows@, user_id)
}

/// Removes every trashed node of `user_id`, with their blobs.
pub fn empty_trash(store: &mut Store, user_id: i64)
    requires
        old(store).wf(),
    ensures
        final(store).wf(),
        empty_trash_post(*old(store), *final(store), user_id),
{
    let mut rows = Vec::new();
    std::mem::swap(&mut rows, &mut store.rows);
    let ghost all = rows@;
    let mut kept: Vec<FileRow> = Vec::new();
    let ghost mut origin: Seq<int> = Seq::empty();
    proof {
        assert(all.subrange(0, 0) =~= Seq::<FileRow>::empty());
    }
    let n = rows.len();
    let mut src = rows;
    let mut i: usize = 0;
    while i < n
        invariant
            n == all.len(),
            0 <= i <= n,
            src@ == all.subrange(i as int, n as int),
            kept@ == kept_rows(all.subrange(0, i as int), user_id),
            origin.len() == kept@.len(),
            forall|k: int| 0 <= k < origin.len() ==> 0 <= #[trigger] origin[k] < i && kept@[k] == all[origin[k]],
            forall|k: int, l: int| 0 <= k < l < origin.len() ==> #[trigger] origin[k] < #[trigger] origin[l],
        decreases n - i,
    {
        let row = src.remove(0);
        proof {
            assert(row == all[i as int]);
            assert(all.subrange(0, i as int + 1).drop_last() =~= all.subrange(0, i as int));
            assert(src@ =~= all.subrange(i as int + 1, n as int));
        }
        if !(row.owner_id == user_id && row.is_trashed) {
            kept.push(row);
            proof {
                origin = origin.push(i as int);
            }
        }
        i = i + 1;
    }
    proof {
        assert(all.subrange(0, n as int) =~= all);
        assert forall|a: int, b: int|
            0 <= a < kept@.len() && 0 <= b < kept@.len() && a != b implies (
            #[trigger] kept@[a]).id != (#[trigger] kept@[b]).id by {
            if a < b {
                assert(origin[a] < origin[b]);
            } else {
                assert(origin[b] < origin[a]);
            }
        }
        assert forall|a: int| 0 <= a < kept@.len() implies 1 <= (#[trigger] kept@[a]).id < store.next_id
            && row_wf(kept@[a]) by {
            assert(kept@[a] == all[origin[a]]);
        }
    }
    store.rows = kept;
}

/// What `move_node` promises: `s0` before, `s1` after, `r` its result.
pub open spec fn move_post(s0: Store, s1: Store, user_id: i64, old_path: Seq<char>, new_path: Seq<char>, now: i64, r: Result<(), VfsError>) -> bool {
    ({
        let comps = components(new_path);
        match locate(s0.rows@, user_id, old_path) {
            PathTarget::Node(i) => if !names_node(comps) {
                r == Err::<(), VfsError>(VfsError::InvalidNewPath) && s1 == s0
            } else {
                &&& r is Ok
                &&& s1.next_id == s0.next_id
                &&& s1.rows@.len() == s0.rows@.len()
                &&& forall|k: int| 0 <= k < s0.rows@.len() && k != i ==> s1.rows@[k] == s0.rows@[k]
                &&& moved_row(
                    s0.rows@[i as int],
                    s1.rows@[i as int],
                    parent_ref(s0.rows@, walk(s0.rows@, user_id, comps.drop_last())),
                    comps.last(),
                    new_path,
                    now,
                )
            },
            _ => r == Err::<(), VfsError>(VfsError::SourceNotFound) && s1 == s0,
        }
    })
}

/// Moves the node at `old_path` to `new_path`: it takes the last component
/// of `new_path` as its name and the node that the rest leads to as its
/// parent, or the root where that leads nowhere. No collision check is made.
pub fn move_node(store: &mut Store, user_id: i64, old_path: &str, new_path: &str, now: i64) -> (r:
    Result<(), VfsError>)
    requires
        old(store).wf(),
    ensures
        final(store).wf(),
        move_post(*old(store), *final(store), user_id, old_path@, new_path@, now, r),
{
    let i = match get_path_id(store, user_id, old_path) {
        PathTarget::Node(i) => i,
        _ => return Err(VfsError::SourceNotFound),
    };
    let (parent_comps, last) = split_parent(new_path);
    let name_chars = match last {
        Some(n) => n,
        None => return Err(VfsError::InvalidNewPath),
    };
    if is_dot_exec(&name_chars) {
        return Err(VfsError::InvalidNewPath);
    }
    let parent_id = match walk_components(&store.rows, user_id, &parent_comps) {
        PathTarget::Node(j) => Some(store.rows[j].id),
        _ => None,
    };
    let old_row = &store.rows[i];
    let row = FileRow {
        id: old_row.id,
        owner_id: old_row.owner_id,
        parent_id,
        name: string_of(&name_chars),
        node_type: old_row.node_type,
        blob: clone_blob(&old_row.blob),
        original_path: String::from_str(new_path),
        size: old_row.size,
        updated_at: now,
        is_trashed: old_row.is_trashed,
        trashed_at: old_row.trashed_at,
    };
    set_row(store, i, row);
    Ok(())
}

/// Lexicographic order on characters, from position `k` on.
pub open spec fn chars_le_from(a: Seq<char>, b: Seq<char>, k: int) -> bool
    decreases a.len() - k,
{
    if k < 0 || k >= a.len() {
        true
    } else if k >= b.len() {
        false
    } else if a[k] != b[k] {
        a[k] < b[k]
    } else {
        chars_le_from(a, b, k + 1)
    }
}

/// `a` comes no later than `b` in lexicographic order.
pub open spec fn chars_le(a: Seq<char>, b: Seq<char>) -> bool {
    chars_le_from(a, b, 0)
}

proof fn lemma_chars_le_total(a: Seq<char>, b: Seq<char>, k: int)
    requires
        k >= 0,
    ensures
        chars_le_from(a, b, k) || chars_le_from(b, a, k),
    decreases a.len() - k,
{
    if k < a.len() && k < b.len() && a[k] == b[k] {
        lemma_chars_le_total(a, b, k + 1);
    }
}

fn name_le(a: &String, b: &String) -> (r: bool)
    ensures
        r == chars_le(a@, b@),
{
    let ca = chars_of(a.as_str());
    let cb = chars_of(b.as_str());
    let mut k: usize = 0;
    while k < ca.len()
        invariant
            ca@ == a@,
            cb@ == b@,
            chars_le(a@, b@) == chars_le_from(a@, b@, k as int),
        decreases ca.len() - k,
    {
        if k >= cb.len() {
            return false;
        }
        if ca[k] != cb[k] {
            return ca[k] < cb[k];
        }
        k = k + 1;
    }
    true
}

/// The listing entry of a row.
pub open spec fn node_of(row: FileRow) -> FileNode {
    FileNode { name: row.name, node_type: row.node_type, size: row.size, updated_at: row.updated_at }
}

/// `row` is a not-trashed child of `parent`, owned by `owner`.
pub open spec fn is_listed(row: FileRow, owner: i64, parent: Option<i64>) -> bool {
    row.owner_id == owner && row.parent_id == parent && !row.is_trashed
}

/// The entries for the not-trashed children of `parent`, in store order.
pub open spec fn listing(rows: Seq<FileRow>, owner: i64, parent: Option<i64>) -> Seq<FileNode>
    decreases rows.len(),
{
    if rows.len() == 0 {
        Seq::empty()
    } else {
        let r = listing(rows.drop_last(), owner, parent);
        if is_listed(rows.last(), owner, parent) {
            r.push(node_of(rows.last()))
        } else {
            r
        }
    }
}

/// Directories come before files; within a kind, names ascend.
pub open spec fn listed_before(a: FileNode, b: FileNode) -> bool {
    (a.node_type == NodeType::Dir && b.node_type == NodeType::File) || (a.node_type == b.node_type
        && chars_le(a.name@, b.name@))
}

pub open spec fn sorted_listing(s: Seq<FileNode>) -> bool {
    forall|i: int| 0 <= i < s.len() - 1 ==> listed_before(#[trigger] s[i], s[i + 1])
}

/// The trash entry of a row.
pub open spec fn trash_entry_of(row: FileRow) -> TrashedFileNode {
    TrashedFileNode {
        id: row.id,
        name: row.name,
        original_path: row.original_path,
        trashed_at: match row.trashed_at {
            Some(t) => t,
            None => 0,
        },
    }
}

/// The entries for `owner`'s trashed rows, in store order.
pub open spec fn trash_listing(rows: Seq<FileRow>, owner: i64) -> Seq<TrashedFileNode>
    decreases rows.len(),
{
    if rows.len() == 0 {
        Seq::empty()
    } else {
        let r = trash_listing(rows.drop_last(), owner);
        if rows.last().owner_id == owner && rows.last().is_trashed {
            r.push(trash_entry_of(rows.last()))
        } else {
            r
        }
    }
}

/// Newest first.
pub open spec fn sorted_trash(s: Seq<TrashedFileNode>) -> bool {
    forall|i: int| 0 <= i < s.len() - 1 ==> (#[trigger] s[i]).trashed_at >= s[i + 1].trashed_at
}

fn node_before(a: &FileNode, b: &FileNode) -> (r: bool)
    ensures
        r == listed_before(*a, *b),
{
    match (a.node_type, b.node_type) {
        (NodeType::Dir, NodeType::File) => true,
        (NodeType::File, NodeType::Dir) => false,
        _ => name_le(&a.name, &b.name),
    }
}

fn insert_listing(v: &mut Vec<FileNode>, x: FileNode)
    requires
        sorted_listing(old(v)@),
    ensures
        sorted_listing(final(v)@),
        final(v)@.to_multiset() == old(v)@.to_multiset().insert(x),
{
    let mut k: usize = 0;
    while k < v.len() && !node_before(&x, &v[k])
        invariant
            0 <= k <= v.len(),
            forall|j: int| 0 <= j < k ==> !listed_before(x, #[trigger] v@[j]),
        decreases v.len() - k,
    {
        k = k + 1;
    }
    let ghost s = v@;
    proof {
        if k > 0 {
            lemma_chars_le_total(x.name@, s[k - 1].name@, 0);
            assert(!listed_before(x, s[k - 1]));
            assert(listed_before(s[k - 1], x));
        }
    }
    v.insert(k, x);
    proof {
        vstd::seq_lib::to_multiset_insert(s, k as int, x);
        let t = v@;
        assert(t == s.insert(k as int, x));
        assert forall|i: int| 0 <= i < t.len() - 1 implies listed_before(#[trigger] t[i], t[i + 1]) by {
            if i + 1 < k {
                assert(t[i] == s[i] && t[i + 1] == s[i + 1]);
            } else if i + 1 == k {
                assert(t[i] == s[k - 1] && t[i + 1] == x);
            } else if i == k {
                assert(t[i] == x && t[i + 1] == s[k as int]);
            } else {
                assert(t[i] == s[i - 1] && t[i + 1] == s[i]);
            }
        }
    }
}

fn insert_trash_entry(v: &mut Vec<TrashedFileNode>, x: TrashedFileNode)
    requires
        sorted_trash(old(v)@),
    ensures
        sorted_trash(final(v)@),
        final(v)@.to_multiset() == old(v)@.to_multiset().insert(x),
{
    let mut k: usize = 0;
    while k < v.len() && v[k].trashed_at >= x.trashed_at
        invariant
            0 <= k <= v.len(),
            forall|j: int| 0 <= j < k ==> (#[trigger] v@[j]).trashed_at >= x.trashed_at,
        decreases v.len() - k,
    {
        k = k + 1;
    }
    let ghost s = v@;
    v.insert(k, x);
    proof {
        vstd::seq_lib::to_multiset_insert(s, k as int, x);
        let t = v@;
        assert(t == s.insert(k as int, x));
        assert forall|i: int| 0 <= i < t.len() - 1 implies (#[trigger] t[i]).trashed_at >= t[i + 1].trashed_at by {
            if i + 1 < k {
                assert(t[i] == s[i] && t[i + 1] == s[i + 1]);
            } else if i + 1 == k {
                assert(t[i] == s[k - 1] && t[i + 1] == x);
            } else if i == k {
                assert(t[i] == x && t[i + 1] == s[k as int]);
            } else {
                assert(t[i] == s[i - 1] && t[i + 1] == s[i]);
            }
        }
    }
}

/// What `list_directory` promises of its result `r` on the store `s`.
pub open spec fn list_post(s: Store, user_id: i64, path: Seq<char>, r: Result<Vec<FileNode>, VfsError>) -> bool {
    match locate(s.rows@, user_id, path) {
        PathTarget::Missing => r == Err::<Vec<FileNode>, VfsError>(VfsError::DirectoryNotFound),
        t => r matches Ok(items) && sorted_listing(items@) && items@.to_multiset() == listing(
            s.rows@,
            user_id,
            parent_ref(s.rows@, t),
        ).to_multiset(),
    }
}

/// The not-trashed children of the directory at `path`: directories first,
/// then files, each kind by ascending name. Entries with equal name and kind
/// come in no promised order.
pub fn list_directory(store: &Store, user_id: i64, path: &str) -> (r: Result<Vec<FileNode>, VfsError>)
    ensures
        list_post(*store, user_id, path@, r),
{
    let t = get_path_id(store, user_id, path);
    let parent = match t {
        PathTarget::Missing => return Err(VfsError::DirectoryNotFound),
        PathTarget::Root => None,
        PathTarget::Node(j) => Some(store.rows[j].id),
    };
    let rows = &store.rows;
    let mut items: Vec<FileNode> = Vec::new();
    let mut i: usize = 0;
    proof {
        assert(rows@.subrange(0, 0) =~= Seq::<FileRow>::empty());
    }
    while i < rows.len()
        invariant
            0 <= i <= rows.len(),
            sorted_listing(items@),
            items@.to_multiset() == listing(rows@.subrange(0, i as int), user_id, parent).to_multiset(),
        decreases rows.len() - i,
    {
        let row = &rows[i];
        proof {
            assert(rows@.subrange(0, i as int + 1).drop_last() =~= rows@.subrange(0, i as int));
            assert(rows@.subrange(0, i as int + 1).last() == rows@[i as int]);
        }
        if row.owner_id == user_id && same_parent(row.parent_id, parent) && !row.is_trashed {
            let node = FileNode {
                name: row.name.clone(),
                node_type: row.node_type,
                size: row.size,
                updated_at: row.updated_at,
            };
            let ghost before = listing(rows@.subrange(0, i as int), user_id, parent);
            insert_listing(&mut items, node);
            proof {
                vstd::seq_lib::to_multiset_build(before, node);
            }
        }
        i = i + 1;
    }
    proof {
        assert(rows@.subrange(0, rows.len() as int) =~= rows@);
    }
    Ok(items)
}

/// What `list_trash` promises of its result `r` on the store `s`.
pub open spec fn list_trash_post(s: Store, user_id: i64, r: Vec<TrashedFileNode>) -> bool {
    &&& sorted_trash(r@)
    &&& r@.to_multiset() == trash_listing(s.rows@, user_id).to_multiset()
}

/// The trashed nodes of `user_id`, most recently trashed first.
pub fn list_trash(store: &Store, user_id: i64) -> (r: Vec<TrashedFileNode>)
    ensures
        list_trash_post(*store, user_id, r),
{
    let rows = &store.rows;
    let mut items: Vec<TrashedFileNode> = Vec::new();
    let mut i: usize = 0;
    proof {
        assert(rows@.subrange(0, 0) =~= Seq::<FileRow>::empty());
    }
    while i < rows.len()
        invariant
            0 <= i <= rows.len(),
            sorted_trash(items@),
            items@.to_multiset() == trash_listing(rows@.subrange(0, i as int), user_id).to_multiset(),
        decreases rows.len() - i,
    {
        let row = &rows[i];
        proof {
            assert(rows@.subrange(0, i as int + 1).drop_last() =~= rows@.subrange(0, i as int));
            assert(rows@.subrange(0, i as int + 1).last() == rows@[i as int]);
        }
        if row.owner_id == user_id && row.is_trashed {
            let entry = TrashedFileNode {
                id: row.id,
                name: row.name.clone(),
                original_path: row.original_path.clone(),
                trashed_at: match row.trashed_at {
                    Some(t) => t,
                    None => 0,
                },
            };
            let ghost before = trash_listing(rows@.subrange(0, i as int), user_id);
            insert_trash_entry(&mut items, entry);
            proof {
                vstd::seq_lib::to_multiset_build(before, entry);
            }
        }
        i = i + 1;
    }
    proof {
        assert(rows@.subrange(0, rows.len() as int) =~= rows@);
    }
    items
}

} // verus!
