//! Laws that relate the filesystem operations to one another.
use vstd::prelude::*;

use crate::codec::{base64_decoded, base64_of};
use crate::path::components;
use crate::protocol::{FileNode, NodeType, TrashedFileNode};
use crate::vfs::{
    create_post, delete_post, first_child, list_post, first_with_id, is_child, is_listed,
    lemma_first_child_bound, lemma_walk_finds_live_row, listing, locate, node_of, parent_ref,
    read_post, restore_post, trash_entry_of, trash_listing, trash_post, walk, write_post, FileRow,
    PathTarget, Store, VfsError,
};

verus! {

/// The fields that path lookup reads are the same in `a` and `b`.
pub open spec fn same_keys(a: FileRow, b: FileRow) -> bool {
    a.id == b.id && a.owner_id == b.owner_id && a.parent_id == b.parent_id && a.name@ == b.name@
        && a.is_trashed == b.is_trashed
}

pub open spec fn all_same_keys(a: Seq<FileRow>, b: Seq<FileRow>) -> bool {
    a.len() == b.len() && forall|k: int| 0 <= k < a.len() ==> same_keys(#[trigger] a[k], b[k])
}

proof fn lemma_first_child_push(
    rows: Seq<FileRow>,
    x: FileRow,
    owner: i64,
    parent: Option<i64>,
    name: Seq<char>,
    from: int,
)
    requires
        0 <= from <= rows.len(),
    ensures
        first_child(rows.push(x), owner, parent, name, from) == match first_child(
            rows,
            owner,
            parent,
            name,
            from,
        ) {
            Some(i) => Some(i),
            None => if is_child(x, owner, parent, name) {
                Some(rows.len() as int)
            } else {
                None
            },
        },
    decreases rows.len() - from,
{
    let big = rows.push(x);
    if from < rows.len() {
        assert(big[from] == rows[from]);
        if !is_child(rows[from], owner, parent, name) {
            lemma_first_child_push(rows, x, owner, parent, name, from + 1);
        }
    } else {
        assert(big[from] == x);
        if !is_child(x, owner, parent, name) {
            assert(first_child(big, owner, parent, name, from + 1) is None);
        }
    }
}

proof fn lemma_first_child_same_keys(
    a: Seq<FileRow>,
    b: Seq<FileRow>,
    owner: i64,
    parent: Option<i64>,
    name: Seq<char>,
    from: int,
)
    requires
        all_same_keys(a, b),
    ensures
        first_child(a, owner, parent, name, from) == first_child(b, owner, parent, name, from),
    decreases a.len() - from,
{
    if 0 <= from < a.len() {
        assert(same_keys(a[from], b[from]));
        lemma_first_child_same_keys(a, b, owner, parent, name, from + 1);
    }
}

/// A path that leads somewhere keeps leading there when a row is added.
proof fn lemma_walk_push(rows: Seq<FileRow>, x: FileRow, owner: i64, comps: Seq<Seq<char>>)
    requires
        rows.len() < usize::MAX,
        !(walk(rows, owner, comps) is Missing),
    ensures
        walk(rows.push(x), owner, comps) == walk(rows, owner, comps),
        walk(rows, owner, comps) matches PathTarget::Node(j) ==> j < rows.len(),
    decreases comps.len(),
{
    if comps.len() > 0 {
        let d = comps.drop_last();
        let t = walk(rows, owner, d);
        lemma_walk_push(rows, x, owner, d);
        let pr = parent_ref(rows, t);
        if let PathTarget::Node(j) = t {
            assert(rows.push(x)[j as int] == rows[j as int]);
        }
        assert(parent_ref(rows.push(x), t) == pr);
        lemma_first_child_push(rows, x, owner, pr, comps.last(), 0);
        lemma_first_child_bound(rows, owner, pr, comps.last(), 0);
    }
}

/// Path lookup reads only ids, owners, parents, names and trash flags.
pub proof fn lemma_walk_same_keys(a: Seq<FileRow>, b: Seq<FileRow>, owner: i64, comps: Seq<Seq<char>>)
    requires
        all_same_keys(a, b),
    ensures
        walk(a, owner, comps) == walk(b, owner, comps),
    decreases comps.len(),
{
    if comps.len() > 0 {
        let d = comps.drop_last();
        lemma_walk_same_keys(a, b, owner, d);
        let t = walk(a, owner, d);
        if let PathTarget::Node(j) = t {
            if 0 <= j < a.len() {
                assert(same_keys(a[j as int], b[j as int]));
            }
        }
        assert(parent_ref(a, t) == parent_ref(b, t)) by {
            if let PathTarget::Node(j) = t {
                if j < a.len() {
                    assert(same_keys(a[j as int], b[j as int]));
                } else {
                    // Out of range a walk never gets: a found index is in range.
                    lemma_first_child_bound(a, owner, parent_ref(a, walk(a, owner, d.drop_last())), d.last(), 0);
                }
            }
        }
        lemma_first_child_same_keys(a, b, owner, parent_ref(a, t), comps.last(), 0);
    }
}

/// Creating a file where no node is yet, and then reading it, gives empty
/// content: the encoding of no bytes, which is the empty text.
pub proof fn lemma_create_then_read(
    s0: Store,
    s1: Store,
    user_id: i64,
    path: Seq<char>,
    now: i64,
    location: Seq<char>,
    r: Result<(), VfsError>,
    read: Result<String, VfsError>,
)
    requires
        s0.wf(),
        s0.rows@.len() < usize::MAX,
        locate(s0.rows@, user_id, path) is Missing,
        create_post(s0, s1, user_id, path, NodeType::File, now, location, r),
        r is Ok,
        read_post(s1, user_id, path, read),
    ensures
        read matches Ok(t) && t@ == base64_of(Seq::empty()) && t@.len() == 0,
{
    lemma_create_at_missing(s0, s1, user_id, path, NodeType::File, now, location, r);
    if let Some(b) = s1.rows@.last().blob {
        assert(b.data@ =~= Seq::<u8>::empty());
    }
}

/// Creating at a path that led nowhere makes it lead to the new row.
proof fn lemma_create_at_missing(
    s0: Store,
    s1: Store,
    user_id: i64,
    path: Seq<char>,
    node_type: NodeType,
    now: i64,
    location: Seq<char>,
    r: Result<(), VfsError>,
)
    requires
        s0.wf(),
        s0.rows@.len() < usize::MAX,
        locate(s0.rows@, user_id, path) is Missing,
        create_post(s0, s1, user_id, path, node_type, now, location, r),
        r is Ok,
    ensures
        locate(s1.rows@, user_id, path) == PathTarget::Node(s0.rows@.len() as usize),
        s1.rows@[s0.rows@.len() as int] == s1.rows@.last(),
{
    let comps = components(path);
    let d = comps.drop_last();
    let x = s1.rows@.last();
    assert(s1.rows@ == s0.rows@.push(x)) by {
        assert(s1.rows@ =~= s1.rows@.drop_last().push(x));
    }
    let t = walk(s0.rows@, user_id, d);
    lemma_walk_push(s0.rows@, x, user_id, d);
    let pr = parent_ref(s0.rows@, t);
    if let PathTarget::Node(j) = t {
        assert(s1.rows@[j as int] == s0.rows@[j as int]);
    }
    assert(parent_ref(s1.rows@, t) == pr);
    lemma_first_child_push(s0.rows@, x, user_id, pr, comps.last(), 0);
}

/// Creating a node where none was, then trashing its path, leaves exactly
/// one trash entry with the new id, carrying the path it was created at and
/// its name.
pub proof fn lemma_create_then_trash(
    s0: Store,
    s1: Store,
    s2: Store,
    user_id: i64,
    path: Seq<char>,
    node_type: NodeType,
    now: i64,
    location: Seq<char>,
    r1: Result<(), VfsError>,
    later: i64,
    r2: Result<(), VfsError>,
)
    requires
        s0.wf(),
        s0.rows@.len() < usize::MAX,
        locate(s0.rows@, user_id, path) is Missing,
        create_post(s0, s1, user_id, path, node_type, now, location, r1),
        r1 is Ok,
        s1.wf(),
        trash_post(s1, s2, user_id, path, later, r2),
    ensures
        r2 is Ok,
        entries_with_id(trash_listing(s2.rows@, user_id), s0.next_id) == 1,
        exists|e: TrashedFileNode|
            #[trigger] trash_listing(s2.rows@, user_id).contains(e) && e.id == s0.next_id
                && e.original_path@ == path && e.name@ == components(path).last(),
{
    lemma_create_at_missing(s0, s1, user_id, path, node_type, now, location, r1);
    let n = s0.rows@.len() as int;
    let id = s0.next_id;
    assert forall|k: int| 0 <= k < s2.rows@.len() && k != n implies (#[trigger] s2.rows@[k]).id
        != id by {
        assert(s2.rows@[k] == s1.rows@[k]);
        assert(s1.rows@[k].id != s1.rows@[n].id);
    }
    lemma_count_unique(s2.rows@, user_id, id, n);
    lemma_count_listing(s2.rows@, user_id, id);
    lemma_trash_listing_has(s2.rows@, user_id, n);
    let e = trash_entry_of(s2.rows@[n]);
    assert(trash_listing(s2.rows@, user_id).contains(e));
}

/// After a successful create, the path leads to a node: the new one, or
/// an earlier same-named sibling that lookup finds first.
pub proof fn lemma_create_leads_there(
    s0: Store,
    s1: Store,
    user_id: i64,
    path: Seq<char>,
    node_type: NodeType,
    now: i64,
    location: Seq<char>,
    r: Result<(), VfsError>,
)
    requires
        s0.wf(),
        s0.rows@.len() < usize::MAX,
        create_post(s0, s1, user_id, path, node_type, now, location, r),
        r is Ok,
    ensures
        locate(s1.rows@, user_id, path) is Node,
        forall|p: Seq<char>|
            !(#[trigger] locate(s0.rows@, user_id, p) is Missing) ==> locate(s1.rows@, user_id, p)
                == locate(s0.rows@, user_id, p),
{
    let comps = components(path);
    let d = comps.drop_last();
    let x = s1.rows@.last();
    assert(s1.rows@ == s0.rows@.push(x)) by {
        assert(s1.rows@ =~= s1.rows@.drop_last().push(x));
    }
    let t = walk(s0.rows@, user_id, d);
    lemma_walk_push(s0.rows@, x, user_id, d);
    let pr = parent_ref(s0.rows@, t);
    if let PathTarget::Node(j) = t {
        assert(s1.rows@[j as int] == s0.rows@[j as int]);
    }
    assert(parent_ref(s1.rows@, t) == pr);
    lemma_first_child_push(s0.rows@, x, user_id, pr, comps.last(), 0);
    assert forall|p: Seq<char>|
        !(#[trigger] locate(s0.rows@, user_id, p) is Missing) implies locate(s1.rows@, user_id, p)
            == locate(s0.rows@, user_id, p) by {
        lemma_walk_push(s0.rows@, x, user_id, components(p));
    }
}

/// Writing base64 text to an existing file and reading it back gives the
/// encoding of the bytes that the text decodes to.
pub proof fn lemma_write_then_read(
    s0: Store,
    s1: Store,
    user_id: i64,
    path: Seq<char>,
    content: Seq<char>,
    bytes: Seq<u8>,
    now: i64,
    r: Result<(), VfsError>,
    read: Result<String, VfsError>,
)
    requires
        base64_decoded(content) == Some(bytes),
        write_post(s0, s1, user_id, path, content, now, r),
        r is Ok,
        read_post(s1, user_id, path, read),
    ensures
        read matches Ok(t) && t@ == base64_of(bytes),
{
    let i = locate(s0.rows@, user_id, path)->Node_0;
    assert(all_same_keys(s0.rows@, s1.rows@)) by {
        assert forall|k: int| 0 <= k < s0.rows@.len() implies same_keys(#[trigger] s0.rows@[k], s1.rows@[k]) by {
            if k != i {
                assert(s1.rows@[k] == s0.rows@[k]);
            }
        }
    }
    lemma_walk_same_keys(s0.rows@, s1.rows@, user_id, components(path));
}

proof fn lemma_first_with_id_unique(rows: Seq<FileRow>, owner: i64, id: i64, i: int, from: int)
    requires
        0 <= from <= i < rows.len(),
        rows[i].id == id,
        rows[i].owner_id == owner,
        forall|k: int| 0 <= k < rows.len() && k != i ==> (#[trigger] rows[k]).id != id,
    ensures
        first_with_id(rows, owner, id, false, from) == Some(i),
    decreases i - from,
{
    if from < i {
        assert(rows[from].id != id);
        lemma_first_with_id_unique(rows, owner, id, i, from + 1);
    }
}

proof fn lemma_trash_listing_has(rows: Seq<FileRow>, owner: i64, i: int)
    requires
        0 <= i < rows.len(),
        rows[i].owner_id == owner,
        rows[i].is_trashed,
    ensures
        trash_listing(rows, owner).contains(trash_entry_of(rows[i])),
    decreases rows.len(),
{
    let d = rows.drop_last();
    if i < rows.len() - 1 {
        assert(d[i] == rows[i]);
        lemma_trash_listing_has(d, owner, i);
        let l = trash_listing(d, owner);
        let k = choose|k: int| 0 <= k < l.len() && l[k] == trash_entry_of(rows[i]);
        if rows.last().owner_id == owner && rows.last().is_trashed {
            assert(trash_listing(rows, owner)[k] == l[k]);
        }
    } else {
        let l = trash_listing(rows, owner);
        assert(l[l.len() - 1] == trash_entry_of(rows[i]));
    }
}

proof fn lemma_trash_listing_same(a: Seq<FileRow>, b: Seq<FileRow>, owner: i64)
    requires
        a.len() == b.len(),
        forall|k: int|
            0 <= k < a.len() ==> ((#[trigger] a[k]).owner_id == owner && a[k].is_trashed) == (
            b[k].owner_id == owner && b[k].is_trashed),
        forall|k: int|
            0 <= k < a.len() && (#[trigger] a[k]).owner_id == owner && a[k].is_trashed
                ==> trash_entry_of(a[k]) == trash_entry_of(b[k]),
    ensures
        trash_listing(a, owner) == trash_listing(b, owner),
    decreases a.len(),
{
    if a.len() > 0 {
        let da = a.drop_last();
        let db = b.drop_last();
        assert forall|k: int| 0 <= k < da.len() implies ((#[trigger] da[k]).owner_id == owner
            && da[k].is_trashed) == (db[k].owner_id == owner && db[k].is_trashed) by {
            assert(da[k] == a[k] && db[k] == b[k]);
        }
        assert forall|k: int|
            0 <= k < da.len() && (#[trigger] da[k]).owner_id == owner && da[k].is_trashed
                implies trash_entry_of(da[k]) == trash_entry_of(db[k]) by {
            assert(da[k] == a[k] && db[k] == b[k]);
        }
        lemma_trash_listing_same(da, db, owner);
        assert(a.last() == a[a.len() - 1] && b.last() == b[b.len() - 1]);
    }
}

proof fn lemma_listing_without(a: Seq<FileRow>, b: Seq<FileRow>, owner: i64, parent: Option<i64>, i: int)
    requires
        a.len() == b.len(),
        0 <= i < a.len(),
        forall|k: int| 0 <= k < a.len() && k != i ==> #[trigger] a[k] == b[k],
        is_listed(a[i], owner, parent),
        !is_listed(b[i], owner, parent),
    ensures
        listing(a, owner, parent).to_multiset() == listing(b, owner, parent).to_multiset().insert(
            node_of(a[i]),
        ),
    decreases a.len(),
{
    let n = a.len() - 1;
    let da = a.drop_last();
    let db = b.drop_last();
    if i == n {
        assert(da =~= db) by {
            assert forall|k: int| 0 <= k < da.len() implies da[k] == db[k] by {
                assert(a[k] == b[k]);
            }
        }
        assert(a.last() == a[i] && b.last() == b[i]);
        vstd::seq_lib::to_multiset_build(listing(da, owner, parent), node_of(a[i]));
    } else {
        assert forall|k: int| 0 <= k < da.len() && k != i implies #[trigger] da[k] == db[k] by {
            assert(a[k] == b[k]);
        }
        assert(da[i] == a[i] && db[i] == b[i]);
        lemma_listing_without(da, db, owner, parent, i);
        assert(a.last() == a[n] && b.last() == b[n] && a[n] == b[n]);
        let la = listing(da, owner, parent);
        let lb = listing(db, owner, parent);
        if is_listed(a.last(), owner, parent) {
            let x = node_of(a.last());
            vstd::seq_lib::to_multiset_build(la, x);
            vstd::seq_lib::to_multiset_build(lb, x);
            assert(la.to_multiset().insert(x) =~= lb.to_multiset().insert(node_of(a[i])).insert(x));
            assert(lb.to_multiset().insert(x).insert(node_of(a[i])) =~= lb.to_multiset().insert(
                node_of(a[i]),
            ).insert(x));
        }
    }
}

/// `e` is the trash entry of some trashed row of `owner`.
pub open spec fn entry_of_trashed_row(rows: Seq<FileRow>, owner: i64, e: TrashedFileNode) -> bool {
    exists|k: int|
        0 <= k < rows.len() && rows[k].owner_id == owner && rows[k].is_trashed && e
            == #[trigger] trash_entry_of(rows[k])
}

/// Every trash entry is the entry of a trashed row of the owner.
proof fn lemma_trash_listing_members(rows: Seq<FileRow>, owner: i64)
    ensures
        forall|j: int|
            0 <= j < trash_listing(rows, owner).len() ==> entry_of_trashed_row(
                rows,
                owner,
                #[trigger] trash_listing(rows, owner)[j],
            ),
    decreases rows.len(),
{
    if rows.len() > 0 {
        let d = rows.drop_last();
        lemma_trash_listing_members(d, owner);
        let l = trash_listing(d, owner);
        assert forall|j: int| 0 <= j < trash_listing(rows, owner).len() implies entry_of_trashed_row(
            rows,
            owner,
            #[trigger] trash_listing(rows, owner)[j],
        ) by {
            if j < l.len() {
                assert(trash_listing(rows, owner)[j] == l[j]);
                assert(entry_of_trashed_row(d, owner, l[j]));
                let k = choose|k: int|
                    0 <= k < d.len() && d[k].owner_id == owner && d[k].is_trashed && l[j]
                        == #[trigger] trash_entry_of(d[k]);
                assert(rows[k] == d[k]);
            } else {
                let k = rows.len() - 1;
                assert(rows[k] == rows.last());
                assert(trash_listing(rows, owner)[j] == trash_entry_of(rows[k]));
            }
        }
    }
}

/// How many entries of `l` carry `id`.
pub open spec fn entries_with_id(l: Seq<TrashedFileNode>, id: i64) -> nat
    decreases l.len(),
{
    if l.len() == 0 {
        0
    } else {
        entries_with_id(l.drop_last(), id) + if l.last().id == id {
            1nat
        } else {
            0nat
        }
    }
}

/// How many trashed rows of `owner` carry `id`.
pub open spec fn trashed_rows_with_id(rows: Seq<FileRow>, owner: i64, id: i64) -> nat
    decreases rows.len(),
{
    if rows.len() == 0 {
        0
    } else {
        trashed_rows_with_id(rows.drop_last(), owner, id) + if rows.last().owner_id == owner
            && rows.last().is_trashed && rows.last().id == id {
            1nat
        } else {
            0nat
        }
    }
}

proof fn lemma_count_listing(rows: Seq<FileRow>, owner: i64, id: i64)
    ensures
        entries_with_id(trash_listing(rows, owner), id) == trashed_rows_with_id(rows, owner, id),
    decreases rows.len(),
{
    if rows.len() > 0 {
        let d = rows.drop_last();
        lemma_count_listing(d, owner, id);
        let l = trash_listing(d, owner);
        if rows.last().owner_id == owner && rows.last().is_trashed {
            let e = trash_entry_of(rows.last());
            assert(l.push(e).drop_last() =~= l);
            assert(l.push(e).last() == e);
        }
    }
}

proof fn lemma_count_none(rows: Seq<FileRow>, owner: i64, id: i64)
    requires
        forall|k: int| 0 <= k < rows.len() ==> (#[trigger] rows[k]).id != id,
    ensures
        trashed_rows_with_id(rows, owner, id) == 0,
    decreases rows.len(),
{
    if rows.len() > 0 {
        let d = rows.drop_last();
        assert forall|k: int| 0 <= k < d.len() implies (#[trigger] d[k]).id != id by {
            assert(d[k] == rows[k]);
        }
        lemma_count_none(d, owner, id);
        assert(rows.last() == rows[rows.len() - 1]);
    }
}

/// With ids distinct, the count is one where the row with that id is a
/// trashed row of the owner, and none otherwise.
proof fn lemma_count_unique(rows: Seq<FileRow>, owner: i64, id: i64, i: int)
    requires
        0 <= i < rows.len(),
        rows[i].id == id,
        forall|k: int| 0 <= k < rows.len() && k != i ==> (#[trigger] rows[k]).id != id,
    ensures
        trashed_rows_with_id(rows, owner, id) == if rows[i].owner_id == owner && rows[i].is_trashed {
            1nat
        } else {
            0nat
        },
    decreases rows.len(),
{
    let d = rows.drop_last();
    let n = rows.len() - 1;
    assert(rows.last() == rows[n]);
    if i == n {
        assert forall|k: int| 0 <= k < d.len() implies (#[trigger] d[k]).id != id by {
            assert(d[k] == rows[k]);
        }
        lemma_count_none(d, owner, id);
    } else {
        assert forall|k: int| 0 <= k < d.len() && k != i implies (#[trigger] d[k]).id != id by {
            assert(d[k] == rows[k]);
        }
        assert(d[i] == rows[i]);
        lemma_count_unique(d, owner, id, i);
    }
}

proof fn lemma_first_with_id_found(rows: Seq<FileRow>, owner: i64, id: i64, trashed_only: bool, from: int)
    ensures
        first_with_id(rows, owner, id, trashed_only, from) matches Some(i) ==> 0 <= i < rows.len()
            && rows[i].id == id && rows[i].owner_id == owner,
    decreases rows.len() - from,
{
    if 0 <= from < rows.len() {
        lemma_first_with_id_found(rows, owner, id, trashed_only, from + 1);
    }
}

/// After a successful restore of `node_id`, no trash entry carries that id,
/// however the node came into the trash.
pub proof fn lemma_restore_clears_entry(
    s1: Store,
    s2: Store,
    user_id: i64,
    node_id: i64,
    r: Result<String, VfsError>,
)
    requires
        s1.wf(),
        restore_post(s1, s2, user_id, node_id, r),
        r is Ok,
    ensures
        entries_with_id(trash_listing(s2.rows@, user_id), node_id) == 0,
{
    lemma_first_with_id_found(s1.rows@, user_id, node_id, false, 0);
    let i = first_with_id(s1.rows@, user_id, node_id, false, 0)->0;
    assert forall|k: int| 0 <= k < s2.rows@.len() && k != i implies (#[trigger] s2.rows@[k]).id
        != node_id by {
        assert(s2.rows@[k] == s1.rows@[k]);
        assert(s1.rows@[k].id != s1.rows@[i].id);
    }
    lemma_count_unique(s2.rows@, user_id, node_id, i);
    lemma_count_listing(s2.rows@, user_id, node_id);
}

/// Trashing the node at `path` takes it out of reach by path and out of its
/// parent's listing, and puts an entry with its original path in the trash
/// listing; restoring that id
/// makes `path` lead where it led before and the trash listing what it was.
pub proof fn lemma_trash_then_restore(
    s0: Store,
    s1: Store,
    s2: Store,
    user_id: i64,
    path: Seq<char>,
    now: i64,
    r1: Result<(), VfsError>,
    r2: Result<String, VfsError>,
)
    requires
        s0.wf(),
        s0.rows@.len() <= usize::MAX,
        trash_post(s0, s1, user_id, path, now, r1),
        r1 is Ok,
        restore_post(s1, s2, user_id, s0.rows@[locate(s0.rows@, user_id, path)->Node_0 as int].id, r2),
    ensures
        ({
            let i = locate(s0.rows@, user_id, path)->Node_0 as int;
            &&& locate(s1.rows@, user_id, path) != PathTarget::Node(i as usize)
            &&& listing(s0.rows@, user_id, s0.rows@[i].parent_id).to_multiset() == listing(
                s1.rows@,
                user_id,
                s0.rows@[i].parent_id,
            ).to_multiset().insert(node_of(s0.rows@[i]))
            &&& trash_listing(s1.rows@, user_id).contains(trash_entry_of(s1.rows@[i]))
            &&& trash_entry_of(s1.rows@[i]).original_path@ == s0.rows@[i].original_path@
            &&& r2 matches Ok(p) && p@ == s0.rows@[i].original_path@
            &&& locate(s2.rows@, user_id, path) == locate(s0.rows@, user_id, path)
            &&& trash_listing(s2.rows@, user_id) == trash_listing(s0.rows@, user_id)
            &&& forall|j: int|
                0 <= j < trash_listing(s1.rows@, user_id).len() && (#[trigger] trash_listing(
                    s1.rows@,
                    user_id,
                )[j]).id == s0.rows@[i].id ==> trash_listing(s1.rows@, user_id)[j]
                    == trash_entry_of(s1.rows@[i])
            &&& forall|j: int|
                0 <= j < trash_listing(s2.rows@, user_id).len() ==> (#[trigger] trash_listing(
                    s2.rows@,
                    user_id,
                )[j]).id != s0.rows@[i].id
            &&& entries_with_id(trash_listing(s1.rows@, user_id), s0.rows@[i].id) == 1
            &&& entries_with_id(trash_listing(s2.rows@, user_id), s0.rows@[i].id) == 0
        }),
{
    let comps = components(path);
    let i = locate(s0.rows@, user_id, path)->Node_0 as int;
    lemma_walk_finds_live_row(s0.rows@, user_id, comps);
    // The trashed row is found by no walk, since walks find live rows only.
    if comps.len() > 0 {
        let t1 = walk(s1.rows@, user_id, comps.drop_last());
        lemma_first_child_bound(s1.rows@, user_id, parent_ref(s1.rows@, t1), comps.last(), 0);
    }
    let id = s0.rows@[i].id;
    assert forall|k: int| 0 <= k < s1.rows@.len() && k != i implies (#[trigger] s1.rows@[k]).id != id by {
        assert(s1.rows@[k] == s0.rows@[k]);
    }
    lemma_first_with_id_unique(s1.rows@, user_id, id, i, 0);
    lemma_trash_listing_has(s1.rows@, user_id, i);
    lemma_trash_listing_members(s1.rows@, user_id);
    lemma_trash_listing_members(s0.rows@, user_id);
    assert forall|k: int| 0 <= k < s0.rows@.len() && k != i implies (#[trigger] s0.rows@[k]).id != id by {
        assert(s0.rows@[k].id != s0.rows@[i].id);
    }
    assert forall|k: int| 0 <= k < s0.rows@.len() && k != i implies #[trigger] s0.rows@[k] == s1.rows@[k] by {
        assert(s1.rows@[k] == s0.rows@[k]);
    }
    lemma_listing_without(s0.rows@, s1.rows@, user_id, s0.rows@[i].parent_id, i);
    lemma_count_unique(s1.rows@, user_id, id, i);
    lemma_count_listing(s1.rows@, user_id, id);
    lemma_count_unique(s0.rows@, user_id, id, i);
    lemma_count_listing(s0.rows@, user_id, id);
    assert(all_same_keys(s0.rows@, s2.rows@)) by {
        assert forall|k: int| 0 <= k < s0.rows@.len() implies same_keys(#[trigger] s0.rows@[k], s2.rows@[k]) by {
            if k != i {
                assert(s1.rows@[k] == s0.rows@[k]);
                assert(s2.rows@[k] == s1.rows@[k]);
            }
        }
    }
    lemma_walk_same_keys(s0.rows@, s2.rows@, user_id, comps);
    assert forall|k: int| 0 <= k < s0.rows@.len() && k != i implies #[trigger] s2.rows@[k] == s0.rows@[k] by {
        assert(s1.rows@[k] == s0.rows@[k]);
    }
    lemma_trash_listing_same(s0.rows@, s2.rows@, user_id);
}

proof fn lemma_first_with_id_none(rows: Seq<FileRow>, owner: i64, id: i64, from: int)
    requires
        from >= 0,
        forall|k: int|
            0 <= k < rows.len() && (#[trigger] rows[k]).id == id && rows[k].owner_id == owner
                ==> !rows[k].is_trashed,
    ensures
        first_with_id(rows, owner, id, true, from) is None,
    decreases rows.len() - from,
{
    if from < rows.len() {
        lemma_first_with_id_none(rows, owner, id, from + 1);
    }
}

proof fn lemma_first_with_id_bound(rows: Seq<FileRow>, owner: i64, id: i64, from: int)
    ensures
        first_with_id(rows, owner, id, true, from) matches Some(i) ==> 0 <= i < rows.len()
            && rows[i].id == id && rows[i].owner_id == owner && rows[i].is_trashed,
    decreases rows.len() - from,
{
    if 0 <= from < rows.len() {
        lemma_first_with_id_bound(rows, owner, id, from + 1);
    }
}

/// After trashing the node at `path`, where the parent's path still leads
/// where it did (it does unless the node is its own ancestor, which only a
/// move into its own subtree makes): the parent's listing is the earlier one
/// without the node's entry, and where no other live row of the owner under
/// that parent has the node's name, `path` leads nowhere.
pub proof fn lemma_trash_hides_from_parent(
    s0: Store,
    s1: Store,
    user_id: i64,
    path: Seq<char>,
    now: i64,
    r: Result<(), VfsError>,
    parent_path: Seq<char>,
    before: Vec<FileNode>,
    after: Vec<FileNode>,
)
    requires
        s0.wf(),
        s0.rows@.len() <= usize::MAX,
        trash_post(s0, s1, user_id, path, now, r),
        r is Ok,
        components(parent_path) == components(path).drop_last(),
        locate(s1.rows@, user_id, parent_path) == locate(s0.rows@, user_id, parent_path),
        list_post(s0, user_id, parent_path, Ok(before)),
        list_post(s1, user_id, parent_path, Ok(after)),
    ensures
        ({
            let i = locate(s0.rows@, user_id, path)->Node_0 as int;
            &&& before@.to_multiset() == after@.to_multiset().insert(node_of(s0.rows@[i]))
            &&& (forall|k: int|
                0 <= k < s0.rows@.len() && k != i ==> !is_child(
                    #[trigger] s0.rows@[k],
                    user_id,
                    s0.rows@[i].parent_id,
                    components(path).last(),
                )) ==> locate(s1.rows@, user_id, path) is Missing
        }),
{
    let comps = components(path);
    let d = comps.drop_last();
    let i = locate(s0.rows@, user_id, path)->Node_0 as int;
    lemma_walk_finds_live_row(s0.rows@, user_id, comps);
    let t = walk(s0.rows@, user_id, d);
    lemma_first_child_bound(s0.rows@, user_id, parent_ref(s0.rows@, t), comps.last(), 0);
    assert(s0.rows@[i].parent_id == parent_ref(s0.rows@, t));
    if let PathTarget::Node(j) = t {
        lemma_walk_finds_live_row(s0.rows@, user_id, d);
        if j as int != i {
            assert(s1.rows@[j as int] == s0.rows@[j as int]);
        }
    }
    assert(parent_ref(s1.rows@, t) == parent_ref(s0.rows@, t));
    assert forall|k: int| 0 <= k < s0.rows@.len() && k != i implies #[trigger] s0.rows@[k]
        == s1.rows@[k] by {
        assert(s1.rows@[k] == s0.rows@[k]);
    }
    lemma_listing_without(s0.rows@, s1.rows@, user_id, s0.rows@[i].parent_id, i);
    if forall|k: int|
        0 <= k < s0.rows@.len() && k != i ==> !is_child(
            #[trigger] s0.rows@[k],
            user_id,
            s0.rows@[i].parent_id,
            comps.last(),
        ) {
        lemma_first_child_bound(s1.rows@, user_id, parent_ref(s0.rows@, t), comps.last(), 0);
        if let Some(k) = first_child(s1.rows@, user_id, parent_ref(s0.rows@, t), comps.last(), 0) {
            if k != i {
                assert(s1.rows@[k] == s0.rows@[k]);
            }
        }
    }
}

/// Deleting for good acts only on a trashed node: where the id names no
/// trashed node of the owner, the store stays as it is, and where the store
/// changes, the row removed was a trashed one with that id.
pub proof fn lemma_delete_only_trashed(s0: Store, s1: Store, user_id: i64, node_id: i64)
    requires
        delete_post(s0, s1, user_id, node_id),
    ensures
        (forall|k: int|
            0 <= k < s0.rows@.len() && (#[trigger] s0.rows@[k]).id == node_id && s0.rows@[k].owner_id
                == user_id ==> !s0.rows@[k].is_trashed) ==> s1 == s0,
        s1 != s0 ==> exists|i: int|
            0 <= i < s0.rows@.len() && (#[trigger] s0.rows@[i]).id == node_id && s0.rows@[i].owner_id
                == user_id && s0.rows@[i].is_trashed && s1.rows@ == s0.rows@.remove(i),
{
    if forall|k: int|
        0 <= k < s0.rows@.len() && (#[trigger] s0.rows@[k]).id == node_id && s0.rows@[k].owner_id
            == user_id ==> !s0.rows@[k].is_trashed {
        lemma_first_with_id_none(s0.rows@, user_id, node_id, 0);
    }
    lemma_first_with_id_bound(s0.rows@, user_id, node_id, 0);
}

} // verus!
