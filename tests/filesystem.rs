use cde_backend::protocol::NodeType;
use cde_backend::vfs::{
    create_node, create_node_at, empty_trash, get_path_id, list_directory, list_trash, move_node,
    permanently_delete_node, read_file_content, restore_node, trash_node, write_file_content,
    PathTarget, Store, VfsError,
};

const U: i64 = 7;

fn store_with_home() -> Store {
    let mut s = Store::new();
    create_node(&mut s, U, "/home", NodeType::Dir, 1).unwrap();
    create_node(&mut s, U, "/home/guest", NodeType::Dir, 1).unwrap();
    s
}

#[test]
fn create_then_read_is_empty() {
    let mut s = store_with_home();
    create_node(&mut s, U, "/home/guest/notes.txt", NodeType::File, 5).unwrap();
    assert_eq!(read_file_content(&s, U, "/home/guest/notes.txt").unwrap(), "");
}

#[test]
fn write_then_read_returns_the_content() {
    let mut s = store_with_home();
    create_node(&mut s, U, "/home/guest/notes.txt", NodeType::File, 5).unwrap();
    write_file_content(&mut s, U, "/home/guest/notes.txt", "aGVsbG8=", 6).unwrap();
    assert_eq!(read_file_content(&s, U, "/home/guest/notes.txt").unwrap(), "aGVsbG8=");
    let items = list_directory(&s, U, "/home/guest").unwrap();
    assert_eq!(items.len(), 1);
    assert_eq!(items[0].size, 5);
    assert_eq!(items[0].updated_at, 6);
}

#[test]
fn write_arbitrary_bytes_round_trips() {
    let mut s = store_with_home();
    create_node(&mut s, U, "/home/guest/b.bin", NodeType::File, 5).unwrap();
    write_file_content(&mut s, U, "/home/guest/b.bin", "AP8QIA==", 6).unwrap();
    assert_eq!(read_file_content(&s, U, "/home/guest/b.bin").unwrap(), "AP8QIA==");
    let items = list_directory(&s, U, "/home/guest").unwrap();
    assert_eq!(items[0].size, 4);
}

#[test]
fn write_rejects_bad_base64_and_missing_files() {
    let mut s = store_with_home();
    create_node(&mut s, U, "/home/guest/n", NodeType::File, 5).unwrap();
    assert_eq!(write_file_content(&mut s, U, "/home/guest/n", "%%%", 6), Err(VfsError::InvalidContent));
    assert_eq!(write_file_content(&mut s, U, "/home/guest/none", "aGk=", 6), Err(VfsError::FileNotFound));
    assert_eq!(write_file_content(&mut s, U, "/home/guest", "aGk=", 6), Err(VfsError::NotAFile));
    assert_eq!(write_file_content(&mut s, U, "/", "aGk=", 6), Err(VfsError::FileNotFound));
}

#[test]
fn read_errors() {
    let s = store_with_home();
    assert_eq!(read_file_content(&s, U, "/home/guest"), Err(VfsError::NotAFile));
    assert_eq!(read_file_content(&s, U, "/nope"), Err(VfsError::FileNotFound));
    assert_eq!(read_file_content(&s, U, "/"), Err(VfsError::FileNotFound));
    assert_eq!(VfsError::NotAFile.message(), "Node is a directory, not a file");
}

#[test]
fn create_errors() {
    let mut s = store_with_home();
    assert_eq!(create_node(&mut s, U, "/", NodeType::Dir, 1), Err(VfsError::InvalidPath));
    assert_eq!(create_node(&mut s, U, "/home/..", NodeType::Dir, 1), Err(VfsError::InvalidPath));
    assert_eq!(create_node(&mut s, U, "/missing/x", NodeType::File, 1), Err(VfsError::DirectoryNotFound));
    assert_eq!(s.rows.len(), 2);
}

#[test]
fn create_allows_duplicate_names() {
    let mut s = store_with_home();
    create_node(&mut s, U, "/home/guest/a", NodeType::File, 1).unwrap();
    create_node(&mut s, U, "/home/guest/a", NodeType::File, 2).unwrap();
    assert_eq!(list_directory(&s, U, "/home/guest").unwrap().len(), 2);
}

#[test]
fn trees_are_owner_scoped() {
    let s = store_with_home();
    assert_eq!(get_path_id(&s, U + 1, "/home"), PathTarget::Missing);
    assert_eq!(get_path_id(&s, U, "/home"), PathTarget::Node(0));
    assert_eq!(get_path_id(&s, U, "/"), PathTarget::Root);
}

#[test]
fn listing_puts_directories_first_then_names_ascending() {
    let mut s = store_with_home();
    create_node(&mut s, U, "/home/guest/zeta.txt", NodeType::File, 1).unwrap();
    create_node(&mut s, U, "/home/guest/beta", NodeType::Dir, 1).unwrap();
    create_node(&mut s, U, "/home/guest/alpha.txt", NodeType::File, 1).unwrap();
    create_node(&mut s, U, "/home/guest/Gamma", NodeType::Dir, 1).unwrap();
    let names: Vec<String> = list_directory(&s, U, "/home/guest").unwrap().into_iter().map(|n| n.name).collect();
    assert_eq!(names, vec!["Gamma", "beta", "alpha.txt", "zeta.txt"]);
    let kinds: Vec<NodeType> = list_directory(&s, U, "/home/guest").unwrap().into_iter().map(|n| n.node_type).collect();
    assert_eq!(kinds, vec![NodeType::Dir, NodeType::Dir, NodeType::File, NodeType::File]);
}

#[test]
fn listing_a_missing_directory_fails() {
    let s = store_with_home();
    assert_eq!(list_directory(&s, U, "/home/nobody").err(), Some(VfsError::DirectoryNotFound));
    assert_eq!(list_directory(&s, U, "/").unwrap().len(), 1);
}

#[test]
fn trash_hides_and_restore_reveals() {
    let mut s = store_with_home();
    create_node(&mut s, U, "/home/guest/notes.txt", NodeType::File, 1).unwrap();
    trash_node(&mut s, U, "/home/guest/notes.txt", 50).unwrap();
    assert_eq!(get_path_id(&s, U, "/home/guest/notes.txt"), PathTarget::Missing);
    assert!(list_directory(&s, U, "/home/guest").unwrap().is_empty());
    let trash = list_trash(&s, U);
    assert_eq!(trash.len(), 1);
    assert_eq!(trash[0].original_path, "/home/guest/notes.txt");
    assert_eq!(trash[0].name, "notes.txt");
    assert_eq!(trash[0].trashed_at, 50);
    let path = restore_node(&mut s, U, trash[0].id).unwrap();
    assert_eq!(path, "/home/guest/notes.txt");
    assert_eq!(get_path_id(&s, U, "/home/guest/notes.txt"), PathTarget::Node(2));
    assert!(list_trash(&s, U).is_empty());
}

#[test]
fn trash_does_not_cascade() {
    let mut s = store_with_home();
    create_node(&mut s, U, "/home/guest/d", NodeType::Dir, 1).unwrap();
    create_node(&mut s, U, "/home/guest/d/f", NodeType::File, 1).unwrap();
    trash_node(&mut s, U, "/home/guest/d", 9).unwrap();
    assert_eq!(get_path_id(&s, U, "/home/guest/d/f"), PathTarget::Missing);
    assert_eq!(list_trash(&s, U).len(), 1);
    assert!(!s.rows[3].is_trashed);
}

#[test]
fn trash_and_restore_errors() {
    let mut s = store_with_home();
    assert_eq!(trash_node(&mut s, U, "/home/guest/none", 1), Err(VfsError::NodeNotFound));
    assert_eq!(restore_node(&mut s, U, 999), Err(VfsError::NodeNotFound));
    assert_eq!(restore_node(&mut s, U + 1, 1), Err(VfsError::NodeNotFound));
}

#[test]
fn trash_listing_is_newest_first() {
    let mut s = store_with_home();
    for (name, t) in [("a", 10), ("b", 30), ("c", 20)] {
        let p = format!("/home/guest/{}", name);
        create_node(&mut s, U, &p, NodeType::File, 1).unwrap();
        trash_node(&mut s, U, &p, t).unwrap();
    }
    let times: Vec<i64> = list_trash(&s, U).into_iter().map(|e| e.trashed_at).collect();
    assert_eq!(times, vec![30, 20, 10]);
}

#[test]
fn delete_of_untrashed_id_changes_nothing() {
    let mut s = store_with_home();
    create_node(&mut s, U, "/home/guest/keep", NodeType::File, 1).unwrap();
    let id = s.rows[2].id;
    permanently_delete_node(&mut s, U, id);
    assert_eq!(s.rows.len(), 3);
    assert_eq!(get_path_id(&s, U, "/home/guest/keep"), PathTarget::Node(2));
    permanently_delete_node(&mut s, U, 12345);
    assert_eq!(s.rows.len(), 3);
}

#[test]
fn delete_of_trashed_id_removes_it() {
    let mut s = store_with_home();
    create_node(&mut s, U, "/home/guest/gone", NodeType::File, 1).unwrap();
    let id = s.rows[2].id;
    trash_node(&mut s, U, "/home/guest/gone", 2).unwrap();
    permanently_delete_node(&mut s, U + 1, id);
    assert_eq!(s.rows.len(), 3);
    permanently_delete_node(&mut s, U, id);
    assert_eq!(s.rows.len(), 2);
    assert!(list_trash(&s, U).is_empty());
}

#[test]
fn empty_trash_removes_only_the_owners_trashed_rows() {
    let mut s = store_with_home();
    create_node(&mut s, U, "/home/guest/a", NodeType::File, 1).unwrap();
    create_node(&mut s, U, "/home/guest/b", NodeType::File, 1).unwrap();
    create_node(&mut s, U + 1, "/x", NodeType::File, 1).unwrap();
    trash_node(&mut s, U, "/home/guest/a", 3).unwrap();
    trash_node(&mut s, U + 1, "/x", 3).unwrap();
    empty_trash(&mut s, U);
    assert_eq!(s.rows.len(), 4);
    assert!(list_trash(&s, U).is_empty());
    assert_eq!(list_trash(&s, U + 1).len(), 1);
    assert_eq!(get_path_id(&s, U, "/home/guest/b"), PathTarget::Node(2));
}

#[test]
fn move_renames_and_reparents() {
    let mut s = store_with_home();
    create_node(&mut s, U, "/home/guest/a.txt", NodeType::File, 1).unwrap();
    create_node(&mut s, U, "/home/guest/sub", NodeType::Dir, 1).unwrap();
    move_node(&mut s, U, "/home/guest/a.txt", "/home/guest/sub/b.txt", 8).unwrap();
    assert_eq!(get_path_id(&s, U, "/home/guest/a.txt"), PathTarget::Missing);
    assert_eq!(get_path_id(&s, U, "/home/guest/sub/b.txt"), PathTarget::Node(2));
    assert_eq!(s.rows[2].original_path, "/home/guest/sub/b.txt");
    assert_eq!(s.rows[2].updated_at, 8);
}

#[test]
fn move_to_a_missing_parent_lands_at_the_root() {
    let mut s = store_with_home();
    create_node(&mut s, U, "/home/guest/a", NodeType::File, 1).unwrap();
    move_node(&mut s, U, "/home/guest/a", "/nowhere/b", 2).unwrap();
    assert_eq!(get_path_id(&s, U, "/b"), PathTarget::Node(2));
}

#[test]
fn move_errors() {
    let mut s = store_with_home();
    assert_eq!(move_node(&mut s, U, "/home/none", "/x", 1), Err(VfsError::SourceNotFound));
    assert_eq!(move_node(&mut s, U, "/home/guest", "/", 1), Err(VfsError::InvalidNewPath));
}

#[test]
fn created_files_get_distinct_blob_locations() {
    let mut s = store_with_home();
    create_node(&mut s, U, "/home/guest/a", NodeType::File, 1).unwrap();
    create_node(&mut s, U, "/home/guest/b", NodeType::File, 1).unwrap();
    let la = s.rows[2].blob.as_ref().unwrap().location.clone();
    let lb = s.rows[3].blob.as_ref().unwrap().location.clone();
    assert_ne!(la, lb);
    assert_eq!(la.len(), 36);
    assert!(s.rows[0].blob.is_none());
    assert_eq!(VfsError::BlobLocationTaken.message(), "Blob location already in use");
}

#[test]
fn create_at_a_taken_location_is_refused() {
    let mut s = store_with_home();
    create_node_at(&mut s, U, "/home/guest/a", NodeType::File, 1, "blob-1".to_string()).unwrap();
    assert_eq!(s.rows[2].blob.as_ref().unwrap().location, "blob-1");
    assert_eq!(
        create_node_at(&mut s, U, "/home/guest/b", NodeType::File, 1, "blob-1".to_string()),
        Err(VfsError::BlobLocationTaken)
    );
    assert_eq!(s.rows.len(), 3);
    create_node_at(&mut s, U, "/home/guest/c", NodeType::Dir, 1, "blob-1".to_string()).unwrap();
    assert!(s.rows[3].blob.is_none());
    create_node_at(&mut s, U, "/home/guest/a", NodeType::File, 1, "blob-2".to_string()).unwrap();
    assert_eq!(s.rows.len(), 5);
}
