use prism_host::vfs::File;
use prism_host::vfs::Folder;
use prism_host::vfs::VFSError;
use prism_host::vfs::VFSItem;
use prism_host::vfs::Vfs;
use prism_host::vfs::clean_path;
use prism_host::vfs::is_path_char;
use prism_host::vfs::split_path;
use prism_host::vfs::validate_path;

fn load_empty() -> Vfs {
    Vfs::load(String::from("state.json"), Some(Folder::empty()))
}

fn folder_names(f: &Folder) -> Vec<String> {
    let mut names = Vec::new();
    for i in 0..f.child_count() {
        names.push(f.entry_at(i).0.clone());
    }
    names
}

fn child_folder<'a>(f: &'a Folder, name: &str) -> &'a Folder {
    for i in 0..f.child_count() {
        let e = f.entry_at(i);
        if e.0 == name {
            match &e.1 {
                VFSItem::Folder(g) => return g,
                VFSItem::File(_) => panic!("{} is a file", name),
            }
        }
    }
    panic!("{} not found", name)
}

#[test]
fn clean_path_strips_one_separator_each_side() {
    assert_eq!(clean_path("/a/b/"), "a/b");
    assert_eq!(clean_path("a/b"), "a/b");
    assert_eq!(clean_path("//a//"), "/a/");
    assert_eq!(clean_path("/"), "");
    assert_eq!(clean_path(""), "");
}

#[test]
fn clean_path_maps_dot_to_sentinel() {
    assert_eq!(clean_path("a.b"), "a$b");
    assert_eq!(clean_path("..."), "$$$");
    assert_eq!(clean_path("/dir/file.txt/"), "dir/file$txt");
}

#[test]
fn path_chars_are_letters_digits_and_three_marks() {
    assert!(is_path_char('a'));
    assert!(is_path_char('Z'));
    assert!(is_path_char('0'));
    assert!(is_path_char('_'));
    assert!(is_path_char('-'));
    assert!(is_path_char('$'));
    assert!(!is_path_char('.'));
    assert!(!is_path_char('/'));
    assert!(!is_path_char(' '));
    assert!(!is_path_char('~'));
}

#[test]
fn split_path_splits_at_every_separator() {
    let segs = split_path(&String::from("a/b/c"));
    assert_eq!(segs, vec!["a".to_string(), "b".to_string(), "c".to_string()]);
    let one = split_path(&String::from("abc"));
    assert_eq!(one, vec!["abc".to_string()]);
    let doubled = split_path(&String::from("a//b"));
    assert_eq!(doubled, vec!["a".to_string(), "".to_string(), "b".to_string()]);
}

#[test]
fn validate_path_hands_valid_paths_back() {
    let p = vec!["ab".to_string(), "c_d-e$f".to_string()];
    assert_eq!(validate_path(p.clone()), Ok(p));
    let bad = vec!["ok".to_string(), "no good".to_string()];
    assert_eq!(validate_path(bad), Err(VFSError::PathInvalid));
}

#[test]
fn create_folder_under_root_then_nested() {
    let mut vfs = load_empty();
    assert_eq!(vfs.create_folder("", "a"), Ok(()));
    assert_eq!(vfs.create_folder("a", "b"), Ok(()));
    assert_eq!(folder_names(&vfs.root), vec!["a".to_string()]);
    assert_eq!(folder_names(child_folder(&vfs.root, "a")), vec!["b".to_string()]);
}

#[test]
fn create_folder_without_parent_fails_path_does_not_exist() {
    let mut vfs = load_empty();
    assert_eq!(vfs.create_folder("a", "b"), Err(VFSError::CreatePathDoesNotExist));
    assert_eq!(vfs.root.child_count(), 0);
}

#[test]
fn create_folder_twice_fails_already_exists() {
    let mut vfs = load_empty();
    assert_eq!(vfs.create_folder("", "a"), Ok(()));
    assert_eq!(vfs.create_folder("", "a"), Err(VFSError::CreatePathAlreadyExists));
    assert_eq!(vfs.create_folder("", "b"), Ok(()));
    assert_eq!(vfs.create_folder("b", "c"), Ok(()));
    assert_eq!(vfs.create_folder("b", "c"), Err(VFSError::CreatePathAlreadyExists));
}

#[test]
fn dot_in_name_is_accepted_through_the_sentinel() {
    let mut vfs = load_empty();
    assert_eq!(vfs.create_folder("", "x.y"), Ok(()));
    assert_eq!(folder_names(&vfs.root), vec!["x$y".to_string()]);
    // the mapped name addresses the same folder
    assert_eq!(vfs.create_folder("x.y", "inner"), Ok(()));
    assert_eq!(vfs.create_folder("x$y", "inner"), Err(VFSError::CreatePathAlreadyExists));
}

#[test]
fn separator_embedded_mid_name_is_rejected() {
    let mut vfs = load_empty();
    assert_eq!(vfs.create_folder("", "x/y"), Err(VFSError::PathInvalid));
    assert_eq!(vfs.root.child_count(), 0);
}

#[test]
fn path_segment_with_forbidden_character_is_rejected() {
    let mut vfs = load_empty();
    assert_eq!(vfs.create_folder("", "a"), Ok(()));
    assert_eq!(vfs.create_folder("a b", "c"), Err(VFSError::PathInvalid));
}

#[test]
fn create_file_records_its_full_path() {
    let mut vfs = load_empty();
    assert_eq!(vfs.create_folder("", "docs"), Ok(()));
    assert_eq!(vfs.create_file("docs", "note.txt"), Ok(()));
    let docs = child_folder(&vfs.root, "docs");
    assert_eq!(docs.child_count(), 1);
    let e = docs.entry_at(0);
    assert_eq!(e.0, "note$txt");
    match &e.1 {
        VFSItem::File(f) => assert_eq!(f.disk_path().as_str(), "docs/note$txt"),
        VFSItem::Folder(_) => panic!("expected a file"),
    }
}

#[test]
fn walking_through_a_file_fails_folder_path_is_file() {
    let mut vfs = load_empty();
    assert_eq!(vfs.create_file("", "blob"), Ok(()));
    assert_eq!(vfs.create_folder("blob", "sub"), Err(VFSError::FolderPathIsFile));
    assert_eq!(vfs.create_file("blob", "sub"), Err(VFSError::FolderPathIsFile));
}

#[test]
fn file_and_folder_share_one_namespace() {
    let mut vfs = load_empty();
    assert_eq!(vfs.create_file("", "x"), Ok(()));
    assert_eq!(vfs.create_folder("", "x"), Err(VFSError::CreatePathAlreadyExists));
}

#[test]
fn load_keeps_a_stored_root() {
    let mut stored = Folder::empty();
    stored
        .insert_child(String::from("kept"), VFSItem::Folder(Folder::empty()))
        .unwrap();
    let vfs = Vfs::load(String::from("disk.json"), Some(stored));
    assert_eq!(vfs.disk_path().as_str(), "disk.json");
    assert_eq!(folder_names(&vfs.root), vec!["kept".to_string()]);
}

#[test]
fn load_without_stored_root_starts_the_default_tree() {
    let vfs = Vfs::load(String::from("disk.json"), None);
    assert_eq!(folder_names(&vfs.root), vec!["test".to_string()]);
    let test = child_folder(&vfs.root, "test");
    assert_eq!(test.child_count(), 1);
    let e = test.entry_at(0);
    assert_eq!(e.0, "test_file$txt");
    match &e.1 {
        VFSItem::File(f) => assert_eq!(f.disk_path().as_str(), "test/test_file$txt"),
        VFSItem::Folder(_) => panic!("expected a file"),
    }
}

#[test]
fn insert_child_refuses_taken_names() {
    let mut f = Folder::empty();
    assert_eq!(f.insert_child(String::from("a"), VFSItem::Folder(Folder::empty())), Ok(()));
    assert_eq!(
        f.insert_child(String::from("a"), VFSItem::File(File::empty(String::from("a")))),
        Err(VFSError::CreatePathAlreadyExists)
    );
    assert_eq!(f.child_count(), 1);
}

#[test]
fn local_creation_skips_path_handling() {
    let mut f = Folder::empty();
    assert_eq!(f.create_folder_local(String::from("raw")), Ok(()));
    assert_eq!(f.create_file_local(String::from("data"), String::from("raw/data")), Ok(()));
    assert_eq!(f.create_folder_local(String::from("raw")), Err(VFSError::CreatePathAlreadyExists));
    assert_eq!(f.child_count(), 2);
}
