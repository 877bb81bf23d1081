use noter::adapter::{DataAdapter, SortBy, SortOptions, SortOrder};
use noter::directory::{Directory, Entry};
use noter::errors::NoterError;
use noter::file_type::FileType;
use noter::graph::Graph;
use noter::id::Id;
use noter::manager::{parse_frontmatter, FileManager};
use noter::metadata::Metadata;
use noter::preview::FilePreview;
use noter::tree::{build_tree, RawDir, RawEntry, RawFile};

const ROOT: &str = "/home/user/notes";

fn raw_note(path: &str, body: &str) -> RawEntry {
    RawEntry::File(RawFile {
        path: path.to_string(),
        bytes: body.as_bytes().to_vec(),
        created_at: 1,
        modified_at: 2,
    })
}

#[test]
fn test_tree_one_subdirectory_with_one_note() {
    let raw = RawDir {
        path: ROOT.to_string(),
        created_at: 5,
        modified_at: 6,
        entries: vec![RawEntry::Dir(RawDir {
            path: format!("{}/pepa", ROOT),
            created_at: 3,
            modified_at: 4,
            entries: vec![raw_note("/home/user/notes/pepa/diary.md", "hello")],
        })],
    };
    let (dir, docs) = build_tree(&raw, ROOT);
    assert_eq!(dir.id.as_str(), "");
    assert_eq!(dir.name, "notes");
    assert_eq!(dir.created_at, 5);
    assert_eq!(dir.entries.len(), 1);
    match &dir.entries[0] {
        Entry::Directory(sub) => {
            assert_eq!(sub.id.as_str(), "pepa");
            assert_eq!(sub.name, "pepa");
            assert_eq!(sub.entries.len(), 1);
            match &sub.entries[0] {
                Entry::File(p) => {
                    assert_eq!(p.id.as_str(), "pepa/diary.md");
                    assert_eq!(p.name, "diary");
                    assert_eq!(p.file_type, FileType::Note);
                    assert_eq!(p.created_at, 1);
                    assert_eq!(p.modified_at, 2);
                },
                _ => panic!("expected a file entry"),
            }
        },
        _ => panic!("expected a directory entry"),
    }
    assert_eq!(docs.len(), 1);
    assert_eq!(docs[0].id.as_str(), "pepa/diary.md");
}

#[test]
fn test_tree_corrupt_file_does_not_hide_siblings() {
    let raw = RawDir {
        path: ROOT.to_string(),
        created_at: 0,
        modified_at: 0,
        entries: vec![
            raw_note("/home/user/notes/bad.xyz", "???"),
            raw_note("/home/user/notes/good.md", "fine"),
        ],
    };
    let (dir, docs) = build_tree(&raw, ROOT);
    assert_eq!(dir.entries.len(), 1);
    match &dir.entries[0] {
        Entry::File(p) => assert_eq!(p.id.as_str(), "good.md"),
        _ => panic!("expected a file entry"),
    }
    assert_eq!(docs.len(), 1);
    assert_eq!(docs[0].name, "good");
}

#[test]
fn test_directory_delete_entry_removes_subtree() {
    let notes_dir = ROOT;
    let sub_entries = vec![Entry::File(FilePreview::new(
        Id::new("/home/user/notes/pepa/inner.md", notes_dir),
        "inner".to_string(),
        FileType::Note,
        0,
        0,
    ))];
    let sub = Directory::new(
        Id::new("/home/user/notes/pepa", notes_dir),
        "pepa".to_string(),
        sub_entries,
        0,
        0,
    );
    let top = Entry::File(FilePreview::new(
        Id::new("/home/user/notes/top.md", notes_dir),
        "top".to_string(),
        FileType::Note,
        0,
        0,
    ));
    let mut dir = Directory::new(
        Id::new(notes_dir, notes_dir),
        "notes".to_string(),
        vec![top, Entry::Directory(sub)],
        0,
        0,
    );

    let sub_id = Id::from_string("pepa".to_string());
    dir.delete_entry(&sub_id).unwrap();
    assert_eq!(dir.entries.len(), 1);
    match &dir.entries[0] {
        Entry::File(p) => assert_eq!(p.id.as_str(), "top.md"),
        _ => panic!("expected the file entry to stay"),
    }

    let err = dir.delete_entry(&sub_id).unwrap_err();
    assert_eq!(err, NoterError::NotFound);
    assert_eq!(dir.entries.len(), 1);
}

#[test]
fn test_graph_phantom_upgrade() {
    let mut g = Graph::new();
    let from = Id::from_string("a.md".to_string());
    let to = Id::from_string("b.md".to_string());
    g.add_edge(from.clone(), to.clone());
    assert!(g.get_node(&from).is_none());
    assert!(g.get_node(&to).is_none());
    assert_eq!(g.get_edge_list().len(), 1);
    assert_eq!(g.get_node_list().len(), 2);

    g.add_node(FilePreview::new(to.clone(), "b".to_string(), FileType::Note, 0, 0));
    let p = g.get_node(&to).unwrap();
    assert_eq!(p.name, "b");
    assert_eq!(g.get_node_list().len(), 2);

    let edges = g.get_edge_list();
    assert_eq!(edges[0].from.as_str(), "a.md");
    assert_eq!(edges[0].to.as_str(), "b.md");
}

#[test]
fn test_build_graph_from_traversal() {
    let raw = RawDir {
        path: ROOT.to_string(),
        created_at: 0,
        modified_at: 0,
        entries: vec![
            raw_note("/home/user/notes/a.md", "[[b.md]] and [[ghost.md]]"),
            raw_note("/home/user/notes/b.md", "no links"),
        ],
    };
    let (_, docs) = build_tree(&raw, ROOT);
    let g = Graph::build_graph(&docs, ROOT);
    let edges = g.get_edge_list();
    assert_eq!(edges.len(), 2);
    assert_eq!(edges[0].from.as_str(), "a.md");
    assert_eq!(edges[0].to.as_str(), "b.md");
    assert_eq!(edges[1].to.as_str(), "ghost.md");
    // both resolved notes carry previews; the ghost stays a phantom
    assert!(g.get_node(&Id::from_string("a.md".to_string())).is_some());
    assert!(g.get_node(&Id::from_string("b.md".to_string())).is_some());
    assert!(g.get_node(&Id::from_string("ghost.md".to_string())).is_none());
    assert_eq!(g.get_node_list().len(), 3);
}

fn preview(id: &str, name: &str, t: FileType, created: i64, modified: i64) -> FilePreview {
    FilePreview::new(Id::from_string(id.to_string()), name.to_string(), t, created, modified)
}

#[test]
fn test_adapter_insert_get_delete() {
    let mut a = DataAdapter::new();
    a.insert_file(preview("x.md", "x", FileType::Note, 0, 0));
    a.insert_file(preview("y.csv", "y", FileType::Table, 0, 0));
    let id = Id::from_string("x.md".to_string());
    match a.get_file(&id) {
        Some(Entry::File(p)) => assert_eq!(p.name, "x"),
        _ => panic!("expected the stored entry"),
    }
    a.delete_file(&id);
    assert!(a.get_file(&id).is_none());
    a.delete_file(&id);
    assert!(a.get_file(&id).is_none());
}

#[test]
fn test_adapter_sorted_listings() {
    let mut a = DataAdapter::new();
    a.insert_file(preview("b.md", "banana", FileType::Note, 3, 30));
    a.insert_file(preview("a.md", "apple", FileType::Note, 2, 20));
    a.insert_file(preview("c.csv", "cherry", FileType::Table, 1, 10));

    let by_name = a.get_all_files(Some(SortOptions { by: SortBy::Name, order: SortOrder::Ascending }));
    let names: Vec<&str> = by_name.iter().map(|p| p.name.as_str()).collect();
    assert_eq!(names, vec!["apple", "banana", "cherry"]);

    let by_created_desc = a.get_all_files(Some(SortOptions {
        by: SortBy::CreatedAt,
        order: SortOrder::Descending,
    }));
    let created: Vec<i64> = by_created_desc.iter().map(|p| p.created_at).collect();
    assert_eq!(created, vec![3, 2, 1]);

    let notes = a.get_all_notes(None);
    assert_eq!(notes.len(), 2);
    for p in &notes {
        assert_eq!(p.file_type, FileType::Note);
    }
}

#[test]
fn test_manager_paths_and_names() {
    let m = FileManager::new(ROOT.to_string());
    assert_eq!(m.get_notes_dir().as_str(), ROOT);
    assert_eq!(m.get_dir_name().unwrap(), "notes");

    let id = Id::from_string("pepa/diary.md".to_string());
    assert_eq!(m.get_path(&id), "/home/user/notes/pepa/diary.md");
    let root_id = Id::from_string("".to_string());
    assert_eq!(m.get_path(&root_id), ROOT);
}

#[test]
fn test_manager_rename() {
    let m = FileManager::new(ROOT.to_string());
    let id = Id::from_string("pepa/old.todo.csv".to_string());
    let renamed = m.rename(&id, "fresh").unwrap();
    assert_eq!(renamed.as_str(), "pepa/fresh.todo.csv");

    let top = Id::from_string("old.md".to_string());
    let renamed_top = m.rename(&top, "fresh").unwrap();
    assert_eq!(renamed_top.as_str(), "fresh.md");

    let unknown = Id::from_string("strange.xyz".to_string());
    assert_eq!(m.rename(&unknown, "fresh").unwrap_err(), NoterError::UnknownExtension);
}

#[test]
fn test_parse_frontmatter() {
    let body = "---\ntitle: My note\ntags: a, b\n---\nbody text";
    let pairs = parse_frontmatter(body).unwrap();
    assert_eq!(pairs.len(), 2);
    assert_eq!(pairs[0].0, "title");
    assert_eq!(pairs[0].1, "My note");
    assert_eq!(pairs[1].0, "tags");
    assert_eq!(pairs[1].1, "a, b");
}

#[test]
fn test_parse_frontmatter_errors() {
    assert_eq!(parse_frontmatter("no delimiter").unwrap_err(), NoterError::DecodeError);
    assert_eq!(parse_frontmatter("---\nbroken line\n---").unwrap_err(), NoterError::DecodeError);
}

#[test]
fn test_get_dir_name_of_bare_root() {
    let m = FileManager::new("".to_string());
    assert_eq!(m.get_dir_name().unwrap_err(), NoterError::NotADirectory);
    let trailing = FileManager::new("/home/user/notes/".to_string());
    assert_eq!(trailing.get_dir_name().unwrap_err(), NoterError::NotADirectory);
}

#[test]
fn test_metadata_holds_notes_dir() {
    let m = Metadata::new(ROOT.to_string());
    assert_eq!(m.notes_dir, ROOT);
    assert_eq!(m.clone().notes_dir, ROOT);
}
