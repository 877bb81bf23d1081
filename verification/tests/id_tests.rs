use noter::errors::NoterError;
use noter::file_type::FileType;
use noter::id::Id;

#[test]
fn test_new_id() {
    let notes_dir = "/home/user/notes";
    let file_path = "/home/user/notes/pepa/2021-01-01-123456.md";

    let id = Id::new(file_path, notes_dir);
    assert_eq!(id.as_str(), "pepa/2021-01-01-123456.md");

    let file_path2 = "home/user/notes/pepa/2021-01-01-123456.md";
    let id2 = Id::new(file_path2, notes_dir);
    assert_eq!(id2.as_str(), "pepa/2021-01-01-123456.md");

    let file_path3 = "user/notes/pepa/2021-01-01-123456.md";
    let id3 = Id::new(file_path3, notes_dir);
    assert_ne!(id3.as_str(), "pepa/2021-01-01-123456.md");
}

#[test]
fn test_get_parent_directory() {
    let notes_dir = "/home/user/notes";
    let file_path = "/home/user/notes/pepa/2021-01-01-123456.md";
    let parent_path = "/home/user/notes/pepa";

    let file_id = Id::new(file_path, notes_dir);
    let parent_id = Id::new(parent_path, notes_dir);

    let test_parent_id = file_id.get_parent(notes_dir).unwrap();
    assert_eq!(parent_id, test_parent_id);
}

#[test]
fn test_get_type() {
    let notes_dir = "/home/user/notes";
    let note_path = "/home/user/notes/pepa/2021-01-01-123456.md";
    let image_path = "/home/user/notes/pepa/2021-01-01-123456.png";
    let table_path = "/home/user/notes/pepa/2021-01-01-123456.csv";
    let todo_path = "/home/user/notes/pepa/2021-01-01-123456.todo.csv";

    let note_id = Id::new(note_path, notes_dir);
    let note_type = note_id.get_type().unwrap();
    assert_eq!(note_type, FileType::Note);

    let image_id = Id::new(image_path, notes_dir);
    let image_type = image_id.get_type().unwrap();
    assert_eq!(image_type, FileType::Image);

    let table_id = Id::new(table_path, notes_dir);
    let table_type = table_id.get_type().unwrap();
    assert_eq!(table_type, FileType::Table);

    let todo_id = Id::new(todo_path, notes_dir);
    let todo_type = todo_id.get_type().unwrap();
    assert_eq!(todo_type, FileType::TodoList);

    let invalid_path = "/home/user/notes/pepa/2021-01-01-123456";
    let invalid_id = Id::new(invalid_path, notes_dir);
    let invalid_type = invalid_id.get_type();
    assert_eq!(invalid_type, None);
}

#[test]
fn test_iter_id() {
    let notes_dir = "/home/user/notes";
    let file_path = "/home/user/notes/pepa/2021-01-01-123456.md";

    let id = Id::new(file_path, notes_dir);
    let parts: Vec<String> = id.parts();
    assert_eq!(parts, vec!["pepa", "2021-01-01-123456.md"]);
}

#[test]
fn test_path_round_trip() {
    let notes_dir = "/home/user/notes";
    let path = "/home/user/notes/pepa/note.md";
    let id = Id::id_from_path(path, notes_dir).unwrap();
    assert_eq!(id.as_str(), "pepa/note.md");
    assert_eq!(id.path_from_id(notes_dir), path);

    let root_id = Id::id_from_path(notes_dir, notes_dir).unwrap();
    assert_eq!(root_id.as_str(), "");
    assert_eq!(root_id.path_from_id(notes_dir), notes_dir);
}

#[test]
fn test_id_from_path_rejects_escape() {
    let notes_dir = "/home/user/notes";
    let outside = "/etc/passwd";
    let err = Id::id_from_path(outside, notes_dir).unwrap_err();
    assert_eq!(err, NoterError::NotInRoot);
}

#[test]
fn test_get_parent_of_root_level_id() {
    let notes_dir = "/home/user/notes";
    let id = Id::new("/home/user/notes/note.md", notes_dir);
    assert_eq!(id.as_str(), "note.md");
    assert!(id.get_parent(notes_dir).is_none());
}

#[test]
fn test_get_name() {
    let notes_dir = "/home/user/notes";
    let id = Id::new("/home/user/notes/pepa/list.todo.csv", notes_dir);
    assert_eq!(id.get_name(), "list");
    let bare = Id::from_string("plain".to_string());
    assert_eq!(bare.get_name(), "plain");
}

#[test]
fn test_create_id() {
    let notes_dir = "/home/user/notes";
    let parent = Id::new("/home/user/notes/pepa", notes_dir);
    let child = Id::create_id("diary", &parent, FileType::Note, notes_dir);
    assert_eq!(child.as_str(), "pepa/diary.md");

    let root = Id::new(notes_dir, notes_dir);
    let top = Id::create_id("tasks", &root, FileType::TodoList, notes_dir);
    assert_eq!(top.as_str(), "tasks.todo.csv");
}

#[test]
fn test_from_str_extensions() {
    assert_eq!(noter::file_type::FileType::from_str("md"), Some(FileType::Note));
    assert_eq!(noter::file_type::FileType::from_str("todo.csv"), Some(FileType::TodoList));
    assert_eq!(noter::file_type::FileType::from_str("png"), Some(FileType::Image));
    assert_eq!(noter::file_type::FileType::from_str("csv"), Some(FileType::Table));
    assert_eq!(noter::file_type::FileType::from_str("txt"), None);
    assert_eq!(noter::file_type::FileType::from_str(""), None);
}

#[test]
fn test_double_extension_rule() {
    assert_eq!(Id::from_string("a.todo.csv".to_string()).get_type(), Some(FileType::TodoList));
    assert_eq!(Id::from_string("a.csv".to_string()).get_type(), Some(FileType::Table));
    assert_eq!(Id::from_string("a.jpg".to_string()).get_type(), Some(FileType::Image));
    assert_eq!(Id::from_string("a.jpeg".to_string()).get_type(), Some(FileType::Image));
    assert_eq!(Id::from_string("a.xyz".to_string()).get_type(), None);
}
