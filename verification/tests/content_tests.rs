use noter::content::{FileContent, FileSerializable};
use noter::errors::NoterError;
use noter::file::File;
use noter::file_type::FileType;
use noter::id::Id;
use noter::note::Note;
use noter::tasks::{Repeat, Task, TaskType, TodoList};

fn sample_task() -> Task {
    Task {
        task_id: 7,
        parent_id: None,
        task_type: TaskType::Task,
        content: "buy milk, eggs".to_string(),
        description: "say \"hi\"".to_string(),
        project: "home".to_string(),
        attachment: Id::from_string("a.md".to_string()),
        priority: 2,
        is_completed: false,
        created_at: 100,
        completed_at: None,
        start_date: Some(-5),
        due_date: 200,
        reminder: None,
        repeat: Some(Repeat::Weekly),
    }
}

const SAMPLE_CSV: &str = "\"task_id\",\"parent_id\",\"task_type\",\"content\",\"description\",\"project\",\"attachment\",\"priority\",\"is_completed\",\"created_at\",\"completed_at\",\"start_date\",\"due_date\",\"reminder\",\"repeat\"\n\"7\",\"\",\"Task\",\"buy milk, eggs\",\"say \"\"hi\"\"\",\"home\",\"a.md\",\"2\",\"false\",\"100\",\"\",\"-5\",\"200\",\"\",\"Weekly\"\n";

#[test]
fn test_todo_serialize_exact() {
    let todo = TodoList::new(vec![sample_task()]);
    let content = FileContent::TodoList(Box::new(todo));
    let bytes = content.custom_serialize().unwrap();
    assert_eq!(bytes, SAMPLE_CSV.as_bytes().to_vec());
}

#[test]
fn test_todo_round_trip() {
    let todo = TodoList::new(vec![sample_task()]);
    let content = FileContent::TodoList(Box::new(todo));
    let bytes = content.custom_serialize().unwrap();
    let back = FileContent::custom_deserialize(&bytes, FileType::TodoList).unwrap();
    match back {
        FileContent::TodoList(t) => {
            assert_eq!(t.tasks.len(), 1);
            let task = &t.tasks[0];
            assert_eq!(task.task_id, 7);
            assert_eq!(task.parent_id, None);
            assert_eq!(task.task_type, TaskType::Task);
            assert_eq!(task.content, "buy milk, eggs");
            assert_eq!(task.description, "say \"hi\"");
            assert_eq!(task.project, "home");
            assert_eq!(task.attachment.as_str(), "a.md");
            assert_eq!(task.priority, 2);
            assert!(!task.is_completed);
            assert_eq!(task.created_at, 100);
            assert_eq!(task.completed_at, None);
            assert_eq!(task.start_date, Some(-5));
            assert_eq!(task.due_date, 200);
            assert_eq!(task.reminder, None);
            assert_eq!(task.repeat, Some(Repeat::Weekly));
        },
        _ => panic!("expected a todo list"),
    }
}

#[test]
fn test_todo_accepts_unquoted_fields() {
    let text = "task_id,parent_id,task_type,content,description,project,attachment,priority,is_completed,created_at,completed_at,start_date,due_date,reminder,repeat\n7,,Task,milk,,home,a.md,2,false,100,,,200,,\n";
    let back = FileContent::custom_deserialize(text.as_bytes(), FileType::TodoList).unwrap();
    match back {
        FileContent::TodoList(t) => {
            assert_eq!(t.tasks.len(), 1);
            assert_eq!(t.tasks[0].content, "milk");
            assert_eq!(t.tasks[0].due_date, 200);
            assert_eq!(t.tasks[0].repeat, None);
        },
        _ => panic!("expected a todo list"),
    }
}

#[test]
fn test_todo_rejects_wrong_header() {
    let text = "\"id\",\"other\"\n";
    let err = FileContent::custom_deserialize(text.as_bytes(), FileType::TodoList).unwrap_err();
    assert_eq!(err, NoterError::DecodeError);
}

#[test]
fn test_todo_rejects_bad_number() {
    let text = "task_id,parent_id,task_type,content,description,project,attachment,priority,is_completed,created_at,completed_at,start_date,due_date,reminder,repeat\nabc,,Task,milk,,home,a.md,2,false,100,,,200,,\n";
    let err = FileContent::custom_deserialize(text.as_bytes(), FileType::TodoList).unwrap_err();
    assert_eq!(err, NoterError::DecodeError);
}

#[test]
fn test_todo_round_trip_with_newlines_and_two_tasks() {
    let mut first = sample_task();
    first.content = "line one\nline two".to_string();
    let mut second = sample_task();
    second.task_id = 8;
    second.task_type = TaskType::CheckList;
    second.parent_id = Some(7);
    second.is_completed = true;
    second.completed_at = Some(150);
    let todo = TodoList::new(vec![first, second]);
    let bytes = FileContent::TodoList(Box::new(todo)).custom_serialize().unwrap();
    let back = FileContent::custom_deserialize(&bytes, FileType::TodoList).unwrap();
    match back {
        FileContent::TodoList(t) => {
            assert_eq!(t.tasks.len(), 2);
            assert_eq!(t.tasks[0].content, "line one\nline two");
            assert_eq!(t.tasks[1].task_id, 8);
            assert_eq!(t.tasks[1].task_type, TaskType::CheckList);
            assert_eq!(t.tasks[1].parent_id, Some(7));
            assert!(t.tasks[1].is_completed);
            assert_eq!(t.tasks[1].completed_at, Some(150));
        },
        _ => panic!("expected a todo list"),
    }
}

#[test]
fn test_note_round_trip() {
    let note = Note::new("héllo\nsvět, \"quotes\" and [[links]]".to_string());
    let content = FileContent::Note(Box::new(note));
    let bytes = content.custom_serialize().unwrap();
    let back = FileContent::custom_deserialize(&bytes, FileType::Note).unwrap();
    match back {
        FileContent::Note(n) => {
            assert_eq!(n.get_body().as_str(), "héllo\nsvět, \"quotes\" and [[links]]");
        },
        _ => panic!("expected a note"),
    }
}

#[test]
fn test_note_serialize_is_verbatim_utf8() {
    let note = Note::new("svět".to_string());
    let bytes = note.custom_serialize().unwrap();
    assert_eq!(bytes, "svět".as_bytes().to_vec());
}

#[test]
fn test_note_rejects_invalid_utf8() {
    let bytes: Vec<u8> = vec![0xff, 0xfe, 0x41];
    let err = FileContent::custom_deserialize(&bytes, FileType::Note).unwrap_err();
    assert_eq!(err, NoterError::DecodeError);
}

#[test]
fn test_image_and_table_pass_bytes_through() {
    let bytes: Vec<u8> = vec![1, 2, 3, 255];
    let img = FileContent::custom_deserialize(&bytes, FileType::Image).unwrap();
    assert_eq!(img.custom_serialize().unwrap(), bytes);
    let tab = FileContent::custom_deserialize(&bytes, FileType::Table).unwrap();
    assert_eq!(tab.custom_serialize().unwrap(), bytes);
}

#[test]
fn test_default_contents() {
    let note = FileContent::default(FileType::Note);
    assert_eq!(note.get_type(), FileType::Note);
    assert_eq!(note.custom_serialize().unwrap(), Vec::<u8>::new());

    let todo = FileContent::default(FileType::TodoList);
    assert_eq!(todo.get_type(), FileType::TodoList);
    let bytes = todo.custom_serialize().unwrap();
    let text = String::from_utf8(bytes).unwrap();
    assert!(text.starts_with("\"task_id\""));
    assert_eq!(text.lines().count(), 1);

    assert_eq!(FileContent::default(FileType::Image).get_type(), FileType::Image);
    assert_eq!(FileContent::default(FileType::Table).get_type(), FileType::Table);
}

#[test]
fn test_file_from_bytes() {
    let notes_dir = "/home/user/notes";
    let id = Id::new("/home/user/notes/pepa/diary.md", notes_dir);
    let file = File::from_bytes(id, "dear diary".as_bytes(), 10, 20).unwrap();
    assert_eq!(file.id.as_str(), "pepa/diary.md");
    assert_eq!(file.name, "diary");
    assert_eq!(file.created_at, 10);
    assert_eq!(file.modified_at, 20);
    assert_eq!(file.get_type(), FileType::Note);

    let preview = file.get_preview();
    assert_eq!(preview.id.as_str(), "pepa/diary.md");
    assert_eq!(preview.name, "diary");
    assert_eq!(preview.file_type, FileType::Note);
    assert_eq!(preview.created_at, 10);
    assert_eq!(preview.modified_at, 20);
}

#[test]
fn test_file_from_bytes_unknown_extension() {
    let id = Id::from_string("weird.xyz".to_string());
    let err = File::from_bytes(id, &[], 0, 0).unwrap_err();
    assert_eq!(err, NoterError::UnknownExtension);
}

#[test]
fn test_file_from_bytes_decode_error() {
    let id = Id::from_string("broken.md".to_string());
    let err = File::from_bytes(id, &[0xff], 0, 0).unwrap_err();
    assert_eq!(err, NoterError::DecodeError);
}

#[test]
fn test_file_put_updates_body_and_timestamp() {
    let id = Id::from_string("a.md".to_string());
    let mut file = File::new(
        id,
        "a".to_string(),
        FileContent::Note(Box::new(Note::new("old".to_string()))),
        1,
        1,
    );
    file.put(FileContent::Note(Box::new(Note::new("new".to_string()))), 5);
    assert_eq!(file.created_at, 1);
    assert_eq!(file.modified_at, 5);
    match &file.content {
        FileContent::Note(n) => assert_eq!(n.get_body().as_str(), "new"),
        _ => panic!("expected a note"),
    }
}

#[test]
fn test_file_rename_preserves_created_at() {
    let notes_dir = "/home/user/notes";
    let id = Id::new("/home/user/notes/pepa/old.md", notes_dir);
    let mut file = File::new(
        id,
        "old".to_string(),
        FileContent::Note(Box::new(Note::new("body".to_string()))),
        10,
        10,
    );
    file.rename("fresh", notes_dir, 42);
    assert_eq!(file.id.as_str(), "pepa/fresh.md");
    assert_eq!(file.name, "fresh");
    assert_eq!(file.created_at, 10);
    assert_eq!(file.modified_at, 42);
    match &file.content {
        FileContent::Note(n) => assert_eq!(n.get_body().as_str(), "body"),
        _ => panic!("expected a note"),
    }
}
