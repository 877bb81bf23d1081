use vstd::prelude::*;
use vstd::utf8::{decode_utf8, encode_utf8, valid_utf8};
use crate::chars::{chars_eq, chars_of, string_from_bytes, string_of};
use crate::csv::{parse_rows, parse_rows_exec, render_rows, render_rows_exec, rows_view};
use crate::errors::NoterError;
use crate::file_type::FileType;
use crate::image::Image;
use crate::note::Note;
use crate::table::Table;
use crate::tasks::{
    fields_of_task, header_fields, parse_task, task_from_fields, task_to_fields, Task, TaskV,
    TodoList,
};

verus! {

/// The encode/decode contract every document type offers: a byte writing
/// and its reading.
pub trait FileSerializable: Sized {
    fn custom_serialize(&self) -> Result<Vec<u8>, NoterError>;

    fn custom_deserialize(file_content: &[u8]) -> Result<Box<Self>, NoterError>;
}

/// The mathematical value of a document body.
pub enum ContentV {
    Note(Seq<char>),
    TodoList(Seq<TaskV>),
    Image(Seq<u8>),
    Table(Seq<u8>),
}

/// The body of one document, tagged by its type.
#[derive(Debug)]
pub enum FileContent {
    Note(Box<Note>),
    TodoList(Box<TodoList>),
    Image(Box<Image>),
    Table(Box<Table>),
}

impl View for FileContent {
    type V = ContentV;

    open spec fn view(&self) -> ContentV {
        match self {
            FileContent::Note(n) => ContentV::Note(n@),
            FileContent::TodoList(t) => ContentV::TodoList(t@),
            FileContent::Image(i) => ContentV::Image(i@),
            FileContent::Table(t) => ContentV::Table(t@),
        }
    }
}

/// The type a content value carries.
pub open spec fn type_of_content(c: ContentV) -> FileType {
    match c {
        ContentV::Note(_) => FileType::Note,
        ContentV::TodoList(_) => FileType::TodoList,
        ContentV::Image(_) => FileType::Image,
        ContentV::Table(_) => FileType::Table,
    }
}

/// The records of a todo-list table: the schema header, then one record per
/// task.
pub open spec fn todo_rows_spec(tasks: Seq<TaskV>) -> Seq<Seq<Seq<char>>> {
    seq![header_fields()] + tasks.map_values(|t: TaskV| fields_of_task(t))
}

/// The text of a todo-list table.
pub open spec fn todo_text(tasks: Seq<TaskV>) -> Seq<char> {
    render_rows(todo_rows_spec(tasks))
}

/// The tasks read from a run of records, one task per record; a record that
/// does not read back as a task spoils the whole reading.
pub open spec fn parse_tasks(rows: Seq<Seq<Seq<char>>>) -> Option<Seq<TaskV>>
    decreases rows.len(),
{
    if rows.len() == 0 {
        Some(Seq::<TaskV>::empty())
    } else {
        match parse_task(rows[0]) {
            None => None,
            Some(t) => match parse_tasks(rows.drop_first()) {
                Some(ts) => Some(seq![t] + ts),
                None => None,
            },
        }
    }
}

/// The tasks read from a todo-list text: the table must parse, open with
/// the exact schema header, and every following record must read as a task.
pub open spec fn todo_parse(text: Seq<char>) -> Option<Seq<TaskV>> {
    match parse_rows(text) {
        None => None,
        Some(rows) => {
            if rows.len() >= 1 && rows[0] == header_fields() {
                parse_tasks(rows.skip(1))
            } else {
                None
            }
        },
    }
}

/// The byte writing of a content value: a note body in UTF-8 verbatim, a
/// todo list as its table text in UTF-8, images and tables as their bytes.
pub open spec fn content_bytes(c: ContentV) -> Seq<u8> {
    match c {
        ContentV::Note(body) => encode_utf8(body),
        ContentV::TodoList(tasks) => encode_utf8(todo_text(tasks)),
        ContentV::Image(b) => b,
        ContentV::Table(b) => b,
    }
}

/// The content value read from bytes for an expected type, if the bytes
/// parse as that type.
pub open spec fn decode_content(b: Seq<u8>, t: FileType) -> Option<ContentV> {
    match t {
        FileType::Note => if valid_utf8(b) {
            Some(ContentV::Note(decode_utf8(b)))
        } else {
            None
        },
        FileType::TodoList => if valid_utf8(b) {
            match todo_parse(decode_utf8(b)) {
                Some(tasks) => Some(ContentV::TodoList(tasks)),
                None => None,
            }
        } else {
            None
        },
        FileType::Image => Some(ContentV::Image(b)),
        FileType::Table => Some(ContentV::Table(b)),
    }
}

/// The empty content of each type.
pub open spec fn default_content(t: FileType) -> ContentV {
    match t {
        FileType::Note => ContentV::Note(Seq::<char>::empty()),
        FileType::TodoList => ContentV::TodoList(Seq::<TaskV>::empty()),
        FileType::Image => ContentV::Image(Seq::<u8>::empty()),
        FileType::Table => ContentV::Table(Seq::<u8>::empty()),
    }
}

impl FileContent {
    /// An empty/default body of the given type.
    pub fn default(file_type: FileType) -> (r: FileContent)
        ensures
            r@ == default_content(file_type),
    {
        match file_type {
            FileType::Note => {
                let n = Box::new(Note::new(String::new()));
                proof {
                    assert(n@ =~= Seq::<char>::empty());
                }
                FileContent::Note(n)
            },
            FileType::TodoList => {
                let t = Box::new(TodoList::new(Vec::new()));
                proof {
                    assert(t@ =~= Seq::<TaskV>::empty());
                }
                FileContent::TodoList(t)
            },
            FileType::Image => FileContent::Image(Box::new(Image::default())),
            FileType::Table => FileContent::Table(Box::new(Table::default())),
        }
    }

    /// The type this body carries.
    pub fn get_type(&self) -> (r: FileType)
        ensures
            r == type_of_content(self@),
    {
        match self {
            FileContent::Note(_) => FileType::Note,
            FileContent::TodoList(_) => FileType::TodoList,
            FileContent::Image(_) => FileType::Image,
            FileContent::Table(_) => FileType::Table,
        }
    }

    /// Writes this body as bytes; the writing never fails.
    pub fn custom_serialize(&self) -> (r: Result<Vec<u8>, NoterError>)
        ensures
            r matches Ok(b) && b@ == content_bytes(self@),
    {
        match self {
            FileContent::Note(n) => Ok(note_to_bytes(n)),
            FileContent::TodoList(t) => Ok(todo_to_bytes(t)),
            FileContent::Image(i) => Ok(vstd::slice::slice_to_vec(i.bytes().as_slice())),
            FileContent::Table(t) => Ok(vstd::slice::slice_to_vec(t.bytes().as_slice())),
        }
    }

    /// Reads a body of the expected type from bytes; fails with
    /// `DecodeError` exactly when the bytes do not parse as that type.
    pub fn custom_deserialize(file_content: &[u8], file_type: FileType) -> (r: Result<
        FileContent,
        NoterError,
    >)
        ensures
            match r {
                Ok(c) => decode_content(file_content@, file_type) == Some(c@) && type_of_content(
                    c@,
                ) == file_type,
                Err(e) => e == NoterError::DecodeError && decode_content(
                    file_content@,
                    file_type,
                ) is None,
            },
    {
        match file_type {
            FileType::Note => {
                match note_from_bytes(file_content) {
                    Some(n) => Ok(FileContent::Note(n)),
                    None => Err(NoterError::DecodeError),
                }
            },
            FileType::TodoList => {
                match todo_from_bytes(file_content) {
                    Some(t) => Ok(FileContent::TodoList(t)),
                    None => Err(NoterError::DecodeError),
                }
            },
            FileType::Image => Ok(FileContent::Image(Box::new(Image::new(file_content)))),
            FileType::Table => Ok(FileContent::Table(Box::new(Table::new(file_content)))),
        }
    }
}

impl FileSerializable for Note {
    fn custom_serialize(&self) -> Result<Vec<u8>, NoterError> {
        Ok(note_to_bytes(self))
    }

    fn custom_deserialize(file_content: &[u8]) -> Result<Box<Self>, NoterError> {
        match note_from_bytes(file_content) {
            Some(n) => Ok(n),
            None => Err(NoterError::DecodeError),
        }
    }
}

impl FileSerializable for TodoList {
    fn custom_serialize(&self) -> Result<Vec<u8>, NoterError> {
        Ok(todo_to_bytes(self))
    }

    fn custom_deserialize(file_content: &[u8]) -> Result<Box<Self>, NoterError> {
        match todo_from_bytes(file_content) {
            Some(t) => Ok(t),
            None => Err(NoterError::DecodeError),
        }
    }
}

impl FileSerializable for Image {
    fn custom_serialize(&self) -> Result<Vec<u8>, NoterError> {
        Ok(vstd::slice::slice_to_vec(self.bytes().as_slice()))
    }

    fn custom_deserialize(file_content: &[u8]) -> Result<Box<Self>, NoterError> {
        Ok(Box::new(Image::new(file_content)))
    }
}

impl FileSerializable for Table {
    fn custom_serialize(&self) -> Result<Vec<u8>, NoterError> {
        Ok(vstd::slice::slice_to_vec(self.bytes().as_slice()))
    }

    fn custom_deserialize(file_content: &[u8]) -> Result<Box<Self>, NoterError> {
        Ok(Box::new(Table::new(file_content)))
    }
}

/// A note body written as its UTF-8 bytes.
fn note_to_bytes(n: &Note) -> (r: Vec<u8>)
    ensures
        r@ == encode_utf8(n@),
{
    n.get_body().as_str().as_bytes_vec()
}

/// A note read back from UTF-8 bytes; invalid UTF-8 is nothing.
fn note_from_bytes(b: &[u8]) -> (r: Option<Box<Note>>)
    ensures
        match r {
            Some(n) => valid_utf8(b@) && n@ == decode_utf8(b@),
            None => !valid_utf8(b@),
        },
{
    let v = vstd::slice::slice_to_vec(b);
    match string_from_bytes(v) {
        Some(s) => {
            proof {
                vstd::utf8::encode_utf8_valid_utf8(s@);
                vstd::utf8::encode_utf8_decode_utf8(s@);
            }
            Some(Box::new(Note::new(s)))
        },
        None => None,
    }
}

/// A todo list written as its table text in UTF-8.
fn todo_to_bytes(t: &TodoList) -> (r: Vec<u8>)
    ensures
        r@ == encode_utf8(todo_text(t@)),
{
    let mut rows: Vec<Vec<Vec<char>>> = Vec::new();
    rows.push(header_row());
    let n: usize = t.tasks.len();
    let mut k: usize = 0;
    while k < n
        invariant
            k <= n,
            n == t.tasks@.len(),
            rows_view(rows@) == todo_rows_spec(t@).take(k + 1 as int),
        decreases n - k,
    {
        let ghost before = rows_view(rows@);
        rows.push(task_to_fields(&t.tasks[k]));
        proof {
            assert(rows_view(rows@) =~= before.push(fields_of_task(t.tasks@[k as int]@)));
            assert(todo_rows_spec(t@)[k + 1] == t@.map_values(|x: TaskV| fields_of_task(x))[
                k as int]);
            assert(rows_view(rows@) =~= todo_rows_spec(t@).take(k + 2 as int));
        }
        k = k + 1;
    }
    proof {
        assert(todo_rows_spec(t@).len() == 1 + t@.len());
        assert(todo_rows_spec(t@).take(n + 1 as int) =~= todo_rows_spec(t@));
    }
    let text = render_rows_exec(&rows);
    let s = string_of(&text);
    s.as_str().as_bytes_vec()
}

/// The schema header as a record.
fn header_row() -> (r: Vec<Vec<char>>)
    ensures
        r@.map_values(|f: Vec<char>| f@) == header_fields(),
        r@.len() == 15,
{
    let mut r: Vec<Vec<char>> = Vec::new();
    r.push(chars_of("task_id"));
    r.push(chars_of("parent_id"));
    r.push(chars_of("task_type"));
    r.push(chars_of("content"));
    r.push(chars_of("description"));
    r.push(chars_of("project"));
    r.push(chars_of("attachment"));
    r.push(chars_of("priority"));
    r.push(chars_of("is_completed"));
    r.push(chars_of("created_at"));
    r.push(chars_of("completed_at"));
    r.push(chars_of("start_date"));
    r.push(chars_of("due_date"));
    r.push(chars_of("reminder"));
    r.push(chars_of("repeat"));
    proof {
        assert(r@.map_values(|f: Vec<char>| f@) =~= header_fields());
    }
    r
}

/// Decides whether a record is exactly the schema header.
fn is_header(row: &Vec<Vec<char>>) -> (r: bool)
    ensures
        r == (row@.map_values(|f: Vec<char>| f@) == header_fields()),
{
    let h = header_row();
    if row.len() != 15 {
        proof {
            assert(row@.map_values(|f: Vec<char>| f@).len() == row@.len());
        }
        return false;
    }
    let mut k: usize = 0;
    while k < 15
        invariant
            k <= 15,
            row@.len() == 15,
            h@.map_values(|f: Vec<char>| f@) == header_fields(),
            h@.len() == 15,
            forall|j: int| 0 <= j < k ==> row@[j]@ == header_fields()[j],
        decreases 15 - k,
    {
        if !chars_eq(&row[k], &h[k]) {
            proof {
                assert(row@.map_values(|f: Vec<char>| f@)[k as int] == row@[k as int]@);
                assert(h@.map_values(|f: Vec<char>| f@)[k as int] == h@[k as int]@);
            }
            return false;
        }
        proof {
            assert(h@.map_values(|f: Vec<char>| f@)[k as int] == h@[k as int]@);
        }
        k = k + 1;
    }
    proof {
        assert(row@.map_values(|f: Vec<char>| f@) =~= header_fields());
    }
    true
}

/// A todo list read back from UTF-8 table text; a malformed table, a wrong
/// header, or a record that does not read as a task is nothing.
fn todo_from_bytes(b: &[u8]) -> (r: Option<Box<TodoList>>)
    ensures
        match r {
            Some(t) => valid_utf8(b@) && todo_parse(decode_utf8(b@)) == Some(t@),
            None => !valid_utf8(b@) || todo_parse(decode_utf8(b@)) is None,
        },
{
    let v = vstd::slice::slice_to_vec(b);
    let s = match string_from_bytes(v) {
        Some(s) => s,
        None => {
            return None;
        },
    };
    proof {
        vstd::utf8::encode_utf8_valid_utf8(s@);
        vstd::utf8::encode_utf8_decode_utf8(s@);
    }
    let text = chars_of(s.as_str());
    let rows = match parse_rows_exec(&text) {
        Some(rows) => rows,
        None => {
            return None;
        },
    };
    let ghost rv = rows_view(rows@);
    if rows.len() == 0 {
        return None;
    }
    if !is_header(&rows[0]) {
        proof {
            assert(rv[0] == rows@[0]@.map_values(|f: Vec<char>| f@));
        }
        return None;
    }
    proof {
        assert(rv[0] == rows@[0]@.map_values(|f: Vec<char>| f@));
    }
    let n: usize = rows.len();
    let mut tasks: Vec<Task> = Vec::new();
    let mut k: usize = 1;
    while k < n
        invariant
            1 <= k <= n,
            n == rows@.len(),
            rv == rows_view(rows@),
            rv.len() == n,
            match parse_tasks(rv.skip(k as int)) {
                Some(rest) => parse_tasks(rv.skip(1)) == Some(
                    tasks@.map_values(|t: Task| t@) + rest,
                ),
                None => parse_tasks(rv.skip(1)) is None,
            },
        decreases n - k,
    {
        proof {
            assert(rv.skip(k as int)[0] == rv[k as int]);
            assert(rv.skip(k as int).drop_first() =~= rv.skip(k + 1 as int));
            assert(rv[k as int] == rows@[k as int]@.map_values(|f: Vec<char>| f@));
        }
        let t = match task_from_fields(&rows[k]) {
            Some(t) => t,
            None => {
                proof {
                    assert(parse_tasks(rv.skip(k as int)) is None);
                }
                return None;
            },
        };
        let ghost tv = tasks@.map_values(|x: Task| x@);
        tasks.push(t);
        proof {
            assert(tasks@.map_values(|x: Task| x@) =~= tv.push(t@));
            if parse_tasks(rv.skip(k + 1 as int)) is Some {
                assert(tv.push(t@) + parse_tasks(rv.skip(k + 1 as int)).unwrap() =~= tv + (
                seq![t@] + parse_tasks(rv.skip(k + 1 as int)).unwrap()));
            }
        }
        k = k + 1;
    }
    proof {
        assert(rv.skip(n as int) =~= Seq::<Seq<Seq<char>>>::empty());
        assert(parse_tasks(rv.skip(1)) == Some(tasks@.map_values(|t: Task| t@) + Seq::<
            TaskV,
        >::empty()));
        assert(tasks@.map_values(|t: Task| t@) + Seq::<TaskV>::empty() =~= tasks@.map_values(
            |t: Task| t@,
        ));
    }
    Some(Box::new(TodoList::new(tasks)))
}

/// Reading the writing of any content value returns the value: the
/// round-trip law of the typed content codec, for notes and todo lists (and
/// for the opaque image and table bodies alike).
pub proof fn lemma_content_round_trip(c: ContentV)
    ensures
        decode_content(content_bytes(c), type_of_content(c)) == Some(c),
{
    match c {
        ContentV::Note(body) => {
            vstd::utf8::encode_utf8_valid_utf8(body);
            vstd::utf8::encode_utf8_decode_utf8(body);
        },
        ContentV::TodoList(tasks) => {
            let text = todo_text(tasks);
            vstd::utf8::encode_utf8_valid_utf8(text);
            vstd::utf8::encode_utf8_decode_utf8(text);
            let rows = todo_rows_spec(tasks);
            assert(rows.len() == 1 + tasks.len());
            assert(header_fields().len() == 15);
            assert forall|k: int| 0 <= k < rows.len() implies #[trigger] rows[k].len()
                >= 1 by {
                if k >= 1 {
                    assert(rows[k] == tasks.map_values(|t: TaskV| fields_of_task(t))[k - 1]);
                    assert(fields_of_task(tasks[k - 1]).len() == 15);
                }
            }
            assert(text.skip(0) =~= render_rows(rows));
            crate::csv::lemma_parse_render_rows(text, 0, rows);
            assert(rows[0] == header_fields());
            assert(rows.skip(1) =~= tasks.map_values(|t: TaskV| fields_of_task(t)));
            lemma_parse_tasks_of_renders(tasks);
        },
        ContentV::Image(b) => {
        },
        ContentV::Table(b) => {
        },
    }
}

/// Reading each task record written by `fields_of_task` returns the tasks.
proof fn lemma_parse_tasks_of_renders(tasks: Seq<TaskV>)
    ensures
        parse_tasks(tasks.map_values(|t: TaskV| fields_of_task(t))) == Some(tasks),
    decreases tasks.len(),
{
    let rows = tasks.map_values(|t: TaskV| fields_of_task(t));
    if tasks.len() == 0 {
        assert(rows.len() == 0);
        assert(Seq::<TaskV>::empty() =~= tasks);
    } else {
        crate::tasks::lemma_task_round_trip(tasks[0]);
        assert(rows[0] == fields_of_task(tasks[0]));
        assert(rows.drop_first() =~= tasks.drop_first().map_values(
            |t: TaskV| fields_of_task(t),
        ));
        lemma_parse_tasks_of_renders(tasks.drop_first());
        assert(seq![tasks[0]] + tasks.drop_first() =~= tasks);
    }
}

} // verus!
