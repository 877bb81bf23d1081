use vstd::prelude::*;
use crate::chars::{chars_eq, chars_of, string_of};
use crate::id::Id;
use crate::numbers::{
    dec_of, dec_of_i64, i64_to_chars, parse_i64_chars, parse_i64_opt, parse_u32_chars,
    parse_u32_opt, parse_u8_chars, parse_u8_opt, u32_to_chars, u8_to_chars,
};

verus! {

/// How a task repeats.
#[derive(Debug, Clone, Copy, PartialEq, Eq, Structural)]
pub enum Repeat {
    Daily,
    Weekly,
    Monthly,
    Yearly,
}

/// The kind of a task entry.
#[derive(Debug, Clone, Copy, PartialEq, Eq, Structural)]
pub enum TaskType {
    Task,
    CheckList,
}

/// One task of a todo list. Timestamps are seconds since the epoch.
#[derive(Debug)]
pub struct Task {
    pub task_id: u32,
    pub parent_id: Option<u32>,
    pub task_type: TaskType,
    pub content: String,
    pub description: String,
    pub project: String,
    pub attachment: Id,
    pub priority: u8,
    pub is_completed: bool,
    pub created_at: i64,
    pub completed_at: Option<i64>,
    pub start_date: Option<i64>,
    pub due_date: i64,
    pub reminder: Option<i64>,
    pub repeat: Option<Repeat>,
}

/// The mathematical value of a task.
pub struct TaskV {
    pub task_id: u32,
    pub parent_id: Option<u32>,
    pub task_type: TaskType,
    pub content: Seq<char>,
    pub description: Seq<char>,
    pub project: Seq<char>,
    pub attachment: Seq<char>,
    pub priority: u8,
    pub is_completed: bool,
    pub created_at: i64,
    pub completed_at: Option<i64>,
    pub start_date: Option<i64>,
    pub due_date: i64,
    pub reminder: Option<i64>,
    pub repeat: Option<Repeat>,
}

impl View for Task {
    type V = TaskV;

    open spec fn view(&self) -> TaskV {
        TaskV {
            task_id: self.task_id,
            parent_id: self.parent_id,
            task_type: self.task_type,
            content: self.content@,
            description: self.description@,
            project: self.project@,
            attachment: self.attachment@,
            priority: self.priority,
            is_completed: self.is_completed,
            created_at: self.created_at,
            completed_at: self.completed_at,
            start_date: self.start_date,
            due_date: self.due_date,
            reminder: self.reminder,
            repeat: self.repeat,
        }
    }
}

/// An ordered list of tasks.
#[derive(Debug)]
pub struct TodoList {
    pub tasks: Vec<Task>,
}

impl View for TodoList {
    type V = Seq<TaskV>;

    open spec fn view(&self) -> Seq<TaskV> {
        self.tasks@.map_values(|t: Task| t@)
    }
}

impl TodoList {
    /// A todo list over the given tasks.
    pub fn new(tasks: Vec<Task>) -> (r: TodoList)
        ensures
            r@ == tasks@.map_values(|t: Task| t@),
    {
        TodoList { tasks }
    }
}

impl Default for TodoList {
    /// The empty todo list.
    fn default() -> (r: TodoList)
        ensures
            r@ == Seq::<TaskV>::empty(),
    {
        let r = TodoList { tasks: Vec::new() };
        proof {
            assert(r@ =~= Seq::<TaskV>::empty());
        }
        r
    }
}

/// The written name of a task type.
pub open spec fn task_type_seq(t: TaskType) -> Seq<char> {
    match t {
        TaskType::Task => "Task"@,
        TaskType::CheckList => "CheckList"@,
    }
}

/// The task type written as `s`, if any.
pub open spec fn parse_task_type(s: Seq<char>) -> Option<TaskType> {
    if s == "Task"@ {
        Some(TaskType::Task)
    } else if s == "CheckList"@ {
        Some(TaskType::CheckList)
    } else {
        None
    }
}

/// The written name of a repeat rule.
pub open spec fn repeat_seq(r: Repeat) -> Seq<char> {
    match r {
        Repeat::Daily => "Daily"@,
        Repeat::Weekly => "Weekly"@,
        Repeat::Monthly => "Monthly"@,
        Repeat::Yearly => "Yearly"@,
    }
}

/// The repeat rule written as `s`, if any.
pub open spec fn parse_repeat(s: Seq<char>) -> Option<Repeat> {
    if s == "Daily"@ {
        Some(Repeat::Daily)
    } else if s == "Weekly"@ {
        Some(Repeat::Weekly)
    } else if s == "Monthly"@ {
        Some(Repeat::Monthly)
    } else if s == "Yearly"@ {
        Some(Repeat::Yearly)
    } else {
        None
    }
}

/// The writing of a boolean.
pub open spec fn bool_seq(b: bool) -> Seq<char> {
    if b {
        "true"@
    } else {
        "false"@
    }
}

/// The boolean written as `s`, if any.
pub open spec fn parse_bool(s: Seq<char>) -> Option<bool> {
    if s == "true"@ {
        Some(true)
    } else if s == "false"@ {
        Some(false)
    } else {
        None
    }
}

/// An optional field: empty when absent.
pub open spec fn opt_u32_seq(v: Option<u32>) -> Seq<char> {
    match v {
        None => Seq::<char>::empty(),
        Some(x) => dec_of(x as nat),
    }
}

/// An optional field read back: empty means absent.
pub open spec fn parse_opt_u32(s: Seq<char>) -> Option<Option<u32>> {
    if s.len() == 0 {
        Some(None)
    } else {
        match parse_u32_opt(s) {
            Some(v) => Some(Some(v)),
            None => None,
        }
    }
}

/// An optional timestamp field: empty when absent.
pub open spec fn opt_i64_seq(v: Option<i64>) -> Seq<char> {
    match v {
        None => Seq::<char>::empty(),
        Some(x) => dec_of_i64(x as int),
    }
}

/// An optional timestamp read back: empty means absent.
pub open spec fn parse_opt_i64(s: Seq<char>) -> Option<Option<i64>> {
    if s.len() == 0 {
        Some(None)
    } else {
        match parse_i64_opt(s) {
            Some(v) => Some(Some(v)),
            None => None,
        }
    }
}

/// An optional repeat rule: empty when absent.
pub open spec fn opt_repeat_seq(v: Option<Repeat>) -> Seq<char> {
    match v {
        None => Seq::<char>::empty(),
        Some(x) => repeat_seq(x),
    }
}

/// An optional repeat rule read back: empty means absent.
pub open spec fn parse_opt_repeat(s: Seq<char>) -> Option<Option<Repeat>> {
    if s.len() == 0 {
        Some(None)
    } else {
        match parse_repeat(s) {
            Some(v) => Some(Some(v)),
            None => None,
        }
    }
}

/// The task schema: one column per field, in writing order.
pub open spec fn header_fields() -> Seq<Seq<char>> {
    seq![
        "task_id"@,
        "parent_id"@,
        "task_type"@,
        "content"@,
        "description"@,
        "project"@,
        "attachment"@,
        "priority"@,
        "is_completed"@,
        "created_at"@,
        "completed_at"@,
        "start_date"@,
        "due_date"@,
        "reminder"@,
        "repeat"@,
    ]
}

/// The written fields of one task, in schema order.
pub open spec fn fields_of_task(t: TaskV) -> Seq<Seq<char>> {
    seq![
        dec_of(t.task_id as nat),
        opt_u32_seq(t.parent_id),
        task_type_seq(t.task_type),
        t.content,
        t.description,
        t.project,
        t.attachment,
        dec_of(t.priority as nat),
        bool_seq(t.is_completed),
        dec_of_i64(t.created_at as int),
        opt_i64_seq(t.completed_at),
        opt_i64_seq(t.start_date),
        dec_of_i64(t.due_date as int),
        opt_i64_seq(t.reminder),
        opt_repeat_seq(t.repeat),
    ]
}

/// The task written as a record of fields, if every field reads back.
pub open spec fn parse_task(fs: Seq<Seq<char>>) -> Option<TaskV> {
    if fs.len() != 15 {
        None
    } else {
        if parse_u32_opt(fs[0]) is Some && parse_opt_u32(fs[1]) is Some && parse_task_type(
            fs[2],
        ) is Some && parse_u8_opt(fs[7]) is Some && parse_bool(fs[8]) is Some
            && parse_i64_opt(fs[9]) is Some && parse_opt_i64(fs[10]) is Some && parse_opt_i64(
            fs[11],
        ) is Some && parse_i64_opt(fs[12]) is Some && parse_opt_i64(fs[13]) is Some
            && parse_opt_repeat(fs[14]) is Some {
            Some(
                TaskV {
                    task_id: parse_u32_opt(fs[0]).unwrap(),
                    parent_id: parse_opt_u32(fs[1]).unwrap(),
                    task_type: parse_task_type(fs[2]).unwrap(),
                    content: fs[3],
                    description: fs[4],
                    project: fs[5],
                    attachment: fs[6],
                    priority: parse_u8_opt(fs[7]).unwrap(),
                    is_completed: parse_bool(fs[8]).unwrap(),
                    created_at: parse_i64_opt(fs[9]).unwrap(),
                    completed_at: parse_opt_i64(fs[10]).unwrap(),
                    start_date: parse_opt_i64(fs[11]).unwrap(),
                    due_date: parse_i64_opt(fs[12]).unwrap(),
                    reminder: parse_opt_i64(fs[13]).unwrap(),
                    repeat: parse_opt_repeat(fs[14]).unwrap(),
                },
            )
        } else {
            None
        }
    }
}

/// Writes the fields of one task in schema order.
#[verifier::rlimit(50)]
pub fn task_to_fields(t: &Task) -> (r: Vec<Vec<char>>)
    ensures
        r@.map_values(|f: Vec<char>| f@) == fields_of_task(t@),
{
    let ghost g = fields_of_task(t@);
    let mut r: Vec<Vec<char>> = Vec::new();
    r.push(u32_to_chars(t.task_id));
    proof {
        assert(r@[0]@ == g[0]);
    }
    match t.parent_id {
        None => r.push(Vec::new()),
        Some(x) => r.push(u32_to_chars(x)),
    }
    proof {
        assert(r@[1]@ == g[1]);
    }
    match t.task_type {
        TaskType::Task => r.push(chars_of("Task")),
        TaskType::CheckList => r.push(chars_of("CheckList")),
    }
    proof {
        assert(r@[2]@ == g[2]);
    }
    r.push(chars_of(t.content.as_str()));
    r.push(chars_of(t.description.as_str()));
    r.push(chars_of(t.project.as_str()));
    r.push(chars_of(t.attachment.as_str()));
    r.push(u8_to_chars(t.priority));
    proof {
        assert(r@[3]@ == g[3]);
        assert(r@[4]@ == g[4]);
        assert(r@[5]@ == g[5]);
        assert(r@[6]@ == g[6]);
        assert(r@[7]@ == g[7]);
    }
    if t.is_completed {
        r.push(chars_of("true"));
    } else {
        r.push(chars_of("false"));
    }
    proof {
        assert(r@[8]@ == g[8]);
    }
    r.push(i64_to_chars(t.created_at));
    push_opt_i64(&mut r, t.completed_at);
    push_opt_i64(&mut r, t.start_date);
    r.push(i64_to_chars(t.due_date));
    push_opt_i64(&mut r, t.reminder);
    proof {
        assert(r@[9]@ == g[9]);
        assert(r@[10]@ == g[10]);
        assert(r@[11]@ == g[11]);
        assert(r@[12]@ == g[12]);
        assert(r@[13]@ == g[13]);
    }
    match t.repeat {
        None => r.push(Vec::new()),
        Some(Repeat::Daily) => r.push(chars_of("Daily")),
        Some(Repeat::Weekly) => r.push(chars_of("Weekly")),
        Some(Repeat::Monthly) => r.push(chars_of("Monthly")),
        Some(Repeat::Yearly) => r.push(chars_of("Yearly")),
    }
    proof {
        assert(r@[14]@ == g[14]);
        assert(r@.len() == 15);
        assert(r@.map_values(|f: Vec<char>| f@) =~= g);
    }
    r
}

/// Writes an optional timestamp field.
fn push_opt_i64(r: &mut Vec<Vec<char>>, v: Option<i64>)
    ensures
        final(r)@.len() == old(r)@.len() + 1,
        forall|k: int| 0 <= k < old(r)@.len() ==> final(r)@[k] == old(r)@[k],
        final(r)@[old(r)@.len() as int]@ == opt_i64_seq(v),
{
    match v {
        None => r.push(Vec::new()),
        Some(x) => r.push(i64_to_chars(x)),
    }
}

/// Reads one task from a record of fields, as `parse_task` lays down.
pub fn task_from_fields(fs: &Vec<Vec<char>>) -> (r: Option<Task>)
    ensures
        match r {
            Some(t) => parse_task(fs@.map_values(|f: Vec<char>| f@)) == Some(t@),
            None => parse_task(fs@.map_values(|f: Vec<char>| f@)) is None,
        },
{
    let ghost fv = fs@.map_values(|f: Vec<char>| f@);
    if fs.len() != 15 {
        return None;
    }
    let task_id = match parse_u32_chars(&fs[0]) {
        Some(v) => v,
        None => {
            return None;
        },
    };
    let parent_id = match parse_opt_u32_exec(&fs[1]) {
        Some(v) => v,
        None => {
            return None;
        },
    };
    let task_type = match parse_task_type_exec(&fs[2]) {
        Some(v) => v,
        None => {
            return None;
        },
    };
    let priority = match parse_u8_chars(&fs[7]) {
        Some(v) => v,
        None => {
            return None;
        },
    };
    let is_completed = match parse_bool_exec(&fs[8]) {
        Some(v) => v,
        None => {
            return None;
        },
    };
    let created_at = match parse_i64_chars(&fs[9]) {
        Some(v) => v,
        None => {
            return None;
        },
    };
    let completed_at = match parse_opt_i64_exec(&fs[10]) {
        Some(v) => v,
        None => {
            return None;
        },
    };
    let start_date = match parse_opt_i64_exec(&fs[11]) {
        Some(v) => v,
        None => {
            return None;
        },
    };
    let due_date = match parse_i64_chars(&fs[12]) {
        Some(v) => v,
        None => {
            return None;
        },
    };
    let reminder = match parse_opt_i64_exec(&fs[13]) {
        Some(v) => v,
        None => {
            return None;
        },
    };
    let repeat = match parse_opt_repeat_exec(&fs[14]) {
        Some(v) => v,
        None => {
            return None;
        },
    };
    let t = Task {
        task_id,
        parent_id,
        task_type,
        content: string_of(&fs[3]),
        description: string_of(&fs[4]),
        project: string_of(&fs[5]),
        attachment: Id::from_string(string_of(&fs[6])),
        priority,
        is_completed,
        created_at,
        completed_at,
        start_date,
        due_date,
        reminder,
        repeat,
    };
    Some(t)
}

/// Reads a task type field.
fn parse_task_type_exec(s: &Vec<char>) -> (r: Option<TaskType>)
    ensures
        r == parse_task_type(s@),
{
    if chars_eq(s, &chars_of("Task")) {
        Some(TaskType::Task)
    } else if chars_eq(s, &chars_of("CheckList")) {
        Some(TaskType::CheckList)
    } else {
        None
    }
}

/// Reads a boolean field.
fn parse_bool_exec(s: &Vec<char>) -> (r: Option<bool>)
    ensures
        r == parse_bool(s@),
{
    if chars_eq(s, &chars_of("true")) {
        Some(true)
    } else if chars_eq(s, &chars_of("false")) {
        Some(false)
    } else {
        None
    }
}

/// Reads an optional number field: empty means absent.
fn parse_opt_u32_exec(s: &Vec<char>) -> (r: Option<Option<u32>>)
    ensures
        r == parse_opt_u32(s@),
{
    if s.len() == 0 {
        Some(None)
    } else {
        match parse_u32_chars(s) {
            Some(v) => Some(Some(v)),
            None => None,
        }
    }
}

/// Reads an optional timestamp field: empty means absent.
fn parse_opt_i64_exec(s: &Vec<char>) -> (r: Option<Option<i64>>)
    ensures
        r == parse_opt_i64(s@),
{
    if s.len() == 0 {
        Some(None)
    } else {
        match parse_i64_chars(s) {
            Some(v) => Some(Some(v)),
            None => None,
        }
    }
}

/// Reads an optional repeat field: empty means absent.
fn parse_opt_repeat_exec(s: &Vec<char>) -> (r: Option<Option<Repeat>>)
    ensures
        r == parse_opt_repeat(s@),
{
    if s.len() == 0 {
        Some(None)
    } else if chars_eq(s, &chars_of("Daily")) {
        Some(Some(Repeat::Daily))
    } else if chars_eq(s, &chars_of("Weekly")) {
        Some(Some(Repeat::Weekly))
    } else if chars_eq(s, &chars_of("Monthly")) {
        Some(Some(Repeat::Monthly))
    } else if chars_eq(s, &chars_of("Yearly")) {
        Some(Some(Repeat::Yearly))
    } else {
        None
    }
}

/// The written fields of a task read back as the task itself: every field
/// codec inverts its writer.
pub proof fn lemma_task_round_trip(t: TaskV)
    ensures
        parse_task(fields_of_task(t)) == Some(t),
{
    reveal_strlit("Task");
    reveal_strlit("CheckList");
    reveal_strlit("true");
    reveal_strlit("false");
    reveal_strlit("Daily");
    reveal_strlit("Weekly");
    reveal_strlit("Monthly");
    reveal_strlit("Yearly");
    assert("Task"@.len() == 4);
    assert("CheckList"@.len() == 9);
    assert("true"@.len() == 4);
    assert("false"@.len() == 5);
    assert("Daily"@.len() == 5);
    assert("Weekly"@.len() == 6);
    assert("Monthly"@.len() == 7);
    assert("Yearly"@.len() == 6);
    assert("Daily"@[0] == 'D' && "Weekly"@[0] == 'W' && "Monthly"@[0] == 'M' && "Yearly"@[0]
        == 'Y');
    let fs = fields_of_task(t);
    assert(fs.len() == 15);
    crate::numbers::lemma_dec_round_trip(t.task_id as nat);
    crate::numbers::lemma_dec_round_trip(t.priority as nat);
    crate::numbers::lemma_i64_round_trip(t.created_at as int);
    crate::numbers::lemma_i64_round_trip(t.due_date as int);
    if t.parent_id is Some {
        crate::numbers::lemma_dec_round_trip(t.parent_id.unwrap() as nat);
    }
    if t.completed_at is Some {
        crate::numbers::lemma_i64_round_trip(t.completed_at.unwrap() as int);
    }
    if t.start_date is Some {
        crate::numbers::lemma_i64_round_trip(t.start_date.unwrap() as int);
    }
    if t.reminder is Some {
        crate::numbers::lemma_i64_round_trip(t.reminder.unwrap() as int);
    }
    assert(parse_task_type(task_type_seq(t.task_type)) == Some(t.task_type));
    assert(parse_bool(bool_seq(t.is_completed)) == Some(t.is_completed));
    assert(parse_opt_repeat(opt_repeat_seq(t.repeat)) == Some(t.repeat));
    assert(parse_task(fs) == Some(t));
}

} // verus!
