use vstd::prelude::*;
use crate::chars::{
    chars_eq, chars_of, contains_sub, find_last, has_substring, rfind, subvec,
};

verus! {

/// The closed set of document types. Each is in bijection with a filename
/// extension; `TodoList` and `Table` share the `csv` family and are told
/// apart by a `.todo` infix in the stem (the double-extension rule).
#[derive(Debug, Clone, Copy, PartialEq, Eq, Hash, Structural)]
pub enum FileType {
    Note,
    TodoList,
    Image,
    Table,
}

/// The canonical extension written for each type.
pub open spec fn ext_seq(t: FileType) -> Seq<char> {
    match t {
        FileType::Note => "md"@,
        FileType::TodoList => "todo.csv"@,
        FileType::Image => "png"@,
        FileType::Table => "csv"@,
    }
}

/// The type inferred from the trailing extension of a file name (the last
/// path segment): the part after the last dot decides, except that a `csv`
/// whose stem contains `.todo` is a todo list. `jpg` and `jpeg` are accepted
/// as images on read besides the canonical `png`.
pub open spec fn type_of_name(name: Seq<char>) -> Option<FileType> {
    match rfind(name, '.') {
        None => None,
        Some(i) => {
            let stem = name.take(i);
            let ext = name.skip(i + 1);
            if ext == "md"@ {
                Some(FileType::Note)
            } else if ext == "csv"@ {
                if has_substring(stem, ".todo"@) {
                    Some(FileType::TodoList)
                } else {
                    Some(FileType::Table)
                }
            } else if ext == "png"@ || ext == "jpg"@ || ext == "jpeg"@ {
                Some(FileType::Image)
            } else {
                None
            }
        },
    }
}

impl FileType {
    /// The type whose canonical extension is exactly `s`, if any.
    pub fn from_str(s: &str) -> (r: Option<FileType>)
        ensures
            match r {
                Some(t) => s@ == ext_seq(t),
                None => forall|t: FileType| s@ != ext_seq(t),
            },
    {
        let cs = chars_of(s);
        if chars_eq(&cs, &chars_of("md")) {
            Some(FileType::Note)
        } else if chars_eq(&cs, &chars_of("todo.csv")) {
            Some(FileType::TodoList)
        } else if chars_eq(&cs, &chars_of("png")) {
            Some(FileType::Image)
        } else if chars_eq(&cs, &chars_of("csv")) {
            Some(FileType::Table)
        } else {
            proof {
                assert forall|t: FileType| s@ != ext_seq(t) by {
                    match t {
                        FileType::Note => assert(s@ != "md"@),
                        FileType::TodoList => assert(s@ != "todo.csv"@),
                        FileType::Image => assert(s@ != "png"@),
                        FileType::Table => assert(s@ != "csv"@),
                    }
                }
            }
            None
        }
    }

    /// The canonical extension of this type.
    pub fn extension(&self) -> (r: String)
        ensures
            r@ == ext_seq(*self),
    {
        match self {
            FileType::Note => "md".to_owned(),
            FileType::TodoList => "todo.csv".to_owned(),
            FileType::Image => "png".to_owned(),
            FileType::Table => "csv".to_owned(),
        }
    }
}

/// Infers the type of a file name by the trailing-extension rule.
pub fn infer_type(name: &Vec<char>) -> (r: Option<FileType>)
    ensures
        r == type_of_name(name@),
{
    proof {
        crate::chars::lemma_rfind(name@, '.');
    }
    let dot = find_last(name, '.');
    match dot {
        None => None,
        Some(i) => {
            proof {
                assert(rfind(name@, '.') == Some(i as int));
            }
            let n: usize = name.len();
            let stem = subvec(name, 0, i);
            let ext = subvec(name, i + 1, n);
            proof {
                assert(stem@ =~= name@.take(i as int));
                assert(ext@ =~= name@.skip(i + 1));
            }
            if chars_eq(&ext, &chars_of("md")) {
                Some(FileType::Note)
            } else if chars_eq(&ext, &chars_of("csv")) {
                if contains_sub(&stem, &chars_of(".todo")) {
                    Some(FileType::TodoList)
                } else {
                    Some(FileType::Table)
                }
            } else if chars_eq(&ext, &chars_of("png")) || chars_eq(&ext, &chars_of("jpg"))
                || chars_eq(&ext, &chars_of("jpeg")) {
                Some(FileType::Image)
            } else {
                None
            }
        },
    }
}

/// The last dot of `a + "." + b` is the written one whenever `b` itself has
/// no dot.
proof fn lemma_rfind_dot_append(a: Seq<char>, b: Seq<char>)
    requires
        !b.contains('.'),
    ensures
        rfind(a + seq!['.'] + b, '.') == Some(a.len() as int),
    decreases b.len(),
{
    let s = a + seq!['.'] + b;
    if b.len() == 0 {
        assert(s[s.len() - 1] == '.');
    } else {
        assert(s[s.len() - 1] == b[b.len() - 1]);
        assert(b[b.len() - 1] != '.');
        assert(!b.drop_last().contains('.')) by {
            assert(forall|j: int|
                0 <= j < b.len() - 1 ==> b.drop_last()[j] == b[j]);
        }
        lemma_rfind_dot_append(a, b.drop_last());
        assert(s.drop_last() =~= a + seq!['.'] + b.drop_last());
    }
}

/// Extension inference is total and exact over the known extensions: writing
/// any of the four canonical extensions after a stem infers exactly the type
/// that owns it (a `csv` stem that already holds `.todo` stays a todo list),
/// and a name whose last extension is none of the known ones infers nothing.
pub proof fn lemma_extension_inference(stem: Seq<char>, ext: Seq<char>)
    requires
        !ext.contains('.'),
    ensures
        type_of_name(stem + seq!['.'] + "md"@) == Some(FileType::Note),
        type_of_name(stem + seq!['.'] + "todo"@ + seq!['.'] + "csv"@) == Some(
            FileType::TodoList,
        ),
        type_of_name(stem + seq!['.'] + "png"@) == Some(FileType::Image),
        type_of_name(stem + seq!['.'] + "csv"@) == (if has_substring(stem, ".todo"@) {
            Some(FileType::TodoList)
        } else {
            Some(FileType::Table)
        }),
        ext != "md"@ && ext != "csv"@ && ext != "png"@ && ext != "jpg"@ && ext != "jpeg"@
            ==> type_of_name(stem + seq!['.'] + ext) == None::<FileType>,
        !stem.contains('.') ==> type_of_name(stem) == None::<FileType>,
{
    reveal_strlit("md");
    reveal_strlit("todo");
    reveal_strlit("csv");
    reveal_strlit("png");
    reveal_strlit("jpg");
    reveal_strlit("jpeg");
    reveal_strlit(".todo");
    lemma_tail_inference(stem, "md"@);
    lemma_tail_inference(stem, "png"@);
    lemma_tail_inference(stem, "csv"@);
    lemma_tail_inference(stem + seq!['.'] + "todo"@, "csv"@);
    let st = stem + seq!['.'] + "todo"@;
    assert(has_substring(st, ".todo"@)) by {
        assert(st.subrange(stem.len() as int, st.len() as int) =~= ".todo"@);
        assert(crate::chars::occurs_at(st, ".todo"@, stem.len() as int));
    }
    if ext != "md"@ && ext != "csv"@ && ext != "png"@ && ext != "jpg"@ && ext != "jpeg"@ {
        lemma_tail_inference(stem, ext);
    }
    if !stem.contains('.') {
        crate::chars::lemma_rfind(stem, '.');
        if rfind(stem, '.') is Some {
            assert(stem[rfind(stem, '.').unwrap()] == '.');
        }
    }
}

/// Appending `"." + ext` (for a dot-free `ext`) makes `ext` the trailing
/// extension and the former name the stem.
proof fn lemma_tail_inference(stem: Seq<char>, ext: Seq<char>)
    requires
        !ext.contains('.'),
    ensures
        rfind(stem + seq!['.'] + ext, '.') == Some(stem.len() as int),
        (stem + seq!['.'] + ext).take(stem.len() as int) == stem,
        (stem + seq!['.'] + ext).skip(stem.len() + 1 as int) == ext,
{
    lemma_rfind_dot_append(stem, ext);
    let s = stem + seq!['.'] + ext;
    assert(s.take(stem.len() as int) =~= stem);
    assert(s.skip(stem.len() + 1 as int) =~= ext);
}

} // verus!
