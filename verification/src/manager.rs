use vstd::prelude::*;
use crate::chars::{chars_of, string_of, subvec};
use crate::errors::NoterError;
use crate::file::renamed_id;
use crate::file_type::type_of_name;
use crate::id::{last_segment, path_of, Id};
use crate::note::{split_lines, strip_cr};

verus! {

/// The store core bound to one notes directory: every location it resolves
/// is derived from an id through the identifier component, so the
/// path-escape guard is enforced in one place. The filesystem calls
/// themselves belong to the surrounding application.
#[derive(Debug)]
pub struct FileManager {
    notes_dir: String,
}

impl View for FileManager {
    type V = Seq<char>;

    closed spec fn view(&self) -> Seq<char> {
        self.notes_dir@
    }
}

/// The display name of the notes directory: its last path segment, when
/// there is a nonempty one.
pub open spec fn dir_name_of(root: Seq<char>) -> Option<Seq<char>> {
    let seg = last_segment(root);
    if seg.len() == 0 {
        None
    } else {
        Some(seg)
    }
}

impl FileManager {
    /// A store over the given notes directory.
    pub fn new(notes_dir: String) -> (r: FileManager)
        ensures
            r@ == notes_dir@,
    {
        FileManager { notes_dir }
    }

    /// The filesystem path of an id below the notes directory.
    pub fn get_path(&self, id: &Id) -> (r: String)
        ensures
            r@ == path_of(id@, self@),
    {
        id.path_from_id(self.notes_dir.as_str())
    }

    /// The notes directory itself.
    pub fn get_notes_dir(&self) -> (r: &String)
        ensures
            r@ == self@,
    {
        &self.notes_dir
    }

    /// The display name of the notes directory; fails when the directory
    /// path has no nonempty last segment.
    pub fn get_dir_name(&self) -> (r: Result<String, NoterError>)
        ensures
            match r {
                Ok(name) => dir_name_of(self@) == Some(name@),
                Err(e) => e == NoterError::NotADirectory && dir_name_of(self@) is None,
            },
    {
        let cs = chars_of(self.notes_dir.as_str());
        proof {
            crate::chars::lemma_rfind(cs@, '/');
        }
        let cut = crate::chars::find_last(&cs, '/');
        let m: usize = cs.len();
        let seg: Vec<char> = match cut {
            None => subvec(&cs, 0, m),
            Some(i) => subvec(&cs, i + 1, m),
        };
        proof {
            assert(seg@ =~= last_segment(self@));
        }
        if seg.len() == 0 {
            Err(NoterError::NotADirectory)
        } else {
            Ok(string_of(&seg))
        }
    }

    /// The id a rename of `id` to `new_name` produces: the sibling id
    /// under the same parent with the same type; fails with
    /// `UnknownExtension` when the id's type cannot be inferred. The
    /// filesystem move belongs to the caller.
    pub fn rename(&self, id: &Id, new_name: &str) -> (r: Result<Id, NoterError>)
        ensures
            match r {
                Ok(new_id) => type_of_name(last_segment(id@)) is Some && new_id@ == renamed_id(
                    id@,
                    new_name@,
                    type_of_name(last_segment(id@)).unwrap(),
                    self@,
                ),
                Err(e) => e == NoterError::UnknownExtension && type_of_name(
                    last_segment(id@),
                ) is None,
            },
    {
        let t = match id.get_type() {
            Some(t) => t,
            None => {
                return Err(NoterError::UnknownExtension);
            },
        };
        let parent = match id.get_parent(self.notes_dir.as_str()) {
            Some(p) => p,
            None => Id::new(self.notes_dir.as_str(), self.notes_dir.as_str()),
        };
        Ok(Id::create_id(new_name, &parent, t, self.notes_dir.as_str()))
    }
}

/// The position of the first `": "` separator in a line, if any.
pub open spec fn sep_from(line: Seq<char>, i: int) -> Option<int>
    decreases line.len() - i,
{
    if i < 0 || i + 2 > line.len() {
        None
    } else if line[i] == ':' && line[i + 1] == ' ' {
        Some(i)
    } else {
        sep_from(line, i + 1)
    }
}

/// One frontmatter line read as a key and a value, split at the first
/// `": "`.
pub open spec fn fm_pair(line: Seq<char>) -> Option<(Seq<char>, Seq<char>)> {
    match sep_from(line, 0) {
        None => None,
        Some(i) => Some((line.take(i), line.skip(i + 2))),
    }
}

/// The frontmatter entries read from the lines after the opening
/// delimiter: each line one pair, until a closing delimiter or the end; a
/// line without a separator is malformed.
pub open spec fn fm_entries(lines: Seq<Seq<char>>, i: int) -> Option<
    Seq<(Seq<char>, Seq<char>)>,
>
    decreases lines.len() - i,
{
    if i < 0 || i >= lines.len() {
        Some(Seq::<(Seq<char>, Seq<char>)>::empty())
    } else if lines[i] == "---"@ {
        Some(Seq::<(Seq<char>, Seq<char>)>::empty())
    } else {
        match fm_pair(lines[i]) {
            None => None,
            Some(p) => match fm_entries(lines, i + 1) {
                Some(rest) => Some(seq![p] + rest),
                None => None,
            },
        }
    }
}

/// The frontmatter of a body: the first line must be the delimiter, and
/// the following lines up to the closing delimiter (or the end) are the
/// entries.
pub open spec fn frontmatter_of(body: Seq<char>) -> Option<Seq<(Seq<char>, Seq<char>)>> {
    let lines = split_lines(body);
    if lines.len() == 0 || lines[0] != "---"@ {
        None
    } else {
        fm_entries(lines, 1)
    }
}

/// Reads the frontmatter block at the top of a body: a `---` line, then
/// `key: value` lines, closed by another `---` line (or the end of the
/// body). Fails with `DecodeError` when the body does not open with the
/// delimiter or a line in the block has no separator. The entries keep
/// their order.
pub fn parse_frontmatter(body: &str) -> (r: Result<Vec<(String, String)>, NoterError>)
    ensures
        match r {
            Ok(pairs) => frontmatter_of(body@) == Some(
                pairs@.map_values(|p: (String, String)| (p.0@, p.1@)),
            ),
            Err(e) => e == NoterError::DecodeError && frontmatter_of(body@) is None,
        },
{
    let cs = chars_of(body);
    let lines = split_lines_exec(&cs);
    let ghost lv = lines@.map_values(|l: Vec<char>| l@);
    let delim = chars_of("---");
    if lines.len() == 0 {
        return Err(NoterError::DecodeError);
    }
    if !crate::chars::chars_eq(&lines[0], &delim) {
        proof {
            assert(lv[0] == lines@[0]@);
        }
        return Err(NoterError::DecodeError);
    }
    proof {
        assert(lv[0] == lines@[0]@);
    }
    let n: usize = lines.len();
    let mut pairs: Vec<(String, String)> = Vec::new();
    let mut i: usize = 1;
    while i < n
        invariant
            1 <= i <= n,
            n == lines@.len(),
            lv == lines@.map_values(|l: Vec<char>| l@),
            lv.len() == n,
            delim@ == "---"@,
            match fm_entries(lv, i as int) {
                Some(rest) => fm_entries(lv, 1) == Some(
                    pairs@.map_values(|p: (String, String)| (p.0@, p.1@)) + rest,
                ),
                None => fm_entries(lv, 1) is None,
            },
        decreases n - i,
    {
        proof {
            assert(lv[i as int] == lines@[i as int]@);
        }
        if crate::chars::chars_eq(&lines[i], &delim) {
            proof {
                assert(fm_entries(lv, i as int) == Some(
                    Seq::<(Seq<char>, Seq<char>)>::empty(),
                ));
                assert(pairs@.map_values(|p: (String, String)| (p.0@, p.1@)) + Seq::<
                    (Seq<char>, Seq<char>),
                >::empty() =~= pairs@.map_values(|p: (String, String)| (p.0@, p.1@)));
            }
            return Ok(pairs);
        }
        let line = &lines[i];
        let sep = find_sep(line);
        match sep {
            None => {
                return Err(NoterError::DecodeError);
            },
            Some(j) => {
                let ll: usize = line.len();
                let key = subvec(line, 0, j);
                let val = subvec(line, j + 2, ll);
                proof {
                    assert(key@ =~= lv[i as int].take(j as int));
                    assert(val@ =~= lv[i as int].skip(j + 2 as int));
                }
                let ghost before = pairs@.map_values(|p: (String, String)| (p.0@, p.1@));
                pairs.push((string_of(&key), string_of(&val)));
                proof {
                    let pair = fm_pair(lv[i as int]).unwrap();
                    assert(pairs@.map_values(|p: (String, String)| (p.0@, p.1@))
                        =~= before.push(pair));
                    if fm_entries(lv, i + 1 as int) is Some {
                        assert(before.push(pair) + fm_entries(lv, i + 1 as int).unwrap()
                            =~= before + (seq![pair] + fm_entries(lv, i + 1 as int).unwrap()));
                    }
                }
            },
        }
        i = i + 1;
    }
    proof {
        assert(fm_entries(lv, n as int) == Some(Seq::<(Seq<char>, Seq<char>)>::empty()));
        assert(pairs@.map_values(|p: (String, String)| (p.0@, p.1@)) + Seq::<
            (Seq<char>, Seq<char>),
        >::empty() =~= pairs@.map_values(|p: (String, String)| (p.0@, p.1@)));
    }
    Ok(pairs)
}

/// Finds the first `": "` separator of a line.
fn find_sep(line: &Vec<char>) -> (r: Option<usize>)
    ensures
        r == match sep_from(line@, 0) {
            Some(i) => Some(i as usize),
            None => None::<usize>,
        },
        r matches Some(i) ==> i + 2 <= line@.len() && sep_from(line@, 0) == Some(i as int),
{
    let n: usize = line.len();
    let mut i: usize = 0;
    loop
        invariant
            i <= n,
            n == line@.len(),
            sep_from(line@, 0) == sep_from(line@, i as int),
        decreases n - i,
    {
        if n - i < 2 {
            return None;
        }
        if line[i] == ':' && line[i + 1] == ' ' {
            return Some(i);
        }
        i = i + 1;
    }
}

/// Splits a body into its lines, as `split_lines` lays down.
pub fn split_lines_exec(s: &Vec<char>) -> (r: Vec<Vec<char>>)
    ensures
        r@.map_values(|l: Vec<char>| l@) == split_lines(s@),
{
    let n: usize = s.len();
    let mut out: Vec<Vec<char>> = Vec::new();
    let mut start: usize = 0;
    proof {
        assert(s@.skip(0) =~= s@);
        assert(out@.map_values(|l: Vec<char>| l@) =~= Seq::<Seq<char>>::empty());
        assert(Seq::<Seq<char>>::empty() + split_lines(s@) =~= split_lines(s@));
    }
    loop
        invariant
            start <= n,
            n == s@.len(),
            split_lines(s@) == out@.map_values(|l: Vec<char>| l@) + split_lines(
                s@.skip(start as int),
            ),
        decreases n - start,
    {
        proof {
            crate::chars::lemma_ffind(s@.skip(start as int), '\n');
        }
        let brk = crate::chars::find_from(s, start, '\n');
        match brk {
            Some(nl) => {
                proof {
                    let tail = s@.skip(start as int);
                    assert(tail[nl - start] == '\n');
                    assert(forall|m: int|
                        0 <= m < nl - start ==> tail[m] == s@[start + m] && tail[m] != '\n');
                    assert(crate::chars::ffind(tail, '\n') == Some(nl - start as int));
                    assert(tail.take(nl - start as int) =~= s@.subrange(
                        start as int,
                        nl as int,
                    ));
                    assert(tail.skip(nl - start + 1 as int) =~= s@.skip(nl + 1 as int));
                }
                let raw = subvec(s, start, nl);
                let line = strip_cr_exec(&raw);
                let ghost before = out@.map_values(|l: Vec<char>| l@);
                out.push(line);
                proof {
                    assert(out@.map_values(|l: Vec<char>| l@) =~= before.push(strip_cr(
                        s@.subrange(start as int, nl as int),
                    )));
                    assert(before.push(strip_cr(s@.subrange(start as int, nl as int)))
                        + split_lines(s@.skip(nl + 1 as int)) =~= before + (seq![
                        strip_cr(s@.subrange(start as int, nl as int)),
                    ] + split_lines(s@.skip(nl + 1 as int))));
                }
                start = nl + 1;
            },
            None => {
                proof {
                    let tail = s@.skip(start as int);
                    assert(crate::chars::ffind(tail, '\n') is None) by {
                        if crate::chars::ffind(tail, '\n') is Some {
                            let i = crate::chars::ffind(tail, '\n').unwrap();
                            assert(tail[i] == '\n');
                            assert(tail[i] == s@[start + i]);
                        }
                    }
                    assert(split_lines(tail) == seq![strip_cr(tail)]);
                }
                let raw = subvec(s, start, n);
                proof {
                    assert(raw@ =~= s@.skip(start as int));
                }
                let line = strip_cr_exec(&raw);
                let ghost before = out@.map_values(|l: Vec<char>| l@);
                out.push(line);
                proof {
                    assert(out@.map_values(|l: Vec<char>| l@) =~= before.push(strip_cr(
                        s@.skip(start as int),
                    )));
                    assert(before.push(strip_cr(s@.skip(start as int))) =~= before + seq![
                        strip_cr(s@.skip(start as int)),
                    ]);
                }
                return out;
            },
        }
    }
}

/// A line with a trailing carriage return removed.
fn strip_cr_exec(v: &Vec<char>) -> (r: Vec<char>)
    ensures
        r@ == strip_cr(v@),
{
    let n: usize = v.len();
    if n > 0 && v[n - 1] == '\r' {
        let r = subvec(v, 0, n - 1);
        proof {
            assert(r@ =~= v@.drop_last());
        }
        r
    } else {
        let r = subvec(v, 0, n);
        proof {
            assert(r@ =~= v@);
        }
        r
    }
}

} // verus!
