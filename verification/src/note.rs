use vstd::prelude::*;
use crate::chars::{chars_of, ffind, find_from, string_of, subvec};
use crate::id::{guarded_id_chars, id_from_path_opt, Id};

verus! {

/// A line with a single trailing carriage return removed, if one is there.
pub open spec fn strip_cr(line: Seq<char>) -> Seq<char> {
    if line.len() > 0 && line[line.len() - 1] == '\r' {
        line.drop_last()
    } else {
        line
    }
}

/// The lines of a body, split on the newline character.
pub open spec fn split_lines(s: Seq<char>) -> Seq<Seq<char>>
    decreases s.len(),
{
    let i = ffind(s, '\n');
    if i is Some && 0 <= i.unwrap() < s.len() {
        seq![strip_cr(s.take(i.unwrap()))] + split_lines(s.skip(i.unwrap() + 1))
    } else {
        seq![strip_cr(s)]
    }
}

/// Scans a line from position `j` for the closer of a link opened just
/// before `j`: the first bracket character decides. A stray opening bracket
/// or a lone closer discards the candidate; a doubled closer ends it.
pub open spec fn close_from(line: Seq<char>, j: int) -> Option<int>
    decreases line.len() - j,
{
    if j < 0 || j >= line.len() {
        None
    } else if line[j] == '[' {
        None
    } else if line[j] == ']' {
        if j + 1 < line.len() && line[j + 1] == ']' {
            Some(j)
        } else {
            None
        }
    } else {
        close_from(line, j + 1)
    }
}

/// The link targets of a line, scanning from position `i`: each doubled
/// opening bracket starts a candidate, closed by the rule of `close_from`;
/// candidates that reach a stray bracket or the end of the line are
/// discarded, and scanning continues after the opener either way.
pub open spec fn targets_from(line: Seq<char>, i: int) -> Seq<Seq<char>>
    decreases line.len() - i,
{
    if i < 0 || i + 2 > line.len() {
        Seq::<Seq<char>>::empty()
    } else if line[i] == '[' && line[i + 1] == '[' {
        match close_from(line, i + 2) {
            Some(k) => seq![line.subrange(i + 2, k)] + targets_from(line, i + 2),
            None => targets_from(line, i + 2),
        }
    } else {
        targets_from(line, i + 1)
    }
}

/// A target joined onto the root, as the filesystem join does: an absolute
/// target replaces the root, any other hangs below it.
pub open spec fn link_join(root: Seq<char>, t: Seq<char>) -> Seq<char> {
    if t.len() > 0 && t[0] == '/' {
        t
    } else {
        root + seq!['/'] + t
    }
}

/// The id a single target resolves to, if the joined path stays under the
/// root; a target that escapes the root resolves to nothing.
pub open spec fn resolve_target(t: Seq<char>, root: Seq<char>) -> Option<Seq<char>> {
    id_from_path_opt(link_join(root, t), root)
}

/// The ids of a run of targets, in order, with unresolved targets dropped.
pub open spec fn resolve_all(ts: Seq<Seq<char>>, root: Seq<char>) -> Seq<Seq<char>>
    decreases ts.len(),
{
    if ts.len() == 0 {
        Seq::<Seq<char>>::empty()
    } else {
        (match resolve_target(ts[0], root) {
            Some(id) => seq![id],
            None => Seq::<Seq<char>>::empty(),
        }) + resolve_all(ts.drop_first(), root)
    }
}

/// The resolved links of a run of lines, in line order.
pub open spec fn links_of_lines(lines: Seq<Seq<char>>, root: Seq<char>) -> Seq<Seq<char>>
    decreases lines.len(),
{
    if lines.len() == 0 {
        Seq::<Seq<char>>::empty()
    } else {
        resolve_all(targets_from(lines[0], 0), root) + links_of_lines(lines.drop_first(), root)
    }
}

/// The resolved links of a note body against a root, line by line.
pub open spec fn links_of(body: Seq<char>, root: Seq<char>) -> Seq<Seq<char>> {
    links_of_lines(split_lines(body), root)
}

/// A note: its body text, stored verbatim.
#[derive(Debug)]
pub struct Note {
    body: String,
}

impl View for Note {
    type V = Seq<char>;

    closed spec fn view(&self) -> Seq<char> {
        self.body@
    }
}

impl Note {
    /// A note over the given body.
    pub fn new(body: String) -> (r: Note)
        ensures
            r@ == body@,
    {
        Note { body }
    }

    /// The body text.
    pub fn get_body(&self) -> (r: &String)
        ensures
            r@ == self@,
    {
        &self.body
    }

    /// Scans the body for doubled-bracket references, line by line, and
    /// resolves each target against the notes directory through the
    /// path-escape guard; targets that escape the root are dropped, the
    /// rest become ids in scanning order.
    pub fn find_links(&self, notes_dir: &str) -> (r: Vec<Id>)
        ensures
            r@.map_values(|x: Id| x@) == links_of(self@, notes_dir@),
    {
        let body = chars_of(self.body.as_str());
        let root = chars_of(notes_dir);
        let mut ids: Vec<Id> = Vec::new();
        let n: usize = body.len();
        let mut start: usize = 0;
        proof {
            assert(body@.skip(0) =~= body@);
            assert(ids@.map_values(|x: Id| x@) =~= Seq::<Seq<char>>::empty());
            assert(Seq::<Seq<char>>::empty() + links_of_lines(split_lines(body@), root@)
                =~= links_of_lines(split_lines(body@), root@));
        }
        loop
            invariant
                start <= n,
                n == body@.len(),
                body@ == self@,
                root@ == notes_dir@,
                ids@.map_values(|x: Id| x@) + links_of_lines(split_lines(body@.skip(start as int)), root@)
                    == links_of(self@, notes_dir@),
            decreases n - start,
        {
            proof {
                crate::chars::lemma_ffind(body@.skip(start as int), '\n');
            }
            let brk = find_from(&body, start, '\n');
            match brk {
                Some(nl) => {
                    proof {
                        let tail = body@.skip(start as int);
                        assert(tail[nl - start] == '\n');
                        assert(forall|m: int|
                            0 <= m < nl - start ==> tail[m] == body@[start + m] && tail[m]
                                != '\n');
                        assert(ffind(tail, '\n') == Some(nl - start as int));
                        assert(tail.take(nl - start as int) =~= body@.subrange(
                            start as int,
                            nl as int,
                        ));
                        assert(tail.skip(nl - start + 1 as int) =~= body@.skip(nl + 1 as int));
                    }
                    let line = subvec(&body, start, nl);
                    scan_line(&line, &root, &mut ids);
                    proof {
                        let tail = body@.skip(start as int);
                        assert(split_lines(tail) == seq![strip_cr(line@)] + split_lines(
                            body@.skip(nl + 1 as int),
                        ));
                        assert((seq![strip_cr(line@)] + split_lines(body@.skip(nl + 1 as int)))
                            .drop_first() =~= split_lines(body@.skip(nl + 1 as int)));
                        assert(links_of_lines(
                            seq![strip_cr(line@)] + split_lines(body@.skip(nl + 1 as int)),
                            root@,
                        ) == resolve_all(targets_from(strip_cr(line@), 0), root@)
                            + links_of_lines(split_lines(body@.skip(nl + 1 as int)), root@));
                    }
                    start = nl + 1;
                },
                None => {
                    proof {
                        let tail = body@.skip(start as int);
                        assert(ffind(tail, '\n') is None) by {
                            if ffind(tail, '\n') is Some {
                                let i = ffind(tail, '\n').unwrap();
                                assert(tail[i] == '\n');
                                assert(tail[i] == body@[start + i]);
                            }
                        }
                        assert(split_lines(tail) == seq![strip_cr(tail)]);
                        assert(seq![strip_cr(tail)].drop_first() =~= Seq::<Seq<char>>::empty());
                        assert(links_of_lines(seq![strip_cr(tail)], root@) == resolve_all(
                            targets_from(strip_cr(tail), 0),
                            root@,
                        ) + links_of_lines(Seq::<Seq<char>>::empty(), root@));
                    }
                    let line = subvec(&body, start, n);
                    proof {
                        assert(line@ =~= body@.skip(start as int));
                    }
                    scan_line(&line, &root, &mut ids);
                    return ids;
                },
            }
        }
    }
}

/// Scans one line for link targets and appends the ids of those that
/// resolve under the root, in scanning order.
fn scan_line(raw: &Vec<char>, root: &Vec<char>, ids: &mut Vec<Id>)
    ensures
        final(ids)@.map_values(|x: Id| x@) == old(ids)@.map_values(|x: Id| x@) + resolve_all(
            targets_from(strip_cr(raw@), 0),
            root@,
        ),
{
    let line = strip_cr_vec(raw);
    let n: usize = line.len();
    let mut i: usize = 0;
    proof {
        assert(ids@.map_values(|x: Id| x@) + resolve_all(targets_from(line@, 0), root@)
            =~= old(ids)@.map_values(|x: Id| x@) + resolve_all(targets_from(line@, 0), root@));
    }
    loop
        invariant
            i <= n,
            n == line@.len(),
            line@ == strip_cr(raw@),
            ids@.map_values(|x: Id| x@) + resolve_all(targets_from(line@, i as int), root@)
                == old(ids)@.map_values(|x: Id| x@) + resolve_all(
                targets_from(line@, 0),
                root@,
            ),
        decreases n - i,
    {
        if n - i < 2 {
            proof {
                assert(targets_from(line@, i as int) =~= Seq::<Seq<char>>::empty());
                assert(resolve_all(Seq::<Seq<char>>::empty(), root@) =~= Seq::<
                    Seq<char>,
                >::empty());
                assert(ids@.map_values(|x: Id| x@) + Seq::<Seq<char>>::empty() =~= ids@
                    .map_values(|x: Id| x@));
            }
            return ;
        }
        if line[i] == '[' && line[i + 1] == '[' {
            let close = scan_close(&line, i + 2);
            match close {
                Some(k) => {
                    let target = subvec(&line, i + 2, k);
                    proof {
                        assert(target@ =~= line@.subrange(i + 2 as int, k as int));
                        let ts = targets_from(line@, i as int);
                        assert(ts == seq![target@] + targets_from(line@, i + 2 as int));
                        assert(ts[0] == target@);
                        assert(ts.drop_first() =~= targets_from(line@, i + 2 as int));
                    }
                    push_resolved(&target, root, ids);
                },
                None => {
                    proof {
                        assert(targets_from(line@, i as int) == targets_from(
                            line@,
                            i + 2 as int,
                        ));
                    }
                },
            }
            i = i + 2;
        } else {
            proof {
                assert(targets_from(line@, i as int) == targets_from(line@, i + 1 as int));
            }
            i = i + 1;
        }
    }
}

/// Resolves one target against the root and appends its id when it stays
/// under the root.
fn push_resolved(target: &Vec<char>, root: &Vec<char>, ids: &mut Vec<Id>)
    ensures
        final(ids)@.map_values(|x: Id| x@) == old(ids)@.map_values(|x: Id| x@) + (match
            resolve_target(target@, root@) {
            Some(id) => seq![id],
            None => Seq::<Seq<char>>::empty(),
        }),
{
    let joined: Vec<char> = if target.len() > 0 && target[0] == '/' {
        subvec(target, 0, target.len())
    } else {
        let mut j = subvec(root, 0, root.len());
        j.push('/');
        let j2 = crate::chars::concat_chars(&j, target);
        proof {
            assert(root@.subrange(0, root@.len() as int) =~= root@);
            assert(j2@ =~= root@ + seq!['/'] + target@);
        }
        j2
    };
    proof {
        assert(target@.subrange(0, target@.len() as int) =~= target@);
        assert(joined@ == link_join(root@, target@));
    }
    let resolved = guarded_id_chars(&joined, root);
    match resolved {
        Some(idc) => {
            let ghost before = ids@.map_values(|x: Id| x@);
            ids.push(Id::from_string(string_of(&idc)));
            proof {
                assert(ids@.map_values(|x: Id| x@) =~= before + seq![idc@]);
            }
        },
        None => {
            proof {
                assert(ids@.map_values(|x: Id| x@) =~= ids@.map_values(|x: Id| x@) + Seq::<
                    Seq<char>,
                >::empty());
            }
        },
    }
}

/// Scans for the closer of a link candidate, as `close_from` lays down.
fn scan_close(line: &Vec<char>, start: usize) -> (r: Option<usize>)
    requires
        start <= line@.len(),
    ensures
        r == match close_from(line@, start as int) {
            Some(k) => Some(k as usize),
            None => None::<usize>,
        },
        match close_from(line@, start as int) {
            Some(k) => start <= k && k + 1 < line@.len(),
            None => true,
        },
{
    let n: usize = line.len();
    let mut j: usize = start;
    loop
        invariant
            start <= j <= n,
            n == line@.len(),
            close_from(line@, start as int) == close_from(line@, j as int),
        decreases n - j,
    {
        if j >= n {
            return None;
        }
        let c = line[j];
        if c == '[' {
            return None;
        }
        if c == ']' {
            if j + 1 < n && line[j + 1] == ']' {
                return Some(j);
            } else {
                return None;
            }
        }
        j = j + 1;
    }
}

/// A line with a trailing carriage return removed.
fn strip_cr_vec(v: &Vec<char>) -> (r: Vec<char>)
    ensures
        r@ == strip_cr(v@),
{
    let n: usize = v.len();
    if n > 0 && v[n - 1] == '\r' {
        let r = subvec(v, 0, n - 1);
        proof {
            assert(r@ =~= v@.drop_last());
        }
        r
    } else {
        let r = subvec(v, 0, n);
        proof {
            assert(r@ =~= v@);
        }
        r
    }
}

} // verus!
