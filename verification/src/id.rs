use vstd::prelude::*;
use crate::chars::{
    chars_eq, chars_of, ffind, find_from, find_last, is_prefix, rfind, string_of, subvec,
};
use crate::errors::NoterError;
use crate::file_type::{infer_type, type_of_name, ext_seq, FileType};

verus! {

/// `s` with a single leading separator removed, if one is there.
pub open spec fn drop_lead_sep(s: Seq<char>) -> Seq<char> {
    if s.len() > 0 && s[0] == '/' {
        s.drop_first()
    } else {
        s
    }
}

/// The identifier stored for a raw path or id given against `root`: the root
/// is stripped as a prefix when present (with or without its own leading
/// separator, so both absolute paths and bare ids are accepted), then a
/// single leading separator is stripped. What remains is stored unchanged.
pub open spec fn id_of(p: Seq<char>, root: Seq<char>) -> Seq<char> {
    let bare = drop_lead_sep(root);
    if is_prefix(root, p) {
        drop_lead_sep(p.skip(root.len() as int))
    } else if is_prefix(bare, p) {
        drop_lead_sep(p.skip(bare.len() as int))
    } else {
        drop_lead_sep(p)
    }
}

/// The guarded form: the id of `p` only when `root` is an ancestor of `p`
/// (again accepting the form without the leading separator); nothing
/// otherwise. This is the path-escape guard.
pub open spec fn id_from_path_opt(p: Seq<char>, root: Seq<char>) -> Option<Seq<char>> {
    let bare = drop_lead_sep(root);
    if p == root || p == bare {
        Some(Seq::<char>::empty())
    } else if is_prefix(root + seq!['/'], p) {
        Some(p.skip(root.len() + 1 as int))
    } else if is_prefix(bare + seq!['/'], p) {
        Some(p.skip(bare.len() + 1 as int))
    } else {
        None
    }
}

/// The filesystem path of an id under `root`: the root itself for the empty
/// id, else the id joined below the root.
pub open spec fn path_of(id: Seq<char>, root: Seq<char>) -> Seq<char> {
    if id.len() == 0 {
        root
    } else {
        root + seq!['/'] + id
    }
}

/// The last path segment of an id: everything after the last separator, or
/// the whole id when it has none.
pub open spec fn last_segment(id: Seq<char>) -> Seq<char> {
    match rfind(id, '/') {
        None => id,
        Some(i) => id.skip(i + 1),
    }
}

/// The display name of an id: its last segment cut before the segment's
/// first dot.
pub open spec fn name_of(id: Seq<char>) -> Seq<char> {
    let seg = last_segment(id);
    match ffind(seg, '.') {
        None => seg,
        Some(j) => seg.take(j),
    }
}

/// The parent of an id: nothing when the id has no separator (it names a
/// root-level entry), else everything before the last separator, revalidated
/// against the root as `id_of` does.
pub open spec fn parent_of(id: Seq<char>, root: Seq<char>) -> Option<Seq<char>> {
    match rfind(id, '/') {
        None => None,
        Some(i) => Some(id_of(id.take(i), root)),
    }
}

/// The raw child string composed below a parent id: `parent + "/" + name +
/// "." + extension`, with no separator written after an empty (root) parent.
pub open spec fn child_raw(parent: Seq<char>, name: Seq<char>, t: FileType) -> Seq<char> {
    let lead = if parent.len() == 0 {
        Seq::<char>::empty()
    } else {
        parent + seq!['/']
    };
    lead + name + seq!['.'] + ext_seq(t)
}

/// A canonical, root-relative, slash-separated identifier of one document or
/// directory under the root. It never stores the root prefix and never
/// begins with a separator when produced by `new`; equality is structural.
#[derive(Debug, Eq, Hash)]
pub struct Id {
    s: String,
}

impl View for Id {
    type V = Seq<char>;

    closed spec fn view(&self) -> Seq<char> {
        self.s@
    }
}

impl Clone for Id {
    fn clone(&self) -> (r: Self)
        ensures
            r@ == self@,
    {
        Id { s: self.s.clone() }
    }
}

impl PartialEq for Id {
    fn eq(&self, other: &Self) -> (r: bool)
        ensures
            r == (self@ == other@),
    {
        self.s == other.s
    }
}

impl vstd::std_specs::cmp::PartialEqSpecImpl for Id {
    open spec fn obeys_eq_spec() -> bool {
        true
    }

    open spec fn eq_spec(&self, other: &Self) -> bool {
        self@ == other@
    }
}

impl Id {
    /// Builds the id of `path` (an absolute path, a root-relative path, or a
    /// bare id) against the notes directory, stripping the root prefix and a
    /// single leading separator.
    pub fn new(path: &str, notes_dir: &str) -> (r: Id)
        ensures
            r@ == id_of(path@, notes_dir@),
    {
        let p = chars_of(path);
        let root = chars_of(notes_dir);
        Id::new_from_chars(&p, &root)
    }

    /// As `new`, over character vectors.
    fn new_from_chars(p: &Vec<char>, root: &Vec<char>) -> (r: Id)
        ensures
            r@ == id_of(p@, root@),
    {
        let bare = drop_lead_sep_vec(root);
        let rem: Vec<char> = if crate::chars::starts_with(p, root) {
            subvec(p, root.len(), p.len())
        } else if crate::chars::starts_with(p, &bare) {
            subvec(p, bare.len(), p.len())
        } else {
            subvec(p, 0, p.len())
        };
        proof {
            assert(p@.subrange(0, p@.len() as int) =~= p@);
        }
        let id = drop_lead_sep_vec(&rem);
        Id { s: string_of(&id) }
    }

    /// Wraps an already-canonical id string unchanged.
    pub fn from_string(id: String) -> (r: Id)
        ensures
            r@ == id@,
    {
        Id { s: id }
    }

    /// The id as a string slice.
    pub fn as_str(&self) -> (r: &str)
        ensures
            r@ == self@,
    {
        self.s.as_str()
    }

    /// The id of the parent entry: nothing for a root-level id (one without
    /// a separator), else the id cut before its last separator and
    /// revalidated against the root.
    pub fn get_parent(&self, notes_dir: &str) -> (r: Option<Id>)
        ensures
            match r {
                Some(p) => parent_of(self@, notes_dir@) == Some(p@),
                None => parent_of(self@, notes_dir@) is None,
            },
    {
        let cs = chars_of(self.s.as_str());
        let root = chars_of(notes_dir);
        proof {
            crate::chars::lemma_rfind(self@, '/');
        }
        match find_last(&cs, '/') {
            None => None,
            Some(i) => {
                let raw = subvec(&cs, 0, i);
                proof {
                    assert(raw@ =~= self@.take(i as int));
                }
                Some(Id::new_from_chars(&raw, &root))
            },
        }
    }

    /// The display name: the last segment of the id, cut before the
    /// segment's first dot.
    pub fn get_name(&self) -> (r: String)
        ensures
            r@ == name_of(self@),
    {
        let cs = chars_of(self.s.as_str());
        let seg = last_segment_vec(&cs);
        proof {
            crate::chars::lemma_ffind(seg@, '.');
        }
        let cut = find_from(&seg, 0, '.');
        match cut {
            None => {
                proof {
                    assert(ffind(seg@, '.') is None);
                }
                string_of(&seg)
            },
            Some(j) => {
                let head = subvec(&seg, 0, j);
                proof {
                    assert(head@ =~= last_segment(self@).take(j as int));
                }
                string_of(&head)
            },
        }
    }

    /// The document type inferred from the trailing extension of the id's
    /// last segment, by the double-extension rule; nothing for an
    /// unrecognized or missing extension.
    pub fn get_type(&self) -> (r: Option<FileType>)
        ensures
            r == type_of_name(last_segment(self@)),
    {
        let cs = chars_of(self.s.as_str());
        let seg = last_segment_vec(&cs);
        infer_type(&seg)
    }

    /// Composes the id of a child of `parent_id` named `name` with the
    /// canonical extension of `file_type`, revalidated against the root.
    pub fn create_id(name: &str, parent_id: &Id, file_type: FileType, notes_dir: &str) -> (r:
        Id)
        ensures
            r@ == id_of(child_raw(parent_id@, name@, file_type), notes_dir@),
    {
        let root = chars_of(notes_dir);
        let mut raw: Vec<char> = Vec::new();
        if !parent_id.s.as_str().is_empty() {
            let pcs = chars_of(parent_id.s.as_str());
            raw = pcs;
            raw.push('/');
        }
        let ncs = chars_of(name);
        let mut i: usize = 0;
        let nn: usize = ncs.len();
        while i < nn
            invariant
                i <= nn,
                nn == ncs@.len(),
                raw@ == (if parent_id@.len() == 0 {
                    Seq::<char>::empty()
                } else {
                    parent_id@ + seq!['/']
                }) + ncs@.subrange(0, i as int),
            decreases nn - i,
        {
            raw.push(ncs[i]);
            proof {
                assert(ncs@.subrange(0, i as int).push(ncs@[i as int]) =~= ncs@.subrange(
                    0,
                    i + 1 as int,
                ));
            }
            i = i + 1;
        }
        raw.push('.');
        let ext = file_type.extension();
        let ecs = chars_of(ext.as_str());
        let mut j: usize = 0;
        let ne: usize = ecs.len();
        while j < ne
            invariant
                j <= ne,
                ne == ecs@.len(),
                raw@ == (if parent_id@.len() == 0 {
                    Seq::<char>::empty()
                } else {
                    parent_id@ + seq!['/']
                }) + ncs@ + seq!['.'] + ecs@.subrange(0, j as int),
            decreases ne - j,
        {
            raw.push(ecs[j]);
            proof {
                assert(ecs@.subrange(0, j as int).push(ecs@[j as int]) =~= ecs@.subrange(
                    0,
                    j + 1 as int,
                ));
            }
            j = j + 1;
        }
        proof {
            assert(ncs@.subrange(0, ncs@.len() as int) =~= ncs@);
            assert(ecs@.subrange(0, ecs@.len() as int) =~= ecs@);
            assert(raw@ =~= child_raw(parent_id@, name@, file_type));
        }
        Id::new_from_chars(&raw, &root)
    }

    /// The guarded id of an absolute path: fails with `NotInRoot` when the
    /// notes directory is not an ancestor of the path.
    pub fn id_from_path(path: &str, notes_dir: &str) -> (r: Result<Id, NoterError>)
        ensures
            match r {
                Ok(id) => id_from_path_opt(path@, notes_dir@) == Some(id@),
                Err(e) => e == NoterError::NotInRoot && id_from_path_opt(path@, notes_dir@)
                    is None,
            },
    {
        let p = chars_of(path);
        let root = chars_of(notes_dir);
        match guarded_id_chars(&p, &root) {
            Some(id) => Ok(Id { s: string_of(&id) }),
            None => Err(NoterError::NotInRoot),
        }
    }

    /// The parts of the id: its segments in order, split on the separator.
    pub fn parts(&self) -> (r: Vec<String>)
        ensures
            r@.map_values(|x: String| x@) == segments_of(self@),
    {
        let cs = chars_of(self.s.as_str());
        let n: usize = cs.len();
        let mut out: Vec<String> = Vec::new();
        let mut start: usize = 0;
        proof {
            assert(cs@.skip(0) =~= cs@);
            assert(out@.map_values(|x: String| x@) =~= Seq::<Seq<char>>::empty());
            assert(Seq::<Seq<char>>::empty() + segments_of(cs@) =~= segments_of(cs@));
        }
        loop
            invariant
                start <= n,
                n == cs@.len(),
                cs@ == self@,
                segments_of(self@) == out@.map_values(|x: String| x@) + segments_of(
                    cs@.skip(start as int),
                ),
            decreases n - start,
        {
            proof {
                crate::chars::lemma_ffind(cs@.skip(start as int), '/');
            }
            let brk = find_from(&cs, start, '/');
            match brk {
                Some(sep) => {
                    proof {
                        let tail = cs@.skip(start as int);
                        assert(tail[sep - start] == '/');
                        assert(forall|m: int|
                            0 <= m < sep - start ==> tail[m] == cs@[start + m] && tail[m]
                                != '/');
                        assert(ffind(tail, '/') == Some(sep - start as int));
                        assert(tail.take(sep - start as int) =~= cs@.subrange(
                            start as int,
                            sep as int,
                        ));
                        assert(tail.skip(sep - start + 1 as int) =~= cs@.skip(sep + 1 as int));
                    }
                    let seg = subvec(&cs, start, sep);
                    let ghost before = out@.map_values(|x: String| x@);
                    out.push(string_of(&seg));
                    proof {
                        assert(out@.map_values(|x: String| x@) =~= before.push(cs@.subrange(
                            start as int,
                            sep as int,
                        )));
                        assert(before.push(cs@.subrange(start as int, sep as int))
                            + segments_of(cs@.skip(sep + 1 as int)) =~= before + (seq![
                            cs@.subrange(start as int, sep as int),
                        ] + segments_of(cs@.skip(sep + 1 as int))));
                    }
                    start = sep + 1;
                },
                None => {
                    proof {
                        let tail = cs@.skip(start as int);
                        assert(ffind(tail, '/') is None) by {
                            if ffind(tail, '/') is Some {
                                let i = ffind(tail, '/').unwrap();
                                assert(tail[i] == '/');
                                assert(tail[i] == cs@[start + i]);
                            }
                        }
                        assert(segments_of(tail) == seq![tail]);
                    }
                    let seg = subvec(&cs, start, n);
                    proof {
                        assert(seg@ =~= cs@.skip(start as int));
                    }
                    let ghost before = out@.map_values(|x: String| x@);
                    out.push(string_of(&seg));
                    proof {
                        assert(out@.map_values(|x: String| x@) =~= before.push(cs@.skip(
                            start as int,
                        )));
                        assert(before.push(cs@.skip(start as int)) =~= before + seq![
                            cs@.skip(start as int),
                        ]);
                    }
                    return out;
                },
            }
        }
    }

    /// The filesystem path of this id below the notes directory: the exact
    /// inverse of `id_from_path` on ids that component produced.
    pub fn path_from_id(&self, notes_dir: &str) -> (r: String)
        ensures
            r@ == path_of(self@, notes_dir@),
    {
        if self.s.as_str().is_empty() {
            notes_dir.to_owned()
        } else {
            let root = chars_of(notes_dir);
            let mut out = subvec(&root, 0, root.len());
            out.push('/');
            let cs = chars_of(self.s.as_str());
            let joined = crate::chars::concat_chars(&out, &cs);
            proof {
                assert(root@.subrange(0, root@.len() as int) =~= root@);
                assert(joined@ =~= notes_dir@ + seq!['/'] + self@);
            }
            string_of(&joined)
        }
    }
}

/// The segments of an id, split on the separator.
pub open spec fn segments_of(s: Seq<char>) -> Seq<Seq<char>>
    decreases s.len(),
{
    let i = ffind(s, '/');
    if i is Some && 0 <= i.unwrap() < s.len() {
        seq![s.take(i.unwrap())] + segments_of(s.skip(i.unwrap() + 1))
    } else {
        seq![s]
    }
}

/// The guarded id of `p` against `root`, over character vectors: the
/// content of `id_from_path_opt`.
pub(crate) fn guarded_id_chars(p: &Vec<char>, root: &Vec<char>) -> (r: Option<Vec<char>>)
    ensures
        match r {
            Some(id) => id_from_path_opt(p@, root@) == Some(id@),
            None => id_from_path_opt(p@, root@) is None,
        },
{
    let bare = drop_lead_sep_vec(root);
    if chars_eq(p, root) || chars_eq(p, &bare) {
        let empty: Vec<char> = Vec::new();
        Some(empty)
    } else {
        let mut root_sep = subvec(root, 0, root.len());
        root_sep.push('/');
        proof {
            assert(root@.subrange(0, root@.len() as int) =~= root@);
            assert(root_sep@ =~= root@ + seq!['/']);
        }
        let mut bare_sep = subvec(&bare, 0, bare.len());
        bare_sep.push('/');
        proof {
            assert(bare@.subrange(0, bare@.len() as int) =~= bare@);
            assert(bare_sep@ =~= bare@ + seq!['/']);
        }
        if crate::chars::starts_with(p, &root_sep) {
            Some(subvec(p, root_sep.len(), p.len()))
        } else if crate::chars::starts_with(p, &bare_sep) {
            Some(subvec(p, bare_sep.len(), p.len()))
        } else {
            None
        }
    }
}

/// Strips a single leading separator from a character vector.
fn drop_lead_sep_vec(v: &Vec<char>) -> (r: Vec<char>)
    ensures
        r@ == drop_lead_sep(v@),
{
    if v.len() > 0 && v[0] == '/' {
        let r = subvec(v, 1, v.len());
        proof {
            assert(r@ =~= v@.drop_first());
        }
        r
    } else {
        let r = subvec(v, 0, v.len());
        proof {
            assert(r@ =~= v@);
        }
        r
    }
}

/// The last segment of an id, as a character vector.
fn last_segment_vec(cs: &Vec<char>) -> (r: Vec<char>)
    ensures
        r@ == last_segment(cs@),
{
    proof {
        crate::chars::lemma_rfind(cs@, '/');
    }
    let n: usize = cs.len();
    match find_last(cs, '/') {
        None => subvec_whole(cs),
        Some(i) => {
            let r = subvec(cs, i + 1, n);
            proof {
                assert(r@ =~= cs@.skip(i + 1 as int));
            }
            r
        },
    }
}

/// A copy of the whole vector.
fn subvec_whole(cs: &Vec<char>) -> (r: Vec<char>)
    ensures
        r@ == cs@,
{
    let r = subvec(cs, 0, cs.len());
    proof {
        assert(r@ =~= cs@);
    }
    r
}

/// An id without a separator names a root-level entry: it has no parent.
pub proof fn lemma_parent_of_separator_free(id: Seq<char>, root: Seq<char>)
    requires
        !id.contains('/'),
    ensures
        parent_of(id, root) is None,
{
    crate::chars::lemma_rfind(id, '/');
    if rfind(id, '/') is Some {
        assert(id[rfind(id, '/').unwrap()] == '/');
    }
}

/// Building an id from an id is the identity: `new` is idempotent on every
/// id it produces whose text does not itself re-begin with the root prefix
/// (in either written form) or with a separator. An id like `a/b` under
/// the root `/a`, produced from the path `/a/a/b`, re-begins with the bare
/// root and is stripped again: such ids are left out.
pub proof fn lemma_new_idempotent(p: Seq<char>, root: Seq<char>)
    requires
        !is_prefix(root, id_of(p, root)),
        !is_prefix(drop_lead_sep(root), id_of(p, root)),
        id_of(p, root).len() > 0 ==> id_of(p, root)[0] != '/',
    ensures
        id_of(id_of(p, root), root) == id_of(p, root),
{
}

/// Mapping a path under the root to its id and back returns the very same
/// path: `path_of` inverts `id_from_path_opt` on the root itself and on
/// every path lying strictly below it.
pub proof fn lemma_path_round_trip(p: Seq<char>, root: Seq<char>)
    requires
        p == root || (is_prefix(root + seq!['/'], p) && p.len() > root.len() + 1 && p[root.len() + 1 as int] != '/'),
    ensures
        id_from_path_opt(p, root) is Some,
        path_of(id_from_path_opt(p, root).unwrap(), root) == p,
{
    let bare = drop_lead_sep(root);
    if p == root {
        assert(path_of(Seq::<char>::empty(), root) == root);
    } else {
        assert(p != bare) by {
            assert(p.len() > bare.len());
        }
        if p == root {
        } else {
            let rest = p.skip(root.len() + 1 as int);
            assert(rest.len() > 0);
            assert(rest[0] == p[root.len() + 1 as int]);
            assert(path_of(rest, root) =~= p) by {
                assert(forall|k: int|
                    0 <= k < root.len() + 1 ==> (root + seq!['/'])[k] == p.subrange(
                        0,
                        root.len() + 1 as int,
                    )[k]);
            }
        }
    }
}

} // verus!
