use vstd::prelude::*;
use vstd::multiset::Multiset;
use vstd::seq_lib::lemma_multiset_commutative;
use crate::directory::{entry_id_spec, view_entry, Entry, EntryV};
use crate::file_type::FileType;
use crate::id::Id;
use crate::preview::{FilePreview, PreviewV};

verus! {

/// The key a listing is ordered by.
#[derive(Debug, Clone, Copy, PartialEq, Eq, Structural)]
pub enum SortBy {
    Name,
    CreatedAt,
    ModifiedAt,
}

/// The direction of an ordering.
#[derive(Debug, Clone, Copy, PartialEq, Eq, Structural)]
pub enum SortOrder {
    Ascending,
    Descending,
}

/// A chosen ordering for listings.
#[derive(Debug, Clone, Copy)]
pub struct SortOptions {
    pub by: SortBy,
    pub order: SortOrder,
}

/// Lexicographic order on character sequences, by code point; the order
/// used for names.
pub open spec fn lex_le(a: Seq<char>, b: Seq<char>) -> bool
    decreases a.len(),
{
    if a.len() == 0 {
        true
    } else if b.len() == 0 {
        false
    } else if (a[0] as int) < (b[0] as int) {
        true
    } else if (a[0] as int) > (b[0] as int) {
        false
    } else {
        lex_le(a.drop_first(), b.drop_first())
    }
}

/// The chosen order on previews: by name, creation time, or modification
/// time, ascending or descending.
pub open spec fn preview_le(opts: SortOptions, a: PreviewV, b: PreviewV) -> bool {
    let (x, y) = match opts.order {
        SortOrder::Ascending => (a, b),
        SortOrder::Descending => (b, a),
    };
    match opts.by {
        SortBy::Name => lex_le(x.name, y.name),
        SortBy::CreatedAt => x.created_at <= y.created_at,
        SortBy::ModifiedAt => x.modified_at <= y.modified_at,
    }
}

/// A run of previews stands in the chosen order.
pub open spec fn sorted_previews(opts: SortOptions, s: Seq<PreviewV>) -> bool {
    forall|i: int, j: int| 0 <= i < j < s.len() ==> preview_le(opts, s[i], s[j])
}

/// The lexicographic order is total.
pub proof fn lemma_lex_total(a: Seq<char>, b: Seq<char>)
    ensures
        lex_le(a, b) || lex_le(b, a),
    decreases a.len(),
{
    if a.len() > 0 && b.len() > 0 && a[0] == b[0] {
        lemma_lex_total(a.drop_first(), b.drop_first());
    }
}

/// The lexicographic order is transitive.
pub proof fn lemma_lex_trans(a: Seq<char>, b: Seq<char>, c: Seq<char>)
    requires
        lex_le(a, b),
        lex_le(b, c),
    ensures
        lex_le(a, c),
    decreases a.len(),
{
    if a.len() > 0 && b.len() > 0 && c.len() > 0 && a[0] == b[0] && b[0] == c[0] {
        lemma_lex_trans(a.drop_first(), b.drop_first(), c.drop_first());
    }
}

/// The chosen order is total.
pub proof fn lemma_preview_le_total(opts: SortOptions, a: PreviewV, b: PreviewV)
    ensures
        preview_le(opts, a, b) || preview_le(opts, b, a),
{
    lemma_lex_total(a.name, b.name);
}

/// The chosen order is transitive.
pub proof fn lemma_preview_le_trans(opts: SortOptions, a: PreviewV, b: PreviewV, c: PreviewV)
    requires
        preview_le(opts, a, b),
        preview_le(opts, b, c),
    ensures
        preview_le(opts, a, c),
{
    match opts.order {
        SortOrder::Ascending => {
            if opts.by == SortBy::Name {
                lemma_lex_trans(a.name, b.name, c.name);
            }
        },
        SortOrder::Descending => {
            if opts.by == SortBy::Name {
                lemma_lex_trans(c.name, b.name, a.name);
            }
        },
    }
}

/// Decides the lexicographic order on two names.
fn lex_le_exec(a: &Vec<char>, b: &Vec<char>) -> (r: bool)
    ensures
        r == lex_le(a@, b@),
{
    let na: usize = a.len();
    let nb: usize = b.len();
    let mut i: usize = 0;
    proof {
        assert(a@.skip(0) =~= a@);
        assert(b@.skip(0) =~= b@);
    }
    loop
        invariant
            i <= na,
            i <= nb,
            na == a@.len(),
            nb == b@.len(),
            lex_le(a@, b@) == lex_le(a@.skip(i as int), b@.skip(i as int)),
        decreases na - i,
    {
        if i >= na {
            return true;
        }
        if i >= nb {
            return false;
        }
        let ca = a[i];
        let cb = b[i];
        proof {
            let ta = a@.skip(i as int);
            let tb = b@.skip(i as int);
            assert(ta[0] == a@[i as int]);
            assert(tb[0] == b@[i as int]);
            assert(ta.drop_first() =~= a@.skip(i + 1 as int));
            assert(tb.drop_first() =~= b@.skip(i + 1 as int));
        }
        if ca < cb {
            return true;
        }
        if ca > cb {
            return false;
        }
        i = i + 1;
    }
}

/// Decides the chosen order on two previews.
fn preview_le_exec(opts: &SortOptions, a: &FilePreview, b: &FilePreview) -> (r: bool)
    ensures
        r == preview_le(*opts, a@, b@),
{
    let asc = match opts.order {
        SortOrder::Ascending => true,
        SortOrder::Descending => false,
    };
    match opts.by {
        SortBy::Name => {
            let an = crate::chars::chars_of(a.name.as_str());
            let bn = crate::chars::chars_of(b.name.as_str());
            if asc {
                lex_le_exec(&an, &bn)
            } else {
                lex_le_exec(&bn, &an)
            }
        },
        SortBy::CreatedAt => if asc {
            a.created_at <= b.created_at
        } else {
            b.created_at <= a.created_at
        },
        SortBy::ModifiedAt => if asc {
            a.modified_at <= b.modified_at
        } else {
            b.modified_at <= a.modified_at
        },
    }
}

/// The views of a run of previews.
pub open spec fn preview_views(s: Seq<FilePreview>) -> Seq<PreviewV> {
    s.map_values(|p: FilePreview| p@)
}

/// Inserting into a sorted run keeps it sorted and adds exactly the new
/// element to the multiset.
fn insert_sorted(out: &mut Vec<FilePreview>, x: FilePreview, opts: &SortOptions)
    requires
        sorted_previews(*opts, preview_views(old(out)@)),
    ensures
        sorted_previews(*opts, preview_views(final(out)@)),
        preview_views(final(out)@).to_multiset() == preview_views(old(out)@).to_multiset()
            .insert(x@),
{
    let n: usize = out.len();
    let mut p: usize = 0;
    while p < n
        invariant
            p <= n,
            n == out@.len(),
            forall|j: int| 0 <= j < p ==> preview_le(*opts, preview_views(out@)[j], x@),
        decreases n - p,
    {
        if !preview_le_exec(opts, &out[p], &x) {
            proof {
                lemma_preview_le_total(*opts, preview_views(out@)[p as int], x@);
            }
            break ;
        }
        proof {
            assert(preview_views(out@)[p as int] == out@[p as int]@);
        }
        p = p + 1;
    }
    let ghost oldv = preview_views(out@);
    let ghost pos = p as int;
    proof {
        if pos < oldv.len() {
            lemma_preview_le_total(*opts, oldv[pos], x@);
        }
    }
    out.insert(p, x);
    proof {
        assert(out@ =~= old(out)@.insert(pos, x));
        let newv = preview_views(out@);
        assert forall|i: int, j: int|
            0 <= i < j < newv.len() implies preview_le(*opts, newv[i], newv[j]) by {
            if i < pos && j == pos {
                assert(newv[i] == oldv[i]);
                assert(newv[j] == x@);
            } else if i == pos && j > pos {
                assert(newv[j] == oldv[j - 1]);
                if pos < oldv.len() {
                    if j - 1 == pos {
                        assert(!preview_le(*opts, oldv[pos], x@));
                    } else {
                        assert(preview_le(*opts, oldv[pos], oldv[j - 1]));
                        assert(!preview_le(*opts, oldv[pos], x@));
                        lemma_preview_le_total(*opts, oldv[pos], x@);
                        lemma_preview_le_trans(*opts, x@, oldv[pos], oldv[j - 1]);
                    }
                }
            } else if i < pos && j > pos {
                assert(newv[i] == oldv[i]);
                assert(newv[j] == oldv[j - 1]);
                if j - 1 == pos {
                } else {
                    assert(preview_le(*opts, oldv[i], oldv[j - 1]));
                }
            } else if j < pos {
                assert(newv[i] == oldv[i]);
                assert(newv[j] == oldv[j]);
            } else if i > pos {
                assert(newv[i] == oldv[i - 1]);
                assert(newv[j] == oldv[j - 1]);
            }
        }
        lemma_insert_multiset(old(out)@, pos, x);
        assert(preview_views(old(out)@.insert(pos, x)).to_multiset() == preview_views(
            old(out)@,
        ).to_multiset().insert(x@));
    }
}

/// Inserting an element anywhere adds exactly it to the multiset of views.
proof fn lemma_insert_multiset(s: Seq<FilePreview>, pos: int, x: FilePreview)
    requires
        0 <= pos <= s.len(),
    ensures
        preview_views(s.insert(pos, x)).to_multiset() == preview_views(s).to_multiset()
            .insert(x@),
{
    let a = s.take(pos);
    let b = s.skip(pos);
    assert(s.insert(pos, x) =~= a + seq![x] + b);
    assert(s =~= a + b);
    let av = preview_views(a);
    let bv = preview_views(b);
    assert(preview_views(a + seq![x] + b) =~= av + seq![x@] + bv);
    assert(preview_views(a + b) =~= av + bv);
    lemma_multiset_commutative(av + seq![x@], bv);
    lemma_multiset_commutative(av, seq![x@]);
    lemma_multiset_commutative(av, bv);
    assert(seq![x@].to_multiset() =~= Multiset::<PreviewV>::empty().insert(x@)) by {
        broadcast use vstd::seq_lib::group_to_multiset_ensures;

        assert(Seq::<PreviewV>::empty().push(x@) =~= seq![x@]);
        assert(Seq::<PreviewV>::empty().push(x@).to_multiset() =~= Seq::<
            PreviewV,
        >::empty().to_multiset().insert(x@));
        assert(Seq::<PreviewV>::empty().to_multiset().len() == 0);
        assert(Seq::<PreviewV>::empty().to_multiset() =~= Multiset::<PreviewV>::empty());
    }
    assert((av + seq![x@] + bv).to_multiset() =~= (av + bv).to_multiset().insert(x@));
}

/// Sorts a listing by the chosen key and direction: afterwards the run
/// stands in that order and holds the same previews, as a multiset.
pub fn sort_files(list: &mut Vec<FilePreview>, sort: SortOptions)
    ensures
        sorted_previews(sort, preview_views(final(list)@)),
        preview_views(final(list)@).to_multiset() == preview_views(old(list)@).to_multiset(),
{
    let mut out: Vec<FilePreview> = Vec::new();
    proof {
        assert(preview_views(out@) =~= Seq::<PreviewV>::empty());
        broadcast use vstd::seq_lib::group_to_multiset_ensures;
    }
    loop
        invariant
            sorted_previews(sort, preview_views(out@)),
            preview_views(out@).to_multiset().add(preview_views(list@).to_multiset())
                == preview_views(old(list)@).to_multiset(),
        decreases list@.len(),
    {
        let ghost entryv = list@;
        let x = match list.pop() {
            Some(x) => x,
            None => {
                break ;
            },
        };
        proof {
            broadcast use vstd::seq_lib::group_to_multiset_ensures;

            assert(entryv =~= list@.push(x));
            assert(preview_views(entryv) =~= preview_views(list@).push(x@));
            assert(preview_views(entryv).to_multiset() == preview_views(list@).to_multiset()
                .insert(x@));
            lemma_add_insert(
                preview_views(out@).to_multiset(),
                preview_views(list@).to_multiset(),
                x@,
            );
        }
        insert_sorted(&mut out, x, &sort);
    }
    proof {
        assert(preview_views(list@) =~= Seq::<PreviewV>::empty());
        assert(preview_views(list@).to_multiset() =~= Multiset::<PreviewV>::empty());
        assert(preview_views(out@).to_multiset().add(Multiset::<PreviewV>::empty())
            =~= preview_views(out@).to_multiset());
    }
    *list = out;
}

/// Shuffling one element between two added multisets.
proof fn lemma_add_insert(a: Multiset<PreviewV>, b: Multiset<PreviewV>, x: PreviewV)
    ensures
        a.insert(x).add(b) == a.add(b.insert(x)),
{
    assert(a.insert(x).add(b) =~= a.add(b.insert(x)));
}

/// The previews of the file entries of a run, in order, directories
/// passed over.
pub open spec fn previews_of(es: Seq<Entry>) -> Seq<PreviewV>
    decreases es.len(),
{
    if es.len() == 0 {
        Seq::<PreviewV>::empty()
    } else {
        (match es[0] {
            Entry::File(p) => seq![p@],
            Entry::Directory(_) => Seq::<PreviewV>::empty(),
        }) + previews_of(es.drop_first())
    }
}

/// The previews of the note-typed file entries of a run, in order.
pub open spec fn note_previews_of(es: Seq<Entry>) -> Seq<PreviewV>
    decreases es.len(),
{
    if es.len() == 0 {
        Seq::<PreviewV>::empty()
    } else {
        (match es[0] {
            Entry::File(p) => if p.file_type == FileType::Note {
                seq![p@]
            } else {
                Seq::<PreviewV>::empty()
            },
            Entry::Directory(_) => Seq::<PreviewV>::empty(),
        }) + note_previews_of(es.drop_first())
    }
}

/// The first entry carrying `id`, if any.
pub open spec fn find_entry(es: Seq<Entry>, id: Seq<char>) -> Option<Entry>
    decreases es.len(),
{
    if es.len() == 0 {
        None
    } else if entry_id_spec(es[0]) == id {
        Some(es[0])
    } else {
        find_entry(es.drop_first(), id)
    }
}

/// The flat in-memory mirror of the tree: entries keyed by their id. It
/// is rebuilt by traversal and kept current by the mutating operations.
#[derive(Debug)]
pub struct DataAdapter {
    pub files: Vec<Entry>,
}

/// The adapter invariant: entry ids are unique.
pub open spec fn adapter_wf(a: DataAdapter) -> bool {
    forall|i: int, j: int|
        0 <= i < j < a.files@.len() ==> entry_id_spec(#[trigger] a.files@[i]) != entry_id_spec(
            #[trigger] a.files@[j],
        )
}

impl DataAdapter {
    /// The empty mirror; well-formed.
    pub fn new() -> (r: DataAdapter)
        ensures
            r.files@.len() == 0,
            adapter_wf(r),
    {
        DataAdapter { files: Vec::new() }
    }

    /// The entry stored for `id`, if any.
    pub fn get_file(&self, id: &Id) -> (r: Option<&Entry>)
        ensures
            match r {
                Some(e) => find_entry(self.files@, id@) == Some(*e),
                None => find_entry(self.files@, id@) is None,
            },
    {
        let n: usize = self.files.len();
        let mut i: usize = 0;
        proof {
            assert(self.files@.skip(0) =~= self.files@);
        }
        while i < n
            invariant
                i <= n,
                n == self.files@.len(),
                find_entry(self.files@, id@) == find_entry(self.files@.skip(i as int), id@),
            decreases n - i,
        {
            proof {
                let tail = self.files@.skip(i as int);
                assert(tail[0] == self.files@[i as int]);
                assert(tail.drop_first() =~= self.files@.skip(i + 1 as int));
            }
            if self.files[i].get_id().eq(id) {
                return Some(&self.files[i]);
            }
            i = i + 1;
        }
        proof {
            assert(self.files@.skip(n as int) =~= Seq::<Entry>::empty());
        }
        None
    }

    /// Stores (or replaces) the file entry for the preview's id; any other
    /// id keeps its entry, and well-formedness is preserved.
    pub fn insert_file(&mut self, file: FilePreview)
        requires
            adapter_wf(*old(self)),
        ensures
            match find_entry(final(self).files@, file.id@) {
                Some(e) => view_entry(e) == EntryV::File(file@),
                None => false,
            },
            forall|o: Seq<char>|
                o != file.id@ ==> #[trigger] find_entry(final(self).files@, o) == find_entry(
                    old(self).files@,
                    o,
                ),
            adapter_wf(*final(self)),
    {
        let ghost oldfiles = self.files@;
        let ghost idv = file.id@;
        let found = self.find_index(&file.id);
        match found {
            Some(i) => {
                let slot = Entry::File(file);
                self.files.set(i, slot);
                proof {
                    lemma_entry_set_state(oldfiles, self.files@, i as int, idv);
                    assert forall|a: int, b: int|
                        0 <= a < b < self.files@.len() implies entry_id_spec(
                        #[trigger] self.files@[a]) != entry_id_spec(
                        #[trigger] self.files@[b]) by {
                        if a != i as int {
                            assert(self.files@[a] == oldfiles[a]);
                        }
                        if b != i as int {
                            assert(self.files@[b] == oldfiles[b]);
                        }
                    }
                }
            },
            None => {
                proof {
                    lemma_no_carrier_not_found(oldfiles, idv);
                }
                let slot = Entry::File(file);
                self.files.push(slot);
                proof {
                    lemma_entry_push_state(oldfiles, idv, self.files@[oldfiles.len() as int]);
                    assert forall|a: int, b: int|
                        0 <= a < b < self.files@.len() implies entry_id_spec(
                        #[trigger] self.files@[a]) != entry_id_spec(
                        #[trigger] self.files@[b]) by {
                        if b == oldfiles.len() {
                            assert(self.files@[a] == oldfiles[a]);
                            lemma_find_entry_first(oldfiles, idv);
                        } else {
                            assert(self.files@[a] == oldfiles[a]);
                            assert(self.files@[b] == oldfiles[b]);
                        }
                    }
                }
            },
        }
    }

    /// Drops the entry stored for `id`, if any; any other id keeps its
    /// entry, and well-formedness is preserved. Dropping an absent id
    /// changes nothing.
    pub fn delete_file(&mut self, id: &Id)
        requires
            adapter_wf(*old(self)),
        ensures
            find_entry(final(self).files@, id@) is None,
            forall|o: Seq<char>|
                o != id@ ==> #[trigger] find_entry(final(self).files@, o) == find_entry(
                    old(self).files@,
                    o,
                ),
            adapter_wf(*final(self)),
    {
        let ghost oldfiles = self.files@;
        let ghost idv = id@;
        let found = self.find_index(id);
        match found {
            Some(i) => {
                self.files.remove(i);
                proof {
                    lemma_entry_remove_state(oldfiles, i as int, idv);
                    assert forall|a: int, b: int|
                        0 <= a < b < self.files@.len() implies entry_id_spec(
                        #[trigger] self.files@[a]) != entry_id_spec(
                        #[trigger] self.files@[b]) by {
                        assert(self.files@ =~= oldfiles.remove(i as int));
                        let a2: int = if a < i as int {
                            a
                        } else {
                            a + 1
                        };
                        let b2: int = if b < i as int {
                            b
                        } else {
                            b + 1
                        };
                        assert(self.files@[a] == oldfiles[a2]);
                        assert(self.files@[b] == oldfiles[b2]);
                    }
                }
            },
            None => {
                proof {
                    lemma_no_carrier_not_found(oldfiles, idv);
                }
            },
        }
    }

    /// The position of the entry carrying `id`, if any; together with the
    /// first-carrier facts the state lemmas need.
    fn find_index(&self, id: &Id) -> (r: Option<usize>)
        requires
            adapter_wf(*self),
        ensures
            match r {
                Some(i) => i < self.files@.len() && entry_id_spec(self.files@[i as int]) == id@
                    && forall|j: int|
                    0 <= j < self.files@.len() && j != i ==> entry_id_spec(
                        #[trigger] self.files@[j],
                    ) != id@,
                None => forall|j: int|
                    0 <= j < self.files@.len() ==> entry_id_spec(#[trigger] self.files@[j])
                        != id@,
            },
    {
        let n: usize = self.files.len();
        let mut i: usize = 0;
        while i < n
            invariant
                i <= n,
                n == self.files@.len(),
                forall|j: int|
                    0 <= j < i ==> entry_id_spec(#[trigger] self.files@[j]) != id@,
            decreases n - i,
        {
            if self.files[i].get_id().eq(id) {
                proof {
                    assert forall|j: int|
                        0 <= j < self.files@.len() && j != i as int implies entry_id_spec(
                        #[trigger] self.files@[j]) != id@ by {
                        if j < i as int {
                        } else {
                            assert(entry_id_spec(self.files@[i as int]) != entry_id_spec(
                                self.files@[j],
                            ));
                        }
                    }
                }
                return Some(i);
            }
            i = i + 1;
        }
        None
    }

    /// The previews of all file entries, passed over directories, in the
    /// chosen order when one is asked for: then the result is sorted and
    /// holds the same previews as the unsorted listing, as a multiset.
    pub fn get_all_files(&self, sort: Option<SortOptions>) -> (r: Vec<FilePreview>)
        ensures
            match sort {
                None => preview_views(r@) == previews_of(self.files@),
                Some(o) => sorted_previews(o, preview_views(r@)) && preview_views(r@)
                    .to_multiset() == previews_of(self.files@).to_multiset(),
            },
    {
        let mut files: Vec<FilePreview> = Vec::new();
        let n: usize = self.files.len();
        let mut i: usize = 0;
        proof {
            assert(self.files@.skip(0) =~= self.files@);
            assert(preview_views(files@) =~= Seq::<PreviewV>::empty());
            assert(Seq::<PreviewV>::empty() + previews_of(self.files@) =~= previews_of(
                self.files@,
            ));
        }
        while i < n
            invariant
                i <= n,
                n == self.files@.len(),
                preview_views(files@) + previews_of(self.files@.skip(i as int)) == previews_of(
                    self.files@,
                ),
            decreases n - i,
        {
            proof {
                let tail = self.files@.skip(i as int);
                assert(tail[0] == self.files@[i as int]);
                assert(tail.drop_first() =~= self.files@.skip(i + 1 as int));
            }
            match &self.files[i] {
                Entry::File(p) => {
                    let ghost before = preview_views(files@);
                    files.push(p.clone());
                    proof {
                        assert(preview_views(files@) =~= before.push(
                            self.files@[i as int]->File_0@,
                        ));
                        assert(before.push(self.files@[i as int]->File_0@) + previews_of(
                            self.files@.skip(i + 1 as int),
                        ) =~= before + (seq![self.files@[i as int]->File_0@] + previews_of(
                            self.files@.skip(i + 1 as int),
                        )));
                    }
                },
                Entry::Directory(_) => {
                    proof {
                        assert(Seq::<PreviewV>::empty() + previews_of(self.files@.skip(
                            i + 1 as int,
                        )) =~= previews_of(self.files@.skip(i + 1 as int)));
                    }
                },
            }
            i = i + 1;
        }
        proof {
            assert(self.files@.skip(n as int) =~= Seq::<Entry>::empty());
            assert(preview_views(files@) + Seq::<PreviewV>::empty() =~= preview_views(
                files@,
            ));
        }
        match sort {
            None => files,
            Some(o) => {
                sort_files(&mut files, o);
                files
            },
        }
    }

    /// The previews of the note-typed file entries, in the chosen order
    /// when one is asked for.
    pub fn get_all_notes(&self, sort: Option<SortOptions>) -> (r: Vec<FilePreview>)
        ensures
            match sort {
                None => preview_views(r@) == note_previews_of(self.files@),
                Some(o) => sorted_previews(o, preview_views(r@)) && preview_views(r@)
                    .to_multiset() == note_previews_of(self.files@).to_multiset(),
            },
    {
        let mut files: Vec<FilePreview> = Vec::new();
        let n: usize = self.files.len();
        let mut i: usize = 0;
        proof {
            assert(self.files@.skip(0) =~= self.files@);
            assert(preview_views(files@) =~= Seq::<PreviewV>::empty());
            assert(Seq::<PreviewV>::empty() + note_previews_of(self.files@)
                =~= note_previews_of(self.files@));
        }
        while i < n
            invariant
                i <= n,
                n == self.files@.len(),
                preview_views(files@) + note_previews_of(self.files@.skip(i as int))
                    == note_previews_of(self.files@),
            decreases n - i,
        {
            proof {
                let tail = self.files@.skip(i as int);
                assert(tail[0] == self.files@[i as int]);
                assert(tail.drop_first() =~= self.files@.skip(i + 1 as int));
            }
            let mut took = false;
            match &self.files[i] {
                Entry::File(p) => {
                    if p.file_type == FileType::Note {
                        let ghost before = preview_views(files@);
                        files.push(p.clone());
                        took = true;
                        proof {
                            assert(preview_views(files@) =~= before.push(
                                self.files@[i as int]->File_0@,
                            ));
                            assert(before.push(self.files@[i as int]->File_0@)
                                + note_previews_of(self.files@.skip(i + 1 as int)) =~= before
                                + (seq![self.files@[i as int]->File_0@] + note_previews_of(
                                self.files@.skip(i + 1 as int),
                            )));
                        }
                    }
                },
                Entry::Directory(_) => {},
            }
            proof {
                if !took {
                    assert(Seq::<PreviewV>::empty() + note_previews_of(self.files@.skip(
                        i + 1 as int,
                    )) =~= note_previews_of(self.files@.skip(i + 1 as int)));
                }
            }
            i = i + 1;
        }
        proof {
            assert(self.files@.skip(n as int) =~= Seq::<Entry>::empty());
            assert(preview_views(files@) + Seq::<PreviewV>::empty() =~= preview_views(
                files@,
            ));
        }
        match sort {
            None => files,
            Some(o) => {
                sort_files(&mut files, o);
                files
            },
        }
    }
}

/// `find_entry` returns the first carrier.
proof fn lemma_find_entry_first(es: Seq<Entry>, id: Seq<char>)
    ensures
        match find_entry(es, id) {
            Some(e) => exists|i: int|
                0 <= i < es.len() && es[i] == e && entry_id_spec(es[i]) == id,
            None => forall|j: int|
                0 <= j < es.len() ==> entry_id_spec(#[trigger] es[j]) != id,
        },
    decreases es.len(),
{
    if es.len() > 0 && entry_id_spec(es[0]) != id {
        let tail = es.drop_first();
        lemma_find_entry_first(tail, id);
        assert(forall|j: int| 1 <= j < es.len() ==> es[j] == #[trigger] tail[j - 1]);
        match find_entry(tail, id) {
            Some(e) => {
                let i = choose|i: int|
                    0 <= i < tail.len() && tail[i] == e && entry_id_spec(tail[i]) == id;
                assert(es[i + 1] == e);
            },
            None => {
                assert forall|j: int|
                    0 <= j < es.len() implies entry_id_spec(#[trigger] es[j]) != id by {
                    if j >= 1 {
                        assert(es[j] == tail[j - 1]);
                        assert(entry_id_spec(tail[j - 1]) != id);
                    }
                }
            },
        }
    }
}

/// Overwriting the only carrier of an id leaves every other id's entry as
/// it was, and the id now finds the new entry.
proof fn lemma_entry_set_state(oldes: Seq<Entry>, newes: Seq<Entry>, i: int, id: Seq<char>)
    requires
        0 <= i < oldes.len(),
        newes == oldes.update(i, newes[i]),
        newes.len() == oldes.len(),
        entry_id_spec(oldes[i]) == id,
        entry_id_spec(newes[i]) == id,
        forall|j: int| 0 <= j < i ==> entry_id_spec(#[trigger] oldes[j]) != id,
    ensures
        find_entry(newes, id) == Some(newes[i]),
        forall|o: Seq<char>|
            o != id ==> #[trigger] find_entry(newes, o) == find_entry(oldes, o),
    decreases oldes.len(),
{
    if i == 0 {
        assert forall|o: Seq<char>| o != id implies #[trigger] find_entry(newes, o)
            == find_entry(oldes, o) by {
            assert(newes.drop_first() =~= oldes.drop_first());
        }
    } else {
        assert(entry_id_spec(oldes[0]) != id);
        assert(newes[0] == oldes[0]);
        assert(newes.drop_first()[i - 1] == newes[i]);
        assert(newes.drop_first() =~= oldes.drop_first().update(i - 1, newes.drop_first()[i
            - 1]));
        lemma_entry_set_state(oldes.drop_first(), newes.drop_first(), i - 1, id);
        assert forall|o: Seq<char>| o != id implies #[trigger] find_entry(newes, o)
            == find_entry(oldes, o) by {
            if entry_id_spec(oldes[0]) != o {
                assert(find_entry(newes, o) == find_entry(newes.drop_first(), o));
                assert(find_entry(oldes, o) == find_entry(oldes.drop_first(), o));
            }
        }
    }
}

/// Appending an entry for an id that had none makes that id found and
/// leaves every other id's entry as it was.
proof fn lemma_entry_push_state(oldes: Seq<Entry>, id: Seq<char>, slot: Entry)
    requires
        find_entry(oldes, id) is None,
        entry_id_spec(slot) == id,
    ensures
        find_entry(oldes.push(slot), id) == Some(slot),
        forall|o: Seq<char>|
            o != id ==> #[trigger] find_entry(oldes.push(slot), o) == find_entry(oldes, o),
    decreases oldes.len(),
{
    let s = oldes.push(slot);
    if oldes.len() == 0 {
        assert(s[0] == slot);
        assert forall|o: Seq<char>| o != id implies #[trigger] find_entry(s, o) == find_entry(
            oldes,
            o,
        ) by {
            assert(entry_id_spec(s[0]) != o);
            assert(find_entry(s, o) == find_entry(s.drop_first(), o));
            assert(s.drop_first() =~= Seq::<Entry>::empty());
            assert(find_entry(Seq::<Entry>::empty(), o) is None);
            assert(find_entry(oldes, o) is None);
        }
    } else {
        assert(s[0] == oldes[0]);
        assert(entry_id_spec(oldes[0]) != id);
        assert(s.drop_first() =~= oldes.drop_first().push(slot));
        lemma_entry_push_state(oldes.drop_first(), id, slot);
        assert(find_entry(s, id) == find_entry(s.drop_first(), id));
        assert(find_entry(oldes.drop_first().push(slot), id) == Some(slot));
        assert forall|o: Seq<char>| o != id implies #[trigger] find_entry(s, o) == find_entry(
            oldes,
            o,
        ) by {
            if entry_id_spec(s[0]) != o {
                assert(find_entry(s, o) == find_entry(s.drop_first(), o));
                assert(find_entry(oldes, o) == find_entry(oldes.drop_first(), o));
                assert(find_entry(oldes.drop_first().push(slot), o) == find_entry(
                    oldes.drop_first(),
                    o,
                ));
            }
        }
    }
}

/// Removing the only carrier of an id makes that id unfound and leaves
/// every other id's entry as it was.
proof fn lemma_entry_remove_state(oldes: Seq<Entry>, i: int, id: Seq<char>)
    requires
        0 <= i < oldes.len(),
        entry_id_spec(oldes[i]) == id,
        forall|j: int|
            0 <= j < oldes.len() && j != i ==> entry_id_spec(#[trigger] oldes[j]) != id,
    ensures
        find_entry(oldes.remove(i), id) is None,
        forall|o: Seq<char>|
            o != id ==> #[trigger] find_entry(oldes.remove(i), o) == find_entry(oldes, o),
    decreases oldes.len(),
{
    let s = oldes.remove(i);
    assert(s.len() == oldes.len() - 1);
    if i == 0 {
        assert(s =~= oldes.drop_first());
        lemma_no_carrier_not_found(s, id);
        assert forall|o: Seq<char>| o != id implies #[trigger] find_entry(s, o) == find_entry(
            oldes,
            o,
        ) by {
            assert(entry_id_spec(oldes[0]) == id);
            assert(find_entry(oldes, o) == find_entry(oldes.drop_first(), o));
        }
    } else {
        assert(s[0] == oldes[0]);
        assert(s.drop_first() =~= oldes.drop_first().remove(i - 1));
        assert(forall|j: int|
            0 <= j < oldes.drop_first().len() && j != i - 1 ==> entry_id_spec(
                #[trigger] oldes.drop_first()[j],
            ) != id);
        lemma_entry_remove_state(oldes.drop_first(), i - 1, id);
        assert(entry_id_spec(s[0]) != id);
        assert(find_entry(s, id) == find_entry(s.drop_first(), id));
        assert forall|o: Seq<char>| o != id implies #[trigger] find_entry(s, o) == find_entry(
            oldes,
            o,
        ) by {
            if entry_id_spec(s[0]) != o {
                assert(find_entry(s, o) == find_entry(s.drop_first(), o));
                assert(find_entry(oldes, o) == find_entry(oldes.drop_first(), o));
                assert(find_entry(oldes.drop_first().remove(i - 1), o) == find_entry(
                    oldes.drop_first(),
                    o,
                ));
            }
        }
    }
}

/// An id with no carrier is not found.
proof fn lemma_no_carrier_not_found(es: Seq<Entry>, id: Seq<char>)
    requires
        forall|j: int| 0 <= j < es.len() ==> entry_id_spec(#[trigger] es[j]) != id,
    ensures
        find_entry(es, id) is None,
    decreases es.len(),
{
    if es.len() > 0 {
        assert(forall|j: int|
            0 <= j < es.drop_first().len() ==> entry_id_spec(
                #[trigger] es.drop_first()[j],
            ) != id);
        lemma_no_carrier_not_found(es.drop_first(), id);
    }
}

} // verus!
