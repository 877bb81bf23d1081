use vstd::prelude::*;
use crate::errors::NoterError;
use crate::id::Id;
use crate::preview::{FilePreview, PreviewV};

verus! {

/// One entry of a directory listing: a file preview or a whole
/// subdirectory.
#[derive(Debug)]
pub enum Entry {
    File(FilePreview),
    Directory(Directory),
}

/// A directory of the tree: its id, display name, timestamps, and owned
/// entries. Depth is bounded by the real filesystem depth, so the tree is
/// naturally acyclic.
#[derive(Debug)]
pub struct Directory {
    pub id: Id,
    pub name: String,
    pub entries: Vec<Entry>,
    pub created_at: i64,
    pub modified_at: i64,
}

/// The mathematical value of an entry.
pub enum EntryV {
    File(PreviewV),
    Dir(DirV),
}

/// The mathematical value of a directory.
pub struct DirV {
    pub id: Seq<char>,
    pub name: Seq<char>,
    pub entries: Seq<EntryV>,
    pub created_at: i64,
    pub modified_at: i64,
}

/// The value of a directory.
pub open spec fn view_dir(d: Directory) -> DirV
    decreases d,
{
    DirV {
        id: d.id@,
        name: d.name@,
        entries: view_entries(d.entries@),
        created_at: d.created_at,
        modified_at: d.modified_at,
    }
}

/// The values of a run of entries.
pub open spec fn view_entries(es: Seq<Entry>) -> Seq<EntryV>
    decreases es,
{
    if es.len() == 0 {
        Seq::<EntryV>::empty()
    } else {
        seq![view_entry(es[0])] + view_entries(es.drop_first())
    }
}

/// The value of one entry.
pub open spec fn view_entry(e: Entry) -> EntryV
    decreases e,
{
    match e {
        Entry::File(p) => EntryV::File(p@),
        Entry::Directory(d) => EntryV::Dir(view_dir(d)),
    }
}

impl View for Directory {
    type V = DirV;

    open spec fn view(&self) -> DirV {
        view_dir(*self)
    }
}

/// The id held by an entry.
pub open spec fn entry_id_spec(e: Entry) -> Seq<char> {
    match e {
        Entry::File(p) => p.id@,
        Entry::Directory(d) => d.id@,
    }
}

/// The id held by an entry value.
pub open spec fn entry_v_id(ev: EntryV) -> Seq<char> {
    match ev {
        EntryV::File(p) => p.id,
        EntryV::Dir(d) => d.id,
    }
}

/// An entry and its value hold the same id.
pub proof fn lemma_entry_id_view(e: Entry)
    ensures
        entry_v_id(view_entry(e)) == entry_id_spec(e),
{
}

impl Entry {
    /// The id of this entry.
    pub fn get_id(&self) -> (r: &Id)
        ensures
            r@ == entry_id_spec(*self),
    {
        match self {
            Entry::File(file) => &file.id,
            Entry::Directory(dir) => &dir.id,
        }
    }
}

/// A run of entry values is as long as the run of entries.
pub proof fn lemma_view_entries_len(es: Seq<Entry>)
    ensures
        view_entries(es).len() == es.len(),
    decreases es.len(),
{
    if es.len() > 0 {
        lemma_view_entries_len(es.drop_first());
    }
}

/// Appending one entry appends its value.
pub proof fn lemma_view_entries_push(es: Seq<Entry>, e: Entry)
    ensures
        view_entries(es.push(e)) == view_entries(es).push(view_entry(e)),
    decreases es.len(),
{
    let s = es.push(e);
    if es.len() == 0 {
        assert(s[0] == e);
        assert(s.drop_first() =~= Seq::<Entry>::empty());
        assert(view_entries(s.drop_first()) == Seq::<EntryV>::empty());
        assert(view_entries(s) == seq![view_entry(e)] + Seq::<EntryV>::empty());
        assert(seq![view_entry(e)] + Seq::<EntryV>::empty() =~= seq![view_entry(e)]);
        assert(view_entries(es) == Seq::<EntryV>::empty());
        assert(view_entries(es).push(view_entry(e)) =~= seq![view_entry(e)]);
    } else {
        assert(s[0] == es[0]);
        assert(s.drop_first() =~= es.drop_first().push(e));
        lemma_view_entries_push(es.drop_first(), e);
        assert(view_entries(s) =~= view_entries(es).push(view_entry(e)));
    }
}

impl Directory {
    /// A directory over the given parts.
    pub fn new(id: Id, name: String, entries: Vec<Entry>, created_at: i64, modified_at: i64)
        -> (r: Directory)
        ensures
            r@.id == id@,
            r@.name == name@,
            r@.entries == view_entries(entries@),
            r@.created_at == created_at,
            r@.modified_at == modified_at,
    {
        Directory { id, name, entries, created_at, modified_at }
    }

    /// Removes the direct entry carrying `entry_id`, and with it every
    /// descendant entry it owns; the remaining entries keep their order.
    /// Fails with `NotFound`, changing nothing, when no direct entry
    /// carries the id.
    pub fn delete_entry(&mut self, entry_id: &Id) -> (r: Result<(), NoterError>)
        ensures
            match r {
                Ok(()) => {
                    &&& (exists|k: int|
                        0 <= k < old(self).entries@.len() && entry_id_spec(
                            #[trigger] old(self).entries@[k],
                        ) == entry_id@)
                    &&& view_entries(final(self).entries@) == view_entries(
                        old(self).entries@,
                    ).filter(|ev: EntryV| entry_v_id(ev) != entry_id@)
                },
                Err(e) => {
                    &&& e == NoterError::NotFound
                    &&& final(self)@ == old(self)@
                    &&& forall|k: int|
                        0 <= k < old(self).entries@.len() ==> entry_id_spec(
                            #[trigger] old(self).entries@[k],
                        ) != entry_id@
                },
            },
            final(self).id@ == old(self).id@,
            final(self).name@ == old(self).name@,
            final(self).created_at == old(self).created_at,
            final(self).modified_at == old(self).modified_at,
    {
        let n: usize = self.entries.len();
        let mut kept: Vec<Entry> = Vec::new();
        let mut found = false;
        let mut i: usize = 0;
        proof {
            assert(view_entries(self.entries@.take(0)) =~= Seq::<EntryV>::empty());
            assert(view_entries(self.entries@.take(0)).filter(
                |ev: EntryV| entry_v_id(ev) != entry_id@,
            ) =~= Seq::<EntryV>::empty());
            assert(view_entries(kept@) =~= Seq::<EntryV>::empty());
        }
        while i < n
            invariant
                i <= n,
                n == self.entries@.len(),
                view_entries(kept@) == view_entries(self.entries@.take(i as int)).filter(
                    |ev: EntryV| entry_v_id(ev) != entry_id@,
                ),
                found == (exists|k: int|
                    0 <= k < i && entry_id_spec(#[trigger] self.entries@[k]) == entry_id@),
                self.entries@ == old(self).entries@,
                self.id@ == old(self).id@,
                self.name@ == old(self).name@,
                self.created_at == old(self).created_at,
                self.modified_at == old(self).modified_at,
            decreases n - i,
        {
            let ghost pre = self.entries@.take(i as int);
            let e = entry_copy(&self.entries, i);
            let hit = e.get_id() == entry_id;
            proof {
                assert(self.entries@.take(i + 1 as int) =~= pre.push(self.entries@[i as int]));
                lemma_view_entries_push(pre, self.entries@[i as int]);
                lemma_entry_id_view(self.entries@[i as int]);
                lemma_entry_id_view(e);
                reveal(Seq::filter);
                assert(view_entries(pre.push(self.entries@[i as int])).drop_last()
                    =~= view_entries(pre));
            }
            if hit {
                found = true;
                proof {
                    assert(entry_id_spec(self.entries@[i as int]) == entry_id@);
                }
            } else {
                let ghost keptpre = kept@;
                kept.push(e);
                proof {
                    assert(kept@ =~= keptpre.push(e));
                    lemma_view_entries_push(keptpre, e);
                }
            }
            i = i + 1;
        }
        proof {
            assert(self.entries@.take(n as int) =~= self.entries@);
        }
        if found {
            self.entries = kept;
            Ok(())
        } else {
            Err(NoterError::NotFound)
        }
    }
}

/// A copy of the entry at one position of a listing, equal in value.
fn entry_copy(es: &Vec<Entry>, i: usize) -> (r: Entry)
    requires
        i < es@.len(),
    ensures
        view_entry(r) == view_entry(es@[i as int]),
        entry_id_spec(r) == entry_id_spec(es@[i as int]),
    decreases es@[i as int],
{
    match &es[i] {
        Entry::File(p) => Entry::File(p.clone()),
        Entry::Directory(d) => {
            let sub = dir_copy(d);
            Entry::Directory(sub)
        },
    }
}

/// A copy of a whole directory, equal in value.
fn dir_copy(d: &Directory) -> (r: Directory)
    ensures
        view_dir(r) == view_dir(*d),
    decreases *d,
{
    let n: usize = d.entries.len();
    let mut entries: Vec<Entry> = Vec::new();
    let mut i: usize = 0;
    proof {
        assert(view_entries(entries@) =~= Seq::<EntryV>::empty());
        assert(view_entries(d.entries@.take(0)) =~= Seq::<EntryV>::empty());
    }
    while i < n
        invariant
            i <= n,
            n == d.entries@.len(),
            view_entries(entries@) == view_entries(d.entries@.take(i as int)),
        decreases n - i,
    {
        let e: Entry = match &d.entries[i] {
            Entry::File(p) => Entry::File(p.clone()),
            Entry::Directory(sd) => {
                proof {
                    assert(d.entries@[i as int] == Entry::Directory(*sd));
                }
                Entry::Directory(dir_copy(sd))
            },
        };
        let ghost pre = entries@;
        entries.push(e);
        proof {
            assert(entries@ =~= pre.push(e));
            lemma_view_entries_push(pre, e);
            assert(d.entries@.take(i + 1 as int) =~= d.entries@.take(i as int).push(
                d.entries@[i as int],
            ));
            lemma_view_entries_push(d.entries@.take(i as int), d.entries@[i as int]);
            assert(view_entry(e) == view_entry(d.entries@[i as int]));
        }
        i = i + 1;
    }
    proof {
        assert(d.entries@.take(n as int) =~= d.entries@);
    }
    Directory {
        id: d.id.clone(),
        name: d.name.clone(),
        entries,
        created_at: d.created_at,
        modified_at: d.modified_at,
    }
}

} // verus!
