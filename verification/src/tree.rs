use vstd::prelude::*;
use crate::content::type_of_content;
use crate::directory::{
    lemma_view_entries_push, view_dir, view_entries, view_entry, DirV, Directory, Entry, EntryV,
};
use crate::file::{decoded_file, File, FileV};
use crate::id::{id_of, last_segment, Id};
use crate::preview::PreviewV;

verus! {

/// What a traversal found for one file: its path, raw bytes, and the
/// timestamps read from the filesystem.
#[derive(Debug)]
pub struct RawFile {
    pub path: String,
    pub bytes: Vec<u8>,
    pub created_at: i64,
    pub modified_at: i64,
}

/// What a traversal found for one entry.
#[derive(Debug)]
pub enum RawEntry {
    File(RawFile),
    Dir(RawDir),
}

/// What a traversal found for one directory: its path, timestamps, and
/// children in enumeration order.
#[derive(Debug)]
pub struct RawDir {
    pub path: String,
    pub created_at: i64,
    pub modified_at: i64,
    pub entries: Vec<RawEntry>,
}

/// The document a raw file decodes to, if its extension names a type and
/// its bytes parse as that type.
pub open spec fn decoded_doc(f: RawFile, root: Seq<char>) -> Option<FileV> {
    match decoded_file(id_of(f.path@, root), f.bytes@, f.created_at, f.modified_at) {
        Ok(v) => Some(v),
        Err(_) => None,
    }
}

/// The preview of a decoded document.
pub open spec fn preview_v_of(v: FileV) -> PreviewV {
    PreviewV {
        id: v.id,
        name: v.name,
        file_type: type_of_content(v.content),
        created_at: v.created_at,
        modified_at: v.modified_at,
    }
}

/// The tree built for one raw directory: the directory's own metadata, and
/// one entry per child that resolves — a preview for each file that
/// decodes, a subtree for each subdirectory. A child that fails to decode
/// is skipped, never fatal to its siblings.
pub open spec fn built_dir(d: RawDir, root: Seq<char>) -> DirV
    decreases d,
{
    DirV {
        id: id_of(d.path@, root),
        name: last_segment(d.path@),
        entries: built_entries(d.entries@, root),
        created_at: d.created_at,
        modified_at: d.modified_at,
    }
}

/// The tree entries built for a run of raw children, in order.
pub open spec fn built_entries(es: Seq<RawEntry>, root: Seq<char>) -> Seq<EntryV>
    decreases es,
{
    if es.len() == 0 {
        Seq::<EntryV>::empty()
    } else {
        built_entry(es[0], root) + built_entries(es.drop_first(), root)
    }
}

/// The tree entries one raw child yields: none when a file does not
/// decode.
pub open spec fn built_entry(e: RawEntry, root: Seq<char>) -> Seq<EntryV>
    decreases e,
{
    match e {
        RawEntry::File(f) => match decoded_doc(f, root) {
            Some(v) => seq![EntryV::File(preview_v_of(v))],
            None => Seq::<EntryV>::empty(),
        },
        RawEntry::Dir(sd) => seq![EntryV::Dir(built_dir(sd, root))],
    }
}

/// The documents a traversal decodes under one raw directory, in
/// traversal order: the visitor seam of the tree builder.
pub open spec fn docs_dir(d: RawDir, root: Seq<char>) -> Seq<FileV>
    decreases d,
{
    docs_entries(d.entries@, root)
}

/// The documents decoded under a run of raw children.
pub open spec fn docs_entries(es: Seq<RawEntry>, root: Seq<char>) -> Seq<FileV>
    decreases es,
{
    if es.len() == 0 {
        Seq::<FileV>::empty()
    } else {
        docs_entry(es[0], root) + docs_entries(es.drop_first(), root)
    }
}

/// The documents one raw child yields.
pub open spec fn docs_entry(e: RawEntry, root: Seq<char>) -> Seq<FileV>
    decreases e,
{
    match e {
        RawEntry::File(f) => match decoded_doc(f, root) {
            Some(v) => seq![v],
            None => Seq::<FileV>::empty(),
        },
        RawEntry::Dir(sd) => docs_dir(sd, root),
    }
}

/// Builds the tree and the document run for one raw directory, by
/// depth-first descent: each file child that decodes becomes a preview
/// entry and a collected document, each subdirectory a subtree; a child
/// that fails to decode is skipped with its siblings kept.
pub fn build_tree(raw: &RawDir, notes_dir: &str) -> (r: (Directory, Vec<File>))
    ensures
        view_dir(r.0) == built_dir(*raw, notes_dir@),
        r.1@.map_values(|f: File| f@) == docs_dir(*raw, notes_dir@),
    decreases *raw,
{
    let ghost rootv = notes_dir@;
    let id = Id::new(raw.path.as_str(), notes_dir);
    let name = dir_display_name(raw.path.as_str());
    let mut entries: Vec<Entry> = Vec::new();
    let mut docs: Vec<File> = Vec::new();
    let n: usize = raw.entries.len();
    let mut i: usize = 0;
    proof {
        assert(raw.entries@.skip(0) =~= raw.entries@);
        assert(view_entries(entries@) =~= Seq::<EntryV>::empty());
        assert(Seq::<EntryV>::empty() + built_entries(raw.entries@, rootv) =~= built_entries(
            raw.entries@,
            rootv,
        ));
        assert(docs@.map_values(|f: File| f@) =~= Seq::<FileV>::empty());
        assert(Seq::<FileV>::empty() + docs_entries(raw.entries@, rootv) =~= docs_entries(
            raw.entries@,
            rootv,
        ));
    }
    while i < n
        invariant
            i <= n,
            n == raw.entries@.len(),
            rootv == notes_dir@,
            view_entries(entries@) + built_entries(raw.entries@.skip(i as int), rootv)
                == built_entries(raw.entries@, rootv),
            docs@.map_values(|f: File| f@) + docs_entries(raw.entries@.skip(i as int), rootv)
                == docs_entries(raw.entries@, rootv),
        decreases n - i,
    {
        proof {
            let tail = raw.entries@.skip(i as int);
            assert(tail[0] == raw.entries@[i as int]);
            assert(tail.drop_first() =~= raw.entries@.skip(i + 1 as int));
        }
        match &raw.entries[i] {
            RawEntry::File(f) => {
                let fid = Id::new(f.path.as_str(), notes_dir);
                let decoded = File::from_bytes(fid, f.bytes.as_slice(), f.created_at,
                    f.modified_at);
                match decoded {
                    Ok(doc) => {
                        let preview = doc.get_preview();
                        let ghost ev = entries@;
                        let ghost dv = docs@.map_values(|f2: File| f2@);
                        entries.push(Entry::File(preview));
                        docs.push(doc);
                        proof {
                            let e0 = raw.entries@[i as int];
                            assert(decoded_doc(e0->File_0, rootv) is Some);
                            let v = decoded_doc(e0->File_0, rootv).unwrap();
                            assert(entries@ =~= ev.push(Entry::File(preview)));
                            lemma_view_entries_push(ev, Entry::File(preview));
                            assert(view_entry(Entry::File(preview)) == EntryV::File(
                                preview_v_of(v),
                            ));
                            assert(view_entries(ev).push(EntryV::File(preview_v_of(v)))
                                =~= view_entries(ev) + built_entry(e0, rootv));
                            assert(view_entries(ev) + built_entry(e0, rootv) + built_entries(
                                raw.entries@.skip(i + 1 as int),
                                rootv,
                            ) =~= view_entries(ev) + (built_entry(e0, rootv) + built_entries(
                                raw.entries@.skip(i + 1 as int),
                                rootv,
                            )));
                            assert(docs@.map_values(|f2: File| f2@) =~= dv.push(v));
                            assert(dv.push(v) =~= dv + docs_entry(e0, rootv));
                            assert(dv + docs_entry(e0, rootv) + docs_entries(
                                raw.entries@.skip(i + 1 as int),
                                rootv,
                            ) =~= dv + (docs_entry(e0, rootv) + docs_entries(
                                raw.entries@.skip(i + 1 as int),
                                rootv,
                            )));
                        }
                    },
                    Err(_) => {
                        proof {
                            let e0 = raw.entries@[i as int];
                            assert(decoded_doc(e0->File_0, rootv) is None);
                            assert(built_entry(e0, rootv) =~= Seq::<EntryV>::empty());
                            assert(docs_entry(e0, rootv) =~= Seq::<FileV>::empty());
                            assert(built_entry(e0, rootv) + built_entries(
                                raw.entries@.skip(i + 1 as int),
                                rootv,
                            ) =~= built_entries(raw.entries@.skip(i + 1 as int), rootv));
                            assert(docs_entry(e0, rootv) + docs_entries(
                                raw.entries@.skip(i + 1 as int),
                                rootv,
                            ) =~= docs_entries(raw.entries@.skip(i + 1 as int), rootv));
                        }
                    },
                }
            },
            RawEntry::Dir(sd) => {
                proof {
                    assert(raw.entries@[i as int] == RawEntry::Dir(*sd));
                    assert(decreases_to!(*raw => raw.entries));
                    assert(decreases_to!(raw.entries@ => raw.entries@[i as int]));
                    assert(decreases_to!(raw.entries@[i as int] => *sd));
                }
                let sub = build_tree(sd, notes_dir);
                let subdir = sub.0;
                let mut subdocs = sub.1;
                let ghost ev = entries@;
                let ghost dv = docs@.map_values(|f2: File| f2@);
                let ghost sdv = subdocs@.map_values(|f2: File| f2@);
                entries.push(Entry::Directory(subdir));
                docs.append(&mut subdocs);
                proof {
                    let e0 = raw.entries@[i as int];
                    assert(entries@ =~= ev.push(entries@.last()));
                    lemma_view_entries_push(ev, entries@.last());
                    assert(view_entries(ev).push(view_entry(entries@.last()))
                        =~= view_entries(ev) + built_entry(e0, rootv));
                    assert(view_entries(ev) + built_entry(e0, rootv) + built_entries(
                        raw.entries@.skip(i + 1 as int),
                        rootv,
                    ) =~= view_entries(ev) + (built_entry(e0, rootv) + built_entries(
                        raw.entries@.skip(i + 1 as int),
                        rootv,
                    )));
                    assert(docs@.map_values(|f2: File| f2@) =~= dv + sdv);
                    assert(sdv == docs_entry(e0, rootv));
                    assert(dv + docs_entry(e0, rootv) + docs_entries(
                        raw.entries@.skip(i + 1 as int),
                        rootv,
                    ) =~= dv + (docs_entry(e0, rootv) + docs_entries(
                        raw.entries@.skip(i + 1 as int),
                        rootv,
                    )));
                }
            },
        }
        i = i + 1;
    }
    proof {
        assert(raw.entries@.skip(n as int) =~= Seq::<RawEntry>::empty());
        assert(view_entries(entries@) + Seq::<EntryV>::empty() =~= view_entries(entries@));
        assert(docs@.map_values(|f: File| f@) + Seq::<FileV>::empty() =~= docs@.map_values(
            |f: File| f@,
        ));
    }
    let dir = Directory { id, name, entries, created_at: raw.created_at, modified_at:
        raw.modified_at };
    (dir, docs)
}

/// The display name of a directory path: its last segment.
fn dir_display_name(path: &str) -> (r: String)
    ensures
        r@ == last_segment(path@),
{
    let cs = crate::chars::chars_of(path);
    proof {
        crate::chars::lemma_rfind(cs@, '/');
    }
    let cut = crate::chars::find_last(&cs, '/');
    let m: usize = cs.len();
    let seg: Vec<char> = match cut {
        None => crate::chars::subvec(&cs, 0, m),
        Some(i) => crate::chars::subvec(&cs, i + 1, m),
    };
    proof {
        assert(seg@ =~= last_segment(path@));
    }
    crate::chars::string_of(&seg)
}

} // verus!
