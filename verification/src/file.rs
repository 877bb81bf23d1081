use vstd::prelude::*;
use crate::content::{
    decode_content, type_of_content, ContentV, FileContent,
};
use crate::errors::NoterError;
use crate::file_type::{type_of_name, FileType};
use crate::id::{child_raw, id_of, last_segment, name_of, parent_of, Id};
use crate::preview::{FilePreview, PreviewV};

verus! {

/// The mathematical value of a document.
pub struct FileV {
    pub id: Seq<char>,
    pub name: Seq<char>,
    pub created_at: i64,
    pub modified_at: i64,
    pub content: ContentV,
}

/// One document: its id, display name, timestamps and typed body.
/// Timestamps are seconds since the epoch, stamped by the caller at read
/// and write time.
#[derive(Debug)]
pub struct File {
    pub id: Id,
    pub name: String,
    pub created_at: i64,
    pub modified_at: i64,
    pub content: FileContent,
}

impl View for File {
    type V = FileV;

    open spec fn view(&self) -> FileV {
        FileV {
            id: self.id@,
            name: self.name@,
            created_at: self.created_at,
            modified_at: self.modified_at,
            content: self.content@,
        }
    }
}

/// The document decoded from raw bytes found at an id: the type comes from
/// the id's trailing extension, the name from its last segment, and the
/// body from the bytes; an id without a known extension or bytes that do
/// not parse yield the matching error.
pub open spec fn decoded_file(
    id: Seq<char>,
    bytes: Seq<u8>,
    created_at: i64,
    modified_at: i64,
) -> Result<FileV, NoterError> {
    match type_of_name(last_segment(id)) {
        None => Err(NoterError::UnknownExtension),
        Some(t) => match decode_content(bytes, t) {
            None => Err(NoterError::DecodeError),
            Some(c) => Ok(
                FileV {
                    id: id,
                    name: name_of(id),
                    created_at: created_at,
                    modified_at: modified_at,
                    content: c,
                },
            ),
        },
    }
}

impl File {
    /// A document over the given parts.
    pub fn new(id: Id, name: String, content: FileContent, created_at: i64, modified_at: i64)
        -> (r: File)
        ensures
            r@.id == id@,
            r@.name == name@,
            r@.content == content@,
            r@.created_at == created_at,
            r@.modified_at == modified_at,
    {
        File { id, name, created_at, modified_at, content }
    }

    /// Decodes the document stored at `id` from the bytes found there,
    /// with the timestamps the caller read; fails with `UnknownExtension`
    /// when the id's extension names no type, and with `DecodeError` when
    /// the bytes do not parse as the named type.
    pub fn from_bytes(id: Id, bytes: &[u8], created_at: i64, modified_at: i64) -> (r: Result<
        File,
        NoterError,
    >)
        ensures
            match r {
                Ok(f) => decoded_file(id@, bytes@, created_at, modified_at) == Ok::<
                    FileV,
                    NoterError,
                >(f@),
                Err(e) => decoded_file(id@, bytes@, created_at, modified_at) == Err::<
                    FileV,
                    NoterError,
                >(e),
            },
    {
        let t = match id.get_type() {
            Some(t) => t,
            None => {
                return Err(NoterError::UnknownExtension);
            },
        };
        let content = match FileContent::custom_deserialize(bytes, t) {
            Ok(c) => c,
            Err(_) => {
                return Err(NoterError::DecodeError);
            },
        };
        let name = id.get_name();
        Ok(File { id, name, created_at, modified_at, content })
    }

    /// The preview of this document: the same metadata without the body.
    pub fn get_preview(&self) -> (r: FilePreview)
        ensures
            r@.id == self@.id,
            r@.name == self@.name,
            r@.file_type == type_of_content(self@.content),
            r@.created_at == self@.created_at,
            r@.modified_at == self@.modified_at,
    {
        FilePreview {
            id: self.id.clone(),
            name: self.name.clone(),
            file_type: self.content.get_type(),
            created_at: self.created_at,
            modified_at: self.modified_at,
        }
    }

    /// The type of this document, read from its body's tag.
    pub fn get_type(&self) -> (r: FileType)
        ensures
            r == type_of_content(self@.content),
    {
        self.content.get_type()
    }

    /// Replaces the body and stamps the modification time; the id, name
    /// and creation time stay.
    pub fn put(&mut self, content: FileContent, now: i64)
        ensures
            final(self)@.content == content@,
            final(self)@.modified_at == now,
            final(self)@.id == old(self)@.id,
            final(self)@.name == old(self)@.name,
            final(self)@.created_at == old(self)@.created_at,
    {
        self.content = content;
        self.modified_at = now;
    }

    /// Renames the document: the id becomes the sibling id under the same
    /// parent with the new name and this document's type, the display name
    /// becomes the new name, the modification time is stamped, and the
    /// creation time and body stay. The filesystem move belongs to the
    /// caller.
    pub fn rename(&mut self, new_name: &str, notes_dir: &str, now: i64)
        ensures
            final(self)@.id == renamed_id(
                old(self)@.id,
                new_name@,
                type_of_content(old(self)@.content),
                notes_dir@,
            ),
            final(self)@.name == new_name@,
            final(self)@.created_at == old(self)@.created_at,
            final(self)@.modified_at == now,
            final(self)@.content == old(self)@.content,
    {
        let t = self.content.get_type();
        let parent = match self.id.get_parent(notes_dir) {
            Some(p) => p,
            None => Id::new(notes_dir, notes_dir),
        };
        let new_id = Id::create_id(new_name, &parent, t, notes_dir);
        self.id = new_id;
        self.name = new_name.to_owned();
        self.modified_at = now;
    }
}

/// The id a rename produces: the child of the old id's parent (or of the
/// root, for a root-level id) named `new_name` with the type's canonical
/// extension, revalidated against the root.
pub open spec fn renamed_id(
    id: Seq<char>,
    new_name: Seq<char>,
    t: FileType,
    root: Seq<char>,
) -> Seq<char> {
    let parent = match parent_of(id, root) {
        Some(p) => p,
        None => id_of(root, root),
    };
    id_of(child_raw(parent, new_name, t), root)
}

} // verus!
