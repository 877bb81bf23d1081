use vstd::prelude::*;
use crate::file_type::FileType;
use crate::id::Id;

verus! {

/// The mathematical value of a preview.
pub struct PreviewV {
    pub id: Seq<char>,
    pub name: Seq<char>,
    pub file_type: FileType,
    pub created_at: i64,
    pub modified_at: i64,
}

/// A document without its body: what tree listings and graph nodes carry,
/// so large bodies are never loaded for a listing.
#[derive(Debug)]
pub struct FilePreview {
    pub id: Id,
    pub name: String,
    pub file_type: FileType,
    pub created_at: i64,
    pub modified_at: i64,
}

impl View for FilePreview {
    type V = PreviewV;

    open spec fn view(&self) -> PreviewV {
        PreviewV {
            id: self.id@,
            name: self.name@,
            file_type: self.file_type,
            created_at: self.created_at,
            modified_at: self.modified_at,
        }
    }
}

impl Clone for FilePreview {
    fn clone(&self) -> (r: Self)
        ensures
            r@ == self@,
    {
        FilePreview {
            id: self.id.clone(),
            name: self.name.clone(),
            file_type: self.file_type,
            created_at: self.created_at,
            modified_at: self.modified_at,
        }
    }
}

impl FilePreview {
    /// A preview over the given metadata.
    pub fn new(id: Id, name: String, file_type: FileType, created_at: i64, updated_at: i64)
        -> (r: FilePreview)
        ensures
            r@.id == id@,
            r@.name == name@,
            r@.file_type == file_type,
            r@.created_at == created_at,
            r@.modified_at == updated_at,
    {
        FilePreview { id, name, file_type, created_at, modified_at: updated_at }
    }
}

} // verus!
