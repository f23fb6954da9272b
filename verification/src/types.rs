//! What a scan finds.

use vstd::prelude::*;

verus! {

/// A deleted file or directory that a scan came upon.
#[derive(Debug, Clone)]
pub struct DeletedFile {
    pub name: String,
    /// The size in bytes.
    pub size: u64,
    /// The byte offset of the first cluster on the device; 0 where it is not known.
    pub start_address: u64,
    pub fs_type: String,
    /// The path of the directory that held the file, without a leading separator.
    pub path: String,
    pub is_directory: bool,
    /// The contents, where they are stored with the file's own record.
    pub resident_data: Option<Vec<u8>>,
    /// The runs of clusters that hold the contents: first cluster and number of clusters.
    pub data_runs: Vec<(u64, u64)>,
}

/// A deleted file as contracts speak of it.
pub struct FileModel {
    pub name: Seq<char>,
    pub size: u64,
    pub start_address: u64,
    pub fs_type: Seq<char>,
    pub path: Seq<char>,
    pub is_directory: bool,
    pub resident_data: Option<Seq<u8>>,
    pub data_runs: Seq<(u64, u64)>,
}

impl View for DeletedFile {
    type V = FileModel;

    open spec fn view(&self) -> FileModel {
        FileModel {
            name: self.name@,
            size: self.size,
            start_address: self.start_address,
            fs_type: self.fs_type@,
            path: self.path@,
            is_directory: self.is_directory,
            resident_data: match self.resident_data {
                Some(data) => Some(data@),
                None => None,
            },
            data_runs: self.data_runs@,
        }
    }
}

/// Deleted files as contracts speak of them.
pub open spec fn file_models(files: Seq<DeletedFile>) -> Seq<FileModel> {
    Seq::new(files.len(), |i: int| files[i]@)
}

/// Whether the directory bit, the fifth, is set in an attribute byte.
pub open spec fn directory_bit(attr: u8) -> bool {
    (attr / 0x10) % 2 == 1
}

/// Tells whether an attribute byte marks a directory.
pub fn is_directory(attr: u8) -> (answer: bool)
    ensures
        answer == directory_bit(attr),
{
    assert((attr & 0x10 != 0) == ((attr / 0x10) % 2 == 1)) by (bit_vector);
    attr & 0x10 != 0
}

} // verus!
