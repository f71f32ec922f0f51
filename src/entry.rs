use vstd::prelude::*;

verus! {

/// A scanned file: its path and its size in bytes.
#[derive(Clone, Debug)]
pub struct FileEntry {
    pub fullpath: String,
    pub filesize: u64,
}

/// The mathematical view of a [`FileEntry`].
pub ghost struct EntryView {
    pub path: Seq<char>,
    pub size: u64,
}

impl View for FileEntry {
    type V = EntryView;

    open spec fn view(&self) -> EntryView {
        EntryView { path: self.fullpath@, size: self.filesize }
    }
}

/// The views of a sequence of entries, position by position.
pub open spec fn entry_views(files: Seq<FileEntry>) -> Seq<EntryView> {
    files.map_values(|f: FileEntry| f@)
}

impl FileEntry {
    /// An entry for the file at `fullpath`, whose metadata gave `filesize`.
    pub fn new(fullpath: String, filesize: u64) -> (r: FileEntry)
        ensures
            r@ == (EntryView { path: fullpath@, size: filesize }),
    {
        FileEntry { fullpath, filesize }
    }

    /// A copy of this entry.
    pub fn duplicate(&self) -> (r: FileEntry)
        ensures
            r@ == self@,
    {
        FileEntry { fullpath: self.fullpath.clone(), filesize: self.filesize }
    }
}

} // verus!
