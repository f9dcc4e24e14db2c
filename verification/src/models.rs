//! The data that the indexer, the reader and the store exchange.

use vstd::prelude::*;

verus! {

/// The character encoding that a file was classified as.
#[derive(Debug, Clone, Copy, PartialEq, Eq, Structural)]
pub enum FileEncoding {
    Utf8,
    Gbk,
    Latin1,
    Unknown,
}

impl Default for FileEncoding {
    fn default() -> (encoding: Self)
        ensures
            encoding == FileEncoding::Utf8,
    {
        FileEncoding::Utf8
    }
}

/// An instant in UTC: whole seconds since 1970-01-01T00:00:00Z and the
/// nanoseconds into that second.
#[derive(Debug, Clone, Copy, PartialEq, Eq, Structural)]
pub struct Timestamp {
    pub secs: i64,
    pub nanos: u32,
}

/// The index of one file: where each of its lines starts.
#[derive(Debug, Clone)]
pub struct FileIndex {
    pub path: String,
    pub total_lines: u64,
    pub line_offsets: Vec<u64>,
    pub file_size: u64,
    pub encoding: FileEncoding,
    pub indexed_at: Timestamp,
}

/// What a `FileIndex` is, as mathematics.
pub struct IndexView {
    pub path: Seq<char>,
    pub total_lines: u64,
    pub line_offsets: Seq<u64>,
    pub file_size: u64,
    pub encoding: FileEncoding,
    pub indexed_at: Timestamp,
}

impl View for FileIndex {
    type V = IndexView;

    open spec fn view(&self) -> IndexView {
        IndexView {
            path: self.path@,
            total_lines: self.total_lines,
            line_offsets: self.line_offsets@,
            file_size: self.file_size,
            encoding: self.encoding,
            indexed_at: self.indexed_at,
        }
    }
}

impl IndexView {
    /// The invariant of an index: one offset per line, the offsets strictly
    /// increasing from 0, and every line starting inside the file.
    pub open spec fn wf(self) -> bool {
        &&& self.line_offsets.len() == self.total_lines
        &&& self.total_lines > 0 ==> self.line_offsets[0] == 0
        &&& forall|i: int, j: int|
            0 <= i < j < self.line_offsets.len() ==> self.line_offsets[i] < self.line_offsets[j]
        &&& forall|i: int|
            0 <= i < self.line_offsets.len() ==> #[trigger] self.line_offsets[i] < self.file_size
    }

    /// Where line `i` ends: at the start of the next line, or at the end of
    /// the file for the last line.
    pub open spec fn line_end(self, i: int) -> int {
        if i + 1 < self.total_lines {
            self.line_offsets[i + 1] as int
        } else {
            self.file_size as int
        }
    }
}

impl FileIndex {
    /// The invariant of an index, on the value itself.
    pub open spec fn wf(&self) -> bool {
        self@.wf()
    }

    /// An index of no lines for `path`.
    pub fn new(path: String, indexed_at: Timestamp) -> (index: Self)
        ensures
            index@ == (IndexView {
                path: path@,
                total_lines: 0,
                line_offsets: Seq::empty(),
                file_size: 0,
                encoding: FileEncoding::Utf8,
                indexed_at,
            }),
            index.wf(),
    {
        FileIndex {
            path,
            total_lines: 0,
            line_offsets: Vec::new(),
            file_size: 0,
            encoding: FileEncoding::default(),
            indexed_at,
        }
    }
}

/// What is known of a file before any of it is read.
#[derive(Debug, Clone)]
pub struct FileMeta {
    pub path: String,
    pub name: String,
    pub size: u64,
    pub total_lines: Option<u64>,
    pub is_indexed: bool,
}

/// What a `FileMeta` is, as mathematics.
pub struct MetaView {
    pub path: Seq<char>,
    pub name: Seq<char>,
    pub size: u64,
    pub total_lines: Option<u64>,
    pub is_indexed: bool,
}

impl View for FileMeta {
    type V = MetaView;

    open spec fn view(&self) -> MetaView {
        MetaView {
            path: self.path@,
            name: self.name@,
            size: self.size,
            total_lines: self.total_lines,
            is_indexed: self.is_indexed,
        }
    }
}

/// Whether a file has a stored index, and what that index says.
#[derive(Debug, Clone)]
pub struct IndexStatus {
    pub indexed: bool,
    pub total_lines: u64,
    pub indexed_at: Option<String>,
}

/// What an `IndexStatus` is, as mathematics.
pub struct StatusView {
    pub indexed: bool,
    pub total_lines: u64,
    pub indexed_at: Option<Seq<char>>,
}

impl View for IndexStatus {
    type V = StatusView;

    open spec fn view(&self) -> StatusView {
        StatusView {
            indexed: self.indexed,
            total_lines: self.total_lines,
            indexed_at: match self.indexed_at {
                Some(text) => Some(text@),
                None => None,
            },
        }
    }
}

} // verus!
