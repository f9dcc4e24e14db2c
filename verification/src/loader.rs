//! Building the line index of a file, and reading lines back through it.

use crate::lines::is_line_start;
use crate::lines::lemma_line_starts;
use crate::lines::line_count;
use crate::lines::line_starts;
use crate::lines::line_starts_before;
use crate::lines::LINE_FEED;
use crate::models::FileEncoding;
use crate::models::FileIndex;
use crate::models::FileMeta;
use crate::models::IndexStatus;
use crate::models::IndexView;
use crate::models::MetaView;
use crate::models::StatusView;
use crate::models::Timestamp;
use crate::storage::index_of_record;
use crate::storage::lemma_record_round_trip;
use crate::storage::record_of;
use crate::storage::status_of;
use crate::storage::StorageError;
use crate::text::decode;
use crate::text::decoded;
use crate::text::gbk_input_limit;
use crate::text::is_valid_utf8;
use crate::text::lemma_strip_terminator_restores;
use crate::text::lemma_utf8_between_ascii;
use crate::text::starts_with_utf8_mark;
use crate::text::strip_line_terminator;
use crate::text::strip_terminator;
use crate::text::terminator_of;
use vstd::prelude::*;
use vstd::slice::slice_subrange;
use vstd::string::StringExecFns;
use vstd::utf8::decode_utf8;
use vstd::utf8::decode_utf8_encode_utf8;
use vstd::utf8::encode_utf8;
use vstd::utf8::valid_utf8;

verus! {

/// Why the loader could not answer.
#[derive(Debug, Clone)]
pub enum LoaderError {
    /// The file does not exist.
    NotFound(String),
    /// Lines were asked of a file that has no stored index.
    IndexMissing,
    /// The file could not be read, or is shorter than its index says.
    Io(String),
    /// The index store failed.
    Storage(StorageError),
}

impl LoaderError {
    /// The text of the error, as `message` gives it.
    pub open spec fn message_text(self) -> Seq<char> {
        match self {
            LoaderError::NotFound(path) => "File not found: "@ + path@,
            LoaderError::IndexMissing => "Index not found"@,
            LoaderError::Io(detail) => "IO error: "@ + detail@,
            LoaderError::Storage(inner) => "Storage error: "@ + inner.message_text(),
        }
    }

    /// The error in words.
    pub fn message(&self) -> (text: String)
        ensures
            text@ == self.message_text(),
    {
        match self {
            LoaderError::NotFound(path) => String::from_str("File not found: ").concat(
                path.as_str(),
            ),
            LoaderError::IndexMissing => String::from_str("Index not found"),
            LoaderError::Io(detail) => String::from_str("IO error: ").concat(detail.as_str()),
            LoaderError::Storage(inner) => {
                let detail = inner.message();
                String::from_str("Storage error: ").concat(detail.as_str())
            },
        }
    }
}

/// Whether the two bytes at `i` have the shape of a GBK character: a lead
/// byte in 0x81..=0xFE and a trail byte in 0x40..=0x7E or 0x80..=0xFE.
pub open spec fn gbk_pair_at(data: Seq<u8>, i: int) -> bool {
    &&& 0 <= i
    &&& i + 1 < data.len()
    &&& 0x81 <= data[i] <= 0xFE
    &&& (0x40 <= data[i + 1] <= 0x7E || 0x80 <= data[i + 1] <= 0xFE)
}

/// Whether some two neighbouring bytes of `data` have the shape of a GBK
/// character.
pub open spec fn has_gbk_pair(data: Seq<u8>) -> bool {
    exists|i: int| gbk_pair_at(data, i)
}

/// The encoding that `data` is classified as: UTF-8 where it carries the
/// mark of UTF-8 or is UTF-8 throughout, else GBK where two neighbouring
/// bytes look like GBK, else Latin-1.
pub open spec fn detected_encoding(data: Seq<u8>) -> FileEncoding {
    if starts_with_utf8_mark(data) || valid_utf8(data) {
        FileEncoding::Utf8
    } else if has_gbk_pair(data) {
        FileEncoding::Gbk
    } else {
        FileEncoding::Latin1
    }
}

/// The same bytes are always classified alike.
pub proof fn lemma_detection_is_deterministic(first: Seq<u8>, second: Seq<u8>)
    requires
        first == second,
    ensures
        detected_encoding(first) == detected_encoding(second),
{
}

/// Whether `index` is the index of a file that holds `data`.
pub open spec fn is_index_of(index: IndexView, data: Seq<u8>) -> bool {
    &&& index.total_lines == line_count(data)
    &&& index.line_offsets == line_starts(data)
    &&& index.file_size == data.len()
    &&& index.encoding == detected_encoding(data)
}

/// Two indexes of the same bytes have the same lines: building an index
/// again over an unchanged file changes nothing but the time it was built.
pub proof fn lemma_index_is_unique(first: IndexView, second: IndexView, data: Seq<u8>)
    requires
        is_index_of(first, data),
        is_index_of(second, data),
    ensures
        first.total_lines == second.total_lines,
        first.line_offsets == second.line_offsets,
        first.file_size == second.file_size,
        first.encoding == second.encoding,
{
}

/// An index of `data` is well formed.
pub proof fn lemma_index_of_is_wf(index: IndexView, data: Seq<u8>)
    requires
        is_index_of(index, data),
        data.len() <= u64::MAX,
    ensures
        index.wf(),
{
    lemma_line_starts(data);
}

/// Where a range of `count` lines from line `start` ends, cut at the last
/// line of the index.
pub open spec fn range_end(index: IndexView, start: u64, count: u64) -> int {
    if start + count <= index.total_lines {
        start + count
    } else {
        index.total_lines as int
    }
}

/// The number of lines that a range of `count` lines from line `start`
/// holds: `count`, or as many as the index has from `start` on.
pub open spec fn lines_in_range(index: IndexView, start: u64, count: u64) -> int {
    if start < range_end(index, start, count) {
        range_end(index, start, count) - start
    } else {
        0
    }
}

/// Whether line `i` can be read from a file of `data_len` bytes: the index
/// has its start and its end, the two are in order and inside the file, and
/// a line of GBK is no longer than the decoder takes.
pub open spec fn line_readable(index: IndexView, data_len: int, i: int) -> bool {
    &&& 0 <= i < index.line_offsets.len()
    &&& i + 1 < index.total_lines ==> i + 1 < index.line_offsets.len()
    &&& index.line_offsets[i] <= index.line_end(i) <= data_len
    &&& index.encoding == FileEncoding::Gbk ==> index.line_end(i) - index.line_offsets[i]
        <= gbk_input_limit()
}

/// Whether every line of a range can be read from a file of `data_len`
/// bytes.
pub open spec fn range_readable(index: IndexView, data_len: int, start: u64, count: u64) -> bool {
    forall|i: int|
        start <= i < range_end(index, start, count) ==> #[trigger] line_readable(
            index,
            data_len,
            i,
        )
}

/// The bytes of line `i`, its terminator included.
pub open spec fn raw_line(index: IndexView, data: Seq<u8>, i: int) -> Seq<u8> {
    data.subrange(index.line_offsets[i] as int, index.line_end(i))
}

/// The text of line `i`: its bytes decoded, without the line terminator.
pub open spec fn line_text(index: IndexView, data: Seq<u8>, i: int) -> Seq<char> {
    strip_terminator(decoded(index.encoding, raw_line(index, data, i)))
}

/// The bytes of the lines from `from` up to `to`, one after the other.
pub open spec fn joined_lines(index: IndexView, data: Seq<u8>, from: int, to: int) -> Seq<u8>
    decreases to - from,
{
    if to <= from {
        Seq::empty()
    } else {
        joined_lines(index, data, from, to - 1) + raw_line(index, data, to - 1)
    }
}

/// The lines of a well-formed index lie one after the other in the file:
/// joined, the lines of a range are the bytes from the start of its first
/// line to the end of its last.
pub proof fn lemma_lines_tile_the_file(index: IndexView, data: Seq<u8>, from: int, to: int)
    requires
        index.wf(),
        index.file_size == data.len(),
        0 <= from <= to <= index.total_lines,
    ensures
        from == to ==> joined_lines(index, data, from, to) == Seq::<u8>::empty(),
        from < to ==> joined_lines(index, data, from, to) == data.subrange(
            index.line_offsets[from] as int,
            index.line_end(to - 1),
        ),
    decreases to - from,
{
    if from < to {
        lemma_lines_tile_the_file(index, data, from, to - 1);
        let last = raw_line(index, data, to - 1);
        if from == to - 1 {
            assert(joined_lines(index, data, from, to) =~= last);
        } else {
            assert(index.line_end(to - 2) == index.line_offsets[to - 1]);
            assert(index.line_offsets[from] < index.line_offsets[to - 1]);
            assert(index.line_offsets[to - 1] < index.file_size);
            assert(index.line_offsets[to - 1] <= index.line_end(to - 1) <= data.len()) by {
                if to < index.total_lines {
                    assert(index.line_offsets[to - 1] < index.line_offsets[to]);
                    assert(index.line_offsets[to] < index.file_size);
                }
            }
            assert(joined_lines(index, data, from, to) =~= data.subrange(
                index.line_offsets[from] as int,
                index.line_end(to - 1),
            ));
        }
    }
}

/// Reading back through the index of a file gives the file: for a range
/// that starts inside the index, every line can be read, the lines are
/// `count` or as many as are left, each line's text with its terminator
/// put back is the line decoded, and the lines joined are the bytes of the
/// file from the first line's start to the last line's end.
///
/// A line of GBK that is longer than the decoder takes cannot be read, and
/// is left out.
pub proof fn lemma_read_lines_round_trip(
    index: IndexView,
    data: Seq<u8>,
    start: u64,
    count: u64,
)
    requires
        is_index_of(index, data),
        data.len() <= u64::MAX,
        start <= index.total_lines,
        index.encoding == FileEncoding::Gbk ==> forall|i: int|
            start <= i < range_end(index, start, count) ==> index.line_end(i)
                - #[trigger] index.line_offsets[i] <= gbk_input_limit(),
    ensures
        range_readable(index, data.len() as int, start, count),
        lines_in_range(index, start, count) == if start + count <= index.total_lines {
            count as int
        } else {
            index.total_lines - start
        },
        forall|i: int|
            start <= i < range_end(index, start, count) ==> #[trigger] line_text(index, data, i)
                + terminator_of(decoded(index.encoding, raw_line(index, data, i))) == decoded(
                index.encoding,
                raw_line(index, data, i),
            ),
        lines_in_range(index, start, count) > 0 ==> joined_lines(
            index,
            data,
            start as int,
            range_end(index, start, count),
        ) == data.subrange(
            index.line_offsets[start as int] as int,
            index.line_end(range_end(index, start, count) - 1),
        ),
{
    lemma_line_starts(data);
    let end = range_end(index, start, count);
    assert forall|i: int| start <= i < end implies #[trigger] line_readable(
        index,
        data.len() as int,
        i,
    ) by {
        assert(index.line_offsets[i] < index.file_size);
        if i + 1 < index.total_lines {
            assert(index.line_offsets[i] < index.line_offsets[i + 1]);
            assert(index.line_offsets[i + 1] < index.file_size);
        }
    }
    assert forall|i: int| start <= i < end implies #[trigger] line_text(index, data, i)
        + terminator_of(decoded(index.encoding, raw_line(index, data, i))) == decoded(
        index.encoding,
        raw_line(index, data, i),
    ) by {
        lemma_strip_terminator_restores(decoded(index.encoding, raw_line(index, data, i)));
    }
    lemma_lines_tile_the_file(index, data, start as int, end);
}

/// Reading back a file of UTF-8 gives its bytes: each line of the index of
/// such a file is UTF-8 of its own, so that its text is the text that its
/// bytes encode, and the text with its terminator put back, written as
/// UTF-8, is the line byte for byte.
pub proof fn lemma_utf8_lines_round_trip(index: IndexView, data: Seq<u8>, i: int)
    requires
        is_index_of(index, data),
        data.len() <= u64::MAX,
        valid_utf8(data),
        0 <= i < index.total_lines,
    ensures
        index.encoding == FileEncoding::Utf8,
        valid_utf8(raw_line(index, data, i)),
        encode_utf8(
            strip_terminator(decode_utf8(raw_line(index, data, i))) + terminator_of(
                decode_utf8(raw_line(index, data, i)),
            ),
        ) == raw_line(index, data, i),
{
    lemma_line_starts(data);
    let from = index.line_offsets[i] as int;
    let to = index.line_end(i);
    assert(is_line_start(data, from));
    if i + 1 < index.total_lines {
        assert(is_line_start(data, index.line_offsets[i + 1] as int));
        assert(index.line_offsets[i] < index.line_offsets[i + 1]);
    }
    lemma_utf8_between_ascii(data, from, to);
    lemma_strip_terminator_restores(decode_utf8(raw_line(index, data, i)));
    decode_utf8_encode_utf8(raw_line(index, data, i));
}

/// The status of a path tells of its index: it is not indexed while the
/// store has none, and once the index of a file has been stored and is read
/// back, whatever the time that is read with it, it is indexed with as many
/// lines as the file has.
pub proof fn lemma_status_after_build(
    index: IndexView,
    data: Seq<u8>,
    file_mtime: u64,
    indexed_at: Seq<char>,
    fallback: Timestamp,
)
    requires
        is_index_of(index, data),
    ensures
        status_of(None) == (StatusView { indexed: false, total_lines: 0, indexed_at: None }),
        status_of(
            Some(index_of_record(record_of(index, file_mtime, indexed_at), fallback)),
        ).indexed,
        status_of(
            Some(index_of_record(record_of(index, file_mtime, indexed_at), fallback)),
        ).total_lines == line_count(data),
{
    lemma_record_round_trip(index, file_mtime, indexed_at, fallback);
}

/// Builds indexes and reads lines through them.
#[derive(Debug, Clone, Copy)]
pub struct FileLoader;

impl FileLoader {
    pub fn new() -> (loader: Self) {
        FileLoader
    }

    /// Classifies the encoding of `data`.
    pub fn detect_encoding(&self, data: &[u8]) -> (encoding: FileEncoding)
        ensures
            encoding == detected_encoding(data@),
    {
        if data.len() >= 3 && data[0] == 0xEF && data[1] == 0xBB && data[2] == 0xBF {
            return FileEncoding::Utf8;
        }
        if is_valid_utf8(data) {
            return FileEncoding::Utf8;
        }
        let mut i: usize = 0;
        while data.len() - i > 1
            invariant
                i <= data.len(),
                !starts_with_utf8_mark(data@),
                !valid_utf8(data@),
                forall|k: int| 0 <= k < i ==> !gbk_pair_at(data@, k),
            decreases data.len() - i,
        {
            let lead: u8 = data[i];
            let trail: u8 = data[i + 1];
            if lead >= 0x81 && lead <= 0xFE && ((trail >= 0x40 && trail <= 0x7E) || (trail >= 0x80
                && trail <= 0xFE)) {
                assert(gbk_pair_at(data@, i as int));
                return FileEncoding::Gbk;
            }
            i += 1;
        }
        FileEncoding::Latin1
    }

    /// Builds the index of a file that holds `data`: the start of each of
    /// its lines, their number, the file's size and its encoding.
    pub fn build_index(&self, path: &str, data: &[u8], indexed_at: Timestamp) -> (index: FileIndex)
        ensures
            is_index_of(index@, data@),
            index@.path == path@,
            index@.indexed_at == indexed_at,
            index.wf(),
    {
        let mut line_offsets: Vec<u64> = Vec::new();
        let mut i: usize = 0;
        while i < data.len()
            invariant
                i <= data.len(),
                line_offsets@ == line_starts_before(data@, i as int),
            decreases data.len() - i,
        {
            if i == 0 || data[i - 1] == LINE_FEED {
                line_offsets.push(i as u64);
            }
            i += 1;
        }
        proof {
            lemma_line_starts(data@);
        }
        let encoding = self.detect_encoding(data);
        FileIndex {
            path: String::from_str(path),
            total_lines: line_offsets.len() as u64,
            line_offsets,
            file_size: data.len() as u64,
            encoding,
            indexed_at,
        }
    }
    /// Reads `count` lines from line `start` of a file that holds `data`,
    /// through the stored index of that file: `index`, or `None` where the
    /// store has none.
    ///
    /// The range is cut at the last line of the index, so a `start` at or
    /// beyond it gives no lines. A line that the index places outside
    /// `data`, or that is longer than its decoder takes, fails the whole
    /// read. A line whose bytes are UTF-8, in an encoding other than GBK,
    /// has the text that they encode.
    pub fn read_lines(
        &self,
        index: Option<&FileIndex>,
        data: &[u8],
        start: u64,
        count: u64,
    ) -> (result: Result<Vec<String>, LoaderError>)
        ensures
            index is None ==> result matches Err(LoaderError::IndexMissing),
            index matches Some(ix) ==> match result {
                Ok(lines) => {
                    &&& range_readable(ix@, data@.len() as int, start, count)
                    &&& lines@.len() == lines_in_range(ix@, start, count)
                    &&& forall|k: int|
                        0 <= k < lines@.len() ==> (#[trigger] lines@[k])@ == line_text(
                            ix@,
                            data@,
                            start + k,
                        )
                    &&& forall|k: int|
                        0 <= k < lines@.len() && ix.encoding != FileEncoding::Gbk && valid_utf8(
                            raw_line(ix@, data@, start + k),
                        ) ==> (#[trigger] lines@[k])@ == strip_terminator(
                            decode_utf8(raw_line(ix@, data@, start + k)),
                        )
                },
                Err(error) => {
                    &&& error is Io
                    &&& !range_readable(ix@, data@.len() as int, start, count)
                },
            },
            index matches Some(ix) && start >= ix.total_lines ==> (result matches Ok(lines)
                && lines@.len() == 0),
    {
        let ix = match index {
            Some(ix) => ix,
            None => {
                return Err(LoaderError::IndexMissing);
            },
        };
        let end: u64 = if count <= ix.total_lines && start <= ix.total_lines - count {
            start + count
        } else {
            ix.total_lines
        };
        assert(end == range_end(ix@, start, count));
        let known: usize = ix.line_offsets.len();
        let mut lines: Vec<String> = Vec::new();
        let mut line_num: u64 = start;
        while line_num < end
            invariant
                index == Some(ix),
                end == range_end(ix@, start, count),
                known == ix.line_offsets@.len(),
                start < end ==> start <= line_num <= end,
                start >= end ==> line_num == start,
                lines@.len() == if start < end {
                    line_num - start
                } else {
                    0
                },
                forall|i: int|
                    start <= i < line_num ==> #[trigger] line_readable(
                        ix@,
                        data@.len() as int,
                        i,
                    ),
                forall|k: int|
                    0 <= k < lines@.len() ==> (#[trigger] lines@[k])@ == line_text(
                        ix@,
                        data@,
                        start + k,
                    ),
                forall|k: int|
                    0 <= k < lines@.len() && ix.encoding != FileEncoding::Gbk && valid_utf8(
                        raw_line(ix@, data@, start + k),
                    ) ==> (#[trigger] lines@[k])@ == strip_terminator(
                        decode_utf8(raw_line(ix@, data@, start + k)),
                    ),
            decreases end - line_num,
        {
            if line_num >= known as u64 {
                assert(!line_readable(ix@, data@.len() as int, line_num as int));
                return Err(LoaderError::Io(String::from_str("the index has no such line")));
            }
            let at: usize = line_num as usize;
            let offset: u64 = ix.line_offsets[at];
            let line_end: u64 = if line_num + 1 < ix.total_lines {
                if known - at <= 1 {
                    assert(!line_readable(ix@, data@.len() as int, line_num as int));
                    return Err(LoaderError::Io(String::from_str("the index has no such line")));
                }
                ix.line_offsets[at + 1]
            } else {
                ix.file_size
            };
            assert(line_end == ix@.line_end(line_num as int));
            if offset > line_end || line_end > data.len() as u64 {
                assert(!line_readable(ix@, data@.len() as int, line_num as int));
                return Err(LoaderError::Io(String::from_str("the index does not fit the file")));
            }
            if ix.encoding == FileEncoding::Gbk && line_end - offset > (usize::MAX / 8) as u64 {
                assert(!line_readable(ix@, data@.len() as int, line_num as int));
                return Err(LoaderError::Io(String::from_str("the line is too long to decode")));
            }
            assert(line_readable(ix@, data@.len() as int, line_num as int));
            let bytes = slice_subrange(data, offset as usize, line_end as usize);
            assert(bytes@ == raw_line(ix@, data@, line_num as int));
            let text = decode(ix.encoding, bytes);
            let line = strip_line_terminator(text.as_str());
            assert(line@ == line_text(ix@, data@, line_num as int));
            lines.push(line);
            line_num += 1;
        }
        Ok(lines)
    }

    /// Describes a file: `size` is its size in bytes, or `None` where it
    /// does not exist; `status` is what the store knows of it.
    pub fn get_file_meta(
        &self,
        path: &str,
        name: &str,
        size: Option<u64>,
        status: &IndexStatus,
    ) -> (result: Result<FileMeta, LoaderError>)
        ensures
            size is None ==> (result matches Err(LoaderError::NotFound(missing)) && missing@
                == path@),
            size matches Some(bytes) ==> (result matches Ok(meta) && meta@ == MetaView {
                path: path@,
                name: name@,
                size: bytes,
                total_lines: if status.indexed {
                    Some(status.total_lines)
                } else {
                    None
                },
                is_indexed: status.indexed,
            }),
    {
        match size {
            None => Err(LoaderError::NotFound(String::from_str(path))),
            Some(bytes) => Ok(
                FileMeta {
                    path: String::from_str(path),
                    name: String::from_str(name),
                    size: bytes,
                    total_lines: if status.indexed {
                        Some(status.total_lines)
                    } else {
                        None
                    },
                    is_indexed: status.indexed,
                },
            ),
        }
    }
}

} // verus!
