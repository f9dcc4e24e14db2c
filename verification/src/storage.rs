//! The stored form of an index: one record for each path.
//!
//! A record holds the line offsets as a block of bytes, eight for each
//! offset, least significant byte first; the counts as signed integers of 64
//! bits; the encoding as one of four tags; and the time of indexing as text
//! in the form of RFC 3339.

use crate::models::FileEncoding;
use crate::models::FileIndex;
use crate::models::IndexStatus;
use crate::models::IndexView;
use crate::models::StatusView;
use crate::models::Timestamp;
use vstd::bytes::lemma_auto_spec_u64_to_from_le_bytes;
use vstd::bytes::spec_u64_from_le_bytes;
use vstd::bytes::spec_u64_to_le_bytes;
use vstd::bytes::u64_from_le_bytes;
use vstd::bytes::u64_to_le_bytes;
use vstd::prelude::*;
use vstd::slice::slice_subrange;
use vstd::string::StringExecFns;

verus! {

/// What can go wrong in the index store, with the store's own words.
#[derive(Debug, Clone)]
pub enum StorageError {
    Database(String),
    Io(String),
}

impl StorageError {
    /// The text of the error, as `message` gives it.
    pub open spec fn message_text(self) -> Seq<char> {
        match self {
            StorageError::Database(detail) => "Database error: "@ + detail@,
            StorageError::Io(detail) => "IO error: "@ + detail@,
        }
    }

    /// The error in words.
    pub fn message(&self) -> (text: String)
        ensures
            text@ == self.message_text(),
    {
        match self {
            StorageError::Database(detail) => String::from_str("Database error: ").concat(
                detail.as_str(),
            ),
            StorageError::Io(detail) => String::from_str("IO error: ").concat(detail.as_str()),
        }
    }
}

/// The text that `chrono` writes for an instant in UTC, in the form of
/// RFC 3339; `None` for an instant outside the dates that `chrono` holds.
pub uninterp spec fn rfc3339_text(secs: i64, nanos: u32) -> Option<Seq<char>>;

/// The instant that `chrono` reads from a text in the form of RFC 3339, as
/// seconds since 1970 in UTC and nanoseconds; `None` for any other text.
pub uninterp spec fn rfc3339_instant(text: Seq<char>) -> Option<(i64, u32)>;

/// `DateTime::to_rfc3339` of the instant that `DateTime::from_timestamp`
/// makes of `at`, where it makes one.
#[verifier::external_body]
fn format_rfc3339(at: Timestamp) -> (text: Option<String>)
    ensures
        match text {
            Some(written) => rfc3339_text(at.secs, at.nanos) == Some(written@),
            None => rfc3339_text(at.secs, at.nanos) is None,
        },
{
    chrono::DateTime::from_timestamp(at.secs, at.nanos).map(|instant| instant.to_rfc3339())
}

/// `DateTime::parse_from_rfc3339`, with the instant that it reads given as
/// `DateTime::timestamp` and `DateTime::timestamp_subsec_nanos` give it.
#[verifier::external_body]
fn parse_rfc3339(text: &str) -> (at: Option<Timestamp>)
    ensures
        match at {
            Some(read) => rfc3339_instant(text@) == Some((read.secs, read.nanos)),
            None => rfc3339_instant(text@) is None,
        },
{
    match chrono::DateTime::parse_from_rfc3339(text) {
        Ok(instant) => Some(
            Timestamp { secs: instant.timestamp(), nanos: instant.timestamp_subsec_nanos() },
        ),
        Err(_) => None,
    }
}

/// The instant that the text of a record stands for: the one that it reads
/// as, or `fallback` where it does not read as any.
pub open spec fn instant_of(text: Seq<char>, fallback: Timestamp) -> Timestamp {
    match rfc3339_instant(text) {
        Some((secs, nanos)) => Timestamp { secs, nanos },
        None => fallback,
    }
}

/// The tag that a record holds for `encoding`.
pub open spec fn tag_of(encoding: FileEncoding) -> Seq<char> {
    match encoding {
        FileEncoding::Utf8 => "utf8"@,
        FileEncoding::Gbk => "gbk"@,
        FileEncoding::Latin1 => "latin1"@,
        FileEncoding::Unknown => "unknown"@,
    }
}

/// The encoding that `tag` stands for; a tag that is none of the four
/// stands for an unknown encoding.
pub open spec fn encoding_of_tag(tag: Seq<char>) -> FileEncoding {
    if tag == "utf8"@ {
        FileEncoding::Utf8
    } else if tag == "gbk"@ {
        FileEncoding::Gbk
    } else if tag == "latin1"@ {
        FileEncoding::Latin1
    } else {
        FileEncoding::Unknown
    }
}

/// Each encoding is read back from its own tag.
pub proof fn lemma_tag_round_trip(encoding: FileEncoding)
    ensures
        encoding_of_tag(tag_of(encoding)) == encoding,
{
    reveal_strlit("utf8");
    reveal_strlit("gbk");
    reveal_strlit("latin1");
    reveal_strlit("unknown");
    assert("utf8"@.len() == 4);
    assert("gbk"@.len() == 3);
    assert("latin1"@.len() == 6);
    assert("unknown"@.len() == 7);
}

/// A count as the signed integer that a record holds: the same 64 bits.
pub open spec fn signed_of(count: u64) -> i64 {
    if count <= i64::MAX {
        count as i64
    } else {
        (count - 0x1_0000_0000_0000_0000) as i64
    }
}

/// The count that a signed integer of a record stands for: the same 64
/// bits.
pub open spec fn unsigned_of(stored: i64) -> u64 {
    if stored >= 0 {
        stored as u64
    } else {
        (stored + 0x1_0000_0000_0000_0000) as u64
    }
}

/// The block of bytes for `offsets`: eight bytes for each, least
/// significant first.
pub open spec fn offsets_blob(offsets: Seq<u64>) -> Seq<u8>
    decreases offsets.len(),
{
    if offsets.len() == 0 {
        Seq::empty()
    } else {
        offsets_blob(offsets.drop_last()) + spec_u64_to_le_bytes(offsets.last())
    }
}

/// The offsets that a block of bytes holds: one for each whole group of
/// eight bytes. Bytes left over at the end are passed over.
pub open spec fn blob_offsets(blob: Seq<u8>) -> Seq<u64> {
    Seq::new(
        (blob.len() / 8) as nat,
        |i: int| spec_u64_from_le_bytes(blob.subrange(8 * i, 8 * i + 8)),
    )
}

/// A block of bytes holds eight bytes for each offset, and the offsets are
/// read back from it as they were.
pub proof fn lemma_blob_round_trip(offsets: Seq<u64>)
    ensures
        offsets_blob(offsets).len() == 8 * offsets.len(),
        blob_offsets(offsets_blob(offsets)) == offsets,
    decreases offsets.len(),
{
    lemma_auto_spec_u64_to_from_le_bytes();
    if offsets.len() > 0 {
        let front = offsets.drop_last();
        lemma_blob_round_trip(front);
        let blob = offsets_blob(offsets);
        let front_blob = offsets_blob(front);
        let last = spec_u64_to_le_bytes(offsets.last());
        assert(blob == front_blob + last);
        assert(blob.len() == 8 * offsets.len());
        assert forall|i: int| 0 <= i < offsets.len() implies blob_offsets(blob)[i]
            == offsets[i] by {
            if i < front.len() {
                assert(blob.subrange(8 * i, 8 * i + 8) =~= front_blob.subrange(8 * i, 8 * i + 8));
                assert(blob_offsets(front_blob)[i] == front[i]);
            } else {
                assert(blob.subrange(8 * i, 8 * i + 8) =~= last);
            }
        }
        assert(blob_offsets(blob) =~= offsets);
    } else {
        assert(blob_offsets(offsets_blob(offsets)) =~= offsets);
    }
}

/// The stored form of one index.
#[derive(Debug, Clone)]
pub struct IndexRecord {
    pub path: String,
    pub total_lines: i64,
    pub line_offsets: Vec<u8>,
    pub file_size: i64,
    pub encoding: String,
    pub file_mtime: i64,
    pub indexed_at: String,
}

/// What an `IndexRecord` is, as mathematics.
pub struct RecordView {
    pub path: Seq<char>,
    pub total_lines: i64,
    pub line_offsets: Seq<u8>,
    pub file_size: i64,
    pub encoding: Seq<char>,
    pub file_mtime: i64,
    pub indexed_at: Seq<char>,
}

impl View for IndexRecord {
    type V = RecordView;

    open spec fn view(&self) -> RecordView {
        RecordView {
            path: self.path@,
            total_lines: self.total_lines,
            line_offsets: self.line_offsets@,
            file_size: self.file_size,
            encoding: self.encoding@,
            file_mtime: self.file_mtime,
            indexed_at: self.indexed_at@,
        }
    }
}

/// The record of `index` for a file last changed at `file_mtime`, with
/// `indexed_at` for the text of the time of indexing.
pub open spec fn record_of(index: IndexView, file_mtime: u64, indexed_at: Seq<char>) -> RecordView {
    RecordView {
        path: index.path,
        total_lines: signed_of(index.total_lines),
        line_offsets: offsets_blob(index.line_offsets),
        file_size: signed_of(index.file_size),
        encoding: tag_of(index.encoding),
        file_mtime: signed_of(file_mtime),
        indexed_at,
    }
}

/// The index that `record` holds; `fallback` stands in for a time of
/// indexing that cannot be read.
pub open spec fn index_of_record(record: RecordView, fallback: Timestamp) -> IndexView {
    IndexView {
        path: record.path,
        total_lines: unsigned_of(record.total_lines),
        line_offsets: blob_offsets(record.line_offsets),
        file_size: unsigned_of(record.file_size),
        encoding: encoding_of_tag(record.encoding),
        indexed_at: instant_of(record.indexed_at, fallback),
    }
}

/// What is stored is what is read back: the index read from the record of
/// an index is that index, but for the time of indexing, which is read from
/// the record's text.
pub proof fn lemma_record_round_trip(
    index: IndexView,
    file_mtime: u64,
    indexed_at: Seq<char>,
    fallback: Timestamp,
)
    ensures
        index_of_record(record_of(index, file_mtime, indexed_at), fallback) == (IndexView {
            indexed_at: instant_of(indexed_at, fallback),
            ..index
        }),
        unsigned_of(record_of(index, file_mtime, indexed_at).file_mtime) == file_mtime,
{
    lemma_blob_round_trip(index.line_offsets);
    lemma_tag_round_trip(index.encoding);
}

/// The status of a path in the store: `found` is its index, or `None`
/// where the store has none.
pub open spec fn status_of(found: Option<IndexView>) -> StatusView {
    match found {
        Some(index) => StatusView {
            indexed: true,
            total_lines: index.total_lines,
            indexed_at: rfc3339_text(index.indexed_at.secs, index.indexed_at.nanos),
        },
        None => StatusView { indexed: false, total_lines: 0, indexed_at: None },
    }
}

/// Whether two texts are the same.
fn same_text(left: &str, right: &str) -> (same: bool)
    ensures
        same == (left@ == right@),
{
    String::from_str(left) == String::from_str(right)
}

/// A count as the signed integer that a record holds.
pub fn to_signed(count: u64) -> (stored: i64)
    ensures
        stored == signed_of(count),
{
    if count <= 0x7FFF_FFFF_FFFF_FFFF {
        count as i64
    } else {
        let high: u64 = count - 0x8000_0000_0000_0000;
        (high as i64) + i64::MIN
    }
}

/// The count that a signed integer of a record stands for.
pub fn to_unsigned(stored: i64) -> (count: u64)
    ensures
        count == unsigned_of(stored),
{
    if stored >= 0 {
        stored as u64
    } else {
        let low: i64 = stored - i64::MIN;
        (low as u64) + 0x8000_0000_0000_0000
    }
}

/// The tag that a record holds for `encoding`.
pub fn encoding_tag(encoding: FileEncoding) -> (tag: &'static str)
    ensures
        tag@ == tag_of(encoding),
{
    match encoding {
        FileEncoding::Utf8 => "utf8",
        FileEncoding::Gbk => "gbk",
        FileEncoding::Latin1 => "latin1",
        FileEncoding::Unknown => "unknown",
    }
}

/// The encoding that `tag` stands for.
pub fn encoding_from_tag(tag: &str) -> (encoding: FileEncoding)
    ensures
        encoding == encoding_of_tag(tag@),
{
    if same_text(tag, "utf8") {
        FileEncoding::Utf8
    } else if same_text(tag, "gbk") {
        FileEncoding::Gbk
    } else if same_text(tag, "latin1") {
        FileEncoding::Latin1
    } else {
        FileEncoding::Unknown
    }
}

/// Writes `offsets` as a block of bytes.
pub fn encode_offsets(offsets: &Vec<u64>) -> (blob: Vec<u8>)
    ensures
        blob@ == offsets_blob(offsets@),
{
    let mut blob: Vec<u8> = Vec::new();
    let mut i: usize = 0;
    while i < offsets.len()
        invariant
            i <= offsets.len(),
            blob@ == offsets_blob(offsets@.subrange(0, i as int)),
        decreases offsets.len() - i,
    {
        let mut bytes = u64_to_le_bytes(offsets[i]);
        blob.append(&mut bytes);
        proof {
            let upto = offsets@.subrange(0, i + 1);
            assert(upto.drop_last() =~= offsets@.subrange(0, i as int));
            assert(upto.last() == offsets@[i as int]);
        }
        i += 1;
    }
    assert(offsets@.subrange(0, i as int) =~= offsets@);
    blob
}

/// Reads the offsets that a block of bytes holds.
pub fn decode_offsets(blob: &[u8]) -> (offsets: Vec<u64>)
    ensures
        offsets@ == blob_offsets(blob@),
{
    let groups: usize = blob.len() / 8;
    let mut offsets: Vec<u64> = Vec::new();
    let mut i: usize = 0;
    while i < groups
        invariant
            i <= groups,
            groups == blob@.len() / 8,
            blob@.len() <= usize::MAX,
            offsets@.len() == i,
            forall|k: int| 0 <= k < i ==> offsets@[k] == blob_offsets(blob@)[k],
        decreases groups - i,
    {
        let group = slice_subrange(blob, 8 * i, 8 * i + 8);
        offsets.push(u64_from_le_bytes(group));
        i += 1;
    }
    assert(offsets@ =~= blob_offsets(blob@));
    offsets
}

impl IndexRecord {
    /// The record of `index` for a file last changed at `file_mtime`
    /// seconds since 1970. There is none for an index whose time of
    /// indexing cannot be written.
    pub fn from_index(index: &FileIndex, file_mtime: u64) -> (record: Option<Self>)
        ensures
            match record {
                Some(made) => {
                    &&& rfc3339_text(index.indexed_at.secs, index.indexed_at.nanos) == Some(
                        made@.indexed_at,
                    )
                    &&& made@ == record_of(index@, file_mtime, made@.indexed_at)
                },
                None => rfc3339_text(index.indexed_at.secs, index.indexed_at.nanos) is None,
            },
    {
        match format_rfc3339(index.indexed_at) {
            None => None,
            Some(indexed_at) => Some(
                IndexRecord {
                    path: index.path.clone(),
                    total_lines: to_signed(index.total_lines),
                    line_offsets: encode_offsets(&index.line_offsets),
                    file_size: to_signed(index.file_size),
                    encoding: String::from_str(encoding_tag(index.encoding)),
                    file_mtime: to_signed(file_mtime),
                    indexed_at,
                },
            ),
        }
    }

    /// The index that the record holds. `now` stands in for a time of
    /// indexing that cannot be read.
    pub fn to_index(&self, now: Timestamp) -> (index: FileIndex)
        ensures
            index@ == index_of_record(self@, now),
    {
        let indexed_at = match parse_rfc3339(self.indexed_at.as_str()) {
            Some(read) => read,
            None => now,
        };
        FileIndex {
            path: self.path.clone(),
            total_lines: to_unsigned(self.total_lines),
            line_offsets: decode_offsets(self.line_offsets.as_slice()),
            file_size: to_unsigned(self.file_size),
            encoding: encoding_from_tag(self.encoding.as_str()),
            indexed_at,
        }
    }
}

/// The status of a path in the store: `found` is its index, or `None`
/// where the store has none.
pub fn index_status(found: Option<&FileIndex>) -> (status: IndexStatus)
    ensures
        status@ == status_of(
            match found {
                Some(index) => Some(index@),
                None => None,
            },
        ),
{
    match found {
        Some(index) => IndexStatus {
            indexed: true,
            total_lines: index.total_lines,
            indexed_at: format_rfc3339(index.indexed_at),
        },
        None => IndexStatus { indexed: false, total_lines: 0, indexed_at: None },
    }
}

} // verus!
