use log_viewer::loader::FileLoader;
use log_viewer::models::FileEncoding;
use log_viewer::models::FileIndex;
use log_viewer::models::Timestamp;
use log_viewer::storage::decode_offsets;
use log_viewer::storage::encode_offsets;
use log_viewer::storage::encoding_from_tag;
use log_viewer::storage::encoding_tag;
use log_viewer::storage::index_status;
use log_viewer::storage::to_signed;
use log_viewer::storage::to_unsigned;
use log_viewer::storage::IndexRecord;

fn at() -> Timestamp {
    Timestamp { secs: 1_704_164_645, nanos: 0 }
}

fn sample() -> FileIndex {
    FileLoader::new().build_index("/var/log/app.log", b"line1\nline2\nline3", at())
}

#[test]
fn offsets_are_stored_least_significant_byte_first() {
    let blob = encode_offsets(&vec![0, 6, 12, 0x0102_0304_0506_0708]);
    assert_eq!(
        blob,
        vec![
            0, 0, 0, 0, 0, 0, 0, 0, 6, 0, 0, 0, 0, 0, 0, 0, 12, 0, 0, 0, 0, 0, 0, 0, 8, 7, 6, 5, 4,
            3, 2, 1
        ]
    );
    assert_eq!(encode_offsets(&Vec::new()), Vec::<u8>::new());
}

#[test]
fn offsets_are_read_back() {
    let offsets = vec![0, 1, 255, 256, u64::MAX, 1 << 40];
    assert_eq!(decode_offsets(&encode_offsets(&offsets)), offsets);
    assert_eq!(decode_offsets(&[]), Vec::<u64>::new());
}

#[test]
fn bytes_left_over_are_passed_over() {
    assert_eq!(decode_offsets(&[1, 0, 0, 0, 0, 0, 0, 0, 2, 0, 0]), vec![1]);
    assert_eq!(decode_offsets(&[1, 2, 3, 4, 5, 6, 7]), Vec::<u64>::new());
}

#[test]
fn counts_keep_their_bits() {
    assert_eq!(to_signed(0), 0);
    assert_eq!(to_signed(17), 17);
    assert_eq!(to_signed(i64::MAX as u64), i64::MAX);
    assert_eq!(to_signed(1 << 63), i64::MIN);
    assert_eq!(to_signed(u64::MAX), -1);
    assert_eq!(to_unsigned(-1), u64::MAX);
    assert_eq!(to_unsigned(i64::MIN), 1 << 63);
    assert_eq!(to_unsigned(i64::MAX), i64::MAX as u64);
    assert_eq!(to_unsigned(0), 0);
    for count in [0, 1, 1 << 62, (1 << 63) + 5, u64::MAX - 1] {
        assert_eq!(to_unsigned(to_signed(count)), count);
    }
}

#[test]
fn encodings_have_their_tags() {
    assert_eq!(encoding_tag(FileEncoding::Utf8), "utf8");
    assert_eq!(encoding_tag(FileEncoding::Gbk), "gbk");
    assert_eq!(encoding_tag(FileEncoding::Latin1), "latin1");
    assert_eq!(encoding_tag(FileEncoding::Unknown), "unknown");
    assert_eq!(encoding_from_tag("utf8"), FileEncoding::Utf8);
    assert_eq!(encoding_from_tag("gbk"), FileEncoding::Gbk);
    assert_eq!(encoding_from_tag("latin1"), FileEncoding::Latin1);
    assert_eq!(encoding_from_tag("unknown"), FileEncoding::Unknown);
    assert_eq!(encoding_from_tag("UTF8"), FileEncoding::Unknown);
    assert_eq!(encoding_from_tag(""), FileEncoding::Unknown);
}

#[test]
fn record_holds_what_the_index_holds() {
    let record = IndexRecord::from_index(&sample(), 1_700_000_000).unwrap();
    assert_eq!(record.path, "/var/log/app.log");
    assert_eq!(record.total_lines, 3);
    assert_eq!(record.line_offsets.len(), 24);
    assert_eq!(&record.line_offsets[8..16], &[6, 0, 0, 0, 0, 0, 0, 0]);
    assert_eq!(record.file_size, 17);
    assert_eq!(record.encoding, "utf8");
    assert_eq!(record.file_mtime, 1_700_000_000);
    assert_eq!(record.indexed_at, "2024-01-02T03:04:05+00:00");
}

#[test]
fn index_is_read_back_from_its_record() {
    let index = sample();
    let record = IndexRecord::from_index(&index, 5).unwrap();
    let read = record.to_index(Timestamp { secs: 0, nanos: 0 });
    assert_eq!(read.path, index.path);
    assert_eq!(read.total_lines, index.total_lines);
    assert_eq!(read.line_offsets, index.line_offsets);
    assert_eq!(read.file_size, index.file_size);
    assert_eq!(read.encoding, index.encoding);
    assert_eq!(read.indexed_at, index.indexed_at);
}

#[test]
fn time_of_indexing_is_read_in_any_offset() {
    let mut record = IndexRecord::from_index(&sample(), 5).unwrap();
    record.indexed_at = String::from("2024-01-02T05:04:05.250+02:00");
    let read = record.to_index(Timestamp { secs: 0, nanos: 0 });
    assert_eq!(read.indexed_at, Timestamp { secs: 1_704_164_645, nanos: 250_000_000 });
}

#[test]
fn time_that_cannot_be_read_is_the_time_of_reading() {
    let mut record = IndexRecord::from_index(&sample(), 5).unwrap();
    record.indexed_at = String::from("yesterday");
    let now = Timestamp { secs: 1_800_000_000, nanos: 7 };
    assert_eq!(record.to_index(now).indexed_at, now);
}

#[test]
fn record_of_any_shape_is_read() {
    let record = IndexRecord {
        path: String::from("p"),
        total_lines: -1,
        line_offsets: vec![9, 0, 0, 0, 0, 0, 0, 0, 1],
        file_size: 4,
        encoding: String::from("big5"),
        file_mtime: 0,
        indexed_at: String::from("1970-01-01T00:00:01Z"),
    };
    let read = record.to_index(Timestamp { secs: 0, nanos: 0 });
    assert_eq!(read.total_lines, u64::MAX);
    assert_eq!(read.line_offsets, vec![9]);
    assert_eq!(read.file_size, 4);
    assert_eq!(read.encoding, FileEncoding::Unknown);
    assert_eq!(read.indexed_at, Timestamp { secs: 1, nanos: 0 });
}

#[test]
fn time_that_cannot_be_written_gives_no_record() {
    let mut index = sample();
    index.indexed_at = Timestamp { secs: i64::MAX, nanos: 0 };
    assert!(IndexRecord::from_index(&index, 5).is_none());
    index.indexed_at = Timestamp { secs: 0, nanos: 2_000_000_000 };
    assert!(IndexRecord::from_index(&index, 5).is_none());
}

#[test]
fn status_of_a_path_never_indexed() {
    let status = index_status(None);
    assert!(!status.indexed);
    assert_eq!(status.total_lines, 0);
    assert_eq!(status.indexed_at, None);
}

#[test]
fn status_of_a_path_that_is_indexed() {
    let index = sample();
    let status = index_status(Some(&index));
    assert!(status.indexed);
    assert_eq!(status.total_lines, 3);
    assert_eq!(status.indexed_at, Some(String::from("2024-01-02T03:04:05+00:00")));
}

#[test]
fn status_shows_fractions_of_a_second() {
    let mut index = sample();
    index.indexed_at = Timestamp { secs: 0, nanos: 500_000_000 };
    let status = index_status(Some(&index));
    assert_eq!(status.indexed_at, Some(String::from("1970-01-01T00:00:00.500+00:00")));
}
