use crate::framing::{
    blob_of, byte_fields, checksums_in, decode_checksums, encode_checksums, fields_fit, frame,
    frame_fields, framed_fields_unframe, packed_checksums_unpack, unframe, unframe_bytes,
};
use crate::types::{EngineError, Fingerprint, FingerprintView};
use vstd::bytes::{
    lemma_auto_spec_u64_to_from_le_bytes, spec_u64_from_le_bytes, spec_u64_to_le_bytes,
    u64_from_le_bytes, u64_to_le_bytes,
};
use vstd::prelude::*;
use vstd::utf8::{
    decode_utf8, encode_utf8, encode_utf8_decode_utf8, encode_utf8_valid_utf8, valid_utf8,
};

verus! {

/// The first cell of a baseline row: `B`.
pub const TAG_BASELINE: u8 = 66;

/// The first cell of a last-run row: `L`.
pub const TAG_LAST_RUN: u8 = 76;

/// The first cell of a test row: `T`.
pub const TAG_TEST: u8 = 84;

/// One row of a stored database.
#[derive(Clone, Debug, PartialEq, Eq)]
pub enum StoreRecord {
    /// The baseline fingerprint of a file.
    Baseline(Fingerprint),
    /// The last outcome of a test.
    Test { test_name: String, duration: u64, failed: bool },
    /// What the test of the last test row before this row ran of a file.
    LastRun(Fingerprint),
}

/// What a row of a stored database says.
pub ghost enum RecordView {
    Baseline(FingerprintView),
    Test { test_name: Seq<char>, duration: u64, failed: bool },
    LastRun(FingerprintView),
}

impl View for StoreRecord {
    type V = RecordView;

    open spec fn view(&self) -> RecordView {
        match *self {
            StoreRecord::Baseline(fp) => RecordView::Baseline(fp@),
            StoreRecord::Test { test_name, duration, failed } => RecordView::Test {
                test_name: test_name@,
                duration,
                failed,
            },
            StoreRecord::LastRun(fp) => RecordView::LastRun(fp@),
        }
    }
}

/// What is wrong with stored bytes.
pub ghost enum Flaw {
    /// The length of a checksum blob is no multiple of four.
    Blob,
    /// The bytes do not have the shape of what they should store.
    Shape,
}

/// The cell of a flag: one byte, 1 for true and 0 for false.
pub open spec fn flag_cell(flag: bool) -> Seq<u8> {
    if flag {
        seq![1u8]
    } else {
        seq![0u8]
    }
}

/// The cells of a fingerprint row: the tag, the file name and the file
/// digest in UTF-8, the modification time as eight bytes, least significant
/// first, and the checksum blob.
pub open spec fn fingerprint_cells(tag: u8, fp: FingerprintView) -> Seq<Seq<u8>> {
    seq![
        seq![tag],
        encode_utf8(fp.filename),
        encode_utf8(fp.file_hash),
        spec_u64_to_le_bytes(fp.mtime),
        blob_of(fp.checksums),
    ]
}

/// The cells of a row. A test row holds the tag, the test name in UTF-8,
/// the duration as eight bytes, least significant first, and one byte that
/// is 1 where the test failed and 0 where it did not.
pub open spec fn record_cells(record: RecordView) -> Seq<Seq<u8>> {
    match record {
        RecordView::Baseline(fp) => fingerprint_cells(TAG_BASELINE, fp),
        RecordView::LastRun(fp) => fingerprint_cells(TAG_LAST_RUN, fp),
        RecordView::Test { test_name, duration, failed } => seq![
            seq![TAG_TEST],
            encode_utf8(test_name),
            spec_u64_to_le_bytes(duration),
            flag_cell(failed),
        ],
    }
}

/// A row as it is stored: its cells framed.
pub open spec fn record_row(record: RecordView) -> Seq<u8> {
    frame(record_cells(record))
}

/// The fingerprint that the cells of a fingerprint row store.
pub open spec fn read_fingerprint(cells: Seq<Seq<u8>>) -> Result<FingerprintView, Flaw> {
    if !valid_utf8(cells[1]) || !valid_utf8(cells[2]) || cells[3].len() != 8 {
        Err(Flaw::Shape)
    } else if cells[4].len() % 4 != 0 {
        Err(Flaw::Blob)
    } else {
        Ok(
            FingerprintView {
                filename: decode_utf8(cells[1]),
                checksums: checksums_in(cells[4]),
                file_hash: decode_utf8(cells[2]),
                mtime: spec_u64_from_le_bytes(cells[3]),
                blocks: None,
            },
        )
    }
}

/// The record that cells store.
pub open spec fn read_cells(cells: Seq<Seq<u8>>) -> Result<RecordView, Flaw> {
    if cells.len() == 5 && cells[0] == seq![TAG_BASELINE] {
        match read_fingerprint(cells) {
            Ok(fp) => Ok(RecordView::Baseline(fp)),
            Err(flaw) => Err(flaw),
        }
    } else if cells.len() == 5 && cells[0] == seq![TAG_LAST_RUN] {
        match read_fingerprint(cells) {
            Ok(fp) => Ok(RecordView::LastRun(fp)),
            Err(flaw) => Err(flaw),
        }
    } else if cells.len() == 4 && cells[0] == seq![TAG_TEST] && valid_utf8(cells[1])
        && cells[2].len() == 8 && (cells[3] == flag_cell(false) || cells[3] == flag_cell(true)) {
        Ok(
            RecordView::Test {
                test_name: decode_utf8(cells[1]),
                duration: spec_u64_from_le_bytes(cells[2]),
                failed: cells[3] == flag_cell(true),
            },
        )
    } else {
        Err(Flaw::Shape)
    }
}

/// The record that a row stores.
pub open spec fn read_record(row: Seq<u8>) -> Result<RecordView, Flaw> {
    match unframe(row) {
        Some(cells) => read_cells(cells),
        None => Err(Flaw::Shape),
    }
}

/// The record holds no block list.
pub open spec fn is_stored(record: RecordView) -> bool {
    match record {
        RecordView::Baseline(fp) => fp.blocks is None,
        RecordView::LastRun(fp) => fp.blocks is None,
        RecordView::Test { .. } => true,
    }
}

/// A row that was stored is read back as the record it was stored from.
pub proof fn stored_record_reads_back(record: RecordView)
    requires
        is_stored(record),
        fields_fit(record_cells(record)),
    ensures
        read_record(record_row(record)) == Ok::<RecordView, Flaw>(record),
{
    let cells = record_cells(record);
    framed_fields_unframe(cells);
    lemma_auto_spec_u64_to_from_le_bytes();
    match record {
        RecordView::Baseline(fp) => {
            lemma_fingerprint_cells(TAG_BASELINE, fp);
            assert(cells.len() == 5);
            assert(cells[0] == seq![TAG_BASELINE]);
            assert(read_cells(cells) == Ok::<RecordView, Flaw>(record));
        },
        RecordView::LastRun(fp) => {
            lemma_fingerprint_cells(TAG_LAST_RUN, fp);
            assert(cells.len() == 5);
            assert(cells[0] == seq![TAG_LAST_RUN]);
            assert(cells[0] != seq![TAG_BASELINE]) by {
                assert(seq![TAG_LAST_RUN][0] != seq![TAG_BASELINE][0]);
            }
            assert(read_cells(cells) == Ok::<RecordView, Flaw>(record));
        },
        RecordView::Test { test_name, duration, failed } => {
            encode_utf8_valid_utf8(test_name);
            encode_utf8_decode_utf8(test_name);
            assert(flag_cell(true) != flag_cell(false)) by {
                assert(flag_cell(true)[0] != flag_cell(false)[0]);
            }
        },
    }
}

proof fn lemma_fingerprint_cells(tag: u8, fp: FingerprintView)
    requires
        fp.blocks is None,
    ensures
        read_fingerprint(fingerprint_cells(tag, fp)) == Ok::<FingerprintView, Flaw>(fp),
{
    lemma_auto_spec_u64_to_from_le_bytes();
    encode_utf8_valid_utf8(fp.filename);
    encode_utf8_valid_utf8(fp.file_hash);
    encode_utf8_decode_utf8(fp.filename);
    encode_utf8_decode_utf8(fp.file_hash);
    packed_checksums_unpack(fp.checksums);
}

/// `String::from_utf8`: the text whose UTF-8 encoding the bytes are;
/// nothing where the bytes are not valid UTF-8.
#[verifier::external_body]
fn text_of(bytes: Vec<u8>) -> (text: Option<String>)
    ensures
        match text {
            Some(t) => encode_utf8(t@) == bytes@,
            None => !valid_utf8(bytes@),
        },
{
    String::from_utf8(bytes).ok()
}

fn copy_bytes(bytes: &[u8]) -> (copy: Vec<u8>)
    ensures
        copy@ == bytes@,
{
    let mut copy: Vec<u8> = Vec::new();
    let mut i: usize = 0;
    while i < bytes.len()
        invariant
            i <= bytes@.len(),
            copy@ == bytes@.take(i as int),
        decreases bytes.len() - i,
    {
        copy.push(bytes[i]);
        assert(bytes@.take(i + 1) =~= bytes@.take(i as int).push(bytes@[i as int]));
        i += 1;
    }
    assert(bytes@.take(bytes@.len() as int) =~= bytes@);
    copy
}

fn read_text(cell: &Vec<u8>) -> (text: Option<String>)
    ensures
        match text {
            Some(t) => valid_utf8(cell@) && t@ == decode_utf8(cell@),
            None => !valid_utf8(cell@),
        },
{
    let text: Option<String> = text_of(copy_bytes(cell.as_slice()));
    proof {
        if text is Some {
            encode_utf8_valid_utf8(text->0@);
            encode_utf8_decode_utf8(text->0@);
        }
    }
    text
}

fn malformed() -> (error: EngineError)
    ensures
        error matches EngineError::Store(text) && text@ == "a row of the store is malformed"@,
{
    EngineError::Store("a row of the store is malformed".to_string())
}

fn read_fingerprint_cells(cells: &Vec<Vec<u8>>) -> (result: Result<Fingerprint, EngineError>)
    requires
        cells@.len() == 5,
    ensures
        match result {
            Ok(fp) => read_fingerprint(byte_fields(cells@)) == Ok::<FingerprintView, Flaw>(fp@),
            Err(e) => match read_fingerprint(byte_fields(cells@)) {
                Ok(_) => false,
                Err(Flaw::Blob) => e is Invariant,
                Err(Flaw::Shape) => e is Store,
            },
        },
{
    let filename: String = match read_text(&cells[1]) {
        Some(text) => text,
        None => {
            return Err(malformed());
        },
    };
    let file_hash: String = match read_text(&cells[2]) {
        Some(text) => text,
        None => {
            return Err(malformed());
        },
    };
    if cells[3].len() != 8 {
        return Err(malformed());
    }
    let mtime: u64 = u64_from_le_bytes(cells[3].as_slice());
    match decode_checksums(cells[4].as_slice()) {
        Err(e) => Err(e),
        Ok(checksums) => Ok(Fingerprint { filename, checksums, file_hash, mtime, blocks: None }),
    }
}

fn is_tag(cell: &Vec<u8>, tag: u8) -> (same: bool)
    ensures
        same == (cell@ == seq![tag]),
{
    let same: bool = cell.len() == 1 && cell[0] == tag;
    proof {
        if same {
            assert(cell@ =~= seq![tag]);
        } else if cell@.len() == 1 {
            assert(seq![tag][0] == tag);
        }
    }
    same
}

/// Reads the record that a row stores.
///
/// Fails with `EngineError::Invariant` exactly when the row has the shape
/// of a fingerprint row and the length of its checksum blob is no multiple
/// of four, and with `EngineError::Store` exactly when the row is malformed
/// in another way.
pub fn read_row(row: &[u8]) -> (result: Result<StoreRecord, EngineError>)
    ensures
        match result {
            Ok(record) => read_record(row@) == Ok::<RecordView, Flaw>(record@) && is_stored(
                record@,
            ),
            Err(e) => match read_record(row@) {
                Ok(_) => false,
                Err(Flaw::Blob) => e is Invariant,
                Err(Flaw::Shape) => e is Store,
            },
        },
{
    let cells: Vec<Vec<u8>> = match unframe_bytes(row) {
        Ok(cells) => cells,
        Err(e) => {
            return Err(e);
        },
    };
    let ghost fields = byte_fields(cells@);
    if cells.len() == 5 && is_tag(&cells[0], TAG_BASELINE) {
        match read_fingerprint_cells(&cells) {
            Ok(fp) => Ok(StoreRecord::Baseline(fp)),
            Err(e) => Err(e),
        }
    } else if cells.len() == 5 && is_tag(&cells[0], TAG_LAST_RUN) {
        assert(fields[0] != seq![TAG_BASELINE]);
        match read_fingerprint_cells(&cells) {
            Ok(fp) => Ok(StoreRecord::LastRun(fp)),
            Err(e) => Err(e),
        }
    } else if cells.len() == 4 && is_tag(&cells[0], TAG_TEST) {
        let test_name: String = match read_text(&cells[1]) {
            Some(text) => text,
            None => {
                return Err(malformed());
            },
        };
        if cells[2].len() != 8 {
            return Err(malformed());
        }
        let duration: u64 = u64_from_le_bytes(cells[2].as_slice());
        let failed: bool = is_tag(&cells[3], 1);
        if !failed && !is_tag(&cells[3], 0) {
            return Err(malformed());
        }
        assert(flag_cell(true) != flag_cell(false)) by {
            assert(flag_cell(true)[0] != flag_cell(false)[0]);
        }
        Ok(StoreRecord::Test { test_name, duration, failed })
    } else {
        Err(malformed())
    }
}

/// Stores a record as a row.
///
/// Fails, with `EngineError::Store`, exactly when a cell of the row is
/// longer than 4,294,967,295 bytes.
pub fn write_row(record: &StoreRecord) -> (result: Result<Vec<u8>, EngineError>)
    ensures
        match result {
            Ok(row) => fields_fit(record_cells(record@)) && row@ == record_row(record@),
            Err(e) => !fields_fit(record_cells(record@)) && e is Store,
        },
{
    match record {
        StoreRecord::Baseline(fp) => write_baseline_row(fp),
        StoreRecord::LastRun(fp) => write_last_run_row(fp),
        StoreRecord::Test { test_name, duration, failed } => write_test_row(
            test_name.as_str(),
            *duration,
            *failed,
        ),
    }
}

fn write_fingerprint_cells(cells: &mut Vec<Vec<u8>>, tag: u8, fp: &Fingerprint)
    requires
        old(cells)@.len() == 0,
    ensures
        byte_fields(final(cells)@) == fingerprint_cells(tag, fp@.stored()),
{
    let mut first: Vec<u8> = Vec::new();
    first.push(tag);
    cells.push(first);
    cells.push(copy_bytes(fp.filename.as_str().as_bytes()));
    cells.push(copy_bytes(fp.file_hash.as_str().as_bytes()));
    cells.push(u64_to_le_bytes(fp.mtime));
    cells.push(encode_checksums(fp.checksums.as_slice()));
    assert(byte_fields(cells@) =~= fingerprint_cells(tag, fp@.stored()));
}

/// Stores a fingerprint as a baseline row, without its block list.
pub fn write_baseline_row(fp: &Fingerprint) -> (result: Result<Vec<u8>, EngineError>)
    ensures
        match result {
            Ok(row) => fields_fit(record_cells(RecordView::Baseline(fp@.stored()))) && row@
                == record_row(RecordView::Baseline(fp@.stored())),
            Err(e) => !fields_fit(record_cells(RecordView::Baseline(fp@.stored()))) && e is Store,
        },
{
    let mut cells: Vec<Vec<u8>> = Vec::new();
    write_fingerprint_cells(&mut cells, TAG_BASELINE, fp);
    frame_fields(&cells)
}

/// Stores a fingerprint as a last-run row, without its block list.
pub fn write_last_run_row(fp: &Fingerprint) -> (result: Result<Vec<u8>, EngineError>)
    ensures
        match result {
            Ok(row) => fields_fit(record_cells(RecordView::LastRun(fp@.stored()))) && row@
                == record_row(RecordView::LastRun(fp@.stored())),
            Err(e) => !fields_fit(record_cells(RecordView::LastRun(fp@.stored()))) && e is Store,
        },
{
    let mut cells: Vec<Vec<u8>> = Vec::new();
    write_fingerprint_cells(&mut cells, TAG_LAST_RUN, fp);
    frame_fields(&cells)
}

/// Stores the outcome of a test as a test row.
pub fn write_test_row(test_name: &str, duration: u64, failed: bool) -> (result: Result<
    Vec<u8>,
    EngineError,
>)
    ensures
        match result {
            Ok(row) => fields_fit(
                record_cells(RecordView::Test { test_name: test_name@, duration, failed }),
            ) && row@ == record_row(RecordView::Test { test_name: test_name@, duration, failed }),
            Err(e) => !fields_fit(
                record_cells(RecordView::Test { test_name: test_name@, duration, failed }),
            ) && e is Store,
        },
{
    let mut cells: Vec<Vec<u8>> = Vec::new();
    let mut tag: Vec<u8> = Vec::new();
    tag.push(TAG_TEST);
    let mut flag: Vec<u8> = Vec::new();
    flag.push(if failed { 1 } else { 0 });
    cells.push(tag);
    cells.push(copy_bytes(test_name.as_bytes()));
    cells.push(u64_to_le_bytes(duration));
    cells.push(flag);
    assert(byte_fields(cells@) =~= record_cells(
        RecordView::Test { test_name: test_name@, duration, failed },
    ));
    frame_fields(&cells)
}

} // verus!
