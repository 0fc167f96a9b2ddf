//! The names stored in a ZIP archive's central directory.
//!
//! The parts of a file that are needed are handed in as bytes: its tail, the
//! ZIP64 records where the tail asks for them, and the directory itself.

use vstd::prelude::*;
use vstd::string::*;
use crate::error::{ArchiveResult, ErrorView};
use crate::file_ops;
use crate::format::ReadFormat;
use crate::options;
use crate::options::{ArchiveEntry, EntryView};
use crate::paths;
use crate::text;

verus! {

// ---------------------------------------------------------------------------
// Numbers in bytes
// ---------------------------------------------------------------------------

/// The 16-bit number at `at`, low byte first.
pub open spec fn le16(b: Seq<u8>, at: int) -> int {
    b[at] + 0x100 * b[at + 1]
}

/// The 32-bit number at `at`, low byte first.
pub open spec fn le32(b: Seq<u8>, at: int) -> int {
    le16(b, at) + 0x1_0000 * le16(b, at + 2)
}

/// The 64-bit number at `at`, low byte first.
pub open spec fn le64(b: Seq<u8>, at: int) -> int {
    le32(b, at) + 0x1_0000_0000 * le32(b, at + 4)
}

/// Reads a 16-bit number, low byte first.
pub fn read_u16(bytes: &[u8], offset: usize) -> (value: Option<u16>)
    ensures
        match value {
            Some(value) => offset + 2 <= bytes@.len() && value == le16(bytes@, offset as int),
            None => offset + 2 > bytes@.len(),
        },
{
    if bytes.len() < 2 || offset > bytes.len() - 2 {
        return None;
    }
    Some((bytes[offset] as u16) + 0x100 * (bytes[offset + 1] as u16))
}

/// Reads a 32-bit number, low byte first.
pub fn read_u32(bytes: &[u8], offset: usize) -> (value: Option<u32>)
    ensures
        match value {
            Some(value) => offset + 4 <= bytes@.len() && value == le32(bytes@, offset as int),
            None => offset + 4 > bytes@.len(),
        },
{
    if bytes.len() < 4 || offset > bytes.len() - 4 {
        return None;
    }
    Some(
        (bytes[offset] as u32) + 0x100 * (bytes[offset + 1] as u32) + 0x1_0000 * (bytes[offset + 2]
            as u32) + 0x100_0000 * (bytes[offset + 3] as u32),
    )
}

/// Reads a 64-bit number, low byte first.
pub fn read_u64(bytes: &[u8], offset: usize) -> (value: Option<u64>)
    ensures
        match value {
            Some(value) => offset + 8 <= bytes@.len() && value == le64(bytes@, offset as int),
            None => offset + 8 > bytes@.len(),
        },
{
    if bytes.len() < 8 || offset > bytes.len() - 8 {
        return None;
    }
    let low: u64 = (bytes[offset] as u64) + 0x100 * (bytes[offset + 1] as u64) + 0x1_0000 * (
    bytes[offset + 2] as u64) + 0x100_0000 * (bytes[offset + 3] as u64);
    let high: u64 = (bytes[offset + 4] as u64) + 0x100 * (bytes[offset + 5] as u64) + 0x1_0000 * (
    bytes[offset + 6] as u64) + 0x100_0000 * (bytes[offset + 7] as u64);
    Some(low + 0x1_0000_0000 * high)
}

// ---------------------------------------------------------------------------
// Checksum
// ---------------------------------------------------------------------------

/// One bit of the reflected CRC-32.
pub open spec fn crc_bit(crc: u32) -> u32 {
    if crc & 1 == 1 {
        (crc >> 1) ^ 0xEDB8_8320
    } else {
        crc >> 1
    }
}

/// `n` bits of the reflected CRC-32.
pub open spec fn crc_bits(crc: u32, n: nat) -> u32
    decreases n,
{
    if n == 0 {
        crc
    } else {
        crc_bit(crc_bits(crc, (n - 1) as nat))
    }
}

/// The running checksum of some bytes, before the final complement.
pub open spec fn crc_register(bytes: Seq<u8>) -> u32
    decreases bytes.len(),
{
    if bytes.len() == 0 {
        0xFFFF_FFFF
    } else {
        crc_bits(crc_register(bytes.drop_last()) ^ (bytes.last() as u32), 8)
    }
}

/// The CRC-32 of some bytes.
pub open spec fn crc32_value(bytes: Seq<u8>) -> u32 {
    !crc_register(bytes)
}

/// [`crc32_value`], executable.
pub fn crc32(bytes: &[u8]) -> (crc: u32)
    ensures
        crc == crc32_value(bytes@),
{
    let mut crc: u32 = 0xFFFF_FFFF;
    let mut i: usize = 0;
    proof {
        assert(bytes@.take(0) =~= Seq::<u8>::empty());
    }
    while i < bytes.len()
        invariant
            i <= bytes@.len(),
            crc == crc_register(bytes@.take(i as int)),
        decreases bytes@.len() - i,
    {
        let start: u32 = crc ^ (bytes[i] as u32);
        crc = start;
        let mut bit: u32 = 0;
        while bit < 8
            invariant
                bit <= 8,
                crc == crc_bits(start, bit as nat),
            decreases 8 - bit,
        {
            if crc & 1 == 1 {
                crc = (crc >> 1) ^ 0xEDB8_8320;
            } else {
                crc = crc >> 1;
            }
            bit += 1;
        }
        i += 1;
        proof {
            assert(bytes@.take(i as int).drop_last() =~= bytes@.take(i - 1));
            assert(bytes@.take(i as int).last() == bytes@[i - 1]);
        }
    }
    proof {
        assert(bytes@.take(i as int) =~= bytes@);
    }
    !crc
}

// ---------------------------------------------------------------------------
// Text in bytes
// ---------------------------------------------------------------------------

/// The text that some bytes encode in UTF-8, if they are valid.
pub open spec fn utf8_decoded(bytes: Seq<u8>) -> Option<Seq<char>> {
    if vstd::utf8::valid_utf8(bytes) {
        Some(vstd::utf8::decode_utf8(bytes))
    } else {
        None
    }
}

/// `std::str::from_utf8` gives the text that the bytes encode, and fails
/// exactly on bytes that are not valid UTF-8.
#[verifier::external_body]
fn utf8_text(bytes: &[u8]) -> (text: Option<String>)
    ensures
        text::option_text(text) == utf8_decoded(bytes@),
{
    std::str::from_utf8(bytes).ok().map(str::to_owned)
}

/// What `String::from_utf8_lossy` makes of some bytes.
pub uninterp spec fn lossy_utf8(bytes: Seq<u8>) -> Seq<char>;

/// `String::from_utf8_lossy` gives the text that valid UTF-8 encodes. Which
/// replacement characters stand for invalid bytes is left unsaid.
#[verifier::external_body]
fn lossy_utf8_text(bytes: &[u8]) -> (text: String)
    ensures
        text@ == lossy_utf8(bytes@),
        vstd::utf8::valid_utf8(bytes@) ==> text@ == vstd::utf8::decode_utf8(bytes@),
{
    String::from_utf8_lossy(bytes).into_owned()
}

// ---------------------------------------------------------------------------
// Records
// ---------------------------------------------------------------------------

/// What the central directory tells about one entry's name.
#[derive(Debug)]
pub struct ZipNameRecord {
    pub raw_name: Vec<u8>,
    pub flags: u16,
    pub unicode_name: Option<String>,
}

/// A [`ZipNameRecord`] over sequences.
#[verifier::ext_equal]
pub struct RecordView {
    pub raw_name: Seq<u8>,
    pub flags: u16,
    pub unicode_name: Option<Seq<char>>,
}

impl View for ZipNameRecord {
    type V = RecordView;

    open spec fn view(&self) -> RecordView {
        RecordView {
            raw_name: self.raw_name@,
            flags: self.flags,
            unicode_name: text::option_text(self.unicode_name),
        }
    }
}

/// The views of records.
pub open spec fn record_views(records: Seq<ZipNameRecord>) -> Seq<RecordView> {
    Seq::new(records.len(), |i: int| records[i]@)
}

/// The name in a Unicode path field, searched from `at` on: the first field
/// of that kind whose checksum is that of the raw name decides.
pub open spec fn unicode_extra(raw_name: Seq<u8>, extra: Seq<u8>, at: int) -> Option<Seq<char>>
    decreases extra.len() - at,
{
    if at < 0 || at + 4 > extra.len() {
        None
    } else {
        let id = le16(extra, at);
        let length = le16(extra, at + 2);
        let end = at + 4 + length;
        if end > extra.len() {
            None
        } else if id == 0x7075 && length >= 5 && extra[at + 4] == 1 && crc32_value(raw_name)
            == le32(extra, at + 5) {
            utf8_decoded(extra.subrange(at + 9, end))
        } else {
            unicode_extra(raw_name, extra, end)
        }
    }
}

/// The name in an entry's Unicode path field, if a matching one is there.
pub fn unicode_path_extra(raw_name: &[u8], extra: &[u8]) -> (name: Option<String>)
    ensures
        text::option_text(name) == unicode_extra(raw_name@, extra@, 0),
{
    let size: usize = extra.len();
    let mut offset: usize = 0;
    while size >= 4 && offset <= size - 4
        invariant
            size == extra@.len(),
            offset <= size,
            unicode_extra(raw_name@, extra@, 0) == unicode_extra(
                raw_name@,
                extra@,
                offset as int,
            ),
        decreases size - offset,
    {
        let id: u16 = match read_u16(extra, offset) {
            Some(id) => id,
            None => 0,
        };
        let length: usize = match read_u16(extra, offset + 2) {
            Some(length) => length as usize,
            None => 0,
        };
        let data_start: usize = offset + 4;
        if length > size - data_start {
            return None;
        }
        let data_end: usize = data_start + length;
        if id == 0x7075 && length >= 5 && extra[data_start] == 1 {
            let declared: Option<u32> = read_u32(extra, data_start + 1);
            if let Some(declared) = declared {
                if crc32(raw_name) == declared {
                    let data = vstd::slice::slice_subrange(extra, data_start + 5, data_end);
                    return utf8_text(data);
                }
            }
        }
        offset = data_end;
    }
    None
}

// ---------------------------------------------------------------------------
// The directory's place
// ---------------------------------------------------------------------------

pub const ZIP_EOCD_SIGNATURE: u32 = 0x0605_4B50;
pub const ZIP64_EOCD_SIGNATURE: u32 = 0x0606_4B50;
pub const ZIP64_LOCATOR_SIGNATURE: u32 = 0x0706_4B50;
pub const ZIP_CENTRAL_SIGNATURE: u32 = 0x0201_4B50;
pub const ZIP_EOCD_SIZE: usize = 22;
pub const ZIP_MAX_COMMENT_SIZE: u64 = 65_535;
pub const MAX_LIST_ENTRIES: u64 = 1_000_000;
pub const MAX_LIST_PATH_BYTES: u64 = 0x1000_0000;

/// Where the central directory stands, and how many entries it has.
#[derive(Debug, Clone, Copy, PartialEq, Eq, Structural)]
pub struct ZipDirectoryLayout {
    pub entries: u64,
    pub offset: u64,
    pub size: u64,
}

/// Whether a central directory is small enough to be read: no more entries and
/// bytes than a listing may have.
pub fn directory_within_limits(layout: ZipDirectoryLayout) -> (within: bool)
    ensures
        within == (layout.entries <= MAX_LIST_ENTRIES && layout.size <= MAX_LIST_PATH_BYTES),
{
    layout.entries <= MAX_LIST_ENTRIES && layout.size <= MAX_LIST_PATH_BYTES
}

/// Whether an end record stands at `at`, with its comment inside the file.
pub open spec fn is_eocd(tail: Seq<u8>, at: int) -> bool {
    &&& 0 <= at
    &&& at + ZIP_EOCD_SIZE <= tail.len()
    &&& le32(tail, at) == ZIP_EOCD_SIGNATURE
    &&& at + ZIP_EOCD_SIZE + le16(tail, at + 20) <= tail.len()
}

/// Whether `at` is the last end record of the file's tail.
pub open spec fn last_eocd(tail: Seq<u8>, at: int) -> bool {
    is_eocd(tail, at) && forall|k: int| at < k ==> !is_eocd(tail, k)
}

/// Finds the last end record in the tail of a file.
pub fn find_zip_eocd(tail: &[u8]) -> (at: Option<usize>)
    ensures
        match at {
            Some(at) => last_eocd(tail@, at as int),
            None => forall|k: int| !is_eocd(tail@, k),
        },
{
    if tail.len() < ZIP_EOCD_SIZE {
        return None;
    }
    let size: usize = tail.len();
    let mut next: usize = size - ZIP_EOCD_SIZE + 1;
    while next > 0
        invariant
            size == tail@.len(),
            next + ZIP_EOCD_SIZE <= size + 1,
            forall|k: int| next <= k ==> !is_eocd(tail@, k),
        decreases next,
    {
        next -= 1;
        let signature: Option<u32> = read_u32(tail, next);
        let comment: Option<u16> = read_u16(tail, next + 20);
        if let Some(signature) = signature {
            if let Some(comment) = comment {
                if signature == ZIP_EOCD_SIGNATURE && (comment as usize) <= size - (next
                    + ZIP_EOCD_SIZE) {
                    return Some(next);
                }
            }
        }
    }
    None
}

/// The layout that the end record itself gives.
pub open spec fn plain_layout(eocd: Seq<u8>) -> ZipDirectoryLayout {
    ZipDirectoryLayout {
        entries: le16(eocd, 10) as u64,
        offset: le32(eocd, 16) as u64,
        size: le32(eocd, 12) as u64,
    }
}

/// Whether the end record's numbers are too small and ZIP64 records hold them.
pub open spec fn needs_zip64(eocd: Seq<u8>) -> bool {
    ||| le16(eocd, 4) == 0xFFFF
    ||| le16(eocd, 6) == 0xFFFF
    ||| le16(eocd, 8) == 0xFFFF
    ||| le16(eocd, 10) == 0xFFFF
    ||| le32(eocd, 12) == 0xFFFF_FFFF
    ||| le32(eocd, 16) == 0xFFFF_FFFF
}

/// What the end record asks for.
#[derive(Debug, Clone, Copy, PartialEq, Eq, Structural)]
pub enum DirectoryRequest {
    /// The directory's place is known.
    Layout(ZipDirectoryLayout),
    /// The 20 bytes of the ZIP64 locator at this place are needed.
    Locator(u64),
    /// The file cannot be read as a ZIP archive.
    Malformed,
}

/// What an end record at `eocd_offset` asks for.
pub open spec fn eocd_request(eocd: Seq<u8>, eocd_offset: u64) -> DirectoryRequest {
    if eocd.len() < ZIP_EOCD_SIZE {
        DirectoryRequest::Malformed
    } else if !needs_zip64(eocd) {
        DirectoryRequest::Layout(plain_layout(eocd))
    } else if eocd_offset < 20 {
        DirectoryRequest::Malformed
    } else {
        DirectoryRequest::Locator((eocd_offset - 20) as u64)
    }
}

/// The place of the ZIP64 end record that a locator names, if the locator is
/// valid and the record lies inside the file.
pub open spec fn locator_target(locator: Seq<u8>, file_length: u64) -> Option<u64> {
    if locator.len() >= 20 && le32(locator, 0) == ZIP64_LOCATOR_SIGNATURE && le32(locator, 4) == 0
        && le64(locator, 8) + 56 <= file_length {
        Some(le64(locator, 8) as u64)
    } else {
        None
    }
}

/// The layout that a ZIP64 end record gives, if the record is valid.
pub open spec fn zip64_layout(record: Seq<u8>) -> Option<ZipDirectoryLayout> {
    if record.len() >= 56 && le32(record, 0) == ZIP64_EOCD_SIGNATURE && le64(record, 4) >= 44 {
        Some(
            ZipDirectoryLayout {
                entries: le64(record, 32) as u64,
                size: le64(record, 40) as u64,
                offset: le64(record, 48) as u64,
            },
        )
    } else {
        None
    }
}

/// Reads an end record.
pub fn zip_directory_layout(eocd: &[u8], eocd_offset: u64) -> (request: DirectoryRequest)
    ensures
        request == eocd_request(eocd@, eocd_offset),
{
    if eocd.len() < ZIP_EOCD_SIZE {
        return DirectoryRequest::Malformed;
    }
    let disk = read_u16(eocd, 4).unwrap_or(0xFFFF);
    let central_disk = read_u16(eocd, 6).unwrap_or(0xFFFF);
    let entries_on_disk = read_u16(eocd, 8).unwrap_or(0xFFFF);
    let entries = read_u16(eocd, 10).unwrap_or(0xFFFF);
    let size = read_u32(eocd, 12).unwrap_or(0xFFFF_FFFF);
    let offset = read_u32(eocd, 16).unwrap_or(0xFFFF_FFFF);
    let wide = disk == 0xFFFF || central_disk == 0xFFFF || entries_on_disk == 0xFFFF || entries
        == 0xFFFF || size == 0xFFFF_FFFF || offset == 0xFFFF_FFFF;
    if !wide {
        return DirectoryRequest::Layout(
            ZipDirectoryLayout {
                entries: entries as u64,
                offset: offset as u64,
                size: size as u64,
            },
        );
    }
    if eocd_offset < 20 {
        return DirectoryRequest::Malformed;
    }
    DirectoryRequest::Locator(eocd_offset - 20)
}

/// Reads a ZIP64 locator.
pub fn read_locator(locator: &[u8], file_length: u64) -> (target: Option<u64>)
    ensures
        target == locator_target(locator@, file_length),
{
    if locator.len() < 20 {
        return None;
    }
    let signature = read_u32(locator, 0).unwrap_or(0);
    let disk = read_u32(locator, 4).unwrap_or(1);
    let offset = read_u64(locator, 8).unwrap_or(0);
    if signature != ZIP64_LOCATOR_SIGNATURE || disk != 0 {
        return None;
    }
    if file_length < 56 || offset > file_length - 56 {
        return None;
    }
    Some(offset)
}

/// Reads a ZIP64 end record.
pub fn read_zip64_record(record: &[u8]) -> (layout: Option<ZipDirectoryLayout>)
    ensures
        layout == zip64_layout(record@),
{
    if record.len() < 56 {
        return None;
    }
    let signature = read_u32(record, 0).unwrap_or(0);
    let length = read_u64(record, 4).unwrap_or(0);
    if signature != ZIP64_EOCD_SIGNATURE || length < 44 {
        return None;
    }
    Some(
        ZipDirectoryLayout {
            entries: read_u64(record, 32).unwrap_or(0),
            size: read_u64(record, 40).unwrap_or(0),
            offset: read_u64(record, 48).unwrap_or(0),
        },
    )
}

/// Whether a directory of this layout is read: it has not too many entries,
/// and it lies inside the file.
pub open spec fn layout_fits(layout: ZipDirectoryLayout, file_length: u64) -> bool {
    layout.entries <= MAX_LIST_ENTRIES && layout.offset + layout.size <= file_length
}

/// [`layout_fits`], executable.
pub fn layout_is_readable(layout: ZipDirectoryLayout, file_length: u64) -> (fits: bool)
    ensures
        fits == layout_fits(layout, file_length),
{
    layout.entries <= MAX_LIST_ENTRIES && layout.offset <= file_length && layout.size
        <= file_length - layout.offset
}

/// The length of the tail in which the end record is looked for.
pub fn tail_length(file_length: u64) -> (length: u64)
    ensures
        length == if file_length < ZIP_EOCD_SIZE + ZIP_MAX_COMMENT_SIZE {
            file_length as int
        } else {
            ZIP_EOCD_SIZE + ZIP_MAX_COMMENT_SIZE
        },
{
    let most: u64 = ZIP_EOCD_SIZE as u64 + ZIP_MAX_COMMENT_SIZE;
    if file_length < most {
        file_length
    } else {
        most
    }
}

// ---------------------------------------------------------------------------
// The directory's entries
// ---------------------------------------------------------------------------

/// The lengths of an entry's name, extra field and comment.
pub open spec fn variable_length(directory: Seq<u8>, at: int) -> int {
    le16(directory, at + 28) + le16(directory, at + 30) + le16(directory, at + 32)
}

/// The record of the entry at `at`.
pub open spec fn record_at(directory: Seq<u8>, at: int) -> RecordView {
    let name_end = at + 46 + le16(directory, at + 28);
    let raw_name = directory.subrange(at + 46, name_end);
    RecordView {
        raw_name,
        flags: le16(directory, at + 8) as u16,
        unicode_name: unicode_extra(
            raw_name,
            directory.subrange(name_end, name_end + le16(directory, at + 30)),
            0,
        ),
    }
}

/// Whether a whole entry stands at `at`.
pub open spec fn entry_fits(directory: Seq<u8>, at: int) -> bool {
    &&& at + 46 <= directory.len()
    &&& le32(directory, at) == ZIP_CENTRAL_SIGNATURE
    &&& at + 46 + variable_length(directory, at) <= directory.len()
}

/// The records of `count` entries from `at` on, if all of them are there.
pub open spec fn records_from(directory: Seq<u8>, at: int, count: nat) -> Option<Seq<RecordView>>
    decreases count,
{
    if count == 0 {
        Some(Seq::empty())
    } else if !entry_fits(directory, at) {
        None
    } else {
        match records_from(
            directory,
            at + 46 + variable_length(directory, at),
            (count - 1) as nat,
        ) {
            None => None,
            Some(rest) => Some(seq![record_at(directory, at)] + rest),
        }
    }
}

/// Reads the records of a central directory. Nothing is returned when fewer
/// than `entries` whole entries are there.
pub fn read_directory(directory: &[u8], entries: u64) -> (records: Option<Vec<ZipNameRecord>>)
    ensures
        match records {
            Some(records) => records_from(directory@, 0, entries as nat) == Some(
                record_views(records@),
            ),
            None => records_from(directory@, 0, entries as nat) is None,
        },
{
    let size: usize = directory.len();
    let mut records: Vec<ZipNameRecord> = Vec::new();
    let mut at: usize = 0;
    let mut left: u64 = entries;
    let ghost whole = records_from(directory@, 0, entries as nat);
    proof {
        assert(record_views(records@) =~= Seq::<RecordView>::empty());
        if whole is Some {
            assert(Seq::<RecordView>::empty() + whole->0 =~= whole->0);
        }
    }
    while left > 0
        invariant
            size == directory@.len(),
            at <= size,
            whole == records_from(directory@, 0, entries as nat),
            whole == match records_from(directory@, at as int, left as nat) {
                None => None,
                Some(rest) => Some(record_views(records@) + rest),
            },
        decreases left,
    {
        if size - at < 46 {
            return None;
        }
        let signature = read_u32(directory, at).unwrap_or(0);
        if signature != ZIP_CENTRAL_SIGNATURE {
            return None;
        }
        let flags = read_u16(directory, at + 8).unwrap_or(0);
        let name_length = read_u16(directory, at + 28).unwrap_or(0) as usize;
        let extra_length = read_u16(directory, at + 30).unwrap_or(0) as usize;
        let comment_length = read_u16(directory, at + 32).unwrap_or(0) as usize;
        let variable: usize = name_length + extra_length + comment_length;
        if variable > size - at - 46 {
            return None;
        }
        let name_start: usize = at + 46;
        let name_end: usize = name_start + name_length;
        let extra_end: usize = name_end + extra_length;
        let raw_name = vstd::slice::slice_subrange(directory, name_start, name_end);
        let extra = vstd::slice::slice_subrange(directory, name_end, extra_end);
        let unicode_name = unicode_path_extra(raw_name, extra);
        let ghost before = record_views(records@);
        let record = ZipNameRecord { raw_name: copy_bytes(raw_name), flags, unicode_name };
        let ghost found = record@;
        records.push(record);
        proof {
            assert(found == record_at(directory@, at as int));
            let next = at + 46 + variable;
            let rest = records_from(directory@, next as int, (left - 1) as nat);
            assert(record_views(records@) =~= before.push(found));
            if rest is Some {
                assert(before + (seq![found] + rest->0) =~= record_views(records@) + rest->0);
            }
        }
        at = extra_end + comment_length;
        left -= 1;
    }
    proof {
        assert(record_views(records@) + Seq::<RecordView>::empty() =~= record_views(records@));
    }
    Some(records)
}

/// A copy of some bytes.
fn copy_bytes(bytes: &[u8]) -> (out: Vec<u8>)
    ensures
        out@ == bytes@,
{
    let mut out: Vec<u8> = Vec::new();
    let mut i: usize = 0;
    while i < bytes.len()
        invariant
            i <= bytes@.len(),
            out@ == bytes@.take(i as int),
        decreases bytes@.len() - i,
    {
        out.push(bytes[i]);
        i += 1;
        proof {
            assert(bytes@.take(i as int) =~= bytes@.take(i - 1).push(bytes@[i - 1]));
        }
    }
    proof {
        assert(bytes@.take(i as int) =~= bytes@);
    }
    out
}

// ---------------------------------------------------------------------------
// A whole archive in memory
// ---------------------------------------------------------------------------

/// The start of the tail in which the end record is looked for.
pub open spec fn tail_start(contents: Seq<u8>) -> int {
    if contents.len() < ZIP_EOCD_SIZE + ZIP_MAX_COMMENT_SIZE {
        0
    } else {
        contents.len() - (ZIP_EOCD_SIZE + ZIP_MAX_COMMENT_SIZE)
    }
}

/// The place of the central directory of a whole archive, by the end record
/// at `at` of the tail.
pub open spec fn whole_layout(contents: Seq<u8>, at: int) -> Option<ZipDirectoryLayout> {
    let start = tail_start(contents);
    let length = contents.len() as u64;
    match eocd_request(
        contents.subrange(start + at, contents.len() as int),
        (start + at) as u64,
    ) {
        DirectoryRequest::Malformed => None,
        DirectoryRequest::Layout(layout) => Some(layout),
        DirectoryRequest::Locator(place) => match locator_target(
            contents.subrange(place as int, place + 20),
            length,
        ) {
            None => None,
            Some(target) => zip64_layout(contents.subrange(target as int, target + 56)),
        },
    }
}

/// The records of a whole archive, by the end record at `at` of the tail.
pub open spec fn whole_records(contents: Seq<u8>, at: int) -> Option<Seq<RecordView>> {
    match whole_layout(contents, at) {
        None => None,
        Some(layout) => if layout_fits(layout, contents.len() as u64) {
            records_from(
                contents.subrange(layout.offset as int, layout.offset + layout.size),
                0,
                layout.entries as nat,
            )
        } else {
            None
        },
    }
}

/// Reads the names of all entries of a ZIP archive that is held in memory.
/// Nothing is returned where the archive cannot be read as one.
pub fn read_zip_name_records(contents: &[u8]) -> (records: Option<Vec<ZipNameRecord>>)
    ensures
        match records {
            Some(records) => exists|at: int|
                last_eocd(
                    contents@.subrange(tail_start(contents@), contents@.len() as int),
                    at,
                ) && #[trigger] whole_records(contents@, at) == Some(record_views(records@)),
            None => forall|at: int|
                last_eocd(
                    contents@.subrange(tail_start(contents@), contents@.len() as int),
                    at,
                ) ==> #[trigger] whole_records(contents@, at) is None,
        },
{
    let size: usize = contents.len();
    let length: u64 = size as u64;
    let start: usize = size - tail_length(length) as usize;
    let tail = vstd::slice::slice_subrange(contents, start, size);
    proof {
        assert(start == tail_start(contents@));
    }
    let at: usize = match find_zip_eocd(tail) {
        Some(at) => at,
        None => {
            return None;
        },
    };
    proof {
        assert forall|other: int| last_eocd(tail@, other) implies other == at by {
            if other < at {
                assert(is_eocd(tail@, at as int));
            }
            if at < other {
                assert(is_eocd(tail@, other));
            }
        }
    }
    let eocd_offset: usize = start + at;
    let eocd = vstd::slice::slice_subrange(contents, eocd_offset, size);
    let layout: ZipDirectoryLayout = match zip_directory_layout(eocd, eocd_offset as u64) {
        DirectoryRequest::Malformed => {
            return None;
        },
        DirectoryRequest::Layout(layout) => layout,
        DirectoryRequest::Locator(place) => {
            let place: usize = place as usize;
            let locator = vstd::slice::slice_subrange(contents, place, place + 20);
            let target: usize = match read_locator(locator, length) {
                None => {
                    return None;
                },
                Some(target) => target as usize,
            };
            let record = vstd::slice::slice_subrange(contents, target, target + 56);
            match read_zip64_record(record) {
                None => {
                    return None;
                },
                Some(layout) => layout,
            }
        },
    };
    proof {
        assert(whole_layout(contents@, at as int) == Some(layout));
    }
    if !layout_is_readable(layout, length) {
        return None;
    }
    let first: usize = layout.offset as usize;
    let last: usize = first + layout.size as usize;
    let directory = vstd::slice::slice_subrange(contents, first, last);
    let records = read_directory(directory, layout.entries);
    proof {
        assert(last_eocd(tail@, at as int));
        if records is Some {
            assert(whole_records(contents@, at as int) == Some(record_views(records->0@)));
        }
    }
    records
}

// ---------------------------------------------------------------------------
// Decoding
// ---------------------------------------------------------------------------

/// How the bytes of a name seem to be encoded.
#[derive(Debug, Clone, Copy, PartialEq, Eq, Structural)]
pub enum DetectedEncoding {
    Utf8,
    Utf16Le,
    Utf16Be,
    Codepage(u32),
}

/// Whether a record says that its raw name is UTF-8.
pub open spec fn says_utf8(flags: u16) -> bool {
    flags & 0x0800 != 0
}

/// How many bytes are not ASCII.
pub open spec fn high_bytes(bytes: Seq<u8>) -> nat
    decreases bytes.len(),
{
    if bytes.len() == 0 {
        0
    } else {
        high_bytes(bytes.drop_last()) + if bytes.last() >= 0x80 {
            1nat
        } else {
            0nat
        }
    }
}

/// The code page that a name speaks for, if it speaks for one.
pub open spec fn voted_codepage(record: RecordView, detected: DetectedEncoding) -> Option<u32> {
    if says_utf8(record.flags) || record.unicode_name is Some {
        None
    } else {
        match detected {
            DetectedEncoding::Codepage(codepage) => Some(codepage),
            _ => None,
        }
    }
}

/// How much a name counts: its bytes outside ASCII, at least one.
pub open spec fn vote_weight(record: RecordView) -> nat {
    if high_bytes(record.raw_name) > 0 {
        high_bytes(record.raw_name)
    } else {
        1
    }
}

/// The weight of a code page over the first `n` names.
pub open spec fn codepage_weight(
    records: Seq<RecordView>,
    detected: Seq<DetectedEncoding>,
    codepage: u32,
    n: int,
) -> nat
    decreases n,
{
    if n <= 0 {
        0
    } else {
        codepage_weight(records, detected, codepage, n - 1) + if voted_codepage(
            records[n - 1],
            detected[n - 1],
        ) == Some(codepage) {
            vote_weight(records[n - 1])
        } else {
            0nat
        }
    }
}

/// Whether a code page has the most weight; of equal ones the larger number
/// wins. Without any vote the answer is zero.
pub open spec fn is_chosen_codepage(
    records: Seq<RecordView>,
    detected: Seq<DetectedEncoding>,
    codepage: u32,
) -> bool {
    let n = records.len() as int;
    let weight = codepage_weight(records, detected, codepage, n);
    if forall|other: u32| #[trigger] codepage_weight(records, detected, other, n) == 0 {
        codepage == 0
    } else {
        &&& weight > 0
        &&& forall|other: u32|
            {
                let rival = #[trigger] codepage_weight(records, detected, other, n);
                rival > 0 ==> rival < weight || (rival == weight && other <= codepage)
            }
    }
}

/// Two code pages cannot both be chosen.
pub proof fn law_chosen_codepage_is_unique(
    records: Seq<RecordView>,
    detected: Seq<DetectedEncoding>,
    a: u32,
    b: u32,
)
    requires
        is_chosen_codepage(records, detected, a),
        is_chosen_codepage(records, detected, b),
    ensures
        a == b,
{
    let n = records.len() as int;
    assert(codepage_weight(records, detected, a, n) >= 0);
    assert(codepage_weight(records, detected, b, n) >= 0);
}

/// Counts the bytes that are not ASCII.
fn count_high_bytes(bytes: &Vec<u8>) -> (count: usize)
    ensures
        count == high_bytes(bytes@),
        count <= bytes@.len(),
{
    let mut count: usize = 0;
    let mut i: usize = 0;
    proof {
        assert(bytes@.take(0) =~= Seq::<u8>::empty());
    }
    while i < bytes.len()
        invariant
            i <= bytes@.len(),
            count <= i,
            count == high_bytes(bytes@.take(i as int)),
        decreases bytes@.len() - i,
    {
        proof {
            assert(bytes@.take(i + 1).drop_last() =~= bytes@.take(i as int));
            assert(bytes@.take(i + 1).last() == bytes@[i as int]);
        }
        if bytes[i] >= 0x80 {
            count += 1;
        }
        i += 1;
    }
    proof {
        assert(bytes@.take(i as int) =~= bytes@);
    }
    count
}

/// Where a code page stands in a table of weights.
fn find_codepage(table: &Vec<(u32, u128)>, codepage: u32) -> (place: Option<usize>)
    ensures
        match place {
            Some(place) => place < table@.len() && table@[place as int].0 == codepage,
            None => forall|k: int| 0 <= k < table@.len() ==> (#[trigger] table@[k]).0 != codepage,
        },
{
    let mut i: usize = 0;
    while i < table.len()
        invariant
            i <= table@.len(),
            forall|k: int| 0 <= k < i ==> (#[trigger] table@[k]).0 != codepage,
        decreases table@.len() - i,
    {
        if table[i].0 == codepage {
            return Some(i);
        }
        i += 1;
    }
    None
}

/// Whether a table holds the weights over the first `n` names.
spec fn tells_weights(
    table: Seq<(u32, u128)>,
    records: Seq<RecordView>,
    detected: Seq<DetectedEncoding>,
    n: int,
) -> bool {
    &&& forall|k: int|
        0 <= k < table.len() ==> (#[trigger] table[k]).1 == codepage_weight(
            records,
            detected,
            table[k].0,
            n,
        ) && table[k].1 > 0
    &&& forall|codepage: u32| #[trigger]
        codepage_weight(records, detected, codepage, n) > 0 ==> exists|k: int|
            0 <= k < table.len() && (#[trigger] table[k]).0 == codepage
    &&& forall|j: int, k: int|
        0 <= j < k < table.len() ==> (#[trigger] table[j]).0 != (#[trigger] table[k]).0
}

/// No weight is larger than the names together.
proof fn lemma_weight_bound(
    records: Seq<RecordView>,
    detected: Seq<DetectedEncoding>,
    codepage: u32,
    n: int,
)
    requires
        0 <= n <= records.len(),
        forall|k: int|
            0 <= k < records.len() ==> (#[trigger] records[k]).raw_name.len() <= usize::MAX,
    ensures
        codepage_weight(records, detected, codepage, n) <= n * usize::MAX,
    decreases n,
{
    if n > 0 {
        lemma_weight_bound(records, detected, codepage, n - 1);
        lemma_high_bytes_bound(records[n - 1].raw_name);
        assert((n - 1) * usize::MAX + usize::MAX == n * usize::MAX) by (nonlinear_arith);
    }
}

/// There are no more bytes outside ASCII than bytes.
proof fn lemma_high_bytes_bound(bytes: Seq<u8>)
    ensures
        high_bytes(bytes) <= bytes.len(),
    decreases bytes.len(),
{
    if bytes.len() > 0 {
        lemma_high_bytes_bound(bytes.drop_last());
    }
}

/// The code page that the raw names of an archive speak for. `detected` tells
/// for each record how its raw name seems to be encoded.
pub fn detect_zip_codepage(records: &Vec<ZipNameRecord>, detected: &Vec<DetectedEncoding>) -> (
    codepage: u32)
    requires
        detected@.len() == records@.len(),
    ensures
        is_chosen_codepage(record_views(records@), detected@, codepage),
{
    let ghost views = record_views(records@);
    let mut table: Vec<(u32, u128)> = Vec::new();
    let size: usize = records.len();
    let mut i: usize = 0;
    while i < size
        invariant
            i <= size,
            size == records@.len(),
            detected@.len() == records@.len(),
            views == record_views(records@),
            tells_weights(table@, views, detected@, i as int),
        decreases size - i,
    {
        let record = &records[i];
        let count: usize = count_high_bytes(&record.raw_name);
        let weight: usize = if count > 0 { count } else { 1 };
        let plain: bool = record.flags & 0x0800 == 0 && record.unicode_name.is_none();
        let ghost before = table@;
        proof {
            assert(views[i as int] == record@);
            assert(forall|codepage: u32|
                #![trigger codepage_weight(views, detected@, codepage, i + 1)]
                codepage_weight(views, detected@, codepage, i + 1) == codepage_weight(
                    views,
                    detected@,
                    codepage,
                    i as int,
                ) + if voted_codepage(views[i as int], detected@[i as int]) == Some(codepage) {
                    vote_weight(views[i as int])
                } else {
                    0nat
                });
        }
        if plain {
            if let DetectedEncoding::Codepage(codepage) = detected[i] {
                proof {
                    assert(voted_codepage(views[i as int], detected@[i as int]) == Some(codepage));
                    assert(vote_weight(views[i as int]) == weight);
                    assert forall|k: int| 0 <= k < views.len() implies (
                    #[trigger] views[k]).raw_name.len() <= usize::MAX by {
                        assert(views[k].raw_name == records@[k].raw_name@);
                        assert(records@[k].raw_name.len() == records@[k].raw_name@.len());
                    }
                    lemma_weight_bound(views, detected@, codepage, i + 1);
                    assert((i + 1) * usize::MAX <= u128::MAX) by (nonlinear_arith)
                        requires
                            i + 1 <= usize::MAX,
                    ;
                }
                match find_codepage(&table, codepage) {
                    Some(place) => {
                        let sum: u128 = table[place].1 + weight as u128;
                        table.set(place, (codepage, sum));
                        proof {
                            assert forall|other: u32| #[trigger]
                                codepage_weight(views, detected@, other, i + 1)
                                    > 0 implies exists|k: int|
                                0 <= k < table@.len() && (#[trigger] table@[k]).0 == other by {
                                if other == codepage {
                                    assert(table@[place as int].0 == other);
                                } else {
                                    assert(codepage_weight(views, detected@, other, i as int) > 0);
                                    let k = choose|k: int|
                                        0 <= k < before.len() && (#[trigger] before[k]).0 == other;
                                    assert(table@[k].0 == other);
                                }
                            }
                        }
                    },
                    None => {
                        proof {
                            if codepage_weight(views, detected@, codepage, i as int) > 0 {
                                let k = choose|k: int|
                                    0 <= k < before.len() && (#[trigger] before[k]).0 == codepage;
                                assert(before[k].0 != codepage);
                            }
                        }
                        table.push((codepage, weight as u128));
                        proof {
                            assert forall|other: u32| #[trigger]
                                codepage_weight(views, detected@, other, i + 1)
                                    > 0 implies exists|k: int|
                                0 <= k < table@.len() && (#[trigger] table@[k]).0 == other by {
                                if other == codepage {
                                    assert(table@[table@.len() - 1].0 == other);
                                } else {
                                    assert(codepage_weight(views, detected@, other, i as int) > 0);
                                    let k = choose|k: int|
                                        0 <= k < before.len() && (#[trigger] before[k]).0 == other;
                                    assert(table@[k].0 == other);
                                }
                            }
                        }
                    },
                }
            }
        }
        proof {
            if table@ == before {
                assert(voted_codepage(views[i as int], detected@[i as int]) is None);
            }
        }
        i += 1;
    }
    let mut best: u32 = 0;
    let mut best_weight: u128 = 0;
    let mut at: usize = 0;
    while at < table.len()
        invariant
            at <= table@.len(),
            tells_weights(table@, views, detected@, views.len() as int),
            at == 0 ==> best == 0 && best_weight == 0,
            at > 0 ==> best_weight > 0 && best_weight == codepage_weight(
                views,
                detected@,
                best,
                views.len() as int,
            ),
            forall|k: int|
                0 <= k < at ==> (#[trigger] table@[k]).1 < best_weight || (table@[k].1
                    == best_weight && table@[k].0 <= best),
        decreases table@.len() - at,
    {
        let row: (u32, u128) = table[at];
        if row.1 > best_weight || (row.1 == best_weight && row.0 >= best) {
            best = row.0;
            best_weight = row.1;
        }
        at += 1;
    }
    proof {
        let n = views.len() as int;
        if table@.len() > 0 {
            assert(codepage_weight(views, detected@, table@[0].0, n) > 0);
        }
        assert forall|other: u32| #[trigger]
            codepage_weight(views, detected@, other, n) > 0 implies codepage_weight(
            views,
            detected@,
            other,
            n,
        ) < best_weight || (codepage_weight(views, detected@, other, n) == best_weight && other
            <= best) by {
            let k = choose|k: int| 0 <= k < table@.len() && (#[trigger] table@[k]).0 == other;
            assert(table@[k].1 == codepage_weight(views, detected@, other, n));
        }
    }
    best
}

/// The code page of an archive's legacy names. A ZIP archive does not declare
/// one, so without a request the raw names decide.
pub fn effective_zip_codepage(
    format: ReadFormat,
    requested: u32,
    records: Option<(&Vec<ZipNameRecord>, &Vec<DetectedEncoding>)>,
) -> (codepage: u32)
    requires
        records matches Some((records, detected)) ==> detected@.len() == records@.len(),
    ensures
        if format.base_format() != ReadFormat::Zip || requested != 0 {
            codepage == requested
        } else {
            match records {
                Some((records, detected)) => is_chosen_codepage(
                    record_views(records@),
                    detected@,
                    codepage,
                ),
                None => codepage == 0,
            }
        },
{
    if !format.is_zip() || requested != 0 {
        return requested;
    }
    match records {
        Some((records, detected)) => detect_zip_codepage(records, detected),
        None => 0,
    }
}

/// The name of an entry: the Unicode name, else the raw name as UTF-8 where
/// the record says that it is, else what the code page makes of it.
pub open spec fn decoded_name(record: RecordView, by_codepage: Option<Seq<char>>) -> Option<
    Seq<char>,
> {
    if record.unicode_name is Some {
        record.unicode_name
    } else if says_utf8(record.flags) {
        Some(lossy_utf8(record.raw_name))
    } else {
        by_codepage
    }
}

/// [`decoded_name`], executable.
pub fn decode_zip_name(record: &ZipNameRecord, by_codepage: &Option<String>) -> (name: Option<
    String,
>)
    ensures
        text::option_text(name) == decoded_name(record@, text::option_text(*by_codepage)),
{
    if let Some(name) = &record.unicode_name {
        return Some(name.clone());
    }
    if record.flags & 0x0800 != 0 {
        return Some(lossy_utf8_text(record.raw_name.as_slice()));
    }
    match by_codepage {
        Some(name) => Some(name.clone()),
        None => None,
    }
}

/// Texts that may be missing.
pub open spec fn option_texts(items: Seq<Option<String>>) -> Seq<Option<Seq<char>>> {
    Seq::new(items.len(), |i: int| text::option_text(items[i]))
}

/// How many bytes a name takes in UTF-16.
pub open spec fn utf16_bytes(name: Seq<char>) -> u64 {
    if 2 * text::utf16(name).len() > u64::MAX {
        u64::MAX
    } else {
        (2 * text::utf16(name).len()) as u64
    }
}

/// The listing after the first `n` names were applied, with the bytes that
/// the names take. A name that is missing or that names nothing changes
/// nothing; one that takes too many bytes ends the listing.
pub open spec fn renamed(
    entries: Seq<EntryView>,
    records: Seq<RecordView>,
    by_codepage: Seq<Option<Seq<char>>>,
    n: int,
) -> (Seq<EntryView>, Result<u64, ErrorView>)
    decreases n,
{
    if n <= 0 {
        (entries, Ok(0))
    } else {
        let (before, total) = renamed(entries, records, by_codepage, n - 1);
        let name = decoded_name(records[n - 1], by_codepage[n - 1]);
        if total is Err || name is None || paths::entry_names(name->0).len() == 0 {
            (before, total)
        } else {
            let sum = file_ops::limited_sum(
                total->Ok_0,
                utf16_bytes(name->0),
                MAX_LIST_PATH_BYTES,
                "7z ZIP listing pathname metadata"@,
            );
            if sum is Err {
                (before, sum)
            } else {
                (
                    before.update(
                        n - 1,
                        EntryView {
                            path: paths::entry_names(name->0),
                            display_path: name->0,
                            ..before[n - 1]
                        },
                    ),
                    sum,
                )
            }
        }
    }
}

/// Once a name is too long, no later name is applied.
proof fn lemma_renaming_stops(
    entries: Seq<EntryView>,
    records: Seq<RecordView>,
    by_codepage: Seq<Option<Seq<char>>>,
    i: int,
    n: int,
)
    requires
        0 <= i <= n,
        renamed(entries, records, by_codepage, i).1 is Err,
    ensures
        renamed(entries, records, by_codepage, n) == renamed(entries, records, by_codepage, i),
    decreases n - i,
{
    if i < n {
        lemma_renaming_stops(entries, records, by_codepage, i, n - 1);
    }
}

/// Puts the names of the central directory in a listing. `by_codepage` holds
/// what the chosen code page makes of each raw name. A directory with another
/// number of entries is left aside.
pub fn apply_zip_name_records(
    entries: &mut Vec<ArchiveEntry>,
    records: Option<&Vec<ZipNameRecord>>,
    by_codepage: &Vec<Option<String>>,
) -> (applied: ArchiveResult<()>)
    requires
        records matches Some(records) ==> by_codepage@.len() == records@.len(),
    ensures
        match records {
            Some(records) if records@.len() == old(entries)@.len() => {
                let (left, total) = renamed(
                    options::entry_views(old(entries)@),
                    record_views(records@),
                    option_texts(by_codepage@),
                    records@.len() as int,
                );
                &&& options::entry_views(final(entries)@) == left
                &&& match applied {
                    Ok(_) => total is Ok,
                    Err(error) => total == Err::<u64, ErrorView>(error@),
                }
            },
            _ => applied is Ok && *final(entries) == *old(entries),
        },
{
    let list: &Vec<ZipNameRecord> = match records {
        Some(list) => list,
        None => {
            return Ok(());
        },
    };
    if list.len() != entries.len() {
        return Ok(());
    }
    let ghost start = options::entry_views(entries@);
    let ghost views = record_views(list@);
    let ghost others = option_texts(by_codepage@);
    let size: usize = list.len();
    let mut total: u64 = 0;
    let mut i: usize = 0;
    while i < size
        invariant
            i <= size,
            records == Some(list),
            size == list@.len(),
            size == entries@.len(),
            size == by_codepage@.len(),
            size == start.len(),
            views == record_views(list@),
            others == option_texts(by_codepage@),
            start == options::entry_views(old(entries)@),
            renamed(start, views, others, i as int) == (
                options::entry_views(entries@),
                Ok::<u64, ErrorView>(total),
            ),
        decreases size - i,
    {
        let name: Option<String> = decode_zip_name(&list[i], &by_codepage[i]);
        proof {
            assert(views[i as int] == list@[i as int]@);
            assert(others[i as int] == text::option_text(by_codepage@[i as int]));
        }
        if let Some(display_path) = name {
            if let Ok(path) = paths::build_path(display_path.as_str()) {
                let units: usize = text::utf16_units(display_path.as_str()).len();
                let bytes: u64 = if units as u64 > u64::MAX / 2 {
                    u64::MAX
                } else {
                    2 * units as u64
                };
                match file_ops::checked_add_with_limit(
                    total,
                    bytes,
                    MAX_LIST_PATH_BYTES,
                    "7z ZIP listing pathname metadata",
                ) {
                    Err(error) => {
                        proof {
                            lemma_renaming_stops(start, views, others, i + 1, size as int);
                        }
                        return Err(error);
                    },
                    Ok(sum) => {
                        total = sum;
                    },
                }
                let ghost before = options::entry_views(entries@);
                let ghost view = EntryView {
                    path: paths::entry_names(display_path@),
                    display_path: display_path@,
                    ..before[i as int]
                };
                entries[i].path = path;
                entries[i].display_path = display_path;
                proof {
                    assert(entries@[i as int]@ =~= view);
                    assert(options::entry_views(entries@) =~= before.update(i as int, view));
                }
            }
        }
        i += 1;
    }
    Ok(())
}

/// The name of an entry is its Unicode name, where it has one; else its raw
/// name as UTF-8, where the entry says so; else what the code page makes of
/// it.
pub proof fn law_names_are_decoded_in_this_order(
    record: RecordView,
    by_codepage: Option<Seq<char>>,
)
    ensures
        record.unicode_name is Some ==> decoded_name(record, by_codepage) == record.unicode_name,
        record.unicode_name is None && record.flags & 0x800 != 0 ==> decoded_name(
            record,
            by_codepage,
        ) == Some(lossy_utf8(record.raw_name)),
        record.unicode_name is None && record.flags & 0x800 == 0 ==> decoded_name(
            record,
            by_codepage,
        ) == by_codepage,
{
}

/// Only names that are not known otherwise vote for a code page, and each
/// votes for the one that was detected, with a weight of its bytes outside
/// ASCII.
pub proof fn law_names_that_vote(record: RecordView, detected: DetectedEncoding)
    ensures
        record.unicode_name is Some || record.flags & 0x800 != 0 ==> voted_codepage(
            record,
            detected,
        ) is None,
        record.unicode_name is None && record.flags & 0x800 == 0 && detected is Codepage
            ==> voted_codepage(record, detected) == Some(detected->Codepage_0),
        !(detected is Codepage) ==> voted_codepage(record, detected) is None,
        vote_weight(record) >= 1,
        high_bytes(record.raw_name) >= 1 ==> vote_weight(record) == high_bytes(record.raw_name),
{
}

/// Numbers are stored with their lowest byte first.
pub proof fn law_lowest_byte_first(b: Seq<u8>, at: int)
    ensures
        le16(b, at) == b[at] + 256 * b[at + 1],
        le32(b, at) == b[at] + 256 * b[at + 1] + 65536 * b[at + 2] + 16777216 * b[at + 3],
        le64(b, at) == le32(b, at) + 4294967296 * le32(b, at + 4),
{
}

/// A record of the directory holds the name that stands behind its 46 bytes,
/// with the lengths of name, extra field and comment at 28, 30 and 32 and the
/// flags at 8. The next record follows the comment.
pub proof fn law_records_hold_their_names(
    before: Seq<u8>,
    head: Seq<u8>,
    name: Seq<u8>,
    extra: Seq<u8>,
    comment: Seq<u8>,
    after: Seq<u8>,
    count: nat,
)
    requires
        head.len() == 46,
        head[0] == 0x50 && head[1] == 0x4B && head[2] == 1 && head[3] == 2,
        head[28] + 256 * head[29] == name.len(),
        head[30] + 256 * head[31] == extra.len(),
        head[32] + 256 * head[33] == comment.len(),
    ensures
        ({
            let directory = before + head + name + extra + comment + after;
            let at = before.len() as int;
            let end = (before.len() + 46 + name.len() + extra.len() + comment.len()) as int;
            &&& entry_fits(directory, at)
            &&& record_at(directory, at).raw_name == name
            &&& record_at(directory, at).flags == head[8] + 256 * head[9]
            &&& record_at(directory, at).unicode_name == unicode_extra(name, extra, 0)
            &&& records_from(directory, end, count) is Some ==> records_from(
                directory,
                at,
                count + 1,
            ) == Some(seq![record_at(directory, at)] + records_from(directory, end, count)->0)
            &&& records_from(directory, at, 0) == Some(Seq::<RecordView>::empty())
        }),
{
    let directory = before + head + name + extra + comment + after;
    let at = before.len() as int;
    assert forall|k: int| 0 <= k < 46 implies directory[at + k] == head[k] by {}
    assert(directory[at] == head[0] && directory[at + 1] == head[1] && directory[at + 2] == head[2]
        && directory[at + 3] == head[3]);
    assert(directory[at + 8] == head[8] && directory[at + 9] == head[9]);
    assert(directory[at + 28] == head[28] && directory[at + 29] == head[29]);
    assert(directory[at + 30] == head[30] && directory[at + 31] == head[31]);
    assert(directory[at + 32] == head[32] && directory[at + 33] == head[33]);
    assert(le32(directory, at) == 0x0201_4B50);
    assert(le16(directory, at + 28) == name.len());
    assert(le16(directory, at + 30) == extra.len());
    let name_end = at + 46 + name.len();
    assert(directory.subrange(at + 46, name_end) =~= name);
    assert(directory.subrange(name_end, name_end + extra.len()) =~= extra);
}

/// The end record of a small archive tells the number of entries at 10, the
/// size of the directory at 12 and its place at 16.
pub proof fn law_end_record_tells_the_directory(eocd: Seq<u8>, eocd_offset: u64)
    requires
        eocd.len() >= 22,
        le16(eocd, 4) < 0xFFFF,
        le16(eocd, 6) < 0xFFFF,
        le16(eocd, 8) < 0xFFFF,
        le16(eocd, 10) < 0xFFFF,
        le32(eocd, 12) < 0xFFFF_FFFF,
        le32(eocd, 16) < 0xFFFF_FFFF,
    ensures
        eocd_request(eocd, eocd_offset) is Layout,
        eocd_request(eocd, eocd_offset)->Layout_0.entries == eocd[10] + 256 * eocd[11],
        eocd_request(eocd, eocd_offset)->Layout_0.size == le32(eocd, 12),
        eocd_request(eocd, eocd_offset)->Layout_0.offset == le32(eocd, 16),
{
}

/// A large archive is found through its locator, the 20 bytes before the end
/// record, whose place of the record stands at 8; the record tells the number
/// of entries at 32, the size of the directory at 40 and its place at 48.
pub proof fn law_large_archives_are_found_by_their_locator(
    eocd: Seq<u8>,
    eocd_offset: u64,
    locator: Seq<u8>,
    record: Seq<u8>,
    length: u64,
)
    ensures
        eocd.len() >= 22 && eocd_offset >= 20 && (le16(eocd, 10) == 0xFFFF || le32(eocd, 12)
            == 0xFFFF_FFFF || le32(eocd, 16) == 0xFFFF_FFFF) ==> eocd_request(eocd, eocd_offset)
            == DirectoryRequest::Locator((eocd_offset - 20) as u64),
        locator.len() >= 20 && le32(locator, 0) == 0x0706_4B50 && le32(locator, 4) == 0 && le64(
            locator,
            8,
        ) + 56 <= length ==> locator_target(locator, length) is Some && locator_target(
            locator,
            length,
        )->0 == le64(locator, 8),
        record.len() >= 56 && le32(record, 0) == 0x0606_4B50 && le64(record, 4) >= 44
            ==> zip64_layout(record) is Some && zip64_layout(record)->0.entries == le64(record, 32)
            && zip64_layout(record)->0.size == le64(record, 40) && zip64_layout(record)->0.offset
            == le64(record, 48),
{
}

/// Decoded names replace those of the listing, entry by entry: an entry whose
/// name is known gets it, one whose name is not keeps its own, and nothing
/// else of an entry changes.
pub proof fn law_decoded_names_replace_the_listed(
    entries: Seq<EntryView>,
    records: Seq<RecordView>,
    by_codepage: Seq<Option<Seq<char>>>,
    n: int,
    i: int,
)
    requires
        0 <= n <= entries.len(),
        0 <= i < entries.len(),
        renamed(entries, records, by_codepage, n).1 is Ok,
    ensures
        ({
            let left = renamed(entries, records, by_codepage, n).0;
            let name = decoded_name(records[i], by_codepage[i]);
            &&& left.len() == entries.len()
            &&& left[i].index == entries[i].index
            &&& left[i].size == entries[i].size
            &&& left[i].compressed_size == entries[i].compressed_size
            &&& left[i].modified_unix_seconds == entries[i].modified_unix_seconds
            &&& left[i].kind == entries[i].kind
            &&& left[i].encrypted == entries[i].encrypted
            &&& i < n && name is Some && paths::entry_names(name->0).len() > 0
                ==> left[i].display_path == name->0 && left[i].path == paths::entry_names(name->0)
            &&& i >= n || name is None || paths::entry_names(name->0).len() == 0 ==> left[i]
                == entries[i]
        }),
    decreases n,
{
    if n > 0 {
        assert(renamed(entries, records, by_codepage, n - 1).1 is Ok);
        law_decoded_names_replace_the_listed(entries, records, by_codepage, n - 1, i);
        law_decoded_names_replace_the_listed(entries, records, by_codepage, n - 1, n - 1);
    }
}

} // verus!
