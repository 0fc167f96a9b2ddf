//! Reading the entries of an archive from the properties that a format
//! handler reports.

use vstd::prelude::*;
use vstd::string::*;
use crate::error::{ArchiveError, ArchiveResult, ErrorView};
use crate::ffi;
use crate::ffi::{PropVariant, PropView, S_OK};
use crate::file_ops;
use crate::format::ReadFormat;
use crate::options;
use crate::options::{ArchiveEntry, ArchiveEntryKind, EntryView};
use crate::paths;
use crate::progress;
use crate::progress::{ProgressPhase, ProgressSnapshot};
use crate::source::MAX_LIST_DECLARED_BYTES;
use crate::text;
use crate::zip_names;
use crate::zip_names::{MAX_LIST_ENTRIES, MAX_LIST_PATH_BYTES};

verus! {

/// The error for a call that returned `code`.
pub open spec fn code_error(operation: Seq<char>, code: i32) -> ErrorView {
    ErrorView::SevenZip(operation + " failed with HRESULT "@ + ffi::code_text(code))
}

/// [`code_error`], executable.
pub fn failed_call(operation: &str, code: i32) -> (error: ArchiveError)
    ensures
        error@ == code_error(operation@, code),
{
    ArchiveError::SevenZip(
        text::join3(operation, " failed with HRESULT ", ffi::code_string(code).as_str()),
    )
}

/// Turns a call's code into a result.
pub fn require_hr(code: i32, operation: &str) -> (done: ArchiveResult<()>)
    ensures
        file_ops::result_view(done) == if code == S_OK {
            Ok::<(), ErrorView>(())
        } else {
            Err::<(), ErrorView>(code_error(operation@, code))
        },
{
    if code == S_OK {
        Ok(())
    } else {
        Err(failed_call(operation, code))
    }
}

/// A property as a handler returned it: the call's code and the value.
#[derive(Debug)]
pub struct Property {
    pub code: i32,
    pub value: PropVariant,
}

/// What a handler tells about an entry.
#[derive(Debug)]
pub struct EntryProperties {
    pub path: Property,
    pub is_dir: Property,
    pub size: Property,
    pub packed_size: Property,
    pub modified: Property,
    pub encrypted: Property,
}

/// The path in an entry's properties; without one it is empty.
pub open spec fn path_text(p: EntryProperties) -> Seq<char> {
    match ffi::prop_text(p.path.value@) {
        Some(path) => path,
        None => Seq::empty(),
    }
}

/// Whether a path ends like that of a directory.
pub open spec fn ends_in_separator(path: Seq<char>) -> bool {
    path.len() > 0 && (path.last() == '/' || path.last() == '\\')
}

/// Whether an entry is a directory: by its property, else by its path.
pub open spec fn is_directory(p: EntryProperties) -> bool {
    match ffi::prop_bool(p.is_dir.value@) {
        Some(is_dir) => is_dir,
        None => ends_in_separator(path_text(p)),
    }
}

/// Whether a declared size is over the limit.
pub open spec fn is_too_large(size: Option<u64>) -> bool {
    size is Some && size->0 > MAX_LIST_DECLARED_BYTES
}

/// The entry that properties describe.
pub open spec fn described_entry(index: u64, p: EntryProperties, with_encryption: bool)
    -> EntryView {
    EntryView {
        index,
        path: paths::entry_names(path_text(p)),
        display_path: path_text(p),
        size: ffi::prop_number(p.size.value@),
        compressed_size: ffi::prop_number(p.packed_size.value@),
        modified_unix_seconds: ffi::prop_time(p.modified.value@),
        kind: if is_directory(p) {
            ArchiveEntryKind::Directory
        } else {
            ArchiveEntryKind::File
        },
        encrypted: with_encryption && ffi::prop_bool(p.encrypted.value@) == Some(true),
    }
}

/// Why an entry ends the listing, if it does. `total` counts the bytes of the
/// paths before it. The reasons are tried in the order in which the
/// properties are read.
pub open spec fn entry_error(total: u64, p: EntryProperties, with_encryption: bool) -> Option<
    ErrorView,
> {
    let sum = file_ops::limited_sum(
        total,
        zip_names::utf16_bytes(path_text(p)),
        MAX_LIST_PATH_BYTES,
        "7z listing pathname metadata"@,
    );
    if p.path.code != S_OK {
        Some(code_error("reading 7z entry name"@, p.path.code))
    } else if sum is Err {
        Some(sum->Err_0)
    } else if p.is_dir.code != S_OK {
        Some(code_error("reading 7z entry type"@, p.is_dir.code))
    } else if p.size.code != S_OK {
        Some(code_error("reading 7z entry size"@, p.size.code))
    } else if is_too_large(ffi::prop_number(p.size.value@)) {
        Some(
            ErrorView::LimitExceeded(
                "7z listing declared size"@ + " exceeds the configured limit"@,
            ),
        )
    } else if p.packed_size.code != S_OK {
        Some(code_error("reading 7z entry packed size"@, p.packed_size.code))
    } else if is_too_large(ffi::prop_number(p.packed_size.value@)) {
        Some(
            ErrorView::LimitExceeded(
                "7z listing declared packed size"@ + " exceeds the configured limit"@,
            ),
        )
    } else if p.modified.code != S_OK {
        Some(code_error("reading 7z entry time"@, p.modified.code))
    } else if with_encryption && p.encrypted.code != S_OK {
        Some(code_error("reading 7z entry encryption flag"@, p.encrypted.code))
    } else if paths::entry_names(path_text(p)).len() == 0 {
        Some(ErrorView::UnsafeEntryPath(path_text(p)))
    } else {
        None
    }
}

/// An entry is what its properties say. Where the handler answers whether it
/// is a directory, the answer decides, whatever the path looks like; the path
/// decides only where there is no answer. Sizes and times are those that are
/// reported.
pub proof fn law_entries_are_as_described(index: u64, p: EntryProperties, with_encryption: bool)
    ensures
        ({
            let entry = described_entry(index, p, with_encryption);
            &&& entry.index == index
            &&& p.is_dir.value@ == PropView::Bool(true) ==> entry.kind
                == ArchiveEntryKind::Directory
            &&& p.is_dir.value@ == PropView::Bool(false) ==> entry.kind == ArchiveEntryKind::File
            &&& p.is_dir.value@ !is Bool && entry.display_path.len() > 0 && (
            entry.display_path.last() == '/' || entry.display_path.last() == '\\') ==> entry.kind
                == ArchiveEntryKind::Directory
            &&& p.is_dir.value@ !is Bool && (entry.display_path.len() == 0 || (
            entry.display_path.last() != '/' && entry.display_path.last() != '\\')) ==> entry.kind
                == ArchiveEntryKind::File
            &&& p.size.value@ is U64 ==> entry.size == Some(p.size.value@->U64_0)
            &&& p.size.value@ is U32 ==> entry.size is Some && entry.size->0
                == p.size.value@->U32_0
            &&& p.size.value@ !is U64 && p.size.value@ !is U32 ==> entry.size is None
            &&& p.packed_size.value@ is U64 ==> entry.compressed_size == Some(
                p.packed_size.value@->U64_0,
            )
            &&& p.packed_size.value@ is U32 ==> entry.compressed_size is Some
                && entry.compressed_size->0 == p.packed_size.value@->U32_0
            &&& p.packed_size.value@ !is U64 && p.packed_size.value@ !is U32
                ==> entry.compressed_size is None
            &&& p.modified.value@ is FileTime <==> entry.modified_unix_seconds is Some
            &&& p.modified.value@ is FileTime ==> {
                let ticks = p.modified.value@->FileTime_0;
                let seconds = entry.modified_unix_seconds->0;
                (seconds + 11_644_473_600) * 10_000_000 <= ticks < (seconds + 11_644_473_601)
                    * 10_000_000
            }
            &&& entry.encrypted <==> with_encryption && p.encrypted.value@ == PropView::Bool(true)
            &&& p.path.value@ !is Bstr ==> entry.display_path.len() == 0
            &&& entry.path == paths::entry_names(entry.display_path)
        }),
{
    if p.modified.value@ is FileTime {
        let ticks = p.modified.value@->FileTime_0;
        assert(0 <= ticks as int / 10_000_000 <= 0xFFFF_FFFF_FFFF_FFFF);
    }
}

/// A path that a handler reports as text is shown as it was, as long as it is
/// not overlong and holds no zero.
pub proof fn law_paths_are_shown_as_they_are(p: EntryProperties, path: Seq<char>)
    requires
        p.path.value@ == PropView::Bstr(text::utf16(path)),
        forall|k: int| 0 <= k < text::utf16(path).len() ==> text::utf16(path)[k] != 0,
        text::utf16(path).len() < 0x10_0000,
    ensures
        described_entry(0, p, false).display_path == path,
{
    let units = text::utf16(path);
    ffi::lemma_before_zero(units, units.len() as int);
    assert(units.subrange(0, units.len() as int) =~= units);
    ffi::law_utf16_reads_back(path);
}

/// An entry is taken when every property could be read, its sizes and the
/// paths so far are within the limits, and its path has a name.
pub proof fn law_ordinary_entries_are_taken(total: u64, p: EntryProperties, with_encryption: bool)
    requires
        p.path.code == 0,
        p.is_dir.code == 0,
        p.size.code == 0,
        p.packed_size.code == 0,
        p.modified.code == 0,
        p.encrypted.code == 0 || !with_encryption,
        p.size.value@ is U64 ==> p.size.value@->U64_0 <= MAX_LIST_DECLARED_BYTES,
        p.size.value@ is U32 ==> p.size.value@->U32_0 <= MAX_LIST_DECLARED_BYTES,
        p.packed_size.value@ is U64 ==> p.packed_size.value@->U64_0 <= MAX_LIST_DECLARED_BYTES,
        p.packed_size.value@ is U32 ==> p.packed_size.value@->U32_0 <= MAX_LIST_DECLARED_BYTES,
        total + zip_names::utf16_bytes(path_text(p)) <= MAX_LIST_PATH_BYTES,
        paths::components(path_text(p)).len() > 0,
    ensures
        entry_error(total, p, with_encryption) is None,
{
    let names = paths::components(path_text(p));
    reveal_with_fuel(paths::put_together, 2);
    assert(paths::put_together(names).len() > 0);
}

/// A property that could not be read ends the listing.
pub proof fn law_unreadable_properties_end_the_listing(
    total: u64,
    p: EntryProperties,
    with_encryption: bool,
)
    requires
        p.path.code != 0 || p.is_dir.code != 0 || p.size.code != 0 || p.packed_size.code != 0
            || p.modified.code != 0 || (with_encryption && p.encrypted.code != 0),
    ensures
        entry_error(total, p, with_encryption) is Some,
{
}

/// Collects the entries of an archive.
#[derive(Debug)]
pub struct EntryReader {
    /// How many entries the archive has.
    pub count: u32,
    pub phase: ProgressPhase,
    /// Whether entries are asked if they are encrypted.
    pub with_encryption: bool,
    pub entries: Vec<ArchiveEntry>,
    /// The bytes of the paths so far.
    pub path_bytes: u64,
}

impl EntryReader {
    /// Begins to read as many entries as the handler counted.
    pub fn new(code: i32, count: u32, phase: ProgressPhase, with_encryption: bool) -> (reader:
        ArchiveResult<EntryReader>)
        ensures
            match reader {
                Ok(reader) => {
                    &&& code == S_OK
                    &&& count <= MAX_LIST_ENTRIES
                    &&& reader.count == count
                    &&& reader.phase == phase
                    &&& reader.with_encryption == with_encryption
                    &&& reader.entries@.len() == 0
                    &&& reader.path_bytes == 0
                },
                Err(error) => error@ == if code != S_OK {
                    code_error("reading 7z item count"@, code)
                } else {
                    ErrorView::LimitExceeded("7z archive has more than 1000000 entries"@)
                } && (code != S_OK || count > MAX_LIST_ENTRIES),
            },
    {
        match require_hr(code, "reading 7z item count") {
            Ok(_) => {},
            Err(error) => {
                return Err(error);
            },
        }
        if count as u64 > MAX_LIST_ENTRIES {
            return Err(
                ArchiveError::LimitExceeded(
                    "7z archive has more than 1000000 entries".to_owned(),
                ),
            );
        }
        Ok(EntryReader { count, phase, with_encryption, entries: Vec::new(), path_bytes: 0 })
    }

    /// Whether entries are still to be read, and which comes next.
    pub fn next_index(&self) -> (next: Option<u32>)
        ensures
            next == if self.entries@.len() < self.count {
                Some(self.entries@.len() as u32)
            } else {
                None
            },
    {
        if (self.entries.len() as u64) < self.count as u64 {
            Some(self.entries.len() as u32)
        } else {
            None
        }
    }

    /// Adds the next entry.
    pub fn add_entry(&mut self, cancelled: bool, p: &EntryProperties) -> (added: ArchiveResult<()>)
        ensures
            match added {
                Err(error) => {
                    &&& *final(self) == *old(self)
                    &&& if cancelled {
                        error@ == ErrorView::Cancelled
                    } else {
                        Some(error@) == entry_error(
                            old(self).path_bytes,
                            *p,
                            old(self).with_encryption,
                        )
                    }
                },
                Ok(_) => {
                    &&& !cancelled
                    &&& entry_error(old(self).path_bytes, *p, old(self).with_encryption) is None
                    &&& options::entry_views(final(self).entries@) == options::entry_views(
                        old(self).entries@,
                    ).push(
                        described_entry(
                            old(self).entries@.len() as u64,
                            *p,
                            old(self).with_encryption,
                        ),
                    )
                    &&& final(self).path_bytes == old(self).path_bytes + zip_names::utf16_bytes(
                        path_text(*p),
                    )
                    &&& final(self).count == old(self).count
                    &&& final(self).phase == old(self).phase
                    &&& final(self).with_encryption == old(self).with_encryption
                },
            },
    {
        if cancelled {
            return Err(ArchiveError::Cancelled);
        }
        match require_hr(p.path.code, "reading 7z entry name") {
            Ok(_) => {},
            Err(error) => {
                return Err(error);
            },
        }
        let display_path: String = match p.path.value.as_bstr() {
            Some(path) => path,
            None => String::new(),
        };
        let units: usize = text::utf16_units(display_path.as_str()).len();
        let bytes: u64 = if units as u64 > u64::MAX / 2 {
            u64::MAX
        } else {
            2 * units as u64
        };
        let path_bytes: u64 = match file_ops::checked_add_with_limit(
            self.path_bytes,
            bytes,
            MAX_LIST_PATH_BYTES,
            "7z listing pathname metadata",
        ) {
            Ok(sum) => sum,
            Err(error) => {
                return Err(error);
            },
        };
        match require_hr(p.is_dir.code, "reading 7z entry type") {
            Ok(_) => {},
            Err(error) => {
                return Err(error);
            },
        }
        let is_dir: bool = match p.is_dir.value.as_bool() {
            Some(is_dir) => is_dir,
            None => {
                let chars = text::chars_of(display_path.as_str());
                let length: usize = chars.len();
                length > 0 && (chars[length - 1] == '/' || chars[length - 1] == '\\')
            },
        };
        match require_hr(p.size.code, "reading 7z entry size") {
            Ok(_) => {},
            Err(error) => {
                return Err(error);
            },
        }
        let size: Option<u64> = p.size.value.as_u64();
        if let Some(size) = size {
            match file_ops::checked_add_with_limit(
                0,
                size,
                MAX_LIST_DECLARED_BYTES,
                "7z listing declared size",
            ) {
                Ok(_) => {},
                Err(error) => {
                    return Err(error);
                },
            }
        }
        match require_hr(p.packed_size.code, "reading 7z entry packed size") {
            Ok(_) => {},
            Err(error) => {
                return Err(error);
            },
        }
        let compressed_size: Option<u64> = p.packed_size.value.as_u64();
        if let Some(compressed_size) = compressed_size {
            match file_ops::checked_add_with_limit(
                0,
                compressed_size,
                MAX_LIST_DECLARED_BYTES,
                "7z listing declared packed size",
            ) {
                Ok(_) => {},
                Err(error) => {
                    return Err(error);
                },
            }
        }
        match require_hr(p.modified.code, "reading 7z entry time") {
            Ok(_) => {},
            Err(error) => {
                return Err(error);
            },
        }
        let modified_unix_seconds: Option<i64> = p.modified.value.as_filetime_seconds();
        let mut encrypted: bool = false;
        if self.with_encryption {
            match require_hr(p.encrypted.code, "reading 7z entry encryption flag") {
                Ok(_) => {},
                Err(error) => {
                    return Err(error);
                },
            }
            encrypted = match p.encrypted.value.as_bool() {
                Some(encrypted) => encrypted,
                None => false,
            };
        }
        let path: Vec<String> = match paths::build_path(display_path.as_str()) {
            Ok(path) => path,
            Err(error) => {
                return Err(error);
            },
        };
        let entry = ArchiveEntry {
            index: self.entries.len() as u64,
            path,
            display_path,
            size,
            compressed_size,
            modified_unix_seconds,
            kind: if is_dir { ArchiveEntryKind::Directory } else { ArchiveEntryKind::File },
            encrypted,
        };
        let ghost before = options::entry_views(self.entries@);
        let ghost view = entry@;
        self.entries.push(entry);
        self.path_bytes = path_bytes;
        proof {
            assert(view =~= described_entry(before.len() as u64, *p, self.with_encryption));
            assert(options::entry_views(self.entries@) =~= before.push(view));
        }
        Ok(())
    }

    /// How far the reading is.
    pub fn snapshot(&self) -> (snapshot: ProgressSnapshot)
        ensures
            snapshot@ == (progress::SnapshotView {
                total_entries: Some(self.count as u64),
                entries_processed: self.entries@.len() as u64,
                current_file: if self.entries@.len() > 0 {
                    self.entries@.last().display_path@
                } else {
                    Seq::empty()
                },
                ..progress::fresh_snapshot(self.phase)
            }),
    {
        let mut snapshot = ProgressSnapshot::new(self.phase);
        snapshot.total_entries = Some(self.count as u64);
        let done: usize = self.entries.len();
        snapshot.entries_processed = done as u64;
        if done > 0 {
            snapshot.current_file = self.entries[done - 1].display_path.clone();
        }
        snapshot
    }
}

// ---------------------------------------------------------------------------
// The whole listing
// ---------------------------------------------------------------------------

/// What an archive holds.
#[derive(Debug)]
pub struct ArchiveListing {
    pub archive_path: String,
    pub format_name: String,
    pub filter_name: Option<String>,
    pub warning: Option<String>,
    pub entries: Vec<ArchiveEntry>,
    pub total_uncompressed_size: u64,
}

/// The sizes of the first `n` entries that declare one, up to the largest
/// number.
pub open spec fn declared_bytes(entries: Seq<EntryView>, n: int) -> u64
    decreases n,
{
    if n <= 0 {
        0
    } else {
        match entries[n - 1].size {
            Some(size) => options::capped_sum(declared_bytes(entries, n - 1), size),
            None => declared_bytes(entries, n - 1),
        }
    }
}

/// Entries of an archive whose headers are encrypted count as encrypted.
pub open spec fn with_encryption(entries: Seq<EntryView>, encrypted: bool) -> Seq<EntryView> {
    Seq::new(
        entries.len(),
        |i: int| EntryView { encrypted: entries[i].encrypted || encrypted, ..entries[i] },
    )
}

/// Whether a listing is that of an archive with the entries.
pub open spec fn is_listing(
    listing: ArchiveListing,
    archive: Seq<char>,
    format: ReadFormat,
    entries: Seq<EntryView>,
    encrypted: Property,
) -> bool {
    &&& listing.archive_path@ == archive
    &&& listing.format_name@ == format.label_text()
    &&& listing.filter_name is None
    &&& listing.warning is None
    &&& options::entry_views(listing.entries@) == with_encryption(
        entries,
        encrypted.code == S_OK && ffi::prop_bool(encrypted.value@) == Some(true),
    )
    &&& listing.total_uncompressed_size == declared_bytes(entries, entries.len() as int)
}

/// The listing of an archive once its entries are read. `encrypted` is the
/// archive's own encryption property.
pub fn finish_listing(
    archive_path: &str,
    format: ReadFormat,
    entries: Vec<ArchiveEntry>,
    encrypted: &Property,
) -> (listing: ArchiveListing)
    ensures
        is_listing(
            listing,
            archive_path@,
            format,
            options::entry_views(entries@),
            *encrypted,
        ),
{
    let mut archive_encrypted: bool = false;
    if encrypted.code == S_OK {
        archive_encrypted = match encrypted.value.as_bool() {
            Some(encrypted) => encrypted,
            None => false,
        };
    }
    let ghost views = options::entry_views(entries@);
    let mut entries: Vec<ArchiveEntry> = entries;
    let size: usize = entries.len();
    let mut total: u64 = 0;
    let mut i: usize = 0;
    while i < size
        invariant
            i <= size,
            size == entries@.len(),
            size == views.len(),
            total == declared_bytes(views, i as int),
            forall|k: int|
                0 <= k < size ==> (#[trigger] entries@[k])@ == if k < i {
                    (EntryView { encrypted: views[k].encrypted || archive_encrypted, ..views[k] })
                } else {
                    views[k]
                },
        decreases size - i,
    {
        let ghost before = entries@;
        proof {
            assert(before[i as int]@ == views[i as int]);
        }
        if let Some(more) = entries[i].size {
            total = total.saturating_add(more);
        }
        if archive_encrypted {
            entries[i].encrypted = true;
        }
        proof {
            let old_view = views[i as int];
            assert(entries@[i as int]@ =~= (EntryView {
                encrypted: old_view.encrypted || archive_encrypted,
                ..old_view
            }));
            assert forall|k: int| 0 <= k < size && k != i implies (#[trigger] entries@[k])@
                == before[k]@ by {}
        }
        i += 1;
    }
    proof {
        assert(options::entry_views(entries@) =~= with_encryption(views, archive_encrypted));
    }
    ArchiveListing {
        archive_path: archive_path.to_owned(),
        format_name: format.label().to_owned(),
        filter_name: None,
        warning: None,
        entries,
        total_uncompressed_size: total,
    }
}

/// The total of a listing is the sum of the sizes that the entries declare,
/// where that is a 64-bit number, and the largest such number where it is not.
pub proof fn law_total_is_the_sum(entries: Seq<EntryView>, n: int)
    requires
        0 <= n <= entries.len(),
    ensures
        declared_bytes(entries, n) == if sum_of_sizes(entries, n) > u64::MAX {
            u64::MAX as int
        } else {
            sum_of_sizes(entries, n)
        },
    decreases n,
{
    if n > 0 {
        law_total_is_the_sum(entries, n - 1);
        lemma_sum_of_sizes(entries, n - 1);
    }
}

/// The sizes of the first `n` entries that declare one, added up.
pub open spec fn sum_of_sizes(entries: Seq<EntryView>, n: int) -> int
    decreases n,
{
    if n <= 0 {
        0
    } else if entries[n - 1].size is Some {
        sum_of_sizes(entries, n - 1) + entries[n - 1].size->0
    } else {
        sum_of_sizes(entries, n - 1)
    }
}

/// A sum of sizes is not negative.
proof fn lemma_sum_of_sizes(entries: Seq<EntryView>, n: int)
    ensures
        0 <= sum_of_sizes(entries, n),
    decreases n,
{
    if n > 0 {
        lemma_sum_of_sizes(entries, n - 1);
    }
}

/// A listing shows every entry that was read, in order, and changes nothing of
/// it but the encryption mark, which encrypted headers set for all of them.
pub proof fn law_listing_shows_every_entry(
    listing: ArchiveListing,
    archive: Seq<char>,
    format: ReadFormat,
    entries: Seq<EntryView>,
    encrypted: Property,
    i: int,
)
    requires
        is_listing(listing, archive, format, entries, encrypted),
        0 <= i < entries.len(),
    ensures
        listing.archive_path@ == archive,
        listing.format_name@ == format.label_text(),
        listing.entries@.len() == entries.len(),
        ({
            let shown = listing.entries@[i]@;
            &&& shown.index == entries[i].index
            &&& shown.path == entries[i].path
            &&& shown.display_path == entries[i].display_path
            &&& shown.size == entries[i].size
            &&& shown.compressed_size == entries[i].compressed_size
            &&& shown.modified_unix_seconds == entries[i].modified_unix_seconds
            &&& shown.kind == entries[i].kind
            &&& shown.encrypted == (entries[i].encrypted || (encrypted.code == 0
                && encrypted.value@ == PropView::Bool(true)))
        }),
{
    let views = options::entry_views(listing.entries@);
    assert(views.len() == listing.entries@.len());
    assert(views[i] == listing.entries@[i]@);
}

/// The paths of entries as another reader reports them.
#[derive(Debug)]
pub struct RepairedPath {
    pub path: Vec<String>,
    pub display_path: String,
}

/// Replaces the paths of an LZH archive's entries by those of a reader that
/// knows the archive's code page. The two readers must agree on how many
/// entries there are.
pub fn repair_lzh_paths(entries: &mut Vec<ArchiveEntry>, repaired: Vec<RepairedPath>) -> (done:
    ArchiveResult<()>)
    ensures
        match done {
            Ok(_) => {
                &&& repaired@.len() == old(entries)@.len()
                &&& options::entry_views(final(entries)@) == Seq::new(
                    repaired@.len(),
                    |i: int|
                        EntryView {
                            path: text::texts(repaired@[i].path@),
                            display_path: repaired@[i].display_path@,
                            ..old(entries)@[i]@
                        },
                )
            },
            Err(error) => {
                &&& repaired@.len() != old(entries)@.len()
                &&& *final(entries) == *old(entries)
                &&& error@ == ErrorView::SevenZip(
                    "LZH readers disagree about the entry count (7z: "@ + text::decimal(
                        old(entries)@.len(),
                    ) + ", libarchive: "@ + text::decimal(repaired@.len()) + ")"@,
                )
            },
        },
{
    let size: usize = entries.len();
    if repaired.len() != size {
        let mut message = "LZH readers disagree about the entry count (7z: ".to_owned();
        message.append(text::decimal_text(size as u64).as_str());
        message.append(", libarchive: ");
        message.append(text::decimal_text(repaired.len() as u64).as_str());
        message.append(")");
        return Err(ArchiveError::SevenZip(message));
    }
    let mut i: usize = 0;
    while i < size
        invariant
            i <= size,
            size == entries@.len(),
            size == repaired@.len(),
            size == old(entries)@.len(),
            forall|k: int|
                0 <= k < size ==> (#[trigger] entries@[k])@ == if k < i {
                    (EntryView {
                        path: text::texts(repaired@[k].path@),
                        display_path: repaired@[k].display_path@,
                        ..old(entries)@[k]@
                    })
                } else {
                    old(entries)@[k]@
                },
        decreases size - i,
    {
        let ghost before = entries@;
        proof {
            assert(before[i as int]@ == old(entries)@[i as int]@);
        }
        let path = paths::copy_path(&repaired[i].path);
        entries[i].path = path;
        entries[i].display_path = repaired[i].display_path.clone();
        proof {
            let old_view = old(entries)@[i as int]@;
            assert(entries@[i as int]@ =~= (EntryView {
                path: text::texts(repaired@[i as int].path@),
                display_path: repaired@[i as int].display_path@,
                ..old_view
            }));
            assert forall|k: int| 0 <= k < size && k != i implies (#[trigger] entries@[k])@
                == before[k]@ by {}
        }
        i += 1;
    }
    proof {
        assert(options::entry_views(entries@) =~= Seq::new(
            repaired@.len(),
            |i: int|
                EntryView {
                    path: text::texts(repaired@[i].path@),
                    display_path: repaired@[i].display_path@,
                    ..old(entries)@[i]@
                },
        ));
    }
    Ok(())
}

} // verus!
