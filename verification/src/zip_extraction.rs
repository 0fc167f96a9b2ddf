//! Extracting ZIP archives whose entries are decompressed in this process.

use vstd::prelude::*;
use vstd::string::*;
use crate::error::{ArchiveError, ArchiveResult, ErrorView};
use crate::extracting;
use crate::ffi;
use crate::file_ops;
use crate::options;
use crate::options::{ExtractOptions, OperationSummary, SummaryView, ThreadCount};
use crate::order;
use crate::paths;
use crate::progress::{ProgressSnapshot, SnapshotView};
use crate::text;
use crate::zip_creation;
use crate::zip_names;
use crate::zip_names::{RecordView, ZipNameRecord};

verus! {

// ---------------------------------------------------------------------------
// Times
// ---------------------------------------------------------------------------

/// The Unix time of an entry whose local time the system turned into a file
/// time, given as its two halves.
pub fn modified_time(high: u32, low: u32) -> (seconds: i64)
    ensures
        seconds == (high * 0x1_0000_0000 + low) / 10_000_000 - ffi::FILETIME_EPOCH_SECONDS,
{
    let ticks: u64 = (high as u64) * 0x1_0000_0000 + (low as u64);
    ffi::filetime_to_unix_seconds(ticks)
}

// ---------------------------------------------------------------------------
// Failures of the ZIP reader
// ---------------------------------------------------------------------------

/// Why the ZIP reader failed.
#[derive(Debug)]
pub enum ZipFailure {
    InvalidPassword,
    Unsupported(String),
    Io(String),
    Other,
}

/// What the reader says of an encrypted entry without a password.
pub open spec fn password_needed() -> Seq<char> {
    "Password required to decrypt file"@
}

/// The error for a failure of the ZIP reader at `path`.
pub open spec fn zip_failure_error(path: Seq<char>, failure: ZipFailure) -> ErrorView {
    match failure {
        ZipFailure::InvalidPassword => ErrorView::PasswordRequired,
        ZipFailure::Unsupported(message) => if message@ == password_needed() {
            ErrorView::PasswordRequired
        } else if "ZIP metadata"@.is_prefix_of(message@) {
            ErrorView::LimitExceeded(message@)
        } else {
            ErrorView::UnsupportedOption(message@)
        },
        ZipFailure::Io(message) => ErrorView::Io(path, message@),
        ZipFailure::Other => ErrorView::InvalidArchive(path),
    }
}

/// [`zip_failure_error`], executable.
pub fn zip_error(path: &str, failure: ZipFailure) -> (error: ArchiveError)
    ensures
        error@ == zip_failure_error(path@, failure),
{
    match failure {
        ZipFailure::InvalidPassword => ArchiveError::PasswordRequired,
        ZipFailure::Unsupported(message) => {
            if text::same_text(message.as_str(), "Password required to decrypt file") {
                ArchiveError::PasswordRequired
            } else if text::starts_with(message.as_str(), "ZIP metadata") {
                ArchiveError::LimitExceeded(message)
            } else {
                ArchiveError::UnsupportedOption(message)
            }
        },
        ZipFailure::Io(message) => ArchiveError::io(path, message.as_str()),
        ZipFailure::Other => ArchiveError::InvalidArchive(path.to_owned()),
    }
}

// ---------------------------------------------------------------------------
// The plan
// ---------------------------------------------------------------------------

/// How an entry is compressed.
#[derive(Debug, Clone, Copy, PartialEq, Eq, Structural)]
pub enum ZipMethod {
    Stored,
    Deflated,
    Other,
}

/// What the ZIP reader tells about an entry.
#[derive(Debug)]
pub struct ZipEntry {
    /// The name as the reader decoded it.
    pub name: String,
    pub raw_name: Vec<u8>,
    pub has_unicode_name: bool,
    pub is_symlink: bool,
    pub unix_mode: Option<u32>,
    pub method: ZipMethod,
    pub is_dir: bool,
    pub size: u64,
    pub modified_unix_seconds: Option<i64>,
}

/// The name record of an entry.
pub open spec fn record_of(entry: ZipEntry) -> RecordView {
    RecordView {
        raw_name: entry.raw_name@,
        flags: if entry.has_unicode_name {
            0x800
        } else {
            0
        },
        unicode_name: if entry.has_unicode_name {
            Some(entry.name@)
        } else {
            None
        },
    }
}

impl ZipEntry {
    /// [`record_of`], executable.
    pub fn name_record(&self) -> (record: ZipNameRecord)
        ensures
            record@ == record_of(*self),
    {
        ZipNameRecord {
            raw_name: copy_bytes(&self.raw_name),
            flags: if self.has_unicode_name { 0x800 } else { 0 },
            unicode_name: if self.has_unicode_name { Some(self.name.clone()) } else { None },
        }
    }
}

/// A copy of bytes.
fn copy_bytes(bytes: &Vec<u8>) -> (copy: Vec<u8>)
    ensures
        copy@ == bytes@,
{
    let mut copy: Vec<u8> = Vec::new();
    let mut i: usize = 0;
    while i < bytes.len()
        invariant
            i <= bytes@.len(),
            copy@ == bytes@.take(i as int),
        decreases bytes@.len() - i,
    {
        copy.push(bytes[i]);
        proof {
            assert(bytes@.take(i + 1) =~= bytes@.take(i as int).push(bytes@[i as int]));
        }
        i += 1;
    }
    proof {
        assert(bytes@.take(i as int) =~= bytes@);
    }
    copy
}

/// The name under which an entry is extracted: decoded as its record says,
/// else as the reader decoded it.
pub open spec fn entry_name(entry: ZipEntry, by_codepage: Option<Seq<char>>) -> Seq<char> {
    match zip_names::decoded_name(record_of(entry), by_codepage) {
        Some(name) => name,
        None => entry.name@,
    }
}

/// Whether a mode is that of a plain file or of a directory, or tells
/// neither.
pub open spec fn is_plain_mode(mode: u32) -> bool {
    mode & 0xF000 == 0 || mode & 0xF000 == 0x8000 || mode & 0xF000 == 0x4000
}

/// Whether an entry is a link or a special file.
pub open spec fn is_special(entry: ZipEntry) -> bool {
    entry.is_symlink || (entry.unix_mode is Some && !is_plain_mode(entry.unix_mode->0))
}

/// [`is_special`], executable.
fn special(entry: &ZipEntry) -> (yes: bool)
    ensures
        yes == is_special(*entry),
{
    if entry.is_symlink {
        return true;
    }
    match entry.unix_mode {
        Some(mode) => !(mode & 0xF000 == 0 || mode & 0xF000 == 0x8000 || mode & 0xF000 == 0x4000),
        None => false,
    }
}

/// An entry that is extracted.
#[derive(Debug)]
pub struct Job {
    pub index: usize,
    pub relative: Vec<String>,
    pub size: u64,
    pub directory: bool,
    pub modified_unix_seconds: Option<i64>,
}

/// A [`Job`] over sequences.
#[verifier::ext_equal]
pub struct JobView {
    pub index: int,
    pub relative: Seq<Seq<char>>,
    pub size: u64,
    pub directory: bool,
    pub modified_unix_seconds: Option<i64>,
}

impl View for Job {
    type V = JobView;

    open spec fn view(&self) -> JobView {
        JobView {
            index: self.index as int,
            relative: text::texts(self.relative@),
            size: self.size,
            directory: self.directory,
            modified_unix_seconds: self.modified_unix_seconds,
        }
    }
}

/// The views of jobs.
pub open spec fn job_views(jobs: Seq<Job>) -> Seq<JobView> {
    Seq::new(jobs.len(), |i: int| jobs[i]@)
}

/// Where the planning stands: jobs and their bytes, or the end of it.
pub enum ZipPlanning {
    Going { jobs: Seq<JobView>, total: u64 },
    /// An entry is compressed in another way; another engine extracts.
    Fallback,
    Failed(ErrorView),
}

/// The path of an entry below the destination.
pub open spec fn job_path(name: Seq<char>, flatten: bool) -> Seq<Seq<char>> {
    let relative = paths::without_dots(paths::components(name));
    if flatten {
        seq![relative.last()]
    } else {
        relative
    }
}

/// The planning with one entry more.
pub open spec fn plan_with(
    jobs: Seq<JobView>,
    total: u64,
    index: int,
    entry: ZipEntry,
    name: Seq<char>,
    options: ExtractOptions,
) -> ZipPlanning {
    let relative = paths::without_dots(paths::components(name));
    let sum = file_ops::limited_sum(
        total,
        entry.size,
        options.max_total_bytes,
        "ZIP declared bytes"@,
    );
    if paths::is_rooted(name) || !paths::is_safe_path(relative) {
        ZipPlanning::Failed(ErrorView::UnsafeEntryPath(name))
    } else if !options::selects(options.selection@, relative) {
        ZipPlanning::Going { jobs, total }
    } else if is_special(entry) {
        ZipPlanning::Failed(ErrorView::UnsafeEntryType(name))
    } else if entry.method == ZipMethod::Other {
        ZipPlanning::Fallback
    } else if options.flatten_paths && entry.is_dir {
        ZipPlanning::Going { jobs, total }
    } else if jobs.len() >= options.max_entries || entry.size > options.max_file_bytes {
        ZipPlanning::Failed(
            ErrorView::LimitExceeded("ZIP entry count or file size exceeds configured limits"@),
        )
    } else if sum is Err {
        ZipPlanning::Failed(sum->Err_0)
    } else {
        ZipPlanning::Going {
            jobs: jobs.push(
                JobView {
                    index,
                    relative: job_path(name, options.flatten_paths),
                    size: entry.size,
                    directory: entry.is_dir,
                    modified_unix_seconds: entry.modified_unix_seconds,
                },
            ),
            total: sum->Ok_0,
        }
    }
}

/// The planning of the first `n` entries. `by_codepage` holds what the chosen
/// code page makes of each raw name.
pub open spec fn planned(
    entries: Seq<ZipEntry>,
    by_codepage: Seq<Option<Seq<char>>>,
    options: ExtractOptions,
    n: int,
) -> ZipPlanning
    decreases n,
{
    if n <= 0 {
        ZipPlanning::Going { jobs: Seq::empty(), total: 0 }
    } else {
        match planned(entries, by_codepage, options, n - 1) {
            ZipPlanning::Going { jobs, total } => plan_with(
                jobs,
                total,
                n - 1,
                entries[n - 1],
                entry_name(entries[n - 1], by_codepage[n - 1]),
                options,
            ),
            ended => ended,
        }
    }
}

/// A planning that ended stays ended.
proof fn lemma_planning_stops(
    entries: Seq<ZipEntry>,
    by_codepage: Seq<Option<Seq<char>>>,
    options: ExtractOptions,
    i: int,
    n: int,
)
    requires
        0 <= i <= n,
        planned(entries, by_codepage, options, i) !is Going,
    ensures
        planned(entries, by_codepage, options, n) == planned(entries, by_codepage, options, i),
    decreases n - i,
{
    if i < n {
        lemma_planning_stops(entries, by_codepage, options, i, n - 1);
    }
}

/// What is extracted, and how many bytes it declares.
#[derive(Debug)]
pub struct ZipPlan {
    pub jobs: Vec<Job>,
    pub total: u64,
}

/// The last name of a path, on its own.
fn last_name(path: &Vec<String>) -> (last: Vec<String>)
    requires
        path@.len() > 0,
    ensures
        text::texts(last@) == seq![text::texts(path@).last()],
{
    let length: usize = path.len();
    let mut last: Vec<String> = Vec::new();
    last.push(path[length - 1].clone());
    proof {
        assert(text::texts(last@) =~= seq![text::texts(path@).last()]);
    }
    last
}

/// Plans the extraction of the selected entries. Paths that would leave the
/// destination, links, special files and sizes over the limits end it.
/// Nothing is returned when an entry is neither stored nor deflated.
pub fn plan_zip_extraction(
    entries: &Vec<ZipEntry>,
    by_codepage: &Vec<Option<String>>,
    options: &ExtractOptions,
) -> (plan: ArchiveResult<Option<ZipPlan>>)
    requires
        by_codepage@.len() == entries@.len(),
    ensures
        ({
            let end = planned(
                entries@,
                zip_names::option_texts(by_codepage@),
                *options,
                entries@.len() as int,
            );
            match plan {
                Ok(Some(plan)) => end == (ZipPlanning::Going {
                    jobs: job_views(plan.jobs@),
                    total: plan.total,
                }),
                Ok(None) => end is Fallback,
                Err(error) => end == ZipPlanning::Failed(error@),
            }
        }),
{
    let ghost others = zip_names::option_texts(by_codepage@);
    let size: usize = entries.len();
    let mut jobs: Vec<Job> = Vec::new();
    let mut total: u64 = 0;
    let mut i: usize = 0;
    proof {
        assert(job_views(jobs@) =~= Seq::<JobView>::empty());
    }
    while i < size
        invariant
            i <= size,
            size == entries@.len(),
            size == by_codepage@.len(),
            others == zip_names::option_texts(by_codepage@),
            planned(entries@, others, *options, i as int) == (ZipPlanning::Going {
                jobs: job_views(jobs@),
                total,
            }),
        decreases size - i,
    {
        let entry = &entries[i];
        let record = entry.name_record();
        let name: String = match zip_names::decode_zip_name(&record, &by_codepage[i]) {
            Some(name) => name,
            None => entry.name.clone(),
        };
        let ghost before = job_views(jobs@);
        proof {
            assert(others[i as int] == text::option_text(by_codepage@[i as int]));
            assert(name@ == entry_name(entries@[i as int], others[i as int]));
            let next = planned(entries@, others, *options, i + 1);
            assert(next == plan_with(before, total, i as int, *entry, name@, *options));
            if next !is Going {
                lemma_planning_stops(entries@, others, *options, i + 1, size as int);
            }
        }
        let relative: Vec<String> = match paths::safe_relative_path(name.as_str()) {
            Ok(relative) => relative,
            Err(error) => {
                return Err(error);
            },
        };
        if options.selection.includes(&relative) {
            if special(entry) {
                return Err(ArchiveError::UnsafeEntryType(name));
            }
            if entry.method == ZipMethod::Other {
                return Ok(None);
            }
            if !(options.flatten_paths && entry.is_dir) {
                if jobs.len() as u64 >= options.max_entries || entry.size > options.max_file_bytes {
                    return Err(
                        ArchiveError::LimitExceeded(
                            "ZIP entry count or file size exceeds configured limits".to_owned(),
                        ),
                    );
                }
                match file_ops::checked_add_with_limit(
                    total,
                    entry.size,
                    options.max_total_bytes,
                    "ZIP declared bytes",
                ) {
                    Ok(sum) => {
                        total = sum;
                    },
                    Err(error) => {
                        return Err(error);
                    },
                }
                let target: Vec<String> = if options.flatten_paths {
                    last_name(&relative)
                } else {
                    relative
                };
                let job = Job {
                    index: i,
                    relative: target,
                    size: entry.size,
                    directory: entry.is_dir,
                    modified_unix_seconds: entry.modified_unix_seconds,
                };
                let ghost view = job@;
                jobs.push(job);
                proof {
                    assert(view =~= (JobView {
                        index: i as int,
                        relative: job_path(name@, options.flatten_paths),
                        size: entry.size,
                        directory: entry.is_dir,
                        modified_unix_seconds: entry.modified_unix_seconds,
                    }));
                    assert(job_views(jobs@) =~= before.push(view));
                }
            }
        }
        i += 1;
    }
    Ok(Some(ZipPlan { jobs, total }))
}

/// Nothing is extracted here from an archive with an entry that cannot be
/// trusted: one whose path is absolute, goes up, names a drive, a stream or a
/// device, or one that is wanted and is a link or a special file.
pub proof fn law_untrusted_entries_are_refused(
    entries: Seq<ZipEntry>,
    by_codepage: Seq<Option<Seq<char>>>,
    options: ExtractOptions,
    n: int,
    i: int,
    k: int,
)
    requires
        0 <= i < n <= entries.len(),
        ({
            let name = entry_name(entries[i], by_codepage[i]);
            let names = paths::components(name);
            ||| paths::is_rooted(name)
            ||| 0 <= k < names.len() && paths::is_untrusted_name(names[k])
            ||| is_special(entries[i]) && options::selects(
                options.selection@,
                paths::without_dots(names),
            )
        }),
    ensures
        planned(entries, by_codepage, options, n) !is Going,
{
    let names = paths::components(entry_name(entries[i], by_codepage[i]));
    if 0 <= k < names.len() && paths::is_untrusted_name(names[k]) {
        paths::law_untrusted_name_is_unsafe(names, k);
    }
    assert(planned(entries, by_codepage, options, i + 1) !is Going);
    lemma_planning_stops(entries, by_codepage, options, i + 1, n);
}

/// Every job stays below the destination, and is no link or special file.
pub proof fn law_jobs_are_safe(
    entries: Seq<ZipEntry>,
    by_codepage: Seq<Option<Seq<char>>>,
    options: ExtractOptions,
    n: int,
    i: int,
)
    requires
        0 <= n <= entries.len(),
        planned(entries, by_codepage, options, n) is Going,
        0 <= i < planned(entries, by_codepage, options, n)->jobs.len(),
    ensures
        ({
            let job = planned(entries, by_codepage, options, n)->jobs[i];
            &&& 0 <= job.index < n
            &&& paths::is_safe_path(job.relative)
            &&& !is_special(entries[job.index])
            &&& job.size <= options.max_file_bytes
        }),
    decreases n,
{
    if n > 0 {
        let before = planned(entries, by_codepage, options, n - 1);
        let now = planned(entries, by_codepage, options, n);
        if i < before->jobs.len() {
            law_jobs_are_safe(entries, by_codepage, options, n - 1, i);
            assert(now->jobs[i] == before->jobs[i]);
        } else {
            let name = entry_name(entries[n - 1], by_codepage[n - 1]);
            let relative = paths::without_dots(paths::components(name));
            assert(paths::is_safe_path(relative));
            assert(paths::is_safe_name(relative.last()));
        }
    }
}

/// The declared bytes of a plan are those of its jobs, and within the limit.
pub proof fn law_plan_keeps_the_limits(
    entries: Seq<ZipEntry>,
    by_codepage: Seq<Option<Seq<char>>>,
    options: ExtractOptions,
    n: int,
)
    requires
        0 <= n <= entries.len(),
        planned(entries, by_codepage, options, n) is Going,
    ensures
        planned(entries, by_codepage, options, n)->total == total_size(
            planned(entries, by_codepage, options, n)->jobs,
        ),
        planned(entries, by_codepage, options, n)->total <= options.max_total_bytes,
        planned(entries, by_codepage, options, n)->jobs.len() <= options.max_entries,
    decreases n,
{
    if n > 0 {
        law_plan_keeps_the_limits(entries, by_codepage, options, n - 1);
        let before = planned(entries, by_codepage, options, n - 1);
        let now = planned(entries, by_codepage, options, n);
        if now->jobs.len() > before->jobs.len() {
            assert(now->jobs.drop_last() =~= before->jobs);
        }
    }
}

/// The sizes of jobs together.
pub open spec fn total_size(jobs: Seq<JobView>) -> int
    decreases jobs.len(),
{
    if jobs.len() == 0 {
        0
    } else {
        total_size(jobs.drop_last()) + jobs.last().size
    }
}

/// Whether an entry takes part in an extraction: it is selected, and it is no
/// directory that flattening leaves out.
pub open spec fn takes_part(
    entry: ZipEntry,
    by_codepage: Option<Seq<char>>,
    options: ExtractOptions,
) -> bool {
    &&& options::selects(
        options.selection@,
        paths::without_dots(paths::components(entry_name(entry, by_codepage))),
    )
    &&& !(options.flatten_paths && entry.is_dir)
}

/// Whether one of the jobs is for the entry at an index.
pub open spec fn has_job(jobs: Seq<JobView>, index: int) -> bool {
    exists|j: int| 0 <= j < jobs.len() && (#[trigger] jobs[j]).index == index
}

/// A plan is complete. It holds one job for every entry that takes part,
/// however the entry is compressed, and none for another. The jobs follow the
/// order of the archive; each has the size, the kind and the time of its
/// entry, and the path that the entry's name stands for. Where everything is
/// selected and the directories are kept, there are as many jobs as entries.
pub proof fn law_plan_holds_every_wanted_entry(
    entries: Seq<ZipEntry>,
    by_codepage: Seq<Option<Seq<char>>>,
    options: ExtractOptions,
    n: int,
    jobs: Seq<JobView>,
    total: u64,
)
    requires
        0 <= n <= entries.len(),
        planned(entries, by_codepage, options, n) == (ZipPlanning::Going { jobs, total }),
    ensures
        forall|i: int|
            0 <= i < n ==> has_job(jobs, i) == takes_part(
                #[trigger] entries[i],
                by_codepage[i],
                options,
            ),
        forall|j: int|
            0 <= j < jobs.len() ==> {
                let job = #[trigger] jobs[j];
                let entry = entries[job.index];
                let names = paths::without_dots(
                    paths::components(entry_name(entry, by_codepage[job.index])),
                );
                &&& 0 <= job.index < n
                &&& job.size == entry.size
                &&& job.directory == entry.is_dir
                &&& job.modified_unix_seconds == entry.modified_unix_seconds
                &&& !options.flatten_paths ==> job.relative == names
                &&& options.flatten_paths ==> job.relative.len() == 1 && job.relative[0]
                    == names[names.len() - 1]
            },
        forall|a: int, b: int|
            0 <= a < b < jobs.len() ==> (#[trigger] jobs[a]).index < (#[trigger] jobs[b]).index,
        options.selection@ is All && !options.flatten_paths ==> jobs.len() == n && forall|i: int|
            0 <= i < n ==> (#[trigger] jobs[i]).index == i,
    decreases n,
{
    if n > 0 {
        let before = planned(entries, by_codepage, options, n - 1);
        let earlier = before->jobs;
        let sum = before->total;
        assert(before is Going);
        law_plan_holds_every_wanted_entry(entries, by_codepage, options, n - 1, earlier, sum);
        let last = entries[n - 1];
        let part = takes_part(last, by_codepage[n - 1], options);
        if part {
            assert(jobs.len() == earlier.len() + 1);
            assert(jobs[earlier.len() as int].index == n - 1);
            assert forall|j: int| 0 <= j < earlier.len() implies jobs[j] == earlier[j] by {}
        } else {
            assert(jobs == earlier);
        }
        assert forall|i: int| 0 <= i < n implies has_job(jobs, i) == takes_part(
            #[trigger] entries[i],
            by_codepage[i],
            options,
        ) by {
            if i < n - 1 {
                if has_job(earlier, i) {
                    let j = choose|j: int|
                        0 <= j < earlier.len() && (#[trigger] earlier[j]).index == i;
                    assert(jobs[j].index == i);
                }
                if has_job(jobs, i) {
                    let j = choose|j: int| 0 <= j < jobs.len() && (#[trigger] jobs[j]).index == i;
                    assert(j < earlier.len());
                    assert(earlier[j].index == i);
                }
            } else if has_job(jobs, i) && !part {
                let j = choose|j: int| 0 <= j < jobs.len() && (#[trigger] jobs[j]).index == i;
                assert(earlier[j].index == i);
            }
        }
        assert forall|a: int, b: int| 0 <= a < b < jobs.len() implies (#[trigger] jobs[a]).index < (
        #[trigger] jobs[b]).index by {
            assert(jobs[a] == earlier[a]);
            if b < earlier.len() {
                assert(jobs[b] == earlier[b]);
            }
        }
    }
}

/// An archive is extracted in process when nothing stands against it: names
/// that stay below the destination, plain entries that are stored or deflated,
/// and sizes within the limits.
pub proof fn law_ordinary_archives_are_planned(
    entries: Seq<ZipEntry>,
    by_codepage: Seq<Option<Seq<char>>>,
    options: ExtractOptions,
    n: int,
)
    requires
        0 <= n <= entries.len(),
        n <= options.max_entries,
        forall|i: int|
            0 <= i < n ==> {
                let entry = #[trigger] entries[i];
                let name = entry_name(entry, by_codepage[i]);
                &&& name.len() > 0 && name[0] != '/' && name[0] != '\\'
                &&& paths::is_safe_path(paths::without_dots(paths::components(name)))
                &&& !entry.is_symlink
                &&& entry.unix_mode is Some ==> entry.unix_mode->0 & 0xF000 == 0
                    || entry.unix_mode->0 & 0xF000 == 0x4000 || entry.unix_mode->0 & 0xF000
                    == 0x8000
                &&& entry.method == ZipMethod::Stored || entry.method == ZipMethod::Deflated
                &&& entry.size <= options.max_file_bytes
            },
        entry_bytes(entries, n) <= options.max_total_bytes,
    ensures
        planned(entries, by_codepage, options, n) is Going,
        planned(entries, by_codepage, options, n)->total <= entry_bytes(entries, n),
        options.selection@ is All && !options.flatten_paths ==> planned(
            entries,
            by_codepage,
            options,
            n,
        )->total == entry_bytes(entries, n),
    decreases n,
{
    if n > 0 {
        law_ordinary_archives_are_planned(entries, by_codepage, options, n - 1);
        let before = planned(entries, by_codepage, options, n - 1);
        law_plan_holds_every_wanted_entry(
            entries,
            by_codepage,
            options,
            n - 1,
            before->jobs,
            before->total,
        );
        lemma_no_more_jobs_than_entries(before->jobs, n - 1);
        assert(entries[n - 1].size <= options.max_file_bytes);
    }
}

/// The sizes of the first `n` entries, added up.
pub open spec fn entry_bytes(entries: Seq<ZipEntry>, n: int) -> int
    decreases n,
{
    if n <= 0 {
        0
    } else {
        entry_bytes(entries, n - 1) + entries[n - 1].size
    }
}

/// Jobs in the order of the archive are no more than its entries.
proof fn lemma_no_more_jobs_than_entries(jobs: Seq<JobView>, n: int)
    requires
        0 <= n,
        forall|j: int| 0 <= j < jobs.len() ==> 0 <= (#[trigger] jobs[j]).index < n,
        forall|a: int, b: int|
            0 <= a < b < jobs.len() ==> (#[trigger] jobs[a]).index < (#[trigger] jobs[b]).index,
    ensures
        jobs.len() <= n,
    decreases jobs.len(),
{
    if jobs.len() > 0 {
        let rest = jobs.drop_last();
        assert forall|j: int| 0 <= j < rest.len() implies 0 <= (#[trigger] rest[j]).index < jobs[
        jobs.len() - 1].index by {
            assert(rest[j] == jobs[j]);
        }
        lemma_no_more_jobs_than_entries(rest, jobs[jobs.len() - 1].index);
    }
}

/// Another engine takes over only because of an entry that is compressed in
/// another way.
pub proof fn law_only_other_methods_fall_back(
    entries: Seq<ZipEntry>,
    by_codepage: Seq<Option<Seq<char>>>,
    options: ExtractOptions,
    n: int,
)
    requires
        0 <= n <= entries.len(),
        planned(entries, by_codepage, options, n) is Fallback,
    ensures
        exists|i: int|
            0 <= i < n && (#[trigger] entries[i]).method != ZipMethod::Stored && entries[i].method
                != ZipMethod::Deflated,
    decreases n,
{
    if n > 0 {
        if planned(entries, by_codepage, options, n - 1) is Fallback {
            law_only_other_methods_fall_back(entries, by_codepage, options, n - 1);
        } else {
            assert(entries[n - 1].method == ZipMethod::Other);
        }
    }
}

/// Links and special files are told from plain entries by the kind in the
/// mode: a regular file, a directory and a mode without a kind are plain,
/// whatever the permissions; links, pipes, sockets and devices are not.
pub proof fn law_kinds_of_entries(entry: ZipEntry)
    ensures
        entry.is_symlink ==> is_special(entry),
        !entry.is_symlink && entry.unix_mode is None ==> !is_special(entry),
        !entry.is_symlink && entry.unix_mode is Some ==> is_special(entry) == !(entry.unix_mode->0
            & 0xF000 == 0 || entry.unix_mode->0 & 0xF000 == 0x4000 || entry.unix_mode->0 & 0xF000
            == 0x8000),
{
}

/// A failure of the ZIP reader keeps its meaning: a missing or wrong password
/// asks for one, and what the reader says of another failure is kept.
pub proof fn law_reader_failures_keep_their_meaning(path: Seq<char>, failure: ZipFailure)
    ensures
        failure is InvalidPassword ==> zip_failure_error(path, failure)
            == ErrorView::PasswordRequired,
        failure is Unsupported && failure->Unsupported_0@ == "Password required to decrypt file"@
            ==> zip_failure_error(path, failure) == ErrorView::PasswordRequired,
        failure is Unsupported && failure->Unsupported_0@ != "Password required to decrypt file"@
            && "ZIP metadata"@.is_prefix_of(failure->Unsupported_0@) ==> zip_failure_error(
            path,
            failure,
        ) == ErrorView::LimitExceeded(failure->Unsupported_0@),
        failure is Unsupported && failure->Unsupported_0@ != "Password required to decrypt file"@
            && !"ZIP metadata"@.is_prefix_of(failure->Unsupported_0@) ==> zip_failure_error(
            path,
            failure,
        ) == ErrorView::UnsupportedOption(failure->Unsupported_0@),
        failure is Io ==> zip_failure_error(path, failure) == ErrorView::Io(
            path,
            failure->Io_0@,
        ),
        failure is Other ==> zip_failure_error(path, failure) == ErrorView::InvalidArchive(path),
{
}

// ---------------------------------------------------------------------------
// Sharing out the work
// ---------------------------------------------------------------------------

/// A path as it is compared with others.
pub open spec fn target_key(relative: Seq<Seq<char>>) -> Seq<char> {
    text::unicode_lower(paths::joined_names(relative))
}

/// [`target_key`], executable.
fn key_of(relative: &Vec<String>) -> (key: Vec<char>)
    ensures
        key@ == target_key(text::texts(relative@)),
{
    let shown = paths::path_text(relative);
    text::chars_of(text::unicode_lower_text(shown.as_str()).as_str())
}

/// Whether a job is a file with a key.
pub open spec fn is_file_with(job: JobView, key: Seq<char>) -> bool {
    !job.directory && target_key(job.relative) == key
}

/// Whether a file among the jobs has a key.
pub open spec fn is_file_target(jobs: Seq<JobView>, key: Seq<char>) -> bool {
    exists|f: int| 0 <= f < jobs.len() && is_file_with(#[trigger] jobs[f], key)
}

/// Whether a text is among the keys.
spec fn has_key(keys: Seq<Vec<char>>, key: Seq<char>) -> bool {
    exists|k: int| 0 <= k < keys.len() && (#[trigger] keys[k])@ == key
}

/// Whether the keys are those of the files among the jobs.
spec fn lists_files(keys: Seq<Vec<char>>, jobs: Seq<JobView>) -> bool {
    forall|key: Seq<char>| #[trigger] has_key(keys, key) == is_file_target(jobs, key)
}

/// Keys with one more list the files of one more job.
proof fn lemma_lists_more(keys: Seq<Vec<char>>, more: Seq<Vec<char>>, jobs: Seq<JobView>, n: int)
    requires
        0 <= n < jobs.len(),
        lists_files(keys, jobs.take(n)),
        if jobs[n].directory {
            more == keys
        } else {
            more.len() == keys.len() + 1 && more.drop_last() == keys && more.last()@ == target_key(
                jobs[n].relative,
            )
        },
    ensures
        lists_files(more, jobs.take(n + 1)),
{
    let before = jobs.take(n);
    let now = jobs.take(n + 1);
    assert(now[n] == jobs[n]);
    assert forall|key: Seq<char>| #[trigger] has_key(more, key) == is_file_target(now, key) by {
        assert(has_key(keys, key) == is_file_target(before, key));
        if has_key(more, key) {
            let k = choose|k: int| 0 <= k < more.len() && (#[trigger] more[k])@ == key;
            if k < keys.len() {
                assert(keys[k] == more[k]);
                let f = choose|f: int|
                    0 <= f < before.len() && is_file_with(#[trigger] before[f], key);
                assert(now[f] == before[f]);
            } else {
                assert(is_file_with(now[n], key));
            }
        }
        if is_file_target(now, key) {
            let f = choose|f: int| 0 <= f < now.len() && is_file_with(#[trigger] now[f], key);
            if f < n {
                assert(before[f] == now[f]);
                let k = choose|k: int| 0 <= k < keys.len() && (#[trigger] keys[k])@ == key;
                assert(more[k] == keys[k]);
            } else {
                assert(more[more.len() - 1]@ == key);
            }
        }
    }
}

/// Whether a path lies below a file among the jobs.
pub open spec fn below_a_file(jobs: Seq<JobView>, relative: Seq<Seq<char>>) -> bool {
    exists|l: int|
        0 <= l < relative.len() && is_file_target(jobs, target_key(#[trigger] relative.take(l)))
}

/// Whether no two jobs write to one path, and none lies below another's file.
pub open spec fn targets_are_unique(jobs: Seq<JobView>) -> bool {
    &&& forall|i: int, j: int|
        0 <= i < j < jobs.len() ==> target_key((#[trigger] jobs[i]).relative) != target_key(
            (#[trigger] jobs[j]).relative,
        )
    &&& forall|i: int| 0 <= i < jobs.len() ==> !below_a_file(jobs, (#[trigger] jobs[i]).relative)
}

/// The keys of jobs.
spec fn job_keys(jobs: Seq<JobView>) -> Seq<Seq<char>> {
    Seq::new(jobs.len(), |i: int| target_key(jobs[i].relative))
}

/// Whether neighbours in the order of the keys are the same.
spec fn neighbours_same(keys: Seq<Seq<char>>, order: Seq<usize>, p: int) -> bool {
    keys[order[p] as int] == keys[order[p - 1] as int]
}

/// Keys that are never the same as their neighbours are all different.
proof fn lemma_distinct_keys(keys: Seq<Seq<char>>, order: Seq<usize>, i: int, j: int)
    requires
        keys.len() <= usize::MAX,
        order::covers(order, 0, keys.len() as int),
        order::in_order(keys, order),
        forall|p: int| 0 < p < order.len() ==> !#[trigger] neighbours_same(keys, order, p),
        0 <= i < j < keys.len(),
    ensures
        keys[i] != keys[j],
{
    assert(order.contains(i as usize));
    assert(order.contains(j as usize));
    let p = choose|p: int| 0 <= p < order.len() && order[p] == i as usize;
    let q = choose|q: int| 0 <= q < order.len() && order[q] == j as usize;
    let low = if p < q {
        p
    } else {
        q
    };
    let high = if p < q {
        q
    } else {
        p
    };
    let a = keys[order[low] as int];
    let b = keys[order[low + 1] as int];
    let c = keys[order[high] as int];
    assert(!neighbours_same(keys, order, low + 1));
    assert(order::place_before(keys, order[low] as int, order[low + 1] as int));
    if low + 1 < high {
        assert(order::place_before(keys, order[low + 1] as int, order[high] as int));
    }
    order::lemma_less_total(a, b);
    order::lemma_less_total(b, c);
    if a == c {
        assert(order::less(a, b));
        assert(false);
    }
}

/// Decides whether the jobs can be carried out in any order:
/// [`targets_are_unique`], executable.
pub fn has_unique_targets(jobs: &Vec<Job>) -> (unique: bool)
    ensures
        unique == targets_are_unique(job_views(jobs@)),
{
    let ghost views = job_views(jobs@);
    let size: usize = jobs.len();
    let mut keys: Vec<Vec<char>> = Vec::new();
    let mut file_keys: Vec<Vec<char>> = Vec::new();
    let mut i: usize = 0;
    proof {
        assert forall|key: Seq<char>| #[trigger]
            has_key(file_keys@, key) == is_file_target(views.take(0), key) by {}
    }
    while i < size
        invariant
            i <= size,
            size == jobs@.len(),
            views == job_views(jobs@),
            keys@.len() == i,
            forall|k: int| 0 <= k < i ==> (#[trigger] keys@[k])@ == target_key(views[k].relative),
            lists_files(file_keys@, views.take(i as int)),
        decreases size - i,
    {
        proof {
            assert(views[i as int] == jobs@[i as int]@);
        }
        let key = key_of(&jobs[i].relative);
        let ghost files_before = file_keys@;
        if !jobs[i].directory {
            file_keys.push(key_of(&jobs[i].relative));
            proof {
                assert(file_keys@.drop_last() =~= files_before);
            }
        }
        proof {
            lemma_lists_more(files_before, file_keys@, views, i as int);
        }
        keys.push(key);
        i += 1;
    }
    let order = order::sort_order(&keys);
    let file_order = order::sort_order(&file_keys);
    proof {
        assert(order::keys_of(keys@) =~= job_keys(views));
        assert(views.take(size as int) =~= views);
    }
    let mut at: usize = 0;
    while at < size
        invariant
            at <= size,
            size == jobs@.len(),
            size == keys@.len(),
            size == order@.len(),
            views == job_views(jobs@),
            order::keys_of(keys@) == job_keys(views),
            order::covers(order@, 0, keys@.len() as int),
            order::in_order(job_keys(views), order@),
            forall|p: int|
                0 < p < at ==> !#[trigger] neighbours_same(job_keys(views), order@, p),
        decreases size - at,
    {
        if at > 0 {
            let place: usize = order[at];
            let before: usize = order[at - 1];
            proof {
                assert(order::keys_of(keys@)[place as int] == keys@[place as int]@);
                assert(order::keys_of(keys@)[before as int] == keys@[before as int]@);
            }
            if order::same_chars(keys[place].as_slice(), keys[before].as_slice()) {
                proof {
                    let all = job_keys(views);
                    assert(order::place_before(
                        all,
                        order@[at - 1] as int,
                        order@[at as int] as int,
                    ));
                    order::lemma_less_total(all[before as int], all[place as int]);
                    assert(before < place);
                    assert(target_key(views[before as int].relative) == target_key(
                        views[place as int].relative,
                    ));
                }
                return false;
            }
        }
        at += 1;
    }
    proof {
        assert forall|i: int, j: int| 0 <= i < j < views.len() implies target_key(
            (#[trigger] views[i]).relative,
        ) != target_key((#[trigger] views[j]).relative) by {
            lemma_distinct_keys(job_keys(views), order@, i, j);
            assert(job_keys(views)[i] != job_keys(views)[j]);
        }
    }
    let mut i: usize = 0;
    while i < size
        invariant
            i <= size,
            size == jobs@.len(),
            views == job_views(jobs@),
            order::covers(file_order@, 0, file_keys@.len() as int),
            order::in_order(order::keys_of(file_keys@), file_order@),
            lists_files(file_keys@, views),
            forall|k: int| 0 <= k < i ==> !below_a_file(views, (#[trigger] views[k]).relative),
        decreases size - i,
    {
        proof {
            assert(views[i as int] == jobs@[i as int]@);
        }
        if lies_below_file(&jobs[i].relative, &file_keys, &file_order, jobs) {
            return false;
        }
        i += 1;
    }
    true
}

/// Whether a path lies below a file whose keys are given in order.
fn lies_below_file(
    relative: &Vec<String>,
    file_keys: &Vec<Vec<char>>,
    file_order: &Vec<usize>,
    jobs: &Vec<Job>,
) -> (yes: bool)
    requires
        order::covers(file_order@, 0, file_keys@.len() as int),
        order::in_order(order::keys_of(file_keys@), file_order@),
        lists_files(file_keys@, job_views(jobs@)),
    ensures
        yes == below_a_file(job_views(jobs@), text::texts(relative@)),
{
    let ghost views = job_views(jobs@);
    let ghost names = text::texts(relative@);
    let mut above: Vec<String> = Vec::new();
    let mut l: usize = 0;
    proof {
        assert(text::texts(above@) =~= names.take(0));
    }
    while l < relative.len()
        invariant
            l <= relative@.len(),
            views == job_views(jobs@),
            names == text::texts(relative@),
            text::texts(above@) == names.take(l as int),
            order::covers(file_order@, 0, file_keys@.len() as int),
            order::in_order(order::keys_of(file_keys@), file_order@),
            lists_files(file_keys@, views),
            forall|m: int|
                0 <= m < l ==> !is_file_target(views, target_key(#[trigger] names.take(m))),
        decreases relative@.len() - l,
    {
        let key = key_of(&above);
        let found: bool = order::find_key(file_keys, file_order, key.as_slice());
        proof {
            let wanted = target_key(names.take(l as int));
            assert(key@ == wanted);
            assert(found == has_key(file_keys@, wanted));
        }
        if found {
            return true;
        }
        above.push(relative[l].clone());
        proof {
            assert(text::texts(above@) =~= names.take(l + 1));
        }
        l += 1;
    }
    false
}

/// How many workers extract `jobs` jobs of `total` bytes. Jobs that depend on
/// each other are carried out by one.
pub fn extraction_workers(
    unique: bool,
    total: u64,
    threads: ThreadCount,
    cpus: u32,
    jobs: usize,
) -> (workers: usize)
    ensures
        workers == if unique {
            zip_creation::compress_workers(total, threads.threads(cpus), jobs as int)
        } else {
            1
        },
        1 <= workers <= zip_creation::MAX_COMPRESS_WORKERS,
{
    if unique {
        zip_creation::compression_workers(total, threads, cpus, jobs)
    } else {
        1
    }
}

/// How many jobs are made ready at a time.
pub fn batch_size(workers: usize) -> (size: usize)
    requires
        1 <= workers <= zip_creation::MAX_COMPRESS_WORKERS,
    ensures
        size == if workers == 1 {
            1
        } else {
            workers * 32
        },
{
    if workers == 1 {
        1
    } else {
        workers * 32
    }
}

/// How many of the jobs that are ready one worker gets.
pub fn chunk_size(ready: usize, workers: usize) -> (size: usize)
    requires
        workers > 0,
    ensures
        size == if ready == 0 {
            1
        } else {
            (ready + workers - 1) / workers as int
        },
{
    if ready == 0 {
        return 1;
    }
    proof {
        let n = ready as int;
        let w = workers as int;
        let q = (n - 1) / w;
        assert((n + w - 1) == (n - 1) + w);
        vstd::arithmetic::div_mod::lemma_div_plus_one(n - 1, w);
        assert((w + (n - 1)) / w == 1 + q);
        assert(q <= n - 1) by (nonlinear_arith)
            requires
                q == (n - 1) / w,
                w > 0,
                n >= 1,
        ;
    }
    (ready - 1) / workers + 1
}

// ---------------------------------------------------------------------------
// Extracting
// ---------------------------------------------------------------------------

/// Notes that `amount` more bytes of a job were extracted, `current` in all,
/// and whether the job is done. The bytes of all jobs together are limited.
pub fn advance(
    snapshot: &mut ProgressSnapshot,
    max_bytes: u64,
    job: &Job,
    current: u64,
    amount: u64,
    finished: bool,
) -> (noted: ArchiveResult<()>)
    requires
        old(snapshot).entries_processed < u64::MAX,
    ensures
        ({
            let sum = file_ops::limited_sum(
                old(snapshot).bytes_processed,
                amount,
                max_bytes,
                "ZIP extracted bytes"@,
            );
            match noted {
                Err(error) => sum == Err::<u64, ErrorView>(error@) && *final(snapshot) == *old(
                    snapshot,
                ),
                Ok(_) => sum is Ok && final(snapshot)@ == (SnapshotView {
                    bytes_processed: sum->Ok_0,
                    current_file: paths::joined_names(text::texts(job.relative@)),
                    current_file_bytes_processed: current,
                    current_file_total_bytes: Some(job.size),
                    entries_processed: if finished {
                        (old(snapshot).entries_processed + 1) as u64
                    } else {
                        old(snapshot).entries_processed
                    },
                    ..old(snapshot)@
                }),
            }
        }),
{
    let sum: u64 = match file_ops::checked_add_with_limit(
        snapshot.bytes_processed,
        amount,
        max_bytes,
        "ZIP extracted bytes",
    ) {
        Ok(sum) => sum,
        Err(error) => {
            return Err(error);
        },
    };
    snapshot.bytes_processed = sum;
    snapshot.current_file = paths::path_text(&job.relative);
    snapshot.current_file_bytes_processed = current;
    snapshot.current_file_total_bytes = Some(job.size);
    if finished {
        snapshot.entries_processed = snapshot.entries_processed + 1;
    }
    Ok(())
}

/// Stops the extraction of a file when the user cancelled or another worker
/// failed.
pub fn may_go_on(cancelled: bool, stopped: bool) -> (go_on: ArchiveResult<()>)
    ensures
        match go_on {
            Ok(_) => !cancelled && !stopped,
            Err(error) => (cancelled || stopped) && error@ == ErrorView::Cancelled,
        },
{
    if cancelled || stopped {
        Err(ArchiveError::Cancelled)
    } else {
        Ok(())
    }
}

/// The extraction of one file.
#[derive(Debug)]
pub struct FileExtraction {
    pub target: String,
    /// The size that the archive declares.
    pub size: u64,
    pub max_file_bytes: u64,
    /// The bytes so far.
    pub current: u64,
}

impl FileExtraction {
    /// Never more bytes than declared, nor than allowed.
    pub open spec fn valid(self) -> bool {
        self.current <= self.size && self.current <= self.max_file_bytes
    }

    /// Begins to extract a file.
    pub fn start(target: String, size: u64, max_file_bytes: u64) -> (file: FileExtraction)
        ensures
            file.valid(),
            file.target == target,
            file.size == size,
            file.max_file_bytes == max_file_bytes,
            file.current == 0,
    {
        FileExtraction { target, size, max_file_bytes, current: 0 }
    }

    /// Takes `amount` bytes that were read; none means that the file is over.
    /// Returns whether the bytes are to be written, or that the file is
    /// complete.
    pub fn take(&mut self, amount: u64) -> (more: ArchiveResult<bool>)
        requires
            old(self).valid(),
        ensures
            ({
                let sum = file_ops::limited_sum(
                    old(self).current,
                    amount,
                    old(self).max_file_bytes,
                    "ZIP file bytes"@,
                );
                match more {
                    Ok(more) => {
                        &&& more == (amount > 0)
                        &&& sum == Ok::<u64, ErrorView>(final(self).current)
                        &&& final(self).valid()
                        &&& !more ==> final(self).current == final(self).size
                        &&& *final(self) == (FileExtraction {
                            current: final(self).current,
                            ..*old(self)
                        })
                    },
                    Err(error) => {
                        &&& *final(self) == *old(self)
                        &&& if sum is Err {
                            sum == Err::<u64, ErrorView>(error@)
                        } else {
                            &&& error@ == ErrorView::InvalidArchive(old(self).target@)
                            &&& if amount == 0 {
                                old(self).current != old(self).size
                            } else {
                                sum->Ok_0 > old(self).size
                            }
                        }
                    },
                }
            }),
    {
        if amount == 0 {
            if self.current != self.size {
                return Err(ArchiveError::InvalidArchive(self.target.clone()));
            }
            return Ok(false);
        }
        match file_ops::checked_add_with_limit(
            self.current,
            amount,
            self.max_file_bytes,
            "ZIP file bytes",
        ) {
            Err(error) => Err(error),
            Ok(sum) => {
                if sum > self.size {
                    return Err(ArchiveError::InvalidArchive(self.target.clone()));
                }
                self.current = sum;
                Ok(true)
            },
        }
    }
}

/// The error of the first worker, from `i` on, that failed for its own
/// reason; else cancellation, where a worker reports it.
pub open spec fn batch_error(results: Seq<ArchiveResult<()>>, n: int) -> Option<ErrorView>
    decreases n,
{
    if n <= 0 {
        None
    } else {
        let before = batch_error(results, n - 1);
        match results[n - 1] {
            Ok(_) => before,
            Err(error) => if before is None || before == Some(ErrorView::Cancelled) {
                Some(error@)
            } else {
                before
            },
        }
    }
}

/// What the workers' results of a batch come to. A failure stops the other
/// workers, which report cancellation; the failure itself is reported.
pub fn batch_outcome(cancelled: bool, results: Vec<ArchiveResult<()>>) -> (outcome: ArchiveResult<
    (),
>)
    ensures
        match outcome {
            Ok(_) => !cancelled && batch_error(results@, results@.len() as int) is None,
            Err(error) => error@ == if cancelled {
                ErrorView::Cancelled
            } else {
                batch_error(results@, results@.len() as int)->0
            } && (cancelled || batch_error(results@, results@.len() as int) is Some),
        },
{
    if cancelled {
        return Err(ArchiveError::Cancelled);
    }
    let ghost all = results@;
    let mut left: Vec<ArchiveResult<()>> = results;
    let mut failed: Option<ArchiveError> = None;
    let ghost mut taken: int = 0;
    proof {
        assert(all.subrange(0, all.len() as int) =~= all);
    }
    while left.len() > 0
        invariant
            0 <= taken <= all.len(),
            left@ == all.subrange(taken, all.len() as int),
            extracting::option_error(failed) == batch_error(all, taken),
        decreases left@.len(),
    {
        let result = left.remove(0);
        proof {
            assert(result == all[taken]);
            taken = taken + 1;
            assert(left@ =~= all.subrange(taken, all.len() as int));
        }
        if let Err(error) = result {
            let replace: bool = match &failed {
                None => true,
                Some(earlier) => earlier.is_cancelled(),
            };
            if replace {
                failed = Some(error);
            }
        }
    }
    match failed {
        Some(error) => Err(error),
        None => Ok(()),
    }
}

/// A failure is reported even though it makes other workers stop: where any
/// worker failed for its own reason, the error is not cancellation.
pub proof fn law_failure_outranks_cancellation(results: Seq<ArchiveResult<()>>, n: int, i: int)
    requires
        0 <= i < n <= results.len(),
        results[i] is Err,
        results[i]->Err_0@ != ErrorView::Cancelled,
    ensures
        batch_error(results, n) is Some,
        batch_error(results, n) != Some(ErrorView::Cancelled),
    decreases n,
{
    if i < n - 1 {
        law_failure_outranks_cancellation(results, n - 1, i);
    }
}

/// The summary of an extraction, by its last snapshot.
pub fn extraction_summary(snapshot: &ProgressSnapshot, skipped: u64) -> (summary: OperationSummary)
    ensures
        summary@ == (SummaryView {
            entries_processed: snapshot.entries_processed,
            entries_skipped: skipped,
            bytes_processed: snapshot.bytes_processed,
            warning: None,
        }),
{
    OperationSummary {
        entries_processed: snapshot.entries_processed,
        entries_skipped: skipped,
        bytes_processed: snapshot.bytes_processed,
        warning: None,
    }
}

/// Two jobs with one path are not unique, nor is a job below the file of
/// another; a single job is.
pub proof fn law_targets_that_are_unique(jobs: Seq<JobView>, i: int, j: int, l: int)
    requires
        0 <= i < jobs.len(),
        0 <= j < jobs.len(),
    ensures
        i != j && jobs[i].relative == jobs[j].relative ==> !targets_are_unique(jobs),
        i != j && target_key(jobs[i].relative) == target_key(jobs[j].relative)
            ==> !targets_are_unique(jobs),
        !jobs[i].directory && 0 <= l < jobs[j].relative.len() && jobs[i].relative
            == jobs[j].relative.take(l) ==> !targets_are_unique(jobs),
        jobs.len() == 1 && jobs[0].directory ==> targets_are_unique(jobs),
        (forall|a: int, b: int|
            0 <= a < b < jobs.len() ==> target_key((#[trigger] jobs[a]).relative) != target_key(
                (#[trigger] jobs[b]).relative,
            )) && (forall|a: int| 0 <= a < jobs.len() ==> (#[trigger] jobs[a]).relative.len() == 1)
            && (forall|a: int| 0 <= a < jobs.len() ==> target_key((#[trigger] jobs[a]).relative)
            != target_key(Seq::empty())) ==> targets_are_unique(jobs),
{
    if i != j && target_key(jobs[i].relative) == target_key(jobs[j].relative) {
        if i < j {
            assert(target_key(jobs[i].relative) == target_key(jobs[j].relative));
        } else {
            assert(target_key(jobs[j].relative) == target_key(jobs[i].relative));
        }
    }
    if !jobs[i].directory && 0 <= l < jobs[j].relative.len() && jobs[i].relative
        == jobs[j].relative.take(l) {
        let above = jobs[j].relative.take(l);
        assert(is_file_with(jobs[i], target_key(above)));
        assert(is_file_target(jobs, target_key(above)));
        assert(below_a_file(jobs, jobs[j].relative));
    }
    assert forall|a: int|
        0 <= a < jobs.len() && (#[trigger] jobs[a]).relative.len() == 1 && below_a_file(
            jobs,
            jobs[a].relative,
        ) implies is_file_target(jobs, target_key(Seq::empty())) by {
        let l = choose|l: int|
            0 <= l < jobs[a].relative.len() && is_file_target(
                jobs,
                target_key(#[trigger] jobs[a].relative.take(l)),
            );
        assert(jobs[a].relative.take(l) =~= Seq::<Seq<char>>::empty());
    }
    if jobs.len() == 1 && jobs[0].directory {
        assert forall|a: int| 0 <= a < jobs.len() implies !below_a_file(
            jobs,
            (#[trigger] jobs[a]).relative,
        ) by {
            assert(a == 0);
        }
    }
}

} // verus!
