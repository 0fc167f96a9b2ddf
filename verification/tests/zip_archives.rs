use archive_rclick::error::{ArchiveError, ArchiveResult};
use archive_rclick::options::{
    ConflictChoice, CreateFormat, CreateOptions, ExtractOptions, ExtractSelection, RuntimePolicy,
    ThreadCount, ZipBackend,
};
use archive_rclick::pipeline::{pipeline_outcome, OrderedPipeline};
use archive_rclick::progress::{ProgressPhase, ProgressSnapshot};
use archive_rclick::source::{SourceItem, SourceKind};
use archive_rclick::stamps::{zip_stamp, DosStamp, FIRST_SECOND, LAST_SECOND};
use archive_rclick::zip_creation::{
    check_duplicate_names, check_zip_request, compression_workers, entry_options,
    group_buffer_size, group_items, group_target, zip_creation_outcome, zip_finished, zip_parent,
    zip_summary, zip_writer_error,
};
use archive_rclick::zip_extraction::{
    batch_outcome, batch_size, chunk_size, extraction_summary, extraction_workers,
    has_unique_targets, may_go_on, modified_time, plan_zip_extraction, zip_error, FileExtraction, Job, ZipEntry,
    ZipFailure, ZipMethod, ZipPlan,
};
use archive_rclick::zip_file::{CreateOutcome, FileRun, FileStage, Leftover};
use archive_rclick::zip_item::{ItemRun, ItemStage};
use archive_rclick::zip_names::{
    crc32, decode_zip_name, detect_zip_codepage, directory_within_limits, effective_zip_codepage, find_zip_eocd,
    layout_is_readable, read_locator, read_u16, read_u32, read_u64, read_zip64_record,
    read_zip_name_records, tail_length, unicode_path_extra, zip_directory_layout,
    DetectedEncoding, DirectoryRequest, ZipDirectoryLayout, ZipNameRecord,
};
use archive_rclick::zip_run::{
    in_the_way, plan_compression, prepare_job, JobAction, Prepared, ZipCreateRun, ZipCreateStage,
    ZipExtractRun, ZipExtractStage,
};
use archive_rclick::extracting::TargetState;
use archive_rclick::format::ReadFormat;
use archive_rclick::zip_creation;
use archive_rclick::zip_extraction;
use std::io::{Cursor, Write};

fn archive(entries: &[(&str, &[u8])]) -> Vec<u8> {
    let mut writer = zip::ZipWriter::new(Cursor::new(Vec::new()));
    for (name, bytes) in entries {
        let options = zip::write::SimpleFileOptions::default()
            .compression_method(zip::CompressionMethod::Deflated);
        writer.start_file(*name, options).unwrap();
        writer.write_all(bytes).unwrap();
    }
    writer.finish().unwrap().into_inner()
}

/// The entries of an archive as the ZIP reader tells them.
fn entries(bytes: &[u8]) -> Vec<ZipEntry> {
    let mut reader = zip::ZipArchive::new(Cursor::new(bytes)).unwrap();
    let count = reader.len();
    (0..count)
        .map(|index| {
            let entry = reader.by_index_raw(index).unwrap();
            let raw_name = entry.name_raw().to_vec();
            ZipEntry {
                name: String::from_utf8_lossy(&raw_name).into_owned(),
                raw_name,
                has_unicode_name: entry.flags().as_u16() & 0x800 != 0,
                is_symlink: entry.is_symlink(),
                unix_mode: entry.unix_mode(),
                method: match entry.compression() {
                    zip::CompressionMethod::Stored => ZipMethod::Stored,
                    zip::CompressionMethod::Deflated => ZipMethod::Deflated,
                    _ => ZipMethod::Other,
                },
                is_dir: entry.is_dir(),
                size: entry.size(),
                modified_unix_seconds: None,
            }
        })
        .collect()
}

fn plan(bytes: &[u8], options: &ExtractOptions) -> ArchiveResult<Option<ZipPlan>> {
    let entries = entries(bytes);
    let none: Vec<Option<String>> = entries.iter().map(|_| None).collect();
    plan_zip_extraction(&entries, &none, options)
}

fn texts(list: &[&str]) -> Vec<String> {
    list.iter().map(|text| (*text).to_owned()).collect()
}

fn item(name: &str, size: u64) -> SourceItem {
    SourceItem {
        source: name.to_owned(),
        archive_name: name.to_owned(),
        kind: SourceKind::File,
        size,
        modified_unix_seconds: None,
    }
}

#[test]
fn pipeline_refills_before_slow_group_finishes_and_bounds_spools() {
    let mut pipeline = OrderedPipeline::start(19, 2);
    let mut slots: Vec<Option<usize>> = (0..pipeline.slots).map(Some).collect();
    let mut order = Vec::new();
    let mut peak = slots.len();
    while let Some(slot) = pipeline.next_slot() {
        order.push(slots[slot].take().unwrap());
        if let Some(job) = pipeline.take() {
            // Job 2 starts while job 1 is still in its slot.
            if job == 2 {
                assert_eq!(slots[1], Some(1));
            }
            assert!(slots[slot].is_none());
            slots[slot] = Some(job);
        }
        peak = peak.max(slots.iter().flatten().count());
    }
    assert_eq!(order, (0..19).collect::<Vec<_>>());
    assert!(peak <= 2);
    assert_eq!(slots.iter().flatten().count(), 0);
}

#[test]
fn pipeline_disconnects_pending_workers_on_produce_or_merge_error() {
    for fail_in_producer in [false, true] {
        let mut pipeline = OrderedPipeline::start(19, 4);
        let mut result: ArchiveResult<()> = Ok(());
        while pipeline.next_slot().is_some() && result.is_ok() {
            let index = pipeline.taken;
            let produced: ArchiveResult<usize> = if fail_in_producer && index == 1 {
                Err(ArchiveError::Worker("producer failure".into()))
            } else {
                Ok(index)
            };
            result = match produced {
                Err(error) => Err(error),
                Ok(index) => {
                    if !fail_in_producer && index == 1 {
                        Err(ArchiveError::Worker("merge failure".into()))
                    } else {
                        Ok(())
                    }
                }
            };
            pipeline.take();
        }
        let expected = if fail_in_producer { "producer failure" } else { "merge failure" };
        assert!(matches!(
            pipeline_outcome(result, false),
            Err(ArchiveError::Worker(message)) if message == expected
        ));
    }
    assert!(matches!(
        pipeline_outcome(Ok(()), true),
        Err(ArchiveError::Worker(message)) if message == "ZIP compression worker panicked"
    ));
    assert!(pipeline_outcome(Ok(()), false).is_ok());
}

#[test]
fn extraction_rejects_traversal_symlinks_and_declared_limits() {
    for name in ["../escape", "/absolute", "C:/outside", "file:stream"] {
        let bytes = archive(&[(name, b"bad")]);
        assert!(matches!(
            plan(&bytes, &ExtractOptions::default()),
            Err(ArchiveError::UnsafeEntryPath(path)) if path == name
        ));
    }
    let bytes = archive(&[("a", b"123456"), ("b", b"123456")]);
    for options in [
        ExtractOptions { max_file_bytes: 5, ..Default::default() },
        ExtractOptions { max_total_bytes: 10, ..Default::default() },
        ExtractOptions { max_entries: 1, ..Default::default() },
    ] {
        assert!(matches!(plan(&bytes, &options), Err(ArchiveError::LimitExceeded(_))));
    }
    let mut writer = zip::ZipWriter::new(Cursor::new(Vec::new()));
    writer
        .add_symlink("link", "outside", zip::write::SimpleFileOptions::default())
        .unwrap();
    let bytes = writer.finish().unwrap().into_inner();
    assert!(matches!(
        plan(&bytes, &ExtractOptions::default()),
        Err(ArchiveError::UnsafeEntryType(name)) if name == "link"
    ));
}

#[test]
fn selections_and_flattening_shape_the_plan() {
    let bytes = archive(&[("a/same", b"first"), ("b/same", b"second")]);
    let mut options = ExtractOptions { flatten_paths: true, ..Default::default() };
    let jobs = plan(&bytes, &options).unwrap().unwrap();
    assert_eq!(jobs.total, 11);
    assert_eq!(jobs.jobs[0].relative, texts(&["same"]));
    assert_eq!(jobs.jobs[1].relative, texts(&["same"]));
    assert!(!has_unique_targets(&jobs.jobs));
    options.selection = ExtractSelection::Paths(vec![texts(&["a"])]);
    let jobs = plan(&bytes, &options).unwrap().unwrap();
    assert_eq!(jobs.jobs.len(), 1);
    assert_eq!(jobs.jobs[0].index, 0);
    options.flatten_paths = false;
    let jobs = plan(&bytes, &options).unwrap().unwrap();
    assert_eq!(jobs.jobs[0].relative, texts(&["a", "same"]));
    assert!(has_unique_targets(&jobs.jobs));
    let mut other = entries(&bytes);
    other[1].method = ZipMethod::Other;
    let none: Vec<Option<String>> = vec![None, None];
    assert!(plan_zip_extraction(&other, &none, &ExtractOptions::default()).unwrap().is_none());
}

#[test]
fn legacy_zip_names_use_the_selected_codepage() {
    let mut bytes = archive(&[("1234.txt", b"content")]);
    let central = bytes.windows(4).position(|b| b == b"PK\x01\x02").unwrap();
    let name = b"\xc7\xd1\xb1\xdb.txt";
    bytes[30..38].copy_from_slice(name);
    bytes[central + 46..central + 54].copy_from_slice(name);
    let records = read_zip_name_records(&bytes).unwrap();
    assert_eq!(records.len(), 1);
    assert_eq!(records[0].raw_name, name.to_vec());
    let detected = vec![DetectedEncoding::Codepage(949)];
    for codepage in [0, 949] {
        let chosen = effective_zip_codepage(ReadFormat::Zip, codepage, Some((&records, &detected)));
        assert_eq!(chosen, 949);
    }
    let by_codepage = Some("한글.txt".to_owned());
    assert_eq!(decode_zip_name(&records[0], &by_codepage).unwrap(), "한글.txt");
    let found = entries(&bytes);
    let jobs = plan_zip_extraction(&found, &vec![by_codepage], &ExtractOptions::default())
        .unwrap()
        .unwrap();
    assert_eq!(jobs.jobs[0].relative, texts(&["한글.txt"]));
}

#[test]
fn unicode_names_go_before_raw_names() {
    let record = |flags: u16, raw: &[u8], unicode: Option<&str>| ZipNameRecord {
        raw_name: raw.to_vec(),
        flags,
        unicode_name: unicode.map(str::to_owned),
    };
    let page = Some("page".to_owned());
    assert_eq!(decode_zip_name(&record(0, b"x", Some("유")), &page).unwrap(), "유");
    assert_eq!(decode_zip_name(&record(0x800, "한".as_bytes(), None), &page).unwrap(), "한");
    assert_eq!(decode_zip_name(&record(0x800, b"a\xff", None), &page).unwrap(), "a\u{fffd}");
    assert_eq!(decode_zip_name(&record(0, b"x", None), &page).unwrap(), "page");
    assert_eq!(decode_zip_name(&record(0, b"x", None), &None), None);
    assert_eq!(crc32(b"123456789"), 0xCBF4_3926);
    let mut extra = vec![0x75, 0x70, 8, 0, 1];
    extra.extend(crc32(b"raw").to_le_bytes());
    extra.extend("유".as_bytes());
    assert_eq!(unicode_path_extra(b"raw", &extra), Some("유".to_owned()));
    assert_eq!(unicode_path_extra(b"other", &extra), None);
    let last = extra.len() - 1;
    extra[last] = 0xFF;
    assert_eq!(unicode_path_extra(b"raw", &extra), None);
}

#[test]
fn names_vote_for_a_codepage() {
    let record = |flags: u16, raw: &[u8]| ZipNameRecord {
        raw_name: raw.to_vec(),
        flags,
        unicode_name: None,
    };
    let records = vec![
        record(0, b"\xc7\xd1"),
        record(0, b"abc"),
        record(0x800, b"\xff\xff\xff\xff"),
    ];
    let detected = vec![
        DetectedEncoding::Codepage(949),
        DetectedEncoding::Codepage(932),
        DetectedEncoding::Codepage(1252),
    ];
    assert_eq!(detect_zip_codepage(&records, &detected), 949);
    let even = vec![record(0, b"\xc7"), record(0, b"\xd1")];
    let detected = vec![DetectedEncoding::Codepage(932), DetectedEncoding::Codepage(949)];
    assert_eq!(detect_zip_codepage(&even, &detected), 949);
    let detected = vec![DetectedEncoding::Utf8, DetectedEncoding::Utf16Le];
    assert_eq!(detect_zip_codepage(&even, &detected), 0);
    assert_eq!(effective_zip_codepage(ReadFormat::SevenZip, 949, None), 949);
}

#[test]
fn numbers_are_read_low_byte_first() {
    let bytes = [1, 2, 3, 4, 5, 6, 7, 8];
    assert_eq!(read_u16(&bytes, 1), Some(0x0302));
    assert_eq!(read_u32(&bytes, 4), Some(0x0807_0605));
    assert_eq!(read_u64(&bytes, 0), Some(0x0807_0605_0403_0201));
    assert_eq!(read_u32(&bytes, 5), None);
    assert_eq!(read_u64(&bytes, usize::MAX), None);
}

#[test]
fn directories_are_found_from_the_end() {
    let bytes = archive(&[("a", b"1"), ("b", b"2")]);
    let at = find_zip_eocd(&bytes).unwrap();
    assert_eq!(at, bytes.len() - 22);
    let layout = match zip_directory_layout(&bytes[at..], at as u64) {
        DirectoryRequest::Layout(layout) => layout,
        other => panic!("{other:?}"),
    };
    assert_eq!(layout.entries, 2);
    assert!(layout_is_readable(layout, bytes.len() as u64));
    assert!(!layout_is_readable(
        ZipDirectoryLayout { entries: 1_000_001, ..layout },
        bytes.len() as u64
    ));
    assert_eq!(find_zip_eocd(b"not an archive at all, nowhere"), None);
    assert!(read_zip_name_records(b"").is_none());
    assert!(read_zip_name_records(&bytes[..bytes.len() - 1]).is_none());
    assert_eq!(tail_length(100), 100);
    assert_eq!(tail_length(1_000_000), 65_557);
    let names: Vec<Vec<u8>> = read_zip_name_records(&bytes)
        .unwrap()
        .into_iter()
        .map(|record| record.raw_name)
        .collect();
    assert_eq!(names, vec![b"a".to_vec(), b"b".to_vec()]);
}

#[test]
fn large_directories_have_a_second_record() {
    let mut eocd = vec![0x50, 0x4B, 5, 6];
    eocd.extend([0, 0, 0, 0]);
    eocd.extend([0xFF, 0xFF, 0xFF, 0xFF]);
    eocd.extend([0xFF; 8]);
    eocd.extend([0, 0]);
    assert_eq!(zip_directory_layout(&eocd, 20), DirectoryRequest::Locator(0));
    assert_eq!(zip_directory_layout(&eocd, 19), DirectoryRequest::Malformed);
    let mut locator = vec![0x50, 0x4B, 6, 7];
    locator.extend(0u32.to_le_bytes());
    locator.extend(44u64.to_le_bytes());
    locator.extend(1u32.to_le_bytes());
    assert_eq!(read_locator(&locator, 100), Some(44));
    let mut record = vec![0x50, 0x4B, 6, 6];
    record.extend(44u64.to_le_bytes());
    record.extend([0; 4]);
    record.extend([0; 8]);
    record.extend(7u64.to_le_bytes());
    record.extend(7u64.to_le_bytes());
    record.extend(50u64.to_le_bytes());
    record.extend(60u64.to_le_bytes());
    assert_eq!(
        read_zip64_record(&record),
        Some(ZipDirectoryLayout { entries: 7, size: 50, offset: 60 })
    );
}

#[test]
fn reader_failures_become_errors() {
    let error = |failure: ZipFailure| zip_error("a.zip", failure);
    assert!(matches!(error(ZipFailure::InvalidPassword), ArchiveError::PasswordRequired));
    assert!(matches!(
        error(ZipFailure::Unsupported("Password required to decrypt file".to_owned())),
        ArchiveError::PasswordRequired
    ));
    assert!(matches!(
        error(ZipFailure::Unsupported("ZIP metadata exceeds".to_owned())),
        ArchiveError::LimitExceeded(message) if message == "ZIP metadata exceeds"
    ));
    assert!(matches!(
        error(ZipFailure::Unsupported("odd".to_owned())),
        ArchiveError::UnsupportedOption(message) if message == "odd"
    ));
    assert!(matches!(
        error(ZipFailure::Io("gone".to_owned())),
        ArchiveError::Io { path, message } if path == "a.zip" && message == "gone"
    ));
    assert!(matches!(
        error(ZipFailure::Other),
        ArchiveError::InvalidArchive(path) if path == "a.zip"
    ));
}

#[test]
fn files_end_where_they_say() {
    let mut file = FileExtraction::start("out/a".to_owned(), 6, 100);
    assert!(file.take(4).unwrap());
    assert!(matches!(
        file.take(0),
        Err(ArchiveError::InvalidArchive(target)) if target == "out/a"
    ));
    assert!(matches!(file.take(3), Err(ArchiveError::InvalidArchive(_))));
    assert!(file.take(2).unwrap());
    assert!(!file.take(0).unwrap());
    let mut small = FileExtraction::start("out/b".to_owned(), 6, 5);
    assert!(matches!(small.take(6), Err(ArchiveError::LimitExceeded(_))));
}

#[test]
fn failures_outrank_cancellation() {
    let failed = || Err(ArchiveError::Worker("bad".to_owned()));
    assert!(matches!(
        batch_outcome(false, vec![Ok(()), Err(ArchiveError::Cancelled), failed()]),
        Err(ArchiveError::Worker(_))
    ));
    assert!(matches!(
        batch_outcome(false, vec![Ok(()), Err(ArchiveError::Cancelled)]),
        Err(ArchiveError::Cancelled)
    ));
    assert!(matches!(batch_outcome(true, vec![failed()]), Err(_)));
    assert!(batch_outcome(false, vec![Ok(()), Ok(())]).is_ok());
    assert!(may_go_on(false, false).is_ok());
    assert!(matches!(may_go_on(false, true), Err(ArchiveError::Cancelled)));
}

#[test]
fn work_is_shared_out() {
    assert_eq!(extraction_workers(true, 0x3_FFFF, ThreadCount::Four, 8, 100), 1);
    assert_eq!(extraction_workers(true, 0x4_0000, ThreadCount::Four, 8, 100), 4);
    assert_eq!(extraction_workers(true, 0x4_0000, ThreadCount::Four, 8, 2), 2);
    assert_eq!(extraction_workers(false, 0x4_0000, ThreadCount::Four, 8, 100), 1);
    assert_eq!(compression_workers(0x4_0000, ThreadCount::Exact(100), 8, 1000), 32);
    assert_eq!(compression_workers(0x4_0000, ThreadCount::Exact(3), 8, 2), 2);
    assert_eq!(group_target(0, 4), 0x4_0000);
    assert_eq!(group_target(u64::MAX, 4), 0x80_0000);
    assert_eq!(group_target(0x400_0000, 32), 0x20_0000);
    assert_eq!((batch_size(1), batch_size(4)), (1, 128));
    assert_eq!(chunk_size(10, 4), 3);
    let items = vec![item("a", 10), item("b", 10), item("c", 25), item("d", 1)];
    assert_eq!(group_items(&items, 20), vec![(0, 2), (2, 3), (3, 4)]);
    assert_eq!(group_buffer_size(&items, 0, 4), 0x1000);
    let plan = plan_compression(&items, 46, ThreadCount::Auto, 8);
    assert_eq!(plan.workers, 1);
}

#[test]
fn entries_are_written_as_options_say() {
    let mut options = CreateOptions { format: CreateFormat::Zip, ..Default::default() };
    options.compression_level = 0;
    let entry = entry_options(&item("a", 0x7FFF_FFFF), &options, None);
    assert_eq!(entry.level, None);
    assert!(entry.large_file && !entry.directory && !entry.encrypted);
    options.compression_level = 7;
    options.password = Some("p".to_owned());
    let entry = entry_options(&item("a", 1), &options, Some(1_700_000_000));
    assert_eq!(entry.level, Some(7));
    assert!(!entry.large_file && entry.encrypted);
    let folder = SourceItem { kind: SourceKind::Directory, ..item("d", 0) };
    let entry = entry_options(&folder, &options, None);
    assert!(entry.directory && !entry.encrypted);
}

#[test]
fn stamps_hold_even_seconds_from_1980_on() {
    // 2023-11-14 22:13:20
    let stamp = zip_stamp(Some(1_700_000_000)).unwrap();
    assert_eq!(
        stamp,
        DosStamp { date: (43 << 9) | (11 << 5) | 14, time: (22 << 11) | (13 << 5) | 10 }
    );
    // 1980-01-01 00:00:00
    assert_eq!(zip_stamp(Some(315_532_800)), Some(DosStamp { date: 0x21, time: 0 }));
    assert_eq!(zip_stamp(Some(315_532_799)), None);
    // 2024-02-29 23:59:58
    assert_eq!(
        zip_stamp(Some(1_709_251_198)),
        Some(DosStamp { date: (44 << 9) | (2 << 5) | 29, time: (23 << 11) | (59 << 5) | 29 })
    );
    // 2108-01-01 00:00:00
    assert_eq!(zip_stamp(Some(4_354_819_200)), None);
    assert!(zip_stamp(Some(4_354_819_199)).is_some());
    assert_eq!(zip_stamp(Some(FIRST_SECOND - 1)), None);
    assert_eq!(zip_stamp(Some(FIRST_SECOND)), None);
    assert_eq!(zip_stamp(Some(LAST_SECOND + 1)), None);
    assert_eq!(zip_stamp(Some(i64::MAX)), None);
    assert_eq!(zip_stamp(None), None);
}

#[test]
fn zip_requests_are_checked() {
    let options = || CreateOptions { format: CreateFormat::Zip, ..Default::default() };
    assert!(check_zip_request(1, &options()).is_ok());
    for (inputs, bad) in [
        (0, options()),
        (1, CreateOptions { compression_level: 10, ..options() }),
        (1, CreateOptions { split_size: Some(0), ..options() }),
    ] {
        assert!(matches!(
            check_zip_request(inputs, &bad),
            Err(ArchiveError::InvalidInput(message))
                if message == "select inputs, a level from 0 to 9, and a nonzero volume size"
        ));
    }
    assert_eq!(zip_parent(None), ".");
    assert_eq!(zip_parent(Some(String::new())), ".");
    assert_eq!(zip_parent(Some("dir".to_owned())), "dir");
    assert!(check_duplicate_names(&vec![item("a", 1), item("b", 1)]).is_ok());
    assert!(matches!(
        check_duplicate_names(&vec![item("a", 1), item("b", 1), item("a", 2)]),
        Err(ArchiveError::InvalidInput(message)) if message == "duplicate ZIP entry: a"
    ));
    assert!(matches!(
        zip_writer_error("full"),
        ArchiveError::Worker(message) if message == "ZIP creation failed: full"
    ));
    assert!(matches!(
        zip_creation_outcome(true, Err(ArchiveError::PasswordRequired)),
        Err(ArchiveError::Cancelled)
    ));
    assert!(zip_creation_outcome(false, Ok(())).is_ok());
}

#[test]
fn zip_progress_adds_up() {
    let mut snapshot = ProgressSnapshot::new(ProgressPhase::Compressing);
    zip_creation::advance(&mut snapshot, &item("a", 10), 10, 10, true);
    assert_eq!(snapshot.current_file, "a");
    assert_eq!((snapshot.bytes_processed, snapshot.entries_processed), (10, 1));
    assert_eq!(zip_summary(&snapshot).bytes_processed, 10);
    let last = zip_finished(snapshot);
    assert_eq!(last.phase, ProgressPhase::Finished);
    assert_eq!(last.current_file, "");
    let job = Job {
        index: 0,
        relative: texts(&["d", "f"]),
        size: 8,
        directory: false,
        modified_unix_seconds: None,
    };
    let mut snapshot = ProgressSnapshot::new(ProgressPhase::Extracting);
    zip_extraction::advance(&mut snapshot, 8, &job, 8, 8, true).unwrap();
    assert_eq!((snapshot.bytes_processed, snapshot.entries_processed), (8, 1));
    assert!(zip_extraction::advance(&mut snapshot, 8, &job, 9, 1, false).is_err());
    let summary = extraction_summary(&snapshot, 3);
    assert_eq!((summary.entries_processed, summary.entries_skipped), (1, 3));
}

#[test]
fn zip_creation_goes_step_by_step() {
    let options = CreateOptions { format: CreateFormat::Zip, ..Default::default() };
    let mut run = ZipCreateRun::start(false, 1, &options).unwrap();
    assert_eq!(run.stage, ZipCreateStage::MakeParent);
    run.parent_made(Ok(()), Some("a.zip".to_owned()));
    assert_eq!(run.stage, ZipCreateStage::CheckAncestors);
    run.step_done(Ok(()));
    assert_eq!(run.stage, ZipCreateStage::Collect);
    run.collected(Ok((vec![item("a", 3)], 3)));
    assert_eq!(run.stage, ZipCreateStage::OpenOutput);
    run.step_done(Ok(()));
    assert_eq!(run.stage, ZipCreateStage::Write);
    run.written(false, Ok(()));
    assert_eq!(run.stage, ZipCreateStage::CheckAgain);
    run.step_done(Ok(()));
    assert_eq!(run.stage, ZipCreateStage::Install);
    run.step_done(Ok(()));
    assert_eq!(run.stage, ZipCreateStage::Finished);
    assert!(matches!(
        ZipCreateRun::start(true, 1, &options),
        Err(ArchiveError::Cancelled)
    ));
    let mut run = ZipCreateRun::start(false, 1, &options).unwrap();
    run.parent_made(Ok(()), Some("a.zip".to_owned()));
    run.step_done(Ok(()));
    run.collected(Ok((vec![item("a", 3), item("a", 3)], 6)));
    assert_eq!(run.stage, ZipCreateStage::Failed);
    assert!(matches!(run.error, Some(ArchiveError::InvalidInput(_))));
}

#[test]
fn zip_extraction_goes_batch_by_batch() {
    let mut run = ZipExtractRun::start(3, 2);
    assert_eq!(run.stage, ZipExtractStage::Prepare);
    run.job_prepared(false, Ok(Prepared::Skipped));
    run.job_prepared(false, Ok(Prepared::Directory));
    run.job_prepared(false, Ok(Prepared::File));
    assert_eq!(run.stage, ZipExtractStage::ExtractBatch);
    assert_eq!(run.ready, vec![2]);
    assert_eq!(run.skipped, 1);
    run.batch_extracted(false, vec![Ok(())]);
    assert_eq!(run.stage, ZipExtractStage::Finish);
    run.finish(false);
    assert_eq!(run.stage, ZipExtractStage::Finished);
    let mut run = ZipExtractRun::start(1, 1);
    run.job_prepared(true, Ok(Prepared::File));
    assert_eq!(run.stage, ZipExtractStage::Failed);
    assert!(matches!(run.error, Some(ArchiveError::Cancelled)));
}

fn file_run(has_time: bool) -> FileRun {
    let mut run = FileRun::start(false, "out/a".to_owned(), 7, 100, has_time).unwrap();
    run.step_done(Ok(()));
    assert_eq!(run.stage, FileStage::CreateTarget);
    run
}

#[test]
fn existing_files_are_replaced_when_the_contents_are_complete() {
    let mut run = file_run(true);
    run.target_created(CreateOutcome::Exists);
    assert_eq!(run.leftover(), None);
    run.step_done(Ok(()));
    run.step_done(Ok(()));
    run.bytes_read(false, Ok(7));
    assert_eq!(run.stage, FileStage::Count(7));
    run.step_done(Ok(()));
    assert_eq!(run.stage, FileStage::Write(7));
    run.step_done(Ok(()));
    run.bytes_read(false, Ok(0));
    assert_eq!(run.stage, FileStage::SetTime);
    run.step_done(Ok(()));
    run.checked(false);
    assert_eq!(run.stage, FileStage::Install);
    assert_eq!(run.leftover(), Some(Leftover::Temporary));
    run.step_done(Ok(()));
    run.step_done(Ok(()));
    assert_eq!(run.stage, FileStage::Finished);
    assert_eq!(run.leftover(), None);
}

#[test]
fn corrupted_or_cancelled_files_do_not_replace_others() {
    // The contents end too early.
    let mut run = file_run(false);
    run.target_created(CreateOutcome::Exists);
    run.step_done(Ok(()));
    run.step_done(Ok(()));
    run.bytes_read(false, Ok(0));
    assert!(matches!(run.error, Some(ArchiveError::InvalidArchive(_))));
    assert_eq!(run.leftover(), Some(Leftover::Temporary));
    // A checksum does not match.
    let mut run = file_run(false);
    run.target_created(CreateOutcome::Created);
    run.step_done(Ok(()));
    run.bytes_read(false, Err(ArchiveError::io("out/a", "Invalid checksum")));
    assert_eq!(run.stage, FileStage::Failed);
    assert_eq!(run.leftover(), Some(Leftover::Target));
    // The extraction is cancelled at the last moment.
    let mut run = file_run(false);
    run.target_created(CreateOutcome::Exists);
    run.step_done(Ok(()));
    run.step_done(Ok(()));
    run.bytes_read(false, Ok(7));
    run.step_done(Ok(()));
    run.step_done(Ok(()));
    run.bytes_read(false, Ok(0));
    assert_eq!(run.stage, FileStage::LastCheck);
    run.checked(true);
    assert!(matches!(run.error, Some(ArchiveError::Cancelled)));
    assert_eq!(run.leftover(), Some(Leftover::Temporary));
    assert!(matches!(
        FileRun::start(true, "a".to_owned(), 1, 1, false),
        Err(ArchiveError::Cancelled)
    ));
    let mut run = file_run(false);
    run.target_created(CreateOutcome::Failed(ArchiveError::io("out/a", "denied")));
    assert_eq!(run.leftover(), None);
}

#[test]
fn new_files_are_written_in_place() {
    let mut run = file_run(false);
    run.target_created(CreateOutcome::Created);
    run.step_done(Ok(()));
    run.bytes_read(false, Ok(7));
    run.step_done(Ok(()));
    run.step_done(Ok(()));
    run.bytes_read(false, Ok(0));
    run.checked(false);
    assert_eq!(run.stage, FileStage::CountDone);
    assert_eq!(run.leftover(), None);
    run.step_done(Ok(()));
    assert_eq!(run.stage, FileStage::Finished);
}

#[test]
fn items_are_read_compressed_and_counted() {
    let mut run = ItemRun::start(false, SourceKind::File, ZipBackend::ZlibNg).unwrap();
    assert_eq!(run.stage, ItemStage::OpenSource);
    run.step_done(Ok(()));
    assert_eq!(run.stage, ItemStage::StartEntry(ZipBackend::ZlibNg));
    run.step_done(Ok(()));
    assert_eq!(run.stage, ItemStage::CountStart);
    run.step_done(Ok(()));
    run.bytes_read(false, Ok(5));
    assert_eq!((run.stage, run.current), (ItemStage::Write(5), 0));
    run.step_done(Ok(()));
    assert_eq!((run.stage, run.current), (ItemStage::Count(5), 5));
    run.step_done(Ok(()));
    run.bytes_read(false, Ok(2));
    run.step_done(Ok(()));
    assert_eq!((run.stage, run.current), (ItemStage::Count(2), 7));
    run.step_done(Ok(()));
    run.bytes_read(false, Ok(0));
    assert_eq!(run.stage, ItemStage::CountDone);
    run.step_done(Ok(()));
    assert_eq!((run.stage, run.current), (ItemStage::Finished, 7));

    let mut run = ItemRun::start(false, SourceKind::Directory, ZipBackend::ZlibRs).unwrap();
    assert_eq!(run.stage, ItemStage::AddDirectory);
    run.step_done(Ok(()));
    assert_eq!(run.stage, ItemStage::Finished);
}

#[test]
fn failed_or_cancelled_items_stop() {
    assert!(matches!(
        ItemRun::start(true, SourceKind::File, ZipBackend::ZlibRs),
        Err(ArchiveError::Cancelled)
    ));
    let mut run = ItemRun::start(false, SourceKind::File, ZipBackend::ZlibRs).unwrap();
    run.step_done(Err(ArchiveError::io("a", "denied")));
    assert_eq!(run.stage, ItemStage::Failed);
    assert!(matches!(run.error, Some(ArchiveError::Io { .. })));
    let mut run = ItemRun::start(false, SourceKind::File, ZipBackend::ZlibRs).unwrap();
    for _ in 0..3 {
        run.step_done(Ok(()));
    }
    run.bytes_read(true, Ok(9));
    assert_eq!((run.stage, run.current), (ItemStage::Failed, 0));
    assert!(matches!(run.error, Some(ArchiveError::Cancelled)));
}

#[test]
fn file_times_become_unix_times() {
    // 1601-01-01, 1970-01-01 and one second later.
    assert_eq!(modified_time(0, 0), -11_644_473_600);
    assert_eq!(modified_time(27_111_902, 3_577_643_008), 0);
    assert_eq!(modified_time(27_111_902, 3_587_643_008), 1);
}

#[test]
fn conflicts_decide_how_jobs_are_made_ready() {
    let exists = || TargetState::Exists { reparse: false };
    let mut policy = RuntimePolicy::Ask;
    assert!(matches!(
        prepare_job(true, TargetState::Missing, &mut policy, None),
        JobAction::MakeDirectory { replace: false }
    ));
    assert!(matches!(
        prepare_job(false, TargetState::Missing, &mut policy, None),
        JobAction::MakeParents
    ));
    assert!(matches!(prepare_job(false, exists(), &mut policy, None), JobAction::Ask));
    assert!(matches!(
        prepare_job(false, exists(), &mut policy, Some(ConflictChoice::Skip)),
        JobAction::Skip
    ));
    assert!(matches!(
        prepare_job(false, exists(), &mut policy, Some(ConflictChoice::Cancel)),
        JobAction::Fail(ArchiveError::Cancelled)
    ));
    assert!(matches!(
        prepare_job(false, TargetState::Exists { reparse: true }, &mut policy, None),
        JobAction::RefuseLink
    ));
    let failed = TargetState::Failed(ArchiveError::io("a", "denied"));
    assert!(matches!(
        prepare_job(false, failed, &mut policy, None),
        JobAction::Fail(ArchiveError::Io { .. })
    ));
    assert_eq!(policy, RuntimePolicy::Ask);
    assert!(matches!(
        prepare_job(true, exists(), &mut policy, Some(ConflictChoice::OverwriteAll)),
        JobAction::MakeDirectory { replace: true }
    ));
    assert_eq!(policy, RuntimePolicy::OverwriteAll);
    assert!(matches!(
        prepare_job(false, exists(), &mut policy, None),
        JobAction::MakeParents
    ));
    let mut policy = RuntimePolicy::Ask;
    assert!(matches!(
        prepare_job(false, exists(), &mut policy, Some(ConflictChoice::SkipAll)),
        JobAction::Skip
    ));
    assert!(matches!(prepare_job(true, exists(), &mut policy, None), JobAction::Skip));

    assert!(matches!(in_the_way(true, exists(), true), TargetState::Missing));
    assert!(matches!(in_the_way(true, exists(), false), TargetState::Exists { reparse: false }));
    assert!(matches!(in_the_way(false, exists(), true), TargetState::Exists { reparse: false }));
    assert!(matches!(
        in_the_way(true, TargetState::Exists { reparse: true }, true),
        TargetState::Exists { reparse: true }
    ));
}

#[test]
fn large_directories_are_not_read() {
    let layout = |entries: u64, size: u64| ZipDirectoryLayout { entries, offset: 0, size };
    assert!(directory_within_limits(layout(1_000_000, 0x1000_0000)));
    assert!(!directory_within_limits(layout(1_000_001, 0)));
    assert!(!directory_within_limits(layout(0, 0x1000_0001)));
}

/// Runs jobs through slots that hold one job each.
fn through_slots(
    count: usize,
    workers: usize,
    produce: &dyn Fn(usize) -> Result<usize, String>,
    consume: &dyn Fn(usize) -> Result<(), String>,
) -> (Vec<usize>, Option<String>) {
    let mut pipeline = OrderedPipeline::start(count, workers);
    let mut held: Vec<usize> = (0..pipeline.slots).collect();
    let mut consumed = Vec::new();
    while let Some(slot) = pipeline.next_slot() {
        assert!(pipeline.sent - pipeline.taken <= workers);
        match produce(held[slot]) {
            Err(error) => return (consumed, Some(error)),
            Ok(value) => {
                consumed.push(value);
                if let Err(error) = consume(value) {
                    return (consumed, Some(error));
                }
            }
        }
        if let Some(job) = pipeline.take() {
            held[slot] = job;
        }
    }
    (consumed, None)
}

#[test]
fn the_first_error_by_number_ends_a_pipeline() {
    for workers in 1..6 {
        let fine = through_slots(7, workers, &|job| Ok(job * 10), &|_| Ok(()));
        assert_eq!(fine, (vec![0, 10, 20, 30, 40, 50, 60], None));
        let failed = |job: usize| {
            if job == 3 || job == 5 { Err(format!("job {job}")) } else { Ok(job) }
        };
        assert_eq!(
            through_slots(7, workers, &failed, &|_| Ok(())),
            (vec![0, 1, 2], Some("job 3".to_owned()))
        );
        let refused = |value: usize| if value == 2 { Err("full".to_owned()) } else { Ok(()) };
        assert_eq!(
            through_slots(7, workers, &failed, &refused),
            (vec![0, 1, 2], Some("full".to_owned()))
        );
    }
}
