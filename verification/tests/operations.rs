use archive_rclick::create_run::{CreateRun, CreateStage};
use archive_rclick::creation::{create_items, creation_leftovers, destination_name};
use archive_rclick::error::ArchiveError;
use archive_rclick::extracting::{
    ExtractContext, ExtractItem, ResultDecision, StreamRequest, TargetDecision, TargetState,
};
use archive_rclick::ffi::{PropVariant, E_ABORT, E_INVALIDARG, S_OK};
use archive_rclick::format::ReadFormat;
use archive_rclick::installing::{
    install_temporary, InstallNext, InstallStage, Inspection, RenameOutcome, VolumeAction,
    VolumeInstall,
};
use archive_rclick::listing::{finish_listing, EntryProperties, EntryReader, Property, RepairedPath};
use archive_rclick::options::{
    ArchiveEntry, ArchiveEntryKind, ConflictChoice, CreateFormat, CreateOptions, ExtractOptions,
    ExtractSelection, OperationSummary, RuntimePolicy,
};
use archive_rclick::order::{comes_before, find_key, sort_order};
use archive_rclick::paths::{
    build_path, path_starts_with, path_text, safe_components, safe_relative_path, split_components,
};
use archive_rclick::planning::{
    extracts_in_parallel, finished_extraction, has_parallel_path_conflict, plan_extraction,
    run_outcome,
};
use archive_rclick::progress::{ProgressPhase, ProgressSnapshot};
use archive_rclick::read_run::{prepare_extraction, test_items, ReadKind, ReadRun, ReadStage};
use archive_rclick::source::{
    is_thumbs_db_name, keeps_root, metadata_modified_seconds, FoundEntry, SourceCollector,
    SourceItem, SourceKind,
};
use archive_rclick::target_run::{PreparedDirectories, TargetRun, TargetStep};
use archive_rclick::taskbar::{
    clear, pause, show_fraction, show_indeterminate, TaskbarList, TaskbarState,
};
use archive_rclick::progress::Ratio;
use archive_rclick::updating::{
    update_item_info, update_property, update_stream, InputRequest, UpdateContext,
};
use std::collections::HashSet;

fn texts(list: &[&str]) -> Vec<String> {
    list.iter().map(|text| (*text).to_owned()).collect()
}

fn entry(index: u64, path: &str, size: Option<u64>, kind: ArchiveEntryKind) -> ArchiveEntry {
    ArchiveEntry {
        index,
        path: texts(&path.split('/').collect::<Vec<_>>()),
        display_path: path.to_owned(),
        size,
        compressed_size: None,
        modified_unix_seconds: None,
        kind,
        encrypted: false,
    }
}

fn item(name: &str, kind: SourceKind, size: u64) -> SourceItem {
    SourceItem {
        source: format!("C:\\in\\{name}"),
        archive_name: name.to_owned(),
        kind,
        size,
        modified_unix_seconds: Some(0),
    }
}

fn summary(entries: u64, bytes: u64) -> OperationSummary {
    OperationSummary {
        entries_processed: entries,
        entries_skipped: 0,
        bytes_processed: bytes,
        warning: None,
    }
}

#[test]
fn paths_outside_the_destination_are_refused() {
    for bad in [
        "../escape", "/absolute", "\\absolute", "C:/outside", "file:stream", "a/../b", "NUL",
        "a/con.txt", "Com1 .log", "", "./.", "lpt9",
    ] {
        assert!(
            matches!(safe_relative_path(bad), Err(ArchiveError::UnsafeEntryPath(path)) if path == bad),
            "{bad}"
        );
    }
    assert_eq!(safe_relative_path("a/./b\\c").unwrap(), texts(&["a", "b", "c"]));
    assert_eq!(safe_relative_path("com0").unwrap(), texts(&["com0"]));
    assert_eq!(safe_relative_path("..a").unwrap(), texts(&["..a"]));
    assert!(safe_components(&texts(&["a", ".."]), "a/..").is_err());
    assert_eq!(split_components("/a//b/"), texts(&["a", "b"]));
    assert!(matches!(build_path("///"), Err(ArchiveError::UnsafeEntryPath(_))));
    assert_eq!(build_path("d/C:x/y").unwrap(), texts(&["C:x", "y"]));
    assert!(path_starts_with(&texts(&["a", "b"]), &texts(&["a"])));
    assert!(!path_starts_with(&texts(&["ab"]), &texts(&["a"])));
    assert!(!path_text(&texts(&["a", "b"])).is_empty());
}

#[test]
fn plans_keep_to_the_limits() {
    let entries = vec![
        entry(0, "a", None, ArchiveEntryKind::Directory),
        entry(1, "a/one", Some(6), ArchiveEntryKind::File),
        entry(2, "a/two", Some(5), ArchiveEntryKind::File),
    ];
    let plan = plan_extraction(&entries, &ExtractOptions::default()).unwrap();
    assert_eq!(plan.indices(), vec![0, 1, 2]);
    assert_eq!(plan.bytes, 11);
    assert_eq!(plan.items[1].relative, texts(&["a", "one"]));
    for options in [
        ExtractOptions { max_file_bytes: 5, ..Default::default() },
        ExtractOptions { max_total_bytes: 10, ..Default::default() },
        ExtractOptions { max_entries: 2, ..Default::default() },
    ] {
        assert!(matches!(
            plan_extraction(&entries, &options),
            Err(ArchiveError::LimitExceeded(_))
        ));
    }
    let options = ExtractOptions {
        selection: ExtractSelection::Paths(vec![texts(&["a", "two"])]),
        ..Default::default()
    };
    let plan = plan_extraction(&entries, &options).unwrap();
    assert_eq!(plan.indices(), vec![2]);
    for name in ["../x", "/x", "\\x", "a/NUL.txt", "C:x"] {
        let mut bad = entry(0, name, Some(1), ArchiveEntryKind::File);
        bad.path = split_components(name);
        assert!(matches!(
            plan_extraction(&vec![bad], &ExtractOptions::default()),
            Err(ArchiveError::UnsafeEntryPath(_))
        ));
    }
}

#[test]
fn meeting_paths_are_not_extracted_side_by_side() {
    let conflict = |paths: &[&str]| {
        let entries: Vec<ArchiveEntry> = paths
            .iter()
            .enumerate()
            .map(|(index, path)| entry(index as u64, path, Some(1), ArchiveEntryKind::File))
            .collect();
        let plan = plan_extraction(&entries, &ExtractOptions::default()).unwrap();
        has_parallel_path_conflict(&plan.items, &plan.selected)
    };
    assert!(!conflict(&["a", "b"]));
    assert!(conflict(&["a", "A"]));
    assert!(conflict(&["a", "a/b"]));
    assert!(extracts_in_parallel(ReadFormat::Zip, true, 256));
    assert!(!extracts_in_parallel(ReadFormat::Zip, true, 255));
    assert!(!extracts_in_parallel(ReadFormat::Zip, false, 256));
    assert!(!extracts_in_parallel(ReadFormat::SevenZip, true, 256));
}

#[test]
fn outcomes_name_the_reason() {
    let outcome = |asked: bool, password: Option<&str>, error, cancelled, code| {
        run_outcome(
            "extracting",
            asked,
            &password.map(str::to_owned),
            error,
            cancelled,
            code,
            summary(1, 2),
        )
    };
    assert_eq!(outcome(false, None, None, false, S_OK).unwrap().bytes_processed, 2);
    assert!(matches!(
        outcome(true, None, None, false, E_ABORT),
        Err(ArchiveError::PasswordRequired)
    ));
    assert!(matches!(
        outcome(false, None, Some(ArchiveError::ReparsePoint("x".to_owned())), false, E_ABORT),
        Err(ArchiveError::ReparsePoint(_))
    ));
    assert!(matches!(outcome(false, None, None, true, E_ABORT), Err(ArchiveError::Cancelled)));
    assert!(outcome(false, None, None, false, -1).is_err());
    let last = finished_extraction(3, Some(9), &summary(2, 4));
    assert_eq!(last.phase, ProgressPhase::Finished);
}

fn extract_item(index: u32, is_dir: bool) -> ExtractItem {
    ExtractItem {
        index,
        relative: texts(&["f"]),
        display_path: "f".to_owned(),
        is_dir,
        size: Some(7),
        mtime_unix: None,
    }
}

fn context(policy: RuntimePolicy) -> ExtractContext {
    ExtractContext::new(
        ProgressSnapshot::new(ProgressPhase::Extracting),
        None,
        policy,
        false,
        false,
    )
}

#[test]
fn streams_are_given_for_selected_entries() {
    let items = vec![extract_item(0, false), extract_item(1, true)];
    let selected: HashSet<u32> = [0u32, 1].into_iter().collect();
    let none: HashSet<u32> = HashSet::new();
    let mut c = context(RuntimePolicy::Ask);
    assert_eq!(c.get_stream(&items, &selected, 0, 0, true), StreamRequest::Return(E_ABORT));
    assert_eq!(c.get_stream(&items, &selected, 0, 0, false), StreamRequest::File);
    assert_eq!(c.snapshot.current_file, "f");
    assert_eq!(c.snapshot.current_file_total_bytes, Some(7));
    assert_eq!(c.get_stream(&items, &selected, 1, 0, false), StreamRequest::Directory);
    assert_eq!(c.get_stream(&items, &selected, 2, 0, false), StreamRequest::Return(S_OK));
    assert_eq!(c.get_stream(&items, &none, 0, 0, false), StreamRequest::Return(S_OK));
    assert_eq!(c.get_stream(&items, &selected, 0, 2, false), StreamRequest::Return(S_OK));
    assert_eq!(c.snapshot.current_file, "");
}

#[test]
fn existing_files_are_asked_about_once() {
    let exists = || TargetState::Exists { reparse: false };
    let mut c = context(RuntimePolicy::Ask);
    assert_eq!(
        c.resolve_target("t", TargetState::Missing, None),
        TargetDecision::Write { direct: true }
    );
    assert_eq!(c.resolve_target("t", exists(), None), TargetDecision::Ask);
    assert_eq!(
        c.resolve_target("t", exists(), Some(ConflictChoice::Overwrite)),
        TargetDecision::Write { direct: false }
    );
    assert_eq!(c.resolve_target("t", exists(), None), TargetDecision::Ask);
    assert_eq!(
        c.resolve_target("t", exists(), Some(ConflictChoice::SkipAll)),
        TargetDecision::Return(S_OK)
    );
    assert_eq!(c.resolve_target("t", exists(), None), TargetDecision::Return(S_OK));
    assert_eq!(c.summary.entries_skipped, 2);
    let mut c = context(RuntimePolicy::Ask);
    assert_eq!(
        c.resolve_target("t", exists(), Some(ConflictChoice::Cancel)),
        TargetDecision::Return(E_ABORT)
    );
    assert!(matches!(c.error, Some(ArchiveError::Cancelled)));
    let mut c = context(RuntimePolicy::OverwriteAll);
    assert_eq!(
        c.resolve_target("t", TargetState::Exists { reparse: true }, None),
        TargetDecision::Return(E_ABORT)
    );
    assert!(matches!(c.error, Some(ArchiveError::ReparsePoint(path)) if path == "t"));
}

#[test]
fn finished_files_are_put_in_place() {
    let mut c = context(RuntimePolicy::OverwriteAll);
    let entry = extract_item(0, false);
    assert_eq!(c.stream_opened(&entry, "out/f".to_owned(), Some("tmp".to_owned()), Ok(())), S_OK);
    let mut pending = match c.set_operation_result(0, false) {
        ResultDecision::Install(pending) => pending,
        other => panic!("{other:?}"),
    };
    assert_eq!(pending.time_to_set(), None);
    pending.mtime_unix = Some(-1);
    assert_eq!(pending.time_to_set(), None);
    pending.mtime_unix = Some(9);
    assert_eq!(pending.time_to_set(), Some(9));
    assert_eq!(pending.leftover(), Some("tmp".to_owned()));
    pending.disarm();
    assert_eq!(pending.leftover(), None);
    let (code, shown) = c.finish_pending(&pending, Ok(()));
    assert_eq!(code, S_OK);
    assert_eq!(shown.unwrap().bytes_processed, 7);
    assert_eq!((c.summary.entries_processed, c.summary.bytes_processed), (1, 7));
    assert_eq!(c.stream_opened(&entry, "out/f".to_owned(), None, Ok(())), S_OK);
    assert!(matches!(c.set_operation_result(3, false), ResultDecision::Return(_, _)));
    assert!(c.error.is_some());
    let mut c = context(RuntimePolicy::Ask);
    assert!(matches!(c.set_operation_result(0, true), ResultDecision::Return(E_ABORT, None)));
    assert_eq!(c.set_total(5).total_bytes, Some(5));
    assert_eq!(c.set_total(9).total_bytes, Some(5));
}

fn property(value: PropVariant) -> Property {
    Property { code: S_OK, value }
}

fn properties(path: &str) -> EntryProperties {
    EntryProperties {
        path: property(PropVariant::Bstr(path.encode_utf16().collect())),
        is_dir: property(PropVariant::Empty),
        size: property(PropVariant::U64(5)),
        packed_size: property(PropVariant::U32(3)),
        modified: property(PropVariant::FileTime(116_444_736_000_000_000)),
        encrypted: property(PropVariant::Bool(true)),
    }
}

#[test]
fn entries_are_read_from_their_properties() {
    let mut reader = EntryReader::new(S_OK, 2, ProgressPhase::Listing, true).unwrap();
    assert_eq!(reader.next_index(), Some(0));
    reader.add_entry(false, &properties("폴더/")).unwrap();
    reader.add_entry(false, &properties("a\\b")).unwrap();
    assert_eq!(reader.next_index(), None);
    assert_eq!(reader.path_bytes, 12);
    assert_eq!(reader.snapshot().entries_processed, 2);
    let first = &reader.entries[0];
    assert_eq!(first.display_path, "폴더/");
    assert_eq!(first.path, texts(&["폴더"]));
    assert_eq!(first.kind, ArchiveEntryKind::Directory);
    assert!(first.encrypted);
    let second = &reader.entries[1];
    assert_eq!(second.path, texts(&["a", "b"]));
    assert_eq!(second.kind, ArchiveEntryKind::File);
    assert_eq!((second.size, second.compressed_size), (Some(5), Some(3)));
    assert_eq!(second.modified_unix_seconds, Some(0));
    assert!(matches!(
        reader.add_entry(true, &properties("c")),
        Err(ArchiveError::Cancelled)
    ));
    let mut bad = properties("c");
    bad.size.code = -1;
    assert!(reader.add_entry(false, &bad).is_err());
    let mut large = properties("c");
    large.size.value = PropVariant::U64(u64::MAX);
    assert!(matches!(
        reader.add_entry(false, &large),
        Err(ArchiveError::LimitExceeded(message))
            if message == "7z listing declared size exceeds the configured limit"
    ));
    assert!(EntryReader::new(S_OK, 1_000_001, ProgressPhase::Listing, true).is_err());
    assert!(EntryReader::new(-1, 1, ProgressPhase::Listing, true).is_err());
    // A lone surrogate is replaced.
    let mut reader = EntryReader::new(S_OK, 1, ProgressPhase::Listing, true).unwrap();
    let mut lone = properties("");
    lone.path.value = PropVariant::Bstr(vec![0x61, 0xD800]);
    reader.add_entry(false, &lone).unwrap();
    assert_eq!(reader.entries[0].display_path, "a\u{fffd}");
    let listing = finish_listing(
        "a.7z",
        ReadFormat::SevenZip,
        reader.entries,
        &property(PropVariant::Bool(false)),
    );
    assert_eq!(listing.total_uncompressed_size, 5);
}

#[test]
fn files_in_the_way_are_removed_once() {
    let next = |stage, outcome, exists| install_temporary(stage, outcome, exists, "t");
    assert!(matches!(next(InstallStage::Rename, RenameOutcome::Done, false), InstallNext::Finished));
    assert!(matches!(
        next(InstallStage::Rename, RenameOutcome::AlreadyExists("x".to_owned()), false),
        InstallNext::Go(InstallStage::RemoveTarget)
    ));
    assert!(matches!(
        next(InstallStage::Rename, RenameOutcome::Failed("x".to_owned()), true),
        InstallNext::Go(InstallStage::RemoveTarget)
    ));
    assert!(matches!(
        next(InstallStage::Rename, RenameOutcome::Failed("x".to_owned()), false),
        InstallNext::Failed(ArchiveError::Io { path, message }) if path == "t" && message == "x"
    ));
    assert!(matches!(
        next(InstallStage::RemoveTarget, RenameOutcome::Done, true),
        InstallNext::Go(InstallStage::RenameAgain)
    ));
    assert!(matches!(
        next(InstallStage::RenameAgain, RenameOutcome::AlreadyExists("x".to_owned()), true),
        InstallNext::Failed(_)
    ));
}

#[test]
fn volumes_replace_what_was_there() {
    let mut install = VolumeInstall::new(Some("a.7z".to_owned()), 2);
    for name in ["a.7z.001", "a.7z.002"] {
        assert!(matches!(install.next(), VolumeAction::Install(_, part) if part == name));
        install.part_installed(Ok(()));
    }
    assert!(matches!(install.next(), VolumeAction::InspectPart(part) if part == "a.7z.003"));
    install.inspected(Inspection::Found { is_reparse: false }, "a.7z.003");
    assert!(matches!(install.next(), VolumeAction::RemovePart(part) if part == "a.7z.003"));
    install.removed(None, "a.7z.003");
    assert!(matches!(install.next(), VolumeAction::InspectPart(part) if part == "a.7z.004"));
    install.inspected(Inspection::Missing, "a.7z.004");
    assert!(matches!(install.next(), VolumeAction::InspectTarget));
    install.inspected(Inspection::Found { is_reparse: false }, "a.7z");
    assert!(matches!(install.next(), VolumeAction::RemoveTarget));
    install.removed(None, "a.7z");
    assert!(matches!(install.next(), VolumeAction::Finished));
    let mut install = VolumeInstall::new(Some("a.7z".to_owned()), 2);
    install.part_installed(Ok(()));
    install.part_installed(Err(ArchiveError::Cancelled));
    assert!(matches!(install.next(), VolumeAction::Stop(names) if names == texts(&["a.7z.001"])));
    let mut install = VolumeInstall::new(Some("a.7z".to_owned()), 1);
    install.part_installed(Ok(()));
    install.inspected(Inspection::Found { is_reparse: true }, "p");
    assert!(matches!(install.error, Some(ArchiveError::ReparsePoint(path)) if path == "p"));
}

#[test]
fn creation_goes_step_by_step() {
    let options = CreateOptions { format: CreateFormat::SevenZip, ..Default::default() };
    let parent = || Some("C:\\out".to_owned());
    let name = || Some("a.7z".to_owned());
    let start = || CreateRun::start(false, 1, &options, parent()).unwrap();
    let mut run = start();
    assert_eq!(run.stage, CreateStage::MakeParent);
    run.parent_made(Ok(()), name());
    run.step_done(Ok(()));
    assert_eq!(run.stage, CreateStage::Collect);
    run.collected(Ok((vec![item("f", SourceKind::File, 3)], 3)));
    assert_eq!(run.stage, CreateStage::OpenTemporary);
    run.step_done(Ok(()));
    run.step_done(Ok(()));
    assert_eq!(run.stage, CreateStage::SetProperties);
    run.step_done(Ok(()));
    assert_eq!(run.stage, CreateStage::Write);
    run.written(None, None, false, S_OK, 0, summary(9, 9));
    assert_eq!(run.stage, CreateStage::Install);
    run.step_done(Ok(()));
    let done = run.result().unwrap().unwrap();
    assert_eq!((done.entries_processed, done.bytes_processed), (1, 3));
    let mut run = start();
    run.parent_made(Ok(()), None);
    assert!(matches!(
        run.result(),
        Some(Err(ArchiveError::InvalidInput(message))) if message == "destination has no file name"
    ));
    assert!(matches!(
        CreateRun::start(false, 1, &options, None),
        Err(ArchiveError::InvalidInput(message))
            if message == "destination has no parent directory"
    ));
    assert!(matches!(
        CreateRun::start(true, 1, &options, parent()),
        Err(ArchiveError::Cancelled)
    ));
}

#[test]
fn cancelled_creation_removes_its_files() {
    let options = CreateOptions { format: CreateFormat::SevenZip, ..Default::default() };
    let mut run = CreateRun::start(false, 1, &options, Some("C:\\out".to_owned())).unwrap();
    run.parent_made(Ok(()), Some("a.7z".to_owned()));
    run.step_done(Ok(()));
    run.collected(Ok((vec![item("f", SourceKind::File, 3)], 3)));
    for _ in 0..3 {
        run.step_done(Ok(()));
    }
    run.written(None, None, true, E_ABORT, 0, summary(0, 0));
    assert_eq!(run.stage, CreateStage::CleanUp);
    run.step_done(Ok(()));
    assert_eq!(run.stage, CreateStage::Failed);
    assert!(matches!(run.result(), Some(Err(ArchiveError::Cancelled))));
    assert_eq!(creation_leftovers(None, "tmp".to_owned()), texts(&["tmp"]));
    assert_eq!(
        creation_leftovers(Some(texts(&["v1", "v2"])), "tmp".to_owned()),
        texts(&["v1", "v2"])
    );
}

#[test]
fn written_items_are_counted() {
    let items = vec![item("d", SourceKind::Directory, 0), item("d/f", SourceKind::File, 3)];
    let chosen = create_items(&items, CreateFormat::SevenZip).unwrap();
    assert_eq!((chosen.items.len(), chosen.files, chosen.count), (2, 1, 2));
    assert!(matches!(destination_name(None), Err(ArchiveError::InvalidInput(_))));
}

#[test]
fn reading_goes_step_by_step() {
    let mut run = ReadRun::start(ReadKind::Extract, false).unwrap();
    assert_eq!(run.stage, ReadStage::InspectDestination);
    run.destination_inspected(Ok(true));
    run.destination_made(Ok(()));
    run.root_checked(true, false, "out");
    run.measured(Ok(10));
    run.identified(Some(ReadFormat::Lzh));
    assert_eq!(run.stage, ReadStage::Open);
    run.step_done(Ok(()));
    run.entries_read(Ok(vec![entry(0, "x", Some(1), ArchiveEntryKind::File)]));
    assert_eq!(run.stage, ReadStage::RepairPaths);
    run.paths_repaired(Ok(vec![RepairedPath {
        path: texts(&["\u{65e5}"]),
        display_path: "\u{65e5}".to_owned(),
    }]));
    assert_eq!(run.entries[0].path, texts(&["\u{65e5}"]));
    run.names_found(None, &Vec::new());
    assert_eq!(run.stage, ReadStage::Run);
    let extraction = prepare_extraction(&run, &ExtractOptions::default()).unwrap();
    assert_eq!(extraction.indices, vec![0]);
    assert!(extraction.targets_missing && !extraction.parallel);
    let done = run.finished(false, &None, None, false, S_OK, summary(1, 1));
    assert_eq!(done.unwrap().bytes_processed, 1);
    assert_eq!(run.stage, ReadStage::Finished);
}

#[test]
fn unreadable_archives_are_refused() {
    let mut run = ReadRun::start(ReadKind::List, false).unwrap();
    run.measured(Ok(10));
    run.identified(None);
    assert!(matches!(
        run.error,
        Some(ArchiveError::UnsupportedOption(message))
            if message == "7z.dll could not identify the archive format"
    ));
    let mut run = ReadRun::start(ReadKind::Extract, false).unwrap();
    run.destination_inspected(Ok(false));
    run.destination_made(Ok(()));
    run.root_checked(false, false, "out");
    assert!(matches!(run.error, Some(ArchiveError::InvalidInput(_))));
    assert!(matches!(ReadRun::start(ReadKind::Test, true), Err(ArchiveError::Cancelled)));
}

fn found(name: &str, is_dir: bool, size: u64) -> FoundEntry {
    FoundEntry {
        name: Some(name.to_owned()),
        path: format!("C:\\in\\{name}"),
        canonical: format!("C:\\in\\{name}"),
        is_reparse: false,
        is_dir,
        size,
        modified_unix_seconds: None,
    }
}

#[test]
fn sources_are_collected_in_the_order_of_names() {
    let mut collector = SourceCollector::new("C:\\in\\NEW.7z".to_owned());
    collector.add_root(&found("z.txt", false, 5), true).unwrap();
    collector.add_root(&found("new.7z", false, 5), true).unwrap();
    collector.add_root(&found("dir", true, 0), true).unwrap();
    collector.add_root(&found("thumbs.DB", false, 5), true).unwrap();
    let (prefix, directory) = collector.next_directory().unwrap();
    assert_eq!((prefix.as_str(), directory.as_str()), ("dir", "C:\\in\\dir"));
    let link = FoundEntry { is_reparse: true, ..found("link", false, 1) };
    collector
        .add_directory(
            &prefix,
            &directory,
            &vec![found("sub", true, 0), found("b", false, 2), link, found("a", false, 1)],
        )
        .unwrap();
    let (prefix, directory) = collector.next_directory().unwrap();
    assert_eq!(prefix, "dir/sub");
    collector.add_directory(&prefix, &directory, &Vec::new()).unwrap();
    assert!(collector.next_directory().is_none());
    let (items, bytes) = collector.finish();
    let names: Vec<&str> = items.iter().map(|item| item.archive_name.as_str()).collect();
    assert_eq!(names, ["dir", "dir/a", "dir/b", "dir/sub", "z.txt"]);
    assert_eq!(bytes, 8);
    let mut collector = SourceCollector::new("x".to_owned());
    let nameless = FoundEntry { name: None, ..found("r", true, 0) };
    assert!(matches!(
        collector.add_root(&nameless, true),
        Err(ArchiveError::InvalidInput(message)) if message == "input has no file name: C:\\in\\r"
    ));
    assert!(matches!(
        collector.add_root(&found("big", false, u64::MAX), true),
        Err(ArchiveError::LimitExceeded(_))
    ));
}

#[test]
fn source_rules() {
    assert!(is_thumbs_db_name("THUMBS.db"));
    assert!(!is_thumbs_db_name("thumbs.dbx"));
    assert_eq!(metadata_modified_seconds(116_444_736_000_000_000), Some(0));
    assert_eq!(metadata_modified_seconds(u64::MAX), None);
    let options = CreateOptions { format: CreateFormat::Zip, ..Default::default() };
    assert!(keeps_root(2, &options));
    assert!(!keeps_root(1, &CreateOptions { preserve_root: false, ..options }));
}

#[test]
fn creation_progress_follows_the_input() {
    let items = vec![item("a", SourceKind::File, 10), item("b", SourceKind::File, 5)];
    let snapshot = ProgressSnapshot::new(ProgressPhase::Compressing);
    let mut c = UpdateContext::new(&items, 15, Some("p".to_owned()), snapshot);
    let shown = c.input_read(0, "a", 10, 4).unwrap();
    assert_eq!(shown.bytes_processed, 4);
    assert_eq!(shown.current_file, "a");
    let shown = c.input_read(0, "a", 10, 2).unwrap();
    assert_eq!(shown.bytes_processed, 4);
    assert!(c.input_read(2, "c", 1, 1).is_none());
    c.set_total(30);
    assert!(c.input_read(0, "a", 10, 9).is_none());
    let (code, shown) = c.set_completed(Some(15), false);
    assert_eq!(code, S_OK);
    assert!(shown.is_some());
    assert_eq!(c.set_completed(Some(15), true).0, E_ABORT);
    assert_eq!(c.input_failed(ArchiveError::Cancelled), E_ABORT);
    assert_eq!(c.creation_password(), Some("p".to_owned()));
}

#[test]
fn the_writer_is_told_about_items() {
    let items = vec![item("d", SourceKind::Directory, 0), item("f", SourceKind::File, 0x2000)];
    assert!(update_item_info(&items, 0).is_ok());
    assert_eq!(update_item_info(&items, 2), Err(E_INVALIDARG));
    assert_eq!(update_stream(&items, 0, false), InputRequest::Return(S_OK));
    assert_eq!(update_stream(&items, 1, false), InputRequest::Open { buffer: 0x2000 });
    assert_eq!(update_stream(&items, 1, true), InputRequest::Return(E_ABORT));
    assert_eq!(update_stream(&items, 2, false), InputRequest::Return(E_INVALIDARG));
    assert!(matches!(update_property(&items, 0, 6), (S_OK, PropVariant::Bool(true))));
    assert!(matches!(update_property(&items, 1, 7), (S_OK, PropVariant::U64(0x2000))));
    assert!(matches!(update_property(&items, 0, 7), (S_OK, PropVariant::Empty)));
    assert!(matches!(update_property(&items, 9, 7), (E_INVALIDARG, PropVariant::Empty)));
    assert!(matches!(
        update_property(&items, 1, 3),
        (S_OK, PropVariant::Bstr(units)) if units == vec![0x66]
    ));
}

#[test]
fn keys_are_ordered_and_found() {
    let keys: Vec<Vec<char>> = vec![vec!['b'], vec!['a'], vec!['a', 'b'], vec!['a']];
    let order = sort_order(&keys);
    assert_eq!(order, vec![1, 3, 2, 0]);
    assert!(comes_before(&['a'], &['a', 'b']));
    assert!(find_key(&keys, &order, &['a', 'b']));
    assert!(!find_key(&keys, &order, &['c']));
}

#[test]
fn the_taskbar_shows_progress() {
    assert_eq!(show_indeterminate().state, TaskbarState::Indeterminate);
    assert_eq!(pause().state, TaskbarState::Paused);
    assert_eq!(clear().state, TaskbarState::NoProgress);
    let shown = |part, whole| show_fraction(Ratio { part, whole }).completed;
    assert_eq!(shown(1, 3), Some(3333));
    assert_eq!(shown(7, 7), Some(10_000));
    assert_eq!(shown(9, 7), Some(10_000));
    assert_eq!(shown(u64::MAX - 1, u64::MAX), Some(9999));
    let mut list = TaskbarList::new();
    assert!(list.is_missing());
    assert!(!list.use_list(false));
    assert!(list.is_missing());
    assert!(list.use_list(true));
    assert!(list.use_list(false));
}

#[test]
fn targets_are_checked_before_they_are_opened() {
    let mut c = context(RuntimePolicy::Ask);
    let mut prepared = PreparedDirectories::new();
    let deep = ExtractItem { relative: texts(&["d", "f"]), ..extract_item(0, false) };
    let mut run = TargetRun::start(&deep, &prepared);
    assert_eq!(run.directory, texts(&["d"]));
    for step in [TargetStep::CheckDirectory, TargetStep::MakeDirectory, TargetStep::CheckTarget] {
        assert_eq!(run.step, step);
        run.step_done(&mut c, &mut prepared, Ok(()));
    }
    assert_eq!(run.step, TargetStep::InspectTarget);
    run.inspected(&mut c, "d/f", TargetState::Exists { reparse: false }, None);
    assert_eq!(run.step, TargetStep::InspectTarget);
    let answer = Some(ConflictChoice::Overwrite);
    run.inspected(&mut c, "d/f", TargetState::Exists { reparse: false }, answer);
    assert_eq!(run.step, TargetStep::Open { direct: false });
    run.opened(&mut c, &deep, "d/f".to_owned(), Some("d/tmp".to_owned()), Ok(()));
    assert_eq!(run.step, TargetStep::Done(S_OK));
    assert_eq!(c.pending.len(), 1);
    // The directory is known now; the file is checked all the same.
    let run = TargetRun::start(&deep, &prepared);
    assert_eq!(run.step, TargetStep::CheckTarget);
    let folder = ExtractItem { relative: texts(&["d"]), ..extract_item(1, true) };
    assert_eq!(TargetRun::start(&folder, &prepared).step, TargetStep::Done(S_OK));
    // The destination itself is there from the start.
    let mut run = TargetRun::start(&extract_item(0, false), &prepared);
    assert_eq!(run.step, TargetStep::CheckTarget);
    run.step_done(&mut c, &mut prepared, Err(ArchiveError::ReparsePoint("f".to_owned())));
    assert_eq!(run.step, TargetStep::Done(E_ABORT));
    assert!(matches!(c.error, Some(ArchiveError::ReparsePoint(_))));
}

#[test]
fn a_test_asks_for_no_output() {
    let mut run = ReadRun::start(ReadKind::Test, false).unwrap();
    run.measured(Ok(10));
    run.identified(Some(ReadFormat::Zip));
    assert_eq!(run.stage, ReadStage::Open);
    run.step_done(Ok(()));
    let odd = entry(u64::MAX, "../x", Some(4), ArchiveEntryKind::File);
    run.entries_read(Ok(vec![odd, entry(1, "ok", Some(2), ArchiveEntryKind::File)]));
    assert_eq!(run.stage, ReadStage::Run);
    let items = test_items(&run.entries);
    assert_eq!(items[0].index, u32::MAX);
    assert!(items[0].relative.is_empty());
    assert_eq!(items[1].relative, texts(&["ok"]));
    let mut c = run.start_test(&Some("p".to_owned()));
    assert!(c.test_mode);
    assert_eq!(c.snapshot.total_entries, Some(2));
    assert_eq!(c.snapshot.total_bytes, Some(10));
    let none: HashSet<u32> = HashSet::new();
    assert_eq!(c.get_stream(&items, &none, 1, 1, false), StreamRequest::Return(S_OK));
    assert!(matches!(c.set_operation_result(0, false), ResultDecision::Return(S_OK, Some(_))));
    assert_eq!(c.summary.entries_processed, 1);
}

#[test]
fn listings_are_finished() {
    let mut run = ReadRun::start(ReadKind::List, false).unwrap();
    run.measured(Ok(10));
    run.identified(Some(ReadFormat::SevenZip));
    run.step_done(Ok(()));
    run.entries_read(Ok(vec![entry(0, "a", Some(4), ArchiveEntryKind::File)]));
    run.names_found(None, &Vec::new());
    assert_eq!(run.stage, ReadStage::AskEncryption);
    let (listing, last) = run.listed("a.7z", &property(PropVariant::Bool(true))).unwrap();
    assert_eq!(listing.format_name, "7z");
    assert!(listing.entries[0].encrypted);
    assert_eq!(last.phase, ProgressPhase::Finished);
    assert_eq!((last.entries_processed, last.bytes_processed), (1, 10));
    let run = ReadRun::start(ReadKind::List, false).unwrap();
    assert!(run.listed("a.7z", &property(PropVariant::Empty)).is_none());
}

#[test]
fn shared_extractions_ask_nothing() {
    let mut run = ReadRun::start(ReadKind::Extract, false).unwrap();
    run.destination_inspected(Ok(true));
    run.destination_made(Ok(()));
    run.root_checked(true, false, "out");
    run.measured(Ok(10));
    run.identified(Some(ReadFormat::Zip));
    run.step_done(Ok(()));
    run.step_done(Ok(()));
    let entries = (0..300)
        .map(|index| entry(index, &format!("f{index}"), Some(1), ArchiveEntryKind::File))
        .collect();
    run.entries_read(Ok(entries));
    run.names_found(None, &Vec::new());
    let options = ExtractOptions::default();
    let extraction = prepare_extraction(&run, &options).unwrap();
    assert!(extraction.parallel);
    let c = extraction.start(&options);
    assert_eq!(c.policy, RuntimePolicy::OverwriteAll);
    assert!(c.assume_targets_missing && !c.test_mode);
    assert_eq!(c.snapshot.total_bytes, Some(300));
}

#[test]
fn installed_volumes_hold_what_their_temporary_files_held() {
    let mut names = std::collections::BTreeMap::new();
    for (name, text) in [("a.7z.001", "old"), ("a.7z.003", "stale"), ("a.7z.004", "stale")] {
        names.insert(name.to_owned(), text.to_owned());
    }
    names.insert("b.txt".to_owned(), "other".to_owned());
    let mut temporary = vec![Some("one".to_owned()), Some("two".to_owned())];
    let mut target = Some("whole".to_owned());
    let mut install = VolumeInstall::new(Some("a.7z".to_owned()), 2);
    loop {
        match install.next() {
            VolumeAction::Install(index, name) => {
                names.insert(name, temporary[index].take().unwrap());
                install.part_installed(Ok(()));
            }
            VolumeAction::InspectPart(name) => {
                let found = if names.contains_key(&name) {
                    Inspection::Found { is_reparse: false }
                } else {
                    Inspection::Missing
                };
                install.inspected(found, &name);
            }
            VolumeAction::RemovePart(name) => {
                names.remove(&name);
                install.removed(None, &name);
            }
            VolumeAction::InspectTarget => {
                assert!(target.is_some());
                install.inspected(Inspection::Found { is_reparse: false }, "a.7z");
            }
            VolumeAction::RemoveTarget => {
                target = None;
                install.removed(None, "a.7z");
            }
            VolumeAction::Finished => break,
            VolumeAction::Stop(_) => panic!("stopped"),
        }
    }
    let left: Vec<(&str, &str)> = names.iter().map(|(n, t)| (n.as_str(), t.as_str())).collect();
    assert_eq!(left, vec![("a.7z.001", "one"), ("a.7z.002", "two"), ("b.txt", "other")]);
    assert!(target.is_none() && temporary.iter().all(Option::is_none));
}
