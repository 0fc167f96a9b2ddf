use archive_rclick::composite::{CompositeEngine, LibArchiveEngine, Route};
use archive_rclick::creation::{apply_create_properties, check_request, properties_applied};
use archive_rclick::engine::{
    check_destination, choose_input, class_ids, discover_handler_clsid, library_candidates,
    load_7z_library, open_outcome, require_format, Api, Candidate, HandlerList, HandlerProperties,
    InputStream, LibraryExports, LibraryFile, LibrarySearch, LoadAttempt, Probe, Probes,
    SevenZipEngine,
};
use archive_rclick::error::ArchiveError;
use archive_rclick::ffi::{
    code_string, filetime_to_unix_seconds, guid_string_for, handler_class_id,
    unix_seconds_to_filetime, PropVariant, E_FAIL, E_INVALIDARG, E_NOINTERFACE, KPID_IS_DIR,
    KPID_NAME, KPID_SIZE, S_FALSE, S_OK, E_ABORT,
};
use archive_rclick::file_ops::{
    checked_add_with_limit, file_length, same_windows_path, stream_buffer_size, temporary_path,
    MIN_STREAM_BUFFER_SIZE, STREAM_BUFFER_SIZE,
};
use archive_rclick::format::{
    archive_format, split_archive_format, split_volume_paths, ReadFormat, VolumeSearch,
};
use archive_rclick::interfaces::{
    known_interface, open_get_property, open_get_stream, open_set_completed, query_interface,
    volume_name, Interface, Object, Part, References, VolumeOpened,
};
use archive_rclick::listing::{Property, RepairedPath};
use archive_rclick::names::{ends_in, extension_of, split_volume_base, volume_part_path};
use archive_rclick::options::{
    ConflictChoice, CreateFormat, CreateOptions, InitialConflictPolicy, RuntimePolicy, ThreadCount,
    ZipBackend,
};
use archive_rclick::read_run::{ReadKind, ReadRun, ReadStage};
use archive_rclick::unsupported;

fn working() -> Probe {
    Probe { code: S_OK, live: true }
}

fn broken() -> Probe {
    Probe { code: E_FAIL, live: false }
}

fn handler(name: &str, number: u8) -> HandlerProperties {
    let id = handler_class_id(number);
    let mut bytes = Vec::new();
    bytes.extend_from_slice(&id.data1.to_le_bytes());
    bytes.extend_from_slice(&id.data2.to_le_bytes());
    bytes.extend_from_slice(&id.data3.to_le_bytes());
    let d = id.data4;
    bytes.extend_from_slice(&[d.0, d.1, d.2, d.3, d.4, d.5, d.6, d.7]);
    let units = bytes
        .chunks_exact(2)
        .map(|pair| u16::from_le_bytes([pair[0], pair[1]]))
        .collect();
    HandlerProperties {
        name: Property { code: S_OK, value: PropVariant::bstr(name) },
        class_id: Property { code: S_OK, value: PropVariant::Bstr(units) },
    }
}

fn exports(zip_writer: Probe) -> LibraryExports {
    LibraryExports {
        has_create_object: true,
        handlers: HandlerList {
            exported: true,
            code: S_OK,
            count: 3,
            handlers: vec![handler("Rar", 3), handler("Rar5", 0xCC), handler("Iso", 0xE7)],
        },
        probes: Probes {
            sevenzip: working(),
            zip_reader: working(),
            zip_writer,
            lzh: working(),
            iso: working(),
            rar4: working(),
            rar5: working(),
            nsis: broken(),
        },
    }
}

fn engine(zip_writer: Probe) -> SevenZipEngine {
    SevenZipEngine { api: Api::from_library(&exports(zip_writer)).unwrap() }
}

#[test]
fn thread_count_options_map_to_sevenzip_mt() {
    let cpus = 12;
    assert_eq!(
        ThreadCount::Auto.sevenzip_threads(cpus),
        ThreadCount::All.sevenzip_threads(cpus)
    );
    assert!(ThreadCount::Auto.sevenzip_threads(cpus).is_some());
    assert_eq!(ThreadCount::Four.sevenzip_threads(cpus), Some(4));
    assert_eq!(ThreadCount::Six.sevenzip_threads(cpus), Some(6));
    assert_eq!(ThreadCount::Eight.sevenzip_threads(cpus), Some(8));
    assert_eq!(ThreadCount::Ten.sevenzip_threads(cpus), Some(10));
    assert_eq!(ThreadCount::Sixteen.sevenzip_threads(cpus), Some(16));
    assert_eq!(ThreadCount::from_registry_key("all"), ThreadCount::All);
    assert_eq!(ThreadCount::from_registry_key("6"), ThreadCount::Six);
    assert_eq!(ThreadCount::from_registry_key("10"), ThreadCount::Ten);
    assert_eq!(ThreadCount::from_registry_key("16"), ThreadCount::Sixteen);
    assert_eq!(ThreadCount::from_registry_key("bogus"), ThreadCount::Auto);
    assert_eq!(ThreadCount::from_ui_index(5), ThreadCount::Sixteen);
    assert_eq!(ThreadCount::Auto.ui_index(), 0);
    assert_eq!(ThreadCount::All.ui_index(), 6);
}

#[test]
fn create_options_default_to_auto_threads() {
    assert_eq!(CreateOptions::default().threads, ThreadCount::Auto);
}

#[test]
fn input_stream_buffer_scales_for_small_files() {
    assert_eq!(stream_buffer_size(1), MIN_STREAM_BUFFER_SIZE);
    assert_eq!(stream_buffer_size(64 * 1024), 64 * 1024);
    assert_eq!(stream_buffer_size((STREAM_BUFFER_SIZE as u64) * 2), STREAM_BUFFER_SIZE);
}

#[test]
fn filetime_round_trips_unix_seconds() {
    for seconds in [-2208988800i64, 0, 1_700_000_000] {
        assert_eq!(filetime_to_unix_seconds(unix_seconds_to_filetime(seconds)), seconds);
    }
}

#[test]
fn detects_sevenzip_signature() {
    let cases: [(&str, &[u8], ReadFormat); 7] = [
        ("sample.7z", &[0x37, 0x7A, 0xBC, 0xAF, 0x27, 0x1C, 0x00], ReadFormat::SevenZip),
        ("sample.zip", b"PK\x03\x04junk", ReadFormat::Zip),
        ("sample-rar4.rar", b"Rar!\x1a\x07\x00junk", ReadFormat::Rar4),
        ("sample-rar5.rar", b"Rar!\x1a\x07\x01\x00junk", ReadFormat::Rar5),
        ("sample.lzh", &[0x5f, 0x00, b'-', b'l', b'h', b'5', b'-', 0x00], ReadFormat::Lzh),
        ("sample.iso", b"not an ISO yet", ReadFormat::Iso),
        ("sample.img", b"not an ISO yet", ReadFormat::Iso),
    ];
    for (name, bytes, format) in cases {
        assert_eq!(archive_format(name, Some(bytes)), Some(format));
    }
    assert_eq!(archive_format("missing.7z", None), None);
}

#[test]
fn detects_nsis_contents_with_a_misleading_extension() {
    let mut header = [0u8; 28];
    header[4..20].copy_from_slice(b"\xef\xbe\xad\xdeNullsoftInst");
    for offset in [0, 512, 108_544, 1024 * 1024] {
        let mut bytes = vec![0u8; offset + header.len()];
        bytes[..2].copy_from_slice(b"MZ");
        bytes[offset..].copy_from_slice(&header);
        assert_eq!(archive_format("installer.zip", Some(&bytes)), Some(ReadFormat::Nsis));
        bytes[offset + 4] = 0;
        assert_eq!(archive_format("installer.zip", Some(&bytes)), None);
    }
    for bytes in [&b""[..], &b"M"[..], &b"MZ"[..], &header[..19]] {
        assert_eq!(archive_format("installer.zip", Some(bytes)), None);
    }
}

#[test]
fn engine_is_send_and_sync() {
    fn assert_send_sync<T: Send + Sync>() {}
    assert_send_sync::<SevenZipEngine>();
    assert_send_sync::<CompositeEngine>();
}

#[test]
fn explicit_loader_rejects_relative_path_without_fallback() {
    let file = LibraryFile {
        is_absolute: false,
        canonical: Ok("C:\\7z.dll".to_owned()),
        is_file: Ok(true),
        loaded: Ok(exports(working())),
    };
    assert!(SevenZipEngine::load_from_path("7z.dll", &file).is_err());
}

#[test]
fn explicit_loader_takes_a_library_that_works() {
    let path = "C:\\app\\7z.dll";
    let file = LibraryFile {
        is_absolute: true,
        canonical: Ok(path.to_owned()),
        is_file: Ok(true),
        loaded: Ok(exports(working())),
    };
    let engine = SevenZipEngine::load_from_path(path, &file).unwrap();
    assert!(engine.can_read(CreateFormat::Zip));
    assert!(engine.can_read_format(ReadFormat::Lzh));
    assert!(engine.can_read_format(ReadFormat::Rar4));
    assert!(engine.can_read_format(ReadFormat::Rar5));
    assert_eq!(engine.writable_formats(), vec![CreateFormat::Zip, CreateFormat::SevenZip]);
    assert_eq!(engine.version(), "7-Zip (7z.dll)");
    let folder = LibraryFile { is_file: Ok(false), ..file };
    assert!(matches!(
        SevenZipEngine::load_from_path(path, &folder),
        Err(ArchiveError::InvalidInput(text)) if text == "7z.dll path is not a file: C:\\app\\7z.dll"
    ));
}

#[test]
fn the_first_library_that_loads_is_used() {
    let attempt = |path: &str, loaded: Result<LibraryExports, String>| LoadAttempt {
        path: path.to_owned(),
        loaded,
    };
    let attempts = vec![
        attempt("a", Err("not found".to_owned())),
        attempt("b", Ok(exports(broken()))),
    ];
    assert_eq!(load_7z_library(&attempts).unwrap(), 1);
    assert!(matches!(
        load_7z_library(&vec![attempt("a", Err("not found".to_owned()))]),
        Err(ArchiveError::LibraryUnavailable(_))
    ));
    let search = LibrarySearch { configured: None, attempts };
    let engine = SevenZipEngine::load(&search).unwrap();
    assert!(!engine.can_create(CreateFormat::Zip));
    assert!(engine.can_create(CreateFormat::SevenZip));
    assert_eq!(engine.writable_formats(), vec![CreateFormat::SevenZip]);
    let places = library_candidates(1, &Some("app".to_owned()));
    assert!(places.contains(&Candidate { level: 0, in_runtime: false }));
}

#[test]
fn handlers_are_found_by_name() {
    let list = exports(working()).handlers;
    assert_eq!(discover_handler_clsid(&list, "rar5"), Some(handler_class_id(0xCC)));
    assert_eq!(discover_handler_clsid(&list, "zip"), None);
    let ids = class_ids(&list);
    assert_eq!(ids.zip, handler_class_id(1));
    assert_eq!(ids.nsis, None);
    let api = Api::from_library(&exports(working())).unwrap();
    assert!(api.can_read(ReadFormat::Iso));
    assert!(!api.can_read(ReadFormat::Nsis));
    assert_eq!(api.reader_class(ReadFormat::Zip).unwrap(), handler_class_id(1));
    assert!(api.reader_class(ReadFormat::Nsis).is_err());
    assert_eq!(api.writer_class(CreateFormat::SevenZip).unwrap(), handler_class_id(7));
    assert!(api.writer_class(CreateFormat::Tar).is_err());
    assert!(Api::create_in_archive(ReadFormat::Zip, broken()).is_err());
    assert!(Api::create_out_archive(working()).is_ok());
    let mut without = exports(working());
    without.has_create_object = false;
    assert!(matches!(Api::from_library(&without), Err(ArchiveError::MissingSymbol(_))));
}

#[test]
fn identifiers_and_codes_are_written_in_hexadecimal() {
    assert_eq!(guid_string_for(handler_class_id(7)), "{23170F69-40C1-278A-1000-000110070000}");
    assert_eq!(code_string(E_FAIL), "0x80004005");
}

#[test]
fn variants_give_back_what_they_hold() {
    assert_eq!(PropVariant::bstr("한글").as_bstr(), Some("한글".to_owned()));
    assert_eq!(PropVariant::u32_value(7).as_u64(), Some(7));
    assert_eq!(PropVariant::u64_value(9).as_u64(), Some(9));
    assert_eq!(PropVariant::bool_value(true).as_bool(), Some(true));
    assert_eq!(PropVariant::empty().as_bool(), None);
    assert_eq!(PropVariant::filetime(1_700_000_000).as_filetime_seconds(), Some(1_700_000_000));
    assert_eq!(handler("x", 7).class_id.value.as_guid(), Some(handler_class_id(7)));
    let mut value = PropVariant::bool_value(true);
    value.clear();
    assert!(matches!(value, PropVariant::Empty));
    // An unpaired surrogate reads as the replacement character.
    assert_eq!(PropVariant::Bstr(vec![0x41, 0xD800]).as_bstr(), Some("A\u{FFFD}".to_owned()));
}

fn libarchive() -> LibArchiveEngine {
    LibArchiveEngine {
        version: "libarchive 3.8.9".to_owned(),
        writable_formats: vec![CreateFormat::Zip, CreateFormat::Tar],
    }
}

#[test]
fn zip_archives_are_routed_by_the_backend() {
    let composite = CompositeEngine::new(libarchive(), Some(engine(working())));
    let zip = Some(ReadFormat::Zip);
    assert_eq!(composite.extract_route(zip, ZipBackend::ZlibNg), Route::Flate { zlib_ng: true });
    assert_eq!(composite.extract_route(zip, ZipBackend::ZlibRs), Route::Flate { zlib_ng: false });
    assert_eq!(composite.extract_route(zip, ZipBackend::SevenZip), Route::SevenZip);
    assert_eq!(composite.read_route(None), Route::LibArchive);
    let options = CreateOptions { format: CreateFormat::Tar, ..CreateOptions::default() };
    assert_eq!(composite.create_route(&options).unwrap(), Route::LibArchive);
    assert_eq!(
        composite.writable_formats(),
        vec![CreateFormat::Zip, CreateFormat::Tar, CreateFormat::SevenZip]
    );
    let alone = CompositeEngine::new(libarchive(), None);
    assert_eq!(alone.read_route(zip), Route::LibArchive);
    assert_eq!(alone.writable_formats(), vec![CreateFormat::Zip, CreateFormat::Tar]);
}

#[test]
fn the_native_engine_is_refused_elsewhere() {
    assert!(matches!(
        unsupported::SevenZipEngine::load(),
        Err(ArchiveError::LibraryUnavailable(_))
    ));
    assert!(unsupported::SevenZipEngine::load_from_path("C:\\7z.dll").is_err());
    let composite = unsupported::CompositeEngine::new(
        LibArchiveEngine { version: "libarchive 3.8.9".to_owned(), writable_formats: vec![CreateFormat::Tar] },
        None,
    );
    assert_eq!(composite.writable_formats(), &vec![CreateFormat::Tar]);
    assert_eq!(composite.route(), Route::LibArchive);
}

#[test]
fn volume_names_split_back() {
    assert_eq!(volume_part_path(&Some("a.7z".to_owned()), 12), "a.7z.012");
    assert_eq!(split_volume_base("a.7z.012"), Some(("a.7z".to_owned(), 12)));
    assert_eq!(split_volume_base("a.7z.1000"), Some(("a.7z".to_owned(), 1000)));
    assert_eq!(split_volume_base("a.7z.000"), None);
    assert_eq!(split_volume_base("a.7z.01"), None);
    assert_eq!(split_volume_base("a.7z"), None);
    assert_eq!(split_archive_format("a.zip.001"), Some(ReadFormat::ZipVolume));
    assert_eq!(split_archive_format("a.7Z.002"), Some(ReadFormat::SevenZipVolume));
    assert_eq!(split_archive_format("a.rar.001"), None);
    assert_eq!(extension_of(".hidden"), None);
    assert_eq!(extension_of("a.b.C"), Some("C".to_owned()));
    assert!(ends_in("a.ZIP", "zip"));
}

#[test]
fn volumes_are_looked_for_one_by_one() {
    assert!(matches!(
        split_volume_paths("a.7z.002", 0, false),
        VolumeSearch::Probe(name) if name == "a.7z.001"
    ));
    assert!(matches!(split_volume_paths("a.7z.002", 0, true), VolumeSearch::Found(None)));
    match split_volume_paths("a.7z.001", 2, true) {
        VolumeSearch::Found(Some(names)) => assert_eq!(names, vec!["a.7z.001", "a.7z.002"]),
        other => panic!("{other:?}"),
    }
}

#[test]
fn requests_that_cannot_be_met_are_refused() {
    let plain = CreateOptions::default();
    assert!(matches!(check_request(0, &plain), Err(ArchiveError::InvalidInput(_))));
    let tar = CreateOptions { format: CreateFormat::Tar, ..CreateOptions::default() };
    assert!(matches!(check_request(1, &tar), Err(ArchiveError::UnsupportedOption(_))));
    let split = CreateOptions { split_size: Some(0), ..CreateOptions::default() };
    assert!(matches!(check_request(1, &split), Err(ArchiveError::InvalidInput(_))));
    let headers = CreateOptions {
        format: CreateFormat::SevenZip,
        encrypt_headers: true,
        ..CreateOptions::default()
    };
    assert!(matches!(
        check_request(1, &headers),
        Err(ArchiveError::InvalidInput(text)) if text == "header encryption requires a non-empty password"
    ));
    let zip_headers = CreateOptions {
        format: CreateFormat::Zip,
        encrypt_headers: true,
        password: Some("x".to_owned()),
        ..CreateOptions::default()
    };
    assert!(matches!(check_request(1, &zip_headers), Err(ArchiveError::UnsupportedOption(_))));
}

#[test]
fn properties_follow_the_options() {
    let options = CreateOptions {
        format: CreateFormat::SevenZip,
        compression_level: 5,
        encrypt_headers: true,
        password: Some("x".to_owned()),
        threads: ThreadCount::Six,
        ..CreateOptions::default()
    };
    let names: Vec<String> = apply_create_properties(&options, 12)
        .unwrap()
        .into_iter()
        .map(|property| property.name)
        .collect();
    assert!(names.contains(&"he".to_owned()));
    assert!(names.contains(&"mt".to_owned()));
    assert!(names.contains(&"x".to_owned()));
    let wrong = CreateOptions { compression_level: 10, ..CreateOptions::default() };
    assert!(matches!(
        apply_create_properties(&wrong, 12),
        Err(ArchiveError::UnsupportedOption(text)) if text == "compression level 10 is outside 0..=9"
    ));
    assert!(properties_applied(false, S_OK).is_err());
    assert!(properties_applied(true, E_FAIL).is_err());
    assert!(properties_applied(true, S_OK).is_ok());
}

#[test]
fn archives_are_opened_or_refused() {
    assert!(matches!(
        open_outcome("a.zip", ReadFormat::Zip, S_FALSE, true),
        Err(ArchiveError::PasswordRequired)
    ));
    assert!(open_outcome("a.zip", ReadFormat::Zip, S_OK, false).is_ok());
    for code in [S_FALSE, E_FAIL] {
        assert!(matches!(
            open_outcome("a.zip", ReadFormat::Zip, code, false),
            Err(ArchiveError::InvalidArchive(path)) if path == "a.zip"
        ));
    }
    assert!(matches!(
        open_outcome("a.zip", ReadFormat::Zip, E_ABORT, false),
        Err(ArchiveError::SevenZip(text)) if text == "opening ZIP archive failed with HRESULT 0x80004004"
    ));
    assert!(require_format(None).is_err());
    assert_eq!(choose_input(ReadFormat::Zip, None, "a").unwrap(), InputStream::Single);
    assert_eq!(choose_input(ReadFormat::ZipVolume, Some(2), "a").unwrap(), InputStream::Multi);
    assert_eq!(choose_input(ReadFormat::ZipVolume, Some(1), "a").unwrap(), InputStream::Single);
    assert!(matches!(
        choose_input(ReadFormat::ZipVolume, None, "a.zip.002"),
        Err(ArchiveError::InvalidInput(text))
            if text == "split archive volume is missing its .001 file: a.zip.002"
    ));
    assert!(matches!(
        check_destination(true, true, "C:\\link"),
        Err(ArchiveError::ReparsePoint(path)) if path == "C:\\link"
    ));
    assert!(check_destination(false, false, "x").is_err());
}

#[test]
fn objects_answer_for_their_interfaces() {
    let id = |group: u8, number: u8| {
        archive_rclick::ffi::guid(0x2317_0F69, 0x40C1, 0x278A, 0, 0, 0, group, 0, number, 0, 0)
    };
    let unknown = archive_rclick::ffi::guid(0, 0, 0, 0xC0, 0, 0, 0, 0, 0, 0, 0x46);
    assert_eq!(known_interface(id(6, 0x30)), Some(Interface::ArchiveOpenVolumeCallback));
    assert_eq!(known_interface(id(6, 0x31)), None);
    for object in [Object::Open, Object::Extract, Object::Update, Object::InStream] {
        assert_eq!(query_interface(object, Some(unknown), true), Ok(Part::Whole));
    }
    assert_eq!(query_interface(Object::Open, Some(id(6, 0x30)), true), Ok(Part::Volumes));
    assert_eq!(query_interface(Object::Open, Some(id(5, 0x10)), true), Ok(Part::Passwords));
    assert_eq!(query_interface(Object::Update, Some(id(5, 0x10)), true), Err(E_NOINTERFACE));
    assert_eq!(query_interface(Object::Update, Some(id(5, 0x11)), true), Ok(Part::Passwords));
    assert_eq!(query_interface(Object::OutStream, Some(id(3, 4)), true), Ok(Part::Whole));
    assert_eq!(query_interface(Object::OutStream, Some(id(3, 3)), true), Err(E_NOINTERFACE));
    assert_eq!(query_interface(Object::Open, None, true), Err(E_INVALIDARG));
    assert_eq!(query_interface(Object::Open, Some(unknown), false), Err(E_INVALIDARG));
    let mut references = References { count: 1 };
    assert_eq!(references.add_ref(), 2);
    assert_eq!(references.release(), 1);
    assert_eq!(references.release(), 0);
}

#[test]
fn volumes_are_asked_for_beside_the_archive() {
    let units = |name: &str| name.encode_utf16().collect::<Vec<u16>>();
    assert_eq!(volume_name(Some(&units("a.r01")), true, false), Ok("a.r01".to_owned()));
    for name in ["", ".", "..", "a/b", "a\\b", "C:b", "a:stream"] {
        assert_eq!(volume_name(Some(&units(name)), true, false), Err(E_INVALIDARG));
    }
    assert_eq!(volume_name(Some(&units("a.r01")), true, true), Err(E_ABORT));
    assert_eq!(volume_name(None, true, true), Err(E_INVALIDARG));
    assert_eq!(open_get_stream(VolumeOpened::Missing), S_FALSE);
    assert_eq!(open_get_stream(VolumeOpened::Failed), E_FAIL);
    assert_eq!(open_get_stream(VolumeOpened::Opened), S_OK);
    assert_eq!(open_set_completed(true), E_ABORT);
    let name = Some("a.rar".to_owned());
    assert_eq!(open_get_property(KPID_NAME, &name, None).unwrap().as_bstr(), name);
    assert_eq!(open_get_property(KPID_SIZE, &name, Some(5)).unwrap().as_u64(), Some(5));
    assert_eq!(open_get_property(KPID_IS_DIR, &name, None).unwrap().as_bool(), Some(false));
    assert!(matches!(open_get_property(KPID_SIZE, &name, None), Err(E_FAIL)));
}

#[test]
fn limits_and_lengths_are_checked() {
    assert_eq!(checked_add_with_limit(1, 2, 3, "x").unwrap(), 3);
    assert!(matches!(checked_add_with_limit(1, 3, 3, "x"), Err(ArchiveError::LimitExceeded(_))));
    assert!(matches!(
        checked_add_with_limit(u64::MAX, 1, u64::MAX, "x"),
        Err(ArchiveError::LimitExceeded(_))
    ));
    assert_eq!(file_length(&vec![1, 2, 3]).unwrap(), 6);
    assert!(file_length(&vec![u64::MAX, 1]).is_err());
    assert!(same_windows_path("C:\\A", "c:\\a"));
    assert!(temporary_path(&Some("a.7z".to_owned()), 3, 9).contains("a.7z"));
}

#[test]
fn answers_for_all_are_kept() {
    let asked = RuntimePolicy::from_initial(InitialConflictPolicy::Ask);
    assert_eq!(asked.settled_choice(), None);
    assert_eq!(
        asked.latch(ConflictChoice::SkipAll).settled_choice(),
        Some(ConflictChoice::Skip)
    );
    assert_eq!(asked.latch(ConflictChoice::Overwrite).settled_choice(), None);
}

#[test]
fn repaired_paths_must_match_the_entries() {
    let mut entries = Vec::new();
    let repaired = vec![RepairedPath { path: vec!["a".to_owned()], display_path: "a".to_owned() }];
    assert!(matches!(
        archive_rclick::listing::repair_lzh_paths(&mut entries, repaired),
        Err(ArchiveError::SevenZip(text))
            if text == "LZH readers disagree about the entry count (7z: 0, libarchive: 1)"
    ));
}

#[test]
fn foreign_and_truncated_files_are_no_archives() {
    let engine = CompositeEngine::new(libarchive(), Some(engine(working())));
    let text: &[u8] = b"This is a text file, not an archive.\n";
    let cases: &[(&str, &[u8], Route)] = &[
        ("empty.zip", b"", Route::LibArchive),
        ("short.zip", b"x", Route::LibArchive),
        ("exe.zip", b"MZ\x90\0This executable has no archive payload", Route::LibArchive),
        ("text.zip", text, Route::LibArchive),
        ("text.7z", text, Route::LibArchive),
        ("text.iso", text, Route::SevenZip),
        ("text.lzh", text, Route::SevenZip),
        ("text.zip.001", text, Route::SevenZip),
        ("truncated.zip", b"PK\x03\x04junk", Route::SevenZip),
        ("truncated.7z", b"7z\xbc\xaf\x27\x1cjunk", Route::SevenZip),
        ("truncated.rar", b"Rar!\x1a\x07\x01\x00junk", Route::SevenZip),
    ];
    for &(name, bytes, route) in cases {
        let format = archive_format(name, Some(bytes));
        assert_eq!(engine.read_route(format), route, "{name}");
        assert_eq!(format.is_some(), route == Route::SevenZip, "{name}");
        for kind in [ReadKind::List, ReadKind::Test] {
            let mut run = ReadRun::start(kind, false).unwrap();
            run.measured(Ok(bytes.len() as u64));
            run.identified(format);
            if format.is_none() {
                // Such a file is never handed to this engine.
                assert_eq!(run.stage, ReadStage::Failed);
                continue;
            }
            if run.stage == ReadStage::ReadNames {
                run.step_done(Ok(()));
            }
            assert_eq!(run.stage, ReadStage::Open);
            run.opened(name, S_FALSE, false);
            assert_eq!(run.stage, ReadStage::Failed);
            assert!(
                matches!(&run.error, Some(ArchiveError::InvalidArchive(path)) if path == name),
                "{name}"
            );
        }
    }
    let mut run = ReadRun::start(ReadKind::List, false).unwrap();
    run.measured(Ok(8));
    run.identified(Some(ReadFormat::SevenZip));
    run.opened("a.7z", S_FALSE, true);
    assert!(matches!(run.error, Some(ArchiveError::PasswordRequired)));
    let mut run = ReadRun::start(ReadKind::List, false).unwrap();
    run.measured(Ok(8));
    run.identified(Some(ReadFormat::SevenZip));
    run.opened("a.7z", S_OK, false);
    assert_eq!(run.stage, ReadStage::ReadEntries);
}

fn search(name: &str, files: &[&str]) -> Option<Vec<String>> {
    let mut present = 0;
    let mut ended = false;
    loop {
        match split_volume_paths(name, present, ended) {
            VolumeSearch::Probe(probe) => {
                if files.contains(&probe.as_str()) {
                    present += 1;
                } else {
                    ended = true;
                }
            }
            VolumeSearch::Found(found) => return found,
        }
    }
}

#[test]
fn the_longest_run_of_volumes_is_found_from_any_of_them() {
    let files = ["a.7z.001", "a.7z.002", "a.7z.003", "a.7z.005", "b.7z.002"];
    let run = Some(vec!["a.7z.001".to_owned(), "a.7z.002".to_owned(), "a.7z.003".to_owned()]);
    for name in ["a.7z.001", "a.7z.002", "a.7z.005", "a.7z.999"] {
        assert_eq!(search(name, &files), run, "{name}");
    }
    assert_eq!(search("b.7z.002", &files), None);
    assert_eq!(search("a.7z", &files), None);
}
