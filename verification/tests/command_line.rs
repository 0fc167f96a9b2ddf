use archive_rclick::cli::{
    archive_error, check_inputs, check_new_archive, conflict_answer, drop_repeats, exit_code,
    expansion, extract_selection, failure, flattens, inputs_or_all, list_path,
    listing_lines, name_format, parse_switch, read_list, selects_entry, sort_paths, summary_lines,
    usage, Accepted, Args, CliError, Expansion, FoundName, InputSearch, Parsed, Parser, Switch,
};
use archive_rclick::cli_run::{
    begin, gather_inputs, info_report, list_report, listed, prepare_extraction, summary_report,
    CliStep,
};
use archive_rclick::error::ArchiveError;
use archive_rclick::listing::ArchiveListing;
use archive_rclick::options::{
    parse_volume_size, ArchiveEntry, ArchiveEntryKind, ConflictChoice, CreateFormat, ExtractSelection,
    InitialConflictPolicy, OperationSummary, ThreadCount, ZipBackend,
};
use archive_rclick::wildcard::{matches_pattern, wildcard};

fn parse(raw: &[&str]) -> Result<Parsed, CliError> {
    let mut parser = Parser::new("zlib-rs");
    for arg in raw {
        parser.accept((*arg).to_owned())?;
    }
    parser.finish()
}

fn strings(list: &[&str]) -> Vec<String> {
    list.iter().map(|text| (*text).to_owned()).collect()
}

fn entry(display_path: &str, size: Option<u64>, kind: ArchiveEntryKind) -> ArchiveEntry {
    ArchiveEntry {
        index: 0,
        path: display_path.split('/').map(str::to_owned).collect(),
        display_path: display_path.to_owned(),
        size,
        compressed_size: Some(3),
        modified_unix_seconds: None,
        kind,
        encrypted: true,
    }
}

#[test]
fn explicit_zip_backend_overrides_saved_preference() {
    for backend in [ZipBackend::SevenZip, ZipBackend::ZlibNg, ZipBackend::ZlibRs] {
        let switch = format!("-zip-backend={}", backend.registry_key());
        let args = parse(&["a", "test.zip", &switch]).unwrap().args;
        assert_eq!(args.create.zip_backend, backend);
        assert_eq!(args.extract.zip_backend, backend);
    }
}

#[test]
fn invalid_zip_backend_is_a_command_line_error() {
    for value in ["", "zlib", "ZLIB-NG", "unknown"] {
        let switch = format!("-zip-backend={value}");
        let error = parse(&["a", "test.zip", &switch]).err().unwrap();
        assert_eq!(error.0, 7);
        assert!(error.1.contains("ZIP backend"));
    }
}

#[test]
fn saved_backends_are_taken_without_a_switch() {
    let args = Args::initial("zlib-ng");
    assert_eq!(args.create.zip_backend, ZipBackend::ZlibNg);
    assert_eq!(args.extract.zip_backend, ZipBackend::ZlibNg);
    assert_eq!(args.create.format, CreateFormat::SevenZip);
    assert!(args.create.preserve_root);
    assert_eq!(args.output, ".");
    assert!(args.progress);
    assert!(!args.recursive);
}

#[test]
fn switches_are_applied() {
    let args = parse(&[
        "a", "-y", "-r", "-slt", "-bd", "-mhe=on", "-mmt=off", "-mx=9", "-oout", "-psecret",
        "-tTGZ", "-v100m", "-sccUTF-8", "-aos", "--", "new.zip", "-y",
    ])
    .unwrap();
    assert_eq!(args.inputs, strings(&["-y"]));
    let args = args.args;
    assert_eq!(args.archive, "new.zip");
    assert_eq!(args.extract.conflict_policy, InitialConflictPolicy::SkipAll);
    assert!(args.recursive && args.technical && !args.progress);
    assert!(args.create.encrypt_headers);
    assert_eq!(args.create.threads, ThreadCount::Exact(1));
    assert_eq!(args.extract.threads, ThreadCount::Exact(1));
    assert_eq!(args.create.compression_level, 9);
    assert_eq!(args.output, "out");
    assert_eq!(args.create.password.as_deref(), Some("secret"));
    assert_eq!(args.extract.password.as_deref(), Some("secret"));
    assert_eq!(args.create.format, CreateFormat::TarGzip);
    assert_eq!(args.create.split_size, Some(100 * 1024 * 1024));
}

#[test]
fn wrong_command_lines_are_refused() {
    let refused = |raw: &[&str]| {
        let (code, message) = parse(raw).err().unwrap();
        assert_eq!(code, 7);
        message
    };
    assert_eq!(refused(&[]), "Missing command");
    assert_eq!(refused(&["u"]), "Unsupported command: u");
    assert_eq!(refused(&["i", "x"]), "i does not accept an archive");
    assert_eq!(refused(&["x"]), "Missing archive path");
    assert_eq!(
        refused(&["t", "a.zip", "b"]),
        "t tests the entire archive; file filters are not supported"
    );
    assert_eq!(refused(&["a", "-q"]), "Unsupported switch: -q");
    assert_eq!(refused(&["a", "-o"]), "Unsupported switch: -o");
    assert_eq!(refused(&["a", "-mx=10"]), "-mx requires 0..9");
    assert_eq!(refused(&["a", "-mmt=0"]), "-mmt requires on, off, or 1..1024");
    assert_eq!(refused(&["a", "-mmt=1025"]), "-mmt requires on, off, or 1..1024");
    assert_eq!(refused(&["a", "-trar"]), "Unsupported archive type");
    assert_eq!(refused(&["a", "-v100"]), "Invalid split size (minimum 1 KiB)");
    assert_eq!(parse_volume_size("5000000000b"), Some(5_000_000_000));
    assert_eq!(parse_volume_size("17179869183g"), Some(18_446_744_072_635_809_792));
    assert_eq!(parse_volume_size("17179869184g"), None);
    assert_eq!(parse_volume_size("99999999999999999999"), None);
    assert_eq!(parse_volume_size("1023"), None);
    assert!(matches!(parse_switch("-mmt=on"), Ok(Switch::Threads(ThreadCount::Auto))));
    assert!(matches!(parse_switch("-mmt=+7"), Ok(Switch::Threads(ThreadCount::Exact(7)))));
    assert!(matches!(parse_switch("-mx=007"), Ok(Switch::Level(7))));
}

#[test]
fn typed_passwords_lose_their_line_end() {
    let mut parser = Parser::new("");
    assert!(matches!(parser.accept("-p".to_owned()), Ok(Accepted::AskPassword)));
    parser.args.set_typed_password("open sesame \r\n\r");
    assert_eq!(parser.args.create.password.as_deref(), Some("open sesame "));
    assert_eq!(parser.args.extract.password.as_deref(), Some("open sesame "));
}

#[test]
fn archive_names_choose_the_format() {
    assert_eq!(name_format("A.TAR.ZST"), Some(CreateFormat::TarZstd));
    assert_eq!(name_format("a.txz"), Some(CreateFormat::TarXz));
    assert_eq!(name_format("a.rar"), None);
    assert!(matches!(archive_rclick::cli::format("Tzst"), Ok(CreateFormat::TarZstd)));
    let args = parse(&["a", "backup"]).unwrap().args;
    assert_eq!(args.missing_extension(&Some("backup".to_owned())), Some("7z"));
    assert_eq!(args.missing_extension(&Some("backup.x".to_owned())), None);
    let args = parse(&["x", "backup"]).unwrap().args;
    assert_eq!(args.missing_extension(&Some("backup".to_owned())), None);
}

#[test]
fn list_files_give_a_path_a_line() {
    assert_eq!(list_path("@names.txt"), Some("names.txt".to_owned()));
    assert_eq!(list_path("names.txt"), None);
    assert_eq!(
        read_list("\u{feff}a.txt\r\n\n  \"b c.txt\"  \n\u{a0}d\n"),
        strings(&["a.txt", "b c.txt", "d"])
    );
}

#[test]
fn patterns_are_searched_in_their_directory() {
    let none: Option<String> = None;
    let some = |text: &str| Some(text.to_owned());
    assert!(matches!(expansion("a/b", &some("a"), &some("b")), Ok(Expansion::Path)));
    assert!(matches!(
        expansion(".", &some(""), &none),
        Ok(Expansion::Search(directory, mask)) if directory == "." && mask == "*"
    ));
    assert!(matches!(
        expansion("*.txt", &some(""), &some("*.txt")),
        Ok(Expansion::Search(directory, mask)) if directory == "." && mask == "*.txt"
    ));
    assert!(matches!(
        expansion("a/*", &some("a"), &some("*")),
        Ok(Expansion::Search(directory, mask)) if directory == "a" && mask == "*"
    ));
    assert!(matches!(
        expansion("?/b", &some("?"), &some("b")),
        Err((7, message)) if message == "Wildcards in directory components are not supported"
    ));
    assert!(matches!(
        expansion("*/..", &some("*"), &none),
        Err((7, message)) if message == "Invalid input pattern"
    ));
}

#[test]
fn searches_go_down_and_skip_links() {
    let name = |path: &str, name: &str, is_reparse: bool, is_dir: bool| FoundName {
        path: path.to_owned(),
        name: name.to_owned(),
        is_reparse,
        is_dir,
    };
    let mut search = InputSearch::new(".".to_owned(), "*.txt".to_owned(), true);
    assert_eq!(search.next_directory(), Some(".".to_owned()));
    search.add(&vec![
        name("./z.txt", "z.txt", false, false),
        name("./sub", "sub", false, true),
        name("./link", "link", true, true),
        name("./a.bin", "a.bin", false, false),
    ]);
    assert_eq!(search.next_directory(), Some("./sub".to_owned()));
    search.add(&vec![name("./sub/B.TXT", "B.TXT", false, false)]);
    assert_eq!(search.next_directory(), None);
    assert_eq!(search.finish("*.txt").unwrap(), strings(&["./sub/B.TXT", "./z.txt"]));
    let empty = InputSearch::new(".".to_owned(), "*.txt".to_owned(), false);
    assert!(matches!(
        empty.finish("*.txt"),
        Err((2, message)) if message == "No files match: *.txt"
    ));
}

#[test]
fn inputs_are_sorted_and_taken_once() {
    let inputs = gather_inputs(&vec![strings(&["b", "a"]), strings(&["c", "a"])]);
    assert_eq!(inputs, strings(&["a", "b", "c"]));
    assert_eq!(sort_paths(&strings(&["b", "a", "ab"])), strings(&["a", "ab", "b"]));
    assert_eq!(drop_repeats(&strings(&["a", "a", "b", "a"])), strings(&["a", "b", "a"]));
    // The same path in two spellings is taken once, as it was given first.
    let spellings = vec![strings(&["d/a", "b"]), strings(&["d\\a", "d//./a/", "d/b"])];
    assert_eq!(gather_inputs(&spellings), strings(&["b", "d/a", "d/b"]));
    assert_eq!(drop_repeats(&strings(&["c:\\a", "C:/a", "C:a"])), strings(&["c:\\a", "C:a"]));
    assert_eq!(drop_repeats(&strings(&["./a", "a", "/a"])), strings(&["./a", "a", "/a"]));
    assert_eq!(
        drop_repeats(&strings(&["\\\\s\\t\\a", "//s/t/./a", "\\s\\t\\a"])),
        strings(&["\\\\s\\t\\a", "\\s\\t\\a"])
    );
    assert_eq!(
        drop_repeats(&strings(&["\\\\?\\C:\\a", "\\\\?\\C:\\.\\a"])).len(),
        2
    );
    assert_eq!(
        sort_paths(&strings(&["!", "a/b", "..", "a!", "./a", "/a", "a", "C:/a", "C:a"])),
        strings(&["C:/a", "C:a", "/a", "./a", "..", "!", "a", "a/b", "a!"])
    );
    assert_eq!(inputs_or_all(Vec::new()), strings(&["*"]));
    assert_eq!(inputs_or_all(strings(&["x"])), strings(&["x"]));
}

#[test]
fn inputs_need_distinct_names() {
    let some = |text: &str| Some(text.to_owned());
    assert!(check_inputs(&vec![some("a"), some("b")]).is_ok());
    assert!(matches!(
        check_inputs(&vec![some("\u{c9}t\u{e9}"), some("\u{e9}T\u{c9}")]),
        Err((7, message))
            if message
                == "Input files have duplicate base names; select their common parent directory"
    ));
    assert!(matches!(
        check_inputs(&vec![some("a"), None]),
        Err((7, message)) if message == "Input needs a file name"
    ));
    assert!(check_new_archive(false, false).is_ok());
    assert!(matches!(check_new_archive(false, true), Err((2, _))));
    assert!(matches!(check_new_archive(true, false), Err((2, _))));
}

#[test]
fn wildcards_match_as_a_whole() {
    assert!(wildcard("*.*", "README"));
    assert!(wildcard("*.TXT", "a.txt"));
    assert!(wildcard("a?c", "abc"));
    assert!(!wildcard("a?c", "ac"));
    assert!(wildcard("a\\*", "A/b/c"));
    assert!(wildcard("*a*b*", "xxaxxbxx"));
    assert!(!wildcard("*a*b", "xxaxxbxx"));
    assert!(wildcard("*", "*a"));
    assert!(wildcard("", ""));
    assert!(!wildcard("", "a"));
    assert!(matches_pattern(&['*'], &[]));
    assert!(wildcard("plain.name", "plain.name"));
}

#[test]
fn filters_select_entries() {
    let file = entry("docs/read.me", Some(1), ArchiveEntryKind::File);
    assert!(selects_entry(&Vec::new(), false, &file));
    assert!(selects_entry(&strings(&["docs"]), false, &file));
    assert!(selects_entry(&strings(&["*.me"]), false, &file));
    assert!(!selects_entry(&strings(&["read.me"]), false, &file));
    assert!(selects_entry(&strings(&["read.me"]), true, &file));
    assert!(!selects_entry(&strings(&["doc"]), false, &file));
    let dotted = entry("a/./b", Some(1), ArchiveEntryKind::File);
    assert!(selects_entry(&strings(&["a/b"]), false, &dotted));
    assert!(selects_entry(&strings(&["a\\.\\b"]), false, &dotted));
    assert!(!selects_entry(&strings(&["./a/b"]), false, &dotted));
    assert!(!selects_entry(&strings(&["/a"]), false, &dotted));
    assert!(!selects_entry(&strings(&["C:/a"]), false, &dotted));
    let ended = entry("a/.", None, ArchiveEntryKind::Directory);
    assert!(selects_entry(&strings(&["a"]), true, &ended));
    let upward = entry("x/..", None, ArchiveEntryKind::Directory);
    assert!(!selects_entry(&strings(&[".."]), true, &upward));
    assert!(ExtractSelection::Paths(vec![dotted.path]).includes(&strings(&["a", "b"])));
    let entries = vec![file, entry("other", Some(1), ArchiveEntryKind::File)];
    assert!(matches!(
        extract_selection(&entries, &Vec::new(), false),
        Ok(ExtractSelection::All)
    ));
    assert!(matches!(
        extract_selection(&entries, &strings(&["oth*"]), false),
        Ok(ExtractSelection::Paths(paths)) if paths == vec![strings(&["other"])]
    ));
    assert!(matches!(
        extract_selection(&entries, &strings(&["none"]), false),
        Err((2, message)) if message == "No archive entries match the file filters"
    ));
    assert!(flattens("e"));
    assert!(!flattens("x"));
}

#[test]
fn extraction_takes_the_filters() {
    let mut args = parse(&["e", "a.zip"]).unwrap().args;
    args.files = strings(&["b"]);
    let entries = vec![
        entry("a", None, ArchiveEntryKind::File),
        entry("b", None, ArchiveEntryKind::File),
    ];
    prepare_extraction(&mut args, &entries).unwrap();
    assert!(args.extract.flatten_paths);
    assert!(matches!(
        args.extract.selection,
        ExtractSelection::Paths(paths) if paths == vec![strings(&["b"])]
    ));
}

#[test]
fn commands_lead_to_their_steps() {
    assert_eq!(begin("i"), CliStep::ShowInfo);
    assert_eq!(begin("a"), CliStep::Create);
    assert_eq!(begin("t"), CliStep::Test);
    assert_eq!(begin("x"), CliStep::List);
    assert_eq!(listed("l"), CliStep::ShowListing);
    assert_eq!(listed("e"), CliStep::Extract);
}

#[test]
fn listings_are_shown() {
    let file = entry("a/b", None, ArchiveEntryKind::File);
    let folder = entry("a", Some(1_234_567_890_123), ArchiveEntryKind::Directory);
    assert_eq!(listing_lines(&file, false), "           0  F  a/b");
    assert_eq!(listing_lines(&folder, false), "1234567890123  D  a");
    assert_eq!(
        listing_lines(&file, true),
        "Path = a/b\nSize = 0\nPacked Size = 3\nFolder = -\nEncrypted = +\n"
    );
    let listing = ArchiveListing {
        archive_path: "x.7z".to_owned(),
        format_name: "7z".to_owned(),
        filter_name: None,
        warning: Some("odd".to_owned()),
        entries: vec![file, folder],
        total_uncompressed_size: 0,
    };
    let args = parse(&["l", "x.7z"]).unwrap().args;
    let report = list_report("x.7z", &listing, &args);
    assert_eq!(
        report.output,
        "\nPath = x.7z\nType = 7z\n\n           0  F  a/b\n1234567890123  D  a\n"
    );
    assert_eq!(report.warning.as_deref(), Some("WARNING: odd\n"));
    assert_eq!(report.code, 1);
}

#[test]
fn results_are_shown() {
    let summary = |warning: Option<&str>| OperationSummary {
        entries_processed: 2,
        entries_skipped: 1,
        bytes_processed: 30,
        warning: warning.map(str::to_owned),
    };
    assert_eq!(summary_lines(&summary(None)), "Files: 2\nSize: 30\nSkipped: 1");
    let report = summary_report(&summary(None));
    assert_eq!(report.output, "Files: 2\nSize: 30\nSkipped: 1\nEverything is Ok\n");
    assert_eq!((report.warning, report.code), (None, 0));
    let report = summary_report(&summary(Some("odd")));
    assert_eq!(report.output, "Files: 2\nSize: 30\nSkipped: 1\n");
    assert_eq!((report.warning.as_deref(), report.code), (Some("WARNING: odd\n"), 1));
    assert_eq!((exit_code(true), exit_code(false)), (1, 0));
    let report = info_report("7-Zip 24", &vec![CreateFormat::Zip, CreateFormat::TarGzip]);
    assert_eq!(report.output, "7-Zip 24\nWritable formats: [Zip, TarGzip]\n");
    assert_eq!(info_report("v", &Vec::new()).output, "v\nWritable formats: []\n");
}

#[test]
fn errors_have_exit_codes() {
    assert_eq!(usage("u"), (7, "u".to_owned()));
    assert_eq!(failure("f"), (2, "f".to_owned()));
    assert_eq!(archive_error(&ArchiveError::Cancelled, "c"), (255, "c".to_owned()));
    assert_eq!(archive_error(&ArchiveError::PasswordRequired, "p"), (2, "p".to_owned()));
}

#[test]
fn answers_are_read_without_case() {
    assert_eq!(conflict_answer(" YES\n"), ConflictChoice::Overwrite);
    assert_eq!(conflict_answer("n"), ConflictChoice::Skip);
    assert_eq!(conflict_answer("A\r\n"), ConflictChoice::OverwriteAll);
    assert_eq!(conflict_answer("s"), ConflictChoice::SkipAll);
    assert_eq!(conflict_answer("all"), ConflictChoice::Cancel);
    assert_eq!(conflict_answer(""), ConflictChoice::Cancel);
}
