use archive_rclick::command_line::{build_args, quote_windows_arg};
use archive_rclick::context_menu::{
    archive_stem, build_targeted_args, compression_suffix, is_archive_name, is_archive_path,
    is_multi_folder_selection, menu_verbs, shorten_compression_name, shorten_menu_name,
    shorten_menu_name_with_suffix, split_volume_base_name, verb_label, DestinationNames,
    SelectedPath, Verb,
};
use archive_rclick::ffi::{guid, E_FAIL, E_NOINTERFACE, E_POINTER, S_FALSE, S_OK};
use archive_rclick::menu_registration::{
    change_outcome, forbidden_key_list, is_context_menu_registered, register_context_menu,
    required_key_list, unregister_context_menu,
};
use archive_rclick::registry::RegistryOp;
use archive_rclick::shell_ext::{
    bitmap_bytes, factory_kind, find_exe_path, module_file_name, read_registry_string, server_code,
    wide, write_wide_buffer, ArchiveContextMenu, ArchiveVerbCommand, FactoryKind, ItemPaths,
    LiveObjects, PathRoom, CLASS_E_CLASSNOTAVAILABLE, CMF_DEFAULTONLY, ECS_ENABLED, ECS_HIDDEN,
    E_NOTIMPL, GCS_HELPTEXTW, GCS_VERBW,
};

fn file(name: &str) -> SelectedPath {
    SelectedPath {
        path: format!("C:\\work\\{name}"),
        name: Some(name.to_owned()),
        is_file: true,
        is_dir: false,
    }
}

fn folder(name: &str) -> SelectedPath {
    SelectedPath { is_file: false, is_dir: true, ..file(name) }
}

fn names() -> DestinationNames {
    DestinationNames {
        folder: Some("one".to_owned()),
        zip: Some("work.zip".to_owned()),
        seven_zip: Some("work.7z".to_owned()),
    }
}

fn verbs(items: &[(Verb, String)]) -> Vec<Verb> {
    items.iter().map(|(verb, _)| *verb).collect()
}

#[test]
fn command_line_quoting_keeps_a_root_folder_argument_intact() {
    assert_eq!(build_args("zip", &vec![r"C:\".to_owned()]), r#""zip" "C:\\""#);
}

#[test]
fn right_drag_extract_arguments_use_the_drop_destination() {
    let args = build_targeted_args(
        Verb::Extract,
        r"C:\Drop Folder",
        &vec![r"C:\Source Folder\sample.zip".to_owned()],
    );
    assert_eq!(args, r#""extract-to" "C:\Drop Folder" "C:\Source Folder\sample.zip""#);
}

#[test]
fn right_drag_compress_arguments_use_the_drop_destination() {
    let args = build_targeted_args(
        Verb::Zip,
        r"C:\Drop Folder",
        &vec![r"C:\Source Folder\sample".to_owned()],
    );
    assert_eq!(args, r#""zip-to" "C:\Drop Folder" "C:\Source Folder\sample""#);
}

#[test]
fn quotes_and_backslashes_are_escaped() {
    assert_eq!(quote_windows_arg(""), r#""""#);
    assert_eq!(quote_windows_arg(r#"a"b"#), r#""a\"b""#);
    assert_eq!(quote_windows_arg(r#"a\"b"#), r#""a\\\"b""#);
    assert_eq!(quote_windows_arg(r"a\b c"), r#""a\b c""#);
    assert_eq!(quote_windows_arg(r"a\\"), r#""a\\\\""#);
}

#[test]
fn short_names_are_kept_whole() {
    assert_eq!(shorten_menu_name("보고서.zip"), "보고서.zip");
    assert_eq!(shorten_menu_name("a".repeat(30).as_str()), "a".repeat(30));
}

#[test]
fn long_names_are_cut_to_30_characters() {
    let long = "이것은매우긴파일이름입니다정말정말정말정말정말긴파일이름입니다";
    let shortened = shorten_menu_name(long);
    assert_eq!(shortened.chars().count(), 30);
    let expected: String = long.chars().take(29).collect::<String>() + "…";
    assert_eq!(shortened, expected);
}

#[test]
fn extraction_names_with_dots_are_cut_without_preserving_the_suffix() {
    let long = "very-long-file-name-that-goes-on-and-on-and-on.zip";
    let shortened = shorten_menu_name(long);
    assert_eq!(shortened.chars().count(), 30);
    let expected: String = long.chars().take(29).collect::<String>() + "…";
    assert_eq!(shortened, expected);
}

#[test]
fn long_7z_names_keep_the_extension_and_original_case() {
    let long = "very-long-file-name-that-goes-on-and-on-and-on.7Z";
    let shortened = shorten_compression_name(long);
    assert_eq!(shortened.chars().count(), 30);
    assert!(shortened.ends_with(".7Z"));
    let expected: String = long.chars().take(26).collect::<String>() + "…" + ".7Z";
    assert_eq!(shortened, expected);
}

#[test]
fn long_zip_names_keep_the_extension_visible() {
    let long = "archive-with-a-name-that-is-longer-than-the-menu-limit.zip";
    let shortened = shorten_compression_name(long);
    assert_eq!(shortened.chars().count(), 30);
    assert!(shortened.ends_with(".zip"));
    let expected: String = long.chars().take(25).collect::<String>() + "…" + ".zip";
    assert_eq!(shortened, expected);
}

#[test]
fn other_suffixes_are_not_preserved_for_compression_labels() {
    let extension = format!(".{}", "x".repeat(29));
    let long = format!("archive{extension}");
    let shortened = shorten_compression_name(&long);
    let expected: String = long.chars().take(29).collect::<String>() + "…";
    assert_eq!(shortened, expected);
}

#[test]
fn a_suffix_that_fills_the_label_is_kept() {
    let long = "a".repeat(40);
    let suffix = "b".repeat(30);
    assert_eq!(shorten_menu_name_with_suffix(&long, &suffix), suffix);
    assert_eq!(compression_suffix("A.ZIP"), ".ZIP");
    assert_eq!(compression_suffix("a.tar"), "");
}

#[test]
fn multiple_archives_show_extract_and_compress_actions() {
    let single = menu_verbs(&vec![file("one.zip")], &names());
    assert_eq!(verbs(&single), vec![Verb::Extract]);
    assert_eq!(single[0].1, "one\\ 에 풀기");

    let split = menu_verbs(&vec![file("split.7z.001")], &names());
    assert_eq!(verbs(&split), vec![Verb::Extract]);

    let iso = menu_verbs(&vec![file("installer.iso")], &names());
    assert_eq!(verbs(&iso), vec![Verb::Extract]);

    let multiple = menu_verbs(&vec![file("one.zip"), file("two.7z")], &names());
    assert_eq!(verbs(&multiple), vec![Verb::Extract, Verb::Zip, Verb::SevenZip]);
    assert_eq!(multiple[0].1, "각각의 폴더에 풀기");
    assert_eq!(multiple[1].1, "work.zip으로 압축하기");
    assert_eq!(multiple[2].1, "work.7z로 압축하기");
}

#[test]
fn multiple_folders_use_per_folder_compression_commands() {
    let items = menu_verbs(&vec![folder("one"), folder("two")], &names());
    assert_eq!(
        verbs(&items),
        vec![Verb::Zip, Verb::SevenZip, Verb::ZipEach, Verb::SevenZipEach]
    );
    assert_eq!(items[0].1, "선택한 폴더를 하나의 ZIP으로 압축하기");
    assert_eq!(items[1].1, "선택한 폴더를 하나의 7z으로 압축하기");
    assert_eq!(items[2].1, "각 폴더를 각각 ZIP으로 압축하기");
    assert_eq!(items[3].1, "각 폴더를 각각 7z으로 압축하기");
    assert_eq!(Verb::Zip.subcommand(), "zip");
    assert_eq!(Verb::SevenZip.subcommand(), "7z");
    assert_eq!(Verb::ZipEach.subcommand(), "zip-each");
    assert_eq!(Verb::SevenZipEach.subcommand(), "7z-each");
    assert!(is_multi_folder_selection(&vec![folder("one"), folder("two")]));
    assert!(!is_multi_folder_selection(&vec![folder("one")]));
}

#[test]
fn files_and_folders_together_are_compressed() {
    let items = menu_verbs(&vec![file("one.zip"), folder("two")], &names());
    assert_eq!(verbs(&items), vec![Verb::Zip, Verb::SevenZip]);
    assert!(menu_verbs(&Vec::new(), &names()).is_empty());
    let nameless = DestinationNames { folder: None, zip: None, seven_zip: None };
    let items = menu_verbs(&vec![file("a.txt")], &nameless);
    assert_eq!(items[0].1, "archive.zip으로 압축하기");
    assert_eq!(items[1].1, "archive.7z로 압축하기");
    let items = menu_verbs(&vec![file("report.tar.gz")], &nameless);
    assert_eq!(items[0].1, "report\\ 에 풀기");
    assert_eq!(verb_label(Verb::ZipEach, &vec![file("a.txt")], &names()), None);
}

#[test]
fn archives_are_known_by_their_names() {
    assert!(is_archive_path(&file("사진.ZIP")));
    assert!(is_archive_path(&file("A.TBZ2")));
    assert!(!is_archive_path(&folder("a.zip")));
    assert!(!is_archive_path(&file("a.txt")));
    // Lower case of letters outside ASCII: the last letter of the Turkish
    // spelling is not an ASCII letter in lower case.
    assert!(!is_archive_path(&file("a.Z\u{130}P")));
    assert!(is_archive_name("a.7z.001"));
    assert!(!is_archive_name("a.rar.001"));
    assert_eq!(split_volume_base_name("A.Zip.0001"), Some("A.Zip".to_owned()));
    assert_eq!(split_volume_base_name("a.zip.01"), None);
    assert_eq!(split_volume_base_name("a.zip.0x1"), None);
}

#[test]
fn stems_name_the_folder() {
    let stem = |name: &str| archive_stem(&Some(name.to_owned()));
    assert_eq!(stem("report.zip"), "report");
    assert_eq!(stem("report.7z.001"), "report");
    assert_eq!(stem("report.TAR.zst"), "report");
    assert_eq!(stem(".tar.gz"), "압축파일");
    assert_eq!(stem(".zip"), ".zip");
    assert_eq!(stem("a.b.c"), "a.b");
    assert_eq!(archive_stem(&None), "압축파일");
}

fn menu() -> ArchiveContextMenu {
    let mut menu = ArchiveContextMenu::new();
    menu.initialize(None, vec![file("one.zip"), file("two.7z")]);
    menu
}

#[test]
fn items_are_numbered_in_the_order_they_stand() {
    let mut menu = menu();
    let mut query = menu.query_context_menu(&names(), 3, 100, 200, 0);
    let first = query.next().unwrap();
    assert_eq!((first.position, first.id, first.item), (3, 100, 0));
    query.placed(false);
    let second = query.next().unwrap();
    assert_eq!((second.position, second.id, second.item), (3, 100, 1));
    query.placed(true);
    let third = query.next().unwrap();
    assert_eq!((third.position, third.id, third.item), (4, 101, 2));
    query.placed(true);
    assert!(query.next().is_none());
    assert_eq!(menu.filled(query), 2);
    assert_eq!(menu.active_verbs, vec![Verb::Zip, Verb::SevenZip]);
}

#[test]
fn numbers_run_out_and_default_menus_stay_empty() {
    let mut menu = menu();
    let mut query = menu.query_context_menu(&names(), 0, 7, 7, 0);
    assert!(query.next().is_some());
    query.placed(true);
    assert!(query.next().is_none());
    assert_eq!(menu.filled(query), 1);
    let query = menu.query_context_menu(&names(), 0, 7, 9, CMF_DEFAULTONLY);
    assert!(query.next().is_none());
    assert_eq!(menu.filled(query), 0);
    let query = menu.query_context_menu(&names(), 0, 9, 7, 0);
    assert!(query.next().is_none());
}

#[test]
fn commands_run_the_program() {
    let mut menu = menu();
    menu.active_verbs = vec![Verb::Extract, Verb::Zip];
    let program = || Some("C:\\app.exe".to_owned());
    let launch = menu.invoke_command(Some(1), program()).unwrap().unwrap();
    assert_eq!(launch.program, "C:\\app.exe");
    assert_eq!(launch.line, r#""zip" "C:\work\one.zip" "C:\work\two.7z""#);
    assert!(matches!(menu.invoke_command(None, program()), Err(E_POINTER)));
    assert!(matches!(menu.invoke_command(Some(2), program()), Err(E_FAIL)));
    assert!(matches!(menu.invoke_command(Some(0x1_0000), program()), Err(E_FAIL)));
    assert!(menu.invoke_command(Some(0), None).unwrap().is_none());
    menu.target_folder = Some("D:\\drop".to_owned());
    let launch = menu.invoke_command(Some(0), program()).unwrap().unwrap();
    assert_eq!(launch.line, r#""extract-to" "D:\drop" "C:\work\one.zip" "C:\work\two.7z""#);
    assert_eq!(menu.get_command_string(1, GCS_VERBW, &names()), Ok("zip".to_owned()));
    assert_eq!(
        menu.get_command_string(0, GCS_HELPTEXTW, &names()),
        Ok("ArchiveRclick: 각각의 폴더에 풀기".to_owned())
    );
    assert_eq!(menu.get_command_string(0, 1, &names()), Err(E_NOTIMPL));
    assert_eq!(menu.get_command_string(9, GCS_VERBW, &names()), Err(E_FAIL));
}

#[test]
fn modern_commands_answer_for_a_selection() {
    let mut command = ArchiveVerbCommand::new(Verb::ZipEach);
    assert_eq!(
        command.get_tool_tip(&names()),
        "ArchiveRclick: Create one ZIP archive for each selected folder"
    );
    assert_eq!(command.get_state(&None, &names()), ECS_HIDDEN);
    assert_eq!(command.get_state(&Some(vec![file("a.txt")]), &names()), ECS_HIDDEN);
    assert_eq!(
        command.get_state(&Some(vec![folder("one"), folder("two")]), &names()),
        ECS_ENABLED
    );
    assert_eq!(
        command.get_title(vec![folder("one"), folder("two")], &names()),
        Some("각 폴더를 각각 ZIP으로 압축하기".to_owned())
    );
    assert_eq!(command.get_tool_tip(&names()), "ArchiveRclick: 각 폴더를 각각 ZIP으로 압축하기");
    assert_eq!(command.get_icon(Some("C:\\app.exe".to_owned())), Ok("C:\\app.exe,0".to_owned()));
    assert_eq!(command.get_icon(None), Err(E_NOTIMPL));
    let launch = command.invoke(vec![folder("one")], Some("x".to_owned())).unwrap();
    assert_eq!(launch.line, r#""zip-each" "C:\work\one""#);
    assert!(command.invoke(Vec::new(), Some("x".to_owned())).is_none());
}

#[test]
fn selections_come_in_batches() {
    let mut items = ItemPaths::new();
    let path = |n: u16| Some(vec![0x61, n]);
    items.add_batch(vec![path(1), None, path(2), Some(Vec::new()), path(3), path(4), path(5), path(6)]);
    assert!(!items.done);
    items.add_batch(vec![path(7)]);
    assert!(items.done);
    assert_eq!(items.paths.len(), 7);
    assert_eq!(items.paths[6], vec![0x61, 7]);
}

#[test]
fn the_library_stays_while_it_is_held() {
    let mut live = LiveObjects::new();
    assert_eq!(live.can_unload_now(), S_OK);
    live.decrement();
    assert_eq!(live.count, 0);
    let class = |first: u32| guid(first, 0x9D3E, 0x4F5A, 0x8C, 0x7B, 0x1E, 0x2F, 0x3A, 0x4B, 0x5C, 0x6D);
    assert_eq!(live.get_class_object(true, class(0x6B2B_1C4A)), Ok(FactoryKind::Classic));
    assert_eq!(live.can_unload_now(), S_FALSE);
    assert_eq!(
        live.get_class_object(true, class(0x6B2B_1C4F)),
        Ok(FactoryKind::ExplorerCommand(Verb::SevenZipEach))
    );
    assert_eq!(live.get_class_object(true, class(0x6B2B_1C50)), Err(CLASS_E_CLASSNOTAVAILABLE));
    assert_eq!(live.get_class_object(false, class(0x6B2B_1C4A)), Err(E_POINTER));
    assert_eq!(live.count, 2);
    assert_eq!(live.create_instance(FactoryKind::Classic, true, true), Err(E_NOINTERFACE));
    assert_eq!(live.create_instance(FactoryKind::Classic, false, false), Err(E_POINTER));
    assert_eq!(live.create_instance(FactoryKind::Classic, false, true), Ok(FactoryKind::Classic));
    live.lock_server(true);
    live.lock_server(false);
    assert_eq!(live.count, 3);
    assert_eq!(factory_kind(guid(0, 0, 0, 0, 0, 0, 0, 0, 0, 0, 0)), None);
}

#[test]
fn paths_and_texts_fit_their_room() {
    assert_eq!(module_file_name(512, 0), PathRoom::Missing);
    assert_eq!(module_file_name(512, 511), PathRoom::Fits);
    assert_eq!(module_file_name(512, 512), PathRoom::Grow(1024));
    assert_eq!(module_file_name(32_768, 32_768), PathRoom::Missing);
    assert_eq!(wide("A"), vec![0x41, 0]);
    assert_eq!(write_wide_buffer("ABC", true, 3), Ok(vec![0x41, 0x42, 0]));
    assert_eq!(write_wide_buffer("ABC", true, 9), Ok(vec![0x41, 0x42, 0x43, 0]));
    assert_eq!(write_wide_buffer("ABC", true, 0), Err(E_POINTER));
    assert_eq!(bitmap_bytes(16, 16), Some(1024));
    assert_eq!(bitmap_bytes(0, 5), Some(20));
    let there = |path: &str| Some((path.to_owned(), true));
    let gone = |path: &str| Some((path.to_owned(), false));
    assert_eq!(find_exe_path(there("a"), there("b")), Some("a".to_owned()));
    assert_eq!(find_exe_path(gone("a"), there("b")), Some("b".to_owned()));
    assert_eq!(find_exe_path(None, gone("b")), None);
    assert_eq!(read_registry_string(&None), None);
    assert_eq!(read_registry_string(&Some(vec![0, 0])), None);
    let stored = Some(vec![0x61, 0, 0x2d, 0x4e, 0, 0, 0, 0]);
    assert_eq!(read_registry_string(&stored), Some("a\u{4e2d}".to_owned()));
    assert_eq!(server_code(None), E_FAIL);
    assert_eq!(server_code(Some(Ok(()))), S_OK);
    assert_eq!(server_code(Some(Err("x".to_owned()))), E_FAIL);
}

fn keys_after(start: &[String], ops: &[RegistryOp]) -> Vec<String> {
    let mut keys = start.to_vec();
    for op in ops {
        match op {
            RegistryOp::SetDefault(key, _) | RegistryOp::SetNamed(key, _, _) => {
                if !keys.contains(key) {
                    keys.push(key.clone());
                }
            }
            RegistryOp::DeleteTree(tree) => {
                let below = format!("{tree}\\");
                keys.retain(|key| key != tree && !key.starts_with(&below));
            }
            RegistryOp::DeleteValue(_, _) => {}
        }
    }
    keys
}

#[test]
fn registering_and_unregistering_the_menu() {
    let ops = register_context_menu("C:\\app\\core.dll", true, Some("C:\\app\\archive-rclick.exe".to_owned()))
        .unwrap();
    assert_eq!(ops.len(), 55);
    let before: Vec<String> = forbidden_key_list();
    assert!(!is_context_menu_registered(&before));
    let registered = keys_after(&before, &ops);
    assert!(is_context_menu_registered(&registered));
    assert!(registered.contains(
        &"Software\\Classes\\CLSID\\{6B2B1C4A-9D3E-4F5A-8C7B-1E2F3A4B5C6D}\\InprocServer32".to_owned()
    ));
    let undo = unregister_context_menu();
    assert_eq!(undo.len(), 23);
    let after = keys_after(&registered, &undo);
    assert!(!is_context_menu_registered(&after));
    assert!(required_key_list().iter().all(|key| !after.contains(key)));
    assert!(matches!(
        register_context_menu("C:\\core.dll", false, None),
        Err(text) if text == "The shell extension DLL does not exist: C:\\core.dll"
    ));
    assert!(matches!(
        register_context_menu("C:\\core.dll", true, None),
        Err(text) if text == "could not resolve the shell extension directory"
    ));
}

#[test]
fn registry_failures_are_told() {
    let set = RegistryOp::SetDefault("K".to_owned(), "V".to_owned());
    let tree = RegistryOp::DeleteTree("K".to_owned());
    let value = RegistryOp::DeleteValue("K".to_owned(), "N".to_owned());
    let shown = "WIN32_ERROR(5)";
    assert_eq!(
        change_outcome(&set, 5, 0, shown),
        Err("could not open registry key K (error WIN32_ERROR(5))".to_owned())
    );
    assert_eq!(
        change_outcome(&set, 0, 5, shown),
        Err("could not write registry value K (error WIN32_ERROR(5))".to_owned())
    );
    assert_eq!(change_outcome(&tree, 0, 2, shown), Ok(()));
    assert_eq!(
        change_outcome(&tree, 0, 5, shown),
        Err("could not delete registry key K (error WIN32_ERROR(5))".to_owned())
    );
    assert_eq!(
        change_outcome(&value, 0, 5, shown),
        Err("could not delete registry value K\\N (error WIN32_ERROR(5))".to_owned())
    );
    assert_eq!(change_outcome(&value, 0, 0, shown), Ok(()));
}

#[test]
fn unregistering_the_menu_keeps_the_settings() {
    let own = "Software\\ArchiveRclick";
    for op in unregister_context_menu() {
        match op {
            RegistryOp::DeleteTree(key) => {
                assert!(key.starts_with("Software\\Classes\\"), "{key}");
            }
            RegistryOp::DeleteValue(key, name) => {
                assert_eq!((key.as_str(), name.as_str()), (own, "ExePath"));
            }
            other => panic!("{other:?}"),
        }
    }
}
