use archive_rclick::associations::{
    extension_list, quote_windows_argument, register_file_associations,
    unregister_file_associations,
};
use archive_rclick::drop_target::{
    dropped_paths, find_main_window, install_file_drop_handler, message_action, MessageAction,
    WindowFacts, WM_DROPFILES,
};
use archive_rclick::explorer_drag::{
    canonical_format, drag_outcome, file_format, get_data, lists_formats, make_hdrop,
    query_continue_drag, query_file_format, query_get_data, start_file_drag, DataFormat,
    FileFormatEnumerator, DATA_S_SAMEFORMATETC, DRAGDROP_S_CANCEL, DRAGDROP_S_DROP, DV_E_FORMATETC,
};
use archive_rclick::fallback;
use archive_rclick::ffi::{E_POINTER, S_FALSE, S_OK};
use archive_rclick::registry::{
    op_outcome, read_string_value, read_text_value, require_deleted, require_success, RegistryOp,
};
use archive_rclick::settings::{
    font_family_installed, load_font_preference, load_language_preference, load_theme_preference,
    load_thread_preference, load_window_geometry, preference_saved, resolve_font_family,
    save_font_preference, save_window_geometry, value_name_matches, window_value_saved,
    StoredGeometry, WindowGeometry,
};
use archive_rclick::shell::{
    open_file, open_url, reveal_in_explorer, shell_execute, PathFacts, ShellTarget,
};
use archive_rclick::text::utf16_bytes;
use archive_rclick::titlebar::{rgb, apply_window_theme};
use archive_rclick::zone_identifier::{
    file_carries_origin, stream_path, OriginRead, StreamError, ZoneIdentifier,
};
use archive_rclick::error::ArchiveError;

#[test]
fn registry_strings_are_terminated_utf16() {
    assert_eq!(utf16_bytes("A"), vec![65, 0, 0, 0]);
}

#[test]
fn executable_paths_are_quoted() {
    assert_eq!(
        quote_windows_argument(r"C:\Program Files\app.exe"),
        r#""C:\Program Files\app.exe""#
    );
}

#[test]
fn font_value_names_match_by_prefix() {
    assert!(value_name_matches("Noto Sans JP (TrueType)", "noto sans jp"));
    assert!(value_name_matches(
        "Yu Gothic Regular & Yu Gothic UI Semilight (TrueType)",
        "yu gothic"
    ));
    assert!(!value_name_matches("Meiryo (TrueType)", "noto sans jp"));
    assert!(!value_name_matches("Noto Sans KR (TrueType)", "noto sans jp"));
}

#[test]
fn registering_associations_is_undone() {
    let ops = register_file_associations("app.exe", Ok(("C:\\app.exe".to_owned(), true))).unwrap();
    assert_eq!(ops.len(), 38);
    assert!(matches!(
        &ops[2],
        RegistryOp::SetDefault(_, value) if value == "\"C:\\app.exe\" \"%1\""
    ));
    for op in &ops {
        match op {
            RegistryOp::SetDefault(key, _) => {
                assert!(key.starts_with("Software\\Classes\\ArchiveRclick.Archive"));
            }
            RegistryOp::SetNamed(key, name, _) => {
                assert!(name.starts_with("ArchiveRclick") || key.starts_with("Software\\ArchiveRclick"));
            }
            other => panic!("{other:?}"),
        }
    }
    assert_eq!(unregister_file_associations().len(), 19);
    for extension in extension_list() {
        let list = format!("Software\\Classes\\{extension}\\OpenWithProgids");
        assert!(unregister_file_associations().iter().any(|op| matches!(
            op,
            RegistryOp::DeleteValue(key, name) if *key == list && name == "ArchiveRclick.Archive"
        )));
    }
    assert_eq!(extension_list().len(), 16);
    assert!(matches!(
        register_file_associations("app.exe", Ok(("C:\\app.exe".to_owned(), false))),
        Err(text) if text == "Executable does not exist: C:\\app.exe"
    ));
    assert!(matches!(
        register_file_associations("app.exe", Err("gone".to_owned())),
        Err(text) if text == "Could not resolve app.exe: gone"
    ));
}

#[test]
fn stored_texts_read_back() {
    assert_eq!(read_text_value(&utf16_bytes("한글")), "한글");
    assert_eq!(read_text_value(&utf16_bytes("\u{1F4E6}a")), "\u{1F4E6}a");
    // Surrogates without their other half, before a letter and at the end.
    let torn = [0x3D, 0xD8, 0x61, 0x00, 0xE6, 0xDC, 0x3D, 0xD8];
    assert_eq!(read_text_value(&torn), "\u{FFFD}a\u{FFFD}\u{FFFD}");
    assert_eq!(read_string_value(&None), None);
    assert_eq!(read_string_value(&Some(Vec::new())), None);
    assert_eq!(read_string_value(&Some(utf16_bytes("dark"))), Some("dark".to_owned()));
}

#[test]
fn failed_changes_are_told() {
    assert_eq!(require_success(0, "open", "K"), Ok(()));
    assert_eq!(
        require_success(5, "open", "a\"b"),
        Err("Could not open \"a\\\"b\" (Windows error 5)".to_owned())
    );
    assert_eq!(require_deleted(2, "delete", "K"), Ok(()));
    assert_eq!(require_deleted(3, "delete", "K"), Ok(()));
    assert!(require_deleted(5, "delete", "K").is_err());
    let op = RegistryOp::DeleteTree("K".to_owned());
    assert_eq!(
        op_outcome(&op, 0, 5),
        Err("Could not delete registry tree \"K\" (Windows error 5)".to_owned())
    );
}

#[test]
fn preferences_have_defaults() {
    assert_eq!(load_font_preference(&None), "auto");
    assert_eq!(load_font_preference(&Some(utf16_bytes("Meiryo"))), "Meiryo");
    assert_eq!(load_thread_preference(&None), "auto");
    assert_eq!(load_theme_preference(&None), "auto");
    assert_eq!(load_language_preference(&Some(utf16_bytes("ko"))), "ko");
    assert!(matches!(
        save_font_preference("Meiryo"),
        RegistryOp::SetNamed(_, _, value) if value == "Meiryo"
    ));
    assert_eq!(preference_saved(0, 0), Ok(()));
    assert!(preference_saved(5, 0).is_err());
    assert!(window_value_saved("WindowX", 0, 5).is_err());
}

#[test]
fn geometry_is_loaded_as_saved() {
    let geometry = WindowGeometry { x: -12, y: 7, width: 900, height: 600 };
    let mut stored = StoredGeometry { version: None, x: None, y: None, width: None, height: None };
    for op in save_window_geometry(&geometry) {
        if let RegistryOp::SetNamed(_, name, value) = op {
            let bytes = Some(utf16_bytes(&value));
            match name.as_str() {
                "WindowX" => stored.x = bytes,
                "WindowY" => stored.y = bytes,
                "WindowWidth" => stored.width = bytes,
                "WindowHeight" => stored.height = bytes,
                _ => stored.version = bytes,
            }
        }
    }
    let loaded = load_window_geometry(&stored).unwrap();
    assert_eq!((loaded.x, loaded.y, loaded.width, loaded.height), (-12, 7, 900, 600));
    stored.width = Some(utf16_bytes("wide"));
    assert!(load_window_geometry(&stored).is_none());
}

#[test]
fn fonts_are_looked_for_in_both_lists() {
    let none: Vec<String> = Vec::new();
    let fonts = vec!["Meiryo (TrueType)".to_owned()];
    assert!(font_family_installed("Meiryo", &none, &fonts));
    assert!(!font_family_installed("Meiryo", &none, &none));
    assert_eq!(resolve_font_family("Arial", &none, &none), "Arial");
}

#[test]
fn other_systems_have_defaults_and_refuse() {
    assert_eq!(fallback::load_font_preference(), "auto");
    assert_eq!(fallback::load_thread_preference(), "auto");
    assert_eq!(fallback::load_theme_preference(), "auto");
    assert_eq!(fallback::load_language_preference(), "en");
    assert!(fallback::load_window_geometry().is_none());
    assert_eq!(fallback::resolve_font_family("auto"), "Yu Gothic");
    assert_eq!(fallback::resolve_font_family(""), "Yu Gothic");
    assert_eq!(fallback::resolve_font_family("Meiryo"), "Meiryo");
    assert_eq!(
        fallback::save_theme_preference("dark"),
        Err("Settings persistence is only available on Windows".to_owned())
    );
    assert_eq!(
        fallback::open_url("x"),
        Err("Opening links is only available on Windows".to_owned())
    );
    assert!(!fallback::is_context_menu_registered());
    assert_eq!(fallback::install_file_drop_handler(4).unwrap().handler, 4);
    assert!(fallback::start_file_drag(&Vec::new()).is_err());
    assert!(fallback::register_context_menu("x").is_err());
}

#[test]
fn files_links_and_folders_are_opened() {
    let facts = |is_file: bool, is_dir: bool| PathFacts {
        absolute: Ok("C:\\a b".to_owned()),
        kind: Ok((is_file, is_dir)),
    };
    assert!(matches!(
        open_file("a b", &facts(true, false)),
        Ok(ShellTarget::Open(path)) if path == "C:\\a b"
    ));
    assert!(matches!(
        open_file("a b", &facts(false, true)),
        Err(text) if text == "The target is not a file: C:\\a b"
    ));
    assert!(matches!(
        reveal_in_explorer("a b", &facts(true, false)),
        Ok(ShellTarget::Select(parameters)) if parameters == "/select,\"C:\\a b\""
    ));
    assert!(matches!(reveal_in_explorer("a b", &facts(false, true)), Ok(ShellTarget::Open(_))));
    let zero = PathFacts { absolute: Ok("a\0".to_owned()), kind: Ok((true, false)) };
    assert!(open_file("a", &zero).is_err());
    assert!(reveal_in_explorer("a", &zero).is_err());
    let missing = PathFacts { absolute: Err("bad".to_owned()), kind: Err("x".to_owned()) };
    assert!(matches!(
        open_file("a", &missing),
        Err(text) if text == "Could not resolve a: bad"
    ));
    let unknown = PathFacts { absolute: Ok("C:\\a".to_owned()), kind: Err("denied".to_owned()) };
    assert!(matches!(
        reveal_in_explorer("a", &unknown),
        Err(text) if text == "Could not inspect C:\\a: denied"
    ));
    assert!(open_url("https://example.org").is_ok());
    assert!(open_url("a\0").is_err());
    assert_eq!(shell_execute(33), Ok(()));
    assert_eq!(
        shell_execute(-2),
        Err("Windows could not open the target (ShellExecuteW returned -2)".to_owned())
    );
    assert!(shell_execute(32).is_err());
}

#[test]
fn the_title_bar_follows_the_theme() {
    assert_eq!(rgb(31, 33, 36), 0x24211F);
    assert!(apply_window_theme(2, false).dark);
    assert!(!apply_window_theme(1, true).dark);
    assert!(apply_window_theme(0, true).dark);
    assert_eq!(apply_window_theme(1, true).caption, rgb(248, 249, 250));
    assert_eq!(apply_window_theme(2, true).border, rgb(58, 61, 66));
}

#[test]
fn the_main_window_is_found_by_process_and_title() {
    let window = |handle: usize, process: u32, visible: bool, title: &str| WindowFacts {
        handle,
        process,
        visible,
        title: title.encode_utf16().collect(),
    };
    let windows = vec![
        window(1, 9, true, "ArchiveRclick"),
        window(2, 5, false, "ArchiveRclick"),
        window(3, 5, true, "helper"),
        window(4, 5, true, "sample.zip — ArchiveRclick"),
        window(5, 5, true, "ArchiveRclick"),
    ];
    assert_eq!(find_main_window(&windows, 5), Ok(4));
    assert!(find_main_window(&windows, 6).is_err());
    assert_eq!(install_file_drop_handler(Ok(4), Ok(())).unwrap().window, 4);
    assert!(matches!(
        install_file_drop_handler(Ok(4), Err("denied".to_owned())),
        Err(text) if text == "Could not enable Explorer file drop: denied"
    ));
    assert_eq!(message_action(WM_DROPFILES, 1, true), MessageAction::Deliver);
    assert_eq!(message_action(WM_DROPFILES, 0, true), MessageAction::Release);
    assert_eq!(message_action(1, 1, true), MessageAction::PassOn);
    assert_eq!(dropped_paths(vec![vec![], vec![0x61], vec![]]), vec![vec![0x61]]);
}

#[test]
fn dragged_files_are_listed_in_a_block() {
    let paths = vec![vec![0x61, 0x62], vec![0x63]];
    let block = make_hdrop(&paths).unwrap();
    assert_eq!(&block[..4], &[20, 0, 0, 0]);
    assert_eq!(block[16], 1);
    assert_eq!(&block[20..], &[0x61, 0, 0x62, 0, 0, 0, 0x63, 0, 0, 0, 0, 0]);
    assert_eq!(make_hdrop(&vec![vec![0x61, 0]]), Err(E_POINTER));
    assert_eq!(get_data(Some(file_format()), &paths), Ok(block));
    assert_eq!(get_data(None, &paths), Err(E_POINTER));
    let other = DataFormat { format: 1, ..file_format() };
    assert_eq!(get_data(Some(other), &paths), Err(DV_E_FORMATETC));
    assert_eq!(query_file_format(other), DV_E_FORMATETC);
    assert_eq!(query_get_data(Some(file_format())), S_OK);
    assert_eq!(query_get_data(None), E_POINTER);
    let several = DataFormat { medium: 5, ..file_format() };
    assert_eq!(query_file_format(several), S_OK);
    assert_eq!(canonical_format(Some(other), true), (Some(other), DATA_S_SAMEFORMATETC));
    assert_eq!(canonical_format(None, true), (None, E_POINTER));
}

#[test]
fn one_format_is_offered() {
    let mut formats = FileFormatEnumerator::new(0);
    assert_eq!(formats.next(2, true, false), (0, E_POINTER));
    assert_eq!(formats.next(2, true, true), (1, S_FALSE));
    assert_eq!(formats.next(1, true, false), (0, S_FALSE));
    formats.reset();
    assert_eq!(formats.next(1, true, false), (1, S_OK));
    formats.skip(4);
    assert_eq!(formats.index, 5);
    assert!(lists_formats(1));
    assert!(!lists_formats(2));
}

#[test]
fn drags_end_in_a_drop_or_are_given_up() {
    assert_eq!(query_continue_drag(true, 1), DRAGDROP_S_CANCEL);
    assert_eq!(query_continue_drag(false, 2), DRAGDROP_S_DROP);
    assert_eq!(query_continue_drag(false, 1), S_OK);
    assert_eq!(start_file_drag(0, Ok(())), Err("There are no files to drag".to_owned()));
    assert_eq!(
        start_file_drag(1, Err("no".to_owned())),
        Err("Could not initialize OLE drag-and-drop: no".to_owned())
    );
    assert_eq!(start_file_drag(1, Ok(())), Ok(()));
    assert_eq!(drag_outcome(DRAGDROP_S_CANCEL, "x"), Ok(()));
    assert_eq!(
        drag_outcome(1, "HRESULT(0x00000001)"),
        Err("Explorer drag-and-drop failed: HRESULT(0x00000001)".to_owned())
    );
}

#[test]
fn origins_follow_files_that_can_run() {
    assert!(file_carries_origin("Setup.EXE"));
    assert!(!file_carries_origin("notes.txt"));
    assert_eq!(stream_path("C:\\a"), "C:\\a:Zone.Identifier");
    let zone = ZoneIdentifier::read("a.zip", true, OriginRead::Read(b"[ZoneTransfer]".to_vec())).unwrap();
    assert_eq!(zone.apply("tmp", "a.exe"), Some("tmp:Zone.Identifier".to_owned()));
    assert_eq!(zone.apply("tmp", "a.txt"), None);
    let off = ZoneIdentifier::read("a.zip", false, OriginRead::ReadFailed("x".to_owned())).unwrap();
    assert_eq!(off.apply("tmp", "a.exe"), None);
    let error = |not_found: bool, os_error: Option<i32>| StreamError {
        not_found,
        os_error,
        message: "denied".to_owned(),
    };
    assert!(ZoneIdentifier::read("a", true, OriginRead::NotOpened(error(true, None))).is_ok());
    assert!(matches!(
        ZoneIdentifier::read("a", true, OriginRead::NotOpened(error(false, Some(5)))),
        Err(ArchiveError::Io { path, message }) if path == "a:Zone.Identifier" && message == "denied"
    ));
    assert!(matches!(
        ZoneIdentifier::read("a", true, OriginRead::Read(vec![0; 65537])),
        Err(ArchiveError::LimitExceeded(_))
    ));
    assert!(ZoneIdentifier::applied("s", None).is_ok());
    assert!(ZoneIdentifier::applied("s", Some(error(false, Some(5)))).is_err());
}
