//! The actions of the context menu and the labels they are shown under.

use vstd::prelude::*;
use vstd::string::*;
use crate::command_line;
use crate::names;
use crate::text;

verus! {

/// The actions that can be run on a selection.
#[derive(Debug, Clone, Copy, PartialEq, Eq, Structural)]
pub enum Verb {
    Extract,
    Zip,
    SevenZip,
    ZipEach,
    SevenZipEach,
}

/// The name of a verb on the command line.
pub open spec fn subcommand_text(verb: Verb) -> Seq<char> {
    match verb {
        Verb::Extract => "extract"@,
        Verb::Zip => "zip"@,
        Verb::SevenZip => "7z"@,
        Verb::ZipEach => "zip-each"@,
        Verb::SevenZipEach => "7z-each"@,
    }
}

/// The name of a verb that is given a destination.
pub open spec fn targeted_text(verb: Verb) -> Seq<char> {
    match verb {
        Verb::Extract => "extract-to"@,
        Verb::Zip => "zip-to"@,
        Verb::SevenZip => "7z-to"@,
        Verb::ZipEach => "zip-each-to"@,
        Verb::SevenZipEach => "7z-each-to"@,
    }
}

/// What is said of a verb where no label can be made.
pub open spec fn tooltip_text(verb: Verb) -> Seq<char> {
    match verb {
        Verb::Extract => "Extract the selected archive(s)"@,
        Verb::Zip => "Create a ZIP archive from the selected items"@,
        Verb::SevenZip => "Create a 7z archive from the selected items"@,
        Verb::ZipEach => "Create one ZIP archive for each selected folder"@,
        Verb::SevenZipEach => "Create one 7z archive for each selected folder"@,
    }
}

impl Verb {
    /// [`subcommand_text`], executable.
    pub fn subcommand(self) -> (name: &'static str)
        ensures
            name@ == subcommand_text(self),
    {
        match self {
            Verb::Extract => "extract",
            Verb::Zip => "zip",
            Verb::SevenZip => "7z",
            Verb::ZipEach => "zip-each",
            Verb::SevenZipEach => "7z-each",
        }
    }

    /// [`tooltip_text`], executable.
    pub fn tooltip(self) -> (tip: &'static str)
        ensures
            tip@ == tooltip_text(self),
    {
        match self {
            Verb::Extract => "Extract the selected archive(s)",
            Verb::Zip => "Create a ZIP archive from the selected items",
            Verb::SevenZip => "Create a 7z archive from the selected items",
            Verb::ZipEach => "Create one ZIP archive for each selected folder",
            Verb::SevenZipEach => "Create one 7z archive for each selected folder",
        }
    }
}

/// The command line of a verb on paths with a destination.
pub fn build_targeted_args(verb: Verb, destination: &str, paths: &Vec<String>) -> (line: String)
    ensures
        line@ == command_line::command_line(
            targeted_text(verb),
            seq![destination@] + text::texts(paths@),
        ),
{
    let subcommand: &'static str = match verb {
        Verb::Extract => "extract-to",
        Verb::Zip => "zip-to",
        Verb::SevenZip => "7z-to",
        Verb::ZipEach => "zip-each-to",
        Verb::SevenZipEach => "7z-each-to",
    };
    command_line::build_destination_args(subcommand, destination, paths)
}

// ---------------------------------------------------------------------------
// Names that are too long
// ---------------------------------------------------------------------------

/// The most characters of a name that a label shows.
pub const MAX_MENU_NAME_CHARS: usize = 30;

/// A name as a label shows it. One that is too long is cut, and ends in an
/// ellipsis and the suffix.
pub open spec fn shortened(name: Seq<char>, suffix: Seq<char>) -> Seq<char> {
    if name.len() <= MAX_MENU_NAME_CHARS {
        name
    } else if suffix.len() >= MAX_MENU_NAME_CHARS {
        suffix
    } else {
        name.take(MAX_MENU_NAME_CHARS - suffix.len() - 1) + seq!['\u{2026}'] + suffix
    }
}

/// [`shortened`], executable.
pub fn shorten_menu_name_with_suffix(name: &str, suffix: &str) -> (out: String)
    ensures
        out@ == shortened(name@, suffix@),
{
    let chars = text::chars_of(name);
    let tail = text::chars_of(suffix);
    if chars.len() <= MAX_MENU_NAME_CHARS {
        return name.to_owned();
    }
    if tail.len() >= MAX_MENU_NAME_CHARS {
        return suffix.to_owned();
    }
    let size: usize = MAX_MENU_NAME_CHARS - tail.len() - 1;
    let head = vstd::slice::slice_subrange(&chars, 0, size);
    let mut out = text::string_of(head);
    out.push('\u{2026}');
    out.append(suffix);
    proof {
        assert(out@ =~= shortened(name@, suffix@));
    }
    out
}

/// The name of an extraction's destination as a label shows it. It comes from
/// an archive's stem, so a dot in it begins no extension.
pub fn shorten_menu_name(name: &str) -> (out: String)
    ensures
        out@ == shortened(name@, Seq::empty()),
{
    let none: String = String::new();
    proof {
        assert(none@ =~= Seq::<char>::empty());
    }
    shorten_menu_name_with_suffix(name, none.as_str())
}

/// Whether a name ends in a suffix, up to ASCII case.
pub open spec fn ends_in_any_case(name: Seq<char>, suffix: Seq<char>) -> bool {
    suffix.is_suffix_of(text::lower(name))
}

/// The extension of a new archive, as its name writes it.
pub open spec fn suffix_kept(name: Seq<char>) -> Seq<char> {
    if ends_in_any_case(name, ".zip"@) {
        name.skip(name.len() - 4)
    } else if ends_in_any_case(name, ".7z"@) {
        name.skip(name.len() - 3)
    } else {
        Seq::empty()
    }
}

/// [`ends_in_any_case`], executable.
fn has_suffix(name: &str, suffix: &str) -> (yes: bool)
    ensures
        yes == ends_in_any_case(name@, suffix@),
{
    text::ends_with(text::lower_text(name).as_str(), suffix)
}

/// [`suffix_kept`], executable.
pub fn compression_suffix(name: &str) -> (suffix: String)
    ensures
        suffix@ == suffix_kept(name@),
{
    proof {
        reveal_strlit(".zip");
        reveal_strlit(".7z");
        assert(text::lower(name@).len() == name@.len());
    }
    let chars = text::chars_of(name);
    let size: usize = chars.len();
    if has_suffix(name, ".zip") {
        let tail = vstd::slice::slice_subrange(&chars, size - 4, size);
        return text::string_of(tail);
    }
    if has_suffix(name, ".7z") {
        let tail = vstd::slice::slice_subrange(&chars, size - 3, size);
        return text::string_of(tail);
    }
    String::new()
}

/// The name of a new archive as a label shows it, with its extension.
pub fn shorten_compression_name(name: &str) -> (out: String)
    ensures
        out@ == shortened(name@, suffix_kept(name@)),
{
    shorten_menu_name_with_suffix(name, compression_suffix(name).as_str())
}

/// A label never shows more of a name than there is room for, it shows a name
/// that fits whole, and it shows the extension of a new archive.
pub proof fn law_labels_fit(name: Seq<char>)
    ensures
        shortened(name, Seq::empty()).len() <= MAX_MENU_NAME_CHARS,
        shortened(name, suffix_kept(name)).len() <= MAX_MENU_NAME_CHARS,
        name.len() <= MAX_MENU_NAME_CHARS ==> shortened(name, Seq::empty()) == name,
        name.len() <= MAX_MENU_NAME_CHARS ==> shortened(name, suffix_kept(name)) == name,
        suffix_kept(name).is_suffix_of(shortened(name, suffix_kept(name))),
{
    reveal_strlit(".zip");
    reveal_strlit(".7z");
    assert(text::lower(name).len() == name.len());
    let suffix = suffix_kept(name);
    let out = shortened(name, suffix);
    assert(suffix =~= out.skip(out.len() - suffix.len()));
    assert(suffix =~= out.subrange(out.len() - suffix.len(), out.len() as int));
}

// ---------------------------------------------------------------------------
// Archives
// ---------------------------------------------------------------------------

/// The endings of archives' names.
pub open spec fn archive_extensions() -> Seq<Seq<char>> {
    seq![
        ".zip"@,
        ".zipx"@,
        ".7z"@,
        ".rar"@,
        ".tar"@,
        ".gz"@,
        ".bz2"@,
        ".xz"@,
        ".zst"@,
        ".cab"@,
        ".lha"@,
        ".lzh"@,
        ".tgz"@,
        ".tbz2"@,
        ".txz"@,
        ".iso"@,
    ]
}

/// Whether a name is that of a volume, split at a dot: before it stands the
/// name of a ZIP or 7z archive, behind it three or more digits.
pub open spec fn splits_at(name: Seq<char>, at: int) -> bool {
    &&& text::is_last_place(name, '.', at)
    &&& ends_in_any_case(names::before_last_dot(name, at), ".zip"@) || ends_in_any_case(
        names::before_last_dot(name, at),
        ".7z"@,
    )
    &&& names::behind_last_dot(name, at).len() >= 3
    &&& text::all_digits(names::behind_last_dot(name, at))
}

/// The name of the archive that a volume belongs to.
pub open spec fn split_base(name: Seq<char>) -> Option<Seq<char>> {
    if exists|at: int| splits_at(name, at) {
        Some(names::before_last_dot(name, choose|at: int| splits_at(name, at)))
    } else {
        None
    }
}

/// Whether all characters are digits.
fn has_only_digits(chars: &[char]) -> (yes: bool)
    ensures
        yes == text::all_digits(chars@),
{
    let mut i: usize = 0;
    while i < chars.len()
        invariant
            i <= chars@.len(),
            forall|k: int| 0 <= k < i ==> text::is_digit(#[trigger] chars@[k]),
        decreases chars@.len() - i,
    {
        if !text::is_digit_char(chars[i]) {
            return false;
        }
        i += 1;
    }
    true
}

/// [`split_base`], executable.
pub fn split_volume_base_name(name: &str) -> (base: Option<String>)
    ensures
        text::option_text(base) == split_base(name@),
{
    let chars = text::chars_of(name);
    match text::last_place(&chars, '.') {
        None => {
            proof {
                assert forall|at: int| !splits_at(name@, at) by {
                    if text::is_last_place(name@, '.', at) {
                        assert(name@[at] == '.');
                    }
                }
            }
            None
        },
        Some(dot) => {
            proof {
                assert forall|at: int| splits_at(name@, at) implies at == dot by {
                    names::lemma_last_place_unique(name@, '.', at, dot as int);
                }
            }
            let size: usize = chars.len();
            let suffix = vstd::slice::slice_subrange(&chars, dot + 1, size);
            let head = vstd::slice::slice_subrange(&chars, 0, dot);
            let base = text::string_of(head);
            proof {
                assert(suffix@ == names::behind_last_dot(name@, dot as int));
                assert(base@ == names::before_last_dot(name@, dot as int));
            }
            if !(has_suffix(base.as_str(), ".zip") || has_suffix(base.as_str(), ".7z")) {
                return None;
            }
            if suffix.len() < 3 || !has_only_digits(suffix) {
                return None;
            }
            proof {
                assert(splits_at(name@, dot as int));
            }
            Some(base)
        },
    }
}

/// Whether a name, in lower case, is that of an archive or of a volume.
pub open spec fn names_archive(name: Seq<char>) -> bool {
    ||| exists|i: int|
        0 <= i < archive_extensions().len() && (#[trigger] archive_extensions()[i]).is_suffix_of(
            name,
        )
    ||| split_base(name) is Some
}

/// [`archive_extensions`], executable.
fn archive_extension_list() -> (list: Vec<&'static str>)
    ensures
        list@.len() == archive_extensions().len(),
        forall|i: int| 0 <= i < list@.len() ==> (#[trigger] list@[i])@ == archive_extensions()[i],
{
    vec![
        ".zip",
        ".zipx",
        ".7z",
        ".rar",
        ".tar",
        ".gz",
        ".bz2",
        ".xz",
        ".zst",
        ".cab",
        ".lha",
        ".lzh",
        ".tgz",
        ".tbz2",
        ".txz",
        ".iso",
    ]
}

/// [`names_archive`], executable.
pub fn is_archive_name(name: &str) -> (yes: bool)
    ensures
        yes == names_archive(name@),
{
    let list: Vec<&'static str> = archive_extension_list();
    let size: usize = list.len();
    let mut i: usize = 0;
    while i < size
        invariant
            i <= size,
            size == list@.len(),
            list@.len() == archive_extensions().len(),
            forall|k: int|
                0 <= k < list@.len() ==> (#[trigger] list@[k])@ == archive_extensions()[k],
            forall|k: int|
                0 <= k < i ==> !(#[trigger] archive_extensions()[k]).is_suffix_of(name@),
        decreases size - i,
    {
        let ending: &'static str = list[i];
        proof {
            assert(list@[i as int]@ == archive_extensions()[i as int]);
        }
        if text::ends_with(name, ending) {
            return true;
        }
        i += 1;
    }
    split_volume_base_name(name).is_some()
}

/// What is known of a selected path.
#[derive(Debug)]
pub struct SelectedPath {
    pub path: String,
    /// The file name, where the path ends in one.
    pub name: Option<String>,
    pub is_file: bool,
    pub is_dir: bool,
}

/// Whether a path is that of an archive.
pub open spec fn is_archive(path: SelectedPath) -> bool {
    path.is_file && path.name is Some && names_archive(text::unicode_lower(path.name->0@))
}

/// [`is_archive`], executable.
pub fn is_archive_path(path: &SelectedPath) -> (yes: bool)
    ensures
        yes == is_archive(*path),
{
    if !path.is_file {
        return false;
    }
    match &path.name {
        Some(name) => {
            let lowered: String = text::unicode_lower_text(name.as_str());
            is_archive_name(lowered.as_str())
        },
        None => false,
    }
}

/// The name of a folder for an archive that has no name of its own.
pub open spec fn default_stem() -> Seq<char> {
    "압축파일"@
}

/// A file name without its extension. Names that mean a folder have none.
pub open spec fn file_stem(name: Seq<char>) -> Option<Seq<char>> {
    if name.len() == 0 || name == "."@ || name == ".."@ {
        None
    } else if exists|at: int| 0 < at && text::is_last_place(name, '.', at) {
        Some(
            names::before_last_dot(
                name,
                choose|at: int| 0 < at && text::is_last_place(name, '.', at),
            ),
        )
    } else {
        Some(name)
    }
}

/// [`file_stem`], executable.
fn stem_of(name: &str) -> (stem: Option<String>)
    ensures
        text::option_text(stem) == file_stem(name@),
{
    let chars = text::chars_of(name);
    if chars.len() == 0 || text::same_text(name, ".") || text::same_text(name, "..") {
        return None;
    }
    match text::last_place(&chars, '.') {
        None => {
            proof {
                assert forall|at: int| !(0 < at && text::is_last_place(name@, '.', at)) by {
                    if text::is_last_place(name@, '.', at) {
                        assert(name@[at] == '.');
                    }
                }
            }
            Some(name.to_owned())
        },
        Some(dot) => {
            proof {
                assert forall|at: int| text::is_last_place(name@, '.', at) implies at == dot by {
                    names::lemma_last_place_unique(name@, '.', at, dot as int);
                }
            }
            if dot == 0 {
                return Some(name.to_owned());
            }
            let head = vstd::slice::slice_subrange(&chars, 0, dot);
            let stem = text::string_of(head);
            proof {
                assert(text::is_last_place(name@, '.', dot as int));
                assert(stem@ == names::before_last_dot(name@, dot as int));
            }
            Some(stem)
        },
    }
}

/// How many characters the ending of a compressed tape archive takes.
pub open spec fn tape_ending(name: Seq<char>) -> nat {
    if ends_in_any_case(name, ".tar.zst"@) || ends_in_any_case(name, ".tar.bz2"@) {
        8
    } else if ends_in_any_case(name, ".tar.xz"@) || ends_in_any_case(name, ".tar.gz"@) {
        7
    } else {
        0
    }
}

/// [`tape_ending`], executable.
fn tape_ending_of(name: &str) -> (size: usize)
    ensures
        size == tape_ending(name@),
        size <= name@.len(),
{
    proof {
        reveal_strlit(".tar.zst");
        reveal_strlit(".tar.bz2");
        reveal_strlit(".tar.xz");
        reveal_strlit(".tar.gz");
        assert(text::lower(name@).len() == name@.len());
    }
    if has_suffix(name, ".tar.zst") || has_suffix(name, ".tar.bz2") {
        return 8;
    }
    if has_suffix(name, ".tar.xz") || has_suffix(name, ".tar.gz") {
        return 7;
    }
    0
}

/// The name of the archive that a file belongs to.
pub open spec fn whole_name(name: Option<Seq<char>>) -> Seq<char> {
    let full = match name {
        Some(name) => name,
        None => default_stem(),
    };
    match split_base(full) {
        Some(base) => base,
        None => full,
    }
}

/// The name of the folder that an archive is extracted to: the archive's name
/// without what makes it an archive's.
pub open spec fn stem(name: Option<Seq<char>>) -> Seq<char> {
    let full = whole_name(name);
    let ending = tape_ending(full);
    let found = if ending > 0 {
        Some(full.take(full.len() - ending))
    } else {
        file_stem(full)
    };
    match found {
        Some(stem) => if stem.len() > 0 {
            stem
        } else {
            default_stem()
        },
        None => default_stem(),
    }
}

/// [`stem`], executable.
pub fn archive_stem(name: &Option<String>) -> (out: String)
    ensures
        out@ == stem(text::option_text(*name)),
{
    let full: String = match name {
        Some(name) => name.clone(),
        None => "압축파일".to_owned(),
    };
    let whole: String = match split_volume_base_name(full.as_str()) {
        Some(base) => base,
        None => full,
    };
    let ending: usize = tape_ending_of(whole.as_str());
    let found: Option<String> = if ending > 0 {
        let chars = text::chars_of(whole.as_str());
        let size: usize = chars.len();
        let head = vstd::slice::slice_subrange(&chars, 0, size - ending);
        let cut = text::string_of(head);
        proof {
            assert(cut@ =~= whole@.take(whole@.len() - ending));
        }
        Some(cut)
    } else {
        stem_of(whole.as_str())
    };
    match found {
        Some(stem) => {
            if stem.as_str().unicode_len() > 0 {
                stem
            } else {
                "압축파일".to_owned()
            }
        },
        None => "압축파일".to_owned(),
    }
}

// ---------------------------------------------------------------------------
// The menu
// ---------------------------------------------------------------------------

/// The names of what the verbs would make: the folder of an extraction and the
/// new archives. A name is missing where a destination ends in none.
#[derive(Debug)]
pub struct DestinationNames {
    pub folder: Option<String>,
    pub zip: Option<String>,
    pub seven_zip: Option<String>,
}

/// Items of the menu over sequences.
pub open spec fn item_views(items: Seq<(Verb, String)>) -> Seq<(Verb, Seq<char>)> {
    Seq::new(items.len(), |i: int| (items[i].0, items[i].1@))
}

/// Whether a selection is of more than one folder and nothing else.
pub open spec fn is_folder_selection(paths: Seq<SelectedPath>) -> bool {
    paths.len() > 1 && forall|i: int| 0 <= i < paths.len() ==> (#[trigger] paths[i]).is_dir
}

/// Whether a selection is of archives alone.
pub open spec fn is_archive_selection(paths: Seq<SelectedPath>) -> bool {
    forall|i: int| 0 <= i < paths.len() ==> is_archive(#[trigger] paths[i])
}

/// A name, or what stands for it where it is missing.
pub open spec fn name_or(name: Option<String>, default: Seq<char>) -> Seq<char> {
    match name {
        Some(name) => name@,
        None => default,
    }
}

/// The items that compress a selection.
pub open spec fn compression_items(paths: Seq<SelectedPath>, names: DestinationNames) -> Seq<
    (Verb, Seq<char>),
> {
    if is_folder_selection(paths) {
        seq![
            (Verb::Zip, "선택한 폴더를 하나의 ZIP으로 압축하기"@),
            (Verb::SevenZip, "선택한 폴더를 하나의 7z으로 압축하기"@),
            (Verb::ZipEach, "각 폴더를 각각 ZIP으로 압축하기"@),
            (Verb::SevenZipEach, "각 폴더를 각각 7z으로 압축하기"@),
        ]
    } else {
        let zip = name_or(names.zip, "archive.zip"@);
        let seven = name_or(names.seven_zip, "archive.7z"@);
        seq![
            (Verb::Zip, shortened(zip, suffix_kept(zip)) + "으로 압축하기"@),
            (Verb::SevenZip, shortened(seven, suffix_kept(seven)) + "로 압축하기"@),
        ]
    }
}

/// The items of the menu for a selection, in their order.
pub open spec fn menu_items(paths: Seq<SelectedPath>, names: DestinationNames) -> Seq<
    (Verb, Seq<char>),
> {
    if paths.len() == 0 {
        Seq::empty()
    } else if !is_archive_selection(paths) {
        compression_items(paths, names)
    } else if paths.len() == 1 {
        seq![
            (
                Verb::Extract,
                shortened(
                    name_or(names.folder, stem(text::option_text(paths[0].name))),
                    Seq::empty(),
                ) + "\\ 에 풀기"@,
            ),
        ]
    } else {
        seq![(Verb::Extract, "각각의 폴더에 풀기"@)] + compression_items(paths, names)
    }
}

/// Whether a selection is of more than one folder and nothing else.
pub fn is_multi_folder_selection(paths: &Vec<SelectedPath>) -> (yes: bool)
    ensures
        yes == is_folder_selection(paths@),
{
    if paths.len() <= 1 {
        return false;
    }
    let mut i: usize = 0;
    while i < paths.len()
        invariant
            i <= paths@.len(),
            forall|k: int| 0 <= k < i ==> (#[trigger] paths@[k]).is_dir,
        decreases paths@.len() - i,
    {
        if !paths[i].is_dir {
            return false;
        }
        i += 1;
    }
    true
}

/// Whether a selection is of archives alone.
fn are_archives(paths: &Vec<SelectedPath>) -> (yes: bool)
    ensures
        yes == is_archive_selection(paths@),
{
    let mut i: usize = 0;
    while i < paths.len()
        invariant
            i <= paths@.len(),
            forall|k: int| 0 <= k < i ==> is_archive(#[trigger] paths@[k]),
        decreases paths@.len() - i,
    {
        if !is_archive_path(&paths[i]) {
            return false;
        }
        i += 1;
    }
    true
}

/// A name, or what stands for it where it is missing.
fn given_name(name: &Option<String>, default: &str) -> (out: String)
    ensures
        out@ == name_or(*name, default@),
{
    match name {
        Some(name) => name.clone(),
        None => default.to_owned(),
    }
}

/// [`compression_items`], executable.
pub fn compression_verbs(paths: &Vec<SelectedPath>, names: &DestinationNames) -> (items: Vec<
    (Verb, String),
>)
    ensures
        item_views(items@) == compression_items(paths@, *names),
{
    let mut items: Vec<(Verb, String)> = Vec::new();
    if is_multi_folder_selection(paths) {
        items.push((Verb::Zip, "선택한 폴더를 하나의 ZIP으로 압축하기".to_owned()));
        items.push((Verb::SevenZip, "선택한 폴더를 하나의 7z으로 압축하기".to_owned()));
        items.push((Verb::ZipEach, "각 폴더를 각각 ZIP으로 압축하기".to_owned()));
        items.push((Verb::SevenZipEach, "각 폴더를 각각 7z으로 압축하기".to_owned()));
        proof {
            assert(item_views(items@) =~= compression_items(paths@, *names));
        }
        return items;
    }
    let zip: String = given_name(&names.zip, "archive.zip");
    let seven: String = given_name(&names.seven_zip, "archive.7z");
    let zip_label: String = text::join(
        shorten_compression_name(zip.as_str()).as_str(),
        "으로 압축하기",
    );
    let seven_label: String = text::join(
        shorten_compression_name(seven.as_str()).as_str(),
        "로 압축하기",
    );
    items.push((Verb::Zip, zip_label));
    items.push((Verb::SevenZip, seven_label));
    proof {
        assert(item_views(items@) =~= compression_items(paths@, *names));
    }
    items
}

/// The items of the menu for a selection: [`menu_items`], executable.
pub fn menu_verbs(paths: &Vec<SelectedPath>, names: &DestinationNames) -> (items: Vec<
    (Verb, String),
>)
    ensures
        item_views(items@) == menu_items(paths@, *names),
        items@.len() <= 5,
{
    let mut items: Vec<(Verb, String)> = Vec::new();
    if paths.len() == 0 {
        proof {
            assert(item_views(items@) =~= menu_items(paths@, *names));
        }
        return items;
    }
    if !are_archives(paths) {
        let found = compression_verbs(paths, names);
        proof {
            assert(item_views(found@).len() == found@.len());
        }
        return found;
    }
    if paths.len() == 1 {
        let base: String = archive_stem(&paths[0].name);
        let folder: String = given_name(&names.folder, base.as_str());
        let label: String = text::join(shorten_menu_name(folder.as_str()).as_str(), "\\ 에 풀기");
        items.push((Verb::Extract, label));
        proof {
            assert(item_views(items@) =~= menu_items(paths@, *names));
        }
        return items;
    }
    items.push((Verb::Extract, "각각의 폴더에 풀기".to_owned()));
    let mut more = compression_verbs(paths, names);
    let ghost first = items@;
    let ghost added = more@;
    proof {
        assert(item_views(added).len() == added.len());
    }
    items.append(&mut more);
    proof {
        assert(item_views(items@) =~= item_views(first) + item_views(added));
        assert(item_views(first) =~= seq![(Verb::Extract, "각각의 폴더에 풀기"@)]);
    }
    items
}

/// Whether item `i` is the first one of a verb.
pub open spec fn is_first_of(items: Seq<(Verb, Seq<char>)>, verb: Verb, i: int) -> bool {
    &&& 0 <= i < items.len()
    &&& items[i].0 == verb
    &&& forall|k: int| 0 <= k < i ==> (#[trigger] items[k]).0 != verb
}

/// The label of a verb for a selection, where the menu has it.
pub open spec fn label(verb: Verb, paths: Seq<SelectedPath>, names: DestinationNames) -> Option<
    Seq<char>,
> {
    let items = menu_items(paths, names);
    if exists|i: int| is_first_of(items, verb, i) {
        Some(items[choose|i: int| is_first_of(items, verb, i)].1)
    } else {
        None
    }
}

/// [`label`], executable.
pub fn verb_label(verb: Verb, paths: &Vec<SelectedPath>, names: &DestinationNames) -> (found:
    Option<String>)
    ensures
        text::option_text(found) == label(verb, paths@, *names),
{
    let items = menu_verbs(paths, names);
    let ghost views = menu_items(paths@, *names);
    let mut i: usize = 0;
    while i < items.len()
        invariant
            i <= items@.len(),
            views == menu_items(paths@, *names),
            views == item_views(items@),
            forall|k: int| 0 <= k < i ==> (#[trigger] views[k]).0 != verb,
        decreases items@.len() - i,
    {
        proof {
            assert(views[i as int] == (items@[i as int].0, items@[i as int].1@));
        }
        if items[i].0 == verb {
            proof {
                assert(is_first_of(views, verb, i as int));
                assert forall|k: int| is_first_of(views, verb, k) implies k == i by {
                    if k < i {
                        assert(views[k].0 != verb);
                    }
                    if i < k {
                        assert(views[i as int].0 == verb);
                    }
                }
            }
            return Some(items[i].1.clone());
        }
        i += 1;
    }
    proof {
        assert forall|k: int| !is_first_of(views, verb, k) by {
            if is_first_of(views, verb, k) {
                assert(views[k].0 != verb);
            }
        }
    }
    None
}

/// Each verb stands in the menu at most once, and extracting is offered for
/// archives alone.
pub proof fn law_menu_offers_each_verb_once(
    paths: Seq<SelectedPath>,
    names: DestinationNames,
    i: int,
    j: int,
)
    requires
        0 <= i < j < menu_items(paths, names).len(),
    ensures
        menu_items(paths, names)[i].0 != menu_items(paths, names)[j].0,
        menu_items(paths, names)[i].0 == Verb::Extract ==> is_archive_selection(paths),
{
}

/// A selection that is not empty has a menu, and extracting comes first where
/// all of it are archives.
pub proof fn law_menu_is_not_empty(paths: Seq<SelectedPath>, names: DestinationNames)
    requires
        paths.len() > 0,
    ensures
        menu_items(paths, names).len() > 0,
        is_archive_selection(paths) <==> menu_items(paths, names)[0].0 == Verb::Extract,
{
}

/// Whether an ending, with its dot, is one of an archive.
pub open spec fn ends_an_archive(ending: Seq<char>) -> bool {
    ||| ending == seq!['.', 'z', 'i', 'p']
    ||| ending == seq!['.', 'z', 'i', 'p', 'x']
    ||| ending == seq!['.', '7', 'z']
    ||| ending == seq!['.', 'r', 'a', 'r']
    ||| ending == seq!['.', 't', 'a', 'r']
    ||| ending == seq!['.', 'g', 'z']
    ||| ending == seq!['.', 'b', 'z', '2']
    ||| ending == seq!['.', 'x', 'z']
    ||| ending == seq!['.', 'z', 's', 't']
    ||| ending == seq!['.', 'c', 'a', 'b']
    ||| ending == seq!['.', 'l', 'h', 'a']
    ||| ending == seq!['.', 'l', 'z', 'h']
    ||| ending == seq!['.', 't', 'g', 'z']
    ||| ending == seq!['.', 't', 'b', 'z', '2']
    ||| ending == seq!['.', 't', 'x', 'z']
    ||| ending == seq!['.', 'i', 's', 'o']
}

/// A file is an archive by its ending, whatever its name.
#[verifier::rlimit(40)]
pub proof fn law_archives_are_known_by_their_endings(stem: Seq<char>, ending: Seq<char>)
    requires
        ends_an_archive(ending),
    ensures
        names_archive(stem + ending),
{
    let name = stem + ending;
    assert(name.subrange(stem.len() as int, name.len() as int) =~= ending);
    assert(ending.is_suffix_of(name));
    let list = archive_extensions();
    lemma_archive_endings();
    assert(list.len() == 16);
    assert(list[0] == seq!['.', 'z', 'i', 'p']);
    assert(list[1] == seq!['.', 'z', 'i', 'p', 'x']);
    assert(list[2] == seq!['.', '7', 'z']);
    assert(list[3] == seq!['.', 'r', 'a', 'r']);
    assert(list[4] == seq!['.', 't', 'a', 'r']);
    assert(list[5] == seq!['.', 'g', 'z']);
    assert(list[6] == seq!['.', 'b', 'z', '2']);
    assert(list[7] == seq!['.', 'x', 'z']);
    assert(list[8] == seq!['.', 'z', 's', 't']);
    assert(list[9] == seq!['.', 'c', 'a', 'b']);
    assert(list[10] == seq!['.', 'l', 'h', 'a']);
    assert(list[11] == seq!['.', 'l', 'z', 'h']);
    assert(list[12] == seq!['.', 't', 'g', 'z']);
    assert(list[13] == seq!['.', 't', 'b', 'z', '2']);
    assert(list[14] == seq!['.', 't', 'x', 'z']);
    assert(list[15] == seq!['.', 'i', 's', 'o']);
    let at: int = if ending == seq!['.', 'z', 'i', 'p'] {
        0
    } else if ending == seq!['.', 'z', 'i', 'p', 'x'] {
        1
    } else if ending == seq!['.', '7', 'z'] {
        2
    } else if ending == seq!['.', 'r', 'a', 'r'] {
        3
    } else if ending == seq!['.', 't', 'a', 'r'] {
        4
    } else if ending == seq!['.', 'g', 'z'] {
        5
    } else if ending == seq!['.', 'b', 'z', '2'] {
        6
    } else if ending == seq!['.', 'x', 'z'] {
        7
    } else if ending == seq!['.', 'z', 's', 't'] {
        8
    } else if ending == seq!['.', 'c', 'a', 'b'] {
        9
    } else if ending == seq!['.', 'l', 'h', 'a'] {
        10
    } else if ending == seq!['.', 'l', 'z', 'h'] {
        11
    } else if ending == seq!['.', 't', 'g', 'z'] {
        12
    } else if ending == seq!['.', 't', 'b', 'z', '2'] {
        13
    } else if ending == seq!['.', 't', 'x', 'z'] {
        14
    } else {
        15
    };
    assert(list[at] == ending);
    assert(list[at].is_suffix_of(name));
}

/// What the endings hold.
proof fn lemma_archive_endings()
    ensures
        ".zip"@ == seq!['.', 'z', 'i', 'p'],
        ".zipx"@ == seq!['.', 'z', 'i', 'p', 'x'],
        ".7z"@ == seq!['.', '7', 'z'],
        ".rar"@ == seq!['.', 'r', 'a', 'r'],
        ".tar"@ == seq!['.', 't', 'a', 'r'],
        ".gz"@ == seq!['.', 'g', 'z'],
        ".bz2"@ == seq!['.', 'b', 'z', '2'],
        ".xz"@ == seq!['.', 'x', 'z'],
        ".zst"@ == seq!['.', 'z', 's', 't'],
        ".cab"@ == seq!['.', 'c', 'a', 'b'],
        ".lha"@ == seq!['.', 'l', 'h', 'a'],
        ".lzh"@ == seq!['.', 'l', 'z', 'h'],
        ".tgz"@ == seq!['.', 't', 'g', 'z'],
        ".tbz2"@ == seq!['.', 't', 'b', 'z', '2'],
        ".txz"@ == seq!['.', 't', 'x', 'z'],
        ".iso"@ == seq!['.', 'i', 's', 'o'],
{
    reveal_strlit(".zip");
    reveal_strlit(".zipx");
    reveal_strlit(".7z");
    reveal_strlit(".rar");
    reveal_strlit(".tar");
    reveal_strlit(".gz");
    reveal_strlit(".bz2");
    reveal_strlit(".xz");
    reveal_strlit(".zst");
    reveal_strlit(".cab");
    reveal_strlit(".lha");
    reveal_strlit(".lzh");
    reveal_strlit(".tgz");
    reveal_strlit(".tbz2");
    reveal_strlit(".txz");
    reveal_strlit(".iso");
    assert(".zip"@ =~= seq!['.', 'z', 'i', 'p']);
    assert(".zipx"@ =~= seq!['.', 'z', 'i', 'p', 'x']);
    assert(".7z"@ =~= seq!['.', '7', 'z']);
    assert(".rar"@ =~= seq!['.', 'r', 'a', 'r']);
    assert(".tar"@ =~= seq!['.', 't', 'a', 'r']);
    assert(".gz"@ =~= seq!['.', 'g', 'z']);
    assert(".bz2"@ =~= seq!['.', 'b', 'z', '2']);
    assert(".xz"@ =~= seq!['.', 'x', 'z']);
    assert(".zst"@ =~= seq!['.', 'z', 's', 't']);
    assert(".cab"@ =~= seq!['.', 'c', 'a', 'b']);
    assert(".lha"@ =~= seq!['.', 'l', 'h', 'a']);
    assert(".lzh"@ =~= seq!['.', 'l', 'z', 'h']);
    assert(".tgz"@ =~= seq!['.', 't', 'g', 'z']);
    assert(".tbz2"@ =~= seq!['.', 't', 'b', 'z', '2']);
    assert(".txz"@ =~= seq!['.', 't', 'x', 'z']);
    assert(".iso"@ =~= seq!['.', 'i', 's', 'o']);
}

/// The commands of the menu are named after what they do: with `-each` for
/// one archive per folder, and with `-to` where the destination is given.
pub proof fn law_names_of_commands(verb: Verb)
    ensures
        subcommand_text(Verb::Extract) == "extract"@,
        subcommand_text(Verb::Zip) == "zip"@,
        subcommand_text(Verb::SevenZip) == "7z"@,
        subcommand_text(Verb::ZipEach) == subcommand_text(Verb::Zip) + "-each"@,
        subcommand_text(Verb::SevenZipEach) == subcommand_text(Verb::SevenZip) + "-each"@,
        targeted_text(verb) == subcommand_text(verb) + "-to"@,
{
    reveal_strlit("extract");
    reveal_strlit("zip");
    reveal_strlit("7z");
    reveal_strlit("zip-each");
    reveal_strlit("7z-each");
    reveal_strlit("extract-to");
    reveal_strlit("zip-to");
    reveal_strlit("7z-to");
    reveal_strlit("zip-each-to");
    reveal_strlit("7z-each-to");
    reveal_strlit("-each");
    reveal_strlit("-to");
    assert(subcommand_text(Verb::ZipEach) =~= "zip"@ + "-each"@);
    assert(subcommand_text(Verb::SevenZipEach) =~= "7z"@ + "-each"@);
    assert(targeted_text(verb) =~= subcommand_text(verb) + "-to"@);
}

/// What the menu offers. A single archive can be extracted. Several archives
/// can be extracted, each to its folder, or compressed. Anything else can be
/// compressed to ZIP or 7z; several folders into one archive or one each.
pub proof fn law_menu_of_a_selection(paths: Seq<SelectedPath>, names: DestinationNames)
    requires
        paths.len() > 0,
    ensures
        ({
            let items = menu_items(paths, names);
            let archives = is_archive_selection(paths);
            let folders = paths.len() > 1 && forall|i: int|
                0 <= i < paths.len() ==> (#[trigger] paths[i]).is_dir;
            &&& archives && paths.len() == 1 ==> items.len() == 1 && items[0].0 == Verb::Extract
            &&& !archives && !folders ==> items.len() == 2 && items[0].0 == Verb::Zip && items[1].0
                == Verb::SevenZip
            &&& !archives && folders ==> items.len() == 4 && items[0].0 == Verb::Zip && items[1].0
                == Verb::SevenZip && items[2].0 == Verb::ZipEach && items[3].0
                == Verb::SevenZipEach
            &&& archives && paths.len() > 1 ==> items.len() >= 3 && items[0].0 == Verb::Extract
                && items[1].0 == Verb::Zip && items[2].0 == Verb::SevenZip
        }),
{
}

/// A name that is too long for the menu keeps its start, and the ending of a
/// new archive.
pub proof fn law_long_names_keep_their_start(name: Seq<char>, suffix: Seq<char>)
    requires
        name.len() > 30,
        suffix.len() < 30,
    ensures
        shortened(name, suffix).len() == 30,
        forall|k: int|
            0 <= k < 29 - suffix.len() ==> #[trigger] shortened(name, suffix)[k] == name[k],
        shortened(name, suffix)[29 - suffix.len()] == '\u{2026}',
        shortened(name, suffix).skip(30 - suffix.len()) == suffix,
{
    assert(shortened(name, suffix).skip(30 - suffix.len()) =~= suffix);
}

/// The ending of a new archive that is kept is the one it has, as it is
/// written.
pub proof fn law_kept_endings(stem: Seq<char>, ending: Seq<char>)
    ensures
        text::lower(ending) == seq!['.', 'z', 'i', 'p'] || text::lower(ending) == seq![
            '.',
            '7',
            'z',
        ] ==> suffix_kept(stem + ending) == ending,
{
    lemma_archive_endings();
    let name = stem + ending;
    let lower = text::lower(name);
    assert(text::lower(ending).len() == ending.len());
    assert(name.skip(name.len() - ending.len()) =~= ending);
    assert(lower.subrange(stem.len() as int, lower.len() as int) =~= text::lower(ending));
    if text::lower(ending) == seq!['.', '7', 'z'] {
        if ".zip"@.is_suffix_of(lower) {
            let end = lower.subrange(lower.len() - 4, lower.len() as int);
            assert(end[3] == lower[lower.len() - 1]);
            assert(lower[lower.len() - 1] == text::lower(ending)[2]);
        }
        assert(".7z"@.is_suffix_of(lower));
    }
    if text::lower(ending) == seq!['.', 'z', 'i', 'p'] {
        assert(".zip"@.is_suffix_of(lower));
    }
}

/// Every ending of an archive is in the list.
pub proof fn lemma_ending_is_listed(ending: Seq<char>)
    requires
        ends_an_archive(ending),
    ensures
        archive_extensions().contains(ending),
{
    lemma_archive_endings();
    let list = archive_extensions();
    assert(list[0] == seq!['.', 'z', 'i', 'p']);
    assert(list[1] == seq!['.', 'z', 'i', 'p', 'x']);
    assert(list[2] == seq!['.', '7', 'z']);
    assert(list[3] == seq!['.', 'r', 'a', 'r']);
    assert(list[4] == seq!['.', 't', 'a', 'r']);
    assert(list[5] == seq!['.', 'g', 'z']);
    assert(list[6] == seq!['.', 'b', 'z', '2']);
    assert(list[7] == seq!['.', 'x', 'z']);
    assert(list[8] == seq!['.', 'z', 's', 't']);
    assert(list[9] == seq!['.', 'c', 'a', 'b']);
    assert(list[10] == seq!['.', 'l', 'h', 'a']);
    assert(list[11] == seq!['.', 'l', 'z', 'h']);
    assert(list[12] == seq!['.', 't', 'g', 'z']);
    assert(list[13] == seq!['.', 't', 'b', 'z', '2']);
    assert(list[14] == seq!['.', 't', 'x', 'z']);
    assert(list[15] == seq!['.', 'i', 's', 'o']);
}

/// What is left of an archive's name for a folder: the name without its
/// ending, whatever the ending is, and without both endings of a compressed
/// TAR archive.
pub proof fn law_folders_are_named_after_their_archives(base: Seq<char>, ending: Seq<char>)
    requires
        base.len() > 0,
        ending.len() > 0,
        forall|k: int| 0 <= k < ending.len() ==> ending[k] != '.',
        !text::is_digit(ending[0]),
        tape_ending(base + seq!['.'] + ending) == 0,
    ensures
        stem(Some(base + seq!['.'] + ending)) == base,
{
    let name = base + seq!['.'] + ending;
    let dot = base.len() as int;
    assert(name[dot] == '.');
    assert forall|k: int| dot < k < name.len() implies name[k] != '.' by {
        assert(name[k] == ending[k - dot - 1]);
    }
    assert(text::is_last_place(name, '.', dot));
    assert forall|at: int| !splits_at(name, at) by {
        if splits_at(name, at) {
            names::lemma_last_place_unique(name, '.', at, dot);
            assert(names::behind_last_dot(name, at)[0] == ending[0]);
        }
    }
    assert(split_base(name) is None);
    let at = choose|at: int| 0 < at && text::is_last_place(name, '.', at);
    names::lemma_last_place_unique(name, '.', at, dot);
    assert(names::before_last_dot(name, at) =~= base);
    reveal_strlit(".");
    reveal_strlit("..");
    if name == "."@ || name == ".."@ {
        assert(name.len() >= 3);
    }
}

/// A compressed TAR archive loses both of its endings.
pub proof fn law_compressed_tapes_lose_both_endings(base: Seq<char>, ending: Seq<char>)
    requires
        base.len() > 0,
        ending == ".tar.gz"@ || ending == ".tar.xz"@ || ending == ".tar.bz2"@ || ending
            == ".tar.zst"@,
    ensures
        stem(Some(base + ending)) == base,
{
    reveal_strlit(".tar.gz");
    reveal_strlit(".tar.xz");
    reveal_strlit(".tar.bz2");
    reveal_strlit(".tar.zst");
    let name = base + ending;
    let lower = text::lower(name);
    assert(text::lower(ending) =~= ending);
    assert(lower.subrange(base.len() as int, lower.len() as int) =~= ending);
    assert(ends_in_any_case(name, ending));
    let dot = base.len() + 4;
    assert(name[dot as int] == '.');
    assert forall|k: int| dot < k < name.len() implies name[k] != '.' by {
        assert(name[k] == ending[k - base.len()]);
    }
    assert(text::is_last_place(name, '.', dot as int));
    assert forall|at: int| !splits_at(name, at) by {
        if splits_at(name, at) {
            names::lemma_last_place_unique(name, '.', at, dot as int);
            assert(names::behind_last_dot(name, at)[0] == ending[5]);
        }
    }
    assert(split_base(name) is None);
    if ".tar.zst"@.is_suffix_of(lower) {
        let end = lower.subrange(lower.len() - 8, lower.len() as int);
        assert(end[7] == lower[lower.len() - 1]);
        assert(lower[lower.len() - 1] == ending[ending.len() - 1]);
    }
    if ".tar.bz2"@.is_suffix_of(lower) {
        let end = lower.subrange(lower.len() - 8, lower.len() as int);
        assert(end[7] == lower[lower.len() - 1]);
        assert(lower[lower.len() - 1] == ending[ending.len() - 1]);
    }
    assert(tape_ending(name) == ending.len());
    assert(name.take(name.len() - ending.len()) =~= base);
}

/// A selected path is an archive only when it is a file with a name; then its
/// name alone decides, in any case.
pub proof fn law_archives_are_files(path: SelectedPath, other: SelectedPath)
    ensures
        !path.is_file ==> !is_archive(path),
        path.name is None ==> !is_archive(path),
        path.is_file && path.name is Some && names_archive(text::unicode_lower(path.name->0@))
            ==> is_archive(path),
        path.is_file && other.is_file && path.name is Some && other.name is Some
            && text::unicode_lower(path.name->0@) == text::unicode_lower(other.name->0@)
            ==> is_archive(path) == is_archive(other),
{
}

} // verus!
