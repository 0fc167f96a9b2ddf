//! What archive operations are asked to do, and what they report.

use vstd::prelude::*;
use vstd::string::*;
use crate::paths;
use crate::text;

verus! {

// ---------------------------------------------------------------------------
// Threads
// ---------------------------------------------------------------------------

/// How many threads compress.
#[derive(Debug, Clone, Copy, PartialEq, Eq, Structural)]
pub enum ThreadCount {
    Auto,
    Four,
    Six,
    Eight,
    Ten,
    Sixteen,
    All,
    Exact(u32),
}

impl ThreadCount {
    /// The number of threads, on a machine that shows `cpus` processors.
    pub open spec fn threads(self, cpus: u32) -> u32 {
        match self {
            ThreadCount::Auto => cpus,
            ThreadCount::Four => 4,
            ThreadCount::Six => 6,
            ThreadCount::Eight => 8,
            ThreadCount::Ten => 10,
            ThreadCount::Sixteen => 16,
            ThreadCount::All => cpus,
            ThreadCount::Exact(count) => count,
        }
    }

    /// The thread count handed to the native library. `cpus` is the number of
    /// processors that the process sees.
    pub fn sevenzip_threads(self, cpus: u32) -> (threads: Option<u32>)
        ensures
            threads == Some(self.threads(cpus)),
    {
        match self {
            ThreadCount::Auto => Some(cpus),
            ThreadCount::Four => Some(4),
            ThreadCount::Six => Some(6),
            ThreadCount::Eight => Some(8),
            ThreadCount::Ten => Some(10),
            ThreadCount::Sixteen => Some(16),
            ThreadCount::All => Some(cpus),
            ThreadCount::Exact(count) => Some(count),
        }
    }

    /// The choice that a stored setting stands for; anything else is automatic.
    pub open spec fn of_key(key: Seq<char>) -> ThreadCount {
        if key == "4"@ {
            ThreadCount::Four
        } else if key == "6"@ {
            ThreadCount::Six
        } else if key == "8"@ {
            ThreadCount::Eight
        } else if key == "10"@ {
            ThreadCount::Ten
        } else if key == "16"@ {
            ThreadCount::Sixteen
        } else if key == "all"@ {
            ThreadCount::All
        } else {
            ThreadCount::Auto
        }
    }

    /// [`ThreadCount::of_key`], executable.
    pub fn from_registry_key(key: &str) -> (count: ThreadCount)
        ensures
            count == ThreadCount::of_key(key@),
    {
        if text::same_text(key, "4") {
            ThreadCount::Four
        } else if text::same_text(key, "6") {
            ThreadCount::Six
        } else if text::same_text(key, "8") {
            ThreadCount::Eight
        } else if text::same_text(key, "10") {
            ThreadCount::Ten
        } else if text::same_text(key, "16") {
            ThreadCount::Sixteen
        } else if text::same_text(key, "all") {
            ThreadCount::All
        } else {
            ThreadCount::Auto
        }
    }

    /// The choice at a place of the list that the settings show.
    pub fn from_ui_index(index: i32) -> (count: ThreadCount)
        ensures
            count == match index {
                1 => ThreadCount::Four,
                2 => ThreadCount::Six,
                3 => ThreadCount::Eight,
                4 => ThreadCount::Ten,
                5 => ThreadCount::Sixteen,
                6 => ThreadCount::All,
                _ => ThreadCount::Auto,
            },
    {
        match index {
            1 => ThreadCount::Four,
            2 => ThreadCount::Six,
            3 => ThreadCount::Eight,
            4 => ThreadCount::Ten,
            5 => ThreadCount::Sixteen,
            6 => ThreadCount::All,
            _ => ThreadCount::Auto,
        }
    }

    /// The place of the choice in the list that the settings show. An exact
    /// count is not in the list and shows as automatic.
    pub fn ui_index(self) -> (index: i32)
        ensures
            index == match self {
                ThreadCount::Auto => 0i32,
                ThreadCount::Four => 1,
                ThreadCount::Six => 2,
                ThreadCount::Eight => 3,
                ThreadCount::Ten => 4,
                ThreadCount::Sixteen => 5,
                ThreadCount::All => 6,
                ThreadCount::Exact(_) => 0,
            },
    {
        match self {
            ThreadCount::Auto => 0,
            ThreadCount::Four => 1,
            ThreadCount::Six => 2,
            ThreadCount::Eight => 3,
            ThreadCount::Ten => 4,
            ThreadCount::Sixteen => 5,
            ThreadCount::All => 6,
            ThreadCount::Exact(_) => 0,
        }
    }
}

// ---------------------------------------------------------------------------
// Formats and backends
// ---------------------------------------------------------------------------

/// The formats that can be written.
#[derive(Debug, Clone, Copy, PartialEq, Eq, Structural)]
pub enum CreateFormat {
    Zip,
    SevenZip,
    Tar,
    TarGzip,
    TarXz,
    TarZstd,
}

impl CreateFormat {
    /// The extension of a new archive.
    pub open spec fn extension_text(self) -> Seq<char> {
        match self {
            CreateFormat::Zip => "zip"@,
            CreateFormat::SevenZip => "7z"@,
            CreateFormat::Tar => "tar"@,
            CreateFormat::TarGzip => "tar.gz"@,
            CreateFormat::TarXz => "tar.xz"@,
            CreateFormat::TarZstd => "tar.zst"@,
        }
    }

    /// [`CreateFormat::extension_text`], executable.
    pub fn default_extension(self) -> (extension: &'static str)
        ensures
            extension@ == self.extension_text(),
    {
        match self {
            CreateFormat::Zip => "zip",
            CreateFormat::SevenZip => "7z",
            CreateFormat::Tar => "tar",
            CreateFormat::TarGzip => "tar.gz",
            CreateFormat::TarXz => "tar.xz",
            CreateFormat::TarZstd => "tar.zst",
        }
    }

    /// The name shown for the format.
    pub open spec fn label_text(self) -> Seq<char> {
        match self {
            CreateFormat::Zip => "ZIP"@,
            CreateFormat::SevenZip => "7z"@,
            CreateFormat::Tar => "TAR"@,
            CreateFormat::TarGzip => "TAR.GZ"@,
            CreateFormat::TarXz => "TAR.XZ"@,
            CreateFormat::TarZstd => "TAR.ZST"@,
        }
    }

    /// [`CreateFormat::label_text`], executable.
    pub fn label(self) -> (label: &'static str)
        ensures
            label@ == self.label_text(),
    {
        match self {
            CreateFormat::Zip => "ZIP",
            CreateFormat::SevenZip => "7z",
            CreateFormat::Tar => "TAR",
            CreateFormat::TarGzip => "TAR.GZ",
            CreateFormat::TarXz => "TAR.XZ",
            CreateFormat::TarZstd => "TAR.ZST",
        }
    }

    /// The name of the variant, as errors show it.
    pub open spec fn variant_text(self) -> Seq<char> {
        match self {
            CreateFormat::Zip => "Zip"@,
            CreateFormat::SevenZip => "SevenZip"@,
            CreateFormat::Tar => "Tar"@,
            CreateFormat::TarGzip => "TarGzip"@,
            CreateFormat::TarXz => "TarXz"@,
            CreateFormat::TarZstd => "TarZstd"@,
        }
    }

    /// [`CreateFormat::variant_text`], executable.
    pub fn variant_name(self) -> (name: &'static str)
        ensures
            name@ == self.variant_text(),
    {
        match self {
            CreateFormat::Zip => "Zip",
            CreateFormat::SevenZip => "SevenZip",
            CreateFormat::Tar => "Tar",
            CreateFormat::TarGzip => "TarGzip",
            CreateFormat::TarXz => "TarXz",
            CreateFormat::TarZstd => "TarZstd",
        }
    }
}

/// What reads and writes the data of ZIP archives.
#[derive(Debug, Clone, Copy, PartialEq, Eq, Structural)]
pub enum ZipBackend {
    SevenZip,
    ZlibNg,
    ZlibRs,
}

impl ZipBackend {
    /// The stored form of the choice.
    pub open spec fn key_text(self) -> Seq<char> {
        match self {
            ZipBackend::SevenZip => "7z"@,
            ZipBackend::ZlibNg => "zlib-ng"@,
            ZipBackend::ZlibRs => "zlib-rs"@,
        }
    }

    /// [`ZipBackend::key_text`], executable.
    pub fn registry_key(self) -> (key: &'static str)
        ensures
            key@ == self.key_text(),
    {
        match self {
            ZipBackend::SevenZip => "7z",
            ZipBackend::ZlibNg => "zlib-ng",
            ZipBackend::ZlibRs => "zlib-rs",
        }
    }

    /// The backend that a key names, if it names one.
    pub open spec fn named(key: Seq<char>) -> Option<ZipBackend> {
        if key == "7z"@ {
            Some(ZipBackend::SevenZip)
        } else if key == "zlib-ng"@ {
            Some(ZipBackend::ZlibNg)
        } else if key == "zlib-rs"@ {
            Some(ZipBackend::ZlibRs)
        } else {
            None
        }
    }

    /// [`ZipBackend::named`], executable.
    pub fn from_name(key: &str) -> (backend: Option<ZipBackend>)
        ensures
            backend == ZipBackend::named(key@),
    {
        if text::same_text(key, "7z") {
            Some(ZipBackend::SevenZip)
        } else if text::same_text(key, "zlib-ng") {
            Some(ZipBackend::ZlibNg)
        } else if text::same_text(key, "zlib-rs") {
            Some(ZipBackend::ZlibRs)
        } else {
            None
        }
    }

    /// The stored choice; zlib-rs where nothing valid is stored.
    pub fn from_registry_key(key: &str) -> (backend: ZipBackend)
        ensures
            backend == match ZipBackend::named(key@) {
                Some(backend) => backend,
                None => ZipBackend::ZlibRs,
            },
    {
        match ZipBackend::from_name(key) {
            Some(backend) => backend,
            None => ZipBackend::ZlibRs,
        }
    }
}

/// A stored backend is read back as it was.
pub proof fn law_backend_keys_read_back(backend: ZipBackend)
    ensures
        ZipBackend::named(backend.key_text()) == Some(backend),
{
    reveal_strlit("7z");
    reveal_strlit("zlib-ng");
    reveal_strlit("zlib-rs");
    assert("7z"@.len() == 2 && "zlib-ng"@.len() == 7 && "zlib-rs"@.len() == 7);
    assert("zlib-ng"@[5] == 'n' && "zlib-rs"@[5] == 'r');
}

/// The name that is shown for a format is its extension in capitals, but for
/// 7z; the backends are named `7z`, `zlib-ng` and `zlib-rs`.
pub proof fn law_names_of_formats_and_backends(format: CreateFormat)
    ensures
        text::lower(format.label_text()) == format.extension_text(),
        ZipBackend::named("7z"@) == Some(ZipBackend::SevenZip),
        ZipBackend::named("zlib-ng"@) == Some(ZipBackend::ZlibNg),
        ZipBackend::named("zlib-rs"@) == Some(ZipBackend::ZlibRs),
{
    law_backend_keys_read_back(ZipBackend::SevenZip);
    law_backend_keys_read_back(ZipBackend::ZlibNg);
    law_backend_keys_read_back(ZipBackend::ZlibRs);
    reveal_strlit("ZIP");
    reveal_strlit("zip");
    reveal_strlit("7z");
    reveal_strlit("TAR");
    reveal_strlit("tar");
    reveal_strlit("TAR.GZ");
    reveal_strlit("tar.gz");
    reveal_strlit("TAR.XZ");
    reveal_strlit("tar.xz");
    reveal_strlit("TAR.ZST");
    reveal_strlit("tar.zst");
    assert(text::lower(format.label_text()) =~= format.extension_text());
}

/// A number of threads is what its choice says: the number itself, or the
/// number of processors. The key of a choice is that number in digits.
pub proof fn law_thread_choices(choice: ThreadCount, cpus: u32)
    ensures
        choice == ThreadCount::Auto || choice == ThreadCount::All ==> choice.threads(cpus) == cpus,
        choice is Exact ==> choice.threads(cpus) == choice->Exact_0,
        choice == ThreadCount::Four || choice == ThreadCount::Six || choice == ThreadCount::Eight
            || choice == ThreadCount::Ten || choice == ThreadCount::Sixteen
            ==> ThreadCount::of_key(text::decimal(choice.threads(cpus) as nat)) == choice,
        choice == ThreadCount::Four ==> choice.threads(cpus) == 4,
        choice == ThreadCount::Six ==> choice.threads(cpus) == 6,
        choice == ThreadCount::Eight ==> choice.threads(cpus) == 8,
        choice == ThreadCount::Ten ==> choice.threads(cpus) == 10,
        choice == ThreadCount::Sixteen ==> choice.threads(cpus) == 16,
        ThreadCount::of_key("all"@) == ThreadCount::All,
{
    reveal_strlit("4");
    reveal_strlit("6");
    reveal_strlit("8");
    reveal_strlit("10");
    reveal_strlit("16");
    reveal_strlit("all");
    reveal_with_fuel(text::decimal, 3);
    assert(text::decimal(4) =~= "4"@);
    assert(text::decimal(6) =~= "6"@);
    assert(text::decimal(8) =~= "8"@);
    assert(text::decimal(10) =~= "10"@);
    assert(text::decimal(16) =~= "16"@);
    assert("4"@[0] == '4' && "6"@[0] == '6' && "8"@[0] == '8' && "10"@[0] == '1' && "16"@[0] == '1'
        && "all"@[0] == 'a');
    assert("10"@[1] == '0' && "16"@[1] == '6');
}

// ---------------------------------------------------------------------------
// Conflicts
// ---------------------------------------------------------------------------

/// What happens at first when an output file exists.
#[derive(Debug, Clone, Copy, PartialEq, Eq, Structural)]
pub enum InitialConflictPolicy {
    Ask,
    OverwriteAll,
    SkipAll,
}

/// An answer about one existing output file.
#[derive(Debug, Clone, Copy, PartialEq, Eq, Structural)]
pub enum ConflictChoice {
    Overwrite,
    OverwriteAll,
    Skip,
    SkipAll,
    Cancel,
}

/// What happens when an output file exists, as the answers so far decide.
#[derive(Debug, Clone, Copy, PartialEq, Eq, Structural)]
pub enum RuntimePolicy {
    Ask,
    OverwriteAll,
    SkipAll,
}

impl RuntimePolicy {
    /// The policy that an operation starts with.
    pub fn from_initial(initial: InitialConflictPolicy) -> (policy: RuntimePolicy)
        ensures
            policy == match initial {
                InitialConflictPolicy::Ask => RuntimePolicy::Ask,
                InitialConflictPolicy::OverwriteAll => RuntimePolicy::OverwriteAll,
                InitialConflictPolicy::SkipAll => RuntimePolicy::SkipAll,
            },
    {
        match initial {
            InitialConflictPolicy::Ask => RuntimePolicy::Ask,
            InitialConflictPolicy::OverwriteAll => RuntimePolicy::OverwriteAll,
            InitialConflictPolicy::SkipAll => RuntimePolicy::SkipAll,
        }
    }

    /// The policy after an answer: the answers for all files are kept.
    pub open spec fn after(self, choice: ConflictChoice) -> RuntimePolicy {
        match choice {
            ConflictChoice::OverwriteAll => RuntimePolicy::OverwriteAll,
            ConflictChoice::SkipAll => RuntimePolicy::SkipAll,
            _ => self,
        }
    }

    /// [`RuntimePolicy::after`], executable.
    pub fn latch(self, choice: ConflictChoice) -> (policy: RuntimePolicy)
        ensures
            policy == self.after(choice),
    {
        match choice {
            ConflictChoice::OverwriteAll => RuntimePolicy::OverwriteAll,
            ConflictChoice::SkipAll => RuntimePolicy::SkipAll,
            _ => self,
        }
    }

    /// The answer that needs no question, where the policy has one.
    pub open spec fn settled(self) -> Option<ConflictChoice> {
        match self {
            RuntimePolicy::OverwriteAll => Some(ConflictChoice::Overwrite),
            RuntimePolicy::SkipAll => Some(ConflictChoice::Skip),
            RuntimePolicy::Ask => None,
        }
    }

    /// [`RuntimePolicy::settled`], executable.
    pub fn settled_choice(self) -> (choice: Option<ConflictChoice>)
        ensures
            choice == self.settled(),
    {
        match self {
            RuntimePolicy::OverwriteAll => Some(ConflictChoice::Overwrite),
            RuntimePolicy::SkipAll => Some(ConflictChoice::Skip),
            RuntimePolicy::Ask => None,
        }
    }
}

/// Once an answer is given for all files, no later file is asked about, and
/// none of the answers that follow from it changes the policy.
pub proof fn law_answers_for_all_are_kept(policy: RuntimePolicy, choice: ConflictChoice)
    requires
        choice == ConflictChoice::OverwriteAll || choice == ConflictChoice::SkipAll,
    ensures
        policy.after(choice).settled() is Some,
        policy.after(choice).after(policy.after(choice).settled()->0) == policy.after(choice),
{
}

/// An answer decides what happens to the files after it. After `overwrite all`
/// every existing file is overwritten, after `skip all` every one is skipped;
/// the other answers are for one file only, and the next is asked about again.
pub proof fn law_answers_decide(policy: RuntimePolicy)
    ensures
        policy.after(ConflictChoice::OverwriteAll).settled() == Some(ConflictChoice::Overwrite),
        policy.after(ConflictChoice::SkipAll).settled() == Some(ConflictChoice::Skip),
        policy.after(ConflictChoice::Overwrite) == policy,
        policy.after(ConflictChoice::Skip) == policy,
        policy.after(ConflictChoice::Cancel) == policy,
        policy.settled() is None <==> policy == RuntimePolicy::Ask,
        policy.settled() == Some(ConflictChoice::Overwrite) <==> policy
            == RuntimePolicy::OverwriteAll,
        policy.settled() == Some(ConflictChoice::Skip) <==> policy == RuntimePolicy::SkipAll,
{
}

// ---------------------------------------------------------------------------
// Entries
// ---------------------------------------------------------------------------

/// What an archive entry is.
#[derive(Debug, Clone, Copy, PartialEq, Eq, Structural)]
pub enum ArchiveEntryKind {
    File,
    Directory,
}

/// One entry of an archive's listing.
#[derive(Debug)]
pub struct ArchiveEntry {
    pub index: u64,
    pub path: Vec<String>,
    pub display_path: String,
    pub size: Option<u64>,
    pub compressed_size: Option<u64>,
    pub modified_unix_seconds: Option<i64>,
    pub kind: ArchiveEntryKind,
    pub encrypted: bool,
}

/// An [`ArchiveEntry`] over sequences.
#[verifier::ext_equal]
pub struct EntryView {
    pub index: u64,
    pub path: Seq<Seq<char>>,
    pub display_path: Seq<char>,
    pub size: Option<u64>,
    pub compressed_size: Option<u64>,
    pub modified_unix_seconds: Option<i64>,
    pub kind: ArchiveEntryKind,
    pub encrypted: bool,
}

impl View for ArchiveEntry {
    type V = EntryView;

    open spec fn view(&self) -> EntryView {
        EntryView {
            index: self.index,
            path: text::texts(self.path@),
            display_path: self.display_path@,
            size: self.size,
            compressed_size: self.compressed_size,
            modified_unix_seconds: self.modified_unix_seconds,
            kind: self.kind,
            encrypted: self.encrypted,
        }
    }
}

/// The views of entries.
pub open spec fn entry_views(entries: Seq<ArchiveEntry>) -> Seq<EntryView> {
    Seq::new(entries.len(), |i: int| entries[i]@)
}

/// Which entries are extracted.
#[derive(Debug)]
pub enum ExtractSelection {
    All,
    Paths(Vec<Vec<String>>),
}

/// An [`ExtractSelection`] over sequences.
pub enum SelectionView {
    All,
    Paths(Seq<Seq<Seq<char>>>),
}

impl View for ExtractSelection {
    type V = SelectionView;

    open spec fn view(&self) -> SelectionView {
        match *self {
            ExtractSelection::All => SelectionView::All,
            ExtractSelection::Paths(paths) => SelectionView::Paths(
                Seq::new(paths@.len(), |i: int| text::texts(paths@[i]@)),
            ),
        }
    }
}

/// Whether a path is selected: everything is, or the path or one above it is
/// in the list. A dot inside a path does not count.
pub open spec fn selects(selection: SelectionView, path: Seq<Seq<char>>) -> bool {
    match selection {
        SelectionView::All => true,
        SelectionView::Paths(list) => exists|i: int|
            0 <= i < list.len() && paths::lies_below(
                paths::plain_names(path, false),
                paths::plain_names(#[trigger] list[i], false),
            ),
    }
}

impl ExtractSelection {
    /// [`selects`], executable.
    pub fn includes(&self, path: &Vec<String>) -> (yes: bool)
        ensures
            yes == selects(self@, text::texts(path@)),
    {
        match self {
            ExtractSelection::All => true,
            ExtractSelection::Paths(list) => {
                let ghost views = Seq::new(list@.len(), |i: int| text::texts(list@[i]@));
                proof {
                    assert(self@->Paths_0 =~= views);
                }
                let names = paths::plain_names_of(path, false);
                let mut i: usize = 0;
                while i < list.len()
                    invariant
                        i <= list@.len(),
                        self@ == SelectionView::Paths(views),
                        views == Seq::new(list@.len(), |i: int| text::texts(list@[i]@)),
                        text::texts(names@) == paths::plain_names(text::texts(path@), false),
                        forall|k: int|
                            0 <= k < i ==> !paths::lies_below(
                                text::texts(names@),
                                paths::plain_names(#[trigger] views[k], false),
                            ),
                    decreases list@.len() - i,
                {
                    let above = paths::plain_names_of(&list[i], false);
                    proof {
                        assert(views[i as int] == text::texts(list@[i as int]@));
                    }
                    if paths::path_starts_with(&names, &above) {
                        proof {
                            let chosen = self@->Paths_0;
                            assert(chosen[i as int] == views[i as int]);
                        }
                        return true;
                    }
                    i += 1;
                }
                false
            },
        }
    }
}

/// A selection takes the paths in its list and everything below them, and
/// nothing else. Selecting all takes every path.
pub proof fn law_selection_takes_what_it_names(
    list: Seq<Seq<Seq<char>>>,
    path: Seq<Seq<char>>,
    i: int,
)
    requires
        path.len() > 0,
        forall|k: int| 0 <= k < path.len() ==> #[trigger] path[k] != "."@,
        forall|n: int, k: int|
            0 <= n < list.len() && 0 <= k < list[n].len() ==> #[trigger] list[n][k] != "."@,
    ensures
        selects(SelectionView::All, path),
        0 <= i < list.len() && list[i] == path ==> selects(SelectionView::Paths(list), path),
        0 <= i < list.len() && list[i].len() <= path.len() && path.take(list[i].len() as int)
            == list[i] ==> selects(SelectionView::Paths(list), path),
        (forall|n: int|
            0 <= n < list.len() ==> (#[trigger] list[n]).len() > path.len() || path.take(
                list[n].len() as int,
            ) != list[n]) ==> !selects(SelectionView::Paths(list), path),
{
    paths::lemma_without_dots_same(path);
    assert(path[0] != "."@);
    assert forall|n: int| 0 <= n < list.len() implies paths::plain_names(#[trigger] list[n], false)
        == list[n] by {
        assert forall|k: int| 0 <= k < list[n].len() implies #[trigger] list[n][k] != "."@ by {}
        paths::lemma_without_dots_same(list[n]);
        if list[n].len() > 0 {
            assert(list[n][0] != "."@);
        }
    }
    if 0 <= i < list.len() && list[i] == path {
        assert(path.take(list[i].len() as int) =~= list[i]);
    }
    if 0 <= i < list.len() && list[i].len() <= path.len() && path.take(list[i].len() as int)
        == list[i] {
        assert(path.subrange(0, list[i].len() as int) =~= list[i]);
        assert(paths::lies_below(
            paths::plain_names(path, false),
            paths::plain_names(list[i], false),
        ));
        let chosen = SelectionView::Paths(list)->Paths_0;
        assert(chosen[i] == list[i]);
        assert(selects(SelectionView::Paths(list), path));
    }
    if selects(SelectionView::Paths(list), path) {
        let n = choose|n: int|
            0 <= n < list.len() && paths::lies_below(
                paths::plain_names(path, false),
                paths::plain_names(#[trigger] list[n], false),
            );
        assert(path.subrange(0, list[n].len() as int) =~= path.take(list[n].len() as int));
        assert(list[n].len() <= path.len() && path.take(list[n].len() as int) == list[n]);
    }
}

// ---------------------------------------------------------------------------
// Requests
// ---------------------------------------------------------------------------

/// The largest number of entries that is read by default.
pub const DEFAULT_MAX_ENTRIES: u64 = 1_000_000;

/// The largest number of bytes that is extracted by default: 512 TiB.
pub const DEFAULT_MAX_BYTES: u64 = 0x2_0000_0000_0000;

/// How a new archive is made.
#[derive(Debug)]
pub struct CreateOptions {
    pub format: CreateFormat,
    pub compression_level: u8,
    pub password: Option<String>,
    pub threads: ThreadCount,
    pub split_size: Option<u64>,
    pub encrypt_headers: bool,
    pub preserve_root: bool,
    pub zip_backend: ZipBackend,
}

impl CreateOptions {
    /// The options when nothing is chosen.
    pub open spec fn is_default(self) -> bool {
        &&& self.format == CreateFormat::Zip
        &&& self.compression_level == 5
        &&& self.password is None
        &&& self.threads == ThreadCount::Auto
        &&& self.split_size is None
        &&& !self.encrypt_headers
        &&& !self.preserve_root
        &&& self.zip_backend == ZipBackend::ZlibRs
    }

    /// Whether a password that is not empty is set.
    pub open spec fn has_password(self) -> bool {
        self.password is Some && self.password->0@.len() > 0
    }

    /// [`CreateOptions::has_password`], executable.
    pub fn has_usable_password(&self) -> (yes: bool)
        ensures
            yes == self.has_password(),
    {
        match &self.password {
            Some(password) => !password.as_str().is_empty(),
            None => false,
        }
    }
}

impl Default for CreateOptions {
    fn default() -> (options: CreateOptions)
        ensures
            options.is_default(),
    {
        CreateOptions {
            format: CreateFormat::Zip,
            compression_level: 5,
            password: None,
            threads: ThreadCount::Auto,
            split_size: None,
            encrypt_headers: false,
            preserve_root: false,
            zip_backend: ZipBackend::ZlibRs,
        }
    }
}

/// How an archive is extracted.
#[derive(Debug)]
pub struct ExtractOptions {
    pub password: Option<String>,
    pub conflict_policy: InitialConflictPolicy,
    pub selection: ExtractSelection,
    pub flatten_paths: bool,
    pub pathname_codepage: u32,
    pub max_entries: u64,
    pub max_file_bytes: u64,
    pub max_total_bytes: u64,
    pub total_entries_hint: Option<u64>,
    pub total_bytes_hint: Option<u64>,
    pub threads: ThreadCount,
    pub zip_backend: ZipBackend,
    pub copy_zone_identifier: bool,
}

impl ExtractOptions {
    /// The options when nothing is chosen.
    pub open spec fn is_default(self) -> bool {
        &&& self.password is None
        &&& self.conflict_policy == InitialConflictPolicy::Ask
        &&& self.selection is All
        &&& !self.flatten_paths
        &&& self.pathname_codepage == 0
        &&& self.max_entries == DEFAULT_MAX_ENTRIES
        &&& self.max_file_bytes == DEFAULT_MAX_BYTES
        &&& self.max_total_bytes == DEFAULT_MAX_BYTES
        &&& self.total_entries_hint is None
        &&& self.total_bytes_hint is None
        &&& self.threads == ThreadCount::Auto
        &&& self.zip_backend == ZipBackend::ZlibRs
        &&& self.copy_zone_identifier
    }
}

impl Default for ExtractOptions {
    fn default() -> (options: ExtractOptions)
        ensures
            options.is_default(),
    {
        ExtractOptions {
            password: None,
            conflict_policy: InitialConflictPolicy::Ask,
            selection: ExtractSelection::All,
            flatten_paths: false,
            pathname_codepage: 0,
            max_entries: DEFAULT_MAX_ENTRIES,
            max_file_bytes: DEFAULT_MAX_BYTES,
            max_total_bytes: DEFAULT_MAX_BYTES,
            total_entries_hint: None,
            total_bytes_hint: None,
            threads: ThreadCount::Auto,
            zip_backend: ZipBackend::ZlibRs,
            copy_zone_identifier: true,
        }
    }
}

/// What an operation did.
#[derive(Debug)]
pub struct OperationSummary {
    pub entries_processed: u64,
    pub entries_skipped: u64,
    pub bytes_processed: u64,
    pub warning: Option<String>,
}

/// An [`OperationSummary`] over sequences.
#[verifier::ext_equal]
pub struct SummaryView {
    pub entries_processed: u64,
    pub entries_skipped: u64,
    pub bytes_processed: u64,
    pub warning: Option<Seq<char>>,
}

impl View for OperationSummary {
    type V = SummaryView;

    open spec fn view(&self) -> SummaryView {
        SummaryView {
            entries_processed: self.entries_processed,
            entries_skipped: self.entries_skipped,
            bytes_processed: self.bytes_processed,
            warning: text::option_text(self.warning),
        }
    }
}

/// The sum of two numbers, up to the largest 64-bit number.
pub open spec fn capped_sum(a: u64, b: u64) -> u64 {
    if a + b > u64::MAX {
        u64::MAX
    } else {
        (a + b) as u64
    }
}

/// Two summaries together; the first warning is kept.
pub open spec fn merged_summary(a: SummaryView, b: SummaryView) -> SummaryView {
    SummaryView {
        entries_processed: capped_sum(a.entries_processed, b.entries_processed),
        entries_skipped: capped_sum(a.entries_skipped, b.entries_skipped),
        bytes_processed: capped_sum(a.bytes_processed, b.bytes_processed),
        warning: if a.warning is Some {
            a.warning
        } else {
            b.warning
        },
    }
}

/// The summary of an operation that did nothing.
pub open spec fn empty_summary() -> SummaryView {
    SummaryView { entries_processed: 0, entries_skipped: 0, bytes_processed: 0, warning: None }
}

impl OperationSummary {
    /// The summary of an operation that did nothing.
    pub fn empty() -> (summary: OperationSummary)
        ensures
            summary@ == empty_summary(),
    {
        OperationSummary {
            entries_processed: 0,
            entries_skipped: 0,
            bytes_processed: 0,
            warning: None,
        }
    }

    /// A copy of the summary.
    pub fn copy(&self) -> (summary: OperationSummary)
        ensures
            summary@ == self@,
    {
        let warning: Option<String> = match &self.warning {
            Some(text) => Some(text.clone()),
            None => None,
        };
        OperationSummary {
            entries_processed: self.entries_processed,
            entries_skipped: self.entries_skipped,
            bytes_processed: self.bytes_processed,
            warning,
        }
    }

    /// Adds another summary.
    pub fn merge(&mut self, other: OperationSummary)
        ensures
            final(self)@ == merged_summary(old(self)@, other@),
    {
        self.entries_processed = self.entries_processed.saturating_add(other.entries_processed);
        self.entries_skipped = self.entries_skipped.saturating_add(other.entries_skipped);
        self.bytes_processed = self.bytes_processed.saturating_add(other.bytes_processed);
        if self.warning.is_none() {
            self.warning = other.warning;
        }
    }
}

/// It does not matter in which groups the summaries of workers are added.
pub proof fn law_summaries_add_up(a: SummaryView, b: SummaryView, c: SummaryView)
    ensures
        merged_summary(merged_summary(a, b), c) == merged_summary(a, merged_summary(b, c)),
        merged_summary(a, empty_summary()) == a,
        merged_summary(empty_summary(), a) == a,
{
}

/// Summaries count both operations, as long as the numbers fit, and keep the
/// first warning.
pub proof fn law_summaries_count_both(a: SummaryView, b: SummaryView)
    ensures
        a.entries_processed + b.entries_processed <= u64::MAX ==> merged_summary(
            a,
            b,
        ).entries_processed == a.entries_processed + b.entries_processed,
        a.entries_skipped + b.entries_skipped <= u64::MAX ==> merged_summary(a, b).entries_skipped
            == a.entries_skipped + b.entries_skipped,
        a.bytes_processed + b.bytes_processed <= u64::MAX ==> merged_summary(a, b).bytes_processed
            == a.bytes_processed + b.bytes_processed,
        a.bytes_processed + b.bytes_processed > u64::MAX ==> merged_summary(a, b).bytes_processed
            == u64::MAX,
        a.warning is Some ==> merged_summary(a, b).warning == a.warning,
        a.warning is None ==> merged_summary(a, b).warning == b.warning,
{
}

// ---------------------------------------------------------------------------
// Volume sizes
// ---------------------------------------------------------------------------

/// The factor that a unit letter stands for.
pub open spec fn unit_factor(c: char) -> Option<u64> {
    if c == 'b' || c == 'B' {
        Some(1)
    } else if c == 'k' || c == 'K' {
        Some(0x400)
    } else if c == 'm' || c == 'M' {
        Some(0x10_0000)
    } else if c == 'g' || c == 'G' {
        Some(0x4000_0000)
    } else {
        None
    }
}

/// The size that a text gives: digits, and a unit letter behind them. Without
/// a letter they are bytes. Sizes under a kibibyte are too small, and those of
/// more than 64 bits too large.
pub open spec fn volume_size(s: Seq<char>) -> Option<u64> {
    if s.len() == 0 {
        None
    } else {
        let factor = match unit_factor(s.last()) {
            Some(factor) => factor,
            None => 1,
        };
        let digits = if unit_factor(s.last()) is Some { s.drop_last() } else { s };
        if digits.len() > 0 && text::all_digits(digits) && 1024 <= text::number(digits) * factor
            <= u64::MAX {
            Some((text::number(digits) * factor) as u64)
        } else {
            None
        }
    }
}

/// [`volume_size`], executable.
pub fn parse_volume_size(size: &str) -> (bytes: Option<u64>)
    ensures
        bytes == volume_size(size@),
{
    let chars = text::chars_of(size);
    let length: usize = chars.len();
    if length == 0 {
        return None;
    }
    let last: char = chars[length - 1];
    let unit: Option<u64> = if last == 'b' || last == 'B' {
        Some(1)
    } else if last == 'k' || last == 'K' {
        Some(0x400)
    } else if last == 'm' || last == 'M' {
        Some(0x10_0000)
    } else if last == 'g' || last == 'G' {
        Some(0x4000_0000)
    } else {
        None
    };
    let (factor, end): (u64, usize) = match unit {
        Some(factor) => (factor, length - 1),
        None => (1, length),
    };
    let digits = vstd::slice::slice_subrange(&chars, 0, end);
    proof {
        if unit is Some {
            assert(digits@ =~= size@.drop_last());
        } else {
            assert(digits@ =~= size@);
        }
    }
    match text::parse_u64_digits(digits) {
        None => {
            proof {
                let number = text::number(digits@);
                assert(number * factor >= number) by (nonlinear_arith)
                    requires
                        factor >= 1,
                        number >= 0,
                ;
            }
            None
        },
        Some(count) => {
            proof {
                assert(count * factor <= 0xFFFF_FFFF_FFFF_FFFF * 0x4000_0000) by (nonlinear_arith)
                    requires
                        count <= 0xFFFF_FFFF_FFFF_FFFF,
                        factor <= 0x4000_0000,
                ;
            }
            let bytes: u128 = (count as u128) * (factor as u128);
            if bytes >= 1024 && bytes <= u64::MAX as u128 {
                Some(bytes as u64)
            } else {
                None
            }
        },
    }
}

/// A size is its digits times what the letter behind them stands for: bytes,
/// or 1024 bytes for each step from kibibytes to gibibytes, in either case.
/// Sizes from 1024 bytes to the largest 64-bit number are taken.
pub proof fn law_sizes_are_digits_and_a_unit(digits: Seq<char>, unit: char, factor: nat)
    requires
        digits.len() > 0,
        text::all_digits(digits),
        (unit == 'b' || unit == 'B') ==> factor == 1,
        (unit == 'k' || unit == 'K') ==> factor == 1024,
        (unit == 'm' || unit == 'M') ==> factor == 1024 * 1024,
        (unit == 'g' || unit == 'G') ==> factor == 1024 * 1024 * 1024,
        unit == 'b' || unit == 'B' || unit == 'k' || unit == 'K' || unit == 'm' || unit == 'M'
            || unit == 'g' || unit == 'G',
    ensures
        1024 <= text::number(digits) * factor <= u64::MAX ==> volume_size(digits.push(unit))
            is Some && volume_size(digits.push(unit))->0 == text::number(digits) * factor,
        text::number(digits) * factor < 1024 || text::number(digits) * factor > u64::MAX
            ==> volume_size(digits.push(unit)) is None,
        1024 <= text::number(digits) <= u64::MAX ==> volume_size(digits) is Some && volume_size(
            digits,
        )->0 == text::number(digits),
        text::number(digits) < 1024 ==> volume_size(digits) is None,
        volume_size(seq![unit]) is None,
        volume_size(Seq::empty()) is None,
{
    let whole = digits.push(unit);
    assert(whole.drop_last() =~= digits);
    assert(whole.last() == unit);
    assert(text::is_digit(digits[digits.len() - 1]));
    assert(unit_factor(digits.last()) is None);
    assert(text::number(digits) * 1 == text::number(digits));
    assert(seq![unit].drop_last() =~= Seq::<char>::empty());
    assert(unit_factor(unit) is Some && unit_factor(unit)->0 == factor);
    if unit_factor(unit)->0 == factor {
        assert(text::number(digits) * unit_factor(unit)->0 == text::number(digits) * factor);
    }
}

/// A password counts exactly when it is set and not empty.
pub proof fn law_passwords_that_count(options: CreateOptions)
    ensures
        options.password is None ==> !options.has_password(),
        options.password is Some ==> (options.has_password() <==> options.password->0@.len() != 0),
{
}

} // verus!
