//! The native 7-Zip engine: finding its library, and what the library can do.

use vstd::prelude::*;
use vstd::string::*;
use crate::error::{ArchiveError, ArchiveResult, ErrorView};
use crate::ffi;
use crate::ffi::{Guid, E_ABORT, S_OK};
use crate::file_ops;
use crate::format::ReadFormat;
use crate::listing;
use crate::listing::Property;
use crate::options::CreateFormat;
use crate::text;

verus! {

// ---------------------------------------------------------------------------
// Handlers
// ---------------------------------------------------------------------------

/// What the library tells about one of its format handlers.
#[derive(Debug)]
pub struct HandlerProperties {
    pub name: Property,
    pub class_id: Property,
}

/// The format handlers of a library.
#[derive(Debug)]
pub struct HandlerList {
    /// Whether the library can be asked for its handlers.
    pub exported: bool,
    /// The code of the call that counts them.
    pub code: i32,
    pub count: u32,
    pub handlers: Vec<HandlerProperties>,
}

/// The largest number of handlers that is believed.
pub const MAX_HANDLERS: u32 = 1024;

/// Whether a handler has a name, up to ASCII case.
pub open spec fn has_name(handler: HandlerProperties, name: Seq<char>) -> bool {
    &&& handler.name.code == S_OK
    &&& ffi::prop_text(handler.name.value@) is Some
    &&& text::lower(ffi::prop_text(handler.name.value@)->0) == text::lower(name)
}

/// The class of a handler.
pub open spec fn class_of(handler: HandlerProperties) -> Option<Guid> {
    if handler.class_id.code == S_OK {
        ffi::prop_guid(handler.class_id.value@)
    } else {
        None
    }
}

/// The class of the first handler from `i` on that has the name and tells its
/// class.
pub open spec fn first_class(handlers: Seq<HandlerProperties>, name: Seq<char>, i: int) -> Option<
    Guid,
>
    decreases handlers.len() - i,
{
    if i < 0 || i >= handlers.len() {
        None
    } else if has_name(handlers[i], name) && class_of(handlers[i]) is Some {
        class_of(handlers[i])
    } else {
        first_class(handlers, name, i + 1)
    }
}

/// The class of the handler with a name.
pub open spec fn named_class(list: HandlerList, name: Seq<char>) -> Option<Guid> {
    if list.exported && list.code == S_OK && list.count <= MAX_HANDLERS {
        first_class(list.handlers@, name, 0)
    } else {
        None
    }
}

/// Finds the class of a handler by its name: [`named_class`], executable.
pub fn discover_handler_clsid(list: &HandlerList, expected_name: &str) -> (class: Option<Guid>)
    ensures
        class == named_class(*list, expected_name@),
{
    if !list.exported || list.code != S_OK || list.count > MAX_HANDLERS {
        return None;
    }
    let mut i: usize = 0;
    while i < list.handlers.len()
        invariant
            i <= list.handlers@.len(),
            list.exported && list.code == S_OK && list.count <= MAX_HANDLERS,
            first_class(list.handlers@, expected_name@, 0) == first_class(
                list.handlers@,
                expected_name@,
                i as int,
            ),
        decreases list.handlers@.len() - i,
    {
        let handler = &list.handlers[i];
        let mut named: bool = false;
        if handler.name.code == S_OK {
            if let Some(name) = handler.name.value.as_bstr() {
                named = text::same_ignoring_case(name.as_str(), expected_name);
            }
        }
        if named && handler.class_id.code == S_OK {
            let class: Option<Guid> = handler.class_id.value.as_guid();
            if class.is_some() {
                return class;
            }
        }
        i += 1;
    }
    None
}

/// The classes of the handlers that are used. ZIP and LZH have well-known
/// classes; the other readers are used where the library names them.
#[derive(Debug, Clone, Copy)]
pub struct ClassIds {
    pub zip: Guid,
    pub lzh: Guid,
    pub iso: Option<Guid>,
    pub rar4: Option<Guid>,
    pub rar5: Option<Guid>,
    pub nsis: Option<Guid>,
}

/// The number of the ZIP handler.
pub const ZIP_HANDLER: u8 = 0x01;

/// The number of the LZH handler.
pub const LZH_HANDLER: u8 = 0x06;

/// The number of the 7z handler.
pub const SEVENZIP_HANDLER: u8 = 0x07;

/// A class, or the well-known one.
pub open spec fn or_well_known(class: Option<Guid>, number: u8) -> Guid {
    match class {
        Some(class) => class,
        None => ffi::handler_clsid(number),
    }
}

/// The classes that a library names.
pub open spec fn classes_of(list: HandlerList) -> ClassIds {
    ClassIds {
        zip: or_well_known(named_class(list, "zip"@), ZIP_HANDLER),
        lzh: or_well_known(named_class(list, "lzh"@), LZH_HANDLER),
        iso: named_class(list, "iso"@),
        rar4: named_class(list, "rar"@),
        rar5: named_class(list, "rar5"@),
        nsis: named_class(list, "Nsis"@),
    }
}

/// [`classes_of`], executable.
pub fn class_ids(list: &HandlerList) -> (ids: ClassIds)
    ensures
        ids == classes_of(*list),
{
    let zip: Guid = match discover_handler_clsid(list, "zip") {
        Some(class) => class,
        None => ffi::handler_class_id(ZIP_HANDLER),
    };
    let lzh: Guid = match discover_handler_clsid(list, "lzh") {
        Some(class) => class,
        None => ffi::handler_class_id(LZH_HANDLER),
    };
    ClassIds {
        zip,
        lzh,
        iso: discover_handler_clsid(list, "iso"),
        rar4: discover_handler_clsid(list, "rar"),
        rar5: discover_handler_clsid(list, "rar5"),
        nsis: discover_handler_clsid(list, "Nsis"),
    }
}

// ---------------------------------------------------------------------------
// What a library can do
// ---------------------------------------------------------------------------

/// The outcome of asking the library for an object: the code, and whether an
/// object came with it.
#[derive(Debug, Clone, Copy, PartialEq, Eq, Structural)]
pub struct Probe {
    pub code: i32,
    pub live: bool,
}

impl Probe {
    /// Whether there is an object.
    pub open spec fn works(self) -> bool {
        self.code == S_OK && self.live
    }

    /// [`Probe::works`], executable.
    pub fn is_available(self) -> (yes: bool)
        ensures
            yes == self.works(),
    {
        self.code == S_OK && self.live
    }
}

/// The outcomes of asking for each reader, and for the ZIP writer.
#[derive(Debug, Clone, Copy, PartialEq, Eq, Structural)]
pub struct Probes {
    pub sevenzip: Probe,
    pub zip_reader: Probe,
    pub zip_writer: Probe,
    pub lzh: Probe,
    pub iso: Probe,
    pub rar4: Probe,
    pub rar5: Probe,
    pub nsis: Probe,
}

/// What a loaded library answers.
#[derive(Debug)]
pub struct LibraryExports {
    /// Whether the library can create objects.
    pub has_create_object: bool,
    pub handlers: HandlerList,
    /// The answers for the classes of [`class_ids`].
    pub probes: Probes,
}

/// The formats that a library reads and writes, by their classes.
#[derive(Debug, Clone, Copy)]
pub struct Api {
    pub zip: Guid,
    pub lzh: Option<Guid>,
    pub iso: Option<Guid>,
    pub rar4: Option<Guid>,
    pub rar5: Option<Guid>,
    pub nsis: Option<Guid>,
    pub zip_reader_available: bool,
    pub zip_writer_available: bool,
}

/// A class whose reader works.
pub open spec fn working(class: Option<Guid>, probe: Probe) -> Option<Guid> {
    if probe.works() {
        class
    } else {
        None
    }
}

/// [`working`], executable.
fn keep_working(class: Option<Guid>, probe: Probe) -> (kept: Option<Guid>)
    ensures
        kept == working(class, probe),
{
    if probe.is_available() {
        class
    } else {
        None
    }
}

/// The text of a truth value.
pub open spec fn bool_text(value: bool) -> Seq<char> {
    if value {
        "true"@
    } else {
        "false"@
    }
}

/// What a library can do, or why it cannot be used: it must create objects,
/// and read 7z archives.
pub open spec fn api_of(exports: LibraryExports) -> Result<Api, ErrorView> {
    let ids = classes_of(exports.handlers);
    let probes = exports.probes;
    if !exports.has_create_object {
        Err(ErrorView::MissingSymbol("CreateObject"@))
    } else if !probes.sevenzip.works() {
        Err(
            ErrorView::LibraryUnavailable(
                "the loaded 7z.dll does not expose the 7z format handler (CreateObject returned "@
                    + ffi::code_text(probes.sevenzip.code) + ", interface="@ + bool_text(
                    probes.sevenzip.live,
                ) + ")"@,
            ),
        )
    } else {
        Ok(
            Api {
                zip: ids.zip,
                lzh: working(Some(ids.lzh), probes.lzh),
                iso: working(ids.iso, probes.iso),
                rar4: working(ids.rar4, probes.rar4),
                rar5: working(ids.rar5, probes.rar5),
                nsis: working(ids.nsis, probes.nsis),
                zip_reader_available: probes.zip_reader.works(),
                zip_writer_available: probes.zip_writer.works(),
            },
        )
    }
}

impl Api {
    /// [`api_of`], executable.
    pub fn from_library(exports: &LibraryExports) -> (api: ArchiveResult<Api>)
        ensures
            file_ops::result_view(api) == api_of(*exports),
    {
        if !exports.has_create_object {
            return Err(ArchiveError::MissingSymbol("CreateObject".to_owned()));
        }
        let ids: ClassIds = class_ids(&exports.handlers);
        let probes: Probes = exports.probes;
        if !probes.sevenzip.is_available() {
            let mut message =
                "the loaded 7z.dll does not expose the 7z format handler (CreateObject returned ".to_owned();
            message.append(ffi::code_string(probes.sevenzip.code).as_str());
            message.append(", interface=");
            message.append(if probes.sevenzip.live { "true" } else { "false" });
            message.append(")");
            return Err(ArchiveError::LibraryUnavailable(message));
        }
        Ok(
            Api {
                zip: ids.zip,
                lzh: keep_working(Some(ids.lzh), probes.lzh),
                iso: keep_working(ids.iso, probes.iso),
                rar4: keep_working(ids.rar4, probes.rar4),
                rar5: keep_working(ids.rar5, probes.rar5),
                nsis: keep_working(ids.nsis, probes.nsis),
                zip_reader_available: probes.zip_reader.is_available(),
                zip_writer_available: probes.zip_writer.is_available(),
            },
        )
    }

    /// Whether archives of a format can be created.
    pub open spec fn creates(self, format: CreateFormat) -> bool {
        match format {
            CreateFormat::SevenZip => true,
            CreateFormat::Zip => self.zip_writer_available,
            _ => false,
        }
    }

    /// [`Api::creates`], executable.
    pub fn can_create(&self, format: CreateFormat) -> (yes: bool)
        ensures
            yes == self.creates(format),
    {
        match format {
            CreateFormat::SevenZip => true,
            CreateFormat::Zip => self.zip_writer_available,
            _ => false,
        }
    }

    /// Whether archives of a format can be read.
    pub open spec fn reads(self, format: ReadFormat) -> bool {
        match format.base_format() {
            ReadFormat::SevenZip => true,
            ReadFormat::Zip => self.zip_reader_available,
            ReadFormat::Lzh => self.lzh is Some,
            ReadFormat::Rar4 => self.rar4 is Some,
            ReadFormat::Rar5 => self.rar5 is Some,
            ReadFormat::Iso => self.iso is Some,
            ReadFormat::Nsis => self.nsis is Some,
            _ => false,
        }
    }

    /// [`Api::reads`], executable.
    pub fn can_read(&self, format: ReadFormat) -> (yes: bool)
        ensures
            yes == self.reads(format),
    {
        match format.base() {
            ReadFormat::SevenZip => true,
            ReadFormat::Zip => self.zip_reader_available,
            ReadFormat::Lzh => self.lzh.is_some(),
            ReadFormat::Rar4 => self.rar4.is_some(),
            ReadFormat::Rar5 => self.rar5.is_some(),
            ReadFormat::Iso => self.iso.is_some(),
            ReadFormat::Nsis => self.nsis.is_some(),
            _ => false,
        }
    }

    /// The class that reads a format, or the error for a reader that the
    /// library lacks.
    pub open spec fn reader(self, format: ReadFormat) -> Result<Guid, ErrorView> {
        match format.base_format() {
            ReadFormat::SevenZip => Ok(ffi::handler_clsid(SEVENZIP_HANDLER)),
            ReadFormat::Zip => Ok(self.zip),
            ReadFormat::Lzh => provided(
                self.lzh,
                "the loaded 7z.dll does not provide an LZH reader"@,
            ),
            ReadFormat::Rar4 => provided(
                self.rar4,
                "the loaded 7z.dll does not provide a RAR4 reader"@,
            ),
            ReadFormat::Rar5 => provided(
                self.rar5,
                "the loaded 7z.dll does not provide a RAR5 reader"@,
            ),
            ReadFormat::Iso => provided(
                self.iso,
                "the loaded 7z.dll does not provide an ISO reader"@,
            ),
            ReadFormat::Nsis => provided(
                self.nsis,
                "the loaded 7z.dll does not provide an NSIS reader"@,
            ),
            _ => Ok(self.zip),
        }
    }

    /// [`Api::reader`], executable.
    pub fn reader_class(&self, format: ReadFormat) -> (class: ArchiveResult<Guid>)
        ensures
            file_ops::result_view(class) == self.reader(format),
    {
        match format.base() {
            ReadFormat::SevenZip => Ok(ffi::handler_class_id(SEVENZIP_HANDLER)),
            ReadFormat::Zip => Ok(self.zip),
            ReadFormat::Lzh => require_class(
                self.lzh,
                "the loaded 7z.dll does not provide an LZH reader",
            ),
            ReadFormat::Rar4 => require_class(
                self.rar4,
                "the loaded 7z.dll does not provide a RAR4 reader",
            ),
            ReadFormat::Rar5 => require_class(
                self.rar5,
                "the loaded 7z.dll does not provide a RAR5 reader",
            ),
            ReadFormat::Iso => require_class(
                self.iso,
                "the loaded 7z.dll does not provide an ISO reader",
            ),
            ReadFormat::Nsis => require_class(
                self.nsis,
                "the loaded 7z.dll does not provide an NSIS reader",
            ),
            _ => Ok(self.zip),
        }
    }

    /// Checks that the library created a reader.
    pub fn create_in_archive(format: ReadFormat, created: Probe) -> (done: ArchiveResult<()>)
        ensures
            match done {
                Ok(_) => created.works(),
                Err(error) => !created.works() && error@ == listing::code_error(
                    "creating the "@ + format.base_format().label_text() + " reader"@,
                    created.code,
                ),
            },
    {
        if created.is_available() {
            return Ok(());
        }
        let operation = text::join3("creating the ", format.base().label(), " reader");
        Err(listing::failed_call(operation.as_str(), created.code))
    }

    /// The class that writes a format.
    pub open spec fn writer(self, format: CreateFormat) -> Result<Guid, ErrorView> {
        match format {
            CreateFormat::SevenZip => Ok(ffi::handler_clsid(SEVENZIP_HANDLER)),
            CreateFormat::Zip => Ok(self.zip),
            _ => Err(
                ErrorView::UnsupportedOption(
                    "7z.dll cannot create "@ + format.label_text() + " archives"@,
                ),
            ),
        }
    }

    /// [`Api::writer`], executable.
    pub fn writer_class(&self, format: CreateFormat) -> (class: ArchiveResult<Guid>)
        ensures
            file_ops::result_view(class) == self.writer(format),
    {
        match format {
            CreateFormat::SevenZip => Ok(ffi::handler_class_id(SEVENZIP_HANDLER)),
            CreateFormat::Zip => Ok(self.zip),
            _ => Err(
                ArchiveError::UnsupportedOption(
                    text::join3("7z.dll cannot create ", format.label(), " archives"),
                ),
            ),
        }
    }

    /// Checks that the library created a writer.
    pub fn create_out_archive(created: Probe) -> (done: ArchiveResult<()>)
        ensures
            match done {
                Ok(_) => created.works(),
                Err(error) => !created.works() && error@ == listing::code_error(
                    "creating the 7z writer"@,
                    created.code,
                ),
            },
    {
        if created.is_available() {
            Ok(())
        } else {
            Err(listing::failed_call("creating the 7z writer", created.code))
        }
    }
}

/// A class that must be there.
pub open spec fn provided(class: Option<Guid>, missing: Seq<char>) -> Result<Guid, ErrorView> {
    match class {
        Some(class) => Ok(class),
        None => Err(ErrorView::UnsupportedOption(missing)),
    }
}

/// [`provided`], executable.
fn require_class(class: Option<Guid>, missing: &str) -> (found: ArchiveResult<Guid>)
    ensures
        file_ops::result_view(found) == provided(class, missing@),
{
    match class {
        Some(class) => Ok(class),
        None => Err(ArchiveError::UnsupportedOption(missing.to_owned())),
    }
}

// ---------------------------------------------------------------------------
// Finding the library
// ---------------------------------------------------------------------------

/// A place where the library may be: `level` directories above that of the
/// program, in the runtime folder there or beside it.
#[derive(Debug, Clone, Copy, PartialEq, Eq, Structural)]
pub struct Candidate {
    pub level: usize,
    pub in_runtime: bool,
}

/// Whether a directory is one in which build tools put test programs.
pub open spec fn is_build_directory(name: Option<Seq<char>>) -> bool {
    name is Some && (text::lower(name->0) == text::lower("deps"@) || text::lower(name->0)
        == text::lower("examples"@))
}

/// The places to look, in order: beside the program; in its runtime folder;
/// in those of up to three directories above; and, for a program among build
/// outputs, one directory up. `levels` counts the program's directory and
/// those above it; `name` is the name of the program's directory.
pub open spec fn candidates(levels: int, name: Option<Seq<char>>) -> Seq<Candidate> {
    if levels <= 0 {
        Seq::empty()
    } else {
        seq![
            Candidate { level: 0, in_runtime: false },
            Candidate { level: 0, in_runtime: true },
        ] + Seq::new(
            (if levels > 4 {
                3
            } else {
                levels - 1
            }) as nat,
            |i: int| Candidate { level: (i + 1) as usize, in_runtime: true },
        ) + if is_build_directory(name) && levels > 1 {
            seq![Candidate { level: 1, in_runtime: false }]
        } else {
            Seq::empty()
        }
    }
}

/// [`candidates`], executable.
pub fn library_candidates(levels: usize, name: &Option<String>) -> (places: Vec<Candidate>)
    ensures
        places@ == candidates(levels as int, text::option_text(*name)),
{
    let mut places: Vec<Candidate> = Vec::new();
    if levels == 0 {
        return places;
    }
    places.push(Candidate { level: 0, in_runtime: false });
    places.push(Candidate { level: 0, in_runtime: true });
    let above: usize = if levels > 4 { 3 } else { levels - 1 };
    let mut level: usize = 1;
    while level <= above
        invariant
            1 <= level <= above + 1,
            above <= 3,
            places@ == seq![
                Candidate { level: 0, in_runtime: false },
                Candidate { level: 0, in_runtime: true },
            ] + Seq::new(
                (level - 1) as nat,
                |i: int| Candidate { level: (i + 1) as usize, in_runtime: true },
            ),
        decreases above + 1 - level,
    {
        places.push(Candidate { level, in_runtime: true });
        level += 1;
    }
    let in_build: bool = match name {
        Some(name) => text::same_ignoring_case(name.as_str(), "deps") || text::same_ignoring_case(
            name.as_str(),
            "examples",
        ),
        None => false,
    };
    if in_build && levels > 1 {
        places.push(Candidate { level: 1, in_runtime: false });
    }
    proof {
        assert(places@ =~= candidates(levels as int, text::option_text(*name)));
    }
    places
}

/// An attempt to load the library from a path.
#[derive(Debug)]
pub struct LoadAttempt {
    pub path: String,
    pub loaded: Result<LibraryExports, String>,
}

/// The search for the library. A configured path is the only one that is
/// tried.
#[derive(Debug)]
pub struct LibrarySearch {
    /// Whether the configured path is absolute, and what loading it gave.
    pub configured: Option<(bool, Result<LibraryExports, String>)>,
    /// The attempts at the candidates, in order.
    pub attempts: Vec<LoadAttempt>,
}

/// Whether an attempt found the library.
pub open spec fn is_usable(attempt: LoadAttempt) -> bool {
    attempt.loaded is Ok && attempt.loaded->Ok_0.has_create_object
}

/// Why an attempt did not find the library.
pub open spec fn failure_text(attempt: LoadAttempt) -> Seq<char> {
    attempt.path@ + match attempt.loaded {
        Ok(_) => ": missing CreateObject export"@,
        Err(message) => ": "@ + message@,
    }
}

/// Why the first `n` attempts failed.
pub open spec fn failure_texts(attempts: Seq<LoadAttempt>, n: int) -> Seq<char>
    decreases n,
{
    if n <= 0 {
        Seq::empty()
    } else if n == 1 {
        failure_text(attempts[0])
    } else {
        failure_texts(attempts, n - 1) + "; "@ + failure_text(attempts[n - 1])
    }
}

/// Whether attempt `i` is the first that found the library.
pub open spec fn is_first_usable(attempts: Seq<LoadAttempt>, i: int) -> bool {
    &&& 0 <= i < attempts.len()
    &&& is_usable(attempts[i])
    &&& forall|k: int| 0 <= k < i ==> !is_usable(#[trigger] attempts[k])
}

/// The error when no attempt found the library.
pub open spec fn not_found_error(attempts: Seq<LoadAttempt>) -> ErrorView {
    ErrorView::LibraryUnavailable(
        "could not load the bundled 7z.dll; searched: "@ + if attempts.len() == 0 {
            "(no candidates)"@
        } else {
            failure_texts(attempts, attempts.len() as int)
        },
    )
}

/// The first attempt that found the library.
pub fn load_7z_library(attempts: &Vec<LoadAttempt>) -> (found: ArchiveResult<usize>)
    ensures
        match found {
            Ok(i) => is_first_usable(attempts@, i as int),
            Err(error) => {
                &&& forall|k: int| 0 <= k < attempts@.len() ==> !is_usable(#[trigger] attempts@[k])
                &&& error@ == not_found_error(attempts@)
            },
        },
{
    let mut failures = String::new();
    let mut i: usize = 0;
    while i < attempts.len()
        invariant
            i <= attempts@.len(),
            failures@ == failure_texts(attempts@, i as int),
            forall|k: int| 0 <= k < i ==> !is_usable(#[trigger] attempts@[k]),
        decreases attempts@.len() - i,
    {
        let attempt = &attempts[i];
        let mut failure = attempt.path.clone();
        match &attempt.loaded {
            Ok(exports) => {
                if exports.has_create_object {
                    return Ok(i);
                }
                failure.append(": missing CreateObject export");
            },
            Err(message) => {
                failure.append(": ");
                failure.append(message.as_str());
            },
        }
        proof {
            assert(failure@ =~= failure_text(attempts@[i as int]));
        }
        if i == 0 {
            failures = failure;
        } else {
            failures.append("; ");
            failures.append(failure.as_str());
        }
        i += 1;
    }
    let searched: &str = if attempts.len() == 0 { "(no candidates)" } else { failures.as_str() };
    Err(
        ArchiveError::LibraryUnavailable(
            text::join("could not load the bundled 7z.dll; searched: ", searched),
        ),
    )
}

// ---------------------------------------------------------------------------
// The engine
// ---------------------------------------------------------------------------

/// The engine over a loaded library.
#[derive(Debug, Clone, Copy)]
pub struct SevenZipEngine {
    pub api: Api,
}

/// What a given library file is found to be.
#[derive(Debug)]
pub struct LibraryFile {
    pub is_absolute: bool,
    /// The path with all links resolved, or why it could not be.
    pub canonical: Result<String, String>,
    /// Whether it is a file, or why that could not be told.
    pub is_file: Result<bool, String>,
    /// What loading it gave.
    pub loaded: Result<LibraryExports, String>,
}

/// The outcome of loading exactly the file at `path`.
pub open spec fn exact_load(path: Seq<char>, file: LibraryFile) -> Result<Api, ErrorView> {
    if !file.is_absolute {
        Err(ErrorView::InvalidInput("7z.dll path must be absolute"@))
    } else {
        match file.canonical {
            Err(message) => Err(ErrorView::Io(path, message@)),
            Ok(canonical) => match file.is_file {
                Err(message) => Err(ErrorView::Io(canonical@, message@)),
                Ok(is_file) => if !is_file {
                    Err(ErrorView::InvalidInput("7z.dll path is not a file: "@ + canonical@))
                } else {
                    match file.loaded {
                        Err(message) => Err(ErrorView::LibraryUnavailable(message@)),
                        Ok(exports) => api_of(exports),
                    }
                },
            },
        }
    }
}

/// An engine's capabilities, or why there is no engine.
pub open spec fn engine_view(engine: ArchiveResult<SevenZipEngine>) -> Result<Api, ErrorView> {
    match engine {
        Ok(engine) => Ok(engine.api),
        Err(error) => Err(error@),
    }
}

/// Whether loading by a search gives `result`.
pub open spec fn searched_load(search: LibrarySearch, result: Result<Api, ErrorView>) -> bool {
    match search.configured {
        Some((is_absolute, loaded)) => result == if !is_absolute {
            Err::<Api, ErrorView>(
                ErrorView::LibraryUnavailable("ARCHIVERCLICK_7ZDLL must be an absolute path"@),
            )
        } else {
            match loaded {
                Err(message) => Err(ErrorView::LibraryUnavailable(message@)),
                Ok(exports) => api_of(exports),
            }
        },
        None => {
            ||| exists|i: int| #[trigger]
                is_first_usable(search.attempts@, i) && result == api_of(
                    search.attempts@[i].loaded->Ok_0,
                )
            ||| {
                &&& forall|k: int|
                    0 <= k < search.attempts@.len() ==> !is_usable(#[trigger] search.attempts@[k])
                &&& result == Err::<Api, ErrorView>(not_found_error(search.attempts@))
            }
        },
    }
}

impl SevenZipEngine {
    /// Loads the library that a search found.
    pub fn load(search: &LibrarySearch) -> (engine: ArchiveResult<SevenZipEngine>)
        ensures
            searched_load(*search, engine_view(engine)),
    {
        if let Some((is_absolute, loaded)) = &search.configured {
            if !*is_absolute {
                return Err(
                    ArchiveError::LibraryUnavailable(
                        "ARCHIVERCLICK_7ZDLL must be an absolute path".to_owned(),
                    ),
                );
            }
            return match loaded {
                Err(message) => Err(ArchiveError::LibraryUnavailable(message.clone())),
                Ok(exports) => SevenZipEngine::from_exports(exports),
            };
        }
        match load_7z_library(&search.attempts) {
            Err(error) => Err(error),
            Ok(i) => match &search.attempts[i].loaded {
                Ok(exports) => {
                    let engine = SevenZipEngine::from_exports(exports);
                    proof {
                        assert(is_first_usable(search.attempts@, i as int));
                    }
                    engine
                },
                Err(message) => Err(ArchiveError::LibraryUnavailable(message.clone())),
            },
        }
    }

    /// The engine over a library.
    fn from_exports(exports: &LibraryExports) -> (engine: ArchiveResult<SevenZipEngine>)
        ensures
            engine_view(engine) == api_of(*exports),
    {
        match Api::from_library(exports) {
            Ok(api) => Ok(SevenZipEngine { api }),
            Err(error) => Err(error),
        }
    }

    /// Loads exactly the library at `path`, which must be absolute.
    pub fn load_from_path(path: &str, file: &LibraryFile) -> (engine: ArchiveResult<SevenZipEngine>)
        ensures
            engine_view(engine) == exact_load(path@, *file),
    {
        if !file.is_absolute {
            return Err(ArchiveError::InvalidInput("7z.dll path must be absolute".to_owned()));
        }
        match &file.canonical {
            Err(message) => Err(ArchiveError::io(path, message.as_str())),
            Ok(canonical) => match &file.is_file {
                Err(message) => Err(ArchiveError::io(canonical.as_str(), message.as_str())),
                Ok(is_file) => {
                    if !*is_file {
                        return Err(
                            ArchiveError::InvalidInput(
                                text::join("7z.dll path is not a file: ", canonical.as_str()),
                            ),
                        );
                    }
                    match &file.loaded {
                        Err(message) => Err(ArchiveError::LibraryUnavailable(message.clone())),
                        Ok(exports) => SevenZipEngine::from_exports(exports),
                    }
                },
            },
        }
    }

    /// Whether archives of a format can be created.
    pub fn can_create(&self, format: CreateFormat) -> (yes: bool)
        ensures
            yes == self.api.creates(format),
    {
        self.api.can_create(format)
    }

    /// Whether archives of a format that can be created can be read.
    pub fn can_read(&self, format: CreateFormat) -> (yes: bool)
        ensures
            yes == match format {
                CreateFormat::SevenZip => true,
                CreateFormat::Zip => self.api.zip_reader_available,
                _ => false,
            },
    {
        match format {
            CreateFormat::SevenZip => self.can_read_format(ReadFormat::SevenZip),
            CreateFormat::Zip => self.can_read_format(ReadFormat::Zip),
            _ => false,
        }
    }

    /// Whether archives of a format can be read.
    pub fn can_read_format(&self, format: ReadFormat) -> (yes: bool)
        ensures
            yes == self.api.reads(format),
    {
        self.api.can_read(format)
    }

    /// The name of the engine.
    pub fn version(&self) -> (version: String)
        ensures
            version@ == "7-Zip (7z.dll)"@,
    {
        "7-Zip (7z.dll)".to_owned()
    }

    /// The formats that can be created, the preferred one first.
    pub fn writable_formats(&self) -> (formats: Vec<CreateFormat>)
        ensures
            formats@ == if self.api.zip_writer_available {
                seq![CreateFormat::Zip, CreateFormat::SevenZip]
            } else {
                seq![CreateFormat::SevenZip]
            },
    {
        let mut formats: Vec<CreateFormat> = Vec::new();
        if self.api.can_create(CreateFormat::Zip) {
            formats.push(CreateFormat::Zip);
        }
        formats.push(CreateFormat::SevenZip);
        proof {
            if self.api.zip_writer_available {
                assert(formats@ =~= seq![CreateFormat::Zip, CreateFormat::SevenZip]);
            } else {
                assert(formats@ =~= seq![CreateFormat::SevenZip]);
            }
        }
        formats
    }
}

/// Every format that an engine says it writes, it can create.
pub proof fn law_writable_formats_can_be_created(engine: SevenZipEngine, format: CreateFormat)
    ensures
        engine.api.creates(format) == (if engine.api.zip_writer_available {
            seq![CreateFormat::Zip, CreateFormat::SevenZip]
        } else {
            seq![CreateFormat::SevenZip]
        }).contains(format),
{
    let all = seq![CreateFormat::Zip, CreateFormat::SevenZip];
    let one = seq![CreateFormat::SevenZip];
    assert(all[0] == CreateFormat::Zip && all[1] == CreateFormat::SevenZip);
    assert(one[0] == CreateFormat::SevenZip);
}

// ---------------------------------------------------------------------------
// Opening an archive
// ---------------------------------------------------------------------------

/// The format of an archive that is to be read.
pub fn require_format(format: Option<ReadFormat>) -> (found: ArchiveResult<ReadFormat>)
    ensures
        match found {
            Ok(found) => format == Some(found),
            Err(error) => format is None && error@ == ErrorView::UnsupportedOption(
                "7z.dll could not identify the archive format"@,
            ),
        },
{
    match format {
        Some(format) => Ok(format),
        None => Err(
            ArchiveError::UnsupportedOption(
                "7z.dll could not identify the archive format".to_owned(),
            ),
        ),
    }
}

/// How an archive's bytes are read.
#[derive(Debug, Clone, Copy, PartialEq, Eq, Structural)]
pub enum InputStream {
    Single,
    Multi,
}

/// How an archive is read: a split one whose volumes were found is read as
/// one stream. `volumes` is the number of volumes, where they were found.
pub fn choose_input(format: ReadFormat, volumes: Option<usize>, path: &str) -> (input:
    ArchiveResult<InputStream>)
    ensures
        match input {
            Ok(input) => {
                &&& format.base_format() != format ==> volumes is Some
                &&& input == if format.base_format() != format && volumes->0 > 1 {
                    InputStream::Multi
                } else {
                    InputStream::Single
                }
            },
            Err(error) => {
                &&& format.base_format() != format && volumes is None
                &&& error@ == ErrorView::InvalidInput(
                    "split archive volume is missing its .001 file: "@ + path@,
                )
            },
        },
{
    if !format.is_volume() {
        return Ok(InputStream::Single);
    }
    match volumes {
        None => Err(
            ArchiveError::InvalidInput(
                text::join("split archive volume is missing its .001 file: ", path),
            ),
        ),
        Some(volumes) => {
            if volumes > 1 {
                Ok(InputStream::Multi)
            } else {
                Ok(InputStream::Single)
            }
        },
    }
}

/// Why the handler did not open the archive at `path`. One that asked for a
/// password needs one. `E_ABORT` is what this side's callbacks answer to stop
/// the handler; any other code says that the file is no archive of its format.
pub open spec fn open_error(
    path: Seq<char>,
    format: ReadFormat,
    code: i32,
    password_requested: bool,
) -> ErrorView {
    if password_requested {
        ErrorView::PasswordRequired
    } else if code == E_ABORT {
        listing::code_error("opening "@ + format.label_text() + " archive"@, code)
    } else {
        ErrorView::InvalidArchive(path)
    }
}

/// Whether the handler opened an archive.
pub fn open_outcome(path: &str, format: ReadFormat, code: i32, password_requested: bool) -> (opened:
    ArchiveResult<()>)
    ensures
        match opened {
            Ok(_) => code == S_OK,
            Err(error) => code != S_OK && error@ == open_error(
                path@,
                format,
                code,
                password_requested,
            ),
        },
{
    if code == S_OK {
        return Ok(());
    }
    if password_requested {
        return Err(ArchiveError::PasswordRequired);
    }
    if code == E_ABORT {
        let operation = text::join3("opening ", format.label(), " archive");
        return Err(listing::failed_call(operation.as_str(), code));
    }
    Err(ArchiveError::InvalidArchive(path.to_owned()))
}

/// Whether a destination can be extracted to.
pub fn check_destination(is_dir: bool, is_reparse: bool, root: &str) -> (checked: ArchiveResult<
    (),
>)
    ensures
        match checked {
            Ok(_) => is_dir && !is_reparse,
            Err(error) => error@ == if !is_dir {
                ErrorView::InvalidInput("extraction destination is not a directory"@)
            } else {
                ErrorView::ReparsePoint(root@)
            } && (!is_dir || is_reparse),
        },
{
    if !is_dir {
        return Err(
            ArchiveError::InvalidInput("extraction destination is not a directory".to_owned()),
        );
    }
    if is_reparse {
        return Err(ArchiveError::ReparsePoint(root.to_owned()));
    }
    Ok(())
}

/// A format can be read exactly when the library has a reader for it, and it
/// is read with that reader; the volumes of a split archive are read with the
/// reader of the archive.
pub proof fn law_readers_of_formats(api: Api, format: ReadFormat)
    ensures
        format == ReadFormat::SevenZip || format == ReadFormat::SevenZipVolume ==> api.reads(format)
            && api.reader(format) == Ok::<Guid, ErrorView>(ffi::handler_clsid(7)),
        format == ReadFormat::Zip || format == ReadFormat::ZipVolume ==> api.reads(format)
            == api.zip_reader_available && api.reader(format) == Ok::<Guid, ErrorView>(api.zip),
        format != ReadFormat::Zip && format != ReadFormat::ZipVolume ==> api.reads(format) == (
        api.reader(format) is Ok),
        format == ReadFormat::Lzh && api.lzh is Some ==> api.reader(format) == Ok::<
            Guid,
            ErrorView,
        >(api.lzh->0),
        format == ReadFormat::Rar4 && api.rar4 is Some ==> api.reader(format) == Ok::<
            Guid,
            ErrorView,
        >(api.rar4->0),
        format == ReadFormat::Rar5 && api.rar5 is Some ==> api.reader(format) == Ok::<
            Guid,
            ErrorView,
        >(api.rar5->0),
        format == ReadFormat::Iso && api.iso is Some ==> api.reader(format) == Ok::<
            Guid,
            ErrorView,
        >(api.iso->0),
        format == ReadFormat::Nsis && api.nsis is Some ==> api.reader(format) == Ok::<
            Guid,
            ErrorView,
        >(api.nsis->0),
        format == ReadFormat::Lzh ==> api.reads(format) == (api.lzh is Some),
        format == ReadFormat::Rar4 ==> api.reads(format) == (api.rar4 is Some),
        format == ReadFormat::Rar5 ==> api.reads(format) == (api.rar5 is Some),
        format == ReadFormat::Iso ==> api.reads(format) == (api.iso is Some),
        format == ReadFormat::Nsis ==> api.reads(format) == (api.nsis is Some),
{
}

/// What can be created is created with the writer of that format.
pub proof fn law_writers_of_formats(api: Api, format: CreateFormat)
    ensures
        api.creates(format) ==> api.writer(format) is Ok,
        format == CreateFormat::SevenZip ==> api.creates(format) && api.writer(format) == Ok::<
            Guid,
            ErrorView,
        >(ffi::handler_clsid(7)),
        format == CreateFormat::Zip ==> api.creates(format) == api.zip_writer_available
            && api.writer(format) == Ok::<Guid, ErrorView>(api.zip),
        format != CreateFormat::SevenZip && format != CreateFormat::Zip ==> !api.creates(format)
            && api.writer(format) is Err,
{
}

/// A handler is found under its name, in any case: the first one that has the
/// name and a class, and none where the library cannot be asked.
pub proof fn law_handlers_are_found_by_name(list: HandlerList, name: Seq<char>, i: int)
    ensures
        !list.exported || list.code != 0 || list.count > 1024 ==> named_class(list, name) is None,
        list.exported && list.code == 0 && list.count <= 1024 && 0 <= i < list.handlers@.len()
            && has_name(list.handlers@[i], name) && class_of(list.handlers@[i]) is Some && (forall|
            k: int,
        |
            0 <= k < i ==> !has_name(#[trigger] list.handlers@[k], name)) ==> named_class(
            list,
            name,
        ) == class_of(list.handlers@[i]),
        (forall|k: int|
            0 <= k < list.handlers@.len() ==> !has_name(#[trigger] list.handlers@[k], name))
            ==> named_class(list, name) is None,
{
    if 0 <= i < list.handlers@.len() && has_name(list.handlers@[i], name) && class_of(
        list.handlers@[i],
    ) is Some && (forall|k: int| 0 <= k < i ==> !has_name(#[trigger] list.handlers@[k], name)) {
        lemma_first_class(list.handlers@, name, 0, i);
    }
    if forall|k: int|
        0 <= k < list.handlers@.len() ==> !has_name(#[trigger] list.handlers@[k], name) {
        lemma_first_class(list.handlers@, name, 0, list.handlers@.len() as int);
    }
}

/// Handlers with other names are passed over.
proof fn lemma_first_class(handlers: Seq<HandlerProperties>, name: Seq<char>, from: int, i: int)
    requires
        0 <= from <= i <= handlers.len(),
        forall|k: int| from <= k < i ==> !has_name(#[trigger] handlers[k], name),
    ensures
        first_class(handlers, name, from) == first_class(handlers, name, i),
    decreases i - from,
{
    if from < i {
        lemma_first_class(handlers, name, from + 1, i);
    }
}

/// A library is usable when it can create objects and has the 7z handler. It
/// then has every other reader that it names and that works, under its own
/// name; the handlers of ZIP and LZH have well-known classes where they are
/// not named.
pub proof fn law_what_a_library_can_do(exports: LibraryExports)
    ensures
        api_of(exports) is Ok <==> exports.has_create_object && exports.probes.sevenzip.code == 0
            && exports.probes.sevenzip.live,
        !exports.has_create_object ==> api_of(exports) == Err::<Api, ErrorView>(
            ErrorView::MissingSymbol("CreateObject"@),
        ),
        api_of(exports) is Ok ==> {
            let api = api_of(exports)->Ok_0;
            let p = exports.probes;
            &&& api.zip_reader_available == (p.zip_reader.code == 0 && p.zip_reader.live)
            &&& api.zip_writer_available == (p.zip_writer.code == 0 && p.zip_writer.live)
            &&& p.rar4.code == 0 && p.rar4.live ==> api.rar4 == named_class(
                exports.handlers,
                "rar"@,
            )
            &&& p.rar5.code == 0 && p.rar5.live ==> api.rar5 == named_class(
                exports.handlers,
                "rar5"@,
            )
            &&& p.iso.code == 0 && p.iso.live ==> api.iso == named_class(exports.handlers, "iso"@)
            &&& p.nsis.code == 0 && p.nsis.live ==> api.nsis == named_class(
                exports.handlers,
                "Nsis"@,
            )
            &&& p.lzh.code == 0 && p.lzh.live ==> api.lzh is Some
            &&& p.rar4.code != 0 || !p.rar4.live ==> api.rar4 is None
            &&& p.rar5.code != 0 || !p.rar5.live ==> api.rar5 is None
            &&& p.iso.code != 0 || !p.iso.live ==> api.iso is None
            &&& p.nsis.code != 0 || !p.nsis.live ==> api.nsis is None
            &&& p.lzh.code != 0 || !p.lzh.live ==> api.lzh is None
            &&& named_class(exports.handlers, "zip"@) is Some ==> api.zip == named_class(
                exports.handlers,
                "zip"@,
            )->0
            &&& named_class(exports.handlers, "zip"@) is None ==> api.zip == ffi::handler_clsid(1)
            &&& named_class(exports.handlers, "lzh"@) is None && api.lzh is Some ==> api.lzh->0
                == ffi::handler_clsid(6)
            &&& named_class(exports.handlers, "lzh"@) is Some && api.lzh is Some ==> api.lzh
                == named_class(exports.handlers, "lzh"@)
        },
{
}

/// The library is looked for beside the program first, then in `runtime`
/// directories from there up, at most three levels.
pub proof fn law_places_of_the_library(levels: int, name: Option<Seq<char>>)
    requires
        levels >= 1,
    ensures
        candidates(levels, name).len() >= 2,
        candidates(levels, name)[0] == (Candidate { level: 0, in_runtime: false }),
        candidates(levels, name)[1] == (Candidate { level: 0, in_runtime: true }),
        forall|i: int|
            0 <= i < candidates(levels, name).len() ==> (#[trigger] candidates(
                levels,
                name,
            )[i]).level <= 3,
        levels >= 2 ==> candidates(levels, name)[2] == (Candidate { level: 1, in_runtime: true }),
        levels >= 4 ==> candidates(levels, name)[3] == (Candidate { level: 2, in_runtime: true })
            && candidates(levels, name)[4] == (Candidate { level: 3, in_runtime: true }),
        levels >= 2 && name is Some && (text::lower(name->0) == "deps"@ || text::lower(name->0)
            == "examples"@) ==> candidates(levels, name).last() == (Candidate {
            level: 1,
            in_runtime: false,
        }),
{
    reveal_strlit("deps");
    reveal_strlit("examples");
    assert(text::lower("deps"@) =~= "deps"@);
    assert(text::lower("examples"@) =~= "examples"@);
}

/// An archive that cannot be opened because it is encrypted asks for the
/// password; one that the user stopped tells the code; any other is none.
pub proof fn law_failures_to_open(path: Seq<char>, format: ReadFormat, code: i32)
    ensures
        open_error(path, format, code, true) == ErrorView::PasswordRequired,
        code != E_ABORT ==> open_error(path, format, code, false) == ErrorView::InvalidArchive(
            path,
        ),
        code == E_ABORT ==> open_error(path, format, code, false) is SevenZip,
{
}

/// A library is used when it could be loaded and makes objects; the first such
/// one is taken.
pub proof fn law_first_library_that_works_is_taken(attempts: Seq<LoadAttempt>, i: int, j: int)
    ensures
        0 <= i < attempts.len() && attempts[i].loaded is Err ==> !is_first_usable(attempts, i),
        0 <= i < attempts.len() && attempts[i].loaded is Ok
            && !attempts[i].loaded->Ok_0.has_create_object ==> !is_first_usable(attempts, i),
        attempts.len() > 0 && attempts[0].loaded is Ok && attempts[0].loaded->Ok_0.has_create_object
            ==> is_first_usable(attempts, 0),
        is_first_usable(attempts, i) && is_first_usable(attempts, j) ==> i == j,
{
}

} // verus!
