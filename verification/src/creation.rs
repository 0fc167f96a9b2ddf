//! Deciding how an archive is created, and what the creation comes to.

use vstd::prelude::*;
use vstd::string::*;
use crate::error::{ArchiveError, ArchiveResult, ErrorView};
use crate::extracting;
use crate::ffi;
use crate::ffi::{PropVariant, PropView, S_OK};
use crate::listing;
use crate::options::{CreateFormat, CreateOptions, OperationSummary, SummaryView};
use crate::progress;
use crate::progress::{ProgressPhase, ProgressSnapshot};
use crate::source;
use crate::source::{SourceItem, SourceKind, SourceView};
use crate::text;

verus! {

// ---------------------------------------------------------------------------
// The request
// ---------------------------------------------------------------------------

/// Why a request to create an archive from `inputs` inputs is refused.
pub open spec fn request_error(inputs: int, options: CreateOptions) -> Option<ErrorView> {
    if inputs == 0 {
        Some(ErrorView::InvalidInput("select at least one input"@))
    } else if options.format != CreateFormat::SevenZip && options.format != CreateFormat::Zip {
        Some(
            ErrorView::UnsupportedOption(
                "the 7z backend only writes ZIP and 7z archives, not "@
                    + options.format.variant_text(),
            ),
        )
    } else if options.split_size == Some(0u64) {
        Some(ErrorView::InvalidInput("split volume size must be greater than zero"@))
    } else if options.encrypt_headers && options.format != CreateFormat::SevenZip {
        Some(
            ErrorView::UnsupportedOption("header encryption is supported only for 7z archives"@),
        )
    } else if options.encrypt_headers && !options.has_password() {
        Some(ErrorView::InvalidInput("header encryption requires a non-empty password"@))
    } else {
        None
    }
}

/// Checks a request to create an archive: [`request_error`], executable.
pub fn check_request(inputs: usize, options: &CreateOptions) -> (checked: ArchiveResult<()>)
    ensures
        match checked {
            Ok(_) => request_error(inputs as int, *options) is None,
            Err(error) => request_error(inputs as int, *options) == Some(error@),
        },
{
    if inputs == 0 {
        return Err(ArchiveError::InvalidInput("select at least one input".to_owned()));
    }
    if options.format != CreateFormat::SevenZip && options.format != CreateFormat::Zip {
        return Err(
            ArchiveError::UnsupportedOption(
                text::join(
                    "the 7z backend only writes ZIP and 7z archives, not ",
                    options.format.variant_name(),
                ),
            ),
        );
    }
    if let Some(size) = options.split_size {
        if size == 0 {
            return Err(
                ArchiveError::InvalidInput(
                    "split volume size must be greater than zero".to_owned(),
                ),
            );
        }
    }
    if options.encrypt_headers && options.format != CreateFormat::SevenZip {
        return Err(
            ArchiveError::UnsupportedOption(
                "header encryption is supported only for 7z archives".to_owned(),
            ),
        );
    }
    if options.encrypt_headers && !options.has_usable_password() {
        return Err(
            ArchiveError::InvalidInput(
                "header encryption requires a non-empty password".to_owned(),
            ),
        );
    }
    Ok(())
}

/// Exactly these requests are taken: at least one input, a ZIP or 7z archive,
/// volumes that hold something, and encrypted headers only for a 7z archive
/// with a password that is not empty. What is wrong is told by the error.
pub proof fn law_requests_that_are_taken(inputs: int, options: CreateOptions)
    requires
        inputs >= 0,
    ensures
        request_error(inputs, options) is None <==> {
            &&& inputs > 0
            &&& options.format == CreateFormat::SevenZip || options.format == CreateFormat::Zip
            &&& options.split_size is None || options.split_size->0 > 0
            &&& !options.encrypt_headers || (options.format == CreateFormat::SevenZip
                && options.password is Some && options.password->0@.len() > 0)
        },
        inputs == 0 ==> request_error(inputs, options) == Some(
            ErrorView::InvalidInput("select at least one input"@),
        ),
        inputs > 0 && options.format == CreateFormat::Zip && options.encrypt_headers
            && options.split_size is None ==> request_error(inputs, options) == Some(
            ErrorView::UnsupportedOption("header encryption is supported only for 7z archives"@),
        ),
        inputs > 0 && options.format == CreateFormat::SevenZip && options.encrypt_headers
            && options.password is None && options.split_size is None ==> request_error(
            inputs,
            options,
        ) == Some(ErrorView::InvalidInput("header encryption requires a non-empty password"@)),
        inputs > 0 && options.format != CreateFormat::SevenZip && options.format
            != CreateFormat::Zip ==> request_error(inputs, options) is Some && request_error(
            inputs,
            options,
        )->0 is UnsupportedOption,
        inputs > 0 && options.format == CreateFormat::SevenZip && options.split_size == Some(0u64)
            ==> request_error(inputs, options) == Some(
            ErrorView::InvalidInput("split volume size must be greater than zero"@),
        ),
{
}

/// The directory of a destination; one without is refused.
pub fn destination_parent(parent: Option<String>) -> (found: ArchiveResult<String>)
    ensures
        match found {
            Ok(found) => parent == Some(found) && found@.len() > 0,
            Err(error) => {
                &&& parent is None || parent->0@.len() == 0
                &&& error@ == ErrorView::InvalidInput("destination has no parent directory"@)
            },
        },
{
    if let Some(parent) = parent {
        if !parent.as_str().is_empty() {
            return Ok(parent);
        }
    }
    Err(ArchiveError::InvalidInput("destination has no parent directory".to_owned()))
}

/// The file name of a destination; one without is refused.
pub fn destination_name(name: Option<String>) -> (found: ArchiveResult<String>)
    ensures
        match found {
            Ok(found) => name == Some(found),
            Err(error) => name is None && error@ == ErrorView::InvalidInput(
                "destination has no file name"@,
            ),
        },
{
    match name {
        Some(name) => Ok(name),
        None => Err(ArchiveError::InvalidInput("destination has no file name".to_owned())),
    }
}

// ---------------------------------------------------------------------------
// The items
// ---------------------------------------------------------------------------

/// The items among the first `n` that are written in a format: ZIP archives
/// get no records for directories, whose paths follow from those of files.
pub open spec fn written_items(items: Seq<SourceView>, format: CreateFormat, n: int) -> Seq<
    SourceView,
>
    decreases n,
{
    if n <= 0 {
        Seq::empty()
    } else if format == CreateFormat::Zip && items[n - 1].kind == SourceKind::Directory {
        written_items(items, format, n - 1)
    } else {
        written_items(items, format, n - 1).push(items[n - 1])
    }
}

/// How many of the first `n` items are files.
pub open spec fn file_count(items: Seq<SourceView>, n: int) -> nat
    decreases n,
{
    if n <= 0 {
        0
    } else {
        file_count(items, n - 1) + if items[n - 1].kind == SourceKind::File {
            1nat
        } else {
            0nat
        }
    }
}

/// What goes into an archive.
#[derive(Debug)]
pub struct CreateItems {
    pub items: Vec<SourceItem>,
    /// How many of the items are files.
    pub files: u64,
    /// How many items there are.
    pub count: u32,
}

/// Leaving directories out does not change how many files there are.
proof fn lemma_files_stay(items: Seq<SourceView>, format: CreateFormat, n: int)
    requires
        0 <= n <= items.len(),
    ensures
        file_count(
            written_items(items, format, n),
            written_items(items, format, n).len() as int,
        ) == file_count(items, n),
    decreases n,
{
    if n > 0 {
        lemma_files_stay(items, format, n - 1);
        let before = written_items(items, format, n - 1);
        let now = written_items(items, format, n);
        if now.len() > before.len() {
            lemma_file_count_prefix(now, before, before.len() as int);
        }
    }
}

/// Only the items before `n` count up to `n`.
proof fn lemma_file_count_prefix(a: Seq<SourceView>, b: Seq<SourceView>, n: int)
    requires
        0 <= n <= a.len(),
        n <= b.len(),
        forall|k: int| 0 <= k < n ==> a[k] == b[k],
    ensures
        file_count(a, n) == file_count(b, n),
    decreases n,
{
    if n > 0 {
        lemma_file_count_prefix(a, b, n - 1);
    }
}

/// The items that are written, counted.
pub fn create_items(items: &Vec<SourceItem>, format: CreateFormat) -> (chosen: ArchiveResult<
    CreateItems,
>)
    ensures
        ({
            let written = written_items(
                source::source_views(items@),
                format,
                items@.len() as int,
            );
            match chosen {
                Ok(chosen) => {
                    &&& source::source_views(chosen.items@) == written
                    &&& chosen.files == file_count(written, written.len() as int)
                    &&& chosen.count == written.len()
                },
                Err(error) => written.len() > u32::MAX && error@ == ErrorView::LimitExceeded(
                    "too many entries"@,
                ),
            }
        }),
{
    let ghost views = source::source_views(items@);
    let mut chosen: Vec<SourceItem> = Vec::new();
    let mut files: u64 = 0;
    let size: usize = items.len();
    let mut i: usize = 0;
    proof {
        assert(source::source_views(chosen@) =~= Seq::<SourceView>::empty());
    }
    while i < size
        invariant
            i <= size,
            size == items@.len(),
            views == source::source_views(items@),
            files <= i,
            files == file_count(views, i as int),
            source::source_views(chosen@) == written_items(views, format, i as int),
        decreases size - i,
    {
        proof {
            assert(views[i as int] == items@[i as int]@);
        }
        let is_file: bool = items[i].kind == SourceKind::File;
        if is_file {
            files += 1;
        }
        if is_file || format != CreateFormat::Zip {
            let item = items[i].copy();
            let ghost before = source::source_views(chosen@);
            let ghost view = item@;
            chosen.push(item);
            proof {
                assert(source::source_views(chosen@) =~= before.push(view));
            }
        }
        i += 1;
    }
    proof {
        lemma_files_stay(views, format, size as int);
        assert(source::source_views(chosen@).len() == chosen@.len());
    }
    if chosen.len() as u64 > u32::MAX as u64 {
        return Err(ArchiveError::LimitExceeded("too many entries".to_owned()));
    }
    let count: u32 = chosen.len() as u32;
    Ok(CreateItems { items: chosen, files, count })
}

/// Nothing is lost on the way into an archive. Every file is written, in any
/// format; a 7z archive gets its directories too, and a ZIP archive gets none.
/// What is written is what was found, in the same order.
pub proof fn law_every_file_is_written(items: Seq<SourceView>, format: CreateFormat, n: int)
    requires
        0 <= n <= items.len(),
    ensures
        format != CreateFormat::Zip ==> written_items(items, format, n) == items.take(n),
        (forall|i: int| 0 <= i < n ==> (#[trigger] items[i]).kind == SourceKind::File)
            ==> written_items(items, format, n) == items.take(n),
        forall|i: int|
            0 <= i < n && (#[trigger] items[i]).kind == SourceKind::File ==> written_items(
                items,
                format,
                n,
            ).contains(items[i]),
        forall|k: int|
            0 <= k < written_items(items, format, n).len() ==> items.contains(
                #[trigger] written_items(items, format, n)[k],
            ),
        format == CreateFormat::Zip ==> forall|k: int|
            0 <= k < written_items(items, format, n).len() ==> (#[trigger] written_items(
                items,
                format,
                n,
            )[k]).kind == SourceKind::File,
        format == CreateFormat::Zip ==> written_items(items, format, n).len() == file_count(
            items,
            n,
        ),
    decreases n,
{
    let now = written_items(items, format, n);
    if n > 0 {
        law_every_file_is_written(items, format, n - 1);
        let before = written_items(items, format, n - 1);
        let last = items[n - 1];
        assert(items.take(n) =~= items.take(n - 1).push(last));
        assert forall|i: int| 0 <= i < n && (#[trigger] items[i]).kind
            == SourceKind::File implies now.contains(items[i]) by {
            if i < n - 1 {
                let k = choose|k: int| 0 <= k < before.len() && before[k] == items[i];
                assert(now[k] == before[k]);
            } else {
                assert(now[now.len() - 1] == last);
            }
        }
        assert forall|k: int| 0 <= k < now.len() implies items.contains(#[trigger] now[k]) by {
            if k < before.len() {
                assert(now[k] == before[k]);
            } else {
                assert(items[n - 1] == now[k]);
            }
        }
        if format == CreateFormat::Zip {
            assert forall|k: int| 0 <= k < now.len() implies (#[trigger] now[k]).kind
                == SourceKind::File by {
                if k < before.len() {
                    assert(now[k] == before[k]);
                }
            }
        }
        if forall|i: int| 0 <= i < n ==> (#[trigger] items[i]).kind == SourceKind::File {
            assert(last.kind == SourceKind::File);
        }
    } else {
        assert(items.take(0) =~= Seq::<SourceView>::empty());
    }
}

// ---------------------------------------------------------------------------
// Properties of the handler
// ---------------------------------------------------------------------------

/// One property that is set on the handler.
#[derive(Debug)]
pub struct NamedProperty {
    pub name: String,
    pub value: PropVariant,
}

/// Properties over sequences.
pub open spec fn property_views(properties: Seq<NamedProperty>) -> Seq<(Seq<char>, PropView)> {
    Seq::new(properties.len(), |i: int| (properties[i].name@, properties[i].value@))
}

/// A text property.
pub open spec fn text_property(name: Seq<char>, value: Seq<char>) -> (Seq<char>, PropView) {
    (name, PropView::Bstr(text::utf16(value)))
}

/// The properties of a creation, in the order in which they are set: the
/// level; the method and the encryption of headers for 7z; UTF-8 names for
/// ZIP; the number of threads; the cipher of a ZIP archive with a password.
pub open spec fn creation_properties(options: CreateOptions, cpus: u32) -> Seq<
    (Seq<char>, PropView),
> {
    seq![("x"@, PropView::U32(options.compression_level as u32))]
        + if options.format == CreateFormat::SevenZip {
        seq![
            text_property(
                "m"@,
                if options.compression_level == 0 {
                    "Copy"@
                } else {
                    "LZMA2"@
                },
            ),
        ] + if options.encrypt_headers {
            seq![text_property("he"@, "on"@)]
        } else {
            Seq::empty()
        }
    } else {
        Seq::empty()
    } + if options.format == CreateFormat::Zip {
        seq![("cu"@, PropView::Bool(true))]
    } else {
        Seq::empty()
    } + seq![("mt"@, PropView::U32(options.threads.threads(cpus)))]
        + if options.format == CreateFormat::Zip && options.password is Some {
        seq![text_property("em"@, "AES256"@)]
    } else {
        Seq::empty()
    }
}

/// Adds a property.
fn add_property(properties: &mut Vec<NamedProperty>, name: &str, value: PropVariant)
    ensures
        property_views(final(properties)@) == property_views(old(properties)@).push(
            (name@, value@),
        ),
{
    let ghost before = property_views(properties@);
    let ghost added = (name@, value@);
    properties.push(NamedProperty { name: name.to_owned(), value });
    proof {
        assert(property_views(properties@) =~= before.push(added));
    }
}

/// The properties that a creation sets on the handler, on a machine with
/// `cpus` processors. Levels above nine are refused.
pub fn apply_create_properties(options: &CreateOptions, cpus: u32) -> (properties: ArchiveResult<
    Vec<NamedProperty>,
>)
    ensures
        match properties {
            Ok(properties) => options.compression_level <= 9 && property_views(properties@)
                == creation_properties(*options, cpus),
            Err(error) => options.compression_level > 9 && error@ == ErrorView::UnsupportedOption(
                "compression level "@ + text::decimal(options.compression_level as nat)
                    + " is outside 0..=9"@,
            ),
        },
{
    if options.compression_level > 9 {
        return Err(
            ArchiveError::UnsupportedOption(
                text::join3(
                    "compression level ",
                    text::decimal_text(options.compression_level as u64).as_str(),
                    " is outside 0..=9",
                ),
            ),
        );
    }
    let mut properties: Vec<NamedProperty> = Vec::new();
    add_property(&mut properties, "x", PropVariant::u32_value(options.compression_level as u32));
    if options.format == CreateFormat::SevenZip {
        let method: &str = if options.compression_level == 0 { "Copy" } else { "LZMA2" };
        add_property(&mut properties, "m", PropVariant::bstr(method));
        if options.encrypt_headers {
            add_property(&mut properties, "he", PropVariant::bstr("on"));
        }
    }
    if options.format == CreateFormat::Zip {
        add_property(&mut properties, "cu", PropVariant::bool_value(true));
    }
    if let Some(threads) = options.threads.sevenzip_threads(cpus) {
        add_property(&mut properties, "mt", PropVariant::u32_value(threads));
    }
    if options.format == CreateFormat::Zip && options.password.is_some() {
        add_property(&mut properties, "em", PropVariant::bstr("AES256"));
    }
    proof {
        assert(property_views(properties@) =~= creation_properties(*options, cpus));
    }
    Ok(properties)
}

/// The properties of a creation, one by one. `x` is the level. `m` is set for
/// 7z only: `Copy` at level 0, and `LZMA2` at every other level. `he` is `on`
/// for a 7z archive whose headers are encrypted. `cu` makes the names of a ZIP
/// archive UTF-8. `mt` is the number of threads. `em` is `AES256` for a ZIP
/// archive with a password. Nothing else is set, and nothing twice.
pub proof fn law_properties_of_a_creation(
    options: CreateOptions,
    cpus: u32,
    name: Seq<char>,
    value: PropView,
)
    ensures
        creation_properties(options, cpus).contains((name, value)) <==> {
            ||| name == "x"@ && value == PropView::U32(options.compression_level as u32)
            ||| name == "m"@ && options.format == CreateFormat::SevenZip
                && options.compression_level == 0 && value == PropView::Bstr(text::utf16("Copy"@))
            ||| name == "m"@ && options.format == CreateFormat::SevenZip
                && options.compression_level >= 1 && value == PropView::Bstr(
                text::utf16("LZMA2"@),
            )
            ||| name == "he"@ && options.format == CreateFormat::SevenZip
                && options.encrypt_headers && value == PropView::Bstr(text::utf16("on"@))
            ||| name == "cu"@ && options.format == CreateFormat::Zip && value == PropView::Bool(
                true,
            )
            ||| name == "mt"@ && value == PropView::U32(options.threads.threads(cpus))
            ||| name == "em"@ && options.format == CreateFormat::Zip && options.password is Some
                && value == PropView::Bstr(text::utf16("AES256"@))
        },
        forall|i: int, j: int|
            0 <= i < j < creation_properties(options, cpus).len() ==> (
            #[trigger] creation_properties(options, cpus)[i]).0 != (#[trigger] creation_properties(
                options,
                cpus,
            )[j]).0,
{
    reveal_strlit("x");
    reveal_strlit("m");
    reveal_strlit("he");
    reveal_strlit("cu");
    reveal_strlit("mt");
    reveal_strlit("em");
    assert("x"@.len() == 1 && "x"@[0] == 'x');
    assert("m"@.len() == 1 && "m"@[0] == 'm');
    assert("he"@.len() == 2 && "he"@[0] == 'h');
    assert("cu"@.len() == 2 && "cu"@[0] == 'c');
    assert("mt"@.len() == 2 && "mt"@[0] == 'm');
    assert("em"@.len() == 2 && "em"@[0] == 'e');
    let p = creation_properties(options, cpus);
    let level = ("x"@, PropView::U32(options.compression_level as u32));
    let method = text_property(
        "m"@,
        if options.compression_level == 0 {
            "Copy"@
        } else {
            "LZMA2"@
        },
    );
    let headers = text_property("he"@, "on"@);
    let names = ("cu"@, PropView::Bool(true));
    let threads = ("mt"@, PropView::U32(options.threads.threads(cpus)));
    let cipher = text_property("em"@, "AES256"@);
    if options.format == CreateFormat::SevenZip {
        if options.encrypt_headers {
            assert(p =~= seq![level, method, headers, threads]);
        } else {
            assert(p =~= seq![level, method, threads]);
        }
    } else if options.format == CreateFormat::Zip {
        if options.password is Some {
            assert(p =~= seq![level, names, threads, cipher]);
        } else {
            assert(p =~= seq![level, names, threads]);
        }
    } else {
        assert(p =~= seq![level, threads]);
    }
    assert(p.len() >= 2 && p.len() <= 4);
    if p.contains((name, value)) {
        let i = choose|i: int| 0 <= i < p.len() && p[i] == (name, value);
        assert(i == 0 || i == 1 || i == 2 || i == 3);
    }
    assert(p.contains(p[0]) && p.contains(p[1]));
    if p.len() >= 3 {
        assert(p.contains(p[2]));
    }
    if p.len() >= 4 {
        assert(p.contains(p[3]));
    }
}

/// Whether the handler took the properties. `exposed` tells whether it can be
/// given any.
pub fn properties_applied(exposed: bool, code: i32) -> (applied: ArchiveResult<()>)
    ensures
        match applied {
            Ok(_) => exposed && code == S_OK,
            Err(error) => error@ == if !exposed {
                ErrorView::SevenZip("the 7z handler does not expose ISetProperties"@)
            } else {
                listing::code_error("setting 7z options"@, code)
            } && (!exposed || code != S_OK),
        },
{
    if !exposed {
        return Err(
            ArchiveError::SevenZip("the 7z handler does not expose ISetProperties".to_owned()),
        );
    }
    listing::require_hr(code, "setting 7z options")
}

// ---------------------------------------------------------------------------
// The outcome
// ---------------------------------------------------------------------------

/// Why a creation failed before its files are put in place. `volumes` is the
/// number of volumes of a split archive.
pub open spec fn creation_error(
    volume_error: Option<ErrorView>,
    error: Option<ErrorView>,
    cancelled: bool,
    code: i32,
    volumes: Option<usize>,
) -> Option<ErrorView> {
    if volumes is Some && volume_error is Some {
        volume_error
    } else if error is Some {
        error
    } else if cancelled {
        Some(ErrorView::Cancelled)
    } else if code != S_OK {
        Some(listing::code_error("7z creation"@, code))
    } else if volumes == Some(0usize) {
        Some(ErrorView::SevenZip("7z creation produced no output volumes"@))
    } else {
        None
    }
}

/// Whether a creation's output can be put in place: [`creation_error`],
/// executable.
pub fn creation_outcome(
    volume_error: Option<ArchiveError>,
    error: Option<ArchiveError>,
    cancelled: bool,
    code: i32,
    volumes: Option<usize>,
) -> (outcome: ArchiveResult<()>)
    ensures
        ({
            let failure = creation_error(
                extracting::option_error(volume_error),
                extracting::option_error(error),
                cancelled,
                code,
                volumes,
            );
            match outcome {
                Ok(_) => failure is None,
                Err(error) => failure == Some(error@),
            }
        }),
{
    if volumes.is_some() {
        if let Some(error) = volume_error {
            return Err(error);
        }
    }
    if let Some(error) = error {
        return Err(error);
    }
    if cancelled {
        return Err(ArchiveError::Cancelled);
    }
    match listing::require_hr(code, "7z creation") {
        Ok(_) => {},
        Err(error) => {
            return Err(error);
        },
    }
    if let Some(volumes) = volumes {
        if volumes == 0 {
            return Err(
                ArchiveError::SevenZip("7z creation produced no output volumes".to_owned()),
            );
        }
    }
    Ok(())
}

/// A creation succeeds exactly when nothing went wrong: no callback failed,
/// nobody cancelled, the handler is content, and a split archive has volumes.
/// A failure of a callback is told before the code that it caused, and
/// cancellation before the code of a handler that was stopped.
pub proof fn law_outcome_of_a_creation(
    volume_error: Option<ErrorView>,
    error: Option<ErrorView>,
    cancelled: bool,
    code: i32,
    volumes: Option<usize>,
)
    ensures
        creation_error(volume_error, error, cancelled, code, volumes) is None <==> {
            &&& volumes is None || volume_error is None
            &&& error is None
            &&& !cancelled
            &&& code == 0
            &&& volumes is None || volumes->0 > 0
        },
        volumes is None && error is Some ==> creation_error(
            volume_error,
            error,
            cancelled,
            code,
            volumes,
        ) == error,
        volumes is Some && volume_error is Some ==> creation_error(
            volume_error,
            error,
            cancelled,
            code,
            volumes,
        ) == volume_error,
        volume_error is None && error is Some ==> creation_error(
            volume_error,
            error,
            cancelled,
            code,
            volumes,
        ) == error,
        volume_error is None && error is None && cancelled ==> creation_error(
            volume_error,
            error,
            cancelled,
            code,
            volumes,
        ) == Some(ErrorView::Cancelled),
        volume_error is None && error is None && !cancelled && code != 0 ==> creation_error(
            volume_error,
            error,
            cancelled,
            code,
            volumes,
        ) == Some(
            ErrorView::SevenZip("7z creation"@ + " failed with HRESULT "@ + ffi::code_text(code)),
        ),
{
}

/// The summary of a creation that succeeded: all files, and all their bytes.
pub fn creation_summary(reported: OperationSummary, files: u64, bytes: u64) -> (summary:
    OperationSummary)
    ensures
        summary@ == (SummaryView {
            entries_processed: files,
            bytes_processed: bytes,
            ..reported@
        }),
{
    OperationSummary {
        entries_processed: files,
        entries_skipped: reported.entries_skipped,
        bytes_processed: bytes,
        warning: reported.warning,
    }
}

/// The temporary files that a failed creation leaves: the volumes that were
/// begun, else the single file.
pub fn creation_leftovers(volumes: Option<Vec<String>>, temporary: String) -> (files: Vec<String>)
    ensures
        files@ == match volumes {
            Some(volumes) => volumes@,
            None => seq![temporary],
        },
{
    match volumes {
        Some(volumes) => volumes,
        None => {
            let mut files: Vec<String> = Vec::new();
            files.push(temporary);
            proof {
                assert(files@ =~= seq![temporary]);
            }
            files
        },
    }
}

/// The first snapshot of an operation on a file.
pub fn opening_snapshot(file: &str, entries: Option<u64>, bytes: u64) -> (snapshot:
    ProgressSnapshot)
    ensures
        snapshot@ == (progress::SnapshotView {
            current_file: file@,
            total_entries: entries,
            total_bytes: Some(bytes),
            ..progress::fresh_snapshot(ProgressPhase::Opening)
        }),
{
    let mut snapshot = ProgressSnapshot::new(ProgressPhase::Opening);
    snapshot.current_file = file.to_owned();
    snapshot.total_entries = entries;
    snapshot.total_bytes = Some(bytes);
    snapshot
}

/// The last snapshot of an operation that has done `entries` entries and
/// `bytes` bytes.
pub fn finished_snapshot(last: ProgressSnapshot, entries: u64, bytes: u64) -> (snapshot:
    ProgressSnapshot)
    ensures
        snapshot@ == (progress::SnapshotView {
            phase: ProgressPhase::Finished,
            current_file: Seq::empty(),
            entries_processed: entries,
            bytes_processed: bytes,
            ..last@
        }),
{
    let mut snapshot = last;
    snapshot.phase = ProgressPhase::Finished;
    snapshot.current_file = String::new();
    snapshot.entries_processed = entries;
    snapshot.bytes_processed = bytes;
    snapshot
}

} // verus!
