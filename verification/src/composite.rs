//! Choosing the engine for an operation.

use vstd::prelude::*;
use vstd::string::*;
use crate::engine::SevenZipEngine;
use crate::error::{ArchiveError, ArchiveResult, ErrorView};
use crate::file_ops;
use crate::format::ReadFormat;
use crate::options::{CreateFormat, CreateOptions, ZipBackend};
use crate::text;

verus! {

/// What is known of the libarchive engine.
#[derive(Debug)]
pub struct LibArchiveEngine {
    pub version: String,
    pub writable_formats: Vec<CreateFormat>,
}

/// The engine that carries out an operation.
#[derive(Debug, Clone, Copy, PartialEq, Eq, Structural)]
pub enum Route {
    /// ZIP entries are coded in this process, with zlib-ng or with zlib-rs.
    Flate { zlib_ng: bool },
    SevenZip,
    LibArchive,
}

/// The engines together. ZIP archives go to the selected ZIP backend; 7z, ZIP
/// and the other formats that the native library reads go to it where it is
/// available; libarchive takes the rest.
#[derive(Debug)]
pub struct CompositeEngine {
    pub libarchive: LibArchiveEngine,
    pub sevenzip: Option<SevenZipEngine>,
}

/// Formats with one more, unless it is among them.
pub open spec fn with_format(formats: Seq<CreateFormat>, add: bool, format: CreateFormat) -> Seq<
    CreateFormat,
> {
    if add && !formats.contains(format) {
        formats.push(format)
    } else {
        formats
    }
}

/// Adds a format unless it is there.
fn add_format(formats: &mut Vec<CreateFormat>, add: bool, format: CreateFormat)
    ensures
        final(formats)@ == with_format(old(formats)@, add, format),
{
    let mut found: bool = false;
    let mut i: usize = 0;
    while i < formats.len()
        invariant
            i <= formats@.len(),
            formats@ == old(formats)@,
            found == exists|k: int| 0 <= k < i && #[trigger] formats@[k] == format,
        decreases formats@.len() - i,
    {
        if formats[i] == format {
            found = true;
            proof {
                assert(formats@[i as int] == format);
            }
        }
        i += 1;
    }
    proof {
        if found {
            let k = choose|k: int| 0 <= k < i && #[trigger] formats@[k] == format;
            assert(formats@.contains(format));
        } else {
            assert(!formats@.contains(format));
        }
    }
    if add && !found {
        formats.push(format);
    }
}

/// A copy of formats.
fn copy_formats(formats: &Vec<CreateFormat>) -> (copy: Vec<CreateFormat>)
    ensures
        copy@ == formats@,
{
    let mut copy: Vec<CreateFormat> = Vec::new();
    let mut i: usize = 0;
    while i < formats.len()
        invariant
            i <= formats@.len(),
            copy@ == formats@.take(i as int),
        decreases formats@.len() - i,
    {
        copy.push(formats[i]);
        proof {
            assert(formats@.take(i + 1) =~= formats@.take(i as int).push(formats@[i as int]));
        }
        i += 1;
    }
    proof {
        assert(formats@.take(i as int) =~= formats@);
    }
    copy
}

/// The error for 7z archives without the native library.
fn sevenzip_unavailable() -> (error: ArchiveError)
    ensures
        error@ == unavailable_error(),
{
    ArchiveError::LibraryUnavailable(
        "the bundled 7z.dll could not be loaded; 7z archives need it".to_owned(),
    )
}

/// What is said of 7z archives without the native library.
pub open spec fn unavailable_error() -> ErrorView {
    ErrorView::LibraryUnavailable("the bundled 7z.dll could not be loaded; 7z archives need it"@)
}

impl CompositeEngine {
    /// The engines together.
    pub fn new(libarchive: LibArchiveEngine, sevenzip: Option<SevenZipEngine>) -> (engine:
        CompositeEngine)
        ensures
            engine.libarchive == libarchive,
            engine.sevenzip == sevenzip,
    {
        CompositeEngine { libarchive, sevenzip }
    }

    /// The names of the engines.
    pub fn version(&self) -> (version: String)
        ensures
            version@ == if self.sevenzip is Some {
                "7-Zip (7z.dll) + "@ + self.libarchive.version@
            } else {
                self.libarchive.version@
            },
    {
        match &self.sevenzip {
            Some(_) => text::join("7-Zip (7z.dll) + ", self.libarchive.version.as_str()),
            None => self.libarchive.version.clone(),
        }
    }

    /// The formats that can be created.
    pub fn writable_formats(&self) -> (formats: Vec<CreateFormat>)
        ensures
            formats@ == match self.sevenzip {
                None => self.libarchive.writable_formats@,
                Some(engine) => with_format(
                    with_format(
                        self.libarchive.writable_formats@,
                        engine.api.creates(CreateFormat::Zip),
                        CreateFormat::Zip,
                    ),
                    engine.api.creates(CreateFormat::SevenZip),
                    CreateFormat::SevenZip,
                ),
            },
    {
        let mut formats: Vec<CreateFormat> = copy_formats(&self.libarchive.writable_formats);
        if let Some(engine) = &self.sevenzip {
            add_format(&mut formats, engine.can_create(CreateFormat::Zip), CreateFormat::Zip);
            add_format(
                &mut formats,
                engine.can_create(CreateFormat::SevenZip),
                CreateFormat::SevenZip,
            );
        }
        formats
    }

    /// The engine that reads an archive of a format.
    pub open spec fn reads_with(self, format: Option<ReadFormat>) -> Route {
        if self.sevenzip is Some && format is Some && self.sevenzip->0.api.reads(format->0) {
            Route::SevenZip
        } else {
            Route::LibArchive
        }
    }

    /// The engine that lists or tests an archive, or extracts one that the
    /// ZIP backend leaves to others: [`CompositeEngine::reads_with`],
    /// executable.
    pub fn read_route(&self, format: Option<ReadFormat>) -> (route: Route)
        ensures
            route == self.reads_with(format),
    {
        if let Some(engine) = &self.sevenzip {
            if let Some(format) = format {
                if engine.can_read_format(format) {
                    return Route::SevenZip;
                }
            }
        }
        Route::LibArchive
    }

    /// The engine that extracts an archive.
    pub fn extract_route(&self, format: Option<ReadFormat>, backend: ZipBackend) -> (route: Route)
        ensures
            route == if format is Some && format->0.base_format() == ReadFormat::Zip && backend
                != ZipBackend::SevenZip {
                Route::Flate { zlib_ng: backend == ZipBackend::ZlibNg }
            } else {
                self.reads_with(format)
            },
    {
        if let Some(found) = format {
            if found.is_zip() && backend != ZipBackend::SevenZip {
                return Route::Flate { zlib_ng: backend == ZipBackend::ZlibNg };
            }
        }
        self.read_route(format)
    }

    /// The engine that creates an archive.
    pub open spec fn creates_with(self, options: CreateOptions) -> Result<Route, ErrorView> {
        if options.format == CreateFormat::Zip && options.zip_backend != ZipBackend::SevenZip {
            Ok(Route::Flate { zlib_ng: options.zip_backend == ZipBackend::ZlibNg })
        } else if options.format == CreateFormat::SevenZip {
            if self.sevenzip is Some {
                Ok(Route::SevenZip)
            } else {
                Err(unavailable_error())
            }
        } else if options.format == CreateFormat::Zip && self.sevenzip is Some
            && self.sevenzip->0.api.creates(CreateFormat::Zip) {
            Ok(Route::SevenZip)
        } else {
            Ok(Route::LibArchive)
        }
    }

    /// [`CompositeEngine::creates_with`], executable.
    pub fn create_route(&self, options: &CreateOptions) -> (route: ArchiveResult<Route>)
        ensures
            file_ops::result_view(route) == self.creates_with(*options),
    {
        if options.format == CreateFormat::Zip && options.zip_backend != ZipBackend::SevenZip {
            return Ok(Route::Flate { zlib_ng: options.zip_backend == ZipBackend::ZlibNg });
        }
        if options.format == CreateFormat::SevenZip {
            return match &self.sevenzip {
                Some(_) => Ok(Route::SevenZip),
                None => Err(sevenzip_unavailable()),
            };
        }
        if options.format == CreateFormat::Zip {
            if let Some(engine) = &self.sevenzip {
                if engine.can_create(CreateFormat::Zip) {
                    return Ok(Route::SevenZip);
                }
            }
        }
        Ok(Route::LibArchive)
    }
}

/// No format is listed twice when libarchive lists none twice, and every
/// format of libarchive is listed.
pub proof fn law_formats_are_listed_once(
    formats: Seq<CreateFormat>,
    add: bool,
    format: CreateFormat,
)
    requires
        formats.no_duplicates(),
    ensures
        with_format(formats, add, format).no_duplicates(),
        forall|i: int|
            0 <= i < formats.len() ==> with_format(formats, add, format).contains(
                #[trigger] formats[i],
            ),
        add ==> with_format(formats, add, format).contains(format),
{
    let all = with_format(formats, add, format);
    assert forall|i: int| 0 <= i < formats.len() implies all.contains(#[trigger] formats[i]) by {
        assert(all[i] == formats[i]);
    }
    if add && !formats.contains(format) {
        assert(all[formats.len() as int] == format);
    }
}

/// What creates an archive: ZIP archives are coded in this process by the
/// library that is chosen, or by 7-Zip where that is chosen and can; 7z
/// archives need 7-Zip; all others are left to libarchive.
pub proof fn law_routes_of_creation(engine: CompositeEngine, options: CreateOptions)
    ensures
        options.format == CreateFormat::Zip && options.zip_backend == ZipBackend::ZlibNg
            ==> engine.creates_with(options) == Ok::<Route, ErrorView>(
            Route::Flate { zlib_ng: true },
        ),
        options.format == CreateFormat::Zip && options.zip_backend == ZipBackend::ZlibRs
            ==> engine.creates_with(options) == Ok::<Route, ErrorView>(
            Route::Flate { zlib_ng: false },
        ),
        options.format == CreateFormat::Zip && options.zip_backend == ZipBackend::SevenZip
            && engine.sevenzip is Some && engine.sevenzip->0.api.zip_writer_available
            ==> engine.creates_with(options) == Ok::<Route, ErrorView>(Route::SevenZip),
        options.format == CreateFormat::Zip && options.zip_backend == ZipBackend::SevenZip && (
        engine.sevenzip is None || !engine.sevenzip->0.api.zip_writer_available)
            ==> engine.creates_with(options) == Ok::<Route, ErrorView>(Route::LibArchive),
        options.format == CreateFormat::SevenZip && engine.sevenzip is Some ==> engine.creates_with(
            options,
        ) == Ok::<Route, ErrorView>(Route::SevenZip),
        options.format == CreateFormat::SevenZip && engine.sevenzip is None ==> engine.creates_with(
            options,
        ) is Err && engine.creates_with(options)->Err_0 is LibraryUnavailable,
        options.format != CreateFormat::Zip && options.format != CreateFormat::SevenZip
            ==> engine.creates_with(options) == Ok::<Route, ErrorView>(Route::LibArchive),
{
}

/// What reads an archive: 7-Zip where it is there and has a reader for the
/// format, libarchive otherwise.
pub proof fn law_routes_of_reading(engine: CompositeEngine, format: ReadFormat)
    ensures
        engine.reads_with(None) == Route::LibArchive,
        engine.sevenzip is None ==> engine.reads_with(Some(format)) == Route::LibArchive,
        engine.sevenzip is Some && (format == ReadFormat::SevenZip || format
            == ReadFormat::SevenZipVolume) ==> engine.reads_with(Some(format)) == Route::SevenZip,
        engine.sevenzip is Some && engine.sevenzip->0.api.reader(format) is Err
            ==> engine.reads_with(Some(format)) == Route::LibArchive,
        engine.sevenzip is Some && format == ReadFormat::Rar5 && engine.sevenzip->0.api.rar5 is Some
            ==> engine.reads_with(Some(format)) == Route::SevenZip,
        engine.sevenzip is Some && format == ReadFormat::Rar4 && engine.sevenzip->0.api.rar4 is Some
            ==> engine.reads_with(Some(format)) == Route::SevenZip,
        engine.sevenzip is Some && format == ReadFormat::Lzh && engine.sevenzip->0.api.lzh is Some
            ==> engine.reads_with(Some(format)) == Route::SevenZip,
        engine.sevenzip is Some && format == ReadFormat::Iso && engine.sevenzip->0.api.iso is Some
            ==> engine.reads_with(Some(format)) == Route::SevenZip,
        engine.sevenzip is Some && format == ReadFormat::Nsis && engine.sevenzip->0.api.nsis is Some
            ==> engine.reads_with(Some(format)) == Route::SevenZip,
{
}

} // verus!
