//! The engines on systems without the native 7-Zip library.

use vstd::prelude::*;
use vstd::string::*;
use crate::composite::{LibArchiveEngine, Route};
use crate::error::{ArchiveError, ArchiveResult, ErrorView};
use crate::options::CreateFormat;

verus! {

/// What is said wherever the native library is asked for.
pub open spec fn unavailable_error() -> ErrorView {
    ErrorView::LibraryUnavailable("the dynamic 7z.dll backend is currently Windows-only"@)
}

/// [`unavailable_error`], executable.
pub fn unavailable() -> (error: ArchiveError)
    ensures
        error@ == unavailable_error(),
{
    ArchiveError::LibraryUnavailable(
        "the dynamic 7z.dll backend is currently Windows-only".to_owned(),
    )
}

/// The native engine, which cannot be loaded here.
#[derive(Debug, Clone, Copy, PartialEq, Eq, Structural)]
pub struct SevenZipEngine;

impl SevenZipEngine {
    /// There is no library to load.
    pub fn load() -> (engine: ArchiveResult<SevenZipEngine>)
        ensures
            engine is Err,
            engine->Err_0@ == unavailable_error(),
    {
        Err(unavailable())
    }

    /// There is no library to load, wherever it is said to be.
    pub fn load_from_path(_path: &str) -> (engine: ArchiveResult<SevenZipEngine>)
        ensures
            engine is Err,
            engine->Err_0@ == unavailable_error(),
    {
        Err(unavailable())
    }

    /// The name of the engine.
    pub fn version(&self) -> (version: String)
        ensures
            version@ == "7z.dll unavailable"@,
    {
        "7z.dll unavailable".to_owned()
    }

    /// No format can be created.
    pub fn writable_formats(&self) -> (formats: Vec<CreateFormat>)
        ensures
            formats@.len() == 0,
    {
        Vec::new()
    }

    /// Listing, testing, extracting and creating all fail.
    pub fn operate(&self) -> (done: ArchiveResult<()>)
        ensures
            done is Err,
            done->Err_0@ == unavailable_error(),
    {
        Err(unavailable())
    }
}

/// The engines together; only libarchive is there.
#[derive(Debug)]
pub struct CompositeEngine {
    pub libarchive: LibArchiveEngine,
    pub sevenzip: Option<SevenZipEngine>,
}

impl CompositeEngine {
    /// The engines together.
    pub fn new(libarchive: LibArchiveEngine, sevenzip: Option<SevenZipEngine>) -> (engine:
        CompositeEngine)
        ensures
            engine.libarchive == libarchive,
            engine.sevenzip == sevenzip,
    {
        CompositeEngine { libarchive, sevenzip }
    }

    /// The name of the engine.
    pub fn version(&self) -> (version: String)
        ensures
            version@ == self.libarchive.version@,
    {
        self.libarchive.version.clone()
    }

    /// The formats that can be created.
    pub fn writable_formats(&self) -> (formats: &Vec<CreateFormat>)
        ensures
            *formats == self.libarchive.writable_formats,
    {
        &self.libarchive.writable_formats
    }

    /// Every operation goes to libarchive.
    pub fn route(&self) -> (route: Route)
        ensures
            route == Route::LibArchive,
    {
        Route::LibArchive
    }
}

} // verus!
