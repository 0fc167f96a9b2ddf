//! The command line: its switches, its inputs, and what it prints.

use vstd::prelude::*;
use vstd::string::*;
use crate::error::{ArchiveError, ErrorView};
use crate::names;
use crate::options;
use crate::options::{
    ArchiveEntry, ArchiveEntryKind, ConflictChoice, CreateFormat, CreateOptions, ExtractOptions,
    ExtractSelection, InitialConflictPolicy, OperationSummary, ThreadCount, ZipBackend,
};
use crate::order;
use crate::paths;
use crate::text;
use crate::wildcard;
use crate::zip_names;

verus! {

/// An exit code and a message.
pub type CliError = (i32, String);

/// The exit code of a command line that makes no sense.
pub const USAGE_ERROR: i32 = 7;

/// The exit code of a failed operation.
pub const FAILURE: i32 = 2;

/// The exit code of an operation that succeeded with a warning.
pub const WARNING: i32 = 1;

/// The exit code of a cancelled operation.
pub const CANCELLED: i32 = 255;

/// An error over sequences.
pub open spec fn error_view(error: CliError) -> (i32, Seq<char>) {
    (error.0, error.1@)
}

/// The error of a command line that makes no sense.
pub fn usage(message: &str) -> (error: CliError)
    ensures
        error_view(error) == (USAGE_ERROR, message@),
{
    (USAGE_ERROR, message.to_owned())
}

/// The error of a failed operation.
pub fn failure(message: &str) -> (error: CliError)
    ensures
        error_view(error) == (FAILURE, message@),
{
    (FAILURE, message.to_owned())
}

/// The error of an archive operation, shown as `message`.
pub fn archive_error(error: &ArchiveError, message: &str) -> (shown: CliError)
    ensures
        error_view(shown) == (
            if error@ == ErrorView::Cancelled {
                CANCELLED
            } else {
                FAILURE
            },
            message@,
        ),
{
    let code: i32 = if error.is_cancelled() { CANCELLED } else { FAILURE };
    (code, message.to_owned())
}

// ---------------------------------------------------------------------------
// Switches
// ---------------------------------------------------------------------------

/// The format that a name stands for.
pub open spec fn named_format(name: Seq<char>) -> Option<CreateFormat> {
    let lower = text::lower(name);
    if lower == "7z"@ {
        Some(CreateFormat::SevenZip)
    } else if lower == "zip"@ {
        Some(CreateFormat::Zip)
    } else if lower == "tar"@ {
        Some(CreateFormat::Tar)
    } else if lower == "tar.gz"@ || lower == "tgz"@ {
        Some(CreateFormat::TarGzip)
    } else if lower == "tar.xz"@ || lower == "txz"@ {
        Some(CreateFormat::TarXz)
    } else if lower == "tar.zst"@ || lower == "tzst"@ {
        Some(CreateFormat::TarZstd)
    } else {
        None
    }
}

/// [`named_format`], executable.
pub fn format(name: &str) -> (found: Result<CreateFormat, CliError>)
    ensures
        match found {
            Ok(format) => named_format(name@) == Some(format),
            Err(error) => named_format(name@) is None && error_view(error) == (
                USAGE_ERROR,
                "Unsupported archive type"@,
            ),
        },
{
    let lower = text::lower_text(name);
    let lower: &str = lower.as_str();
    if text::same_text(lower, "7z") {
        Ok(CreateFormat::SevenZip)
    } else if text::same_text(lower, "zip") {
        Ok(CreateFormat::Zip)
    } else if text::same_text(lower, "tar") {
        Ok(CreateFormat::Tar)
    } else if text::same_text(lower, "tar.gz") || text::same_text(lower, "tgz") {
        Ok(CreateFormat::TarGzip)
    } else if text::same_text(lower, "tar.xz") || text::same_text(lower, "txz") {
        Ok(CreateFormat::TarXz)
    } else if text::same_text(lower, "tar.zst") || text::same_text(lower, "tzst") {
        Ok(CreateFormat::TarZstd)
    } else {
        Err(usage("Unsupported archive type"))
    }
}

/// Whether a format has an extension, which is given in lower case.
pub open spec fn has_known_extension(format: CreateFormat, extension: Seq<char>) -> bool {
    match format {
        CreateFormat::Zip => extension == "zip"@,
        CreateFormat::SevenZip => extension == "7z"@,
        CreateFormat::Tar => extension == "tar"@,
        CreateFormat::TarGzip => extension == "tar.gz"@ || extension == "tgz"@,
        CreateFormat::TarXz => extension == "tar.xz"@ || extension == "txz"@,
        CreateFormat::TarZstd => extension == "tar.zst"@ || extension == "tzst"@,
    }
}

/// What the known extensions hold.
proof fn lemma_known_extensions()
    ensures
        "zip"@ == seq!['z', 'i', 'p'],
        "7z"@ == seq!['7', 'z'],
        "tar"@ == seq!['t', 'a', 'r'],
        "tar.gz"@ == seq!['t', 'a', 'r', '.', 'g', 'z'],
        "tgz"@ == seq!['t', 'g', 'z'],
        "tar.xz"@ == seq!['t', 'a', 'r', '.', 'x', 'z'],
        "txz"@ == seq!['t', 'x', 'z'],
        "tar.zst"@ == seq!['t', 'a', 'r', '.', 'z', 's', 't'],
        "tzst"@ == seq!['t', 'z', 's', 't'],
{
    reveal_strlit("zip");
    reveal_strlit("7z");
    reveal_strlit("tar");
    reveal_strlit("tar.gz");
    reveal_strlit("tgz");
    reveal_strlit("tar.xz");
    reveal_strlit("txz");
    reveal_strlit("tar.zst");
    reveal_strlit("tzst");
    assert("zip"@ =~= seq!['z', 'i', 'p']);
    assert("7z"@ =~= seq!['7', 'z']);
    assert("tar"@ =~= seq!['t', 'a', 'r']);
    assert("tar.gz"@ =~= seq!['t', 'a', 'r', '.', 'g', 'z']);
    assert("tgz"@ =~= seq!['t', 'g', 'z']);
    assert("tar.xz"@ =~= seq!['t', 'a', 'r', '.', 'x', 'z']);
    assert("txz"@ =~= seq!['t', 'x', 'z']);
    assert("tar.zst"@ =~= seq!['t', 'a', 'r', '.', 'z', 's', 't']);
    assert("tzst"@ =~= seq!['t', 'z', 's', 't']);
}

/// A format is known by its extensions, in any case: by that which new
/// archives get, and by the short ones of compressed TAR archives. No other
/// name stands for a format.
pub proof fn law_formats_are_known_by_their_extensions(format: CreateFormat, name: Seq<char>)
    ensures
        named_format(name) == Some(format) <==> has_known_extension(format, text::lower(name)),
        named_format(format.extension_text()) == Some(format),
        has_known_extension(format, format.extension_text()),
{
    lemma_known_extensions();
    let own = format.extension_text();
    assert(text::lower(own) =~= own);
}

/// What a switch asks for.
#[derive(Debug)]
pub enum Switch {
    OverwriteAll,
    SkipAll,
    Recursive,
    Technical,
    NoProgress,
    Utf8Console,
    EncryptHeaders(bool),
    Backend(ZipBackend),
    Threads(ThreadCount),
    Level(u8),
    Output(String),
    AskPassword,
    Password(String),
    Format(CreateFormat),
    SplitSize(u64),
}

/// A [`Switch`] over sequences.
pub enum SwitchView {
    OverwriteAll,
    SkipAll,
    Recursive,
    Technical,
    NoProgress,
    Utf8Console,
    EncryptHeaders(bool),
    Backend(ZipBackend),
    Threads(ThreadCount),
    Level(u8),
    Output(Seq<char>),
    AskPassword,
    Password(Seq<char>),
    Format(CreateFormat),
    SplitSize(u64),
}

impl View for Switch {
    type V = SwitchView;

    open spec fn view(&self) -> SwitchView {
        match *self {
            Switch::OverwriteAll => SwitchView::OverwriteAll,
            Switch::SkipAll => SwitchView::SkipAll,
            Switch::Recursive => SwitchView::Recursive,
            Switch::Technical => SwitchView::Technical,
            Switch::NoProgress => SwitchView::NoProgress,
            Switch::Utf8Console => SwitchView::Utf8Console,
            Switch::EncryptHeaders(on) => SwitchView::EncryptHeaders(on),
            Switch::Backend(backend) => SwitchView::Backend(backend),
            Switch::Threads(threads) => SwitchView::Threads(threads),
            Switch::Level(level) => SwitchView::Level(level),
            Switch::Output(path) => SwitchView::Output(path@),
            Switch::AskPassword => SwitchView::AskPassword,
            Switch::Password(password) => SwitchView::Password(password@),
            Switch::Format(format) => SwitchView::Format(format),
            Switch::SplitSize(size) => SwitchView::SplitSize(size),
        }
    }
}

/// The threads that a value of the thread switch stands for.
pub open spec fn threads_of(value: Seq<char>) -> Option<ThreadCount> {
    if value == "on"@ {
        Some(ThreadCount::Auto)
    } else if value == "off"@ {
        Some(ThreadCount::Exact(1))
    } else {
        match text::natural_number(value) {
            Some(n) => if 0 < n <= 1024 {
                Some(ThreadCount::Exact(n))
            } else {
                None
            },
            None => None,
        }
    }
}

/// [`threads_of`], executable.
fn parse_threads(value: &str) -> (threads: Option<ThreadCount>)
    ensures
        threads == threads_of(value@),
{
    if text::same_text(value, "on") {
        return Some(ThreadCount::Auto);
    }
    if text::same_text(value, "off") {
        return Some(ThreadCount::Exact(1));
    }
    match text::parse_natural(value) {
        Some(n) => {
            if n > 0 && n <= 1024 {
                Some(ThreadCount::Exact(n))
            } else {
                None
            }
        },
        None => None,
    }
}

/// A value that must make sense.
pub open spec fn required(found: Option<SwitchView>, message: Seq<char>) -> Result<
    SwitchView,
    (i32, Seq<char>),
> {
    match found {
        Some(switch) => Ok(switch),
        None => Err((USAGE_ERROR, message)),
    }
}

/// What a switch asks for, or why it makes no sense. Switches without a value
/// come first; of the others the first that the text starts with counts.
pub open spec fn switch_of(arg: Seq<char>) -> Result<SwitchView, (i32, Seq<char>)> {
    if arg == "-y"@ || arg == "-aoa"@ {
        Ok(SwitchView::OverwriteAll)
    } else if arg == "-aos"@ {
        Ok(SwitchView::SkipAll)
    } else if arg == "-r"@ {
        Ok(SwitchView::Recursive)
    } else if arg == "-slt"@ {
        Ok(SwitchView::Technical)
    } else if arg == "-bsp0"@ || arg == "-bd"@ {
        Ok(SwitchView::NoProgress)
    } else if arg == "-sccUTF-8"@ {
        Ok(SwitchView::Utf8Console)
    } else if arg == "-mhe=on"@ {
        Ok(SwitchView::EncryptHeaders(true))
    } else if arg == "-mhe=off"@ {
        Ok(SwitchView::EncryptHeaders(false))
    } else if "-zip-backend="@.is_prefix_of(arg) {
        required(
            match ZipBackend::named(arg.skip(13)) {
                Some(backend) => Some(SwitchView::Backend(backend)),
                None => None,
            },
            "ZIP backend must be 7z, zlib-ng, or zlib-rs"@,
        )
    } else if "-mmt="@.is_prefix_of(arg) {
        required(
            match threads_of(arg.skip(5)) {
                Some(threads) => Some(SwitchView::Threads(threads)),
                None => None,
            },
            "-mmt requires on, off, or 1..1024"@,
        )
    } else if "-mx="@.is_prefix_of(arg) {
        required(
            match text::natural_number(arg.skip(4)) {
                Some(n) => if n <= 9 {
                    Some(SwitchView::Level(n as u8))
                } else {
                    None
                },
                None => None,
            },
            "-mx requires 0..9"@,
        )
    } else if "-o"@.is_prefix_of(arg) && arg.len() > 2 {
        Ok(SwitchView::Output(arg.skip(2)))
    } else if "-p"@.is_prefix_of(arg) {
        if arg.len() == 2 {
            Ok(SwitchView::AskPassword)
        } else {
            Ok(SwitchView::Password(arg.skip(2)))
        }
    } else if "-t"@.is_prefix_of(arg) {
        required(
            match named_format(arg.skip(2)) {
                Some(format) => Some(SwitchView::Format(format)),
                None => None,
            },
            "Unsupported archive type"@,
        )
    } else if "-v"@.is_prefix_of(arg) {
        required(
            match options::volume_size(arg.skip(2)) {
                Some(size) => Some(SwitchView::SplitSize(size)),
                None => None,
            },
            "Invalid split size (minimum 1 KiB)"@,
        )
    } else {
        Err((USAGE_ERROR, "Unsupported switch: "@ + arg))
    }
}

/// A text from character `n` on.
fn tail(s: &str, n: usize) -> (out: String)
    requires
        n <= s@.len(),
    ensures
        out@ == s@.skip(n as int),
{
    let chars = text::chars_of(s);
    let size: usize = chars.len();
    let part = vstd::slice::slice_subrange(&chars, n, size);
    proof {
        assert(part@ =~= s@.skip(n as int));
    }
    text::string_of(part)
}

/// A switch with a value: the value behind a prefix of `n` characters.
fn value_behind(arg: &str, prefix: &str, n: usize) -> (value: Option<String>)
    requires
        prefix@.len() == n,
    ensures
        match value {
            Some(value) => prefix@.is_prefix_of(arg@) && value@ == arg@.skip(n as int),
            None => !prefix@.is_prefix_of(arg@),
        },
{
    if text::starts_with(arg, prefix) {
        Some(tail(arg, n))
    } else {
        None
    }
}

/// A switch and its outcome over sequences.
pub open spec fn switch_view(switch: Result<Switch, CliError>) -> Result<
    SwitchView,
    (i32, Seq<char>),
> {
    match switch {
        Ok(switch) => Ok(switch@),
        Err(error) => Err(error_view(error)),
    }
}

/// [`switch_of`], executable.
pub fn parse_switch(arg: &str) -> (switch: Result<Switch, CliError>)
    ensures
        switch_view(switch) == switch_of(arg@),
{
    proof {
        reveal_strlit("-zip-backend=");
        reveal_strlit("-mmt=");
        reveal_strlit("-mx=");
        reveal_strlit("-o");
        reveal_strlit("-p");
        reveal_strlit("-t");
        reveal_strlit("-v");
    }
    if text::same_text(arg, "-y") || text::same_text(arg, "-aoa") {
        return Ok(Switch::OverwriteAll);
    }
    if text::same_text(arg, "-aos") {
        return Ok(Switch::SkipAll);
    }
    if text::same_text(arg, "-r") {
        return Ok(Switch::Recursive);
    }
    if text::same_text(arg, "-slt") {
        return Ok(Switch::Technical);
    }
    if text::same_text(arg, "-bsp0") || text::same_text(arg, "-bd") {
        return Ok(Switch::NoProgress);
    }
    if text::same_text(arg, "-sccUTF-8") {
        return Ok(Switch::Utf8Console);
    }
    if text::same_text(arg, "-mhe=on") {
        return Ok(Switch::EncryptHeaders(true));
    }
    if text::same_text(arg, "-mhe=off") {
        return Ok(Switch::EncryptHeaders(false));
    }
    if let Some(value) = value_behind(arg, "-zip-backend=", 13) {
        return match ZipBackend::from_name(value.as_str()) {
            Some(backend) => Ok(Switch::Backend(backend)),
            None => Err(usage("ZIP backend must be 7z, zlib-ng, or zlib-rs")),
        };
    }
    if let Some(value) = value_behind(arg, "-mmt=", 5) {
        return match parse_threads(value.as_str()) {
            Some(threads) => Ok(Switch::Threads(threads)),
            None => Err(usage("-mmt requires on, off, or 1..1024")),
        };
    }
    if let Some(value) = value_behind(arg, "-mx=", 4) {
        if let Some(level) = text::parse_natural(value.as_str()) {
            if level <= 9 {
                return Ok(Switch::Level(level as u8));
            }
        }
        return Err(usage("-mx requires 0..9"));
    }
    if let Some(value) = value_behind(arg, "-o", 2) {
        if !value.as_str().is_empty() {
            return Ok(Switch::Output(value));
        }
    }
    if let Some(value) = value_behind(arg, "-p", 2) {
        if value.as_str().is_empty() {
            return Ok(Switch::AskPassword);
        }
        return Ok(Switch::Password(value));
    }
    if let Some(value) = value_behind(arg, "-t", 2) {
        return match format(value.as_str()) {
            Ok(format) => Ok(Switch::Format(format)),
            Err(error) => Err(error),
        };
    }
    if let Some(value) = value_behind(arg, "-v", 2) {
        return match options::parse_volume_size(value.as_str()) {
            Some(size) => Ok(Switch::SplitSize(size)),
            None => Err(usage("Invalid split size (minimum 1 KiB)")),
        };
    }
    Err((USAGE_ERROR, text::join("Unsupported switch: ", arg)))
}

/// The backend switch with the key of a backend selects that backend.
pub proof fn law_backend_switch_selects(backend: ZipBackend)
    ensures
        switch_of("-zip-backend="@ + backend.key_text()) == Ok::<SwitchView, (i32, Seq<char>)>(
            SwitchView::Backend(backend),
        ),
{
    reveal_strlit("-zip-backend=");
    reveal_strlit("-y");
    reveal_strlit("-aoa");
    reveal_strlit("-aos");
    reveal_strlit("-r");
    reveal_strlit("-slt");
    reveal_strlit("-bsp0");
    reveal_strlit("-bd");
    reveal_strlit("-sccUTF-8");
    reveal_strlit("-mhe=on");
    reveal_strlit("-mhe=off");
    let arg = "-zip-backend="@ + backend.key_text();
    assert(arg[1] == 'z');
    assert("-y"@[1] == 'y' && "-aoa"@[1] == 'a' && "-aos"@[1] == 'a' && "-r"@[1] == 'r');
    assert("-slt"@[1] == 's' && "-bsp0"@[1] == 'b' && "-bd"@[1] == 'b');
    assert("-sccUTF-8"@[1] == 's' && "-mhe=on"@[1] == 'm' && "-mhe=off"@[1] == 'm');
    assert("-zip-backend="@.is_prefix_of(arg)) by {
        assert(arg.subrange(0, 13) =~= "-zip-backend="@);
    }
    assert(arg.skip(13) =~= backend.key_text());
    options::law_backend_keys_read_back(backend);
}

/// Where the switches without a value begin.
proof fn lemma_plain_switches()
    ensures
        "-y"@ == seq!['-', 'y'],
        "-aoa"@ == seq!['-', 'a', 'o', 'a'],
        "-aos"@ == seq!['-', 'a', 'o', 's'],
        "-r"@ == seq!['-', 'r'],
        "-slt"@ == seq!['-', 's', 'l', 't'],
        "-bsp0"@ == seq!['-', 'b', 's', 'p', '0'],
        "-bd"@ == seq!['-', 'b', 'd'],
        "-sccUTF-8"@.len() == 9 && "-sccUTF-8"@[1] == 's' && "-sccUTF-8"@[2] == 'c',
        "-mhe=on"@.len() == 7 && "-mhe=on"@[1] == 'm' && "-mhe=on"@[2] == 'h',
        "-mhe=off"@.len() == 8 && "-mhe=off"@[1] == 'm' && "-mhe=off"@[2] == 'h',
        "-zip-backend="@.len() == 13 && "-zip-backend="@[1] == 'z',
        "-mmt="@ == seq!['-', 'm', 'm', 't', '='],
        "-mx="@ == seq!['-', 'm', 'x', '='],
        "-o"@ == seq!['-', 'o'],
        "-p"@ == seq!['-', 'p'],
        "-t"@ == seq!['-', 't'],
        "-v"@ == seq!['-', 'v'],
{
    reveal_strlit("-y");
    reveal_strlit("-aoa");
    reveal_strlit("-aos");
    reveal_strlit("-r");
    reveal_strlit("-slt");
    reveal_strlit("-bsp0");
    reveal_strlit("-bd");
    reveal_strlit("-sccUTF-8");
    reveal_strlit("-mhe=on");
    reveal_strlit("-mhe=off");
    reveal_strlit("-zip-backend=");
    reveal_strlit("-mmt=");
    reveal_strlit("-mx=");
    reveal_strlit("-o");
    reveal_strlit("-p");
    reveal_strlit("-t");
    reveal_strlit("-v");
    assert("-y"@ =~= seq!['-', 'y']);
    assert("-aoa"@ =~= seq!['-', 'a', 'o', 'a']);
    assert("-aos"@ =~= seq!['-', 'a', 'o', 's']);
    assert("-r"@ =~= seq!['-', 'r']);
    assert("-slt"@ =~= seq!['-', 's', 'l', 't']);
    assert("-bsp0"@ =~= seq!['-', 'b', 's', 'p', '0']);
    assert("-bd"@ =~= seq!['-', 'b', 'd']);
    assert("-mmt="@ =~= seq!['-', 'm', 'm', 't', '=']);
    assert("-mx="@ =~= seq!['-', 'm', 'x', '=']);
    assert("-o"@ =~= seq!['-', 'o']);
    assert("-p"@ =~= seq!['-', 'p']);
    assert("-t"@ =~= seq!['-', 't']);
    assert("-v"@ =~= seq!['-', 'v']);
}

/// What stands at the start of a text stands at the start of its prefixes.
proof fn lemma_prefix_char(prefix: Seq<char>, s: Seq<char>, k: int)
    requires
        prefix.is_prefix_of(s),
        0 <= k < prefix.len(),
    ensures
        s.len() >= prefix.len(),
        s[k] == prefix[k],
{
    assert(s.subrange(0, prefix.len() as int)[k] == s[k]);
}

/// Every switch without a value asks for one thing.
pub proof fn law_plain_switches(arg: Seq<char>)
    ensures
        arg == "-y"@ || arg == "-aoa"@ <==> switch_of(arg) == Ok::<SwitchView, (i32, Seq<char>)>(
            SwitchView::OverwriteAll,
        ),
        arg == "-aos"@ <==> switch_of(arg) == Ok::<SwitchView, (i32, Seq<char>)>(
            SwitchView::SkipAll,
        ),
        arg == "-r"@ <==> switch_of(arg) == Ok::<SwitchView, (i32, Seq<char>)>(
            SwitchView::Recursive,
        ),
        arg == "-slt"@ <==> switch_of(arg) == Ok::<SwitchView, (i32, Seq<char>)>(
            SwitchView::Technical,
        ),
        arg == "-bsp0"@ || arg == "-bd"@ <==> switch_of(arg) == Ok::<SwitchView, (i32, Seq<char>)>(
            SwitchView::NoProgress,
        ),
        arg == "-sccUTF-8"@ <==> switch_of(arg) == Ok::<SwitchView, (i32, Seq<char>)>(
            SwitchView::Utf8Console,
        ),
        arg == "-mhe=on"@ <==> switch_of(arg) == Ok::<SwitchView, (i32, Seq<char>)>(
            SwitchView::EncryptHeaders(true),
        ),
        arg == "-mhe=off"@ <==> switch_of(arg) == Ok::<SwitchView, (i32, Seq<char>)>(
            SwitchView::EncryptHeaders(false),
        ),
        arg == "-p"@ <==> switch_of(arg) == Ok::<SwitchView, (i32, Seq<char>)>(
            SwitchView::AskPassword,
        ),
{
    lemma_plain_switches();
    if "-zip-backend="@.is_prefix_of(arg) {
        lemma_prefix_char("-zip-backend="@, arg, 1);
    }
    if "-mmt="@.is_prefix_of(arg) {
        lemma_prefix_char("-mmt="@, arg, 1);
        lemma_prefix_char("-mmt="@, arg, 2);
    }
    if "-mx="@.is_prefix_of(arg) {
        lemma_prefix_char("-mx="@, arg, 1);
        lemma_prefix_char("-mx="@, arg, 2);
    }
    if "-o"@.is_prefix_of(arg) {
        lemma_prefix_char("-o"@, arg, 1);
    }
    if "-p"@.is_prefix_of(arg) {
        lemma_prefix_char("-p"@, arg, 1);
        lemma_prefix_char("-p"@, arg, 0);
        if arg.len() == 2 {
            assert(arg =~= "-p"@);
        }
    }
    if "-t"@.is_prefix_of(arg) {
        lemma_prefix_char("-t"@, arg, 1);
    }
    if "-v"@.is_prefix_of(arg) {
        lemma_prefix_char("-v"@, arg, 1);
    }
    let mhe = "-mhe=on"@;
    reveal_strlit("-mhe=on");
    reveal_strlit("-mhe=off");
    assert("-p"@.is_prefix_of("-p"@)) by {
        assert("-p"@.subrange(0, 2) =~= "-p"@);
    }
    if arg == "-p"@ {
        assert(arg[1] == 'p');
        assert("-zip-backend="@.len() > arg.len());
    }
}

/// A switch with a value takes everything behind its letters as the value:
/// the output directory, the password, the format and the size of volumes.
#[verifier::rlimit(60)]
pub proof fn law_switches_take_their_values(value: Seq<char>)
    ensures
        value.len() > 0 ==> switch_of("-o"@ + value) == Ok::<SwitchView, (i32, Seq<char>)>(
            SwitchView::Output(value),
        ),
        value.len() > 0 ==> switch_of("-p"@ + value) == Ok::<SwitchView, (i32, Seq<char>)>(
            SwitchView::Password(value),
        ),
        forall|format: CreateFormat|
            #[trigger] has_known_extension(format, text::lower(value)) ==> switch_of("-t"@ + value)
                == Ok::<SwitchView, (i32, Seq<char>)>(SwitchView::Format(format)),
        options::volume_size(value) is Some ==> switch_of("-v"@ + value) == Ok::<
            SwitchView,
            (i32, Seq<char>),
        >(SwitchView::SplitSize(options::volume_size(value)->0)),
        options::volume_size(value) is None ==> switch_of("-v"@ + value) is Err,
{
    lemma_switch_value("-o"@, value);
    lemma_switch_value("-p"@, value);
    lemma_switch_value("-t"@, value);
    lemma_switch_value("-v"@, value);
    assert forall|format: CreateFormat|
        #[trigger] has_known_extension(format, text::lower(value)) implies switch_of("-t"@ + value)
        == Ok::<SwitchView, (i32, Seq<char>)>(SwitchView::Format(format)) by {
        law_formats_are_known_by_their_extensions(format, value);
    }
}

/// The level and the number of threads are the numbers behind the letters of
/// their switches: levels up to 9, and from 1 to 1024 threads; `on` leaves the
/// threads to the machine, and `off` means one.
#[verifier::rlimit(60)]
pub proof fn law_switches_take_their_numbers(value: Seq<char>)
    ensures
        value.len() == 1 && '0' <= value[0] <= '9' ==> switch_of("-mx="@ + value) == Ok::<
            SwitchView,
            (i32, Seq<char>),
        >(SwitchView::Level((value[0] as u32 - 48) as u8)),
        value == "on"@ ==> switch_of("-mmt="@ + value) == Ok::<SwitchView, (i32, Seq<char>)>(
            SwitchView::Threads(ThreadCount::Auto),
        ),
        value == "off"@ ==> switch_of("-mmt="@ + value) == Ok::<SwitchView, (i32, Seq<char>)>(
            SwitchView::Threads(ThreadCount::Exact(1)),
        ),
        value != "on"@ && value != "off"@ && text::natural_number(value) is Some && 1
            <= text::natural_number(value)->0 <= 1024 ==> switch_of("-mmt="@ + value) == Ok::<
            SwitchView,
            (i32, Seq<char>),
        >(SwitchView::Threads(ThreadCount::Exact(text::natural_number(value)->0))),
        text::natural_number(value) == Some(0u32) || (text::natural_number(value) is Some
            && text::natural_number(value)->0 > 1024) ==> switch_of("-mmt="@ + value) is Err,
        text::natural_number(value) is Some && text::natural_number(value)->0 > 9 ==> switch_of(
            "-mx="@ + value,
        ) is Err,
{
    reveal_strlit("on");
    reveal_strlit("off");
    lemma_switch_value("-mx="@, value);
    lemma_switch_value("-mmt="@, value);
    if value.len() == 1 && '0' <= value[0] <= '9' {
        assert(value.drop_last() =~= Seq::<char>::empty());
        reveal_with_fuel(text::number, 2);
        assert(text::number(value) == value[0] as u32 - 48);
        assert(text::all_digits(value));
    }
    if value == "on"@ || value == "off"@ {
        assert(value[0] == 'o');
        assert(!text::is_digit(value[0]));
        assert(text::natural_number(value) is None);
    }
}

/// The value behind the letters of a switch.
proof fn lemma_switch_value(letters: Seq<char>, value: Seq<char>)
    requires
        letters == "-o"@ || letters == "-p"@ || letters == "-t"@ || letters == "-v"@ || letters
            == "-mx="@ || letters == "-mmt="@,
    ensures
        letters.is_prefix_of(letters + value),
        (letters + value).skip(letters.len() as int) == value,
        letters == "-o"@ && value.len() > 0 ==> switch_of(letters + value) == Ok::<
            SwitchView,
            (i32, Seq<char>),
        >(SwitchView::Output(value)),
        letters == "-p"@ && value.len() > 0 ==> switch_of(letters + value) == Ok::<
            SwitchView,
            (i32, Seq<char>),
        >(SwitchView::Password(value)),
        letters == "-t"@ ==> switch_of(letters + value) == required(
            match named_format(value) {
                Some(format) => Some(SwitchView::Format(format)),
                None => None,
            },
            "Unsupported archive type"@,
        ),
        letters == "-v"@ ==> switch_of(letters + value) == required(
            match options::volume_size(value) {
                Some(size) => Some(SwitchView::SplitSize(size)),
                None => None,
            },
            "Invalid split size (minimum 1 KiB)"@,
        ),
        letters == "-mx="@ ==> switch_of(letters + value) == required(
            match text::natural_number(value) {
                Some(n) => if n <= 9 {
                    Some(SwitchView::Level(n as u8))
                } else {
                    None
                },
                None => None,
            },
            "-mx requires 0..9"@,
        ),
        letters == "-mmt="@ ==> switch_of(letters + value) == required(
            match threads_of(value) {
                Some(threads) => Some(SwitchView::Threads(threads)),
                None => None,
            },
            "-mmt requires on, off, or 1..1024"@,
        ),
{
    lemma_plain_switches();
    let arg = letters + value;
    assert(arg.subrange(0, letters.len() as int) =~= letters);
    assert(arg.skip(letters.len() as int) =~= value);
    assert(arg[1] == letters[1]);
    if letters.len() > 2 {
        assert(arg[2] == letters[2]);
    }
    if "-zip-backend="@.is_prefix_of(arg) {
        lemma_prefix_char("-zip-backend="@, arg, 1);
    }
    if "-mmt="@.is_prefix_of(arg) {
        lemma_prefix_char("-mmt="@, arg, 1);
        lemma_prefix_char("-mmt="@, arg, 2);
    }
    if "-mx="@.is_prefix_of(arg) {
        lemma_prefix_char("-mx="@, arg, 1);
        lemma_prefix_char("-mx="@, arg, 2);
    }
    if "-o"@.is_prefix_of(arg) {
        lemma_prefix_char("-o"@, arg, 1);
    }
    if "-p"@.is_prefix_of(arg) {
        lemma_prefix_char("-p"@, arg, 1);
    }
    if "-t"@.is_prefix_of(arg) {
        lemma_prefix_char("-t"@, arg, 1);
    }
    if "-v"@.is_prefix_of(arg) {
        lemma_prefix_char("-v"@, arg, 1);
    }
}

// ---------------------------------------------------------------------------
// Arguments
// ---------------------------------------------------------------------------

/// A command line that makes sense.
#[derive(Debug)]
pub struct Args {
    pub command: String,
    pub archive: String,
    pub output: String,
    pub files: Vec<String>,
    pub create: CreateOptions,
    pub extract: ExtractOptions,
    pub recursive: bool,
    pub technical: bool,
    pub progress: bool,
}

/// Whether `after` is `before` with a password set.
pub open spec fn with_password(before: Args, password: Seq<char>, after: Args) -> bool {
    &&& text::option_text(after.create.password) == Some(password)
    &&& text::option_text(after.extract.password) == Some(password)
    &&& after == (Args {
        create: CreateOptions { password: after.create.password, ..before.create },
        extract: ExtractOptions { password: after.extract.password, ..before.extract },
        ..before
    })
}

/// Whether `after` is `before` with a switch applied.
pub open spec fn applied(before: Args, switch: SwitchView, after: Args) -> bool {
    match switch {
        SwitchView::OverwriteAll => after == (Args {
            extract: ExtractOptions {
                conflict_policy: InitialConflictPolicy::OverwriteAll,
                ..before.extract
            },
            ..before
        }),
        SwitchView::SkipAll => after == (Args {
            extract: ExtractOptions {
                conflict_policy: InitialConflictPolicy::SkipAll,
                ..before.extract
            },
            ..before
        }),
        SwitchView::Recursive => after == (Args { recursive: true, ..before }),
        SwitchView::Technical => after == (Args { technical: true, ..before }),
        SwitchView::NoProgress => after == (Args { progress: false, ..before }),
        SwitchView::Utf8Console => after == before,
        SwitchView::EncryptHeaders(on) => after == (Args {
            create: CreateOptions { encrypt_headers: on, ..before.create },
            ..before
        }),
        SwitchView::Backend(backend) => after == (Args {
            create: CreateOptions { zip_backend: backend, ..before.create },
            extract: ExtractOptions { zip_backend: backend, ..before.extract },
            ..before
        }),
        SwitchView::Threads(threads) => after == (Args {
            create: CreateOptions { threads, ..before.create },
            extract: ExtractOptions { threads, ..before.extract },
            ..before
        }),
        SwitchView::Level(level) => after == (Args {
            create: CreateOptions { compression_level: level, ..before.create },
            ..before
        }),
        SwitchView::Output(path) => after.output@ == path && after == (Args {
            output: after.output,
            ..before
        }),
        SwitchView::AskPassword => after == before,
        SwitchView::Password(password) => with_password(before, password, after),
        SwitchView::Format(format) => after == (Args {
            create: CreateOptions { format, ..before.create },
            ..before
        }),
        SwitchView::SplitSize(size) => after == (Args {
            create: CreateOptions { split_size: Some(size), ..before.create },
            ..before
        }),
    }
}

impl Args {
    /// Whether nothing was said yet. `backend` is the backend that is saved.
    pub open spec fn is_initial(self, backend: ZipBackend) -> bool {
        &&& self.command@.len() == 0
        &&& self.archive@.len() == 0
        &&& self.output@ == "."@
        &&& self.files@.len() == 0
        &&& self.create.format == CreateFormat::SevenZip
        &&& self.create.preserve_root
        &&& self.create.zip_backend == backend
        &&& self.create.compression_level == 5
        &&& self.create.password is None
        &&& self.create.threads == ThreadCount::Auto
        &&& self.create.split_size is None
        &&& !self.create.encrypt_headers
        &&& self.extract.zip_backend == backend
        &&& (ExtractOptions { zip_backend: ZipBackend::ZlibRs, ..self.extract }).is_default()
        &&& !self.recursive
        &&& !self.technical
        &&& self.progress
    }

    /// The arguments when nothing was said. `saved` is the key of the backend
    /// in the settings.
    pub fn initial(saved: &str) -> (args: Args)
        ensures
            args.is_initial(
                match ZipBackend::named(saved@) {
                    Some(backend) => backend,
                    None => ZipBackend::ZlibRs,
                },
            ),
    {
        let backend: ZipBackend = ZipBackend::from_registry_key(saved);
        let mut create = CreateOptions::default();
        create.preserve_root = true;
        create.zip_backend = backend;
        create.format = CreateFormat::SevenZip;
        let mut extract = ExtractOptions::default();
        extract.zip_backend = backend;
        Args {
            command: String::new(),
            archive: String::new(),
            output: ".".to_owned(),
            files: Vec::new(),
            create,
            extract,
            recursive: false,
            technical: false,
            progress: true,
        }
    }

    /// Applies a switch.
    pub fn apply(&mut self, switch: Switch)
        ensures
            applied(*old(self), switch@, *final(self)),
    {
        match switch {
            Switch::OverwriteAll => {
                self.extract.conflict_policy = InitialConflictPolicy::OverwriteAll;
            },
            Switch::SkipAll => {
                self.extract.conflict_policy = InitialConflictPolicy::SkipAll;
            },
            Switch::Recursive => {
                self.recursive = true;
            },
            Switch::Technical => {
                self.technical = true;
            },
            Switch::NoProgress => {
                self.progress = false;
            },
            Switch::Utf8Console => {},
            Switch::EncryptHeaders(on) => {
                self.create.encrypt_headers = on;
            },
            Switch::Backend(backend) => {
                self.create.zip_backend = backend;
                self.extract.zip_backend = backend;
            },
            Switch::Threads(threads) => {
                self.create.threads = threads;
                self.extract.threads = threads;
            },
            Switch::Level(level) => {
                self.create.compression_level = level;
            },
            Switch::Output(path) => {
                self.output = path;
            },
            Switch::AskPassword => {},
            Switch::Password(password) => {
                self.create.password = Some(password.clone());
                self.extract.password = Some(password);
            },
            Switch::Format(format) => {
                self.create.format = format;
            },
            Switch::SplitSize(size) => {
                self.create.split_size = Some(size);
            },
        }
    }

    /// Sets the password that the user typed, without the end of the line.
    pub fn set_typed_password(&mut self, line: &str)
        ensures
            with_password(*old(self), without_line_end(line@), *final(self)),
    {
        let password = drop_line_end(line);
        self.create.password = Some(password.clone());
        self.extract.password = Some(password);
    }
}

/// A switch sets the option that it is for, to the value that it gives, and
/// leaves every other option as it was. The password, the number of threads
/// and the backend are set for creating and for extracting.
pub proof fn law_switches_set_their_options(before: Args, switch: SwitchView, after: Args)
    requires
        applied(before, switch, after),
    ensures
        after.extract.conflict_policy == if switch is OverwriteAll {
            InitialConflictPolicy::OverwriteAll
        } else if switch is SkipAll {
            InitialConflictPolicy::SkipAll
        } else {
            before.extract.conflict_policy
        },
        after.recursive == (before.recursive || switch is Recursive),
        after.technical == (before.technical || switch is Technical),
        after.progress == (before.progress && !(switch is NoProgress)),
        switch is EncryptHeaders ==> after.create.encrypt_headers == switch->EncryptHeaders_0,
        !(switch is EncryptHeaders) ==> after.create.encrypt_headers
            == before.create.encrypt_headers,
        switch is Backend ==> after.create.zip_backend == switch->Backend_0
            && after.extract.zip_backend == switch->Backend_0,
        !(switch is Backend) ==> after.create.zip_backend == before.create.zip_backend
            && after.extract.zip_backend == before.extract.zip_backend,
        switch is Threads ==> after.create.threads == switch->Threads_0 && after.extract.threads
            == switch->Threads_0,
        !(switch is Threads) ==> after.create.threads == before.create.threads
            && after.extract.threads == before.extract.threads,
        switch is Level ==> after.create.compression_level == switch->Level_0,
        !(switch is Level) ==> after.create.compression_level == before.create.compression_level,
        switch is Output ==> after.output@ == switch->Output_0,
        !(switch is Output) ==> after.output == before.output,
        switch is Password ==> {
            &&& after.create.password is Some && after.create.password->0@ == switch->Password_0
            &&& after.extract.password is Some && after.extract.password->0@ == switch->Password_0
        },
        !(switch is Password) ==> after.create.password == before.create.password
            && after.extract.password == before.extract.password,
        switch is Format ==> after.create.format == switch->Format_0,
        !(switch is Format) ==> after.create.format == before.create.format,
        switch is SplitSize ==> after.create.split_size == Some(switch->SplitSize_0),
        !(switch is SplitSize) ==> after.create.split_size == before.create.split_size,
        after.command == before.command,
        after.archive == before.archive,
        after.files == before.files,
        after.create.preserve_root == before.create.preserve_root,
        after.extract.selection == before.extract.selection,
        after.extract.flatten_paths == before.extract.flatten_paths,
        after.extract.pathname_codepage == before.extract.pathname_codepage,
        after.extract.max_entries == before.extract.max_entries,
        after.extract.max_file_bytes == before.extract.max_file_bytes,
        after.extract.max_total_bytes == before.extract.max_total_bytes,
        after.extract.copy_zone_identifier == before.extract.copy_zone_identifier,
{
}

/// A command line on which nothing was said creates 7z archives at level 5
/// that keep the roots of their inputs, asks before it overwrites, extracts
/// everything here with its directories, and shows its progress.
pub proof fn law_nothing_said(args: Args, backend: ZipBackend)
    requires
        args.is_initial(backend),
    ensures
        args.create.format == CreateFormat::SevenZip,
        args.create.compression_level == 5,
        args.create.preserve_root,
        args.create.password is None && args.extract.password is None,
        args.create.split_size is None,
        !args.create.encrypt_headers,
        args.create.threads == ThreadCount::Auto && args.extract.threads == ThreadCount::Auto,
        args.create.zip_backend == backend && args.extract.zip_backend == backend,
        args.extract.conflict_policy == InitialConflictPolicy::Ask,
        args.extract.selection is All,
        !args.extract.flatten_paths,
        args.extract.pathname_codepage == 0,
        args.extract.max_entries == 1_000_000,
        args.extract.max_file_bytes == 0x2_0000_0000_0000,
        args.extract.max_total_bytes == 0x2_0000_0000_0000,
        args.extract.total_entries_hint is None && args.extract.total_bytes_hint is None,
        args.extract.copy_zone_identifier,
        args.output@ == "."@,
        !args.recursive && !args.technical && args.progress,
{
}

/// [`without_line_end`], executable.
fn drop_line_end(line: &str) -> (out: String)
    ensures
        out@ == without_line_end(line@),
{
    let chars = text::chars_of(line);
    let mut end: usize = chars.len();
    proof {
        assert(line@.take(end as int) =~= line@);
    }
    while end > 0 && (chars[end - 1] == '\r' || chars[end - 1] == '\n')
        invariant
            end <= chars@.len(),
            chars@ == line@,
            without_line_end(line@) == without_line_end(line@.take(end as int)),
        decreases end,
    {
        proof {
            let now = line@.take(end as int);
            assert(now.last() == line@[end - 1]);
            assert(now.drop_last() =~= line@.take(end - 1));
        }
        end -= 1;
    }
    proof {
        if end > 0 {
            assert(line@.take(end as int).last() == line@[end - 1]);
        }
    }
    let part = vstd::slice::slice_subrange(&chars, 0, end);
    proof {
        assert(part@ =~= line@.take(end as int));
    }
    text::string_of(part)
}

/// A line without carriage returns and line feeds at its end.
pub open spec fn without_line_end(line: Seq<char>) -> Seq<char>
    decreases line.len(),
{
    if line.len() > 0 && (line.last() == '\r' || line.last() == '\n') {
        without_line_end(line.drop_last())
    } else {
        line
    }
}

/// A typed line loses its end, and nothing else.
pub proof fn law_typed_lines_lose_their_end(line: Seq<char>)
    requires
        line.len() == 0 || (line.last() != '\r' && line.last() != '\n'),
    ensures
        without_line_end(line) == line,
        without_line_end(line + seq!['\n']) == line,
        without_line_end(line + seq!['\r', '\n']) == line,
{
    let one = line + seq!['\n'];
    let two = line + seq!['\r', '\n'];
    assert(one.last() == '\n' && one.drop_last() =~= line);
    assert(two.last() == '\n' && two.drop_last() =~= line.push('\r'));
    assert(line.push('\r').last() == '\r' && line.push('\r').drop_last() =~= line);
    reveal_with_fuel(without_line_end, 3);
}

// ---------------------------------------------------------------------------
// Parsing
// ---------------------------------------------------------------------------

/// A command line on its way.
#[derive(Debug)]
pub struct Parser {
    pub args: Args,
    pub positional: Vec<String>,
    /// Whether switches are still understood.
    pub switches: bool,
    /// Whether a switch named the format.
    pub explicit_format: bool,
}

/// What an argument comes to.
#[derive(Debug, Clone, Copy, PartialEq, Eq, Structural)]
pub enum Accepted {
    Done,
    /// The user is to be asked for a password.
    AskPassword,
}

impl Parser {
    /// Begins with nothing said.
    pub fn new(saved: &str) -> (parser: Parser)
        ensures
            parser.args.is_initial(
                match ZipBackend::named(saved@) {
                    Some(backend) => backend,
                    None => ZipBackend::ZlibRs,
                },
            ),
            parser.positional@.len() == 0,
            parser.switches,
            !parser.explicit_format,
    {
        Parser {
            args: Args::initial(saved),
            positional: Vec::new(),
            switches: true,
            explicit_format: false,
        }
    }

    /// Takes the next argument: the end of the switches, a switch, or
    /// something else.
    pub fn accept(&mut self, arg: String) -> (accepted: Result<Accepted, CliError>)
        ensures
            if old(self).switches && arg@ == "--"@ {
                &&& accepted == Ok::<Accepted, CliError>(Accepted::Done)
                &&& *final(self) == (Parser { switches: false, ..*old(self) })
            } else if old(self).switches && arg@.len() > 0 && arg@[0] == '-' {
                match switch_of(arg@) {
                    Err(error) => {
                        &&& accepted is Err
                        &&& error_view(accepted->Err_0) == error
                        &&& *final(self) == *old(self)
                    },
                    Ok(switch) => {
                        &&& accepted == Ok::<Accepted, CliError>(
                            if switch is AskPassword {
                                Accepted::AskPassword
                            } else {
                                Accepted::Done
                            },
                        )
                        &&& applied(old(self).args, switch, final(self).args)
                        &&& final(self).positional == old(self).positional
                        &&& final(self).switches
                        &&& final(self).explicit_format == (old(self).explicit_format
                            || switch is Format)
                    },
                }
            } else {
                &&& accepted == Ok::<Accepted, CliError>(Accepted::Done)
                &&& final(self).positional@ == old(self).positional@.push(arg)
                &&& final(self).args == old(self).args
                &&& final(self).switches == old(self).switches
                &&& final(self).explicit_format == old(self).explicit_format
            },
    {
        if self.switches && text::same_text(arg.as_str(), "--") {
            self.switches = false;
            return Ok(Accepted::Done);
        }
        if self.switches && !arg.as_str().is_empty() && arg.as_str().get_char(0) == '-' {
            let switch: Switch = match parse_switch(arg.as_str()) {
                Ok(switch) => switch,
                Err(error) => {
                    return Err(error);
                },
            };
            let accepted: Accepted = match &switch {
                Switch::AskPassword => Accepted::AskPassword,
                _ => Accepted::Done,
            };
            if let Switch::Format(_) = &switch {
                self.explicit_format = true;
            }
            self.args.apply(switch);
            return Ok(accepted);
        }
        self.positional.push(arg);
        Ok(Accepted::Done)
    }
}

/// The format that an archive's name stands for, by its end.
pub open spec fn format_of_name(name: Seq<char>) -> Option<CreateFormat> {
    let lower = text::lower(name);
    if ".tar.gz"@.is_suffix_of(lower) {
        Some(CreateFormat::TarGzip)
    } else if ".tar.xz"@.is_suffix_of(lower) {
        Some(CreateFormat::TarXz)
    } else if ".tar.zst"@.is_suffix_of(lower) {
        Some(CreateFormat::TarZstd)
    } else if ".tgz"@.is_suffix_of(lower) {
        Some(CreateFormat::TarGzip)
    } else if ".txz"@.is_suffix_of(lower) {
        Some(CreateFormat::TarXz)
    } else if ".tzst"@.is_suffix_of(lower) {
        Some(CreateFormat::TarZstd)
    } else if ".zip"@.is_suffix_of(lower) {
        Some(CreateFormat::Zip)
    } else if ".7z"@.is_suffix_of(lower) {
        Some(CreateFormat::SevenZip)
    } else if ".tar"@.is_suffix_of(lower) {
        Some(CreateFormat::Tar)
    } else {
        None
    }
}

/// [`format_of_name`], executable.
pub fn name_format(name: &str) -> (format: Option<CreateFormat>)
    ensures
        format == format_of_name(name@),
{
    let lower = text::lower_text(name);
    let lower: &str = lower.as_str();
    if text::ends_with(lower, ".tar.gz") {
        Some(CreateFormat::TarGzip)
    } else if text::ends_with(lower, ".tar.xz") {
        Some(CreateFormat::TarXz)
    } else if text::ends_with(lower, ".tar.zst") {
        Some(CreateFormat::TarZstd)
    } else if text::ends_with(lower, ".tgz") {
        Some(CreateFormat::TarGzip)
    } else if text::ends_with(lower, ".txz") {
        Some(CreateFormat::TarXz)
    } else if text::ends_with(lower, ".tzst") {
        Some(CreateFormat::TarZstd)
    } else if text::ends_with(lower, ".zip") {
        Some(CreateFormat::Zip)
    } else if text::ends_with(lower, ".7z") {
        Some(CreateFormat::SevenZip)
    } else if text::ends_with(lower, ".tar") {
        Some(CreateFormat::Tar)
    } else {
        None
    }
}

/// What stands at the end of a text stands at the end of its suffixes.
proof fn lemma_suffix_char(suffix: Seq<char>, s: Seq<char>, k: int)
    requires
        suffix.is_suffix_of(s),
        1 <= k <= suffix.len(),
    ensures
        s.len() >= suffix.len(),
        s[s.len() - k] == suffix[suffix.len() - k],
{
    let end = s.subrange(s.len() - suffix.len(), s.len() as int);
    assert(end[suffix.len() - k] == s[s.len() - k]);
}

/// The name of a new archive stands for the format whose extension it ends
/// in, behind a dot, whatever comes before and in any case. This holds for
/// the extension that new archives get and for the short ones.
pub proof fn law_names_stand_for_their_formats(
    stem: Seq<char>,
    extension: Seq<char>,
    format: CreateFormat,
)
    requires
        has_known_extension(format, text::lower(extension)),
    ensures
        format_of_name(stem + seq!['.'] + extension) == Some(format),
        format_of_name(stem + seq!['.'] + format.extension_text()) == Some(format),
{
    lemma_known_extensions();
    let own = format.extension_text();
    assert(text::lower(own) =~= own);
    lemma_name_stands_for(stem, extension, format);
    lemma_name_stands_for(stem, own, format);
}

/// One name stands for one format.
#[verifier::rlimit(40)]
proof fn lemma_name_stands_for(stem: Seq<char>, extension: Seq<char>, format: CreateFormat)
    requires
        has_known_extension(format, text::lower(extension)),
    ensures
        format_of_name(stem + seq!['.'] + extension) == Some(format),
{
    lemma_known_extensions();
    lemma_known_suffixes();
    let name = stem + seq!['.'] + extension;
    let lower = text::lower(name);
    let known = text::lower(extension);
    let n = lower.len() as int;
    let dotted = seq!['.'] + known;
    assert(n == stem.len() + 1 + known.len());
    assert(lower[stem.len() as int] == '.');
    assert forall|k: int| 0 <= k < known.len() implies lower[stem.len() + 1 + k] == #[trigger] known[
    k] by {
        assert(name[stem.len() + 1 + k] == extension[k]);
    }
    assert(lower.subrange(n - dotted.len(), n) =~= dotted);
    assert(dotted.is_suffix_of(lower));
    assert(lower[n - 1] == known[known.len() - 1]);
    assert(lower[n - 2] == known[known.len() - 2]);
    if known.len() >= 3 {
        assert(lower[n - 3] == known[known.len() - 3]);
    }
    if known.len() >= 4 {
        assert(lower[n - 4] == known[known.len() - 4]);
    }
    if ".tar.gz"@.is_suffix_of(lower) {
        lemma_suffix_char(".tar.gz"@, lower, 1);
        lemma_suffix_char(".tar.gz"@, lower, 2);
        lemma_suffix_char(".tar.gz"@, lower, 3);
    }
    if ".tar.xz"@.is_suffix_of(lower) {
        lemma_suffix_char(".tar.xz"@, lower, 1);
        lemma_suffix_char(".tar.xz"@, lower, 2);
        lemma_suffix_char(".tar.xz"@, lower, 3);
    }
    if ".tar.zst"@.is_suffix_of(lower) {
        lemma_suffix_char(".tar.zst"@, lower, 1);
        lemma_suffix_char(".tar.zst"@, lower, 2);
        lemma_suffix_char(".tar.zst"@, lower, 3);
        lemma_suffix_char(".tar.zst"@, lower, 4);
    }
    if ".tgz"@.is_suffix_of(lower) {
        lemma_suffix_char(".tgz"@, lower, 1);
        lemma_suffix_char(".tgz"@, lower, 2);
        lemma_suffix_char(".tgz"@, lower, 3);
    }
    if ".txz"@.is_suffix_of(lower) {
        lemma_suffix_char(".txz"@, lower, 1);
        lemma_suffix_char(".txz"@, lower, 2);
        lemma_suffix_char(".txz"@, lower, 3);
    }
    if ".tzst"@.is_suffix_of(lower) {
        lemma_suffix_char(".tzst"@, lower, 1);
        lemma_suffix_char(".tzst"@, lower, 2);
    }
    if ".zip"@.is_suffix_of(lower) {
        lemma_suffix_char(".zip"@, lower, 1);
    }
    if ".7z"@.is_suffix_of(lower) {
        lemma_suffix_char(".7z"@, lower, 1);
        lemma_suffix_char(".7z"@, lower, 2);
    }
    if ".tar"@.is_suffix_of(lower) {
        lemma_suffix_char(".tar"@, lower, 1);
    }
}

/// What the known extensions hold behind a dot.
proof fn lemma_known_suffixes()
    ensures
        ".zip"@ == seq!['.'] + "zip"@,
        ".7z"@ == seq!['.'] + "7z"@,
        ".tar"@ == seq!['.'] + "tar"@,
        ".tar.gz"@ == seq!['.'] + "tar.gz"@,
        ".tgz"@ == seq!['.'] + "tgz"@,
        ".tar.xz"@ == seq!['.'] + "tar.xz"@,
        ".txz"@ == seq!['.'] + "txz"@,
        ".tar.zst"@ == seq!['.'] + "tar.zst"@,
        ".tzst"@ == seq!['.'] + "tzst"@,
{
    lemma_known_extensions();
    reveal_strlit(".zip");
    reveal_strlit(".7z");
    reveal_strlit(".tar");
    reveal_strlit(".tar.gz");
    reveal_strlit(".tgz");
    reveal_strlit(".tar.xz");
    reveal_strlit(".txz");
    reveal_strlit(".tar.zst");
    reveal_strlit(".tzst");
    assert(".zip"@ =~= seq!['.'] + "zip"@);
    assert(".7z"@ =~= seq!['.'] + "7z"@);
    assert(".tar"@ =~= seq!['.'] + "tar"@);
    assert(".tar.gz"@ =~= seq!['.'] + "tar.gz"@);
    assert(".tgz"@ =~= seq!['.'] + "tgz"@);
    assert(".tar.xz"@ =~= seq!['.'] + "tar.xz"@);
    assert(".txz"@ =~= seq!['.'] + "txz"@);
    assert(".tar.zst"@ =~= seq!['.'] + "tar.zst"@);
    assert(".tzst"@ =~= seq!['.'] + "tzst"@);
}

/// A name stands for a format only where it ends in a dot and an extension of
/// that format.
pub proof fn law_no_other_name_stands_for_a_format(name: Seq<char>, format: CreateFormat)
    requires
        format_of_name(name) == Some(format),
    ensures
        exists|at: int|
            0 <= at < name.len() && #[trigger] name[at] == '.' && has_known_extension(
                format,
                text::lower(name.skip(at + 1)),
            ),
{
    lemma_known_extensions();
    lemma_known_suffixes();
    let lower = text::lower(name);
    let suffix = if ".tar.gz"@.is_suffix_of(lower) {
        ".tar.gz"@
    } else if ".tar.xz"@.is_suffix_of(lower) {
        ".tar.xz"@
    } else if ".tar.zst"@.is_suffix_of(lower) {
        ".tar.zst"@
    } else if ".tgz"@.is_suffix_of(lower) {
        ".tgz"@
    } else if ".txz"@.is_suffix_of(lower) {
        ".txz"@
    } else if ".tzst"@.is_suffix_of(lower) {
        ".tzst"@
    } else if ".zip"@.is_suffix_of(lower) {
        ".zip"@
    } else if ".7z"@.is_suffix_of(lower) {
        ".7z"@
    } else {
        ".tar"@
    };
    assert(suffix.is_suffix_of(lower));
    let at = lower.len() - suffix.len();
    assert(lower.subrange(at, lower.len() as int) =~= suffix);
    assert(lower[at] == lower.subrange(at, lower.len() as int)[0]);
    assert(suffix[0] == '.');
    assert(name[at] == '.');
    let rest = text::lower(name.skip(at + 1));
    assert(suffix == seq!['.'] + suffix.skip(1));
    assert(rest =~= suffix.skip(1)) by {
        assert forall|k: int| 0 <= k < rest.len() implies rest[k] == suffix.skip(1)[k] by {
            assert(rest[k] == lower[at + 1 + k]);
            assert(lower.subrange(at, lower.len() as int)[k + 1] == lower[at + 1 + k]);
        }
    }
    assert(suffix.skip(1) =~= if suffix == ".tar.gz"@ {
        "tar.gz"@
    } else if suffix == ".tar.xz"@ {
        "tar.xz"@
    } else if suffix == ".tar.zst"@ {
        "tar.zst"@
    } else if suffix == ".tgz"@ {
        "tgz"@
    } else if suffix == ".txz"@ {
        "txz"@
    } else if suffix == ".tzst"@ {
        "tzst"@
    } else if suffix == ".zip"@ {
        "zip"@
    } else if suffix == ".7z"@ {
        "7z"@
    } else {
        "tar"@
    });
}

/// Whether a text is a command.
pub open spec fn is_command(s: Seq<char>) -> bool {
    s == "a"@ || s == "x"@ || s == "e"@ || s == "l"@ || s == "t"@ || s == "i"@
}

/// What is wrong with the arguments that are no switches.
pub open spec fn positional_error(p: Seq<String>) -> Option<(i32, Seq<char>)> {
    if p.len() == 0 {
        Some((USAGE_ERROR, "Missing command"@))
    } else if !is_command(p[0]@) {
        Some((USAGE_ERROR, "Unsupported command: "@ + p[0]@))
    } else if p[0]@ == "i"@ {
        if p.len() > 1 {
            Some((USAGE_ERROR, "i does not accept an archive"@))
        } else {
            None
        }
    } else if p.len() == 1 {
        Some((USAGE_ERROR, "Missing archive path"@))
    } else if p[0]@ == "t"@ && p.len() > 2 {
        Some((USAGE_ERROR, "t tests the entire archive; file filters are not supported"@))
    } else {
        None
    }
}

/// These command lines make sense: `i` alone; `a`, `x`, `e` and `l` with an
/// archive and any inputs; `t` with an archive and nothing else.
pub proof fn law_command_lines_that_make_sense(p: Seq<String>)
    ensures
        positional_error(p) is None <==> p.len() > 0 && ({
            ||| p[0]@ == "i"@ && p.len() == 1
            ||| (p[0]@ == "a"@ || p[0]@ == "x"@ || p[0]@ == "e"@ || p[0]@ == "l"@) && p.len() >= 2
            ||| p[0]@ == "t"@ && p.len() == 2
        }),
        positional_error(p) is Some ==> (positional_error(p)->0).0 == 7,
{
    reveal_strlit("i");
    reveal_strlit("a");
    reveal_strlit("x");
    reveal_strlit("e");
    reveal_strlit("l");
    reveal_strlit("t");
    assert("i"@[0] == 'i' && "a"@[0] == 'a' && "x"@[0] == 'x' && "e"@[0] == 'e' && "l"@[0] == 'l'
        && "t"@[0] == 't');
}

/// A command line that was read, with the inputs that it names.
#[derive(Debug)]
pub struct Parsed {
    pub args: Args,
    pub inputs: Vec<String>,
}

impl Parser {
    /// Ends the command line: the command, the archive and the inputs. A new
    /// archive whose format no switch named has that of its name.
    pub fn finish(self) -> (parsed: Result<Parsed, CliError>)
        ensures
            match parsed {
                Err(error) => positional_error(self.positional@) == Some(error_view(error)),
                Ok(parsed) => {
                    let p = self.positional@;
                    &&& positional_error(p) is None
                    &&& parsed.args.command == p[0]
                    &&& parsed.args == (Args {
                        command: p[0],
                        archive: parsed.args.archive,
                        create: CreateOptions {
                            format: if p[0]@ == "a"@ && !self.explicit_format && format_of_name(
                                p[1]@,
                            ) is Some {
                                format_of_name(p[1]@)->0
                            } else {
                                self.args.create.format
                            },
                            ..self.args.create
                        },
                        ..self.args
                    })
                    &&& if p[0]@ == "i"@ {
                        &&& parsed.args.archive == self.args.archive
                        &&& parsed.inputs@.len() == 0
                    } else {
                        &&& parsed.args.archive == p[1]
                        &&& parsed.inputs@ == p.skip(2)
                    }
                },
            },
    {
        let mut args: Args = self.args;
        let mut positional: Vec<String> = self.positional;
        proof {
            reveal_strlit("a");
            reveal_strlit("i");
            reveal_strlit("t");
            assert("a"@[0] == 'a' && "i"@[0] == 'i' && "t"@[0] == 't');
        }
        if positional.len() == 0 {
            return Err(usage("Missing command"));
        }
        let command: String = positional.remove(0);
        let known: bool = text::same_text(command.as_str(), "a") || text::same_text(
            command.as_str(),
            "x",
        ) || text::same_text(command.as_str(), "e") || text::same_text(command.as_str(), "l")
            || text::same_text(command.as_str(), "t") || text::same_text(command.as_str(), "i");
        if !known {
            return Err((USAGE_ERROR, text::join("Unsupported command: ", command.as_str())));
        }
        let is_info: bool = text::same_text(command.as_str(), "i");
        let is_add: bool = text::same_text(command.as_str(), "a");
        let is_test: bool = text::same_text(command.as_str(), "t");
        args.command = command;
        if is_info {
            if positional.len() > 0 {
                return Err(usage("i does not accept an archive"));
            }
            return Ok(Parsed { args, inputs: positional });
        }
        if positional.len() == 0 {
            return Err(usage("Missing archive path"));
        }
        let archive: String = positional.remove(0);
        if is_add && !self.explicit_format {
            if let Some(format) = name_format(archive.as_str()) {
                args.create.format = format;
            }
        }
        args.archive = archive;
        if is_test && positional.len() > 0 {
            return Err(usage("t tests the entire archive; file filters are not supported"));
        }
        proof {
            assert(positional@ =~= self.positional@.skip(2));
        }
        Ok(Parsed { args, inputs: positional })
    }
}

impl Args {
    /// The extension that a new archive's path gets, where it has none.
    /// `name` is the file name of the path.
    pub fn missing_extension(&self, name: &Option<String>) -> (extension: Option<&'static str>)
        ensures
            text::option_str(extension) == if self.command@ == "a"@ && (name is None
                || names::extension(name->0@) is None) {
                Some(self.create.format.extension_text())
            } else {
                None
            },
    {
        if !text::same_text(self.command.as_str(), "a") {
            return None;
        }
        if let Some(name) = name {
            if names::extension_of(name.as_str()).is_some() {
                return None;
            }
        }
        Some(self.create.format.default_extension())
    }
}

// ---------------------------------------------------------------------------
// Inputs
// ---------------------------------------------------------------------------

/// The path of a list file that an input names, behind an at sign.
pub fn list_path(input: &str) -> (path: Option<String>)
    ensures
        text::option_text(path) == if input@.len() > 0 && input@[0] == '@' {
            Some(input@.skip(1))
        } else {
            None
        },
{
    if !input.is_empty() && input.get_char(0) == '@' {
        Some(tail(input, 1))
    } else {
        None
    }
}

/// The paths in the lines of a text: each is trimmed, empty ones are dropped, and quotes around them are taken off.
pub open spec fn paths_in(s: Seq<char>) -> Seq<Seq<char>>
    decreases s.len(),
{
    if s.len() == 0 {
        Seq::empty()
    } else {
        let end = line_length(s) as int;
        let line = text::trimmed(s.take(end));
        let rest = if end < s.len() {
            s.skip(end + 1)
        } else {
            Seq::empty()
        };
        if line.len() == 0 {
            paths_in(rest)
        } else {
            seq![text::without_around(line, '"')] + paths_in(rest)
        }
    }
}

/// How many characters come before the first line feed.
pub open spec fn line_length(s: Seq<char>) -> nat
    decreases s.len(),
{
    if s.len() == 0 || s[0] == '\n' {
        0
    } else {
        1 + line_length(s.drop_first())
    }
}

/// A line is no longer than the text.
proof fn lemma_line_length(s: Seq<char>)
    ensures
        0 <= line_length(s) <= s.len(),
        line_length(s) < s.len() ==> s[line_length(s) as int] == '\n',
        forall|k: int| 0 <= k < line_length(s) ==> s[k] != '\n',
    decreases s.len(),
{
    if s.len() > 0 && s[0] != '\n' {
        lemma_line_length(s.drop_first());
        assert forall|k: int| 0 <= k < line_length(s) implies s[k] != '\n' by {
            if k > 0 {
                assert(s.drop_first()[k - 1] == s[k]);
            }
        }
        if line_length(s) < s.len() {
            assert(s.drop_first()[line_length(s) - 1] == s[line_length(s) as int]);
        }
    }
}

/// Where a line ends is told by its characters.
proof fn lemma_line_length_is(s: Seq<char>, n: int)
    requires
        0 <= n <= s.len(),
        n < s.len() ==> s[n] == '\n',
        forall|k: int| 0 <= k < n ==> s[k] != '\n',
    ensures
        line_length(s) == n,
{
    lemma_line_length(s);
    let m = line_length(s) as int;
    if m < n {
        assert(s[m] == '\n');
    }
    if n < m {
        assert(s[n] == '\n');
    }
}

/// The paths that a list file holds, one per line, behind byte order marks.
pub open spec fn listed_paths(contents: Seq<char>) -> Seq<Seq<char>> {
    paths_in(text::without_leading(contents, '\u{feff}'))
}

/// A list file holds one path per line: the lines are taken one after the
/// other, an empty line is no path, and any other line is its path, without
/// white space and quotes around it.
pub proof fn law_lists_hold_a_path_per_line(line: Seq<char>, rest: Seq<char>)
    requires
        forall|k: int| 0 <= k < line.len() ==> line[k] != '\n',
    ensures
        paths_in(line + seq!['\n'] + rest) == paths_in(line) + paths_in(rest),
        text::trimmed(line).len() == 0 ==> paths_in(line).len() == 0,
        line.len() > 0 && text::trimmed(line).len() > 0 ==> paths_in(line) == seq![
            text::without_around(text::trimmed(line), '"'),
        ],
        line.len() > 0 && !text::is_space(line[0]) && !text::is_space(line.last()) && line[0] != '"'
            && line.last() != '"' ==> paths_in(line) == seq![line],
{
    lemma_line_length_is(line, line.len() as int);
    assert(line.take(line.len() as int) =~= line);
    let whole = line + seq!['\n'] + rest;
    lemma_line_length_is(whole, line.len() as int);
    assert(whole.take(line.len() as int) =~= line);
    assert(whole.skip(line.len() as int + 1) =~= rest);
    assert(paths_in(Seq::<char>::empty()) =~= Seq::<Seq<char>>::empty());
    if line.len() == 0 {
        reveal_with_fuel(text::trimmed_start, 2);
        reveal_with_fuel(text::trimmed_end, 2);
        assert(text::trimmed(line).len() == 0);
        assert(paths_in(line) =~= Seq::<Seq<char>>::empty());
        assert(paths_in(whole) =~= paths_in(line) + paths_in(rest));
    } else {
        text::law_trimming_takes_white_space_off(line);
        if text::trimmed(line).len() == 0 {
            assert(paths_in(line) =~= Seq::<Seq<char>>::empty());
        } else {
            assert(paths_in(line) =~= seq![text::without_around(text::trimmed(line), '"')]);
        }
        assert(paths_in(whole) =~= paths_in(line) + paths_in(rest));
        if !text::is_space(line[0]) && !text::is_space(line.last()) && line[0] != '"' && line.last()
            != '"' {
            text::law_taking_a_character_off(line, '"');
        }
    }
}

/// [`listed_paths`], executable.
pub fn read_list(contents: &str) -> (list: Vec<String>)
    ensures
        text::texts(list@) == listed_paths(contents@),
{
    let chars = text::chars_of(contents);
    let size: usize = chars.len();
    let mut at: usize = 0;
    proof {
        assert(contents@.skip(0) =~= contents@);
    }
    while at < size && chars[at] == '\u{feff}'
        invariant
            at <= size,
            size == chars@.len(),
            chars@ == contents@,
            text::without_leading(contents@, '\u{feff}') == text::without_leading(
                contents@.skip(at as int),
                '\u{feff}',
            ),
        decreases size - at,
    {
        proof {
            assert(contents@.skip(at as int)[0] == contents@[at as int]);
            assert(contents@.skip(at as int).drop_first() =~= contents@.skip(at + 1));
        }
        at += 1;
    }
    proof {
        if at < size {
            assert(contents@.skip(at as int)[0] == contents@[at as int]);
        }
    }
    let mut list: Vec<String> = Vec::new();
    let ghost whole = paths_in(contents@.skip(at as int));
    proof {
        assert(text::texts(list@) =~= Seq::<Seq<char>>::empty());
        assert(whole =~= Seq::<Seq<char>>::empty() + whole);
    }
    while at < size
        invariant
            at <= size,
            size == chars@.len(),
            chars@ == contents@,
            whole == text::texts(list@) + paths_in(contents@.skip(at as int)),
        decreases size - at,
    {
        let ghost rest = contents@.skip(at as int);
        let mut end: usize = at;
        while end < size && chars[end] != '\n'
            invariant
                at <= end <= size,
                size == chars@.len(),
                chars@ == contents@,
                forall|k: int| at <= k < end ==> chars@[k] != '\n',
            decreases size - end,
        {
            end += 1;
        }
        proof {
            assert forall|k: int| 0 <= k < end - at implies rest[k] != '\n' by {
                assert(rest[k] == chars@[at + k]);
            }
            if end < size {
                assert(rest[end - at] == chars@[end as int]);
            }
            lemma_line_length_is(rest, end - at);
        }
        let line = vstd::slice::slice_subrange(&chars, at, end);
        let trimmed = text::trim(line);
        let ghost before = text::texts(list@);
        let next: usize = if end < size { end + 1 } else { end };
        proof {
            assert(line@ =~= rest.take(end - at));
            if end < size {
                assert(rest.skip(end - at + 1) =~= contents@.skip(next as int));
            } else {
                assert(contents@.skip(next as int) =~= Seq::<char>::empty());
            }
        }
        if trimmed.len() > 0 {
            let path = text::string_of(text::trim_char(trimmed.as_slice(), '"').as_slice());
            let ghost added = path@;
            list.push(path);
            proof {
                assert(text::texts(list@) =~= before.push(added));
                let more = paths_in(contents@.skip(next as int));
                assert(before + (seq![added] + more) =~= before.push(added) + more);
            }
        }
        at = next;
    }
    proof {
        assert(contents@.skip(at as int) =~= Seq::<char>::empty());
        assert(text::texts(list@) + Seq::<Seq<char>>::empty() =~= text::texts(list@));
    }
    list
}

/// Whether a text holds a wildcard.
pub open spec fn has_wildcard(s: Seq<char>) -> bool {
    s.contains('*') || s.contains('?')
}

/// [`has_wildcard`], executable.
fn contains_wildcard(s: &str) -> (yes: bool)
    ensures
        yes == has_wildcard(s@),
{
    text::contains_char(s, '*') || text::contains_char(s, '?')
}

/// How an input is found.
#[derive(Debug)]
pub enum Expansion {
    /// The input is a path.
    Path,
    /// The input is looked for: a directory, and a pattern for its names.
    Search(String, String),
}

/// How an input is found, by its text, its directory and its file name. A
/// single dot stands for everything in the current directory.
pub fn expansion(pattern: &str, parent: &Option<String>, name: &Option<String>) -> (found: Result<
    Expansion,
    CliError,
>)
    ensures
        ({
            let directory = if parent is Some && parent->0@.len() > 0 {
                parent->0@
            } else {
                "."@
            };
            if !has_wildcard(pattern@) && pattern@ != "."@ {
                found matches Ok(Expansion::Path)
            } else if pattern@ == "."@ {
                found matches Ok(Expansion::Search(parent, mask)) && parent@ == "."@ && mask@
                    == "*"@
            } else if name is None {
                found matches Err(error) && error_view(error) == (
                    USAGE_ERROR,
                    "Invalid input pattern"@,
                )
            } else if has_wildcard(directory) {
                found matches Err(error) && error_view(error) == (
                    USAGE_ERROR,
                    "Wildcards in directory components are not supported"@,
                )
            } else {
                found matches Ok(Expansion::Search(parent, mask)) && parent@ == directory && mask@
                    == name->0@
            }
        }),
{
    let here: bool = text::same_text(pattern, ".");
    if !contains_wildcard(pattern) && !here {
        return Ok(Expansion::Path);
    }
    if here {
        return Ok(Expansion::Search(".".to_owned(), "*".to_owned()));
    }
    let mut directory = ".".to_owned();
    if let Some(parent) = parent {
        if !parent.as_str().is_empty() {
            directory = parent.clone();
        }
    }
    match name {
        None => Err(usage("Invalid input pattern")),
        Some(mask) => {
            if contains_wildcard(directory.as_str()) {
                return Err(usage("Wildcards in directory components are not supported"));
            }
            Ok(Expansion::Search(directory, mask.clone()))
        },
    }
}

/// What the file system tells about a name in a directory.
#[derive(Debug)]
pub struct FoundName {
    pub path: String,
    pub name: String,
    pub is_reparse: bool,
    pub is_dir: bool,
}

/// A search for the inputs that a pattern names.
#[derive(Debug)]
pub struct InputSearch {
    pub mask: String,
    pub recursive: bool,
    /// The directories to list; the last comes first.
    pub pending: Vec<String>,
    pub found: Vec<String>,
}

/// The paths among the first `n` names that match.
pub open spec fn matching(names: Seq<FoundName>, mask: Seq<char>, n: int) -> Seq<Seq<char>>
    decreases n,
{
    if n <= 0 {
        Seq::empty()
    } else {
        let name = names[n - 1];
        let before = matching(names, mask, n - 1);
        if !name.is_reparse && wildcard::pattern_matches(mask, name.name@) {
            before.push(name.path@)
        } else {
            before
        }
    }
}

/// The directories among the first `n` names that are looked into: those that
/// do not match themselves.
pub open spec fn deeper(names: Seq<FoundName>, mask: Seq<char>, n: int) -> Seq<Seq<char>>
    decreases n,
{
    if n <= 0 {
        Seq::empty()
    } else {
        let name = names[n - 1];
        let before = deeper(names, mask, n - 1);
        if !name.is_reparse && !wildcard::pattern_matches(mask, name.name@) && name.is_dir {
            before.push(name.path@)
        } else {
            before
        }
    }
}

impl InputSearch {
    /// Begins to search a directory.
    pub fn new(directory: String, mask: String, recursive: bool) -> (search: InputSearch)
        ensures
            search.mask == mask,
            search.recursive == recursive,
            search.pending@ == seq![directory],
            search.found@.len() == 0,
    {
        let mut pending: Vec<String> = Vec::new();
        pending.push(directory);
        proof {
            assert(pending@ =~= seq![directory]);
        }
        InputSearch { mask, recursive, pending, found: Vec::new() }
    }

    /// The next directory to list.
    pub fn next_directory(&mut self) -> (next: Option<String>)
        ensures
            match next {
                Some(next) => {
                    &&& old(self).pending@.len() > 0
                    &&& next == old(self).pending@.last()
                    &&& final(self).pending@ == old(self).pending@.drop_last()
                },
                None => old(self).pending@.len() == 0 && final(self).pending@ == old(self).pending@,
            },
            *final(self) == (InputSearch { pending: final(self).pending, ..*old(self) }),
    {
        let next = self.pending.pop();
        proof {
            if old(self).pending@.len() > 0 {
                assert(self.pending@ =~= old(self).pending@.drop_last());
            }
        }
        next
    }

    /// Takes the names in a directory.
    pub fn add(&mut self, names: &Vec<FoundName>)
        ensures
            text::texts(final(self).found@) == text::texts(old(self).found@) + matching(
                names@,
                old(self).mask@,
                names@.len() as int,
            ),
            text::texts(final(self).pending@) == text::texts(old(self).pending@)
                + if old(self).recursive {
                deeper(names@, old(self).mask@, names@.len() as int)
            } else {
                Seq::empty()
            },
            final(self).mask == old(self).mask,
            final(self).recursive == old(self).recursive,
    {
        let ghost found_before = text::texts(self.found@);
        let ghost pending_before = text::texts(self.pending@);
        let mut i: usize = 0;
        proof {
            assert(found_before + Seq::<Seq<char>>::empty() =~= found_before);
            assert(pending_before + Seq::<Seq<char>>::empty() =~= pending_before);
        }
        while i < names.len()
            invariant
                i <= names@.len(),
                self.mask == old(self).mask,
                self.recursive == old(self).recursive,
                text::texts(self.found@) == found_before + matching(
                    names@,
                    self.mask@,
                    i as int,
                ),
                text::texts(self.pending@) == pending_before + if self.recursive {
                    deeper(names@, self.mask@, i as int)
                } else {
                    Seq::empty()
                },
            decreases names@.len() - i,
        {
            let name = &names[i];
            let ghost found = text::texts(self.found@);
            let ghost pending = text::texts(self.pending@);
            let ghost matched = matching(names@, self.mask@, i as int);
            let ghost below = deeper(names@, self.mask@, i as int);
            if !name.is_reparse {
                if wildcard::wildcard(self.mask.as_str(), name.name.as_str()) {
                    self.found.push(name.path.clone());
                    proof {
                        assert(text::texts(self.found@) =~= found.push(name.path@));
                        assert((found_before + matched).push(name.path@) =~= found_before
                            + matched.push(name.path@));
                    }
                } else if self.recursive && name.is_dir {
                    self.pending.push(name.path.clone());
                    proof {
                        assert(text::texts(self.pending@) =~= pending.push(name.path@));
                        assert((pending_before + below).push(name.path@) =~= pending_before
                            + below.push(name.path@));
                    }
                }
            }
            i += 1;
        }
    }

    /// The inputs that were found, in order. It is an error to find none.
    pub fn finish(self, pattern: &str) -> (found: Result<Vec<String>, CliError>)
        ensures
            match found {
                Ok(found) => self.found@.len() > 0 && exists|order: Seq<usize>| #[trigger]
                    is_path_order(text::texts(self.found@), order) && text::texts(found@)
                        == reordered(text::texts(self.found@), order),
                Err(error) => self.found@.len() == 0 && error_view(error) == (
                    FAILURE,
                    "No files match: "@ + pattern@,
                ),
            },
    {
        if self.found.len() == 0 {
            return Err((FAILURE, text::join("No files match: ", pattern)));
        }
        Ok(sort_paths(&self.found))
    }
}

/// Whether a path is that of a directory among the first `n` names, and no
/// link.
pub open spec fn is_directory_among(names: Seq<FoundName>, n: int, path: Seq<char>) -> bool {
    exists|i: int|
        0 <= i < n && !(#[trigger] names[i]).is_reparse && names[i].is_dir && names[i].path@
            == path
}

/// Whether a path is that of a name among the first `n` that matches, and no
/// link.
pub open spec fn is_match_among(
    names: Seq<FoundName>,
    mask: Seq<char>,
    n: int,
    path: Seq<char>,
) -> bool {
    exists|i: int|
        0 <= i < n && !(#[trigger] names[i]).is_reparse && wildcard::pattern_matches(
            mask,
            names[i].name@,
        ) && names[i].path@ == path
}

/// A search finds every name that matches and is no link, and nothing else. It
/// goes on in every directory that does not match.
pub proof fn law_search_finds_what_matches(names: Seq<FoundName>, mask: Seq<char>, n: int)
    requires
        0 <= n <= names.len(),
    ensures
        forall|i: int|
            0 <= i < n && !(#[trigger] names[i]).is_reparse && wildcard::pattern_matches(
                mask,
                names[i].name@,
            ) ==> matching(names, mask, n).contains(names[i].path@),
        forall|k: int|
            0 <= k < matching(names, mask, n).len() ==> is_match_among(
                names,
                mask,
                n,
                #[trigger] matching(names, mask, n)[k],
            ),
        forall|i: int|
            0 <= i < n && !(#[trigger] names[i]).is_reparse && names[i].is_dir
                && !wildcard::pattern_matches(mask, names[i].name@) ==> deeper(
                names,
                mask,
                n,
            ).contains(names[i].path@),
        forall|k: int|
            0 <= k < deeper(names, mask, n).len() ==> is_directory_among(
                names,
                n,
                #[trigger] deeper(names, mask, n)[k],
            ),
        (forall|i: int|
            0 <= i < n ==> !(#[trigger] names[i]).is_reparse && wildcard::pattern_matches(
                mask,
                names[i].name@,
            )) ==> matching(names, mask, n) == Seq::new(n as nat, |i: int| names[i].path@),
    decreases n,
{
    let found = matching(names, mask, n);
    let below = deeper(names, mask, n);
    if n > 0 {
        law_search_finds_what_matches(names, mask, n - 1);
        let found_before = matching(names, mask, n - 1);
        let below_before = deeper(names, mask, n - 1);
        let last = names[n - 1];
        assert forall|k: int| 0 <= k < found_before.len() implies found[k] == found_before[k] by {}
        assert forall|k: int| 0 <= k < below_before.len() implies below[k] == below_before[k] by {}
        assert forall|i: int|
            0 <= i < n && !(#[trigger] names[i]).is_reparse && wildcard::pattern_matches(
                mask,
                names[i].name@,
            ) implies found.contains(names[i].path@) by {
            if i < n - 1 {
                let k = choose|k: int|
                    0 <= k < found_before.len() && found_before[k] == names[i].path@;
                assert(found[k] == names[i].path@);
            } else {
                assert(found[found.len() - 1] == last.path@);
            }
        }
        assert forall|i: int|
            0 <= i < n && !(#[trigger] names[i]).is_reparse && names[i].is_dir
                && !wildcard::pattern_matches(mask, names[i].name@) implies below.contains(
            names[i].path@,
        ) by {
            if i < n - 1 {
                let k = choose|k: int|
                    0 <= k < below_before.len() && below_before[k] == names[i].path@;
                assert(below[k] == names[i].path@);
            } else {
                assert(below[below.len() - 1] == last.path@);
            }
        }
        assert forall|k: int| 0 <= k < found.len() implies is_match_among(
            names,
            mask,
            n,
            #[trigger] found[k],
        ) by {
            if k < found_before.len() {
                assert(found[k] == found_before[k]);
                assert(is_match_among(names, mask, n - 1, found_before[k]));
                let i = choose|i: int|
                    0 <= i < n - 1 && !(#[trigger] names[i]).is_reparse
                        && wildcard::pattern_matches(mask, names[i].name@) && names[i].path@
                        == found_before[k];
                assert(!names[i].is_reparse);
            } else {
                assert(!names[n - 1].is_reparse);
            }
        }
        assert forall|k: int| 0 <= k < below.len() implies is_directory_among(
            names,
            n,
            #[trigger] below[k],
        ) by {
            if k < below_before.len() {
                assert(below[k] == below_before[k]);
                assert(is_directory_among(names, n - 1, below_before[k]));
                let i = choose|i: int|
                    0 <= i < n - 1 && !(#[trigger] names[i]).is_reparse && names[i].is_dir
                        && names[i].path@ == below_before[k];
                assert(!names[i].is_reparse);
            } else {
                assert(!names[n - 1].is_reparse);
            }
        }
        if forall|i: int|
            0 <= i < n ==> !(#[trigger] names[i]).is_reparse && wildcard::pattern_matches(
                mask,
                names[i].name@,
            ) {
            assert(!names[n - 1].is_reparse);
            assert(found =~= Seq::new(n as nat, |i: int| names[i].path@));
        }
    } else {
        assert(found =~= Seq::new(n as nat, |i: int| names[i].path@));
    }
}

/// A path as it is ordered: by where it starts, then name by name.
pub open spec fn path_order_key(path: Seq<char>) -> Seq<char> {
    paths::sort_key(paths::compared(path))
}

/// The keys of paths.
pub open spec fn path_order_keys(list: Seq<Seq<char>>) -> Seq<Seq<char>> {
    Seq::new(list.len(), |i: int| path_order_key(list[i]))
}

/// Whether `order` is the order of paths.
pub open spec fn is_path_order(list: Seq<Seq<char>>, order: Seq<usize>) -> bool {
    order::covers(order, 0, list.len() as int) && order::in_order(path_order_keys(list), order)
}

/// Texts in another order.
pub open spec fn reordered(list: Seq<Seq<char>>, order: Seq<usize>) -> Seq<Seq<char>> {
    Seq::new(order.len(), |i: int| list[order[i] as int])
}

/// Sorts paths name by name.
pub fn sort_paths(list: &Vec<String>) -> (sorted: Vec<String>)
    ensures
        exists|order: Seq<usize>| #[trigger]
            is_path_order(text::texts(list@), order) && text::texts(sorted@) == reordered(
                text::texts(list@),
                order,
            ),
{
    let ghost views = text::texts(list@);
    let mut keys: Vec<Vec<char>> = Vec::new();
    let mut i: usize = 0;
    while i < list.len()
        invariant
            i <= list@.len(),
            keys@.len() == i,
            forall|k: int| 0 <= k < i ==> (#[trigger] keys@[k])@ == path_order_key(list@[k]@),
        decreases list@.len() - i,
    {
        let path = paths::compared_path(list[i].as_str());
        keys.push(path.key());
        i += 1;
    }
    let order = order::sort_order(&keys);
    proof {
        assert(order::keys_of(keys@) =~= path_order_keys(views));
    }
    let mut sorted: Vec<String> = Vec::new();
    let mut at: usize = 0;
    while at < order.len()
        invariant
            at <= order@.len(),
            order@.len() == list@.len(),
            views == text::texts(list@),
            is_path_order(views, order@),
            text::texts(sorted@) == reordered(views, order@).take(at as int),
        decreases order@.len() - at,
    {
        let place: usize = order[at];
        let ghost before = text::texts(sorted@);
        sorted.push(list[place].clone());
        at += 1;
        proof {
            let whole = reordered(views, order@);
            assert(text::texts(sorted@) =~= before.push(views[place as int]));
            assert(whole.take(at as int) =~= whole.take(at - 1).push(whole[at - 1]));
        }
    }
    proof {
        let whole = reordered(views, order@);
        assert(whole.take(at as int) =~= whole);
    }
    sorted
}

/// Neighbours that are the same path stand once, as the first is written.
pub open spec fn without_repeats(list: Seq<Seq<char>>, n: int) -> Seq<Seq<char>>
    decreases n,
{
    if n <= 0 {
        Seq::empty()
    } else {
        let before = without_repeats(list, n - 1);
        if before.len() > 0 && paths::compared(before.last()) == paths::compared(list[n - 1]) {
            before
        } else {
            before.push(list[n - 1])
        }
    }
}

/// [`without_repeats`], executable.
pub fn drop_repeats(list: &Vec<String>) -> (kept: Vec<String>)
    ensures
        text::texts(kept@) == without_repeats(text::texts(list@), list@.len() as int),
{
    let ghost views = text::texts(list@);
    let mut kept: Vec<String> = Vec::new();
    let mut i: usize = 0;
    proof {
        assert(text::texts(kept@) =~= Seq::<Seq<char>>::empty());
    }
    while i < list.len()
        invariant
            i <= list@.len(),
            views == text::texts(list@),
            text::texts(kept@) == without_repeats(views, i as int),
        decreases list@.len() - i,
    {
        let count: usize = kept.len();
        let ghost before = text::texts(kept@);
        proof {
            assert(views[i as int] == list@[i as int]@);
            if count > 0 {
                assert(before.last() == kept@[count - 1]@);
            }
        }
        let repeated: bool = count > 0 && paths::compared_path(kept[count - 1].as_str()).same(
            &paths::compared_path(list[i].as_str()),
        );
        if !repeated {
            kept.push(list[i].clone());
            proof {
                assert(text::texts(kept@) =~= before.push(views[i as int]));
            }
        }
        i += 1;
    }
    kept
}

/// Whether an input before `i` has the same file name, whatever its case.
pub open spec fn name_repeats(names: Seq<Option<Seq<char>>>, i: int) -> bool {
    exists|j: int|
        0 <= j < i && (#[trigger] names[j]) is Some && text::unicode_lower(names[j]->0)
            == text::unicode_lower(names[i]->0)
}

/// What is wrong with an input: it has no file name, or that of another.
pub open spec fn input_error(names: Seq<Option<Seq<char>>>, i: int) -> Option<(i32, Seq<char>)> {
    if names[i] is None {
        Some((USAGE_ERROR, "Input needs a file name"@))
    } else if name_repeats(names, i) {
        Some(
            (
                USAGE_ERROR,
                "Input files have duplicate base names; select their common parent directory"@,
            ),
        )
    } else {
        None
    }
}

/// Only repeats are dropped: where no two neighbours are the same path the
/// list stays as it is, and a path that is kept is one of the list.
pub proof fn law_only_repeats_are_dropped(list: Seq<Seq<char>>, n: int)
    requires
        0 <= n <= list.len(),
    ensures
        forall|k: int|
            0 <= k < without_repeats(list, n).len() ==> list.contains(
                #[trigger] without_repeats(list, n)[k],
            ),
        n > 0 ==> without_repeats(list, n).len() > 0 && paths::compared(
            without_repeats(list, n).last(),
        ) == paths::compared(list[n - 1]),
        (forall|i: int, j: int|
            0 <= i < j < n ==> paths::compared(#[trigger] list[i]) != paths::compared(
                #[trigger] list[j],
            )) ==> without_repeats(list, n) == list.take(n),
    decreases n,
{
    let now = without_repeats(list, n);
    if n > 0 {
        law_only_repeats_are_dropped(list, n - 1);
        let before = without_repeats(list, n - 1);
        assert forall|k: int| 0 <= k < now.len() implies list.contains(#[trigger] now[k]) by {
            if k < before.len() {
                assert(now[k] == before[k]);
            } else {
                assert(list[n - 1] == now[k]);
            }
        }
        if forall|i: int, j: int|
            0 <= i < j < n ==> paths::compared(#[trigger] list[i]) != paths::compared(
                #[trigger] list[j],
            ) {
            assert(before == list.take(n - 1));
            if n > 1 {
                assert(before.last() == list[n - 2]);
                assert(paths::compared(list[n - 2]) != paths::compared(list[n - 1]));
            }
            assert(now =~= list.take(n));
        }
    } else {
        assert(now =~= list.take(0));
    }
}

/// Inputs are refused exactly when one has no file name, or that of an earlier
/// one in any case.
pub proof fn law_inputs_need_names_of_their_own(names: Seq<Option<Seq<char>>>, i: int, j: int)
    requires
        0 <= j < i < names.len(),
    ensures
        names[i] is None ==> input_error(names, i) is Some,
        names[i] is Some && names[j] is Some && text::unicode_lower(names[i]->0)
            == text::unicode_lower(names[j]->0) ==> input_error(names, i) is Some,
        names[i] is Some && (forall|k: int|
            0 <= k < i && (#[trigger] names[k]) is Some ==> text::unicode_lower(names[k]->0)
                != text::unicode_lower(names[i]->0)) ==> input_error(names, i) is None,
        input_error(names, i) is Some ==> (input_error(names, i)->0).0 == 7,
{
}

/// Checks the file names of the inputs: each has one, and no two share one.
pub fn check_inputs(names: &Vec<Option<String>>) -> (checked: Result<(), CliError>)
    ensures
        ({
            let views = zip_names::option_texts(names@);
            match checked {
                Ok(_) => forall|i: int|
                    0 <= i < views.len() ==> #[trigger] input_error(views, i) is None,
                Err(error) => exists|i: int|
                    0 <= i < views.len() && #[trigger] input_error(views, i) == Some(
                        error_view(error),
                    ) && forall|k: int|
                        0 <= k < i ==> #[trigger] input_error(views, k) is None,
            }
        }),
{
    let ghost views = zip_names::option_texts(names@);
    let mut lowered: Vec<Vec<char>> = Vec::new();
    let mut i: usize = 0;
    while i < names.len()
        invariant
            i <= names@.len(),
            views == zip_names::option_texts(names@),
            lowered@.len() == i,
            forall|k: int| 0 <= k < i ==> #[trigger] input_error(views, k) is None,
            forall|k: int|
                0 <= k < i ==> (#[trigger] views[k]) is Some && lowered@[k]@
                    == text::unicode_lower(views[k]->0),
        decreases names@.len() - i,
    {
        proof {
            assert(views[i as int] == text::option_text(names@[i as int]));
        }
        let name: &String = match &names[i] {
            Some(name) => name,
            None => {
                proof {
                    assert(input_error(views, i as int) is Some);
                }
                return Err(usage("Input needs a file name"));
            },
        };
        let key = text::chars_of(text::unicode_lower_text(name.as_str()).as_str());
        let mut j: usize = 0;
        while j < i
            invariant
                j <= i,
                i < names@.len(),
                views == zip_names::option_texts(names@),
                views[i as int] is Some,
                key@ == text::unicode_lower(views[i as int]->0),
                lowered@.len() == i,
                forall|k: int| 0 <= k < i ==> #[trigger] input_error(views, k) is None,
                forall|k: int|
                    0 <= k < i ==> (#[trigger] views[k]) is Some && lowered@[k]@
                        == text::unicode_lower(views[k]->0),
                forall|k: int|
                    0 <= k < j ==> text::unicode_lower((#[trigger] views[k])->0) != key@,
            decreases i - j,
        {
            if order::same_chars(lowered[j].as_slice(), key.as_slice()) {
                proof {
                    assert(views[j as int] is Some);
                    assert(name_repeats(views, i as int));
                    assert(input_error(views, i as int) is Some);
                }
                return Err(
                    usage(
                        "Input files have duplicate base names; select their common parent directory",
                    ),
                );
            }
            proof {
                assert(views[j as int] is Some);
            }
            j += 1;
        }
        proof {
            assert(!name_repeats(views, i as int));
        }
        lowered.push(key);
        i += 1;
    }
    Ok(())
}

/// The inputs of a new archive; without any, everything here.
pub fn inputs_or_all(files: Vec<String>) -> (inputs: Vec<String>)
    ensures
        if files@.len() > 0 {
            inputs == files
        } else {
            text::texts(inputs@) == seq!["*"@]
        },
{
    if files.len() > 0 {
        return files;
    }
    let mut inputs: Vec<String> = Vec::new();
    inputs.push("*".to_owned());
    proof {
        assert(text::texts(inputs@) =~= seq!["*"@]);
    }
    inputs
}

/// Refuses to create an archive that is there already.
pub fn check_new_archive(archive_exists: bool, first_volume_exists: bool) -> (checked: Result<
    (),
    CliError,
>)
    ensures
        match checked {
            Ok(_) => !archive_exists && !first_volume_exists,
            Err(error) => (archive_exists || first_volume_exists) && error_view(error) == (
                FAILURE,
                "Archive already exists. Updating existing archives is not supported; choose a new output path."@,
            ),
        },
{
    if archive_exists || first_volume_exists {
        return Err(
            failure(
                "Archive already exists. Updating existing archives is not supported; choose a new output path.",
            ),
        );
    }
    Ok(())
}

// ---------------------------------------------------------------------------
// Entries
// ---------------------------------------------------------------------------

/// Whether a filter selects an entry: as a pattern for its path, for its name
/// where names are searched, or as a path above it. A path that ends in two
/// dots has no name.
pub open spec fn filter_selects(
    filter: Seq<char>,
    recursive: bool,
    display_path: Seq<char>,
    path: Seq<Seq<char>>,
) -> bool {
    ||| wildcard::pattern_matches(filter, display_path)
    ||| recursive && wildcard::pattern_matches(
        filter,
        match paths::file_name(path) {
            Some(name) => name,
            None => Seq::empty(),
        },
    )
    ||| paths::is_relative(filter) && paths::lies_below(
        paths::plain_names(path, false),
        paths::plain_names(paths::components(filter), false),
    )
}

/// Whether an entry is selected by one of the filters, or there are none.
pub open spec fn is_selected(
    filters: Seq<String>,
    recursive: bool,
    display_path: Seq<char>,
    path: Seq<Seq<char>>,
) -> bool {
    filters.len() == 0 || exists|i: int|
        0 <= i < filters.len() && filter_selects(
            (#[trigger] filters[i])@,
            recursive,
            display_path,
            path,
        )
}

/// [`is_selected`], executable.
pub fn selects_entry(filters: &Vec<String>, recursive: bool, entry: &ArchiveEntry) -> (yes: bool)
    ensures
        yes == is_selected(
            filters@,
            recursive,
            entry.display_path@,
            text::texts(entry.path@),
        ),
{
    if filters.len() == 0 {
        return true;
    }
    let names = paths::plain_names_of(&entry.path, false);
    let name: String = paths::file_name_of(&names);
    let mut i: usize = 0;
    while i < filters.len()
        invariant
            i <= filters@.len(),
            filters@.len() > 0,
            text::texts(names@) == paths::plain_names(text::texts(entry.path@), false),
            name@ == match paths::file_name(text::texts(entry.path@)) {
                Some(name) => name,
                None => Seq::empty(),
            },
            forall|k: int|
                0 <= k < i ==> !filter_selects(
                    (#[trigger] filters@[k])@,
                    recursive,
                    entry.display_path@,
                    text::texts(entry.path@),
                ),
        decreases filters@.len() - i,
    {
        let filter: &str = filters[i].as_str();
        let mut found: bool = wildcard::wildcard(filter, entry.display_path.as_str());
        if !found && recursive {
            found = wildcard::wildcard(filter, name.as_str());
        }
        if !found && paths::counts_from_no_root(filter) {
            let above = paths::plain_names_of(&paths::split_components(filter), false);
            found = paths::path_starts_with(&names, &above);
        }
        if found {
            proof {
                assert(filter_selects(
                    filters@[i as int]@,
                    recursive,
                    entry.display_path@,
                    text::texts(entry.path@),
                ));
            }
            return true;
        }
        i += 1;
    }
    false
}

/// The paths of the first `n` entries that are selected.
pub open spec fn selected_paths(
    entries: Seq<ArchiveEntry>,
    filters: Seq<String>,
    recursive: bool,
    n: int,
) -> Seq<Seq<Seq<char>>>
    decreases n,
{
    if n <= 0 {
        Seq::empty()
    } else {
        let entry = entries[n - 1];
        let path = text::texts(entry.path@);
        let before = selected_paths(entries, filters, recursive, n - 1);
        if is_selected(filters, recursive, entry.display_path@, path) {
            before.push(path)
        } else {
            before
        }
    }
}

/// What is extracted: everything, or the entries that the filters select. It
/// is an error when they select none.
pub fn extract_selection(entries: &Vec<ArchiveEntry>, filters: &Vec<String>, recursive: bool) -> (
    selection: Result<ExtractSelection, CliError>)
    ensures
        ({
            let chosen = selected_paths(entries@, filters@, recursive, entries@.len() as int);
            if filters@.len() == 0 {
                selection matches Ok(selection) && selection@ == options::SelectionView::All
            } else if chosen.len() == 0 {
                selection matches Err(error) && error_view(error) == (
                    FAILURE,
                    "No archive entries match the file filters"@,
                )
            } else {
                selection matches Ok(selection) && selection@ == options::SelectionView::Paths(
                    chosen,
                )
            }
        }),
{
    if filters.len() == 0 {
        return Ok(ExtractSelection::All);
    }
    let mut chosen: Vec<Vec<String>> = Vec::new();
    let mut i: usize = 0;
    while i < entries.len()
        invariant
            i <= entries@.len(),
            Seq::new(chosen@.len(), |k: int| text::texts(chosen@[k]@)) == selected_paths(
                entries@,
                filters@,
                recursive,
                i as int,
            ),
        decreases entries@.len() - i,
    {
        if selects_entry(filters, recursive, &entries[i]) {
            let ghost before = Seq::new(chosen@.len(), |k: int| text::texts(chosen@[k]@));
            let path = paths::copy_path(&entries[i].path);
            let ghost added = text::texts(path@);
            chosen.push(path);
            proof {
                assert(Seq::new(chosen@.len(), |k: int| text::texts(chosen@[k]@)) =~= before.push(
                    added,
                ));
            }
        }
        i += 1;
    }
    proof {
        assert(Seq::new(chosen@.len(), |k: int| text::texts(chosen@[k]@)).len() == chosen@.len());
    }
    if chosen.len() == 0 {
        return Err(failure("No archive entries match the file filters"));
    }
    Ok(ExtractSelection::Paths(chosen))
}

/// What filters select is complete: the path of every entry that one of them
/// selects is in, and no other. Without filters every entry is selected.
pub proof fn law_filters_select_every_match(
    entries: Seq<ArchiveEntry>,
    filters: Seq<String>,
    recursive: bool,
    n: int,
)
    requires
        0 <= n <= entries.len(),
    ensures
        forall|i: int, f: int|
            0 <= i < n && 0 <= f < filters.len() && filter_selects(
                (#[trigger] filters[f])@,
                recursive,
                (#[trigger] entries[i]).display_path@,
                text::texts(entries[i].path@),
            ) ==> selected_paths(entries, filters, recursive, n).contains(
                text::texts(entries[i].path@),
            ),
        forall|k: int|
            0 <= k < selected_paths(entries, filters, recursive, n).len() ==> exists|i: int|
                0 <= i < n && text::texts((#[trigger] entries[i]).path@)
                    == #[trigger] selected_paths(entries, filters, recursive, n)[k] && is_selected(
                    filters,
                    recursive,
                    entries[i].display_path@,
                    text::texts(entries[i].path@),
                ),
        filters.len() == 0 ==> selected_paths(entries, filters, recursive, n) == Seq::new(
            n as nat,
            |i: int| text::texts(entries[i].path@),
        ),
    decreases n,
{
    let now = selected_paths(entries, filters, recursive, n);
    if n > 0 {
        law_filters_select_every_match(entries, filters, recursive, n - 1);
        let before = selected_paths(entries, filters, recursive, n - 1);
        assert forall|k: int| 0 <= k < before.len() implies now[k] == before[k] by {}
        assert forall|i: int, f: int|
            0 <= i < n && 0 <= f < filters.len() && filter_selects(
                (#[trigger] filters[f])@,
                recursive,
                (#[trigger] entries[i]).display_path@,
                text::texts(entries[i].path@),
            ) implies now.contains(text::texts(entries[i].path@)) by {
            if i < n - 1 {
                let k = choose|k: int|
                    0 <= k < before.len() && before[k] == text::texts(entries[i].path@);
                assert(now[k] == before[k]);
            } else {
                assert(now[now.len() - 1] == text::texts(entries[i].path@));
            }
        }
        assert forall|k: int| 0 <= k < now.len() implies exists|i: int|
            0 <= i < n && text::texts((#[trigger] entries[i]).path@) == #[trigger] now[k]
                && is_selected(
                filters,
                recursive,
                entries[i].display_path@,
                text::texts(entries[i].path@),
            ) by {
            if k < before.len() {
                assert(now[k] == before[k]);
                let i = choose|i: int|
                    0 <= i < n - 1 && text::texts((#[trigger] entries[i]).path@) == before[k]
                        && is_selected(
                        filters,
                        recursive,
                        entries[i].display_path@,
                        text::texts(entries[i].path@),
                    );
                assert(text::texts(entries[i].path@) == now[k]);
            } else {
                assert(text::texts(entries[n - 1].path@) == now[k]);
            }
        }
        if filters.len() == 0 {
            assert(now =~= Seq::new(n as nat, |i: int| text::texts(entries[i].path@)));
        }
    } else {
        assert(now =~= Seq::new(n as nat, |i: int| text::texts(entries[i].path@)));
    }
}

/// A filter selects an entry by a pattern for its whole path; by a pattern
/// for its name, where names are searched; and by a path above it, which
/// selects everything below.
pub proof fn law_filters_select_by_pattern_name_and_path(
    filter: Seq<char>,
    recursive: bool,
    display_path: Seq<char>,
    path: Seq<Seq<char>>,
)
    ensures
        wildcard::pattern_matches(filter, display_path) ==> filter_selects(
            filter,
            recursive,
            display_path,
            path,
        ),
        recursive && path.len() > 0 && paths::file_name(path) == Some(path.last())
            && wildcard::pattern_matches(filter, path.last()) ==> filter_selects(
            filter,
            recursive,
            display_path,
            path,
        ),
        paths::is_relative(filter) && path.len() > 0 && path[0] != "."@ && paths::without_dots(
            path,
        ) == path && paths::components(filter).len() > 0 && paths::without_dots(
            paths::components(filter),
        ) == paths::components(filter) && paths::components(filter)[0] != "."@
            && paths::components(filter).is_prefix_of(path) ==> filter_selects(
            filter,
            recursive,
            display_path,
            path,
        ),
        !recursive && !wildcard::pattern_matches(filter, display_path) && !paths::is_relative(
            filter,
        ) ==> !filter_selects(filter, recursive, display_path, path),
{
}

/// Whether files are extracted without their directories.
pub fn flattens(command: &str) -> (yes: bool)
    ensures
        yes == (command@ == "e"@),
{
    text::same_text(command, "e")
}

// ---------------------------------------------------------------------------
// Output
// ---------------------------------------------------------------------------

/// A size, or zero where it is unknown.
pub open spec fn size_or_zero(size: Option<u64>) -> u64 {
    match size {
        Some(size) => size,
        None => 0,
    }
}

/// A number with spaces before it, up to twelve characters.
pub open spec fn padded(n: u64) -> Seq<char> {
    let digits = text::decimal(n as nat);
    Seq::new((if digits.len() < 12 {
        12 - digits.len()
    } else {
        0
    }) as nat, |i: int| ' ') + digits
}

/// [`padded`], executable.
fn padded_text(n: u64) -> (out: String)
    ensures
        out@ == padded(n),
{
    let digits = text::decimal_text(n);
    let length: usize = digits.as_str().unicode_len();
    let mut out = String::new();
    let mut i: usize = length;
    proof {
        assert(out@ =~= Seq::new(0, |i: int| ' '));
    }
    while i < 12
        invariant
            length <= i,
            length < 12 ==> i <= 12,
            length >= 12 ==> i == length,
            out@ == Seq::new((i - length) as nat, |i: int| ' '),
        decreases 12 - i,
    {
        out.push(' ');
        i += 1;
        proof {
            assert(out@ =~= Seq::new((i - length) as nat, |i: int| ' '));
        }
    }
    out.append(digits.as_str());
    out
}

/// The lines of an entry in a listing.
pub open spec fn entry_lines(entry: ArchiveEntry, technical: bool) -> Seq<char> {
    let is_dir = entry.kind == ArchiveEntryKind::Directory;
    if technical {
        "Path = "@ + entry.display_path@ + "\nSize = "@ + text::decimal(
            size_or_zero(entry.size) as nat,
        ) + "\nPacked Size = "@ + text::decimal(size_or_zero(entry.compressed_size) as nat)
            + "\nFolder = "@ + if is_dir {
            "+"@
        } else {
            "-"@
        } + "\nEncrypted = "@ + if entry.encrypted {
            "+"@
        } else {
            "-"@
        } + "\n"@
    } else {
        padded(size_or_zero(entry.size)) + "  "@ + if is_dir {
            "D"@
        } else {
            "F"@
        } + "  "@ + entry.display_path@
    }
}

/// [`entry_lines`], executable.
pub fn listing_lines(entry: &ArchiveEntry, technical: bool) -> (lines: String)
    ensures
        lines@ == entry_lines(*entry, technical),
{
    let is_dir: bool = entry.kind == ArchiveEntryKind::Directory;
    let size: u64 = match entry.size {
        Some(size) => size,
        None => 0,
    };
    let packed: u64 = match entry.compressed_size {
        Some(size) => size,
        None => 0,
    };
    if technical {
        let mut lines = text::join("Path = ", entry.display_path.as_str());
        lines.append("\nSize = ");
        lines.append(text::decimal_text(size).as_str());
        lines.append("\nPacked Size = ");
        lines.append(text::decimal_text(packed).as_str());
        lines.append("\nFolder = ");
        lines.append(if is_dir { "+" } else { "-" });
        lines.append("\nEncrypted = ");
        lines.append(if entry.encrypted { "+" } else { "-" });
        lines.append("\n");
        lines
    } else {
        let mut lines = padded_text(size);
        lines.append("  ");
        lines.append(if is_dir { "D" } else { "F" });
        lines.append("  ");
        lines.append(entry.display_path.as_str());
        lines
    }
}

/// A size in a column is right-aligned: the digits at the end, and nothing but
/// spaces before them, to at least twelve characters.
pub proof fn law_sizes_are_aligned(n: u64)
    ensures
        padded(n).len() >= 12,
        text::decimal(n as nat).len() <= padded(n).len(),
        padded(n).skip(padded(n).len() - text::decimal(n as nat).len()) == text::decimal(n as nat),
        forall|k: int|
            0 <= k < padded(n).len() - text::decimal(n as nat).len() ==> padded(n)[k] == ' ',
        text::decimal(n as nat).len() >= 12 ==> padded(n) == text::decimal(n as nat),
{
    let digits = text::decimal(n as nat);
    assert(padded(n).skip(padded(n).len() - digits.len()) =~= digits);
    if digits.len() >= 12 {
        assert(padded(n) =~= digits);
    }
}

/// The line of an entry shows its size, whether it is a directory or a file,
/// and its path.
pub proof fn law_line_of_an_entry(entry: ArchiveEntry)
    ensures
        entry.kind == ArchiveEntryKind::Directory ==> entry_lines(entry, false) == padded(
            match entry.size {
                Some(size) => size,
                None => 0,
            },
        ) + "  "@ + "D"@ + "  "@ + entry.display_path@,
        entry.kind == ArchiveEntryKind::File ==> entry_lines(entry, false) == padded(
            match entry.size {
                Some(size) => size,
                None => 0,
            },
        ) + "  "@ + "F"@ + "  "@ + entry.display_path@,
{
}

/// The lines of an entry in a technical listing: a plus where it is a
/// directory or encrypted, and a minus where it is not.
pub proof fn law_technical_lines_of_an_entry(entry: ArchiveEntry)
    ensures
        entry_lines(entry, true) == "Path = "@ + entry.display_path@ + "\nSize = "@ + text::decimal(
            match entry.size {
                Some(size) => size as nat,
                None => 0,
            },
        ) + "\nPacked Size = "@ + text::decimal(
            match entry.compressed_size {
                Some(size) => size as nat,
                None => 0,
            },
        ) + "\nFolder = "@ + (match entry.kind {
            ArchiveEntryKind::Directory => "+"@,
            ArchiveEntryKind::File => "-"@,
        }) + "\nEncrypted = "@ + (if entry.encrypted {
            "+"@
        } else {
            "-"@
        }) + "\n"@,
{
}

/// The lines at the end of an operation.
pub fn summary_lines(summary: &OperationSummary) -> (lines: String)
    ensures
        lines@ == "Files: "@ + text::decimal(summary.entries_processed as nat) + "\nSize: "@
            + text::decimal(summary.bytes_processed as nat) + "\nSkipped: "@ + text::decimal(
            summary.entries_skipped as nat,
        ),
{
    let mut lines = text::join("Files: ", text::decimal_text(summary.entries_processed).as_str());
    lines.append("\nSize: ");
    lines.append(text::decimal_text(summary.bytes_processed).as_str());
    lines.append("\nSkipped: ");
    lines.append(text::decimal_text(summary.entries_skipped).as_str());
    lines
}

/// The exit code of an operation that succeeded.
pub fn exit_code(has_warning: bool) -> (code: i32)
    ensures
        code == if has_warning {
            WARNING
        } else {
            0
        },
{
    if has_warning {
        WARNING
    } else {
        0
    }
}

/// What an answer to the question about an existing file stands for.
pub open spec fn answer_choice(answer: Seq<char>) -> ConflictChoice {
    let lower = text::lower(text::trimmed(answer));
    if lower == "y"@ || lower == "yes"@ {
        ConflictChoice::Overwrite
    } else if lower == "n"@ || lower == "no"@ {
        ConflictChoice::Skip
    } else if lower == "a"@ {
        ConflictChoice::OverwriteAll
    } else if lower == "s"@ {
        ConflictChoice::SkipAll
    } else {
        ConflictChoice::Cancel
    }
}

/// [`answer_choice`], executable.
pub fn conflict_answer(answer: &str) -> (choice: ConflictChoice)
    ensures
        choice == answer_choice(answer@),
{
    let chars = text::chars_of(answer);
    let trimmed = text::string_of(text::trim(chars.as_slice()).as_slice());
    let lower = text::lower_text(trimmed.as_str());
    let lower: &str = lower.as_str();
    if text::same_text(lower, "y") || text::same_text(lower, "yes") {
        ConflictChoice::Overwrite
    } else if text::same_text(lower, "n") || text::same_text(lower, "no") {
        ConflictChoice::Skip
    } else if text::same_text(lower, "a") {
        ConflictChoice::OverwriteAll
    } else if text::same_text(lower, "s") {
        ConflictChoice::SkipAll
    } else {
        ConflictChoice::Cancel
    }
}

/// Only `y` and `yes` overwrite a file, only `a` overwrites all, `n` and `no`
/// skip one, `s` skips all, and anything else cancels. White space around the
/// answer and its case do not matter.
pub proof fn law_answers_mean_what_they_say(answer: Seq<char>)
    ensures
        answer_choice(answer) == ConflictChoice::Overwrite <==> text::lower(text::trimmed(answer))
            == "y"@ || text::lower(text::trimmed(answer)) == "yes"@,
        answer_choice(answer) == ConflictChoice::OverwriteAll <==> text::lower(
            text::trimmed(answer),
        ) == "a"@,
        answer_choice(answer) == ConflictChoice::Skip <==> text::lower(text::trimmed(answer))
            == "n"@ || text::lower(text::trimmed(answer)) == "no"@,
        answer_choice(answer) == ConflictChoice::SkipAll <==> text::lower(text::trimmed(answer))
            == "s"@,
{
    reveal_strlit("y");
    reveal_strlit("yes");
    reveal_strlit("n");
    reveal_strlit("no");
    reveal_strlit("a");
    reveal_strlit("s");
    assert("y"@[0] == 'y' && "yes"@[0] == 'y' && "n"@[0] == 'n' && "no"@[0] == 'n' && "a"@[0] == 'a'
        && "s"@[0] == 's');
}

/// A text holds a wildcard exactly when one of its characters is `*` or `?`.
pub proof fn law_wildcards_are_stars_and_question_marks(s: Seq<char>, k: int)
    ensures
        0 <= k < s.len() && (s[k] == '*' || s[k] == '?') ==> has_wildcard(s),
        (forall|i: int| 0 <= i < s.len() ==> s[i] != '*' && s[i] != '?') ==> !has_wildcard(s),
{
    if 0 <= k < s.len() {
        assert(s.contains(s[k]));
    }
}

} // verus!
