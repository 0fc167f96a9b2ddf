//! Carrying the origin of a downloaded archive over to the files that are
//! extracted from it.

use vstd::prelude::*;
use vstd::string::*;
use crate::error::{ArchiveError, ArchiveResult, ErrorView};
use crate::names;
use crate::text;

verus! {

/// The contents of an archive's origin stream, where it has one.
#[derive(Debug)]
pub struct ZoneIdentifier {
    pub data: Option<Vec<u8>>,
}

/// The origin over sequences.
pub open spec fn origin(zone: ZoneIdentifier) -> Option<Seq<u8>> {
    match zone.data {
        Some(data) => Some(data@),
        None => None,
    }
}

/// The largest origin stream that is read.
pub const MAX_ORIGIN_BYTES: usize = 65536;

/// The path of a file's origin stream.
pub fn stream_path(path: &str) -> (stream: String)
    ensures
        stream@ == path@ + ":Zone.Identifier"@,
{
    text::join(path, ":Zone.Identifier")
}

/// Why a file operation on an origin stream failed.
#[derive(Debug)]
pub struct StreamError {
    pub not_found: bool,
    /// The system's own error number.
    pub os_error: Option<i32>,
    pub message: String,
}

/// Whether an error says that the file system has no such streams.
pub open spec fn is_unsupported(os_error: Option<i32>) -> bool {
    os_error == Some(1i32) || os_error == Some(50i32) || os_error == Some(123i32)
}

/// [`is_unsupported`], executable.
fn unsupported(error: &StreamError) -> (yes: bool)
    ensures
        yes == is_unsupported(error.os_error),
{
    match error.os_error {
        Some(number) => number == 1 || number == 50 || number == 123,
        None => false,
    }
}

/// What opening and reading an origin stream gave. At most one byte more than
/// the limit is read.
#[derive(Debug)]
pub enum OriginRead {
    NotOpened(StreamError),
    ReadFailed(String),
    Read(Vec<u8>),
}

/// The extensions of files that carry an origin: programs and scripts,
/// archives and disk images, and documents.
pub open spec fn origin_extensions() -> Seq<Seq<char>> {
    seq![
        "exe"@,
        "com"@,
        "msi"@,
        "scr"@,
        "bat"@,
        "cmd"@,
        "ps1"@,
        "pif"@,
        "lnk"@,
        "zip"@,
        "zipx"@,
        "rar"@,
        "7z"@,
        "alz"@,
        "egg"@,
        "cab"@,
        "bh"@,
        "iso"@,
        "img"@,
        "isz"@,
        "udf"@,
        "wim"@,
        "bin"@,
        "i00"@,
        "js"@,
        "jse"@,
        "vbs"@,
        "vbe"@,
        "wsf"@,
        "url"@,
        "reg"@,
        "docx"@,
        "doc"@,
        "xls"@,
        "xlsx"@,
        "ppt"@,
        "pptx"@,
        "hwp"@,
        "hwpx"@,
        "wiz"@,
    ]
}

/// [`origin_extensions`], executable.
fn origin_extension_list() -> (list: Vec<&'static str>)
    ensures
        list@.len() == origin_extensions().len(),
        forall|i: int| 0 <= i < list@.len() ==> (#[trigger] list@[i])@ == origin_extensions()[i],
{
    let list: Vec<&'static str> = vec![
        "exe",
        "com",
        "msi",
        "scr",
        "bat",
        "cmd",
        "ps1",
        "pif",
        "lnk",
        "zip",
        "zipx",
        "rar",
        "7z",
        "alz",
        "egg",
        "cab",
        "bh",
        "iso",
        "img",
        "isz",
        "udf",
        "wim",
        "bin",
        "i00",
        "js",
        "jse",
        "vbs",
        "vbe",
        "wsf",
        "url",
        "reg",
        "docx",
        "doc",
        "xls",
        "xlsx",
        "ppt",
        "pptx",
        "hwp",
        "hwpx",
        "wiz",
    ];
    list
}

/// The extension of a file name in lower case.
pub open spec fn lower_extension(name: Seq<char>) -> Seq<char> {
    match names::extension(name) {
        Some(extension) => text::lower(extension),
        None => Seq::empty(),
    }
}

/// Whether files with such a name carry an origin.
pub open spec fn carries_origin(name: Seq<char>) -> bool {
    origin_extensions().contains(lower_extension(name))
}

/// [`carries_origin`], executable.
pub fn file_carries_origin(name: &str) -> (yes: bool)
    ensures
        yes == carries_origin(name@),
{
    let extension: String = match names::extension_of(name) {
        Some(extension) => text::lower_text(extension.as_str()),
        None => String::new(),
    };
    let list: Vec<&'static str> = origin_extension_list();
    let mut i: usize = 0;
    while i < list.len()
        invariant
            i <= list@.len(),
            extension@ == lower_extension(name@),
            list@.len() == origin_extensions().len(),
            forall|k: int|
                0 <= k < list@.len() ==> (#[trigger] list@[k])@ == origin_extensions()[k],
            forall|k: int| 0 <= k < i ==> extension@ != #[trigger] origin_extensions()[k],
        decreases list@.len() - i,
    {
        if text::same_text(extension.as_str(), list[i]) {
            proof {
                assert(origin_extensions()[i as int] == list@[i as int]@);
            }
            return true;
        }
        i += 1;
    }
    false
}

impl ZoneIdentifier {
    /// The origin of an archive, by what reading its stream gave. Without
    /// such a stream, or when origins are not carried over, there is none.
    pub fn read(archive: &str, enabled: bool, found: OriginRead) -> (zone: ArchiveResult<
        ZoneIdentifier,
    >)
        ensures
            ({
                let stream = archive@ + ":Zone.Identifier"@;
                match zone {
                    Ok(zone) => origin(zone) == if !enabled {
                        None
                    } else {
                        match found {
                            OriginRead::Read(data) => Some(data@),
                            _ => None,
                        }
                    } && (enabled ==> match found {
                        OriginRead::NotOpened(error) => error.not_found || is_unsupported(
                            error.os_error,
                        ),
                        OriginRead::ReadFailed(_) => false,
                        OriginRead::Read(data) => data@.len() <= MAX_ORIGIN_BYTES,
                    }),
                    Err(error) => enabled && match found {
                        OriginRead::NotOpened(failure) => !failure.not_found && !is_unsupported(
                            failure.os_error,
                        ) && error@ == ErrorView::Io(stream, failure.message@),
                        OriginRead::ReadFailed(message) => error@ == ErrorView::Io(
                            stream,
                            message@,
                        ),
                        OriginRead::Read(data) => data@.len() > MAX_ORIGIN_BYTES && error@
                            == ErrorView::LimitExceeded("Zone.Identifier exceeds 64 KiB"@),
                    },
                }
            }),
    {
        if !enabled {
            return Ok(ZoneIdentifier { data: None });
        }
        let stream = stream_path(archive);
        match found {
            OriginRead::NotOpened(error) => {
                if error.not_found || unsupported(&error) {
                    Ok(ZoneIdentifier { data: None })
                } else {
                    Err(ArchiveError::io(stream.as_str(), error.message.as_str()))
                }
            },
            OriginRead::ReadFailed(message) => Err(
                ArchiveError::io(stream.as_str(), message.as_str()),
            ),
            OriginRead::Read(data) => {
                if data.len() > MAX_ORIGIN_BYTES {
                    Err(ArchiveError::LimitExceeded("Zone.Identifier exceeds 64 KiB".to_owned()))
                } else {
                    Ok(ZoneIdentifier { data: Some(data) })
                }
            },
        }
    }

    /// The stream to write for a file that was extracted to `output` and will
    /// be named `target`. Most kinds of files get none.
    pub fn apply(&self, output: &str, target: &str) -> (stream: Option<String>)
        ensures
            text::option_text(stream) == if self.data is Some && carries_origin(target@) {
                Some(output@ + ":Zone.Identifier"@)
            } else {
                None
            },
    {
        if self.data.is_none() || !file_carries_origin(target) {
            return None;
        }
        Some(stream_path(output))
    }

    /// Whether writing a stream is done. A file system without such streams
    /// is no failure.
    pub fn applied(stream: &str, failure: Option<StreamError>) -> (done: ArchiveResult<()>)
        ensures
            match done {
                Ok(_) => failure is None || is_unsupported(failure->0.os_error),
                Err(error) => {
                    &&& failure is Some && !is_unsupported(failure->0.os_error)
                    &&& error@ == ErrorView::Io(stream@, failure->0.message@)
                },
            },
    {
        match failure {
            None => Ok(()),
            Some(error) => {
                if unsupported(&error) {
                    Ok(())
                } else {
                    Err(ArchiveError::io(stream, error.message.as_str()))
                }
            },
        }
    }
}

/// Whether an extension, in lower case, is one of a program, a script, an
/// archive, a disk image or a document.
pub open spec fn can_do_harm(extension: Seq<char>) -> bool {
    ||| extension == seq!['e', 'x', 'e']
    ||| extension == seq!['c', 'o', 'm']
    ||| extension == seq!['m', 's', 'i']
    ||| extension == seq!['s', 'c', 'r']
    ||| extension == seq!['b', 'a', 't']
    ||| extension == seq!['c', 'm', 'd']
    ||| extension == seq!['p', 's', '1']
    ||| extension == seq!['p', 'i', 'f']
    ||| extension == seq!['l', 'n', 'k']
    ||| extension == seq!['z', 'i', 'p']
    ||| extension == seq!['z', 'i', 'p', 'x']
    ||| extension == seq!['r', 'a', 'r']
    ||| extension == seq!['7', 'z']
    ||| extension == seq!['a', 'l', 'z']
    ||| extension == seq!['e', 'g', 'g']
    ||| extension == seq!['c', 'a', 'b']
    ||| extension == seq!['b', 'h']
    ||| extension == seq!['i', 's', 'o']
    ||| extension == seq!['i', 'm', 'g']
    ||| extension == seq!['i', 's', 'z']
    ||| extension == seq!['u', 'd', 'f']
    ||| extension == seq!['w', 'i', 'm']
    ||| extension == seq!['b', 'i', 'n']
    ||| extension == seq!['i', '0', '0']
    ||| extension == seq!['j', 's']
    ||| extension == seq!['j', 's', 'e']
    ||| extension == seq!['v', 'b', 's']
    ||| extension == seq!['v', 'b', 'e']
    ||| extension == seq!['w', 's', 'f']
    ||| extension == seq!['u', 'r', 'l']
    ||| extension == seq!['r', 'e', 'g']
    ||| extension == seq!['d', 'o', 'c', 'x']
    ||| extension == seq!['d', 'o', 'c']
    ||| extension == seq!['x', 'l', 's']
    ||| extension == seq!['x', 'l', 's', 'x']
    ||| extension == seq!['p', 'p', 't']
    ||| extension == seq!['p', 'p', 't', 'x']
    ||| extension == seq!['h', 'w', 'p']
    ||| extension == seq!['h', 'w', 'p', 'x']
    ||| extension == seq!['w', 'i', 'z']
}

/// Files that can do harm carry the origin of the archive, by their extension
/// in any case; files with other extensions, and those without, do not.
#[verifier::rlimit(60)]
pub proof fn law_harmful_files_carry_the_origin(stem: Seq<char>, extension: Seq<char>)
    requires
        stem.len() > 0,
        forall|k: int| 0 <= k < extension.len() ==> extension[k] != '.',
    ensures
        carries_origin(stem + seq!['.'] + extension) <==> can_do_harm(text::lower(extension)),
        !carries_origin(extension),
{
    names::law_extension_is_behind_the_last_dot(stem, extension);
    lemma_origin_extensions();
    let list = origin_extensions();
    let lower = text::lower(extension);
    assert(list.len() == 40);
    assert(list[0] == seq!['e', 'x', 'e']);
    assert(list[1] == seq!['c', 'o', 'm']);
    assert(list[2] == seq!['m', 's', 'i']);
    assert(list[3] == seq!['s', 'c', 'r']);
    assert(list[4] == seq!['b', 'a', 't']);
    assert(list[5] == seq!['c', 'm', 'd']);
    assert(list[6] == seq!['p', 's', '1']);
    assert(list[7] == seq!['p', 'i', 'f']);
    assert(list[8] == seq!['l', 'n', 'k']);
    assert(list[9] == seq!['z', 'i', 'p']);
    assert(list[10] == seq!['z', 'i', 'p', 'x']);
    assert(list[11] == seq!['r', 'a', 'r']);
    assert(list[12] == seq!['7', 'z']);
    assert(list[13] == seq!['a', 'l', 'z']);
    assert(list[14] == seq!['e', 'g', 'g']);
    assert(list[15] == seq!['c', 'a', 'b']);
    assert(list[16] == seq!['b', 'h']);
    assert(list[17] == seq!['i', 's', 'o']);
    assert(list[18] == seq!['i', 'm', 'g']);
    assert(list[19] == seq!['i', 's', 'z']);
    assert(list[20] == seq!['u', 'd', 'f']);
    assert(list[21] == seq!['w', 'i', 'm']);
    assert(list[22] == seq!['b', 'i', 'n']);
    assert(list[23] == seq!['i', '0', '0']);
    assert(list[24] == seq!['j', 's']);
    assert(list[25] == seq!['j', 's', 'e']);
    assert(list[26] == seq!['v', 'b', 's']);
    assert(list[27] == seq!['v', 'b', 'e']);
    assert(list[28] == seq!['w', 's', 'f']);
    assert(list[29] == seq!['u', 'r', 'l']);
    assert(list[30] == seq!['r', 'e', 'g']);
    assert(list[31] == seq!['d', 'o', 'c', 'x']);
    assert(list[32] == seq!['d', 'o', 'c']);
    assert(list[33] == seq!['x', 'l', 's']);
    assert(list[34] == seq!['x', 'l', 's', 'x']);
    assert(list[35] == seq!['p', 'p', 't']);
    assert(list[36] == seq!['p', 'p', 't', 'x']);
    assert(list[37] == seq!['h', 'w', 'p']);
    assert(list[38] == seq!['h', 'w', 'p', 'x']);
    assert(list[39] == seq!['w', 'i', 'z']);
    if list.contains(lower) {
        let i = choose|i: int| 0 <= i < list.len() && list[i] == lower;
        assert(can_do_harm(list[i]));
    }
    let none = Seq::<char>::empty();
    if list.contains(none) {
        let i = choose|i: int| 0 <= i < list.len() && list[i] == none;
        assert(list[i].len() > 0);
    }
}

/// What the extensions hold.
proof fn lemma_origin_extensions()
    ensures
        "exe"@ == seq!['e', 'x', 'e'],
        "com"@ == seq!['c', 'o', 'm'],
        "msi"@ == seq!['m', 's', 'i'],
        "scr"@ == seq!['s', 'c', 'r'],
        "bat"@ == seq!['b', 'a', 't'],
        "cmd"@ == seq!['c', 'm', 'd'],
        "ps1"@ == seq!['p', 's', '1'],
        "pif"@ == seq!['p', 'i', 'f'],
        "lnk"@ == seq!['l', 'n', 'k'],
        "zip"@ == seq!['z', 'i', 'p'],
        "zipx"@ == seq!['z', 'i', 'p', 'x'],
        "rar"@ == seq!['r', 'a', 'r'],
        "7z"@ == seq!['7', 'z'],
        "alz"@ == seq!['a', 'l', 'z'],
        "egg"@ == seq!['e', 'g', 'g'],
        "cab"@ == seq!['c', 'a', 'b'],
        "bh"@ == seq!['b', 'h'],
        "iso"@ == seq!['i', 's', 'o'],
        "img"@ == seq!['i', 'm', 'g'],
        "isz"@ == seq!['i', 's', 'z'],
        "udf"@ == seq!['u', 'd', 'f'],
        "wim"@ == seq!['w', 'i', 'm'],
        "bin"@ == seq!['b', 'i', 'n'],
        "i00"@ == seq!['i', '0', '0'],
        "js"@ == seq!['j', 's'],
        "jse"@ == seq!['j', 's', 'e'],
        "vbs"@ == seq!['v', 'b', 's'],
        "vbe"@ == seq!['v', 'b', 'e'],
        "wsf"@ == seq!['w', 's', 'f'],
        "url"@ == seq!['u', 'r', 'l'],
        "reg"@ == seq!['r', 'e', 'g'],
        "docx"@ == seq!['d', 'o', 'c', 'x'],
        "doc"@ == seq!['d', 'o', 'c'],
        "xls"@ == seq!['x', 'l', 's'],
        "xlsx"@ == seq!['x', 'l', 's', 'x'],
        "ppt"@ == seq!['p', 'p', 't'],
        "pptx"@ == seq!['p', 'p', 't', 'x'],
        "hwp"@ == seq!['h', 'w', 'p'],
        "hwpx"@ == seq!['h', 'w', 'p', 'x'],
        "wiz"@ == seq!['w', 'i', 'z'],
{
    reveal_strlit("exe");
    reveal_strlit("com");
    reveal_strlit("msi");
    reveal_strlit("scr");
    reveal_strlit("bat");
    reveal_strlit("cmd");
    reveal_strlit("ps1");
    reveal_strlit("pif");
    reveal_strlit("lnk");
    reveal_strlit("zip");
    reveal_strlit("zipx");
    reveal_strlit("rar");
    reveal_strlit("7z");
    reveal_strlit("alz");
    reveal_strlit("egg");
    reveal_strlit("cab");
    reveal_strlit("bh");
    reveal_strlit("iso");
    reveal_strlit("img");
    reveal_strlit("isz");
    reveal_strlit("udf");
    reveal_strlit("wim");
    reveal_strlit("bin");
    reveal_strlit("i00");
    reveal_strlit("js");
    reveal_strlit("jse");
    reveal_strlit("vbs");
    reveal_strlit("vbe");
    reveal_strlit("wsf");
    reveal_strlit("url");
    reveal_strlit("reg");
    reveal_strlit("docx");
    reveal_strlit("doc");
    reveal_strlit("xls");
    reveal_strlit("xlsx");
    reveal_strlit("ppt");
    reveal_strlit("pptx");
    reveal_strlit("hwp");
    reveal_strlit("hwpx");
    reveal_strlit("wiz");
    assert("exe"@ =~= seq!['e', 'x', 'e']);
    assert("com"@ =~= seq!['c', 'o', 'm']);
    assert("msi"@ =~= seq!['m', 's', 'i']);
    assert("scr"@ =~= seq!['s', 'c', 'r']);
    assert("bat"@ =~= seq!['b', 'a', 't']);
    assert("cmd"@ =~= seq!['c', 'm', 'd']);
    assert("ps1"@ =~= seq!['p', 's', '1']);
    assert("pif"@ =~= seq!['p', 'i', 'f']);
    assert("lnk"@ =~= seq!['l', 'n', 'k']);
    assert("zip"@ =~= seq!['z', 'i', 'p']);
    assert("zipx"@ =~= seq!['z', 'i', 'p', 'x']);
    assert("rar"@ =~= seq!['r', 'a', 'r']);
    assert("7z"@ =~= seq!['7', 'z']);
    assert("alz"@ =~= seq!['a', 'l', 'z']);
    assert("egg"@ =~= seq!['e', 'g', 'g']);
    assert("cab"@ =~= seq!['c', 'a', 'b']);
    assert("bh"@ =~= seq!['b', 'h']);
    assert("iso"@ =~= seq!['i', 's', 'o']);
    assert("img"@ =~= seq!['i', 'm', 'g']);
    assert("isz"@ =~= seq!['i', 's', 'z']);
    assert("udf"@ =~= seq!['u', 'd', 'f']);
    assert("wim"@ =~= seq!['w', 'i', 'm']);
    assert("bin"@ =~= seq!['b', 'i', 'n']);
    assert("i00"@ =~= seq!['i', '0', '0']);
    assert("js"@ =~= seq!['j', 's']);
    assert("jse"@ =~= seq!['j', 's', 'e']);
    assert("vbs"@ =~= seq!['v', 'b', 's']);
    assert("vbe"@ =~= seq!['v', 'b', 'e']);
    assert("wsf"@ =~= seq!['w', 's', 'f']);
    assert("url"@ =~= seq!['u', 'r', 'l']);
    assert("reg"@ =~= seq!['r', 'e', 'g']);
    assert("docx"@ =~= seq!['d', 'o', 'c', 'x']);
    assert("doc"@ =~= seq!['d', 'o', 'c']);
    assert("xls"@ =~= seq!['x', 'l', 's']);
    assert("xlsx"@ =~= seq!['x', 'l', 's', 'x']);
    assert("ppt"@ =~= seq!['p', 'p', 't']);
    assert("pptx"@ =~= seq!['p', 'p', 't', 'x']);
    assert("hwp"@ =~= seq!['h', 'w', 'p']);
    assert("hwpx"@ =~= seq!['h', 'w', 'p', 'x']);
    assert("wiz"@ =~= seq!['w', 'i', 'z']);
}

/// The origin cannot be stored where the system knows no such streams: its
/// errors 1, 50 and 123 say so, and no other.
pub proof fn law_systems_without_streams(os_error: Option<i32>)
    ensures
        is_unsupported(os_error) <==> os_error is Some && (os_error->0 == 1 || os_error->0 == 50
            || os_error->0 == 123),
{
}

} // verus!
