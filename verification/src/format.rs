//! Which archive format a file has, by its name and by its first bytes.

use vstd::prelude::*;
use crate::names;
use crate::text;

verus! {

/// The formats that can be read through the native library.
#[derive(Clone, Copy, Debug, PartialEq, Eq, Structural)]
pub enum ReadFormat {
    SevenZip,
    Zip,
    Lzh,
    Rar4,
    Rar5,
    Iso,
    Nsis,
    SevenZipVolume,
    ZipVolume,
}

impl ReadFormat {
    /// The name shown for the format.
    pub open spec fn label_text(self) -> Seq<char> {
        match self {
            ReadFormat::SevenZip => "7z"@,
            ReadFormat::Zip => "ZIP"@,
            ReadFormat::Lzh => "LZH"@,
            ReadFormat::Rar4 => "RAR"@,
            ReadFormat::Rar5 => "RAR"@,
            ReadFormat::Iso => "ISO 9660"@,
            ReadFormat::Nsis => "NSIS"@,
            ReadFormat::SevenZipVolume => "7z split volume"@,
            ReadFormat::ZipVolume => "ZIP split volume"@,
        }
    }

    /// The name shown for the format.
    pub fn label(self) -> (label: &'static str)
        ensures
            label@ == self.label_text(),
    {
        match self {
            ReadFormat::SevenZip => "7z",
            ReadFormat::Zip => "ZIP",
            ReadFormat::Lzh => "LZH",
            ReadFormat::Rar4 => "RAR",
            ReadFormat::Rar5 => "RAR",
            ReadFormat::Iso => "ISO 9660",
            ReadFormat::Nsis => "NSIS",
            ReadFormat::SevenZipVolume => "7z split volume",
            ReadFormat::ZipVolume => "ZIP split volume",
        }
    }

    /// The format that the volumes of a split archive hold together.
    pub open spec fn base_format(self) -> ReadFormat {
        match self {
            ReadFormat::SevenZipVolume => ReadFormat::SevenZip,
            ReadFormat::ZipVolume => ReadFormat::Zip,
            other => other,
        }
    }

    /// [`ReadFormat::base_format`], executable.
    pub fn base(self) -> (base: ReadFormat)
        ensures
            base == self.base_format(),
    {
        match self {
            ReadFormat::SevenZipVolume => ReadFormat::SevenZip,
            ReadFormat::ZipVolume => ReadFormat::Zip,
            other => other,
        }
    }

    /// Whether the format is ZIP, split or not.
    pub fn is_zip(self) -> (yes: bool)
        ensures
            yes == (self.base_format() == ReadFormat::Zip),
    {
        match self {
            ReadFormat::Zip => true,
            ReadFormat::ZipVolume => true,
            _ => false,
        }
    }

    /// Whether the file is one volume of a split archive.
    pub fn is_volume(self) -> (yes: bool)
        ensures
            yes == (self != self.base_format()),
    {
        match self {
            ReadFormat::SevenZipVolume => true,
            ReadFormat::ZipVolume => true,
            _ => false,
        }
    }
}

/// The joined volumes of an archive are no volume themselves.
pub proof fn law_base_is_no_volume(format: ReadFormat)
    ensures
        format.base_format().base_format() == format.base_format(),
        format.base_format() != ReadFormat::SevenZipVolume,
        format.base_format() != ReadFormat::ZipVolume,
{
}

// ---------------------------------------------------------------------------
// By name
// ---------------------------------------------------------------------------

/// The format of a split archive's volume, by the extension that the
/// archive's own name has.
pub open spec fn volume_format(name: Seq<char>) -> Option<ReadFormat> {
    if exists|base: Seq<char>, index: u32| names::names_volume(name, base, index) {
        let (base, index) = choose|base: Seq<char>, index: u32|
            names::names_volume(name, base, index);
        if names::has_extension(base, "7z"@) {
            Some(ReadFormat::SevenZipVolume)
        } else if names::has_extension(base, "zip"@) {
            Some(ReadFormat::ZipVolume)
        } else {
            None
        }
    } else {
        None
    }
}

/// A name splits in one way.
pub proof fn lemma_volume_split_unique(
    name: Seq<char>,
    a: Seq<char>,
    i: u32,
    b: Seq<char>,
    j: u32,
)
    requires
        names::names_volume(name, a, i),
        names::names_volume(name, b, j),
    ensures
        a == b,
        i == j,
{
    let p = choose|at: int|
        #![trigger name.subrange(0, at)]
        {
            &&& text::is_last_place(name, '.', at)
            &&& a == names::before_last_dot(name, at)
            &&& names::behind_last_dot(name, at).len() >= 3
            &&& text::u32_value(names::behind_last_dot(name, at)) == Some(i)
            &&& i > 0
        };
    let q = choose|at: int|
        #![trigger name.subrange(0, at)]
        {
            &&& text::is_last_place(name, '.', at)
            &&& b == names::before_last_dot(name, at)
            &&& names::behind_last_dot(name, at).len() >= 3
            &&& text::u32_value(names::behind_last_dot(name, at)) == Some(j)
            &&& j > 0
        };
    names::lemma_last_place_unique(name, '.', p, q);
}

/// [`volume_format`], executable.
pub fn split_archive_format(name: &str) -> (format: Option<ReadFormat>)
    ensures
        format == volume_format(name@),
{
    match names::split_volume_base(name) {
        None => None,
        Some((base, index)) => {
            proof {
                assert(names::names_volume(name@, base@, index));
                let (other, number) = choose|other: Seq<char>, number: u32|
                    names::names_volume(name@, other, number);
                lemma_volume_split_unique(name@, base@, index, other, number);
            }
            if names::ends_in(base.as_str(), "7z") {
                Some(ReadFormat::SevenZipVolume)
            } else if names::ends_in(base.as_str(), "zip") {
                Some(ReadFormat::ZipVolume)
            } else {
                None
            }
        },
    }
}

/// The format that the file's name alone decides.
pub open spec fn named_format(name: Seq<char>) -> Option<ReadFormat> {
    if volume_format(name) is Some {
        volume_format(name)
    } else if names::has_extension(name, "iso"@) || names::has_extension(name, "img"@) {
        Some(ReadFormat::Iso)
    } else if names::has_extension(name, "lha"@) || names::has_extension(name, "lzh"@) {
        Some(ReadFormat::Lzh)
    } else {
        None
    }
}

// ---------------------------------------------------------------------------
// By contents
// ---------------------------------------------------------------------------

/// Whether the contents start with `signature`.
pub open spec fn begins(contents: Seq<u8>, signature: Seq<u8>) -> bool {
    signature.is_prefix_of(contents)
}

/// `7z\xBC\xAF\x27\x1C`.
pub open spec fn sevenzip_signature() -> Seq<u8> {
    seq![0x37u8, 0x7A, 0xBC, 0xAF, 0x27, 0x1C]
}

/// `Rar!\x1A\x07\x00`.
pub open spec fn rar4_signature() -> Seq<u8> {
    seq![0x52u8, 0x61, 0x72, 0x21, 0x1A, 0x07, 0x00]
}

/// `Rar!\x1A\x07\x01\x00`.
pub open spec fn rar5_signature() -> Seq<u8> {
    seq![0x52u8, 0x61, 0x72, 0x21, 0x1A, 0x07, 0x01, 0x00]
}

/// `\xEF\xBE\xAD\xDENullsoftInst`.
pub open spec fn nsis_signature() -> Seq<u8> {
    seq![
        0xEFu8,
        0xBE,
        0xAD,
        0xDE,
        0x4E,
        0x75,
        0x6C,
        0x6C,
        0x73,
        0x6F,
        0x66,
        0x74,
        0x49,
        0x6E,
        0x73,
        0x74,
    ]
}

/// `PK` and the numbers of one of the ZIP records.
pub open spec fn begins_zip(contents: Seq<u8>) -> bool {
    &&& contents.len() >= 4
    &&& contents[0] == 0x50
    &&& contents[1] == 0x4B
    &&& (contents[2] == 0x03 || contents[2] == 0x05 || contents[2] == 0x07)
    &&& (contents[3] == 0x04 || contents[3] == 0x06 || contents[3] == 0x08)
}

/// `-lh?-` behind the first two bytes.
pub open spec fn begins_lzh(contents: Seq<u8>) -> bool {
    &&& contents.len() >= 7
    &&& contents[2] == 0x2D
    &&& contents[3] == 0x6C
    &&& contents[4] == 0x68
    &&& (0x30 <= contents[5] <= 0x37 || contents[5] == 0x64)
    &&& contents[6] == 0x2D
}

/// How far into a file an installer's header is looked for.
pub const NSIS_SEARCH_LIMIT: usize = 0x10_0000;

/// How far the part of an installer's header reaches that tells it.
pub const NSIS_HEADER_BYTES: usize = 20;

/// The distance between the places where an installer's header may stand.
pub const NSIS_ALIGNMENT: usize = 0x200;

/// Whether an installer's header stands at `at`: its flags, and behind them
/// the signature.
pub open spec fn nsis_at(contents: Seq<u8>, at: int) -> bool {
    &&& 0 <= at
    &&& at % NSIS_ALIGNMENT as int == 0
    &&& at <= NSIS_SEARCH_LIMIT
    &&& at + 20 <= contents.len()
    &&& contents.subrange(at + 4, at + 20) == nsis_signature()
}

/// Whether an installer's header stands at one of the places for it.
pub open spec fn holds_nsis(contents: Seq<u8>) -> bool {
    exists|at: int| nsis_at(contents, at)
}

/// The format that the file's contents decide.
pub open spec fn contents_format(contents: Seq<u8>) -> Option<ReadFormat> {
    if begins(contents, sevenzip_signature()) {
        Some(ReadFormat::SevenZip)
    } else if begins_zip(contents) {
        Some(ReadFormat::Zip)
    } else if begins(contents, rar4_signature()) {
        Some(ReadFormat::Rar4)
    } else if begins(contents, rar5_signature()) {
        Some(ReadFormat::Rar5)
    } else if begins_lzh(contents) {
        Some(ReadFormat::Lzh)
    } else if holds_nsis(contents) {
        Some(ReadFormat::Nsis)
    } else {
        None
    }
}

/// Whether `part` stands in `contents` at `at`.
fn bytes_at(contents: &[u8], at: usize, part: &[u8]) -> (found: bool)
    requires
        at + part@.len() <= contents@.len(),
    ensures
        found == (contents@.subrange(at as int, at + part@.len()) == part@),
{
    let size: usize = contents.len();
    let mut i: usize = 0;
    while i < part.len()
        invariant
            i <= part@.len(),
            size == contents@.len(),
            at + part@.len() <= size,
            forall|k: int| 0 <= k < i ==> contents@[at + k] == part@[k],
        decreases part@.len() - i,
    {
        if contents[at + i] != part[i] {
            proof {
                assert(contents@.subrange(at as int, at + part@.len())[i as int]
                    != part@[i as int]);
            }
            return false;
        }
        i += 1;
    }
    proof {
        assert(contents@.subrange(at as int, at + part@.len()) =~= part@);
    }
    true
}

/// Whether the contents start with `part`.
fn starts_with_bytes(contents: &[u8], part: &[u8]) -> (found: bool)
    ensures
        found == begins(contents@, part@),
{
    part.len() <= contents.len() && bytes_at(contents, 0, part)
}

/// [`holds_nsis`], executable.
fn finds_nsis(contents: &[u8]) -> (found: bool)
    ensures
        found == holds_nsis(contents@),
{
    let signature: [u8; 16] = [
        0xEF,
        0xBE,
        0xAD,
        0xDE,
        0x4E,
        0x75,
        0x6C,
        0x6C,
        0x73,
        0x6F,
        0x66,
        0x74,
        0x49,
        0x6E,
        0x73,
        0x74,
    ];
    proof {
        assert(signature@ =~= nsis_signature());
    }
    let mut at: usize = 0;
    while at <= NSIS_SEARCH_LIMIT && contents.len() >= NSIS_HEADER_BYTES && at <= contents.len() - NSIS_HEADER_BYTES
        invariant
            at % NSIS_ALIGNMENT == 0,
            at <= NSIS_SEARCH_LIMIT + NSIS_ALIGNMENT,
            signature@ == nsis_signature(),
            forall|k: int| 0 <= k < at ==> !nsis_at(contents@, k),
        decreases NSIS_SEARCH_LIMIT + NSIS_ALIGNMENT - at,
    {
        if bytes_at(contents, at + 4, &signature) {
            proof {
                assert(nsis_at(contents@, at as int));
            }
            return true;
        }
        proof {
            assert forall|k: int| 0 <= k < at + NSIS_ALIGNMENT implies !nsis_at(contents@, k) by {
                if at < k {
                    assert(k % 0x200 != 0) by (nonlinear_arith)
                        requires
                            at % 0x200 == 0,
                            at < k,
                            k < at + 0x200,
                    ;
                }
            }
        }
        at = at + NSIS_ALIGNMENT;
    }
    proof {
        assert forall|k: int| !nsis_at(contents@, k) by {
            if k >= at {
                assert(k > NSIS_SEARCH_LIMIT || k + 20 > contents@.len());
            }
        }
    }
    false
}

/// The format of a file, by its name and its contents. The name alone decides
/// for the volumes of split archives, for disc images and for LZH; `contents`
/// are the first bytes of the file, up to [`NSIS_SEARCH_LIMIT`] and
/// [`NSIS_HEADER_BYTES`] more, and are absent when it cannot be read.
pub fn archive_format(name: &str, contents: Option<&[u8]>) -> (format: Option<ReadFormat>)
    ensures
        format == if named_format(name@) is Some {
            named_format(name@)
        } else if contents is Some {
            contents_format(contents->0@)
        } else {
            None
        },
{
    let split = split_archive_format(name);
    if split.is_some() {
        return split;
    }
    if names::ends_in(name, "iso") || names::ends_in(name, "img") {
        return Some(ReadFormat::Iso);
    }
    if names::ends_in(name, "lha") || names::ends_in(name, "lzh") {
        return Some(ReadFormat::Lzh);
    }
    match contents {
        None => None,
        Some(contents) => contents_format_of(contents),
    }
}

/// [`contents_format`], executable.
fn contents_format_of(contents: &[u8]) -> (format: Option<ReadFormat>)
    ensures
        format == contents_format(contents@),
{
    let sevenzip: [u8; 6] = [0x37, 0x7A, 0xBC, 0xAF, 0x27, 0x1C];
    let rar4: [u8; 7] = [0x52, 0x61, 0x72, 0x21, 0x1A, 0x07, 0x00];
    let rar5: [u8; 8] = [0x52, 0x61, 0x72, 0x21, 0x1A, 0x07, 0x01, 0x00];
    proof {
        assert(sevenzip@ =~= sevenzip_signature());
        assert(rar4@ =~= rar4_signature());
        assert(rar5@ =~= rar5_signature());
    }
    if starts_with_bytes(contents, &sevenzip) {
        return Some(ReadFormat::SevenZip);
    }
    if contents.len() >= 4 && contents[0] == 0x50 && contents[1] == 0x4B && (contents[2] == 0x03
        || contents[2] == 0x05 || contents[2] == 0x07) && (contents[3] == 0x04 || contents[3]
        == 0x06 || contents[3] == 0x08) {
        return Some(ReadFormat::Zip);
    }
    if starts_with_bytes(contents, &rar4) {
        return Some(ReadFormat::Rar4);
    }
    if starts_with_bytes(contents, &rar5) {
        return Some(ReadFormat::Rar5);
    }
    if contents.len() >= 7 && contents[2] == 0x2D && contents[3] == 0x6C && contents[4] == 0x68 && (
    (0x30 <= contents[5] && contents[5] <= 0x37) || contents[5] == 0x64) && contents[6] == 0x2D {
        return Some(ReadFormat::Lzh);
    }
    if finds_nsis(contents) {
        return Some(ReadFormat::Nsis);
    }
    None
}

// ---------------------------------------------------------------------------
// The volumes of a split archive
// ---------------------------------------------------------------------------

/// The largest number of volumes that are looked for.
pub const MAX_VOLUMES: u32 = 65_535;

/// What finding the volumes of a split archive needs next.
#[derive(Debug)]
pub enum VolumeSearch {
    /// Tell whether a file of this name stands beside the given one.
    Probe(String),
    /// The volumes in order, or nothing where the file is no volume or the
    /// first volume is missing.
    Found(Option<Vec<String>>),
}

/// The names of the first `count` volumes.
pub open spec fn first_volumes(base: Seq<char>, count: int) -> Seq<Seq<char>> {
    Seq::new(count as nat, |i: int| names::volume_name(Some(base), (i + 1) as nat))
}

/// A [`VolumeSearch`] over sequences.
pub enum SearchView {
    Probe(Seq<char>),
    Found(Option<Seq<Seq<char>>>),
}

impl View for VolumeSearch {
    type V = SearchView;

    open spec fn view(&self) -> SearchView {
        match *self {
            VolumeSearch::Probe(name) => SearchView::Probe(name@),
            VolumeSearch::Found(None) => SearchView::Found(None),
            VolumeSearch::Found(Some(paths)) => SearchView::Found(Some(text::texts(paths@))),
        }
    }
}

/// The next step of finding the volumes of `name`, after `present` volumes
/// were seen; `ended` tells that the one behind them is missing. The search
/// takes the volumes in order and ends at the first that is missing.
pub open spec fn search_step(name: Seq<char>, present: int, ended: bool) -> SearchView {
    match names::archive_of(name) {
        None => SearchView::Found(None),
        Some(base) => if !ended && present < MAX_VOLUMES {
            SearchView::Probe(names::volume_name(Some(base), (present + 1) as nat))
        } else if present == 0 {
            SearchView::Found(None)
        } else {
            SearchView::Found(Some(first_volumes(base, present)))
        },
    }
}

/// [`search_step`], executable.
pub fn split_volume_paths(name: &str, present: u32, ended: bool) -> (search: VolumeSearch)
    ensures
        search@ == search_step(name@, present as int, ended),
{
    match names::split_volume_base(name) {
        None => VolumeSearch::Found(None),
        Some((base, _)) => {
            let ghost whole = base@;
            let prefix = Some(base);
            if !ended && present < MAX_VOLUMES {
                return VolumeSearch::Probe(names::volume_part_path(&prefix, present + 1));
            }
            if present == 0 {
                return VolumeSearch::Found(None);
            }
            let mut paths: Vec<String> = Vec::new();
            let mut i: u32 = 0;
            while i < present
                invariant
                    i <= present,
                    paths@.len() == i,
                    prefix is Some,
                    prefix->0@ == whole,
                    forall|k: int|
                        0 <= k < i ==> (#[trigger] paths@[k])@ == names::volume_name(
                            Some(whole),
                            (k + 1) as nat,
                        ),
                decreases present - i,
            {
                paths.push(names::volume_part_path(&prefix, i + 1));
                i += 1;
            }
            proof {
                assert(text::texts(paths@) =~= first_volumes(whole, present as int));
            }
            VolumeSearch::Found(Some(paths))
        },
    }
}

/// A search from its first step to its last, in a directory with these files.
pub open spec fn run_search(
    name: Seq<char>,
    files: Set<Seq<char>>,
    present: int,
    ended: bool,
) -> Option<Seq<Seq<char>>>
    decreases
            if ended {
                0
            } else {
                MAX_VOLUMES - present + 1
            },
{
    match search_step(name, present, ended) {
        SearchView::Found(found) => found,
        SearchView::Probe(probe) => if files.contains(probe) {
            run_search(name, files, present + 1, false)
        } else {
            run_search(name, files, present, true)
        },
    }
}

/// Whether the first `n` volumes of an archive are there, and no more follow
/// without a gap among those that are looked for.
pub open spec fn is_longest_run(files: Set<Seq<char>>, base: Seq<char>, n: int) -> bool {
    &&& 0 <= n <= MAX_VOLUMES
    &&& forall|k: int|
        1 <= k <= n ==> files.contains(#[trigger] names::volume_name(Some(base), k as nat))
    &&& n == MAX_VOLUMES || !files.contains(names::volume_name(Some(base), (n + 1) as nat))
}

/// A search that saw some volumes ends with the longest run.
proof fn lemma_search_goes_on(name: Seq<char>, base: Seq<char>, files: Set<Seq<char>>, present: int)
    requires
        names::archive_of(name) == Some(base),
        0 <= present <= MAX_VOLUMES,
        forall|k: int|
            1 <= k <= present ==> files.contains(
                #[trigger] names::volume_name(Some(base), k as nat),
            ),
    ensures
        exists|n: int| #[trigger]
            is_longest_run(files, base, n) && run_search(name, files, present, false) == if n
                == 0 {
                None::<Seq<Seq<char>>>
            } else {
                Some(first_volumes(base, n))
            },
    decreases MAX_VOLUMES - present,
{
    let probe = names::volume_name(Some(base), (present + 1) as nat);
    if present < MAX_VOLUMES && files.contains(probe) {
        assert forall|k: int| 1 <= k <= present + 1 implies files.contains(
            #[trigger] names::volume_name(Some(base), k as nat),
        ) by {
            if k == present + 1 {
                assert(names::volume_name(Some(base), k as nat) == probe);
            }
        }
        lemma_search_goes_on(name, base, files, present + 1);
    } else {
        assert(is_longest_run(files, base, present));
        reveal_with_fuel(run_search, 2);
    }
}

/// There is one longest run.
proof fn lemma_longest_run_unique(files: Set<Seq<char>>, base: Seq<char>, a: int, b: int)
    requires
        is_longest_run(files, base, a),
        is_longest_run(files, base, b),
        a <= b,
    ensures
        a == b,
{
    if a < b {
        let k = a + 1;
        assert(files.contains(names::volume_name(Some(base), k as nat)));
    }
}

/// The search for the volumes of a split archive finds the longest run of them
/// that starts with the first and has no gap, whichever volume it was given.
/// It finds nothing where the first is missing, or where the name is that of
/// no volume.
pub proof fn law_search_finds_the_longest_run(name: Seq<char>, files: Set<Seq<char>>)
    ensures
        match names::archive_of(name) {
            None => run_search(name, files, 0, false) is None,
            Some(base) => {
                &&& exists|n: int| is_longest_run(files, base, n)
                &&& forall|n: int| #[trigger]
                    is_longest_run(files, base, n) ==> run_search(name, files, 0, false) == if n
                        == 0 {
                        None::<Seq<Seq<char>>>
                    } else {
                        Some(first_volumes(base, n))
                    }
            },
        },
{
    if let Some(base) = names::archive_of(name) {
        lemma_search_goes_on(name, base, files, 0);
        let m = choose|m: int| #[trigger]
            is_longest_run(files, base, m) && run_search(name, files, 0, false) == if m == 0 {
                None::<Seq<Seq<char>>>
            } else {
                Some(first_volumes(base, m))
            };
        assert forall|n: int| #[trigger] is_longest_run(files, base, n) implies run_search(
            name,
            files,
            0,
            false,
        ) == if n == 0 {
            None::<Seq<Seq<char>>>
        } else {
            Some(first_volumes(base, n))
        } by {
            if n <= m {
                lemma_longest_run_unique(files, base, n, m);
            } else {
                lemma_longest_run_unique(files, base, m, n);
            }
        }
    }
}

/// Every volume of an archive leads to the same volumes.
pub proof fn law_any_volume_leads_to_all(
    base: Seq<char>,
    first: u32,
    second: u32,
    files: Set<Seq<char>>,
)
    requires
        first > 0,
        second > 0,
    ensures
        names::archive_of(names::volume_name(Some(base), first as nat)) == Some(base),
        run_search(names::volume_name(Some(base), first as nat), files, 0, false) == run_search(
            names::volume_name(Some(base), second as nat),
            files,
            0,
            false,
        ),
{
    let a = names::volume_name(Some(base), first as nat);
    let b = names::volume_name(Some(base), second as nat);
    names::law_volume_names_split_back(base, first);
    names::law_volume_names_split_back(base, second);
    assert(names::archive_of(a) == Some(base)) by {
        assert(names::names_volume(a, base, first));
    }
    assert(names::archive_of(b) == Some(base)) by {
        assert(names::names_volume(b, base, second));
    }
    law_search_finds_the_longest_run(a, files);
    law_search_finds_the_longest_run(b, files);
    let n = choose|n: int| is_longest_run(files, base, n);
    assert(is_longest_run(files, base, n));
}

/// An archive whose name says nothing is known by its first bytes, whatever
/// follows them: `7z` and four bytes, `PK` and one of the three kinds of ZIP
/// records, `Rar!` with the mark of either version, and `-lh` with a method
/// behind two bytes.
pub proof fn law_contents_tell_the_format(contents: Seq<u8>)
    ensures
        contents.len() >= 6 && contents[0] == 0x37 && contents[1] == 0x7A && contents[2] == 0xBC
            && contents[3] == 0xAF && contents[4] == 0x27 && contents[5] == 0x1C
            ==> contents_format(contents) == Some(ReadFormat::SevenZip),
        contents.len() >= 4 && contents[0] == 0x50 && contents[1] == 0x4B && ((contents[2] == 3
            && contents[3] == 4) || (contents[2] == 5 && contents[3] == 6) || (contents[2] == 7
            && contents[3] == 8)) ==> contents_format(contents) == Some(ReadFormat::Zip),
        contents.len() >= 7 && contents[0] == 0x52 && contents[1] == 0x61 && contents[2] == 0x72
            && contents[3] == 0x21 && contents[4] == 0x1A && contents[5] == 7 && contents[6] == 0
            ==> contents_format(contents) == Some(ReadFormat::Rar4),
        contents.len() >= 8 && contents[0] == 0x52 && contents[1] == 0x61 && contents[2] == 0x72
            && contents[3] == 0x21 && contents[4] == 0x1A && contents[5] == 7 && contents[6] == 1
            && contents[7] == 0 ==> contents_format(contents) == Some(ReadFormat::Rar5),
        contents.len() >= 7 && contents[0] != 0x50 && contents[0] != 0x37 && contents[0] != 0x52
            && contents[2] == 0x2D && contents[3] == 0x6C && contents[4] == 0x68 && ((0x30
            <= contents[5] <= 0x37) || contents[5] == 0x64) && contents[6] == 0x2D
            ==> contents_format(contents) == Some(ReadFormat::Lzh),
        contents.len() < 4 ==> contents_format(contents) is None,
{
    let seven = sevenzip_signature();
    let four = rar4_signature();
    let five = rar5_signature();
    if contents.len() >= 6 {
        assert(contents.subrange(0, 6)[0] == contents[0]);
        if contents[0] == 0x37 && contents[1] == 0x7A && contents[2] == 0xBC && contents[3] == 0xAF
            && contents[4] == 0x27 && contents[5] == 0x1C {
            assert(contents.subrange(0, 6) =~= seven);
        }
        assert(begins(contents, seven) ==> contents[0] == 0x37) by {
            assert(seven[0] == 0x37);
        }
    }
    if contents.len() >= 7 {
        assert(contents.subrange(0, 7)[6] == contents[6]);
        assert(contents.subrange(0, 7)[0] == contents[0]);
        if contents[0] == 0x52 && contents[1] == 0x61 && contents[2] == 0x72 && contents[3] == 0x21
            && contents[4] == 0x1A && contents[5] == 7 && contents[6] == 0 {
            assert(contents.subrange(0, 7) =~= four);
        }
        assert(begins(contents, four) ==> contents[6] == 0 && contents[0] == 0x52) by {
            assert(four[6] == 0 && four[0] == 0x52);
        }
    }
    if contents.len() >= 8 {
        assert(contents.subrange(0, 8)[0] == contents[0]);
        if contents[0] == 0x52 && contents[1] == 0x61 && contents[2] == 0x72 && contents[3] == 0x21
            && contents[4] == 0x1A && contents[5] == 7 && contents[6] == 1 && contents[7] == 0 {
            assert(contents.subrange(0, 8) =~= five);
        }
        assert(begins(contents, five) ==> contents[0] == 0x52) by {
            assert(five[0] == 0x52);
        }
    }
    if contents.len() < 4 {
        assert forall|at: int| !nsis_at(contents, at) by {}
    }
}

/// An installer is known by its mark at a multiple of 512 bytes in the first
/// mebibyte, four bytes into its header.
pub proof fn law_installers_are_known_by_their_mark(contents: Seq<u8>, at: int)
    requires
        at % 512 == 0,
        0 <= at <= 0x10_0000,
        at + 20 <= contents.len(),
        contents.subrange(at + 4, at + 20) == seq![
            0xEFu8, 0xBE, 0xAD, 0xDE, 0x4E, 0x75, 0x6C, 0x6C, 0x73, 0x6F, 0x66, 0x74, 0x49, 0x6E,
            0x73, 0x74,
        ],
        contents[0] != 0x37 && contents[0] != 0x50 && contents[0] != 0x52 && contents[2] != 0x2D,
    ensures
        contents_format(contents) == Some(ReadFormat::Nsis),
{
    assert(nsis_at(contents, at));
    if begins(contents, sevenzip_signature()) {
        assert(contents.subrange(0, 6)[0] == contents[0]);
    }
    if begins(contents, rar4_signature()) {
        assert(contents.subrange(0, 7)[0] == contents[0]);
    }
    if begins(contents, rar5_signature()) {
        assert(contents.subrange(0, 8)[0] == contents[0]);
    }
}

/// The extensions of disk images and of LZH archives tell the format, in any
/// case and behind any name; other extensions do not.
pub proof fn law_extensions_tell_the_format(stem: Seq<char>, extension: Seq<char>)
    requires
        stem.len() > 0,
        forall|k: int| 0 <= k < extension.len() ==> extension[k] != '.',
    ensures
        text::lower(extension) == "iso"@ || text::lower(extension) == "img"@ ==> named_format(
            stem + seq!['.'] + extension,
        ) == Some(ReadFormat::Iso),
        text::lower(extension) == "lha"@ || text::lower(extension) == "lzh"@ ==> named_format(
            stem + seq!['.'] + extension,
        ) == Some(ReadFormat::Lzh),
        text::lower(extension) == "zip"@ || text::lower(extension) == "7z"@ || text::lower(
            extension,
        ) == "rar"@ || text::lower(extension) == "exe"@ ==> named_format(
            stem + seq!['.'] + extension,
        ) is None,
{
    let name = stem + seq!['.'] + extension;
    names::law_extension_is_behind_the_last_dot(stem, extension);
    reveal_strlit("iso");
    reveal_strlit("img");
    reveal_strlit("lha");
    reveal_strlit("lzh");
    reveal_strlit("zip");
    reveal_strlit("7z");
    reveal_strlit("rar");
    reveal_strlit("exe");
    assert(text::lower("iso"@) =~= "iso"@);
    assert(text::lower("img"@) =~= "img"@);
    assert(text::lower("lha"@) =~= "lha"@);
    assert(text::lower("lzh"@) =~= "lzh"@);
    assert("iso"@[0] == 'i' && "img"@[0] == 'i' && "lha"@[0] == 'l' && "lzh"@[0] == 'l');
    assert("iso"@[1] == 's' && "img"@[1] == 'm' && "lha"@[1] == 'h' && "lzh"@[1] == 'z');
    assert("zip"@[0] == 'z' && "7z"@[0] == '7' && "rar"@[0] == 'r' && "exe"@[0] == 'e');
    assert("zip"@[1] == 'i' && "7z"@[1] == 'z' && "rar"@[1] == 'a' && "exe"@[1] == 'x');
    let lower = text::lower(extension);
    if lower == "iso"@ || lower == "img"@ || lower == "lha"@ || lower == "lzh"@ || lower == "zip"@
        || lower == "7z"@ || lower == "rar"@ || lower == "exe"@ {
        assert(lower.len() == extension.len());
        assert(extension.len() >= 2);
        assert(lower[1] == text::lower_char(extension[1]));
        assert(!text::is_digit(extension[1]));
        assert forall|base: Seq<char>, index: u32| !names::names_volume(name, base, index) by {
            if names::names_volume(name, base, index) {
                let at = choose|at: int|
                    #![trigger name.subrange(0, at)]
                    {
                        &&& text::is_last_place(name, '.', at)
                        &&& base == names::before_last_dot(name, at)
                        &&& names::behind_last_dot(name, at).len() >= 3
                        &&& text::u32_value(names::behind_last_dot(name, at)) == Some(index)
                        &&& index > 0
                    };
                let dot = stem.len() as int;
                assert(name[dot] == '.');
                assert forall|k: int| dot < k < name.len() implies name[k] != '.' by {
                    assert(name[k] == extension[k - dot - 1]);
                }
                assert(text::is_last_place(name, '.', dot));
                names::lemma_last_place_unique(name, '.', at, dot);
                assert(names::behind_last_dot(name, at)[1] == extension[1]);
            }
        }
    }
}

/// The volumes of a split archive are known by the extension of the archive
/// before their number.
pub proof fn law_volumes_tell_the_format(stem: Seq<char>, index: u32)
    requires
        stem.len() > 0,
        index > 0,
    ensures
        named_format(names::volume_name(Some(stem + seq!['.', '7', 'z']), index as nat)) == Some(
            ReadFormat::SevenZipVolume,
        ),
        named_format(names::volume_name(Some(stem + seq!['.', 'z', 'i', 'p']), index as nat))
            == Some(ReadFormat::ZipVolume),
        ReadFormat::SevenZipVolume.base_format() == ReadFormat::SevenZip,
        ReadFormat::ZipVolume.base_format() == ReadFormat::Zip,
{
    reveal_strlit("7z");
    reveal_strlit("zip");
    assert("7z"@ =~= seq!['7', 'z']);
    assert("zip"@ =~= seq!['z', 'i', 'p']);
    let seven = stem + seq!['.', '7', 'z'];
    let zip = stem + seq!['.', 'z', 'i', 'p'];
    assert(seven =~= stem + seq!['.'] + "7z"@);
    assert(zip =~= stem + seq!['.'] + "zip"@);
    names::law_extension_is_behind_the_last_dot(stem, "7z"@);
    names::law_extension_is_behind_the_last_dot(stem, "zip"@);
    assert(text::lower("7z"@).len() == 2 && text::lower("zip"@).len() == 3);
    lemma_volume_format(seven, index);
    lemma_volume_format(zip, index);
}

/// The format of a volume follows from its archive.
proof fn lemma_volume_format(base: Seq<char>, index: u32)
    requires
        index > 0,
    ensures
        volume_format(names::volume_name(Some(base), index as nat)) == if names::has_extension(
            base,
            "7z"@,
        ) {
            Some(ReadFormat::SevenZipVolume)
        } else if names::has_extension(base, "zip"@) {
            Some(ReadFormat::ZipVolume)
        } else {
            None
        },
{
    let name = names::volume_name(Some(base), index as nat);
    names::law_volume_names_split_back(base, index);
    let (other, number) = choose|other: Seq<char>, number: u32|
        names::names_volume(name, other, number);
    assert(names::names_volume(name, base, index));
    assert(names::names_volume(name, other, number));
    assert(other == base);
}

/// What is shown for each format. A format that is no volume is its own base.
pub proof fn law_labels_of_formats(format: ReadFormat)
    ensures
        format == ReadFormat::SevenZip ==> format.label_text() == "7z"@,
        format == ReadFormat::Zip ==> format.label_text() == "ZIP"@,
        format == ReadFormat::Lzh ==> format.label_text() == "LZH"@,
        format == ReadFormat::Rar4 || format == ReadFormat::Rar5 ==> format.label_text() == "RAR"@,
        format == ReadFormat::Iso ==> format.label_text() == "ISO 9660"@,
        format == ReadFormat::Nsis ==> format.label_text() == "NSIS"@,
        format == ReadFormat::SevenZipVolume ==> format.label_text() == "7z split volume"@,
        format == ReadFormat::ZipVolume ==> format.label_text() == "ZIP split volume"@,
        format != ReadFormat::SevenZipVolume && format != ReadFormat::ZipVolume
            ==> format.base_format() == format,
{
}

} // verus!
