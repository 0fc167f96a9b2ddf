//! Dragging files out of the application to Explorer.

use vstd::prelude::*;
use vstd::string::*;
use crate::ffi::{E_POINTER, S_FALSE, S_OK};
use crate::text;

verus! {

/// The clipboard format of a list of files.
pub const CF_HDROP: u16 = 15;

/// The aspect that asks for contents.
pub const DVASPECT_CONTENT: u32 = 1;

/// The kind of medium that is a block of memory.
pub const TYMED_HGLOBAL: u32 = 1;

/// The direction that asks for what can be got.
pub const DATADIR_GET: u32 = 1;

/// The code for a format that is not offered.
pub const DV_E_FORMATETC: i32 = -2_147_221_404;

/// The code for a drag that was given up.
pub const DRAGDROP_S_CANCEL: i32 = 0x4_0101;

/// The code for a drag that ends in a drop.
pub const DRAGDROP_S_DROP: i32 = 0x4_0100;

/// The code for a format that is its own canonical form.
pub const DATA_S_SAMEFORMATETC: i32 = 0x4_0130;

/// The left mouse button among the keys that are held.
pub const MK_LBUTTON: u32 = 1;

/// A format that data is asked for in.
#[derive(Debug, Clone, Copy, PartialEq, Eq, Structural)]
pub struct DataFormat {
    pub format: u16,
    pub aspect: u32,
    pub index: i32,
    pub medium: u32,
}

/// The format that is offered: a list of files in a block of memory.
pub fn file_format() -> (format: DataFormat)
    ensures
        format == (DataFormat {
            format: CF_HDROP,
            aspect: DVASPECT_CONTENT,
            index: -1i32,
            medium: TYMED_HGLOBAL,
        }),
{
    DataFormat {
        format: CF_HDROP,
        aspect: DVASPECT_CONTENT,
        index: -1,
        medium: TYMED_HGLOBAL,
    }
}

/// Whether data is offered in a format: a list of files, its contents, and a
/// block of memory among the media.
pub open spec fn is_offered(format: DataFormat) -> bool {
    format.format == CF_HDROP && format.aspect == DVASPECT_CONTENT && format.medium & TYMED_HGLOBAL
        != 0
}

/// [`is_offered`], as a code.
pub fn query_file_format(format: DataFormat) -> (code: i32)
    ensures
        code == if is_offered(format) {
            S_OK
        } else {
            DV_E_FORMATETC
        },
{
    if format.format == CF_HDROP && format.aspect == DVASPECT_CONTENT && format.medium
        & TYMED_HGLOBAL != 0 {
        S_OK
    } else {
        DV_E_FORMATETC
    }
}

/// Goes through the formats that are offered; there is one.
#[derive(Debug, Clone, Copy, PartialEq, Eq, Structural)]
pub struct FileFormatEnumerator {
    pub index: usize,
}

impl FileFormatEnumerator {
    /// Begins at a format.
    pub fn new(index: usize) -> (formats: FileFormatEnumerator)
        ensures
            formats.index == index,
    {
        FileFormatEnumerator { index }
    }

    /// Hands out up to `wanted` formats. Returns how many it has, and the
    /// code. A caller that wants more than one is told how many, and must
    /// take that.
    pub fn next(&mut self, wanted: u32, has_storage: bool, takes_count: bool) -> (handed: (u32, i32))
        ensures
            if !has_storage || (wanted != 1 && !takes_count) {
                handed == (0u32, E_POINTER) && *final(self) == *old(self)
            } else {
                let count: u32 = if old(self).index == 0 && wanted > 0 {
                    1
                } else {
                    0
                };
                &&& handed.0 == count
                &&& handed.1 == if count == wanted {
                    S_OK
                } else {
                    S_FALSE
                }
                &&& final(self).index == old(self).index + count
            },
    {
        if !has_storage || (wanted != 1 && !takes_count) {
            return (0, E_POINTER);
        }
        let count: u32 = if self.index == 0 && wanted > 0 { 1 } else { 0 };
        if count > 0 {
            self.index = self.index + 1;
        }
        (count, if count == wanted { S_OK } else { S_FALSE })
    }

    /// Leaves formats out.
    pub fn skip(&mut self, count: u32)
        ensures
            final(self).index == if old(self).index + count > usize::MAX {
                usize::MAX as int
            } else {
                old(self).index + count
            },
    {
        self.index = self.index.saturating_add(count as usize);
    }

    /// Begins anew.
    pub fn reset(&mut self)
        ensures
            final(self).index == 0,
    {
        self.index = 0;
    }
}

/// What goes on with a drag: escape gives it up, and letting the button go
/// drops.
pub fn query_continue_drag(escape_pressed: bool, keys: u32) -> (code: i32)
    ensures
        code == if escape_pressed {
            DRAGDROP_S_CANCEL
        } else if keys & MK_LBUTTON == 0 {
            DRAGDROP_S_DROP
        } else {
            S_OK
        },
{
    if escape_pressed {
        DRAGDROP_S_CANCEL
    } else if keys & MK_LBUTTON == 0 {
        DRAGDROP_S_DROP
    } else {
        S_OK
    }
}

/// Whether formats are listed for a direction.
pub fn lists_formats(direction: u32) -> (yes: bool)
    ensures
        yes == (direction == DATADIR_GET),
{
    direction == DATADIR_GET
}

// ---------------------------------------------------------------------------
// The list of files
// ---------------------------------------------------------------------------

/// The first `n` names, each ended by a zero.
pub open spec fn ended_names(paths: Seq<Seq<u16>>, n: int) -> Seq<u16>
    decreases n,
{
    if n <= 0 {
        Seq::empty()
    } else {
        ended_names(paths, n - 1) + paths[n - 1].push(0)
    }
}

/// The list of names: each ended by a zero, and one more zero at the end.
pub open spec fn name_list(paths: Seq<Seq<u16>>) -> Seq<u16> {
    ended_names(paths, paths.len() as int).push(0)
}

/// The size of what stands before the names.
pub const HEADER_BYTES: usize = 20;

/// What stands before the names: where they begin, a point, and that they are
/// made of 16-bit units.
pub open spec fn drop_header() -> Seq<u8> {
    seq![20, 0, 0, 0, 0, 0, 0, 0, 0, 0, 0, 0, 0, 0, 0, 0, 1, 0, 0, 0]
}

/// The block of memory that lists files.
pub open spec fn drop_block(paths: Seq<Seq<u16>>) -> Seq<u8> {
    drop_header() + text::little_endian(name_list(paths))
}

/// Paths over sequences.
pub open spec fn path_views(paths: Seq<Vec<u16>>) -> Seq<Seq<u16>> {
    Seq::new(paths.len(), |i: int| paths[i]@)
}

/// Whether a path holds a zero.
fn has_zero(path: &Vec<u16>) -> (yes: bool)
    ensures
        yes == path@.contains(0),
{
    let mut i: usize = 0;
    while i < path.len()
        invariant
            i <= path@.len(),
            forall|k: int| 0 <= k < i ==> path@[k] != 0,
        decreases path@.len() - i,
    {
        if path[i] == 0 {
            return true;
        }
        i += 1;
    }
    false
}

/// The names of files for a block of memory. A path that holds a zero cannot
/// be listed.
fn drop_names(paths: &Vec<Vec<u16>>) -> (names: Option<Vec<u16>>)
    ensures
        match names {
            Some(names) => names@ == name_list(path_views(paths@)) && forall|i: int|
                0 <= i < paths@.len() ==> !(#[trigger] paths@[i])@.contains(0),
            None => exists|i: int| 0 <= i < paths@.len() && (#[trigger] paths@[i])@.contains(0),
        },
{
    let ghost views = path_views(paths@);
    let mut names: Vec<u16> = Vec::new();
    let mut i: usize = 0;
    while i < paths.len()
        invariant
            i <= paths@.len(),
            views == path_views(paths@),
            names@ == ended_names(views, i as int),
            forall|k: int| 0 <= k < i ==> !(#[trigger] paths@[k])@.contains(0),
        decreases paths@.len() - i,
    {
        if has_zero(&paths[i]) {
            return None;
        }
        let ghost before = names@;
        let path: &Vec<u16> = &paths[i];
        let mut j: usize = 0;
        proof {
            assert(before + path@.take(0) =~= before);
        }
        while j < path.len()
            invariant
                j <= path@.len(),
                names@ == before + path@.take(j as int),
            decreases path@.len() - j,
        {
            names.push(path[j]);
            proof {
                assert(path@.take(j + 1) =~= path@.take(j as int).push(path@[j as int]));
                assert((before + path@.take(j as int)).push(path@[j as int]) =~= before
                    + path@.take(j + 1));
            }
            j += 1;
        }
        names.push(0);
        proof {
            assert(path@.take(j as int) =~= path@);
            assert((before + path@).push(0) =~= before + path@.push(0));
            assert(views[i as int] == path@);
        }
        i += 1;
    }
    names.push(0);
    Some(names)
}

/// The block of memory that lists files: [`drop_block`], executable. A path
/// that holds a zero cannot be listed.
pub fn make_hdrop(paths: &Vec<Vec<u16>>) -> (block: Result<Vec<u8>, i32>)
    ensures
        match block {
            Ok(block) => block@ == drop_block(path_views(paths@)) && forall|i: int|
                0 <= i < paths@.len() ==> !(#[trigger] paths@[i])@.contains(0),
            Err(code) => code == E_POINTER && exists|i: int|
                0 <= i < paths@.len() && (#[trigger] paths@[i])@.contains(0),
        },
{
    let names: Vec<u16> = match drop_names(paths) {
        Some(names) => names,
        None => {
            return Err(E_POINTER);
        },
    };
    let mut block: Vec<u8> = vec![
        20u8, 0, 0, 0, 0, 0, 0, 0, 0, 0, 0, 0, 0, 0, 0, 0, 1, 0, 0, 0,
    ];
    let mut i: usize = 0;
    let ghost header = block@;
    proof {
        assert(header =~= drop_header());
    }
    while i < names.len()
        invariant
            i <= names@.len(),
            header == drop_header(),
            block@.len() == HEADER_BYTES + 2 * i,
            forall|k: int|
                0 <= k < HEADER_BYTES + 2 * i ==> block@[k] == (header + text::little_endian(
                    names@,
                ))[k],
        decreases names@.len() - i,
    {
        let unit: u16 = names[i];
        block.push((unit % 256) as u8);
        block.push((unit / 256) as u8);
        i += 1;
    }
    proof {
        assert(block@ =~= drop_header() + text::little_endian(names@));
    }
    Ok(block)
}

/// Whether data is offered in a format that may be missing.
pub fn query_get_data(format: Option<DataFormat>) -> (code: i32)
    ensures
        code == match format {
            Some(format) => if is_offered(format) {
                S_OK
            } else {
                DV_E_FORMATETC
            },
            None => E_POINTER,
        },
{
    match format {
        Some(format) => query_file_format(format),
        None => E_POINTER,
    }
}

/// The data in a format: the block of memory that lists the files, or the
/// code that says why there is none.
pub fn get_data(format: Option<DataFormat>, paths: &Vec<Vec<u16>>) -> (data: Result<Vec<u8>, i32>)
    ensures
        match format {
            None => data == Err::<Vec<u8>, i32>(E_POINTER),
            Some(format) => if !is_offered(format) {
                data == Err::<Vec<u8>, i32>(DV_E_FORMATETC)
            } else {
                match data {
                    Ok(block) => block@ == drop_block(path_views(paths@)) && forall|i: int|
                        0 <= i < paths@.len() ==> !(#[trigger] paths@[i])@.contains(0),
                    Err(code) => code == E_POINTER && exists|i: int|
                        0 <= i < paths@.len() && (#[trigger] paths@[i])@.contains(0),
                }
            },
        },
{
    match format {
        None => Err(E_POINTER),
        Some(format) => {
            if query_file_format(format) != S_OK {
                return Err(DV_E_FORMATETC);
            }
            make_hdrop(paths)
        },
    }
}

/// The canonical form of a format is the format itself; the code says so.
pub fn canonical_format(format: Option<DataFormat>, has_storage: bool) -> (answer: (
    Option<DataFormat>,
    i32,
))
    ensures
        answer == if format is None || !has_storage {
            (None::<DataFormat>, E_POINTER)
        } else {
            (format, DATA_S_SAMEFORMATETC)
        },
{
    match format {
        Some(format) => {
            if has_storage {
                (Some(format), DATA_S_SAMEFORMATETC)
            } else {
                (None, E_POINTER)
            }
        },
        None => (None, E_POINTER),
    }
}

/// The names in a list, from a place on, up to the zero that ends the list.
pub open spec fn names_in(list: Seq<u16>) -> Seq<Seq<u16>>
    decreases list.len(),
{
    let end = first_zero(list) as int;
    if end == 0 || end >= list.len() {
        Seq::empty()
    } else {
        seq![list.take(end)] + names_in(list.skip(end + 1))
    }
}

/// How many units come before the first zero.
pub open spec fn first_zero(list: Seq<u16>) -> nat
    decreases list.len(),
{
    if list.len() == 0 || list[0] == 0 {
        0
    } else {
        1 + first_zero(list.drop_first())
    }
}

/// A name ends at its zero.
proof fn lemma_first_zero(name: Seq<u16>, rest: Seq<u16>)
    requires
        !name.contains(0),
    ensures
        first_zero(name.push(0) + rest) == name.len(),
    decreases name.len(),
{
    let list = name.push(0) + rest;
    if name.len() > 0 {
        assert(name[0] != 0) by {
            assert(name.contains(name[0]));
        }
        assert(list[0] == name[0]);
        assert(!name.drop_first().contains(0)) by {
            if name.drop_first().contains(0) {
                let k = choose|k: int| 0 <= k < name.drop_first().len() && name.drop_first()[k] == 0;
                assert(name[k + 1] == 0);
            }
        }
        lemma_first_zero(name.drop_first(), rest);
        assert(list.drop_first() =~= name.drop_first().push(0) + rest);
    } else {
        assert(list[0] == 0);
    }
}

/// The names before a place come first in a list.
proof fn lemma_ended_names(paths: Seq<Seq<u16>>, n: int)
    requires
        0 < n <= paths.len(),
    ensures
        ended_names(paths, n) == paths[0].push(0) + ended_names(paths.skip(1), n - 1),
    decreases n,
{
    if n > 1 {
        lemma_ended_names(paths, n - 1);
        assert(paths.skip(1)[n - 2] == paths[n - 1]);
        let first = paths[0].push(0);
        let middle = ended_names(paths.skip(1), n - 2);
        let last = paths[n - 1].push(0);
        assert((first + middle) + last =~= first + (middle + last));
    } else {
        assert(ended_names(paths, 0) + paths[0].push(0) =~= paths[0].push(0));
        assert(paths[0].push(0) + ended_names(paths.skip(1), 0) =~= paths[0].push(0));
    }
}

/// Whoever receives a list of files reads back the names that were listed.
pub proof fn law_listed_names_read_back(paths: Seq<Seq<u16>>)
    requires
        forall|i: int|
            0 <= i < paths.len() ==> (#[trigger] paths[i]).len() > 0 && !paths[i].contains(0),
    ensures
        names_in(name_list(paths)) == paths,
    decreases paths.len(),
{
    let list = name_list(paths);
    if paths.len() > 0 {
        let rest = paths.skip(1);
        lemma_ended_names(paths, paths.len() as int);
        assert forall|i: int| 0 <= i < rest.len() implies (#[trigger] rest[i]).len() > 0
            && !rest[i].contains(0) by {
            assert(rest[i] == paths[i + 1]);
        }
        law_listed_names_read_back(rest);
        let first = paths[0];
        assert(first.len() > 0 && !first.contains(0));
        assert(list =~= first.push(0) + name_list(rest));
        lemma_first_zero(first, name_list(rest));
        let end = first.len() as int;
        assert(list.take(end) =~= first);
        assert(list.skip(end + 1) =~= name_list(rest));
        assert(seq![first] + rest =~= paths);
    } else {
        assert(list =~= seq![0u16]);
        assert(paths =~= Seq::<Seq<u16>>::empty());
    }
}

// ---------------------------------------------------------------------------
// The drag
// ---------------------------------------------------------------------------

/// Whether a drag can start: there must be files, and the system must be
/// ready for it.
pub fn start_file_drag(files: usize, ready: Result<(), String>) -> (started: Result<(), String>)
    ensures
        match started {
            Ok(_) => files > 0 && ready is Ok,
            Err(message) => if files == 0 {
                message@ == "There are no files to drag"@
            } else {
                ready is Err && message@ == "Could not initialize OLE drag-and-drop: "@
                    + ready->Err_0@
            },
        },
{
    if files == 0 {
        return Err("There are no files to drag".to_owned());
    }
    match ready {
        Ok(_) => Ok(()),
        Err(error) => Err(text::join("Could not initialize OLE drag-and-drop: ", error.as_str())),
    }
}

/// Whether a drag ended well: in a drop, or given up. `shown` is how the code
/// is shown.
pub fn drag_outcome(code: i32, shown: &str) -> (done: Result<(), String>)
    ensures
        match done {
            Ok(_) => code == DRAGDROP_S_CANCEL || code == DRAGDROP_S_DROP,
            Err(message) => code != DRAGDROP_S_CANCEL && code != DRAGDROP_S_DROP && message@
                == "Explorer drag-and-drop failed: "@ + shown@,
        },
{
    if code == DRAGDROP_S_CANCEL || code == DRAGDROP_S_DROP {
        return Ok(());
    }
    Err(text::join("Explorer drag-and-drop failed: ", shown))
}

/// Files are offered as a list of names in memory: format 15, the contents as
/// they are, and a block that the system owns; no other way.
pub proof fn law_files_are_offered_in_one_form(format: DataFormat)
    ensures
        is_offered(format) <==> format.format == 15 && format.aspect == 1 && format.medium & 1 != 0,
{
}

/// The block begins with a header of twenty bytes, which tells its own length
/// and that the names are wide; the names follow, two bytes a unit.
pub proof fn law_block_is_header_and_names(paths: Seq<Seq<u16>>, i: int)
    requires
        0 <= i < name_list(paths).len(),
    ensures
        drop_block(paths).len() == 20 + 2 * name_list(paths).len(),
        drop_block(paths)[0] == 20,
        drop_block(paths)[16] == 1,
        drop_block(paths)[20 + 2 * i] == name_list(paths)[i] % 256,
        drop_block(paths)[21 + 2 * i] == name_list(paths)[i] / 256,
        name_list(paths).last() == 0,
{
    let units = name_list(paths);
    let bytes = text::little_endian(units);
    assert((2 * i) / 2 == i && (2 * i + 1) / 2 == i);
    assert(drop_block(paths)[20 + 2 * i] == bytes[2 * i]);
    assert(drop_block(paths)[21 + 2 * i] == bytes[2 * i + 1]);
}

} // verus!
