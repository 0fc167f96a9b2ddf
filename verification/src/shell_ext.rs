//! What the Explorer extension answers: the menu it fills, the commands it
//! runs, the classes it makes, and how it is registered.

use vstd::prelude::*;
use vstd::string::*;
use crate::command_line;
use crate::context_menu::{self, DestinationNames, SelectedPath, Verb};
use crate::ffi::{self, E_FAIL, E_NOINTERFACE, E_POINTER, Guid, S_FALSE, S_OK};
use crate::registry;
use crate::text;

verus! {

/// The code for what is not offered.
pub const E_NOTIMPL: i32 = -0x7FFF_BFFF;

/// The code for a class that is not known.
pub const CLASS_E_CLASSNOTAVAILABLE: i32 = -0x7FFB_FEEF;

/// The flag that asks for the default item alone.
pub const CMF_DEFAULTONLY: u32 = 1;

/// What the canonical name of a command is asked for with.
pub const GCS_VERBW: u32 = 4;

/// What the help text of a command is asked for with.
pub const GCS_HELPTEXTW: u32 = 5;

/// The state of a command that is shown.
pub const ECS_ENABLED: u32 = 0;

/// The state of a command that is not shown.
pub const ECS_HIDDEN: u32 = 2;

// ---------------------------------------------------------------------------
// Objects that are alive
// ---------------------------------------------------------------------------

/// How many objects and locks the host holds. While there are any, the
/// library must stay loaded.
#[derive(Debug, Clone, Copy, PartialEq, Eq, Structural)]
pub struct LiveObjects {
    pub count: usize,
}

impl LiveObjects {
    /// Nothing is held.
    pub fn new() -> (live: LiveObjects)
        ensures
            live.count == 0,
    {
        LiveObjects { count: 0 }
    }

    /// Counts an object or a lock.
    pub fn increment(&mut self)
        requires
            old(self).count < usize::MAX,
        ensures
            final(self).count == old(self).count + 1,
    {
        self.count = self.count + 1;
    }

    /// Counts an object or a lock less. An object that was never counted may
    /// be released, so the count stays at zero.
    pub fn decrement(&mut self)
        ensures
            final(self).count == if old(self).count == 0 {
                0int
            } else {
                old(self).count - 1
            },
    {
        if self.count > 0 {
            self.count = self.count - 1;
        }
    }

    /// Whether the library can be unloaded, as a code.
    pub fn can_unload_now(&self) -> (code: i32)
        ensures
            code == if self.count == 0 {
                S_OK
            } else {
                S_FALSE
            },
    {
        if self.count == 0 {
            S_OK
        } else {
            S_FALSE
        }
    }

    /// Takes or gives back a lock.
    pub fn lock_server(&mut self, lock: bool)
        requires
            lock ==> old(self).count < usize::MAX,
        ensures
            final(self).count == if lock {
                old(self).count + 1
            } else if old(self).count == 0 {
                0
            } else {
                old(self).count - 1
            },
    {
        if lock {
            self.increment();
        } else {
            self.decrement();
        }
    }

    /// Makes the factory of a class. One that is made is counted.
    pub fn get_class_object(&mut self, has_pointers: bool, class: Guid) -> (kind: Result<
        FactoryKind,
        i32,
    >)
        requires
            old(self).count < usize::MAX,
        ensures
            kind == if !has_pointers {
                Err(E_POINTER)
            } else {
                match factory_of(class) {
                    Some(kind) => Ok(kind),
                    None => Err(CLASS_E_CLASSNOTAVAILABLE),
                }
            },
            final(self).count == old(self).count + if kind is Ok {
                1int
            } else {
                0
            },
    {
        if !has_pointers {
            return Err(E_POINTER);
        }
        match factory_kind(class) {
            Some(kind) => {
                self.increment();
                Ok(kind)
            },
            None => Err(CLASS_E_CLASSNOTAVAILABLE),
        }
    }

    /// Makes an object. One that is made is counted; it cannot be part of
    /// another one.
    pub fn create_instance(&mut self, kind: FactoryKind, has_outer: bool, has_storage: bool) -> (
        made: Result<FactoryKind, i32>)
        requires
            old(self).count < usize::MAX,
        ensures
            made == if has_outer {
                Err(E_NOINTERFACE)
            } else if !has_storage {
                Err(E_POINTER)
            } else {
                Ok(kind)
            },
            final(self).count == old(self).count + if made is Ok {
                1int
            } else {
                0
            },
    {
        if has_outer {
            return Err(E_NOINTERFACE);
        }
        if !has_storage {
            return Err(E_POINTER);
        }
        self.increment();
        Ok(kind)
    }
}

/// One step in the life of the library: an object or a lock comes or goes.
pub open spec fn count_after(count: nat, comes: Seq<bool>) -> nat
    decreases comes.len(),
{
    if comes.len() == 0 {
        count
    } else if comes.last() {
        count_after(count, comes.drop_last()) + 1
    } else if count_after(count, comes.drop_last()) == 0 {
        0
    } else {
        (count_after(count, comes.drop_last()) - 1) as nat
    }
}

/// How many steps of a kind there are.
pub open spec fn steps(comes: Seq<bool>, kind: bool) -> nat
    decreases comes.len(),
{
    if comes.len() == 0 {
        0
    } else {
        steps(comes.drop_last(), kind) + if comes.last() == kind {
            1nat
        } else {
            0
        }
    }
}

/// The library is never given up while more objects and locks have come than
/// have gone.
pub proof fn law_held_objects_keep_the_library(comes: Seq<bool>)
    ensures
        count_after(0, comes) >= steps(comes, true) - steps(comes, false),
        steps(comes, true) > steps(comes, false) ==> count_after(0, comes) > 0,
    decreases comes.len(),
{
    if comes.len() > 0 {
        law_held_objects_keep_the_library(comes.drop_last());
    }
}

// ---------------------------------------------------------------------------
// Classes
// ---------------------------------------------------------------------------

/// What a factory makes.
#[derive(Debug, Clone, Copy, PartialEq, Eq, Structural)]
pub enum FactoryKind {
    Classic,
    ExplorerCommand(Verb),
}

/// The identifiers of the classes differ in their first part.
pub open spec fn class_id(first: u32) -> Guid {
    Guid {
        data1: first,
        data2: 0x9D3E,
        data3: 0x4F5A,
        data4: (0x8C, 0x7B, 0x1E, 0x2F, 0x3A, 0x4B, 0x5C, 0x6D),
    }
}

/// The first part of the identifier of the menu's class.
pub const MENU_CLASS: u32 = 0x6B2B_1C4A;

/// How many commands there are.
pub const COMMANDS: usize = 5;

/// The verbs of the commands.
pub open spec fn command_verb(i: int) -> Verb {
    if i == 0 {
        Verb::Extract
    } else if i == 1 {
        Verb::Zip
    } else if i == 2 {
        Verb::SevenZip
    } else if i == 3 {
        Verb::ZipEach
    } else {
        Verb::SevenZipEach
    }
}

/// The identifier of a command's class.
pub open spec fn command_id(i: int) -> Guid {
    class_id((MENU_CLASS + 1 + i) as u32)
}

/// The factory of a class, where it is known.
pub open spec fn factory_of(class: Guid) -> Option<FactoryKind> {
    let i = class.data1 - MENU_CLASS - 1;
    if class != class_id(class.data1) {
        None
    } else if i == -1 {
        Some(FactoryKind::Classic)
    } else if 0 <= i < COMMANDS {
        Some(FactoryKind::ExplorerCommand(command_verb(i)))
    } else {
        None
    }
}

/// [`class_id`], executable.
pub(crate) fn class_guid(first: u32) -> (id: Guid)
    ensures
        id == class_id(first),
{
    ffi::guid(first, 0x9D3E, 0x4F5A, 0x8C, 0x7B, 0x1E, 0x2F, 0x3A, 0x4B, 0x5C, 0x6D)
}

/// [`factory_of`], executable.
pub fn factory_kind(class: Guid) -> (kind: Option<FactoryKind>)
    ensures
        kind == factory_of(class),
{
    let d = class.data4;
    if class.data2 != 0x9D3E || class.data3 != 0x4F5A || d.0 != 0x8C || d.1 != 0x7B || d.2 != 0x1E
        || d.3 != 0x2F || d.4 != 0x3A || d.5 != 0x4B || d.6 != 0x5C || d.7 != 0x6D {
        return None;
    }
    proof {
        assert(class == class_id(class.data1));
    }
    match class.data1 {
        0x6B2B_1C4A => Some(FactoryKind::Classic),
        0x6B2B_1C4B => Some(FactoryKind::ExplorerCommand(Verb::Extract)),
        0x6B2B_1C4C => Some(FactoryKind::ExplorerCommand(Verb::Zip)),
        0x6B2B_1C4D => Some(FactoryKind::ExplorerCommand(Verb::SevenZip)),
        0x6B2B_1C4E => Some(FactoryKind::ExplorerCommand(Verb::ZipEach)),
        0x6B2B_1C4F => Some(FactoryKind::ExplorerCommand(Verb::SevenZipEach)),
        _ => None,
    }
}

/// The code that registering or unregistering answers with.
pub fn server_code(done: Option<Result<(), String>>) -> (code: i32)
    ensures
        code == if done is Some && done->0 is Ok {
            S_OK
        } else {
            E_FAIL
        },
{
    match done {
        Some(Ok(_)) => S_OK,
        _ => E_FAIL,
    }
}

// ---------------------------------------------------------------------------
// Running the program
// ---------------------------------------------------------------------------

/// The program that is started, and its command line.
#[derive(Debug)]
pub struct Launch {
    pub program: String,
    pub line: String,
}

/// A text in the registry that is not empty.
pub open spec fn registry_text(stored: Option<Seq<u8>>) -> Option<Seq<char>> {
    match registry::stored_text(stored) {
        Some(text) => if text.len() > 0 {
            Some(text)
        } else {
            None
        },
        None => None,
    }
}

/// Reads a text from the registry: [`registry_text`], executable.
pub fn read_registry_string(stored: &Option<Vec<u8>>) -> (found: Option<String>)
    ensures
        text::option_text(found) == registry_text(registry::stored_bytes(*stored)),
{
    match registry::read_string_value(stored) {
        Some(text) => if text.as_str().is_empty() {
            None
        } else {
            Some(text)
        },
        None => None,
    }
}

/// The program: the configured one where it is a file, else the one beside
/// the library where that is a file.
pub fn find_exe_path(configured: Option<(String, bool)>, beside: Option<(String, bool)>) -> (found:
    Option<String>)
    ensures
        text::option_text(found) == program_path(configured, beside),
{
    if let Some((path, is_file)) = configured {
        if is_file {
            return Some(path);
        }
    }
    match beside {
        Some((path, is_file)) => {
            if is_file {
                Some(path)
            } else {
                None
            }
        },
        None => None,
    }
}

/// The program that is started, where there is one.
pub open spec fn program_path(
    configured: Option<(String, bool)>,
    beside: Option<(String, bool)>,
) -> Option<Seq<char>> {
    match (configured, beside) {
        (Some((path, true)), _) => Some(path@),
        (_, Some((path, true))) => Some(path@),
        _ => None,
    }
}

/// The room that the library's path is first given.
pub const FIRST_PATH_UNITS: usize = 512;

/// The most room that the library's path is given.
pub const MAX_PATH_UNITS: usize = 32_768;

/// What is done with a path that was asked for.
#[derive(Debug, Clone, Copy, PartialEq, Eq, Structural)]
pub enum PathRoom {
    /// There is no path.
    Missing,
    /// The path fits.
    Fits,
    /// The path is asked for again, with more room.
    Grow(usize),
}

/// What is done with a path of `length` units that was given room for
/// `capacity`: a path that fills its room may have been cut.
pub fn module_file_name(capacity: usize, length: usize) -> (next: PathRoom)
    ensures
        next == if length == 0 {
            PathRoom::Missing
        } else if length < capacity {
            PathRoom::Fits
        } else if 2 * capacity <= MAX_PATH_UNITS {
            PathRoom::Grow((2 * capacity) as usize)
        } else {
            PathRoom::Missing
        },
{
    if length == 0 {
        return PathRoom::Missing;
    }
    if length < capacity {
        return PathRoom::Fits;
    }
    if capacity > MAX_PATH_UNITS / 2 {
        return PathRoom::Missing;
    }
    PathRoom::Grow(2 * capacity)
}

/// A text in units, with a zero at the end.
pub fn wide(value: &str) -> (units: Vec<u16>)
    ensures
        units@ == text::utf16(value@).push(0),
{
    let mut units: Vec<u16> = text::utf16_units(value);
    units.push(0);
    units
}

/// The units of a text that fit into a buffer, with a zero at the end.
pub fn write_wide_buffer(value: &str, has_buffer: bool, room: u32) -> (units: Result<
    Vec<u16>,
    i32,
>)
    ensures
        match units {
            Ok(units) => {
                &&& has_buffer && room > 0
                &&& units@ == fitting(text::utf16(value@), room as int).push(0)
                &&& units@.len() <= room
            },
            Err(code) => code == E_POINTER && !(has_buffer && room > 0),
        },
{
    if !has_buffer || room == 0 {
        return Err(E_POINTER);
    }
    let mut units: Vec<u16> = text::utf16_units(value);
    let size: usize = (room - 1) as usize;
    if units.len() > size {
        units.truncate(size);
    }
    proof {
        assert(units@ =~= fitting(text::utf16(value@), room as int));
    }
    units.push(0);
    Ok(units)
}

/// The units that fit into a buffer beside a zero.
pub open spec fn fitting(units: Seq<u16>, room: int) -> Seq<u16> {
    if units.len() < room {
        units
    } else {
        units.take(room - 1)
    }
}

/// The size, in bytes, of a bitmap with four bytes for each pixel. A side has
/// at least one pixel.
pub fn bitmap_bytes(width: i32, height: i32) -> (size: Option<usize>)
    ensures
        ({
            let w = if width < 1 {
                1int
            } else {
                width as int
            };
            let h = if height < 1 {
                1int
            } else {
                height as int
            };
            size == if w * h * 4 <= usize::MAX {
                Some((w * h * 4) as usize)
            } else {
                None
            }
        }),
{
    let w: usize = if width < 1 { 1 } else { width as usize };
    let h: usize = if height < 1 { 1 } else { height as usize };
    let ghost area = w * h;
    proof {
        assert(area >= 1) by (nonlinear_arith)
            requires
                area == w * h,
                w >= 1,
                h >= 1,
        ;
    }
    match w.checked_mul(h) {
        Some(pixels) => pixels.checked_mul(4),
        None => None,
    }
}

// ---------------------------------------------------------------------------
// The menu
// ---------------------------------------------------------------------------

/// The paths of a selection.
pub open spec fn selected(paths: Seq<SelectedPath>) -> Seq<Seq<char>> {
    Seq::new(paths.len(), |i: int| paths[i].path@)
}

/// [`selected`], executable.
fn selected_paths(paths: &Vec<SelectedPath>) -> (out: Vec<String>)
    ensures
        text::texts(out@) == selected(paths@),
{
    let mut out: Vec<String> = Vec::new();
    let mut i: usize = 0;
    while i < paths.len()
        invariant
            i <= paths@.len(),
            out@.len() == i,
            forall|k: int| 0 <= k < i ==> (#[trigger] out@[k])@ == paths@[k].path@,
        decreases paths@.len() - i,
    {
        out.push(paths[i].path.clone());
        i += 1;
    }
    proof {
        assert(text::texts(out@) =~= selected(paths@));
    }
    out
}

/// The handler of the classic menu, and of the menu after a drag with the
/// right button.
#[derive(Debug)]
pub struct ArchiveContextMenu {
    pub paths: Vec<SelectedPath>,
    /// The folder that was dropped on.
    pub target_folder: Option<String>,
    /// The verbs of the items that stand in the menu, in their order.
    pub active_verbs: Vec<Verb>,
}

/// An item on its way into the menu.
#[derive(Debug, Clone, Copy, PartialEq, Eq, Structural)]
pub struct MenuInsertion {
    /// The place in the menu.
    pub position: u32,
    /// The number by which the host knows the item.
    pub id: u32,
    /// The item, by its place in the list.
    pub item: usize,
}

/// Items that are put into a menu one after the other.
#[derive(Debug)]
pub struct MenuQuery {
    pub items: Vec<(Verb, String)>,
    /// How many items have been tried.
    pub tried: usize,
    /// The place in the menu of the first item.
    pub index: u32,
    /// The numbers that items may have.
    pub first_id: u32,
    pub last_id: u32,
    /// The verbs of the items that stand in the menu.
    pub inserted: Vec<Verb>,
}

impl MenuQuery {
    /// Whether the query is in order.
    pub open spec fn wf(&self) -> bool {
        &&& self.inserted@.len() <= self.tried <= self.items@.len() <= 5
        &&& self.inserted@.len() > 0 ==> self.first_id + self.inserted@.len() <= self.last_id + 1
    }

    /// The item that is put into the menu next.
    pub open spec fn next_insertion(&self) -> Option<MenuInsertion> {
        if self.tried < self.items@.len() && self.first_id + self.inserted@.len() <= self.last_id {
            Some(
                MenuInsertion {
                    position: if self.index + self.inserted@.len() > u32::MAX {
                        u32::MAX
                    } else {
                        (self.index + self.inserted@.len()) as u32
                    },
                    id: (self.first_id + self.inserted@.len()) as u32,
                    item: self.tried,
                },
            )
        } else {
            None
        }
    }

    /// The item that is put into the menu next, while there are items and
    /// numbers left.
    pub fn next(&self) -> (next: Option<MenuInsertion>)
        requires
            self.wf(),
        ensures
            next == self.next_insertion(),
    {
        if self.tried >= self.items.len() {
            return None;
        }
        let count: u32 = self.inserted.len() as u32;
        if self.first_id > self.last_id || count > self.last_id - self.first_id {
            return None;
        }
        Some(
            MenuInsertion {
                position: self.index.saturating_add(count),
                id: self.first_id + count,
                item: self.tried,
            },
        )
    }

    /// Takes what came of putting an item into the menu. A number is used only
    /// where the item stands in the menu.
    pub fn placed(&mut self, done: bool)
        requires
            old(self).wf(),
            old(self).next_insertion() is Some,
        ensures
            final(self).wf(),
            final(self).items == old(self).items,
            final(self).index == old(self).index,
            final(self).first_id == old(self).first_id,
            final(self).last_id == old(self).last_id,
            final(self).tried == old(self).tried + 1,
            final(self).inserted@ == if done {
                old(self).inserted@.push(old(self).items@[old(self).tried as int].0)
            } else {
                old(self).inserted@
            },
    {
        let verb: Verb = self.items[self.tried].0;
        self.tried = self.tried + 1;
        if done {
            self.inserted.push(verb);
        }
    }
}

/// The item that is put into the menu next gets the number that its verb is
/// found by once the item stands in the menu.
pub proof fn law_numbers_find_their_verbs(before: MenuQuery, after: MenuQuery)
    requires
        before.wf(),
        before.next_insertion() is Some,
        after.first_id == before.first_id,
        after.inserted@ == before.inserted@.push(before.items@[before.tried as int].0),
    ensures
        ({
            let insertion = before.next_insertion()->0;
            after.inserted@[insertion.id - before.first_id]
                == before.items@[insertion.item as int].0
        }),
{
}

/// What a command of the menu comes to.
pub open spec fn invoked(
    menu: ArchiveContextMenu,
    raw_verb: usize,
    program: Option<Seq<char>>,
) -> Result<Option<(Seq<char>, Seq<char>)>, i32> {
    if raw_verb >= 0x1_0000 || raw_verb >= menu.active_verbs@.len() {
        Err(E_FAIL)
    } else if menu.paths@.len() == 0 || program is None {
        Ok(None)
    } else {
        let verb = menu.active_verbs@[raw_verb as int];
        Ok(
            Some(
                (
                    program->0,
                    match menu.target_folder {
                        Some(folder) => command_line::command_line(
                            context_menu::targeted_text(verb),
                            seq![folder@] + selected(menu.paths@),
                        ),
                        None => command_line::command_line(
                            context_menu::subcommand_text(verb),
                            selected(menu.paths@),
                        ),
                    },
                ),
            ),
        )
    }
}

/// A launch over sequences.
pub open spec fn launch_view(launch: Option<Launch>) -> Option<(Seq<char>, Seq<char>)> {
    match launch {
        Some(launch) => Some((launch.program@, launch.line@)),
        None => None,
    }
}

/// What a text or a code is over sequences.
pub open spec fn answer_view(answer: Result<String, i32>) -> Result<Seq<char>, i32> {
    match answer {
        Ok(answer) => Ok(answer@),
        Err(code) => Err(code),
    }
}

impl ArchiveContextMenu {
    /// A handler without a selection.
    pub fn new() -> (menu: ArchiveContextMenu)
        ensures
            menu.paths@.len() == 0,
            menu.target_folder is None,
            menu.active_verbs@.len() == 0,
    {
        ArchiveContextMenu { paths: Vec::new(), target_folder: None, active_verbs: Vec::new() }
    }

    /// Takes the folder that was dropped on and the selection.
    pub fn initialize(&mut self, folder: Option<String>, paths: Vec<SelectedPath>)
        ensures
            final(self).paths == paths,
            final(self).target_folder == folder,
            final(self).active_verbs == old(self).active_verbs,
    {
        self.target_folder = folder;
        self.paths = paths;
    }

    /// Begins to fill a menu at a place with items of the given numbers, which
    /// do not run past the largest number. Nothing is put into a menu that
    /// asks for its default item alone.
    pub fn query_context_menu(
        &mut self,
        names: &DestinationNames,
        index: u32,
        first_id: u32,
        last_id: u32,
        flags: u32,
    ) -> (query: MenuQuery)
        requires
            last_id < u32::MAX || first_id <= u32::MAX - 5,
        ensures
            final(self).paths == old(self).paths,
            final(self).target_folder == old(self).target_folder,
            final(self).active_verbs@.len() == 0,
            query.wf(),
            query.tried == 0,
            query.inserted@.len() == 0,
            query.index == index,
            query.first_id == first_id,
            query.last_id == last_id,
            context_menu::item_views(query.items@) == if flags & CMF_DEFAULTONLY != 0 {
                Seq::empty()
            } else {
                context_menu::menu_items(old(self).paths@, *names)
            },
    {
        self.active_verbs = Vec::new();
        let items: Vec<(Verb, String)> = if flags & CMF_DEFAULTONLY != 0 {
            Vec::new()
        } else {
            context_menu::menu_verbs(&self.paths, names)
        };
        proof {
            if flags & CMF_DEFAULTONLY != 0 {
                assert(context_menu::item_views(items@) =~= Seq::empty());
            }
        }
        MenuQuery { items, tried: 0, index, first_id, last_id, inserted: Vec::new() }
    }

    /// Takes the items that stand in the menu. Returns how many there are.
    pub fn filled(&mut self, query: MenuQuery) -> (count: i32)
        requires
            query.wf(),
        ensures
            final(self).paths == old(self).paths,
            final(self).target_folder == old(self).target_folder,
            final(self).active_verbs == query.inserted,
            count == query.inserted@.len(),
    {
        let count: i32 = query.inserted.len() as i32;
        self.active_verbs = query.inserted;
        count
    }

    /// Runs a command of the menu by its number: [`invoked`], executable. One
    /// that is none of the menu's is left to others.
    pub fn invoke_command(&self, raw_verb: Option<usize>, program: Option<String>) -> (launch: Result<
        Option<Launch>,
        i32,
    >)
        ensures
            match raw_verb {
                None => launch == Err::<Option<Launch>, i32>(E_POINTER),
                Some(raw_verb) => match launch {
                    Ok(launch) => invoked(*self, raw_verb, text::option_text(program)) == Ok::<
                        Option<(Seq<char>, Seq<char>)>,
                        i32,
                    >(launch_view(launch)),
                    Err(code) => invoked(*self, raw_verb, text::option_text(program)) == Err::<
                        Option<(Seq<char>, Seq<char>)>,
                        i32,
                    >(code),
                },
            },
    {
        let number: usize = match raw_verb {
            Some(number) => number,
            None => {
                return Err(E_POINTER);
            },
        };
        if number >= 0x1_0000 || number >= self.active_verbs.len() {
            return Err(E_FAIL);
        }
        let verb: Verb = self.active_verbs[number];
        if self.paths.len() == 0 {
            return Ok(None);
        }
        match program {
            None => Ok(None),
            Some(program) => {
                let paths: Vec<String> = selected_paths(&self.paths);
                let line: String = match &self.target_folder {
                    Some(folder) => context_menu::build_targeted_args(
                        verb,
                        folder.as_str(),
                        &paths,
                    ),
                    None => command_line::build_args(verb.subcommand(), &paths),
                };
                Ok(Some(Launch { program, line }))
            },
        }
    }

    /// The name or the help text of a command.
    pub fn get_command_string(&self, number: usize, flags: u32, names: &DestinationNames) -> (answer:
        Result<String, i32>)
        ensures
            answer_view(answer) == if flags != GCS_VERBW && flags != GCS_HELPTEXTW {
                Err(E_NOTIMPL)
            } else if number >= self.active_verbs@.len() {
                Err(E_FAIL)
            } else {
                let verb = self.active_verbs@[number as int];
                match context_menu::label(verb, self.paths@, *names) {
                    None => Err(E_FAIL),
                    Some(label) => Ok(
                        if flags == GCS_VERBW {
                            context_menu::subcommand_text(verb)
                        } else {
                            "ArchiveRclick: "@ + label
                        },
                    ),
                }
            },
    {
        if flags != GCS_VERBW && flags != GCS_HELPTEXTW {
            return Err(E_NOTIMPL);
        }
        if number >= self.active_verbs.len() {
            return Err(E_FAIL);
        }
        let verb: Verb = self.active_verbs[number];
        match context_menu::verb_label(verb, &self.paths, names) {
            None => Err(E_FAIL),
            Some(label) => {
                if flags == GCS_VERBW {
                    Ok(verb.subcommand().to_owned())
                } else {
                    Ok(text::join("ArchiveRclick: ", label.as_str()))
                }
            },
        }
    }
}

// ---------------------------------------------------------------------------
// Commands
// ---------------------------------------------------------------------------

/// One command of the modern menu.
#[derive(Debug)]
pub struct ArchiveVerbCommand {
    pub verb: Verb,
    /// The selection that the command was last asked about.
    pub paths: Vec<SelectedPath>,
}

impl ArchiveVerbCommand {
    /// A command without a selection.
    pub fn new(verb: Verb) -> (command: ArchiveVerbCommand)
        ensures
            command.verb == verb,
            command.paths@.len() == 0,
    {
        ArchiveVerbCommand { verb, paths: Vec::new() }
    }

    /// The title for a selection, where the command is offered for it. The
    /// selection is kept.
    pub fn get_title(&mut self, selection: Vec<SelectedPath>, names: &DestinationNames) -> (title:
        Option<String>)
        ensures
            final(self).verb == old(self).verb,
            final(self).paths == selection,
            text::option_text(title) == context_menu::label(old(self).verb, selection@, *names),
    {
        let title: Option<String> = context_menu::verb_label(self.verb, &selection, names);
        self.paths = selection;
        title
    }

    /// Where the icon is.
    pub fn get_icon(&self, program: Option<String>) -> (icon: Result<String, i32>)
        ensures
            answer_view(icon) == match program {
                Some(program) => Ok(program@ + ",0"@),
                None => Err(E_NOTIMPL),
            },
    {
        match program {
            Some(program) => Ok(text::join(program.as_str(), ",0")),
            None => Err(E_NOTIMPL),
        }
    }

    /// The tip for the selection that was kept.
    pub fn get_tool_tip(&self, names: &DestinationNames) -> (tip: String)
        ensures
            tip@ == "ArchiveRclick: "@ + match context_menu::label(
                self.verb,
                self.paths@,
                *names,
            ) {
                Some(label) => label,
                None => context_menu::tooltip_text(self.verb),
            },
    {
        match context_menu::verb_label(self.verb, &self.paths, names) {
            Some(label) => text::join("ArchiveRclick: ", label.as_str()),
            None => text::join("ArchiveRclick: ", self.verb.tooltip()),
        }
    }

    /// Whether the command is shown for a selection.
    pub fn get_state(&self, selection: &Option<Vec<SelectedPath>>, names: &DestinationNames) -> (
        state: u32)
        ensures
            state == if selection is Some && selection->0@.len() > 0 && context_menu::label(
                self.verb,
                selection->0@,
                *names,
            ) is Some {
                ECS_ENABLED
            } else {
                ECS_HIDDEN
            },
    {
        match selection {
            Some(paths) => {
                if paths.len() > 0 && context_menu::verb_label(self.verb, paths, names).is_some() {
                    ECS_ENABLED
                } else {
                    ECS_HIDDEN
                }
            },
            None => ECS_HIDDEN,
        }
    }

    /// Runs the command on a selection, which is kept.
    pub fn invoke(&mut self, selection: Vec<SelectedPath>, program: Option<String>) -> (launch:
        Option<Launch>)
        ensures
            final(self).verb == old(self).verb,
            final(self).paths == selection,
            launch_view(launch) == if selection@.len() == 0 || program is None {
                None
            } else {
                Some(
                    (
                        program->0@,
                        command_line::command_line(
                            context_menu::subcommand_text(old(self).verb),
                            selected(selection@),
                        ),
                    ),
                )
            },
    {
        let launch: Option<Launch> = if selection.len() == 0 {
            None
        } else {
            match program {
                Some(program) => {
                    let paths: Vec<String> = selected_paths(&selection);
                    let line: String = command_line::build_args(self.verb.subcommand(), &paths);
                    Some(Launch { program, line })
                },
                None => None,
            }
        };
        self.paths = selection;
        launch
    }
}

/// How many items of a selection are asked for at once.
pub const ITEM_BATCH: usize = 8;

/// The paths of a selection, which come in batches.
#[derive(Debug)]
pub struct ItemPaths {
    pub paths: Vec<Vec<u16>>,
    pub done: bool,
}

/// The paths that a batch adds: those that are there and not empty.
pub open spec fn batch_paths(batch: Seq<Option<Vec<u16>>>, n: int) -> Seq<Seq<u16>>
    decreases n,
{
    if n <= 0 {
        Seq::empty()
    } else {
        match batch[n - 1] {
            Some(path) => if path@.len() > 0 {
                batch_paths(batch, n - 1).push(path@)
            } else {
                batch_paths(batch, n - 1)
            },
            None => batch_paths(batch, n - 1),
        }
    }
}

/// Paths over sequences.
pub open spec fn unit_views(paths: Seq<Vec<u16>>) -> Seq<Seq<u16>> {
    Seq::new(paths.len(), |i: int| paths[i]@)
}

impl ItemPaths {
    /// No batch has come.
    pub fn new() -> (items: ItemPaths)
        ensures
            items.paths@.len() == 0,
            !items.done,
    {
        ItemPaths { paths: Vec::new(), done: false }
    }

    /// Takes a batch. One that is not full is the last.
    pub fn add_batch(&mut self, batch: Vec<Option<Vec<u16>>>)
        ensures
            unit_views(final(self).paths@) == unit_views(old(self).paths@) + batch_paths(
                batch@,
                batch@.len() as int,
            ),
            final(self).done == (batch@.len() < ITEM_BATCH),
    {
        let ghost all = batch@;
        let ghost before = unit_views(self.paths@);
        self.done = batch.len() < ITEM_BATCH;
        let mut left: Vec<Option<Vec<u16>>> = batch;
        let ghost mut taken: int = 0;
        proof {
            assert(all.subrange(0, all.len() as int) =~= all);
            assert(before + batch_paths(all, 0) =~= before);
        }
        while left.len() > 0
            invariant
                0 <= taken <= all.len(),
                left@ == all.subrange(taken, all.len() as int),
                unit_views(self.paths@) == before + batch_paths(all, taken),
                self.done == (all.len() < ITEM_BATCH),
            decreases left@.len(),
        {
            let item = left.remove(0);
            let ghost so_far = unit_views(self.paths@);
            let ghost old_part = batch_paths(all, taken);
            proof {
                assert(item == all[taken]);
                taken = taken + 1;
                assert(left@ =~= all.subrange(taken, all.len() as int));
            }
            match item {
                Some(path) => {
                    if path.len() > 0 {
                        let ghost added = path@;
                        self.paths.push(path);
                        proof {
                            assert(unit_views(self.paths@) =~= so_far.push(added));
                            assert(so_far.push(added) =~= before + old_part.push(added));
                        }
                    }
                },
                None => {},
            }
        }
    }
}

/// Every class of the library makes its own object: the class of the menu, and
/// behind it one for each command, in the order of the commands. Other classes
/// are not known.
pub proof fn law_classes_make_their_objects(i: int, class: Guid)
    ensures
        factory_of(class_id(0x6B2B_1C4A)) == Some(FactoryKind::Classic),
        factory_of(command_id(0)) == Some(FactoryKind::ExplorerCommand(Verb::Extract)),
        factory_of(command_id(1)) == Some(FactoryKind::ExplorerCommand(Verb::Zip)),
        factory_of(command_id(2)) == Some(FactoryKind::ExplorerCommand(Verb::SevenZip)),
        factory_of(command_id(3)) == Some(FactoryKind::ExplorerCommand(Verb::ZipEach)),
        factory_of(command_id(4)) == Some(FactoryKind::ExplorerCommand(Verb::SevenZipEach)),
        0 <= i < 5 ==> factory_of(command_id(i)) == Some(
            FactoryKind::ExplorerCommand(command_verb(i)),
        ),
        factory_of(class) is Some ==> class == class_id(class.data1) && 0x6B2B_1C4A <= class.data1
            <= 0x6B2B_1C4F,
{
}

/// A command of the menu runs the program with what the user chose: the name
/// of the command, the folder that was dropped on where there is one, and all
/// selected paths in order.
pub proof fn law_commands_run_the_program(
    menu: ArchiveContextMenu,
    raw_verb: usize,
    program: Seq<char>,
)
    requires
        menu.active_verbs@.len() <= 0x1_0000,
        raw_verb < menu.active_verbs@.len(),
        menu.paths@.len() > 0,
    ensures
        invoked(menu, raw_verb, Some(program)) is Ok,
        invoked(menu, raw_verb, Some(program))->Ok_0 is Some,
        ({
            let launch = invoked(menu, raw_verb, Some(program))->Ok_0->0;
            let verb = menu.active_verbs@[raw_verb as int];
            let name = context_menu::subcommand_text(verb);
            &&& launch.0 == program
            &&& menu.target_folder is None ==> command_line::read_line(launch.1) == seq![name]
                + Seq::new(menu.paths@.len(), |i: int| menu.paths@[i].path@)
            &&& menu.target_folder is Some ==> command_line::read_line(launch.1) == seq![
                name + "-to"@,
            ] + (seq![menu.target_folder->0@] + Seq::new(
                menu.paths@.len(),
                |i: int| menu.paths@[i].path@,
            ))
        }),
        invoked(menu, raw_verb, None) == Ok::<Option<(Seq<char>, Seq<char>)>, i32>(None),
{
    let verb = menu.active_verbs@[raw_verb as int];
    let all = Seq::new(menu.paths@.len(), |i: int| menu.paths@[i].path@);
    assert(selected(menu.paths@) =~= all);
    context_menu::law_names_of_commands(verb);
    match menu.target_folder {
        None => {
            command_line::law_command_line_reads_back(context_menu::subcommand_text(verb), all);
        },
        Some(folder) => {
            command_line::law_command_line_reads_back(
                context_menu::targeted_text(verb),
                seq![folder@] + all,
            );
        },
    }
}

/// A number that no command has runs nothing.
pub proof fn law_unknown_numbers_run_nothing(
    menu: ArchiveContextMenu,
    raw_verb: usize,
    program: Option<Seq<char>>,
)
    requires
        raw_verb >= menu.active_verbs@.len(),
    ensures
        invoked(menu, raw_verb, program) == Err::<Option<(Seq<char>, Seq<char>)>, i32>(E_FAIL),
{
}

/// The program that is configured is run where it exists, and the one beside
/// the library otherwise.
pub proof fn law_configured_program_comes_first(
    configured: Option<(String, bool)>,
    beside: Option<(String, bool)>,
)
    ensures
        configured is Some && (configured->0).1 ==> program_path(configured, beside) == Some(
            (configured->0).0@,
        ),
        (configured is None || !(configured->0).1) && beside is Some && (beside->0).1
            ==> program_path(configured, beside) == Some((beside->0).0@),
        (configured is None || !(configured->0).1) && (beside is None || !(beside->0).1)
            ==> program_path(configured, beside) is None,
{
}

/// A text is cut to its room, and kept whole where it fits.
pub proof fn law_texts_are_cut_to_their_room(units: Seq<u16>, room: int)
    requires
        room > 0,
    ensures
        fitting(units, room).len() < room,
        fitting(units, room).is_prefix_of(units),
        units.len() < room ==> fitting(units, room) == units,
        units.len() >= room ==> fitting(units, room).len() == room - 1,
{
    assert(units.subrange(0, fitting(units, room).len() as int) =~= fitting(units, room));
}

/// Every path of a batch that is there and not empty is taken, in order.
pub proof fn law_paths_of_a_batch_are_taken(batch: Seq<Option<Vec<u16>>>, n: int)
    requires
        0 <= n <= batch.len(),
    ensures
        (forall|i: int|
            0 <= i < n ==> (#[trigger] batch[i]) is Some && batch[i]->0@.len() > 0) ==> batch_paths(
            batch,
            n,
        ) == Seq::new(n as nat, |i: int| batch[i]->0@),
        forall|i: int|
            0 <= i < n && (#[trigger] batch[i]) is Some && batch[i]->0@.len() > 0 ==> batch_paths(
                batch,
                n,
            ).contains(batch[i]->0@),
        batch_paths(batch, n).len() <= n,
    decreases n,
{
    let now = batch_paths(batch, n);
    if n > 0 {
        law_paths_of_a_batch_are_taken(batch, n - 1);
        let before = batch_paths(batch, n - 1);
        assert forall|i: int|
            0 <= i < n && (#[trigger] batch[i]) is Some && batch[i]->0@.len()
                > 0 implies now.contains(batch[i]->0@) by {
            if i < n - 1 {
                let k = choose|k: int| 0 <= k < before.len() && before[k] == batch[i]->0@;
                assert(now[k] == before[k]);
            } else {
                assert(now[now.len() - 1] == batch[i]->0@);
            }
        }
        if forall|i: int| 0 <= i < n ==> (#[trigger] batch[i]) is Some && batch[i]->0@.len() > 0 {
            assert(batch[n - 1] is Some);
            assert(now =~= Seq::new(n as nat, |i: int| batch[i]->0@));
        }
    } else {
        assert(now =~= Seq::new(n as nat, |i: int| batch[i]->0@));
    }
}

} // verus!
