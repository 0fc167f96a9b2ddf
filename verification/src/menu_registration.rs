//! Registering the Explorer extension for a user.

use vstd::prelude::*;
use vstd::string::*;
use crate::ffi;
use crate::ffi::Guid;
use crate::registry::{
    self,
    ERROR_FILE_NOT_FOUND,
    ERROR_SUCCESS,
    RegistryOp,
    RegistryOpView,
};
use crate::shell_ext::{self, COMMANDS, MENU_CLASS};
use crate::text;

verus! {

/// The name of a command in the registry.
pub open spec fn command_name(i: int) -> Seq<char> {
    if i == 0 {
        "Extract"@
    } else if i == 1 {
        "Zip"@
    } else if i == 2 {
        "SevenZip"@
    } else if i == 3 {
        "ZipEach"@
    } else {
        "SevenZipEach"@
    }
}

/// What a command's class is described as.
pub open spec fn command_description(i: int) -> Seq<char> {
    if i == 0 {
        "ArchiveRclick extract command"@
    } else if i == 1 {
        "ArchiveRclick ZIP command"@
    } else if i == 2 {
        "ArchiveRclick 7z command"@
    } else if i == 3 {
        "ArchiveRclick per-folder ZIP command"@
    } else {
        "ArchiveRclick per-folder 7z command"@
    }
}

/// The key of a class.
pub open spec fn class_key(class: Guid) -> Seq<char> {
    "Software\\Classes\\CLSID\\"@ + ffi::guid_text(class)
}

/// The key that names a class's library.
pub open spec fn server_key(class: Guid) -> Seq<char> {
    class_key(class) + "\\InprocServer32"@
}

/// The key of a command on files.
pub open spec fn file_menu_key(i: int) -> Seq<char> {
    "Software\\Classes\\*\\shell\\ArchiveRclick"@ + command_name(i)
}

/// The key of a command on folders.
pub open spec fn folder_menu_key(i: int) -> Seq<char> {
    "Software\\Classes\\Directory\\shell\\ArchiveRclick"@ + command_name(i)
}

/// The key of the handler of drags with the right button.
pub open spec fn drag_key() -> Seq<char> {
    "Software\\Classes\\Directory\\shellex\\DragDropHandlers\\ArchiveRclick"@
}

/// Keys that earlier versions used, and that would show commands twice.
pub open spec fn outdated_keys() -> Seq<Seq<char>> {
    seq![
        "Software\\Classes\\*\\shellex\\ContextMenuHandlers\\ArchiveRclick"@,
        "Software\\Classes\\Directory\\shellex\\ContextMenuHandlers\\ArchiveRclick"@,
        "Software\\Classes\\*\\shell\\ArchiveRclick"@,
        "Software\\Classes\\Directory\\shell\\ArchiveRclick"@,
        "Software\\Classes\\Directory\\Background\\shellex\\DragDropHandlers\\ArchiveRclick"@,
    ]
}

/// The identifier of the menu's class.
pub open spec fn menu_id() -> Guid {
    shell_ext::class_id(MENU_CLASS)
}

// ---------------------------------------------------------------------------
// The changes
// ---------------------------------------------------------------------------

/// The changes that take outdated keys away.
pub open spec fn cleanup_ops() -> Seq<RegistryOpView> {
    Seq::new(5, |i: int| RegistryOpView::DeleteTree(outdated_keys()[i]))
}

/// The changes that register a class of the library.
pub open spec fn class_ops(class: Guid, description: Seq<char>, library: Seq<char>) -> Seq<
    RegistryOpView,
> {
    seq![
        RegistryOpView::SetDefault(class_key(class), description),
        RegistryOpView::SetDefault(server_key(class), library),
        RegistryOpView::SetNamed(server_key(class), "ThreadingModel"@, "Apartment"@),
    ]
}

/// The changes that register the classes of the first `n` commands.
pub open spec fn command_class_ops(library: Seq<char>, n: int) -> Seq<RegistryOpView>
    decreases n,
{
    if n <= 0 {
        Seq::empty()
    } else {
        command_class_ops(library, n - 1) + class_ops(
            shell_ext::command_id(n - 1),
            command_description(n - 1),
            library,
        )
    }
}

/// The key of a command, on files or on folders.
pub open spec fn menu_key(folders: bool, i: int) -> Seq<char> {
    if folders {
        folder_menu_key(i)
    } else {
        file_menu_key(i)
    }
}

/// The changes that put a command into the menu.
pub open spec fn menu_item_ops(key: Seq<char>, class: Guid, program: Seq<char>) -> Seq<
    RegistryOpView,
> {
    seq![
        RegistryOpView::SetNamed(key, "ExplorerCommandHandler"@, ffi::guid_text(class)),
        RegistryOpView::SetNamed(key, "CommandStateSync"@, ""@),
        RegistryOpView::SetNamed(key, "Icon"@, program + ",0"@),
    ]
}

/// The changes that put the first `n` commands into the menu.
pub open spec fn menu_ops(folders: bool, program: Seq<char>, n: int) -> Seq<RegistryOpView>
    decreases n,
{
    if n <= 0 {
        Seq::empty()
    } else {
        menu_ops(folders, program, n - 1) + menu_item_ops(
            menu_key(folders, n - 1),
            shell_ext::command_id(n - 1),
            program,
        )
    }
}

/// The changes that register the library at a path, and the program beside it.
pub open spec fn registration_ops(library: Seq<char>, program: Seq<char>) -> Seq<RegistryOpView> {
    cleanup_ops() + class_ops(menu_id(), "ArchiveRclick drag-and-drop command"@, library).push(
        RegistryOpView::SetDefault(drag_key(), ffi::guid_text(menu_id())),
    ) + command_class_ops(library, COMMANDS as int) + menu_ops(false, program, COMMANDS as int)
        + menu_ops(true, program, COMMANDS as int) + seq![
        RegistryOpView::SetNamed("Software\\ArchiveRclick"@, "ExePath"@, program),
    ]
}

/// The changes that take the classes of the first `n` commands away.
pub open spec fn class_removal_ops(n: int) -> Seq<RegistryOpView>
    decreases n,
{
    if n <= 0 {
        seq![RegistryOpView::DeleteTree(class_key(menu_id()))]
    } else {
        class_removal_ops(n - 1).push(
            RegistryOpView::DeleteTree(class_key(shell_ext::command_id(n - 1))),
        )
    }
}

/// The changes that take the first `n` commands out of the menu.
pub open spec fn menu_removal_ops(n: int) -> Seq<RegistryOpView>
    decreases n,
{
    if n <= 0 {
        seq![
            RegistryOpView::DeleteTree("Software\\Classes\\*\\shell\\ArchiveRclick"@),
            RegistryOpView::DeleteTree("Software\\Classes\\Directory\\shell\\ArchiveRclick"@),
        ]
    } else {
        menu_removal_ops(n - 1).push(RegistryOpView::DeleteTree(file_menu_key(n - 1))).push(
            RegistryOpView::DeleteTree(folder_menu_key(n - 1)),
        )
    }
}

/// The changes that take the registration away.
pub open spec fn unregistration_ops() -> Seq<RegistryOpView> {
    class_removal_ops(COMMANDS as int) + menu_removal_ops(COMMANDS as int) + seq![
        RegistryOpView::DeleteTree(outdated_keys()[0]),
        RegistryOpView::DeleteTree(outdated_keys()[1]),
        RegistryOpView::DeleteTree(outdated_keys()[4]),
        RegistryOpView::DeleteTree(drag_key()),
        RegistryOpView::DeleteValue("Software\\ArchiveRclick"@, "ExePath"@),
    ]
}

// ---------------------------------------------------------------------------
// The same, executable
// ---------------------------------------------------------------------------

/// [`command_name`], executable.
fn name_of(i: usize) -> (name: &'static str)
    ensures
        name@ == command_name(i as int),
{
    match i {
        0 => "Extract",
        1 => "Zip",
        2 => "SevenZip",
        3 => "ZipEach",
        _ => "SevenZipEach",
    }
}

/// [`command_description`], executable.
fn description_of(i: usize) -> (description: &'static str)
    ensures
        description@ == command_description(i as int),
{
    match i {
        0 => "ArchiveRclick extract command",
        1 => "ArchiveRclick ZIP command",
        2 => "ArchiveRclick 7z command",
        3 => "ArchiveRclick per-folder ZIP command",
        _ => "ArchiveRclick per-folder 7z command",
    }
}

/// The identifier of a command's class.
fn command_guid(i: usize) -> (id: Guid)
    requires
        i < COMMANDS,
    ensures
        id == shell_ext::command_id(i as int),
{
    shell_ext::class_guid(MENU_CLASS + 1 + i as u32)
}

/// [`class_key`], executable.
fn key_of_class(class: Guid) -> (key: String)
    ensures
        key@ == class_key(class),
{
    text::join("Software\\Classes\\CLSID\\", ffi::guid_string_for(class).as_str())
}

/// [`server_key`], executable.
fn key_of_server(class: Guid) -> (key: String)
    ensures
        key@ == server_key(class),
{
    text::join(key_of_class(class).as_str(), "\\InprocServer32")
}

/// [`menu_key`], executable.
fn key_of_menu(folders: bool, i: usize) -> (key: String)
    ensures
        key@ == menu_key(folders, i as int),
{
    if folders {
        text::join("Software\\Classes\\Directory\\shell\\ArchiveRclick", name_of(i))
    } else {
        text::join("Software\\Classes\\*\\shell\\ArchiveRclick", name_of(i))
    }
}

/// A change that deletes a key.
fn delete_tree(key: &str) -> (op: RegistryOp)
    ensures
        op@ == RegistryOpView::DeleteTree(key@),
{
    RegistryOp::DeleteTree(key.to_owned())
}

/// Adds [`cleanup_ops`] to a list that is empty.
fn add_cleanup() -> (ops: Vec<RegistryOp>)
    ensures
        registry::op_views(ops@) == cleanup_ops(),
{
    let mut ops: Vec<RegistryOp> = Vec::new();
    registry::add_op(
        &mut ops,
        delete_tree("Software\\Classes\\*\\shellex\\ContextMenuHandlers\\ArchiveRclick"),
    );
    registry::add_op(
        &mut ops,
        delete_tree("Software\\Classes\\Directory\\shellex\\ContextMenuHandlers\\ArchiveRclick"),
    );
    registry::add_op(&mut ops, delete_tree("Software\\Classes\\*\\shell\\ArchiveRclick"));
    registry::add_op(&mut ops, delete_tree("Software\\Classes\\Directory\\shell\\ArchiveRclick"));
    registry::add_op(
        &mut ops,
        delete_tree(
            "Software\\Classes\\Directory\\Background\\shellex\\DragDropHandlers\\ArchiveRclick",
        ),
    );
    proof {
        assert(registry::op_views(ops@) =~= cleanup_ops());
    }
    ops
}

/// Adds [`class_ops`] to a list.
fn add_class(ops: &mut Vec<RegistryOp>, class: Guid, description: &str, library: &str)
    ensures
        registry::op_views(final(ops)@) == registry::op_views(old(ops)@) + class_ops(
            class,
            description@,
            library@,
        ),
{
    let key: String = key_of_class(class);
    let server: String = key_of_server(class);
    registry::add_op(ops, registry::set_default(key.as_str(), description));
    registry::add_op(ops, registry::set_default(server.as_str(), library));
    registry::add_op(ops, registry::set_named(server.as_str(), "ThreadingModel", "Apartment"));
    proof {
        assert(registry::op_views(ops@) =~= registry::op_views(old(ops)@) + class_ops(
            class,
            description@,
            library@,
        ));
    }
}

/// Adds [`command_class_ops`] to a list.
fn add_command_classes(ops: &mut Vec<RegistryOp>, library: &str)
    ensures
        registry::op_views(final(ops)@) == registry::op_views(old(ops)@) + command_class_ops(
            library@,
            COMMANDS as int,
        ),
{
    let mut i: usize = 0;
    let ghost before = registry::op_views(ops@);
    proof {
        assert(before + command_class_ops(library@, 0) =~= before);
    }
    while i < COMMANDS
        invariant
            i <= COMMANDS,
            registry::op_views(ops@) == before + command_class_ops(library@, i as int),
        decreases COMMANDS - i,
    {
        add_class(ops, command_guid(i), description_of(i), library);
        i += 1;
        proof {
            assert(registry::op_views(ops@) =~= before + command_class_ops(library@, i as int));
        }
    }
}

/// Adds [`menu_ops`] to a list.
fn add_menu(ops: &mut Vec<RegistryOp>, folders: bool, program: &str)
    ensures
        registry::op_views(final(ops)@) == registry::op_views(old(ops)@) + menu_ops(
            folders,
            program@,
            COMMANDS as int,
        ),
{
    let icon: String = text::join(program, ",0");
    let mut i: usize = 0;
    let ghost before = registry::op_views(ops@);
    proof {
        assert(before + menu_ops(folders, program@, 0) =~= before);
    }
    while i < COMMANDS
        invariant
            i <= COMMANDS,
            icon@ == program@ + ",0"@,
            registry::op_views(ops@) == before + menu_ops(folders, program@, i as int),
        decreases COMMANDS - i,
    {
        let ghost so_far = menu_ops(folders, program@, i as int);
        let key: String = key_of_menu(folders, i);
        let class: Guid = command_guid(i);
        registry::add_op(
            ops,
            registry::set_named(
                key.as_str(),
                "ExplorerCommandHandler",
                ffi::guid_string_for(class).as_str(),
            ),
        );
        registry::add_op(ops, registry::set_named(key.as_str(), "CommandStateSync", ""));
        registry::add_op(ops, registry::set_named(key.as_str(), "Icon", icon.as_str()));
        proof {
            assert(registry::op_views(ops@) =~= before + (so_far + menu_item_ops(
                menu_key(folders, i as int),
                class,
                program@,
            )));
        }
        i += 1;
    }
}

/// The changes that register the library at a path. `program` is the path of
/// the program beside it, where the library's path names a folder.
pub fn register_context_menu(library: &str, is_file: bool, program: Option<String>) -> (ops: Result<
    Vec<RegistryOp>,
    String,
>)
    ensures
        match ops {
            Ok(ops) => is_file && program is Some && registry::op_views(ops@) == registration_ops(
                library@,
                program->0@,
            ),
            Err(message) => if !is_file {
                message@ == "The shell extension DLL does not exist: "@ + library@
            } else {
                program is None && message@ == "could not resolve the shell extension directory"@
            },
        },
{
    if !is_file {
        return Err(text::join("The shell extension DLL does not exist: ", library));
    }
    let program: String = match program {
        Some(program) => program,
        None => {
            return Err("could not resolve the shell extension directory".to_owned());
        },
    };
    let mut ops: Vec<RegistryOp> = add_cleanup();
    let menu: Guid = shell_ext::class_guid(MENU_CLASS);
    add_class(&mut ops, menu, "ArchiveRclick drag-and-drop command", library);
    registry::add_op(
        &mut ops,
        registry::set_default(
            "Software\\Classes\\Directory\\shellex\\DragDropHandlers\\ArchiveRclick",
            ffi::guid_string_for(menu).as_str(),
        ),
    );
    proof {
        assert(registry::op_views(ops@) =~= cleanup_ops() + class_ops(
            menu_id(),
            "ArchiveRclick drag-and-drop command"@,
            library@,
        ).push(RegistryOpView::SetDefault(drag_key(), ffi::guid_text(menu_id()))));
    }
    add_command_classes(&mut ops, library);
    add_menu(&mut ops, false, program.as_str());
    add_menu(&mut ops, true, program.as_str());
    registry::add_op(
        &mut ops,
        registry::set_named("Software\\ArchiveRclick", "ExePath", program.as_str()),
    );
    proof {
        assert(registry::op_views(ops@) =~= registration_ops(library@, program@));
    }
    Ok(ops)
}

/// [`class_removal_ops`], executable.
fn class_removals() -> (ops: Vec<RegistryOp>)
    ensures
        registry::op_views(ops@) == class_removal_ops(COMMANDS as int),
{
    let mut ops: Vec<RegistryOp> = Vec::new();
    registry::add_op(
        &mut ops,
        delete_tree(key_of_class(shell_ext::class_guid(MENU_CLASS)).as_str()),
    );
    let mut i: usize = 0;
    proof {
        assert(registry::op_views(ops@) =~= class_removal_ops(0));
    }
    while i < COMMANDS
        invariant
            i <= COMMANDS,
            registry::op_views(ops@) == class_removal_ops(i as int),
        decreases COMMANDS - i,
    {
        registry::add_op(&mut ops, delete_tree(key_of_class(command_guid(i)).as_str()));
        i += 1;
    }
    ops
}

/// Adds [`menu_removal_ops`] to a list.
fn add_menu_removals(ops: &mut Vec<RegistryOp>)
    ensures
        registry::op_views(final(ops)@) == registry::op_views(old(ops)@) + menu_removal_ops(
            COMMANDS as int,
        ),
{
    let ghost before = registry::op_views(ops@);
    registry::add_op(ops, delete_tree("Software\\Classes\\*\\shell\\ArchiveRclick"));
    registry::add_op(ops, delete_tree("Software\\Classes\\Directory\\shell\\ArchiveRclick"));
    let mut i: usize = 0;
    proof {
        assert(registry::op_views(ops@) =~= before + menu_removal_ops(0));
    }
    while i < COMMANDS
        invariant
            i <= COMMANDS,
            registry::op_views(ops@) == before + menu_removal_ops(i as int),
        decreases COMMANDS - i,
    {
        registry::add_op(ops, delete_tree(key_of_menu(false, i).as_str()));
        registry::add_op(ops, delete_tree(key_of_menu(true, i).as_str()));
        i += 1;
        proof {
            assert(registry::op_views(ops@) =~= before + menu_removal_ops(i as int));
        }
    }
}

/// The changes that take the registration away. The settings stay.
pub fn unregister_context_menu() -> (ops: Vec<RegistryOp>)
    ensures
        registry::op_views(ops@) == unregistration_ops(),
{
    let mut ops: Vec<RegistryOp> = class_removals();
    add_menu_removals(&mut ops);
    registry::add_op(
        &mut ops,
        delete_tree("Software\\Classes\\*\\shellex\\ContextMenuHandlers\\ArchiveRclick"),
    );
    registry::add_op(
        &mut ops,
        delete_tree("Software\\Classes\\Directory\\shellex\\ContextMenuHandlers\\ArchiveRclick"),
    );
    registry::add_op(
        &mut ops,
        delete_tree(
            "Software\\Classes\\Directory\\Background\\shellex\\DragDropHandlers\\ArchiveRclick",
        ),
    );
    registry::add_op(
        &mut ops,
        delete_tree("Software\\Classes\\Directory\\shellex\\DragDropHandlers\\ArchiveRclick"),
    );
    registry::add_op(
        &mut ops,
        RegistryOp::DeleteValue("Software\\ArchiveRclick".to_owned(), "ExePath".to_owned()),
    );
    proof {
        assert(registry::op_views(ops@) =~= unregistration_ops());
    }
    ops
}

/// What a change comes to. `opened` is the status of opening the key,
/// `changed` that of the change; `shown` is how the status that is not a
/// success is shown.
pub fn change_outcome(op: &RegistryOp, opened: u32, changed: u32, shown: &str) -> (done: Result<
    (),
    String,
>)
    ensures
        registry::message_view(done) == change_result(op@, opened, changed, shown@),
{
    let mut message: String = match op {
        RegistryOp::SetDefault(key, _) | RegistryOp::SetNamed(key, _, _) => {
            if opened != ERROR_SUCCESS {
                text::join("could not open registry key ", key.as_str())
            } else if changed != ERROR_SUCCESS {
                text::join("could not write registry value ", key.as_str())
            } else {
                return Ok(());
            }
        },
        RegistryOp::DeleteTree(key) => {
            if changed != ERROR_SUCCESS && changed != ERROR_FILE_NOT_FOUND {
                text::join("could not delete registry key ", key.as_str())
            } else {
                return Ok(());
            }
        },
        RegistryOp::DeleteValue(key, name) => {
            if opened != ERROR_SUCCESS {
                text::join("could not open registry key ", key.as_str())
            } else if changed != ERROR_SUCCESS && changed != ERROR_FILE_NOT_FOUND {
                let mut message = text::join3("could not delete registry value ", key.as_str(), "\\");
                message.append(name.as_str());
                message
            } else {
                return Ok(());
            }
        },
    };
    message.append(" (error ");
    message.append(shown);
    message.append(")");
    Err(message)
}

/// What a change comes to.
pub open spec fn change_result(op: RegistryOpView, opened: u32, changed: u32, shown: Seq<char>) -> Result<
    (),
    Seq<char>,
> {
    let kept = changed != ERROR_SUCCESS && changed != ERROR_FILE_NOT_FOUND;
    let failed = match op {
        RegistryOpView::SetDefault(key, _) | RegistryOpView::SetNamed(key, _, _) => if opened
            != ERROR_SUCCESS {
            Some("could not open registry key "@ + key)
        } else if changed != ERROR_SUCCESS {
            Some("could not write registry value "@ + key)
        } else {
            None
        },
        RegistryOpView::DeleteTree(key) => if kept {
            Some("could not delete registry key "@ + key)
        } else {
            None
        },
        RegistryOpView::DeleteValue(key, name) => if opened != ERROR_SUCCESS {
            Some("could not open registry key "@ + key)
        } else if kept {
            Some("could not delete registry value "@ + key + "\\"@ + name)
        } else {
            None
        },
    };
    match failed {
        Some(message) => Err(message + " (error "@ + shown + ")"@),
        None => Ok(()),
    }
}

// ---------------------------------------------------------------------------
// Whether it is registered
// ---------------------------------------------------------------------------

/// The keys that are there while the extension is registered.
pub open spec fn required_keys() -> Seq<Seq<char>> {
    seq![server_key(menu_id()), drag_key()] + Seq::new(
        5,
        |i: int| server_key(shell_ext::command_id(i)),
    ) + Seq::new(10, |i: int| menu_key(i % 2 == 1, i / 2))
}

/// The keys that are not there while the extension is registered.
pub open spec fn forbidden_keys() -> Seq<Seq<char>> {
    outdated_keys().take(4)
}

/// Whether the extension is registered, by the keys that are there.
pub open spec fn is_registered(present: Seq<Seq<char>>) -> bool {
    &&& forall|i: int|
        0 <= i < required_keys().len() ==> present.contains(#[trigger] required_keys()[i])
    &&& forall|i: int|
        0 <= i < forbidden_keys().len() ==> !present.contains(#[trigger] forbidden_keys()[i])
}

/// [`required_keys`], executable.
pub fn required_key_list() -> (keys: Vec<String>)
    ensures
        text::texts(keys@) == required_keys(),
{
    let mut keys: Vec<String> = Vec::new();
    keys.push(key_of_server(shell_ext::class_guid(MENU_CLASS)));
    keys.push("Software\\Classes\\Directory\\shellex\\DragDropHandlers\\ArchiveRclick".to_owned());
    let mut i: usize = 0;
    while i < COMMANDS
        invariant
            i <= COMMANDS,
            keys@.len() == 2 + i,
            forall|k: int| 0 <= k < 2 + i ==> (#[trigger] keys@[k])@ == required_keys()[k],
        decreases COMMANDS - i,
    {
        keys.push(key_of_server(command_guid(i)));
        i += 1;
    }
    let mut j: usize = 0;
    while j < 10
        invariant
            j <= 10,
            keys@.len() == 7 + j,
            forall|k: int| 0 <= k < 7 + j ==> (#[trigger] keys@[k])@ == required_keys()[k],
        decreases 10 - j,
    {
        keys.push(key_of_menu(j % 2 == 1, j / 2));
        j += 1;
    }
    proof {
        assert(text::texts(keys@) =~= required_keys());
    }
    keys
}

/// [`forbidden_keys`], executable.
pub fn forbidden_key_list() -> (keys: Vec<String>)
    ensures
        text::texts(keys@) == forbidden_keys(),
{
    let mut keys: Vec<String> = Vec::new();
    keys.push("Software\\Classes\\*\\shellex\\ContextMenuHandlers\\ArchiveRclick".to_owned());
    keys.push(
        "Software\\Classes\\Directory\\shellex\\ContextMenuHandlers\\ArchiveRclick".to_owned(),
    );
    keys.push("Software\\Classes\\*\\shell\\ArchiveRclick".to_owned());
    keys.push("Software\\Classes\\Directory\\shell\\ArchiveRclick".to_owned());
    proof {
        assert(text::texts(keys@) =~= forbidden_keys());
    }
    keys
}

/// Whether a key is among those that are there.
fn is_present(present: &Vec<String>, key: &str) -> (yes: bool)
    ensures
        yes == text::texts(present@).contains(key@),
{
    let mut i: usize = 0;
    while i < present.len()
        invariant
            i <= present@.len(),
            forall|k: int| 0 <= k < i ==> (#[trigger] present@[k])@ != key@,
        decreases present@.len() - i,
    {
        if text::same_text(present[i].as_str(), key) {
            proof {
                assert(text::texts(present@)[i as int] == key@);
            }
            return true;
        }
        i += 1;
    }
    proof {
        if text::texts(present@).contains(key@) {
            let k = choose|k: int| 0 <= k < present@.len() && text::texts(present@)[k] == key@;
            assert(present@[k]@ != key@);
        }
    }
    false
}

/// Whether the extension is registered: [`is_registered`], executable.
pub fn is_context_menu_registered(present: &Vec<String>) -> (yes: bool)
    ensures
        yes == is_registered(text::texts(present@)),
{
    let required: Vec<String> = required_key_list();
    let forbidden: Vec<String> = forbidden_key_list();
    let ghost keys = text::texts(present@);
    proof {
        assert(text::texts(required@).len() == required@.len());
        assert(text::texts(forbidden@).len() == forbidden@.len());
    }
    let mut i: usize = 0;
    while i < required.len()
        invariant
            i <= required@.len(),
            keys == text::texts(present@),
            text::texts(required@) == required_keys(),
            forall|k: int| 0 <= k < i ==> keys.contains(#[trigger] required_keys()[k]),
        decreases required@.len() - i,
    {
        proof {
            assert(required_keys()[i as int] == required@[i as int]@);
        }
        if !is_present(present, required[i].as_str()) {
            return false;
        }
        i += 1;
    }
    let mut j: usize = 0;
    while j < forbidden.len()
        invariant
            j <= forbidden@.len(),
            keys == text::texts(present@),
            text::texts(forbidden@) == forbidden_keys(),
            forall|k: int| 0 <= k < j ==> !keys.contains(#[trigger] forbidden_keys()[k]),
        decreases forbidden@.len() - j,
    {
        proof {
            assert(forbidden_keys()[j as int] == forbidden@[j as int]@);
        }
        if is_present(present, forbidden[j].as_str()) {
            return false;
        }
        j += 1;
    }
    true
}

// ---------------------------------------------------------------------------
// Laws
// ---------------------------------------------------------------------------

/// Whether a change sets a value of a key.
pub open spec fn sets_key(op: RegistryOpView, key: Seq<char>) -> bool {
    match op {
        RegistryOpView::SetDefault(set_key, _) | RegistryOpView::SetNamed(set_key, _, _) => set_key
            == key,
        _ => false,
    }
}

/// Whether a change makes sure of a key, by setting a value at or below it.
pub open spec fn makes_key(op: RegistryOpView, key: Seq<char>) -> bool {
    match op {
        RegistryOpView::SetDefault(set_key, _) | RegistryOpView::SetNamed(set_key, _, _) =>
            registry::is_at_or_below(set_key, key),
        _ => false,
    }
}

/// Whether a change takes a key away.
pub open spec fn takes_key(op: RegistryOpView, key: Seq<char>) -> bool {
    match op {
        RegistryOpView::DeleteTree(tree) => registry::is_at_or_below(key, tree),
        _ => false,
    }
}

/// Whether a key is there once changes have been made, at the latest by change
/// `i`.
pub open spec fn present_from(ops: Seq<RegistryOpView>, key: Seq<char>, i: int) -> bool {
    &&& 0 <= i < ops.len()
    &&& sets_key(ops[i], key)
    &&& forall|j: int| i < j < ops.len() ==> !takes_key(#[trigger] ops[j], key)
}

/// Whether a key is gone once changes have been made, at the latest by change
/// `i`.
pub open spec fn absent_from(ops: Seq<RegistryOpView>, key: Seq<char>, i: int) -> bool {
    &&& 0 <= i < ops.len()
    &&& takes_key(ops[i], key)
    &&& forall|j: int| i < j < ops.len() ==> !makes_key(#[trigger] ops[j], key)
}

/// Whether a key is there once changes have been made, whatever was there
/// before.
pub open spec fn is_present_after(ops: Seq<RegistryOpView>, key: Seq<char>) -> bool {
    exists|i: int| present_from(ops, key, i)
}

/// Whether a key is gone once changes have been made, whatever was there
/// before.
pub open spec fn is_absent_after(ops: Seq<RegistryOpView>, key: Seq<char>) -> bool {
    exists|i: int| absent_from(ops, key, i)
}

/// Where the changes for a command stand among those for all of them.
proof fn lemma_command_ops(library: Seq<char>, program: Seq<char>, folders: bool, n: int, i: int)
    requires
        0 <= i < n <= COMMANDS,
    ensures
        command_class_ops(library, n).len() == 3 * n,
        menu_ops(folders, program, n).len() == 3 * n,
        forall|r: int|
            #![trigger command_class_ops(library, n)[3 * i + r]]
            0 <= r < 3 ==> command_class_ops(library, n)[3 * i + r] == class_ops(
                shell_ext::command_id(i),
                command_description(i),
                library,
            )[r],
        forall|r: int|
            #![trigger menu_ops(folders, program, n)[3 * i + r]]
            0 <= r < 3 ==> menu_ops(folders, program, n)[3 * i + r] == menu_item_ops(
                menu_key(folders, i),
                shell_ext::command_id(i),
                program,
            )[r],
    decreases n,
{
    reveal_with_fuel(command_class_ops, 2);
    reveal_with_fuel(menu_ops, 2);
    if n > 1 {
        if i < n - 1 {
            lemma_command_ops(library, program, folders, n - 1, i);
        } else {
            lemma_command_ops(library, program, folders, n - 1, n - 2);
        }
    }
}

/// A key that differs from another one somewhere is not below it.
proof fn lemma_differs(key: Seq<char>, above: Seq<char>, at: int)
    requires
        0 <= at < key.len(),
        at < above.len(),
        key[at] != above[at],
    ensures
        !registry::is_at_or_below(key, above),
{
    if above.push('\\').is_prefix_of(key) {
        assert(above.push('\\')[at] == key.subrange(0, above.len() as int + 1)[at]);
    }
}

/// The keys that are set are not below the forbidden ones.
proof fn lemma_menu_keys(folders: bool, i: int, k: int)
    requires
        0 <= i < COMMANDS,
        0 <= k < 4,
    ensures
        !registry::is_at_or_below(menu_key(folders, i), outdated_keys()[k]),
{
    reveal_strlit("Software\\Classes\\*\\shellex\\ContextMenuHandlers\\ArchiveRclick");
    reveal_strlit("Software\\Classes\\Directory\\shellex\\ContextMenuHandlers\\ArchiveRclick");
    reveal_strlit("Software\\Classes\\*\\shell\\ArchiveRclick");
    reveal_strlit("Software\\Classes\\Directory\\shell\\ArchiveRclick");
    reveal_strlit("Extract");
    reveal_strlit("Zip");
    reveal_strlit("SevenZip");
    reveal_strlit("ZipEach");
    reveal_strlit("SevenZipEach");
    let key = menu_key(folders, i);
    let above = outdated_keys()[k];
    let name = command_name(i);
    assert(name.len() > 0 && name[0] != '\\');
    if k == (if folders { 3int } else { 2 }) {
        assert(key == above + name);
        assert(key[above.len() as int] == name[0]);
        if above.push('\\').is_prefix_of(key) {
            assert(above.push('\\')[above.len() as int] == key.subrange(
                0,
                above.len() as int + 1,
            )[above.len() as int]);
        }
    } else if folders {
        if k == 1 {
            lemma_differs(key, above, 32);
        } else {
            lemma_differs(key, above, 17);
        }
    } else {
        if k == 0 {
            lemma_differs(key, above, 24);
        } else {
            lemma_differs(key, above, 17);
        }
    }
}

/// The other keys that are set are not below the forbidden ones.
proof fn lemma_other_keys(class: Guid, k: int)
    requires
        0 <= k < 4,
    ensures
        !registry::is_at_or_below(class_key(class), outdated_keys()[k]),
        !registry::is_at_or_below(server_key(class), outdated_keys()[k]),
        !registry::is_at_or_below(drag_key(), outdated_keys()[k]),
        !registry::is_at_or_below("Software\\ArchiveRclick"@, outdated_keys()[k]),
{
    reveal_strlit("Software\\Classes\\*\\shellex\\ContextMenuHandlers\\ArchiveRclick");
    reveal_strlit("Software\\Classes\\Directory\\shellex\\ContextMenuHandlers\\ArchiveRclick");
    reveal_strlit("Software\\Classes\\*\\shell\\ArchiveRclick");
    reveal_strlit("Software\\Classes\\Directory\\shell\\ArchiveRclick");
    reveal_strlit("Software\\Classes\\Directory\\shellex\\DragDropHandlers\\ArchiveRclick");
    reveal_strlit("Software\\Classes\\CLSID\\");
    reveal_strlit("Software\\ArchiveRclick");
    let above = outdated_keys()[k];
    lemma_differs(class_key(class), above, 17);
    lemma_differs(server_key(class), above, 17);
    lemma_differs("Software\\ArchiveRclick"@, above, 9);
    if k == 0 || k == 2 {
        lemma_differs(drag_key(), above, 17);
    } else if k == 1 {
        lemma_differs(drag_key(), above, 35);
    } else {
        lemma_differs(drag_key(), above, 32);
    }
}

/// What the changes behind the first five do: they set values, none of them at
/// or below a forbidden key.
proof fn lemma_later_ops(library: Seq<char>, program: Seq<char>, j: int, k: int)
    requires
        5 <= j < registration_ops(library, program).len(),
        0 <= k < 4,
    ensures
        !(registration_ops(library, program)[j] is DeleteTree),
        !makes_key(registration_ops(library, program)[j], outdated_keys()[k]),
{
    lemma_command_ops(library, program, false, COMMANDS as int, 0);
    lemma_command_ops(library, program, true, COMMANDS as int, 0);
    let op = registration_ops(library, program)[j];
    lemma_other_keys(menu_id(), k);
    if j < 9 {
    } else if j < 24 {
        let i = (j - 9) / 3;
        let r = (j - 9) % 3;
        lemma_command_ops(library, program, false, COMMANDS as int, i);
        lemma_other_keys(shell_ext::command_id(i), k);
        assert(op == command_class_ops(library, COMMANDS as int)[3 * i + r]);
    } else if j < 39 {
        let i = (j - 24) / 3;
        let r = (j - 24) % 3;
        lemma_command_ops(library, program, false, COMMANDS as int, i);
        lemma_menu_keys(false, i, k);
        assert(op == menu_ops(false, program, COMMANDS as int)[3 * i + r]);
    } else if j < 54 {
        let i = (j - 39) / 3;
        let r = (j - 39) % 3;
        lemma_command_ops(library, program, true, COMMANDS as int, i);
        lemma_menu_keys(true, i, k);
        assert(op == menu_ops(true, program, COMMANDS as int)[3 * i + r]);
    }
}

/// Registering registers: once its changes have been made, whatever was there
/// before, the required keys are there and the forbidden ones are not.
pub proof fn law_registering_registers(library: Seq<char>, program: Seq<char>)
    ensures
        forall|k: int|
            0 <= k < required_keys().len() ==> is_present_after(
                registration_ops(library, program),
                #[trigger] required_keys()[k],
            ),
        forall|k: int|
            0 <= k < forbidden_keys().len() ==> is_absent_after(
                registration_ops(library, program),
                #[trigger] forbidden_keys()[k],
            ),
{
    let ops = registration_ops(library, program);
    let n = COMMANDS as int;
    lemma_command_ops(library, program, false, n, 0);
    lemma_command_ops(library, program, true, n, 0);
    assert(ops.len() == 55);
    assert forall|j: int| 5 <= j < 55 implies !(#[trigger] ops[j] is DeleteTree) by {
        lemma_later_ops(library, program, j, 0);
    }
    assert forall|k: int| 0 <= k < required_keys().len() implies is_present_after(
        ops,
        #[trigger] required_keys()[k],
    ) by {
        let key = required_keys()[k];
        if k == 0 {
            assert(present_from(ops, key, 6));
        } else if k == 1 {
            assert(present_from(ops, key, 8));
        } else if k < 7 {
            let i = k - 2;
            lemma_command_ops(library, program, false, n, i);
            assert(ops[9 + (3 * i + 1)] == command_class_ops(library, n)[3 * i + 1]);
            assert(present_from(ops, key, 9 + (3 * i + 1)));
        } else {
            let i = (k - 7) / 2;
            if (k - 7) % 2 == 1 {
                lemma_command_ops(library, program, true, n, i);
                assert(ops[39 + (3 * i + 0)] == menu_ops(true, program, n)[3 * i + 0]);
                assert(present_from(ops, key, 39 + (3 * i + 0)));
            } else {
                lemma_command_ops(library, program, false, n, i);
                assert(ops[24 + (3 * i + 0)] == menu_ops(false, program, n)[3 * i + 0]);
                assert(present_from(ops, key, 24 + (3 * i + 0)));
            }
        }
    }
    assert forall|k: int| 0 <= k < forbidden_keys().len() implies is_absent_after(
        ops,
        #[trigger] forbidden_keys()[k],
    ) by {
        let key = forbidden_keys()[k];
        assert(key == outdated_keys()[k]);
        assert(ops[k] == RegistryOpView::DeleteTree(key));
        assert forall|j: int| k < j < ops.len() implies !makes_key(#[trigger] ops[j], key) by {
            if j >= 5 {
                lemma_later_ops(library, program, j, k);
            } else {
                assert(ops[j] == cleanup_ops()[j]);
            }
        }
        assert(absent_from(ops, key, k));
    }
}

/// Where the changes that take things away stand.
proof fn lemma_removals(n: int, i: int)
    requires
        0 <= i < n <= COMMANDS,
    ensures
        class_removal_ops(n).len() == n + 1,
        menu_removal_ops(n).len() == 2 * n + 2,
        class_removal_ops(n)[0] == RegistryOpView::DeleteTree(class_key(menu_id())),
        class_removal_ops(n)[i + 1] == RegistryOpView::DeleteTree(
            class_key(shell_ext::command_id(i)),
        ),
        menu_removal_ops(n)[2 * i + 2] == RegistryOpView::DeleteTree(file_menu_key(i)),
        menu_removal_ops(n)[2 * i + 3] == RegistryOpView::DeleteTree(folder_menu_key(i)),
    decreases n,
{
    reveal_with_fuel(class_removal_ops, 2);
    reveal_with_fuel(menu_removal_ops, 2);
    if n > 1 {
        if i < n - 1 {
            lemma_removals(n - 1, i);
        } else {
            lemma_removals(n - 1, n - 2);
        }
    }
}

/// The key of a class's library is below that of the class.
proof fn lemma_server_below(class: Guid)
    ensures
        registry::is_at_or_below(server_key(class), class_key(class)),
{
    reveal_strlit("\\InprocServer32");
    let key = class_key(class);
    assert(key.push('\\') =~= server_key(class).subrange(0, key.len() as int + 1));
}

/// Whether unregistering takes back a change.
pub open spec fn is_undone(op: RegistryOpView) -> bool {
    exists|i: int|
        0 <= i < unregistration_ops().len() && registry::undoes(
            #[trigger] unregistration_ops()[i],
            op,
        )
}

/// Unregistering takes back every value that registering set, and no required
/// key is left.
pub proof fn law_unregistering_undoes(library: Seq<char>, program: Seq<char>, j: int, k: int)
    requires
        5 <= j < registration_ops(library, program).len(),
        0 <= k < required_keys().len(),
    ensures
        is_undone(registration_ops(library, program)[j]),
        is_absent_after(unregistration_ops(), required_keys()[k]),
{
    let undo = unregistration_ops();
    let n = COMMANDS as int;
    lemma_removals(n, 0);
    lemma_command_ops(library, program, false, n, 0);
    lemma_command_ops(library, program, true, n, 0);
    assert(undo.len() == 23);
    assert(undo[0] == class_removal_ops(n)[0]);
    assert(undo[21] == RegistryOpView::DeleteTree(drag_key()));
    assert(undo[22] == RegistryOpView::DeleteValue("Software\\ArchiveRclick"@, "ExePath"@));
    lemma_server_below(menu_id());
    let op = registration_ops(library, program)[j];
    if j < 8 {
        assert(registry::undoes(undo[0], op));
    } else if j == 8 {
        assert(registry::undoes(undo[21], op));
    } else if j < 24 {
        let i = (j - 9) / 3;
        let r = (j - 9) % 3;
        lemma_command_ops(library, program, false, n, i);
        lemma_removals(n, i);
        lemma_server_below(shell_ext::command_id(i));
        assert(op == command_class_ops(library, n)[3 * i + r]);
        assert(undo[i + 1] == class_removal_ops(n)[i + 1]);
        assert(registry::undoes(undo[i + 1], op));
    } else if j < 54 {
        let folders = j >= 39;
        let at = if folders {
            j - 39
        } else {
            j - 24
        };
        let i = at / 3;
        let r = at % 3;
        lemma_command_ops(library, program, folders, n, i);
        lemma_removals(n, i);
        assert(op == menu_ops(folders, program, n)[3 * i + r]);
        let place = if folders {
            9 + 2 * i
        } else {
            8 + 2 * i
        };
        assert(undo[place] == menu_removal_ops(n)[place - 6]);
        assert(registry::undoes(undo[place], op));
    } else {
        assert(registry::undoes(undo[22], op));
    }
    lemma_nothing_is_made(k);
    let key = required_keys()[k];
    if k == 0 {
        assert(absent_from(undo, key, 0));
    } else if k == 1 {
        assert(absent_from(undo, key, 21));
    } else if k < 7 {
        let i = k - 2;
        lemma_removals(n, i);
        lemma_server_below(shell_ext::command_id(i));
        assert(undo[i + 1] == class_removal_ops(n)[i + 1]);
        assert(absent_from(undo, key, i + 1));
    } else {
        let i = (k - 7) / 2;
        lemma_removals(n, i);
        let place = if (k - 7) % 2 == 1 {
            9 + 2 * i
        } else {
            8 + 2 * i
        };
        assert(undo[place] == menu_removal_ops(n)[place - 6]);
        assert(absent_from(undo, key, place));
    }
}

/// Unregistering sets nothing.
proof fn lemma_nothing_is_made(k: int)
    requires
        0 <= k < required_keys().len(),
    ensures
        forall|j: int|
            0 <= j < unregistration_ops().len() ==> !makes_key(
                #[trigger] unregistration_ops()[j],
                required_keys()[k],
            ),
{
    let undo = unregistration_ops();
    let n = COMMANDS as int;
    lemma_removals(n, 0);
    assert forall|j: int| 0 <= j < undo.len() implies !makes_key(
        #[trigger] undo[j],
        required_keys()[k],
    ) by {
        if 0 < j < 6 {
            lemma_removals(n, j - 1);
            assert(undo[j] == class_removal_ops(n)[j]);
        } else if 8 <= j < 18 {
            lemma_removals(n, (j - 8) / 2);
            assert(undo[j] == menu_removal_ops(n)[j - 6]);
        } else if 6 <= j < 8 {
            lemma_first_removals(n);
            assert(undo[j] == menu_removal_ops(n)[j - 6]);
        } else if j == 0 {
            assert(undo[j] == class_removal_ops(n)[j]);
        }
    }
}

/// The first two keys that are taken out of the menu.
proof fn lemma_first_removals(n: int)
    requires
        0 <= n <= COMMANDS,
    ensures
        menu_removal_ops(n).len() == 2 * n + 2,
        menu_removal_ops(n)[0] is DeleteTree,
        menu_removal_ops(n)[1] is DeleteTree,
    decreases n,
{
    reveal_with_fuel(menu_removal_ops, 2);
    if n > 0 {
        lemma_first_removals(n - 1);
    }
}

/// Whether a change deletes a key among the classes.
pub open spec fn deletes_class_key(op: RegistryOpView) -> bool {
    op matches RegistryOpView::DeleteTree(key) && "Software\\Classes\\"@.is_prefix_of(key)
}

/// A text that is put behind another starts with it.
proof fn lemma_starts(first: Seq<char>, second: Seq<char>, start: Seq<char>)
    requires
        start.is_prefix_of(first),
    ensures
        start.is_prefix_of(first + second),
{
    assert(first.subrange(0, start.len() as int) =~= (first + second).subrange(
        0,
        start.len() as int,
    ));
}

/// Every key that is deleted is among the classes.
proof fn lemma_deleted_keys(n: int)
    requires
        0 <= n <= COMMANDS,
    ensures
        forall|i: int|
            0 <= i < class_removal_ops(n).len() ==> deletes_class_key(
                #[trigger] class_removal_ops(n)[i],
            ),
        forall|i: int|
            0 <= i < menu_removal_ops(n).len() ==> deletes_class_key(
                #[trigger] menu_removal_ops(n)[i],
            ),
    decreases n,
{
    reveal_with_fuel(class_removal_ops, 2);
    reveal_with_fuel(menu_removal_ops, 2);
    let start = "Software\\Classes\\"@;
    reveal_strlit("Software\\Classes\\");
    reveal_strlit("Software\\Classes\\CLSID\\");
    reveal_strlit("Software\\Classes\\*\\shell\\ArchiveRclick");
    reveal_strlit("Software\\Classes\\Directory\\shell\\ArchiveRclick");
    let classes = "Software\\Classes\\CLSID\\"@;
    let files = "Software\\Classes\\*\\shell\\ArchiveRclick"@;
    let folders = "Software\\Classes\\Directory\\shell\\ArchiveRclick"@;
    assert(start =~= classes.subrange(0, start.len() as int));
    assert(start =~= files.subrange(0, start.len() as int));
    assert(start =~= folders.subrange(0, start.len() as int));
    if n == 0 {
        lemma_starts(classes, ffi::guid_text(menu_id()), start);
    } else {
        lemma_deleted_keys(n - 1);
        lemma_starts(classes, ffi::guid_text(shell_ext::command_id(n - 1)), start);
        lemma_starts(files, command_name(n - 1), start);
        lemma_starts(folders, command_name(n - 1), start);
        let fewer = class_removal_ops(n - 1);
        let shorter = menu_removal_ops(n - 1);
        assert forall|i: int| 0 <= i < class_removal_ops(n).len() implies deletes_class_key(
            #[trigger] class_removal_ops(n)[i],
        ) by {
            if i < fewer.len() {
                assert(class_removal_ops(n)[i] == fewer[i]);
                assert(deletes_class_key(fewer[i]));
            }
        }
        assert forall|i: int| 0 <= i < menu_removal_ops(n).len() implies deletes_class_key(
            #[trigger] menu_removal_ops(n)[i],
        ) by {
            if i < shorter.len() {
                assert(menu_removal_ops(n)[i] == shorter[i]);
                assert(deletes_class_key(shorter[i]));
            }
        }
    }
}

/// Unregistering the menu leaves the program's own settings alone: of the
/// values at or below its key, only the one that names the program is taken
/// away, and that one is.
pub proof fn law_unregistering_keeps_the_settings(
    values: Map<registry::ValueId, Seq<char>>,
    id: registry::ValueId,
)
    requires
        registry::is_at_or_below(id.key, "Software\\ArchiveRclick"@),
    ensures
        ({
            let ops = unregistration_ops();
            let after = registry::all_changed(values, ops, ops.len() as int);
            let program = registry::ValueId {
                key: "Software\\ArchiveRclick"@,
                name: Some("ExePath"@),
            };
            if id == program {
                !after.contains_key(id)
            } else {
                &&& after.contains_key(id) == values.contains_key(id)
                &&& values.contains_key(id) ==> after[id] == values[id]
            }
        }),
{
    let ops = unregistration_ops();
    let n = COMMANDS as int;
    let own = "Software\\ArchiveRclick"@;
    let program = registry::ValueId { key: own, name: Some("ExePath"@) };
    lemma_removals(n, 0);
    lemma_first_removals(n);
    lemma_deleted_keys(n);
    assert(ops.len() == 23);
    assert(ops[22] == RegistryOpView::DeleteValue(own, "ExePath"@));
    reveal_strlit("Software\\ArchiveRclick");
    reveal_strlit("Software\\Classes\\");
    reveal_strlit("Software\\Classes\\*\\shellex\\ContextMenuHandlers\\ArchiveRclick");
    reveal_strlit("Software\\Classes\\Directory\\shellex\\ContextMenuHandlers\\ArchiveRclick");
    reveal_strlit(
        "Software\\Classes\\Directory\\Background\\shellex\\DragDropHandlers\\ArchiveRclick",
    );
    reveal_strlit("Software\\Classes\\Directory\\shellex\\DragDropHandlers\\ArchiveRclick");
    let start = "Software\\Classes\\"@;
    assert forall|j: int| 0 <= j < 22 implies deletes_class_key(#[trigger] ops[j]) by {
        if j < 6 {
            assert(ops[j] == class_removal_ops(n)[j]);
        } else if j < 18 {
            assert(ops[j] == menu_removal_ops(n)[j - 6]);
        } else {
            let key = ops[j]->DeleteTree_0;
            assert(start =~= key.subrange(0, start.len() as int));
        }
    }
    assert(own[9] == 'A' && start[9] == 'C');
    assert(id.key.len() > 9 && id.key[9] == 'A') by {
        if id.key != own {
            assert(own.push('\\')[9] == id.key.subrange(0, own.len() as int + 1)[9]);
        }
    }
    assert forall|j: int| 0 <= j < 22 implies !registry::reaches(#[trigger] ops[j], id) by {
        assert(deletes_class_key(ops[j]));
        let key = ops[j]->DeleteTree_0;
        assert(key.subrange(0, start.len() as int)[9] == 'C');
        lemma_differs(id.key, key, 9);
    }
    if id == program {
        assert forall|j: int| 0 <= j < ops.len() implies registry::only_removes(
            #[trigger] ops[j],
        ) by {
            if j < 22 {
                assert(deletes_class_key(ops[j]));
            }
        }
        assert(registry::reaches(ops[22], id));
        registry::lemma_removed_is_gone(values, ops, ops.len() as int, id);
    } else {
        registry::lemma_unreached_stays(values, ops, ops.len() as int, id);
    }
}

/// Every command stands in the menu of files and in that of folders, with its
/// own class as the handler and the program's icon, and every class is served
/// by the library.
pub proof fn law_menu_leads_to_the_commands(
    library: Seq<char>,
    program: Seq<char>,
    folders: bool,
    i: int,
)
    requires
        0 <= i < 5,
    ensures
        registration_ops(library, program).contains(
            RegistryOpView::SetNamed(
                menu_key(folders, i),
                "ExplorerCommandHandler"@,
                ffi::guid_text(shell_ext::command_id(i)),
            ),
        ),
        registration_ops(library, program).contains(
            RegistryOpView::SetNamed(menu_key(folders, i), "Icon"@, program + ",0"@),
        ),
        registration_ops(library, program).contains(
            RegistryOpView::SetDefault(server_key(shell_ext::command_id(i)), library),
        ),
        registration_ops(library, program).contains(
            RegistryOpView::SetNamed(
                server_key(shell_ext::command_id(i)),
                "ThreadingModel"@,
                "Apartment"@,
            ),
        ),
        registration_ops(library, program).contains(
            RegistryOpView::SetNamed("Software\\ArchiveRclick"@, "ExePath"@, program),
        ),
        registration_ops(library, program).contains(
            RegistryOpView::SetDefault(server_key(menu_id()), library),
        ),
        registration_ops(library, program).contains(
            RegistryOpView::SetDefault(drag_key(), ffi::guid_text(menu_id())),
        ),
        menu_key(false, i) == "Software\\Classes\\*\\shell\\ArchiveRclick"@ + command_name(i),
        menu_key(true, i) == "Software\\Classes\\Directory\\shell\\ArchiveRclick"@ + command_name(
            i,
        ),
{
    let key = menu_key(folders, i);
    let id = shell_ext::command_id(i);
    let handler = RegistryOpView::SetNamed(key, "ExplorerCommandHandler"@, ffi::guid_text(id));
    let icon = RegistryOpView::SetNamed(key, "Icon"@, program + ",0"@);
    let server = RegistryOpView::SetDefault(server_key(id), library);
    let model = RegistryOpView::SetNamed(server_key(id), "ThreadingModel"@, "Apartment"@);
    let path = RegistryOpView::SetNamed("Software\\ArchiveRclick"@, "ExePath"@, program);
    let menu_server = RegistryOpView::SetDefault(server_key(menu_id()), library);
    let drag = RegistryOpView::SetDefault(drag_key(), ffi::guid_text(menu_id()));
    let first = cleanup_ops();
    let classes = class_ops(menu_id(), "ArchiveRclick drag-and-drop command"@, library).push(drag);
    let commands = command_class_ops(library, COMMANDS as int);
    let files = menu_ops(false, program, COMMANDS as int);
    let directories = menu_ops(true, program, COMMANDS as int);
    let last = seq![path];
    assert(registration_ops(library, program) == first + classes + commands + files + directories
        + last);
    assert(classes[1] == menu_server && classes[3] == drag && last[0] == path);
    lemma_menu_item(folders, program, i, COMMANDS as int);
    lemma_command_class(library, i, COMMANDS as int);
    lemma_in_part(first, classes, commands, files, directories, last, handler);
    lemma_in_part(first, classes, commands, files, directories, last, icon);
    lemma_in_part(first, classes, commands, files, directories, last, server);
    lemma_in_part(first, classes, commands, files, directories, last, model);
    lemma_in_part(first, classes, commands, files, directories, last, path);
    lemma_in_part(first, classes, commands, files, directories, last, menu_server);
    lemma_in_part(first, classes, commands, files, directories, last, drag);
}

/// What is in one part of the list is in the list.
proof fn lemma_in_part(
    a: Seq<RegistryOpView>,
    b: Seq<RegistryOpView>,
    c: Seq<RegistryOpView>,
    d: Seq<RegistryOpView>,
    e: Seq<RegistryOpView>,
    f: Seq<RegistryOpView>,
    op: RegistryOpView,
)
    requires
        b.contains(op) || c.contains(op) || d.contains(op) || e.contains(op) || f.contains(op),
    ensures
        (a + b + c + d + e + f).contains(op),
{
    let whole = a + b + c + d + e + f;
    if b.contains(op) {
        let i = choose|i: int| 0 <= i < b.len() && b[i] == op;
        assert(whole[a.len() + i] == op);
    } else if c.contains(op) {
        let i = choose|i: int| 0 <= i < c.len() && c[i] == op;
        assert(whole[a.len() + b.len() + i] == op);
    } else if d.contains(op) {
        let i = choose|i: int| 0 <= i < d.len() && d[i] == op;
        assert(whole[a.len() + b.len() + c.len() + i] == op);
    } else if e.contains(op) {
        let i = choose|i: int| 0 <= i < e.len() && e[i] == op;
        assert(whole[a.len() + b.len() + c.len() + d.len() + i] == op);
    } else {
        let i = choose|i: int| 0 <= i < f.len() && f[i] == op;
        assert(whole[a.len() + b.len() + c.len() + d.len() + e.len() + i] == op);
    }
}

/// A command's item is among those of its menu.
proof fn lemma_menu_item(folders: bool, program: Seq<char>, i: int, n: int)
    requires
        0 <= i < n,
    ensures
        menu_ops(folders, program, n).contains(
            RegistryOpView::SetNamed(
                menu_key(folders, i),
                "ExplorerCommandHandler"@,
                ffi::guid_text(shell_ext::command_id(i)),
            ),
        ),
        menu_ops(folders, program, n).contains(
            RegistryOpView::SetNamed(menu_key(folders, i), "Icon"@, program + ",0"@),
        ),
    decreases n,
{
    let now = menu_ops(folders, program, n);
    let before = menu_ops(folders, program, n - 1);
    let handler = RegistryOpView::SetNamed(
        menu_key(folders, i),
        "ExplorerCommandHandler"@,
        ffi::guid_text(shell_ext::command_id(i)),
    );
    let icon = RegistryOpView::SetNamed(menu_key(folders, i), "Icon"@, program + ",0"@);
    if i < n - 1 {
        lemma_menu_item(folders, program, i, n - 1);
        let a = choose|a: int| 0 <= a < before.len() && before[a] == handler;
        assert(now[a] == handler);
        let b = choose|b: int| 0 <= b < before.len() && before[b] == icon;
        assert(now[b] == icon);
    } else {
        assert(now[before.len() as int] == handler);
        assert(now[before.len() as int + 2] == icon);
    }
}

/// A command's class is among those of the library.
proof fn lemma_command_class(library: Seq<char>, i: int, n: int)
    requires
        0 <= i < n,
    ensures
        command_class_ops(library, n).contains(
            RegistryOpView::SetDefault(server_key(shell_ext::command_id(i)), library),
        ),
        command_class_ops(library, n).contains(
            RegistryOpView::SetNamed(
                server_key(shell_ext::command_id(i)),
                "ThreadingModel"@,
                "Apartment"@,
            ),
        ),
    decreases n,
{
    let now = command_class_ops(library, n);
    let before = command_class_ops(library, n - 1);
    let server = RegistryOpView::SetDefault(server_key(shell_ext::command_id(i)), library);
    let model = RegistryOpView::SetNamed(
        server_key(shell_ext::command_id(i)),
        "ThreadingModel"@,
        "Apartment"@,
    );
    if i < n - 1 {
        lemma_command_class(library, i, n - 1);
        let a = choose|a: int| 0 <= a < before.len() && before[a] == server;
        assert(now[a] == server);
        let b = choose|b: int| 0 <= b < before.len() && before[b] == model;
        assert(now[b] == model);
    } else {
        assert(now[before.len() as int + 1] == server);
        assert(now[before.len() as int + 2] == model);
    }
}

/// A change succeeds when its codes say so; what is to be deleted may be
/// missing.
pub proof fn law_results_of_changes(
    op: RegistryOpView,
    opened: u32,
    changed: u32,
    shown: Seq<char>,
)
    ensures
        op is SetDefault || op is SetNamed ==> (change_result(op, opened, changed, shown) is Ok
            <==> opened == 0 && changed == 0),
        op is DeleteTree ==> (change_result(op, opened, changed, shown) is Ok <==> changed == 0
            || changed == 2),
        op is DeleteValue ==> (change_result(op, opened, changed, shown) is Ok <==> opened == 0 && (
        changed == 0 || changed == 2)),
{
}

} // verus!
