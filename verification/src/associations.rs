//! Registration as an available handler of archives.
//!
//! Windows protects the defaults that a user chose. The application registers
//! itself as a handler that can be chosen, and overwrites no choice.

use vstd::prelude::*;
use vstd::string::*;
use crate::context_menu;
use crate::registry;
use crate::registry::{RegistryOp, RegistryOpView};
use crate::text;

verus! {

/// The extensions that the application handles.
pub open spec fn extensions() -> Seq<Seq<char>> {
    seq![
        ".zip"@,
        ".zipx"@,
        ".7z"@,
        ".rar"@,
        ".tar"@,
        ".gz"@,
        ".bz2"@,
        ".xz"@,
        ".zst"@,
        ".cab"@,
        ".lha"@,
        ".lzh"@,
        ".tgz"@,
        ".tbz2"@,
        ".txz"@,
        ".iso"@,
    ]
}

/// [`extensions`], executable.
pub fn extension_list() -> (list: Vec<&'static str>)
    ensures
        list@.len() == extensions().len(),
        forall|i: int| 0 <= i < list@.len() ==> (#[trigger] list@[i])@ == extensions()[i],
{
    let list: Vec<&'static str> = vec![
        ".zip",
        ".zipx",
        ".7z",
        ".rar",
        ".tar",
        ".gz",
        ".bz2",
        ".xz",
        ".zst",
        ".cab",
        ".lha",
        ".lzh",
        ".tgz",
        ".tbz2",
        ".txz",
        ".iso",
    ];
    list
}

/// A text with a backslash before each quote.
pub open spec fn with_escaped_quotes(s: Seq<char>) -> Seq<char>
    decreases s.len(),
{
    if s.len() == 0 {
        Seq::empty()
    } else if s.last() == '"' {
        with_escaped_quotes(s.drop_last()) + seq!['\\', '"']
    } else {
        with_escaped_quotes(s.drop_last()).push(s.last())
    }
}

/// A text in quotes.
pub open spec fn quoted(s: Seq<char>) -> Seq<char> {
    seq!['"'] + with_escaped_quotes(s) + seq!['"']
}

/// Puts an argument of a command line in quotes: [`quoted`], executable.
pub fn quote_windows_argument(value: &str) -> (out: String)
    ensures
        out@ == quoted(value@),
{
    let chars = text::chars_of(value);
    let mut out = String::new();
    out.push('"');
    let mut i: usize = 0;
    proof {
        assert(value@.take(0) =~= Seq::<char>::empty());
        assert(out@ =~= seq!['"'] + Seq::<char>::empty());
    }
    while i < chars.len()
        invariant
            i <= chars@.len(),
            chars@ == value@,
            out@ == seq!['"'] + with_escaped_quotes(value@.take(i as int)),
        decreases chars@.len() - i,
    {
        let ghost done = with_escaped_quotes(value@.take(i as int));
        proof {
            assert(value@.take(i + 1).drop_last() =~= value@.take(i as int));
            assert(value@.take(i + 1).last() == value@[i as int]);
        }
        if chars[i] == '"' {
            out.push('\\');
            out.push('"');
            proof {
                assert(out@ =~= seq!['"'] + (done + seq!['\\', '"']));
            }
        } else {
            out.push(chars[i]);
            proof {
                assert(out@ =~= seq!['"'] + done.push(value@[i as int]));
            }
        }
        i += 1;
    }
    out.push('"');
    proof {
        assert(value@.take(i as int) =~= value@);
        assert(out@ =~= quoted(value@));
    }
    out
}

/// The key of an extension's list of handlers.
pub open spec fn handlers_key(extension: Seq<char>) -> Seq<char> {
    "Software\\Classes\\"@ + extension + "\\OpenWithProgids"@
}

/// What is registered for the first `n` extensions' lists of handlers.
pub open spec fn handler_ops(n: int) -> Seq<RegistryOpView>
    decreases n,
{
    if n <= 0 {
        Seq::empty()
    } else {
        handler_ops(n - 1).push(
            RegistryOpView::SetNamed(
                handlers_key(extensions()[n - 1]),
                "ArchiveRclick.Archive"@,
                ""@,
            ),
        )
    }
}

/// What is registered for the first `n` extensions among the capabilities.
pub open spec fn capability_ops(n: int) -> Seq<RegistryOpView>
    decreases n,
{
    if n <= 0 {
        Seq::empty()
    } else {
        capability_ops(n - 1).push(
            RegistryOpView::SetNamed(
                "Software\\ArchiveRclick\\Capabilities\\FileAssociations"@,
                extensions()[n - 1],
                "ArchiveRclick.Archive"@,
            ),
        )
    }
}

/// What is taken from the first `n` extensions' lists of handlers.
pub open spec fn removal_ops(n: int) -> Seq<RegistryOpView>
    decreases n,
{
    if n <= 0 {
        Seq::empty()
    } else {
        removal_ops(n - 1).push(
            RegistryOpView::DeleteValue(
                handlers_key(extensions()[n - 1]),
                "ArchiveRclick.Archive"@,
            ),
        )
    }
}

/// The changes that register the program at a path.
pub open spec fn registration_ops(executable: Seq<char>) -> Seq<RegistryOpView> {
    seq![
        RegistryOpView::SetDefault(
            "Software\\Classes\\ArchiveRclick.Archive"@,
            "ArchiveRclick archive"@,
        ),
        RegistryOpView::SetDefault(
            "Software\\Classes\\ArchiveRclick.Archive\\DefaultIcon"@,
            quoted(executable) + ",0"@,
        ),
        RegistryOpView::SetDefault(
            "Software\\Classes\\ArchiveRclick.Archive\\shell\\open\\command"@,
            quoted(executable) + " \"%1\""@,
        ),
    ] + handler_ops(extensions().len() as int) + seq![
        RegistryOpView::SetNamed(
            "Software\\ArchiveRclick\\Capabilities"@,
            "ApplicationName"@,
            "ArchiveRclick"@,
        ),
        RegistryOpView::SetNamed(
            "Software\\ArchiveRclick\\Capabilities"@,
            "ApplicationDescription"@,
            "Fast, lightweight archive browsing and extraction"@,
        ),
    ] + capability_ops(extensions().len() as int) + seq![
        RegistryOpView::SetNamed(
            "Software\\RegisteredApplications"@,
            "ArchiveRclick"@,
            "Software\\ArchiveRclick\\Capabilities"@,
        ),
    ]
}

/// The changes that take the registration back.
pub open spec fn unregistration_ops() -> Seq<RegistryOpView> {
    removal_ops(extensions().len() as int) + seq![
        RegistryOpView::DeleteTree("Software\\Classes\\ArchiveRclick.Archive"@),
        RegistryOpView::DeleteTree("Software\\ArchiveRclick"@),
        RegistryOpView::DeleteValue("Software\\RegisteredApplications"@, "ArchiveRclick"@),
    ]
}

/// The changes that register the program. `resolved` is the absolute path of
/// `executable`, or why there is none, and whether it is a file.
pub fn register_file_associations(
    executable: &str,
    resolved: Result<(String, bool), String>,
) -> (ops: Result<Vec<RegistryOp>, String>)
    ensures
        match ops {
            Ok(ops) => resolved is Ok && resolved->Ok_0.1 && registry::op_views(ops@)
                == registration_ops(resolved->Ok_0.0@),
            Err(message) => match resolved {
                Err(error) => message@ == "Could not resolve "@ + executable@ + ": "@ + error@,
                Ok((path, is_file)) => !is_file && message@ == "Executable does not exist: "@
                    + path@,
            },
        },
{
    let path: String = match resolved {
        Err(error) => {
            let mut message = text::join3("Could not resolve ", executable, ": ");
            message.append(error.as_str());
            return Err(message);
        },
        Ok((path, is_file)) => {
            if !is_file {
                return Err(text::join("Executable does not exist: ", path.as_str()));
            }
            path
        },
    };
    let quoted_executable = quote_windows_argument(path.as_str());
    let mut ops: Vec<RegistryOp> = Vec::new();
    registry::add_op(
        &mut ops,
        registry::set_default("Software\\Classes\\ArchiveRclick.Archive", "ArchiveRclick archive"),
    );
    registry::add_op(
        &mut ops,
        registry::set_default(
            "Software\\Classes\\ArchiveRclick.Archive\\DefaultIcon",
            text::join(quoted_executable.as_str(), ",0").as_str(),
        ),
    );
    registry::add_op(
        &mut ops,
        registry::set_default(
            "Software\\Classes\\ArchiveRclick.Archive\\shell\\open\\command",
            text::join(quoted_executable.as_str(), " \"%1\"").as_str(),
        ),
    );
    let list: Vec<&'static str> = extension_list();
    let ghost first = registry::op_views(ops@);
    let mut i: usize = 0;
    proof {
        assert(first + handler_ops(0) =~= first);
    }
    while i < list.len()
        invariant
            i <= list@.len(),
            list@.len() == extensions().len(),
            forall|k: int| 0 <= k < list@.len() ==> (#[trigger] list@[k])@ == extensions()[k],
            registry::op_views(ops@) == first + handler_ops(i as int),
        decreases list@.len() - i,
    {
        let key = text::join3("Software\\Classes\\", list[i], "\\OpenWithProgids");
        registry::add_op(&mut ops, registry::set_named(key.as_str(), "ArchiveRclick.Archive", ""));
        i += 1;
        proof {
            assert(registry::op_views(ops@) =~= first + handler_ops(i as int));
        }
    }
    registry::add_op(
        &mut ops,
        registry::set_named("Software\\ArchiveRclick\\Capabilities", "ApplicationName", "ArchiveRclick"),
    );
    registry::add_op(
        &mut ops,
        registry::set_named(
            "Software\\ArchiveRclick\\Capabilities",
            "ApplicationDescription",
            "Fast, lightweight archive browsing and extraction",
        ),
    );
    let ghost second = registry::op_views(ops@);
    let mut j: usize = 0;
    proof {
        assert(second + capability_ops(0) =~= second);
    }
    while j < list.len()
        invariant
            j <= list@.len(),
            list@.len() == extensions().len(),
            forall|k: int| 0 <= k < list@.len() ==> (#[trigger] list@[k])@ == extensions()[k],
            registry::op_views(ops@) == second + capability_ops(j as int),
        decreases list@.len() - j,
    {
        registry::add_op(
            &mut ops,
            registry::set_named(
                "Software\\ArchiveRclick\\Capabilities\\FileAssociations",
                list[j],
                "ArchiveRclick.Archive",
            ),
        );
        j += 1;
        proof {
            assert(registry::op_views(ops@) =~= second + capability_ops(j as int));
        }
    }
    registry::add_op(
        &mut ops,
        registry::set_named(
            "Software\\RegisteredApplications",
            "ArchiveRclick",
            "Software\\ArchiveRclick\\Capabilities",
        ),
    );
    proof {
        assert(registry::op_views(ops@) =~= registration_ops(path@));
    }
    Ok(ops)
}

/// The changes that take the registration back: [`unregistration_ops`],
/// executable.
pub fn unregister_file_associations() -> (ops: Vec<RegistryOp>)
    ensures
        registry::op_views(ops@) == unregistration_ops(),
{
    let list: Vec<&'static str> = extension_list();
    let mut ops: Vec<RegistryOp> = Vec::new();
    let mut i: usize = 0;
    proof {
        assert(registry::op_views(ops@) =~= removal_ops(0));
    }
    while i < list.len()
        invariant
            i <= list@.len(),
            list@.len() == extensions().len(),
            forall|k: int| 0 <= k < list@.len() ==> (#[trigger] list@[k])@ == extensions()[k],
            registry::op_views(ops@) == removal_ops(i as int),
        decreases list@.len() - i,
    {
        let key = text::join3("Software\\Classes\\", list[i], "\\OpenWithProgids");
        registry::add_op(
            &mut ops,
            RegistryOp::DeleteValue(key, "ArchiveRclick.Archive".to_owned()),
        );
        i += 1;
    }
    registry::add_op(
        &mut ops,
        RegistryOp::DeleteTree("Software\\Classes\\ArchiveRclick.Archive".to_owned()),
    );
    registry::add_op(&mut ops, RegistryOp::DeleteTree("Software\\ArchiveRclick".to_owned()));
    registry::add_op(
        &mut ops,
        RegistryOp::DeleteValue(
            "Software\\RegisteredApplications".to_owned(),
            "ArchiveRclick".to_owned(),
        ),
    );
    proof {
        assert(registry::op_views(ops@) =~= unregistration_ops());
    }
    ops
}

/// Whether unregistering takes back a change.
pub open spec fn is_undone(op: RegistryOpView) -> bool {
    exists|i: int|
        0 <= i < unregistration_ops().len() && registry::undoes(#[trigger] unregistration_ops()[i], op)
}

/// The changes to the lists of handlers.
proof fn lemma_list_ops(n: int, i: int)
    requires
        0 <= i < n <= extensions().len(),
    ensures
        handler_ops(n).len() == n,
        capability_ops(n).len() == n,
        removal_ops(n).len() == n,
        handler_ops(n)[i] == RegistryOpView::SetNamed(
            handlers_key(extensions()[i]),
            "ArchiveRclick.Archive"@,
            ""@,
        ),
        capability_ops(n)[i] == RegistryOpView::SetNamed(
            "Software\\ArchiveRclick\\Capabilities\\FileAssociations"@,
            extensions()[i],
            "ArchiveRclick.Archive"@,
        ),
        removal_ops(n)[i] == RegistryOpView::DeleteValue(
            handlers_key(extensions()[i]),
            "ArchiveRclick.Archive"@,
        ),
    decreases n,
{
    reveal_with_fuel(handler_ops, 2);
    reveal_with_fuel(capability_ops, 2);
    reveal_with_fuel(removal_ops, 2);
    if n > 1 {
        if i < n - 1 {
            lemma_list_ops(n - 1, i);
        } else {
            lemma_list_ops(n - 1, n - 2);
        }
    }
}

/// Unregistering takes back everything that registering set.
pub proof fn law_registration_is_undone(executable: Seq<char>, i: int)
    requires
        0 <= i < registration_ops(executable).len(),
    ensures
        is_undone(registration_ops(executable)[i]),
{
    let n = extensions().len() as int;
    assert(n == 16);
    lemma_list_ops(n, 0);
    let undo = unregistration_ops();
    let op = registration_ops(executable)[i];
    let classes = "Software\\Classes\\ArchiveRclick.Archive"@;
    let application = "Software\\ArchiveRclick"@;
    assert(undo[n] == RegistryOpView::DeleteTree(classes));
    assert(undo[n + 1] == RegistryOpView::DeleteTree(application));
    reveal_strlit("Software\\Classes\\ArchiveRclick.Archive");
    reveal_strlit("Software\\Classes\\ArchiveRclick.Archive\\DefaultIcon");
    reveal_strlit("Software\\Classes\\ArchiveRclick.Archive\\shell\\open\\command");
    reveal_strlit("Software\\ArchiveRclick");
    reveal_strlit("Software\\ArchiveRclick\\Capabilities");
    reveal_strlit("Software\\ArchiveRclick\\Capabilities\\FileAssociations");
    if i < 3 {
        let key = op->SetDefault_0;
        assert(classes =~= key.subrange(0, classes.len() as int));
        assert(registry::undoes(undo[n], op));
    } else if i < 3 + n {
        lemma_list_ops(n, i - 3);
        assert(op == handler_ops(n)[i - 3]);
        assert(undo[i - 3] == removal_ops(n)[i - 3]);
        assert(registry::undoes(undo[i - 3], op));
    } else if i < 5 + n {
        let key = op->SetNamed_0;
        assert(application =~= key.subrange(0, application.len() as int));
        assert(registry::undoes(undo[n + 1], op));
    } else if i < 5 + 2 * n {
        lemma_list_ops(n, i - 5 - n);
        assert(op == capability_ops(n)[i - 5 - n]);
        let key = op->SetNamed_0;
        assert(application =~= key.subrange(0, application.len() as int));
        assert(registry::undoes(undo[n + 1], op));
    } else {
        assert(op == RegistryOpView::SetNamed(
            "Software\\RegisteredApplications"@,
            "ArchiveRclick"@,
            "Software\\ArchiveRclick\\Capabilities"@,
        ));
        assert(undo[n + 2] == RegistryOpView::DeleteValue(
            "Software\\RegisteredApplications"@,
            "ArchiveRclick"@,
        ));
        assert(registry::undoes(undo[n + 2], op));
    }
}

/// Whether a change only adds: it sets a value under a key of the program's
/// own, or a value that is named after the program.
pub open spec fn adds_only(op: RegistryOpView) -> bool {
    match op {
        RegistryOpView::SetDefault(key, _) => registry::is_at_or_below(
            key,
            "Software\\Classes\\ArchiveRclick.Archive"@,
        ),
        RegistryOpView::SetNamed(key, name, _) => {
            ||| name == "ArchiveRclick.Archive"@
            ||| name == "ArchiveRclick"@
            ||| registry::is_at_or_below(key, "Software\\ArchiveRclick"@)
        },
        _ => false,
    }
}

/// Registering replaces no default that the user chose: it deletes nothing,
/// sets the default value of no key but the program's own, and gives other
/// keys no value but one that is named after the program.
pub proof fn law_no_default_is_replaced(executable: Seq<char>, i: int)
    requires
        0 <= i < registration_ops(executable).len(),
    ensures
        adds_only(registration_ops(executable)[i]),
{
    let n = extensions().len() as int;
    assert(n == 16);
    lemma_list_ops(n, 0);
    let op = registration_ops(executable)[i];
    let classes = "Software\\Classes\\ArchiveRclick.Archive"@;
    let application = "Software\\ArchiveRclick"@;
    reveal_strlit("Software\\Classes\\ArchiveRclick.Archive");
    reveal_strlit("Software\\Classes\\ArchiveRclick.Archive\\DefaultIcon");
    reveal_strlit("Software\\Classes\\ArchiveRclick.Archive\\shell\\open\\command");
    reveal_strlit("Software\\ArchiveRclick");
    reveal_strlit("Software\\ArchiveRclick\\Capabilities");
    reveal_strlit("Software\\ArchiveRclick\\Capabilities\\FileAssociations");
    if i < 3 {
        let key = op->SetDefault_0;
        assert(classes =~= key.subrange(0, classes.len() as int));
    } else if i < 3 + n {
        lemma_list_ops(n, i - 3);
        assert(op == handler_ops(n)[i - 3]);
    } else if i < 5 + n {
        let key = op->SetNamed_0;
        assert(application =~= key.subrange(0, application.len() as int));
    } else if i < 5 + 2 * n {
        lemma_list_ops(n, i - 5 - n);
        assert(op == capability_ops(n)[i - 5 - n]);
        let key = op->SetNamed_0;
        assert(application =~= key.subrange(0, application.len() as int));
    }
}

/// Unregistering leaves the program in no list of handlers, adds nothing, and
/// leaves nothing below the program's own class.
pub proof fn law_no_handler_is_left(
    values: Map<registry::ValueId, Seq<char>>,
    id: registry::ValueId,
    i: int,
)
    requires
        0 <= i < extensions().len(),
    ensures
        ({
            let ops = unregistration_ops();
            let after = registry::all_changed(values, ops, ops.len() as int);
            &&& !after.contains_key(
                registry::ValueId {
                    key: handlers_key(extensions()[i]),
                    name: Some("ArchiveRclick.Archive"@),
                },
            )
            &&& !after.contains_key(
                registry::ValueId {
                    key: "Software\\RegisteredApplications"@,
                    name: Some("ArchiveRclick"@),
                },
            )
            &&& registry::is_at_or_below(id.key, "Software\\Classes\\ArchiveRclick.Archive"@)
                ==> !after.contains_key(id)
            &&& after.contains_key(id) ==> values.contains_key(id) && after[id] == values[id]
        }),
{
    let ops = unregistration_ops();
    let n = extensions().len() as int;
    assert(n == 16);
    lemma_list_ops(n, i);
    assert forall|j: int| 0 <= j < ops.len() implies registry::only_removes(#[trigger] ops[j]) by {
        if j < n {
            lemma_list_ops(n, j);
            assert(ops[j] == removal_ops(n)[j]);
        }
    }
    let handler = registry::ValueId {
        key: handlers_key(extensions()[i]),
        name: Some("ArchiveRclick.Archive"@),
    };
    let application = registry::ValueId {
        key: "Software\\RegisteredApplications"@,
        name: Some("ArchiveRclick"@),
    };
    assert(ops[i] == removal_ops(n)[i]);
    assert(registry::reaches(ops[i], handler));
    registry::lemma_removed_is_gone(values, ops, ops.len() as int, handler);
    assert(registry::reaches(ops[n + 2], application));
    registry::lemma_removed_is_gone(values, ops, ops.len() as int, application);
    registry::lemma_removed_is_gone(values, ops, ops.len() as int, id);
    assert(ops[n] == RegistryOpView::DeleteTree("Software\\Classes\\ArchiveRclick.Archive"@));
    if registry::is_at_or_below(id.key, "Software\\Classes\\ArchiveRclick.Archive"@) {
        assert(registry::reaches(ops[n], id));
    }
}

/// What is in one of two lists is in both together.
proof fn lemma_in_either(a: Seq<RegistryOpView>, b: Seq<RegistryOpView>, op: RegistryOpView)
    requires
        a.contains(op) || b.contains(op),
    ensures
        (a + b).contains(op),
{
    if a.contains(op) {
        let i = choose|i: int| 0 <= i < a.len() && a[i] == op;
        assert((a + b)[i] == op);
    } else {
        let i = choose|i: int| 0 <= i < b.len() && b[i] == op;
        assert((a + b)[a.len() + i] == op);
    }
}

/// The handler and the capability of every extension are registered.
proof fn lemma_extension_ops(i: int, n: int)
    requires
        0 <= i < n,
    ensures
        handler_ops(n).contains(
            RegistryOpView::SetNamed(
                handlers_key(extensions()[i]),
                "ArchiveRclick.Archive"@,
                ""@,
            ),
        ),
        capability_ops(n).contains(
            RegistryOpView::SetNamed(
                "Software\\ArchiveRclick\\Capabilities\\FileAssociations"@,
                extensions()[i],
                "ArchiveRclick.Archive"@,
            ),
        ),
    decreases n,
{
    let handler = RegistryOpView::SetNamed(
        handlers_key(extensions()[i]),
        "ArchiveRclick.Archive"@,
        ""@,
    );
    let capability = RegistryOpView::SetNamed(
        "Software\\ArchiveRclick\\Capabilities\\FileAssociations"@,
        extensions()[i],
        "ArchiveRclick.Archive"@,
    );
    if i < n - 1 {
        lemma_extension_ops(i, n - 1);
        let handlers = handler_ops(n - 1);
        let capabilities = capability_ops(n - 1);
        let a = choose|a: int| 0 <= a < handlers.len() && handlers[a] == handler;
        assert(handler_ops(n)[a] == handler);
        let b = choose|b: int| 0 <= b < capabilities.len() && capabilities[b] == capability;
        assert(capability_ops(n)[b] == capability);
    } else {
        assert(handler_ops(n)[handler_ops(n).len() - 1] == handler);
        assert(capability_ops(n)[capability_ops(n).len() - 1] == capability);
    }
}

/// Every kind of archive that the menu knows can be opened with the program:
/// its ending gets the program as a handler and as a capability.
pub proof fn law_every_archive_can_be_opened(executable: Seq<char>, ending: Seq<char>)
    requires
        context_menu::ends_an_archive(ending),
    ensures
        registration_ops(executable).contains(
            RegistryOpView::SetNamed(
                "Software\\Classes\\"@ + ending + "\\OpenWithProgids"@,
                "ArchiveRclick.Archive"@,
                ""@,
            ),
        ),
        registration_ops(executable).contains(
            RegistryOpView::SetNamed(
                "Software\\ArchiveRclick\\Capabilities\\FileAssociations"@,
                ending,
                "ArchiveRclick.Archive"@,
            ),
        ),
        extensions() == context_menu::archive_extensions(),
{
    assert(extensions() =~= context_menu::archive_extensions());
    context_menu::lemma_ending_is_listed(ending);
    let i = choose|i: int| 0 <= i < extensions().len() && extensions()[i] == ending;
    let n = extensions().len() as int;
    lemma_extension_ops(i, n);
    let ops = registration_ops(executable);
    let first = seq![
        RegistryOpView::SetDefault(
            "Software\\Classes\\ArchiveRclick.Archive"@,
            "ArchiveRclick archive"@,
        ),
        RegistryOpView::SetDefault(
            "Software\\Classes\\ArchiveRclick.Archive\\DefaultIcon"@,
            quoted(executable) + ",0"@,
        ),
        RegistryOpView::SetDefault(
            "Software\\Classes\\ArchiveRclick.Archive\\shell\\open\\command"@,
            quoted(executable) + " \"%1\""@,
        ),
    ];
    let second = seq![
        RegistryOpView::SetNamed(
            "Software\\ArchiveRclick\\Capabilities"@,
            "ApplicationName"@,
            "ArchiveRclick"@,
        ),
        RegistryOpView::SetNamed(
            "Software\\ArchiveRclick\\Capabilities"@,
            "ApplicationDescription"@,
            "Fast, lightweight archive browsing and extraction"@,
        ),
    ];
    let third = seq![
        RegistryOpView::SetNamed(
            "Software\\RegisteredApplications"@,
            "ArchiveRclick"@,
            "Software\\ArchiveRclick\\Capabilities"@,
        ),
    ];
    assert(ops == first + handler_ops(n) + second + capability_ops(n) + third);
    let handler = RegistryOpView::SetNamed(handlers_key(ending), "ArchiveRclick.Archive"@, ""@);
    let capability = RegistryOpView::SetNamed(
        "Software\\ArchiveRclick\\Capabilities\\FileAssociations"@,
        ending,
        "ArchiveRclick.Archive"@,
    );
    lemma_in_either(first, handler_ops(n), handler);
    lemma_in_either(first + handler_ops(n), second, handler);
    lemma_in_either(first + handler_ops(n) + second, capability_ops(n), handler);
    lemma_in_either(first + handler_ops(n) + second + capability_ops(n), third, handler);
    lemma_in_either(first + handler_ops(n) + second, capability_ops(n), capability);
    lemma_in_either(first + handler_ops(n) + second + capability_ops(n), third, capability);
}

/// An archive is opened by the program, with the archive as its only
/// argument, and shows the program's first icon.
pub proof fn law_archives_are_opened_by_the_program(executable: Seq<char>)
    ensures
        registration_ops(executable).len() >= 3,
        registration_ops(executable)[1] == RegistryOpView::SetDefault(
            "Software\\Classes\\ArchiveRclick.Archive\\DefaultIcon"@,
            quoted(executable) + ",0"@,
        ),
        registration_ops(executable)[2] == RegistryOpView::SetDefault(
            "Software\\Classes\\ArchiveRclick.Archive\\shell\\open\\command"@,
            quoted(executable) + " \"%1\""@,
        ),
        !executable.contains('"') ==> quoted(executable) == seq!['"'] + executable + seq!['"'],
{
    if !executable.contains('"') {
        lemma_no_quotes(executable);
    }
}

/// A text without quotation marks has none to escape.
proof fn lemma_no_quotes(s: Seq<char>)
    requires
        !s.contains('"'),
    ensures
        with_escaped_quotes(s) == s,
    decreases s.len(),
{
    if s.len() > 0 {
        let rest = s.drop_last();
        assert forall|k: int| 0 <= k < rest.len() implies rest[k] != '"' by {
            assert(s.contains(s[k]));
        }
        lemma_no_quotes(rest);
        assert(s.contains(s.last()));
        assert(with_escaped_quotes(s) =~= s);
    } else {
        assert(with_escaped_quotes(s) =~= s);
    }
}

} // verus!
