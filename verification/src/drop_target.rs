//! Receiving files that are dropped on the application's window.

use vstd::prelude::*;
use vstd::string::*;
use crate::ffi;
use crate::text;

verus! {

/// The message that brings dropped files.
pub const WM_DROPFILES: u32 = 0x0233;

/// Whether a title is that of the application's window.
pub open spec fn is_main_title(title: Seq<char>) -> bool {
    title == "ArchiveRclick"@ || " \u{2014} ArchiveRclick"@.is_suffix_of(title)
}

/// [`is_main_title`], executable.
pub fn has_main_title(title: &str) -> (yes: bool)
    ensures
        yes == is_main_title(title@),
{
    text::same_text(title, "ArchiveRclick") || text::ends_with(title, " \u{2014} ArchiveRclick")
}

/// What is known of a window.
#[derive(Debug)]
pub struct WindowFacts {
    /// The window, as the system names it.
    pub handle: usize,
    pub process: u32,
    pub visible: bool,
    /// The title, in UTF-16 units.
    pub title: Vec<u16>,
}

/// Whether a window is the application's: one of its process that is visible
/// and has its title.
pub open spec fn is_main_window(window: WindowFacts, process: u32) -> bool {
    window.process == process && window.visible && window.title@.len() > 0 && is_main_title(
        ffi::lossy_utf16(window.title@),
    )
}

/// Whether window `i` is the first that is the application's.
pub open spec fn is_first_main_window(windows: Seq<WindowFacts>, process: u32, i: int) -> bool {
    &&& 0 <= i < windows.len()
    &&& is_main_window(windows[i], process)
    &&& forall|k: int| 0 <= k < i ==> !is_main_window(#[trigger] windows[k], process)
}

/// Finds the application's window among the windows in their order.
pub fn find_main_window(windows: &Vec<WindowFacts>, process: u32) -> (found: Result<usize, String>)
    ensures
        match found {
            Ok(handle) => exists|i: int| #[trigger]
                is_first_main_window(windows@, process, i) && handle == windows@[i].handle,
            Err(message) => {
                &&& forall|k: int|
                    0 <= k < windows@.len() ==> !is_main_window(#[trigger] windows@[k], process)
                &&& message@ == "Could not locate the ArchiveRclick window for file drop"@
            },
        },
{
    let mut i: usize = 0;
    while i < windows.len()
        invariant
            i <= windows@.len(),
            forall|k: int| 0 <= k < i ==> !is_main_window(#[trigger] windows@[k], process),
        decreases windows@.len() - i,
    {
        let window = &windows[i];
        if window.process == process && window.visible && window.title.len() > 0 {
            let title: String = ffi::lossy_utf16_text(window.title.as_slice());
            if has_main_title(title.as_str()) {
                proof {
                    assert(is_first_main_window(windows@, process, i as int));
                }
                return Ok(window.handle);
            }
        }
        i += 1;
    }
    Err("Could not locate the ArchiveRclick window for file drop".to_owned())
}

/// A window that receives dropped files.
#[derive(Debug)]
pub struct FileDropTarget {
    pub window: usize,
}

/// The window that receives dropped files. `found` is the application's
/// window, and `hooked` tells whether its messages could be hooked, or why
/// not.
pub fn install_file_drop_handler(found: Result<usize, String>, hooked: Result<(), String>) -> (
    target: Result<FileDropTarget, String>)
    ensures
        match found {
            Err(message) => target is Err && target->Err_0@ == message@,
            Ok(window) => match hooked {
                Ok(_) => target is Ok && target->Ok_0.window == window,
                Err(error) => target is Err && target->Err_0@
                    == "Could not enable Explorer file drop: "@ + error@,
            },
        },
{
    match found {
        Err(message) => Err(message),
        Ok(window) => match hooked {
            Ok(_) => Ok(FileDropTarget { window }),
            Err(error) => Err(text::join("Could not enable Explorer file drop: ", error.as_str())),
        },
    }
}

/// The paths among the first `n` dropped ones that are not empty.
pub open spec fn kept_paths(paths: Seq<Vec<u16>>, n: int) -> Seq<Seq<u16>>
    decreases n,
{
    if n <= 0 {
        Seq::empty()
    } else if paths[n - 1]@.len() == 0 {
        kept_paths(paths, n - 1)
    } else {
        kept_paths(paths, n - 1).push(paths[n - 1]@)
    }
}

/// The dropped paths that are not empty.
pub fn dropped_paths(paths: Vec<Vec<u16>>) -> (kept: Vec<Vec<u16>>)
    ensures
        Seq::new(kept@.len(), |i: int| kept@[i]@) == kept_paths(paths@, paths@.len() as int),
{
    let ghost all = paths@;
    let mut left: Vec<Vec<u16>> = paths;
    let mut kept: Vec<Vec<u16>> = Vec::new();
    let ghost mut taken: int = 0;
    proof {
        assert(all.subrange(0, all.len() as int) =~= all);
        assert(Seq::new(kept@.len(), |i: int| kept@[i]@) =~= Seq::<Seq<u16>>::empty());
    }
    while left.len() > 0
        invariant
            0 <= taken <= all.len(),
            left@ == all.subrange(taken, all.len() as int),
            Seq::new(kept@.len(), |i: int| kept@[i]@) == kept_paths(all, taken),
        decreases left@.len(),
    {
        let path = left.remove(0);
        let ghost before = Seq::new(kept@.len(), |i: int| kept@[i]@);
        proof {
            assert(path == all[taken]);
            taken = taken + 1;
            assert(left@ =~= all.subrange(taken, all.len() as int));
        }
        if path.len() > 0 {
            let ghost added = path@;
            kept.push(path);
            proof {
                assert(Seq::new(kept@.len(), |i: int| kept@[i]@) =~= before.push(added));
            }
        }
    }
    kept
}

/// What is done with a message to the window.
#[derive(Debug, Clone, Copy, PartialEq, Eq, Structural)]
pub enum MessageAction {
    /// The message is for others.
    PassOn,
    /// The files are released and nobody is told.
    Release,
    /// The files are released and handed to the application.
    Deliver,
}

/// What is done with a message that brings `paths` paths.
pub fn message_action(message: u32, paths: usize, has_handler: bool) -> (action: MessageAction)
    ensures
        action == if message != WM_DROPFILES {
            MessageAction::PassOn
        } else if paths > 0 && has_handler {
            MessageAction::Deliver
        } else {
            MessageAction::Release
        },
{
    if message != WM_DROPFILES {
        MessageAction::PassOn
    } else if paths > 0 && has_handler {
        MessageAction::Deliver
    } else {
        MessageAction::Release
    }
}

/// Every path that was dropped and is not empty is kept, in order.
pub proof fn law_dropped_paths_are_kept(paths: Seq<Vec<u16>>, n: int)
    requires
        0 <= n <= paths.len(),
    ensures
        (forall|i: int| 0 <= i < n ==> (#[trigger] paths[i])@.len() > 0) ==> kept_paths(paths, n)
            == Seq::new(n as nat, |i: int| paths[i]@),
        forall|i: int|
            0 <= i < n && (#[trigger] paths[i])@.len() > 0 ==> kept_paths(paths, n).contains(
                paths[i]@,
            ),
        forall|k: int|
            0 <= k < kept_paths(paths, n).len() ==> (#[trigger] kept_paths(paths, n)[k]).len() > 0,
        kept_paths(paths, n).len() <= n,
    decreases n,
{
    let now = kept_paths(paths, n);
    if n > 0 {
        law_dropped_paths_are_kept(paths, n - 1);
        let before = kept_paths(paths, n - 1);
        assert forall|i: int| 0 <= i < n && (#[trigger] paths[i])@.len() > 0 implies now.contains(
            paths[i]@,
        ) by {
            if i < n - 1 {
                let k = choose|k: int| 0 <= k < before.len() && before[k] == paths[i]@;
                assert(now[k] == before[k]);
            } else {
                assert(now[now.len() - 1] == paths[i]@);
            }
        }
        assert forall|k: int| 0 <= k < now.len() implies (#[trigger] now[k]).len() > 0 by {
            if k < before.len() {
                assert(now[k] == before[k]);
            }
        }
        if forall|i: int| 0 <= i < n ==> (#[trigger] paths[i])@.len() > 0 {
            assert(paths[n - 1]@.len() > 0);
            assert(now =~= Seq::new(n as nat, |i: int| paths[i]@));
        }
    } else {
        assert(now =~= Seq::new(n as nat, |i: int| paths[i]@));
    }
}

/// The main window is known by its title: the name of the program, alone or
/// behind another title and a dash.
pub proof fn law_titles_of_the_main_window(title: Seq<char>)
    ensures
        is_main_title("ArchiveRclick"@),
        is_main_title(title + " \u{2014} ArchiveRclick"@),
{
    let end = " \u{2014} ArchiveRclick"@;
    let whole = title + end;
    assert(whole.subrange(title.len() as int, whole.len() as int) =~= end);
}

} // verus!
