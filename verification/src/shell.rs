//! Opening files, links and folders through the shell.

use vstd::prelude::*;
use vstd::string::*;
use crate::text;

verus! {

/// What the shell is asked to open.
#[derive(Debug)]
pub enum ShellTarget {
    /// A file, a folder or a link.
    Open(String),
    /// An Explorer window with a file selected, by the window's parameters.
    Select(String),
}

/// A [`ShellTarget`] over sequences.
pub enum ShellTargetView {
    Open(Seq<char>),
    Select(Seq<char>),
}

impl View for ShellTarget {
    type V = ShellTargetView;

    open spec fn view(&self) -> ShellTargetView {
        match *self {
            ShellTarget::Open(target) => ShellTargetView::Open(target@),
            ShellTarget::Select(parameters) => ShellTargetView::Select(parameters@),
        }
    }
}

/// What is known of a path: the absolute path, and what is there.
#[derive(Debug)]
pub struct PathFacts {
    /// The absolute path, or why there is none.
    pub absolute: Result<String, String>,
    /// Whether it is a file and whether it is a directory, or why that could
    /// not be told.
    pub kind: Result<(bool, bool), String>,
}

/// What is said of a path that cannot be opened, if anything is.
pub open spec fn path_error(path: Seq<char>, facts: PathFacts) -> Option<Seq<char>> {
    match facts.absolute {
        Err(error) => Some("Could not resolve "@ + path + ": "@ + error@),
        Ok(absolute) => match facts.kind {
            Err(error) => Some("Could not inspect "@ + absolute@ + ": "@ + error@),
            Ok(_) => None,
        },
    }
}

/// [`path_error`], executable.
fn check_path(path: &str, facts: &PathFacts) -> (error: Option<String>)
    ensures
        text::option_text(error) == path_error(path@, *facts),
{
    match &facts.absolute {
        Err(error) => {
            let mut message = text::join3("Could not resolve ", path, ": ");
            message.append(error.as_str());
            Some(message)
        },
        Ok(absolute) => match &facts.kind {
            Err(error) => {
                let mut message = text::join3("Could not inspect ", absolute.as_str(), ": ");
                message.append(error.as_str());
                Some(message)
            },
            Ok(_) => None,
        },
    }
}

/// A target or a message over sequences.
pub open spec fn target_view(target: Result<ShellTarget, String>) -> Result<
    ShellTargetView,
    Seq<char>,
> {
    match target {
        Ok(target) => Ok(target@),
        Err(message) => Err(message@),
    }
}

/// What opening a file comes to.
pub open spec fn file_target(path: Seq<char>, facts: PathFacts) -> Result<
    ShellTargetView,
    Seq<char>,
> {
    if path_error(path, facts) is Some {
        Err(path_error(path, facts)->0)
    } else if !facts.kind->Ok_0.0 {
        Err("The target is not a file: "@ + facts.absolute->Ok_0@)
    } else if facts.absolute->Ok_0@.contains('\0') {
        Err("The path cannot contain a null character"@)
    } else {
        Ok(ShellTargetView::Open(facts.absolute->Ok_0@))
    }
}

/// Opens a file: [`file_target`], executable.
pub fn open_file(path: &str, facts: &PathFacts) -> (target: Result<ShellTarget, String>)
    ensures
        target_view(target) == file_target(path@, *facts),
{
    if let Some(message) = check_path(path, facts) {
        return Err(message);
    }
    match (&facts.absolute, &facts.kind) {
        (Ok(absolute), Ok(kind)) => {
            if !kind.0 {
                return Err(text::join("The target is not a file: ", absolute.as_str()));
            }
            if text::contains_char(absolute.as_str(), '\0') {
                return Err("The path cannot contain a null character".to_owned());
            }
            Ok(ShellTarget::Open(absolute.clone()))
        },
        _ => Err(String::new()),
    }
}

/// Opens a link.
pub fn open_url(url: &str) -> (target: Result<ShellTarget, String>)
    ensures
        target_view(target) == if url@.contains('\0') {
            Err("The URL cannot contain a null character"@)
        } else {
            Ok(ShellTargetView::Open(url@))
        },
{
    if text::contains_char(url, '\0') {
        return Err("The URL cannot contain a null character".to_owned());
    }
    Ok(ShellTarget::Open(url.to_owned()))
}

/// What showing a path in Explorer comes to: a folder is opened, a file is
/// selected in its folder.
pub open spec fn reveal_target(path: Seq<char>, facts: PathFacts) -> Result<
    ShellTargetView,
    Seq<char>,
> {
    if path_error(path, facts) is Some {
        Err(path_error(path, facts)->0)
    } else if facts.absolute->Ok_0@.contains('\0') {
        Err("The path cannot contain a null character"@)
    } else if facts.kind->Ok_0.1 {
        Ok(ShellTargetView::Open(facts.absolute->Ok_0@))
    } else {
        Ok(ShellTargetView::Select("/select,\""@ + facts.absolute->Ok_0@ + "\""@))
    }
}

/// Shows a path in Explorer: [`reveal_target`], executable.
pub fn reveal_in_explorer(path: &str, facts: &PathFacts) -> (target: Result<ShellTarget, String>)
    ensures
        target_view(target) == reveal_target(path@, *facts),
{
    if let Some(message) = check_path(path, facts) {
        return Err(message);
    }
    match (&facts.absolute, &facts.kind) {
        (Ok(absolute), Ok(kind)) => {
            if text::contains_char(absolute.as_str(), '\0') {
                return Err("The path cannot contain a null character".to_owned());
            }
            if kind.1 {
                return Ok(ShellTarget::Open(absolute.clone()));
            }
            Ok(ShellTarget::Select(text::join3("/select,\"", absolute.as_str(), "\"")))
        },
        _ => Err(String::new()),
    }
}

/// Whether the shell opened a target. It answers with a number above 32.
pub fn shell_execute(code: i64) -> (done: Result<(), String>)
    ensures
        match done {
            Ok(_) => code > 32,
            Err(message) => code <= 32 && message@
                == "Windows could not open the target (ShellExecuteW returned "@
                + text::signed_decimal(code as int) + ")"@,
        },
{
    if code > 32 {
        return Ok(());
    }
    Err(
        text::join3(
            "Windows could not open the target (ShellExecuteW returned ",
            text::signed_decimal_text(code).as_str(),
            ")",
        ),
    )
}

/// A path that can be resolved and looked at is shown in Explorer: a folder is
/// opened, anything else is selected in the folder that holds it. Only a file
/// is opened as a file.
pub proof fn law_paths_are_shown(path: Seq<char>, facts: PathFacts)
    ensures
        facts.absolute is Err || facts.kind is Err ==> file_target(path, facts) is Err
            && reveal_target(path, facts) is Err,
        facts.absolute is Ok && facts.kind is Ok && !facts.absolute->Ok_0@.contains('\0') ==> {
            let shown = facts.absolute->Ok_0@;
            &&& facts.kind->Ok_0.1 ==> reveal_target(path, facts) == Ok::<
                ShellTargetView,
                Seq<char>,
            >(ShellTargetView::Open(shown))
            &&& !facts.kind->Ok_0.1 ==> reveal_target(path, facts) == Ok::<
                ShellTargetView,
                Seq<char>,
            >(ShellTargetView::Select("/select,\""@ + shown + "\""@))
            &&& facts.kind->Ok_0.0 ==> file_target(path, facts) == Ok::<
                ShellTargetView,
                Seq<char>,
            >(ShellTargetView::Open(shown))
            &&& !facts.kind->Ok_0.0 ==> file_target(path, facts) is Err
        },
        facts.absolute is Ok && facts.kind is Ok && facts.absolute->Ok_0@.contains('\0')
            ==> file_target(path, facts) is Err && reveal_target(path, facts) is Err,
{
}

} // verus!
