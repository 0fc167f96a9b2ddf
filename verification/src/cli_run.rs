//! Running a command of the command line.
//!
//! The program calls the engine; what it is called for, what goes into the
//! call and what is shown of the result is decided here.

use vstd::prelude::*;
use vstd::string::*;
use crate::cli;
use crate::cli::{Args, CliError};
use crate::listing::ArchiveListing;
use crate::options;
use crate::options::{ArchiveEntry, CreateFormat, OperationSummary};
use crate::text;

verus! {

/// What a command does next.
#[derive(Debug, Clone, Copy, PartialEq, Eq, Structural)]
pub enum CliStep {
    /// Show what the engine is and can do.
    ShowInfo,
    /// Look whether the new archive is there already, gather the inputs and
    /// create it.
    Create,
    /// Test the archive.
    Test,
    /// List the archive.
    List,
    /// Show the listing.
    ShowListing,
    /// Extract the archive.
    Extract,
}

/// What a command does once the engine is loaded.
pub open spec fn first_step(command: Seq<char>) -> CliStep {
    if command == "i"@ {
        CliStep::ShowInfo
    } else if command == "a"@ {
        CliStep::Create
    } else if command == "t"@ {
        CliStep::Test
    } else {
        CliStep::List
    }
}

/// [`first_step`], executable.
pub fn begin(command: &str) -> (step: CliStep)
    ensures
        step == first_step(command@),
{
    if text::same_text(command, "i") {
        CliStep::ShowInfo
    } else if text::same_text(command, "a") {
        CliStep::Create
    } else if text::same_text(command, "t") {
        CliStep::Test
    } else {
        CliStep::List
    }
}

/// What a command does once the archive is listed.
pub fn listed(command: &str) -> (step: CliStep)
    ensures
        step == if command@ == "l"@ {
            CliStep::ShowListing
        } else {
            CliStep::Extract
        },
{
    if text::same_text(command, "l") {
        CliStep::ShowListing
    } else {
        CliStep::Extract
    }
}

/// What is shown at the end, and the exit code.
#[derive(Debug)]
pub struct Report {
    pub output: String,
    /// What goes to the error stream.
    pub warning: Option<String>,
    pub code: i32,
}

/// A [`Report`] over sequences.
pub struct ReportView {
    pub output: Seq<char>,
    pub warning: Option<Seq<char>>,
    pub code: i32,
}

impl View for Report {
    type V = ReportView;

    open spec fn view(&self) -> ReportView {
        ReportView {
            output: self.output@,
            warning: text::option_text(self.warning),
            code: self.code,
        }
    }
}

/// A warning as it is shown.
pub open spec fn shown_warning(warning: Option<Seq<char>>) -> Option<Seq<char>> {
    match warning {
        Some(warning) => Some("WARNING: "@ + warning + "\n"@),
        None => None,
    }
}

/// [`shown_warning`], executable.
fn warning_line(warning: &Option<String>) -> (line: Option<String>)
    ensures
        text::option_text(line) == shown_warning(text::option_text(*warning)),
{
    match warning {
        Some(warning) => Some(text::join3("WARNING: ", warning.as_str(), "\n")),
        None => None,
    }
}

/// The names of formats, with commas between.
pub open spec fn format_names(formats: Seq<CreateFormat>, n: int) -> Seq<char>
    decreases n,
{
    if n <= 0 {
        Seq::empty()
    } else if n == 1 {
        formats[0].variant_text()
    } else {
        format_names(formats, n - 1) + ", "@ + formats[n - 1].variant_text()
    }
}

/// What the engine is and which formats it writes.
pub fn info_report(version: &str, formats: &Vec<CreateFormat>) -> (report: Report)
    ensures
        report@ == (ReportView {
            output: version@ + "\nWritable formats: ["@ + format_names(
                formats@,
                formats@.len() as int,
            ) + "]\n"@,
            warning: None,
            code: 0,
        }),
{
    let mut names = String::new();
    let mut i: usize = 0;
    proof {
        assert(names@ =~= Seq::<char>::empty());
    }
    while i < formats.len()
        invariant
            i <= formats@.len(),
            names@ == format_names(formats@, i as int),
        decreases formats@.len() - i,
    {
        if i > 0 {
            names.append(", ");
        }
        names.append(formats[i].variant_name());
        i += 1;
        proof {
            assert(names@ =~= format_names(formats@, i as int));
        }
    }
    let mut output = text::join3(version, "\nWritable formats: [", names.as_str());
    output.append("]\n");
    Report { output, warning: None, code: 0 }
}

// ---------------------------------------------------------------------------
// Creating
// ---------------------------------------------------------------------------

/// The paths of the first `n` lists, one behind the other.
pub open spec fn all_paths(found: Seq<Vec<String>>, n: int) -> Seq<Seq<char>>
    decreases n,
{
    if n <= 0 {
        Seq::empty()
    } else {
        all_paths(found, n - 1) + text::texts(found[n - 1]@)
    }
}

/// What goes into an archive: what the inputs stand for, in the order of paths
/// and each path once.
pub fn gather_inputs(found: &Vec<Vec<String>>) -> (inputs: Vec<String>)
    ensures
        gathers(all_paths(found@, found@.len() as int), text::texts(inputs@)),
{
    let mut all: Vec<String> = Vec::new();
    let mut i: usize = 0;
    proof {
        assert(text::texts(all@) =~= Seq::<Seq<char>>::empty());
    }
    while i < found.len()
        invariant
            i <= found@.len(),
            text::texts(all@) == all_paths(found@, i as int),
        decreases found@.len() - i,
    {
        let list: &Vec<String> = &found[i];
        let ghost before = text::texts(all@);
        let mut j: usize = 0;
        proof {
            assert(before + text::texts(list@).take(0) =~= before);
        }
        while j < list.len()
            invariant
                j <= list@.len(),
                text::texts(all@) == before + text::texts(list@).take(j as int),
            decreases list@.len() - j,
        {
            let ghost so_far = text::texts(all@);
            all.push(list[j].clone());
            proof {
                let texts = text::texts(list@);
                assert(text::texts(all@) =~= so_far.push(texts[j as int]));
                assert(texts.take(j + 1) =~= texts.take(j as int).push(texts[j as int]));
                assert(text::texts(all@) =~= before + texts.take(j + 1));
            }
            j += 1;
        }
        proof {
            assert(text::texts(list@).take(j as int) =~= text::texts(list@));
        }
        i += 1;
    }
    let sorted: Vec<String> = cli::sort_paths(&all);
    let inputs: Vec<String> = cli::drop_repeats(&sorted);
    proof {
        let list = text::texts(all@);
        let order = choose|order: Seq<usize>| #[trigger]
            cli::is_path_order(list, order) && text::texts(sorted@) == cli::reordered(list, order);
        assert(cli::is_path_order(list, order));
        assert(text::texts(sorted@).len() == sorted@.len());
        assert(gathers(list, text::texts(inputs@)));
    }
    inputs
}

/// Whether paths are those of a list, in their order and each once.
pub open spec fn gathers(list: Seq<Seq<char>>, inputs: Seq<Seq<char>>) -> bool {
    exists|order: Seq<usize>| #[trigger]
        cli::is_path_order(list, order) && inputs == cli::without_repeats(
            cli::reordered(list, order),
            order.len() as int,
        )
}

// ---------------------------------------------------------------------------
// Listing and extracting
// ---------------------------------------------------------------------------

/// The lines of the first `n` entries that are selected.
pub open spec fn shown_entries(
    entries: Seq<ArchiveEntry>,
    filters: Seq<String>,
    recursive: bool,
    technical: bool,
    n: int,
) -> Seq<char>
    decreases n,
{
    if n <= 0 {
        Seq::empty()
    } else {
        let entry = entries[n - 1];
        let before = shown_entries(entries, filters, recursive, technical, n - 1);
        if cli::is_selected(filters, recursive, entry.display_path@, text::texts(entry.path@)) {
            before + cli::entry_lines(entry, technical) + "\n"@
        } else {
            before
        }
    }
}

/// A listing as it is shown: the archive, its type, and the selected entries.
pub fn list_report(archive: &str, listing: &ArchiveListing, args: &Args) -> (report: Report)
    ensures
        report@ == (ReportView {
            output: "\nPath = "@ + archive@ + "\nType = "@ + listing.format_name@ + "\n\n"@
                + shown_entries(
                listing.entries@,
                args.files@,
                args.recursive,
                args.technical,
                listing.entries@.len() as int,
            ),
            warning: shown_warning(text::option_text(listing.warning)),
            code: if listing.warning is Some {
                cli::WARNING
            } else {
                0
            },
        }),
{
    let mut output = text::join3("\nPath = ", archive, "\nType = ");
    output.append(listing.format_name.as_str());
    output.append("\n\n");
    let ghost head = output@;
    let mut i: usize = 0;
    proof {
        assert(head + Seq::<char>::empty() =~= head);
    }
    while i < listing.entries.len()
        invariant
            i <= listing.entries@.len(),
            output@ == head + shown_entries(
                listing.entries@,
                args.files@,
                args.recursive,
                args.technical,
                i as int,
            ),
        decreases listing.entries@.len() - i,
    {
        let ghost before = shown_entries(
            listing.entries@,
            args.files@,
            args.recursive,
            args.technical,
            i as int,
        );
        let entry: &ArchiveEntry = &listing.entries[i];
        if cli::selects_entry(&args.files, args.recursive, entry) {
            let lines: String = cli::listing_lines(entry, args.technical);
            output.append(lines.as_str());
            output.append("\n");
            proof {
                assert(output@ =~= head + (before + lines@ + "\n"@));
            }
        }
        i += 1;
    }
    Report {
        output,
        warning: warning_line(&listing.warning),
        code: cli::exit_code(listing.warning.is_some()),
    }
}

/// Narrows an extraction to the entries that the filters select, and leaves
/// directories out where the command says so.
pub fn prepare_extraction(args: &mut Args, entries: &Vec<ArchiveEntry>) -> (prepared: Result<
    (),
    CliError,
>)
    ensures
        ({
            let chosen = cli::selected_paths(
                entries@,
                old(args).files@,
                old(args).recursive,
                entries@.len() as int,
            );
            if old(args).files@.len() > 0 && chosen.len() == 0 {
                &&& *final(args) == *old(args)
                &&& prepared matches Err(error) && cli::error_view(error) == (
                    cli::FAILURE,
                    "No archive entries match the file filters"@,
                )
            } else {
                &&& prepared is Ok
                &&& final(args).extract.selection@ == if old(args).files@.len() > 0 {
                    options::SelectionView::Paths(chosen)
                } else {
                    old(args).extract.selection@
                }
                &&& final(args).extract.flatten_paths == (old(args).command@ == "e"@)
                &&& *final(args) == (Args {
                    extract: options::ExtractOptions {
                        selection: final(args).extract.selection,
                        flatten_paths: final(args).extract.flatten_paths,
                        ..old(args).extract
                    },
                    ..*old(args)
                })
            }
        }),
{
    if args.files.len() > 0 {
        match cli::extract_selection(entries, &args.files, args.recursive) {
            Err(error) => {
                return Err(error);
            },
            Ok(selection) => {
                args.extract.selection = selection;
            },
        }
    }
    args.extract.flatten_paths = cli::flattens(args.command.as_str());
    Ok(())
}

/// What is shown at the end of creating, testing or extracting.
pub fn summary_report(summary: &OperationSummary) -> (report: Report)
    ensures
        report@ == (ReportView {
            output: "Files: "@ + text::decimal(summary.entries_processed as nat) + "\nSize: "@
                + text::decimal(summary.bytes_processed as nat) + "\nSkipped: "@ + text::decimal(
                summary.entries_skipped as nat,
            ) + "\n"@ + if summary.warning is Some {
                Seq::empty()
            } else {
                "Everything is Ok\n"@
            },
            warning: shown_warning(text::option_text(summary.warning)),
            code: if summary.warning is Some {
                cli::WARNING
            } else {
                0
            },
        }),
{
    let mut output: String = cli::summary_lines(summary);
    output.append("\n");
    let ghost head = output@;
    if summary.warning.is_none() {
        output.append("Everything is Ok\n");
    } else {
        proof {
            assert(head + Seq::<char>::empty() =~= head);
        }
    }
    Report {
        output,
        warning: warning_line(&summary.warning),
        code: cli::exit_code(summary.warning.is_some()),
    }
}

/// Each command begins with its own step; those that read an archive list it
/// first.
pub proof fn law_commands_begin_with_their_step(command: Seq<char>)
    ensures
        command == "i"@ <==> first_step(command) == CliStep::ShowInfo,
        command == "a"@ <==> first_step(command) == CliStep::Create,
        command == "t"@ <==> first_step(command) == CliStep::Test,
        command == "l"@ || command == "x"@ || command == "e"@ ==> first_step(command)
            == CliStep::List,
{
    reveal_strlit("i");
    reveal_strlit("a");
    reveal_strlit("t");
    reveal_strlit("l");
    reveal_strlit("x");
    reveal_strlit("e");
    assert("i"@[0] == 'i' && "a"@[0] == 'a' && "t"@[0] == 't' && "l"@[0] == 'l' && "x"@[0] == 'x'
        && "e"@[0] == 'e');
}

/// A listing shows every entry that is selected, line by line and in order,
/// and no other. Without filters it shows them all.
pub proof fn law_listings_show_what_is_selected(
    entries: Seq<ArchiveEntry>,
    filters: Seq<String>,
    recursive: bool,
    technical: bool,
    n: int,
)
    requires
        0 <= n < entries.len(),
    ensures
        shown_entries(entries, filters, recursive, technical, 0).len() == 0,
        filters.len() == 0 || cli::is_selected(
            filters,
            recursive,
            entries[n].display_path@,
            text::texts(entries[n].path@),
        ) ==> shown_entries(entries, filters, recursive, technical, n + 1) == shown_entries(
            entries,
            filters,
            recursive,
            technical,
            n,
        ) + cli::entry_lines(entries[n], technical) + "\n"@,
        !cli::is_selected(
            filters,
            recursive,
            entries[n].display_path@,
            text::texts(entries[n].path@),
        ) ==> shown_entries(entries, filters, recursive, technical, n + 1) == shown_entries(
            entries,
            filters,
            recursive,
            technical,
            n,
        ),
{
}

/// All paths that were found are gathered, in order.
pub proof fn law_all_inputs_are_gathered(found: Seq<Vec<String>>, n: int, i: int, k: int)
    requires
        0 <= i < n <= found.len(),
        0 <= k < found[i]@.len(),
    ensures
        all_paths(found, n).contains(found[i]@[k]@),
    decreases n,
{
    let now = all_paths(found, n);
    let before = all_paths(found, n - 1);
    if i < n - 1 {
        law_all_inputs_are_gathered(found, n - 1, i, k);
        let at = choose|at: int| 0 <= at < before.len() && before[at] == found[i]@[k]@;
        assert(now[at] == before[at]);
    } else {
        assert(now[before.len() + k] == text::texts(found[i]@)[k]);
    }
}

/// A warning is shown behind its mark, on a line of its own.
pub proof fn law_warnings_are_shown(warning: Seq<char>)
    ensures
        shown_warning(Some(warning)) == Some("WARNING: "@ + warning + "\n"@),
        shown_warning(None) is None,
{
}

} // verus!
