//! The files and directories that go into a new archive.
//!
//! [`SourceCollector`] takes what the file system tells about the inputs and
//! builds the list of items. The caller lists the directories it asks for.

use vstd::prelude::*;
use vstd::string::*;
use crate::error::{ArchiveError, ArchiveResult, ErrorView};
use crate::ffi::FILETIME_EPOCH_SECONDS;
use crate::file_ops;
use crate::options::{CreateFormat, CreateOptions};
use crate::order;
use crate::text;

verus! {

/// The largest number of bytes that go into one archive: 512 TiB.
pub const MAX_LIST_DECLARED_BYTES: u64 = 0x2_0000_0000_0000;

/// What an input is.
#[derive(Debug, Clone, Copy, PartialEq, Eq, Structural)]
pub enum SourceKind {
    File,
    Directory,
}

/// One input, and the name it gets in the archive.
#[derive(Debug)]
pub struct SourceItem {
    pub source: String,
    pub archive_name: String,
    pub kind: SourceKind,
    pub size: u64,
    pub modified_unix_seconds: Option<i64>,
}

/// A [`SourceItem`] over sequences.
#[verifier::ext_equal]
pub struct SourceView {
    pub source: Seq<char>,
    pub archive_name: Seq<char>,
    pub kind: SourceKind,
    pub size: u64,
    pub modified_unix_seconds: Option<i64>,
}

impl View for SourceItem {
    type V = SourceView;

    open spec fn view(&self) -> SourceView {
        SourceView {
            source: self.source@,
            archive_name: self.archive_name@,
            kind: self.kind,
            size: self.size,
            modified_unix_seconds: self.modified_unix_seconds,
        }
    }
}

impl SourceItem {
    /// A copy of the item.
    pub fn copy(&self) -> (item: SourceItem)
        ensures
            item@ == self@,
    {
        SourceItem {
            source: self.source.clone(),
            archive_name: self.archive_name.clone(),
            kind: self.kind,
            size: self.size,
            modified_unix_seconds: self.modified_unix_seconds,
        }
    }
}

/// The views of items.
pub open spec fn source_views(items: Seq<SourceItem>) -> Seq<SourceView> {
    Seq::new(items.len(), |i: int| items[i]@)
}

/// What the file system tells about an input or a directory's child.
#[derive(Debug)]
pub struct FoundEntry {
    /// The name, where it has one.
    pub name: Option<String>,
    /// The path to read it from.
    pub path: String,
    /// The path with all links resolved.
    pub canonical: String,
    /// Whether it is a link or mount point.
    pub is_reparse: bool,
    pub is_dir: bool,
    pub size: u64,
    pub modified_unix_seconds: Option<i64>,
}

/// The thumbnail caches that Explorer leaves are not archived.
pub open spec fn is_thumbs_db(name: Seq<char>) -> bool {
    text::lower(name) == text::lower("Thumbs.db"@)
}

/// [`is_thumbs_db`], executable.
pub fn is_thumbs_db_name(name: &str) -> (yes: bool)
    ensures
        yes == is_thumbs_db(name@),
{
    text::same_ignoring_case(name, "Thumbs.db")
}

/// The Unix time of a file's last change, by its file time.
pub fn metadata_modified_seconds(filetime: u64) -> (seconds: Option<i64>)
    ensures
        seconds == if filetime <= i64::MAX {
            Some((filetime as int / 10_000_000 - FILETIME_EPOCH_SECONDS) as i64)
        } else {
            None
        },
{
    if filetime > i64::MAX as u64 {
        return None;
    }
    Some((filetime / 10_000_000) as i64 - FILETIME_EPOCH_SECONDS)
}

/// Whether the name of a folder among `inputs` inputs stands in the paths of
/// what it holds. The contents of a single folder go to the top of a ZIP
/// archive unless its root is to be preserved; 7z archives keep the folder.
pub fn keeps_root(inputs: usize, options: &CreateOptions) -> (keep: bool)
    ensures
        keep == (inputs != 1 || options.preserve_root || options.format == CreateFormat::SevenZip),
{
    inputs != 1 || options.preserve_root || options.format == CreateFormat::SevenZip
}

/// The name of a child in the archive.
pub open spec fn child_name(prefix: Seq<char>, name: Seq<char>) -> Seq<char> {
    if prefix.len() == 0 {
        name
    } else {
        prefix + seq!['/'] + name
    }
}

/// [`child_name`], executable.
fn child_archive_name(prefix: &str, name: &str) -> (out: String)
    ensures
        out@ == child_name(prefix@, name@),
{
    if prefix.is_empty() {
        return name.to_owned();
    }
    let mut out = prefix.to_owned();
    out.push('/');
    out.append(name);
    proof {
        assert(out@ =~= child_name(prefix@, name@));
    }
    out
}

/// The name of a child; one that the file system could not name is empty.
pub open spec fn entry_name(entry: FoundEntry) -> Seq<char> {
    match entry.name {
        Some(name) => name@,
        None => Seq::empty(),
    }
}

/// Whether a directory's child goes into the archive: links do not, the
/// archive itself does not, and thumbnail caches do not.
pub open spec fn is_taken(entry: FoundEntry, destination: Seq<char>) -> bool {
    &&& !entry.is_reparse
    &&& text::lower(entry.path@) != text::lower(destination)
    &&& entry.is_dir || !is_thumbs_db(entry_name(entry))
}

/// The item of a file among a directory's children.
pub open spec fn file_item(prefix: Seq<char>, entry: FoundEntry) -> SourceView {
    SourceView {
        source: entry.path@,
        archive_name: child_name(prefix, entry_name(entry)),
        kind: SourceKind::File,
        size: entry.size,
        modified_unix_seconds: entry.modified_unix_seconds,
    }
}

/// The item of a directory itself.
pub open spec fn directory_item(prefix: Seq<char>, directory: Seq<char>) -> SourceView {
    SourceView {
        source: directory,
        archive_name: prefix,
        kind: SourceKind::Directory,
        size: 0,
        modified_unix_seconds: None,
    }
}

/// The file items of the first `n` children in order.
pub open spec fn taken_files(
    prefix: Seq<char>,
    children: Seq<FoundEntry>,
    order: Seq<usize>,
    destination: Seq<char>,
    n: int,
) -> Seq<SourceView>
    decreases n,
{
    if n <= 0 {
        Seq::empty()
    } else {
        let child = children[order[n - 1] as int];
        let before = taken_files(prefix, children, order, destination, n - 1);
        if is_taken(child, destination) && !child.is_dir {
            before.push(file_item(prefix, child))
        } else {
            before
        }
    }
}

/// The directories among the first `n` children in order, each with the name
/// it has in the archive.
pub open spec fn taken_directories(
    prefix: Seq<char>,
    children: Seq<FoundEntry>,
    order: Seq<usize>,
    destination: Seq<char>,
    n: int,
) -> Seq<(Seq<char>, Seq<char>)>
    decreases n,
{
    if n <= 0 {
        Seq::empty()
    } else {
        let child = children[order[n - 1] as int];
        let before = taken_directories(prefix, children, order, destination, n - 1);
        if is_taken(child, destination) && child.is_dir {
            before.push((child_name(prefix, entry_name(child)), child.path@))
        } else {
            before
        }
    }
}

/// The bytes once the files among the first `n` children are added.
pub open spec fn bytes_with(
    total: u64,
    children: Seq<FoundEntry>,
    order: Seq<usize>,
    destination: Seq<char>,
    n: int,
) -> Result<u64, ErrorView>
    decreases n,
{
    if n <= 0 {
        Ok(total)
    } else {
        let child = children[order[n - 1] as int];
        match bytes_with(total, children, order, destination, n - 1) {
            Err(error) => Err(error),
            Ok(sum) => if is_taken(child, destination) && !child.is_dir {
                file_ops::limited_sum(
                    sum,
                    child.size,
                    MAX_LIST_DECLARED_BYTES,
                    "7z creation input size"@,
                )
            } else {
                Ok(sum)
            },
        }
    }
}

/// The names of children.
pub open spec fn entry_names(children: Seq<FoundEntry>) -> Seq<Seq<char>> {
    Seq::new(children.len(), |i: int| entry_name(children[i]))
}

/// Whether `order` is the order of the children by name.
pub open spec fn is_name_order(children: Seq<FoundEntry>, order: Seq<usize>) -> bool {
    order::covers(order, 0, children.len() as int) && order::in_order(
        entry_names(children),
        order,
    )
}

/// Builds the list of items for a new archive.
#[derive(Debug)]
pub struct SourceCollector {
    pub destination: String,
    pub items: Vec<SourceItem>,
    pub total_bytes: u64,
    /// The directories to list, each with its name in the archive. The last
    /// comes first.
    pub pending: Vec<(String, String)>,
}

/// The views of directories to list.
pub open spec fn pending_views(pending: Seq<(String, String)>) -> Seq<(Seq<char>, Seq<char>)> {
    Seq::new(pending.len(), |i: int| (pending[i].0@, pending[i].1@))
}

/// What adding one of the inputs comes to.
pub open spec fn root_error(root: FoundEntry, collector: SourceCollector) -> Option<ErrorView> {
    if text::lower(root.canonical@) == text::lower(collector.destination@) {
        None
    } else if root.name is None {
        Some(ErrorView::InvalidInput("input has no file name: "@ + root.path@))
    } else if root.is_reparse || root.is_dir || is_thumbs_db(root.name->0@) {
        None
    } else {
        match file_ops::limited_sum(
            collector.total_bytes,
            root.size,
            MAX_LIST_DECLARED_BYTES,
            "7z creation input size"@,
        ) {
            Ok(_) => None,
            Err(error) => Some(error),
        }
    }
}

/// Whether one of the inputs goes into the archive.
pub open spec fn root_is_taken(root: FoundEntry, collector: SourceCollector) -> bool {
    &&& text::lower(root.canonical@) != text::lower(collector.destination@)
    &&& !root.is_reparse
    &&& root.is_dir || !is_thumbs_db(entry_name(root))
}

impl SourceCollector {
    /// Nothing collected yet. `destination` is the archive to be written.
    pub fn new(destination: String) -> (collector: SourceCollector)
        ensures
            collector.destination == destination,
            collector.items@.len() == 0,
            collector.total_bytes == 0,
            collector.pending@.len() == 0,
    {
        SourceCollector { destination, items: Vec::new(), total_bytes: 0, pending: Vec::new() }
    }

    /// Adds one of the inputs: a file becomes an item, a directory is to be
    /// listed. The archive itself, links and thumbnail caches are left out.
    pub fn add_root(&mut self, root: &FoundEntry, keep_root: bool) -> (added: ArchiveResult<()>)
        ensures
            match added {
                Err(error) => root_error(*root, *old(self)) == Some(error@) && *final(self) == *old(
                    self,
                ),
                Ok(_) => {
                    &&& root_error(*root, *old(self)) is None
                    &&& final(self).destination == old(self).destination
                    &&& if !root_is_taken(*root, *old(self)) {
                        *final(self) == *old(self)
                    } else if root.is_dir {
                        &&& final(self).items == old(self).items
                        &&& final(self).total_bytes == old(self).total_bytes
                        &&& pending_views(final(self).pending@) == pending_views(
                            old(self).pending@,
                        ).push(
                            (
                                if keep_root {
                                    root.name->0@
                                } else {
                                    Seq::<char>::empty()
                                },
                                root.canonical@,
                            ),
                        )
                    } else {
                        &&& final(self).pending == old(self).pending
                        &&& final(self).total_bytes == old(self).total_bytes + root.size
                        &&& source_views(final(self).items@) == source_views(old(self).items@).push(
                            SourceView {
                                source: root.path@,
                                archive_name: root.name->0@,
                                kind: SourceKind::File,
                                size: root.size,
                                modified_unix_seconds: root.modified_unix_seconds,
                            },
                        )
                    }
                },
            },
    {
        if file_ops::same_windows_path(root.canonical.as_str(), self.destination.as_str()) {
            return Ok(());
        }
        let name: String = match &root.name {
            Some(name) => name.clone(),
            None => {
                return Err(
                    ArchiveError::InvalidInput(
                        text::join("input has no file name: ", root.path.as_str()),
                    ),
                );
            },
        };
        if root.is_reparse {
            return Ok(());
        }
        if !root.is_dir && is_thumbs_db_name(name.as_str()) {
            return Ok(());
        }
        if root.is_dir {
            let prefix = if keep_root { name } else { String::new() };
            let ghost before = pending_views(self.pending@);
            let ghost entry = (prefix@, root.canonical@);
            self.pending.push((prefix, root.canonical.clone()));
            proof {
                assert(pending_views(self.pending@) =~= before.push(entry));
            }
            return Ok(());
        }
        match file_ops::checked_add_with_limit(
            self.total_bytes,
            root.size,
            MAX_LIST_DECLARED_BYTES,
            "7z creation input size",
        ) {
            Err(error) => Err(error),
            Ok(total) => {
                self.total_bytes = total;
                let item = SourceItem {
                    source: root.path.clone(),
                    archive_name: name,
                    kind: SourceKind::File,
                    size: root.size,
                    modified_unix_seconds: root.modified_unix_seconds,
                };
                let ghost before = source_views(self.items@);
                let ghost found = item@;
                self.items.push(item);
                proof {
                    assert(source_views(self.items@) =~= before.push(found));
                }
                Ok(())
            },
        }
    }

    /// The next directory to list, with its name in the archive.
    pub fn next_directory(&mut self) -> (next: Option<(String, String)>)
        ensures
            match next {
                Some(next) => {
                    &&& old(self).pending@.len() > 0
                    &&& next == old(self).pending@.last()
                    &&& final(self).pending@ == old(self).pending@.drop_last()
                },
                None => old(self).pending@.len() == 0 && final(self).pending@ == old(self).pending@,
            },
            *final(self) == (SourceCollector { pending: final(self).pending, ..*old(self) }),
    {
        let next = self.pending.pop();
        proof {
            if old(self).pending@.len() > 0 {
                assert(self.pending@ =~= old(self).pending@.drop_last());
            }
        }
        next
    }

    /// Adds a directory that was listed: its own item where it has a name in
    /// the archive, items for its files, and its directories to be listed.
    /// The children are taken in the order of their names.
    pub fn add_directory(&mut self, prefix: &str, directory: &str, children: &Vec<FoundEntry>) -> (
        added: ArchiveResult<()>)
        ensures
            final(self).destination == old(self).destination,
            exists|order: Seq<usize>| #[trigger]
                is_name_order(children@, order) && {
                    let n = children@.len() as int;
                    let destination = old(self).destination@;
                    match added {
                        Err(error) => {
                            &&& bytes_with(
                                old(self).total_bytes,
                                children@,
                                order,
                                destination,
                                n,
                            ) == Err::<u64, ErrorView>(error@)
                            &&& *final(self) == *old(self)
                        },
                        Ok(_) => {
                            &&& bytes_with(
                                old(self).total_bytes,
                                children@,
                                order,
                                destination,
                                n,
                            ) == Ok::<u64, ErrorView>(final(self).total_bytes)
                            &&& source_views(final(self).items@) == source_views(old(self).items@)
                                + if prefix@.len() == 0 {
                                Seq::<SourceView>::empty()
                            } else {
                                seq![directory_item(prefix@, directory@)]
                            } + taken_files(prefix@, children@, order, destination, n)
                            &&& pending_views(final(self).pending@) == pending_views(
                                old(self).pending@,
                            ) + taken_directories(prefix@, children@, order, destination, n)
                        },
                    }
                },
    {
        let mut keys: Vec<Vec<char>> = Vec::new();
        let mut i: usize = 0;
        while i < children.len()
            invariant
                i <= children@.len(),
                keys@.len() == i,
                forall|k: int| 0 <= k < i ==> (#[trigger] keys@[k])@ == entry_name(children@[k]),
            decreases children@.len() - i,
        {
            let key: Vec<char> = match &children[i].name {
                Some(name) => text::chars_of(name.as_str()),
                None => Vec::new(),
            };
            keys.push(key);
            i += 1;
        }
        let order = order::sort_order(&keys);
        proof {
            assert(order::keys_of(keys@) =~= entry_names(children@));
            assert(is_name_order(children@, order@));
        }
        let ghost n = children@.len() as int;
        let ghost destination = self.destination@;
        let mut found: Vec<SourceItem> = Vec::new();
        let mut deeper: Vec<(String, String)> = Vec::new();
        let mut total: u64 = self.total_bytes;
        if !prefix.is_empty() {
            found.push(
                SourceItem {
                    source: directory.to_owned(),
                    archive_name: prefix.to_owned(),
                    kind: SourceKind::Directory,
                    size: 0,
                    modified_unix_seconds: None,
                },
            );
        }
        let ghost own = if prefix@.len() == 0 {
            Seq::<SourceView>::empty()
        } else {
            seq![directory_item(prefix@, directory@)]
        };
        proof {
            assert(source_views(found@) =~= own + Seq::<SourceView>::empty());
            assert(pending_views(deeper@) =~= Seq::<(Seq<char>, Seq<char>)>::empty());
        }
        let mut at: usize = 0;
        while at < order.len()
            invariant
                at <= order@.len(),
                order@.len() == children@.len(),
                n == children@.len(),
                is_name_order(children@, order@),
                *self == *old(self),
                destination == self.destination@,
                bytes_with(self.total_bytes, children@, order@, destination, at as int) == Ok::<
                    u64,
                    ErrorView,
                >(total),
                source_views(found@) == own + taken_files(
                    prefix@,
                    children@,
                    order@,
                    destination,
                    at as int,
                ),
                pending_views(deeper@) == taken_directories(
                    prefix@,
                    children@,
                    order@,
                    destination,
                    at as int,
                ),
            decreases order@.len() - at,
        {
            let place: usize = order[at];
            let child = &children[place];
            let ghost files = taken_files(prefix@, children@, order@, destination, at as int);
            let name: String = match &child.name {
                Some(name) => name.clone(),
                None => String::new(),
            };
            let taken: bool = !child.is_reparse && !file_ops::same_windows_path(
                child.path.as_str(),
                self.destination.as_str(),
            ) && (child.is_dir || !is_thumbs_db_name(name.as_str()));
            if taken {
                let archive_name = child_archive_name(prefix, name.as_str());
                if child.is_dir {
                    let ghost before = pending_views(deeper@);
                    let ghost entry = (archive_name@, child.path@);
                    deeper.push((archive_name, child.path.clone()));
                    proof {
                        assert(pending_views(deeper@) =~= before.push(entry));
                    }
                } else {
                    match file_ops::checked_add_with_limit(
                        total,
                        child.size,
                        MAX_LIST_DECLARED_BYTES,
                        "7z creation input size",
                    ) {
                        Err(error) => {
                            proof {
                                lemma_bytes_error(
                                    self.total_bytes,
                                    children@,
                                    order@,
                                    destination,
                                    at + 1,
                                    n,
                                );
                            }
                            return Err(error);
                        },
                        Ok(sum) => {
                            total = sum;
                        },
                    }
                    let item = SourceItem {
                        source: child.path.clone(),
                        archive_name,
                        kind: SourceKind::File,
                        size: child.size,
                        modified_unix_seconds: child.modified_unix_seconds,
                    };
                    let ghost before = source_views(found@);
                    let ghost view = item@;
                    found.push(item);
                    proof {
                        assert(view == file_item(prefix@, *child));
                        assert(source_views(found@) =~= before.push(view));
                        assert((own + files).push(view) =~= own + files.push(view));
                    }
                }
            }
            at += 1;
        }
        let ghost old_items = source_views(self.items@);
        let ghost old_pending = pending_views(self.pending@);
        let ghost new_items = source_views(found@);
        let ghost new_pending = pending_views(deeper@);
        let ghost items_before = self.items@;
        let ghost pending_before = self.pending@;
        let ghost found_items = found@;
        let ghost found_pending = deeper@;
        self.items.append(&mut found);
        self.pending.append(&mut deeper);
        self.total_bytes = total;
        proof {
            assert(self.items@ == items_before + found_items);
            assert(self.pending@ == pending_before + found_pending);
            assert(source_views(self.items@) =~= old_items + new_items);
            assert(pending_views(self.pending@) =~= old_pending + new_pending);
            let files = taken_files(prefix@, children@, order@, destination, n);
            assert(old_items + (own + files) =~= old_items + own + files);
        }
        Ok(())
    }

    /// The items in the order of their names in the archive, and their bytes.
    /// Items with the same name keep the order in which they were found.
    pub fn finish(self) -> (collected: (Vec<SourceItem>, u64))
        ensures
            collected.1 == self.total_bytes,
            exists|order: Seq<usize>| #[trigger]
                is_item_order(source_views(self.items@), order) && source_views(collected.0@)
                    == permuted(source_views(self.items@), order),
    {
        let mut keys: Vec<Vec<char>> = Vec::new();
        let mut i: usize = 0;
        while i < self.items.len()
            invariant
                i <= self.items@.len(),
                keys@.len() == i,
                forall|k: int|
                    0 <= k < i ==> (#[trigger] keys@[k])@ == self.items@[k].archive_name@,
            decreases self.items@.len() - i,
        {
            keys.push(text::chars_of(self.items[i].archive_name.as_str()));
            i += 1;
        }
        let order = order::sort_order(&keys);
        proof {
            assert(order::keys_of(keys@) =~= item_names(source_views(self.items@)));
        }
        let mut sorted: Vec<SourceItem> = Vec::new();
        let mut at: usize = 0;
        while at < order.len()
            invariant
                at <= order@.len(),
                order@.len() == self.items@.len(),
                is_item_order(source_views(self.items@), order@),
                source_views(sorted@) == permuted(source_views(self.items@), order@).take(
                    at as int,
                ),
            decreases order@.len() - at,
        {
            let place: usize = order[at];
            let item = self.items[place].copy();
            let ghost before = source_views(sorted@);
            let ghost view = item@;
            sorted.push(item);
            at += 1;
            proof {
                let whole = permuted(source_views(self.items@), order@);
                assert(source_views(sorted@) =~= before.push(view));
                assert(whole.take(at as int) =~= whole.take(at - 1).push(whole[at - 1]));
            }
        }
        proof {
            let whole = permuted(source_views(self.items@), order@);
            assert(whole.take(at as int) =~= whole);
        }
        (sorted, self.total_bytes)
    }
}

/// The names of items in the archive.
pub open spec fn item_names(items: Seq<SourceView>) -> Seq<Seq<char>> {
    Seq::new(items.len(), |i: int| items[i].archive_name)
}

/// Whether `order` is the order of the items by name.
pub open spec fn is_item_order(items: Seq<SourceView>, order: Seq<usize>) -> bool {
    order::covers(order, 0, items.len() as int) && order::in_order(item_names(items), order)
}

/// The items in another order.
pub open spec fn permuted(items: Seq<SourceView>, order: Seq<usize>) -> Seq<SourceView> {
    Seq::new(order.len(), |i: int| items[order[i] as int])
}

/// Once the bytes are too many, they stay too many.
pub proof fn lemma_bytes_error(
    total: u64,
    children: Seq<FoundEntry>,
    order: Seq<usize>,
    destination: Seq<char>,
    i: int,
    n: int,
)
    requires
        0 <= i <= n,
        bytes_with(total, children, order, destination, i) is Err,
    ensures
        bytes_with(total, children, order, destination, n) == bytes_with(
            total,
            children,
            order,
            destination,
            i,
        ),
    decreases n - i,
{
    if i < n {
        lemma_bytes_error(total, children, order, destination, i, n - 1);
    }
}

/// Nothing that is collected is the archive itself, a link or a thumbnail
/// cache.
pub proof fn law_collected_files_are_taken(
    prefix: Seq<char>,
    children: Seq<FoundEntry>,
    order: Seq<usize>,
    destination: Seq<char>,
    n: int,
    i: int,
)
    requires
        0 <= i < taken_files(prefix, children, order, destination, n).len(),
    ensures
        exists|k: int|
            0 <= k < n && is_taken(children[#[trigger] order[k] as int], destination)
                && !children[order[k] as int].is_dir && taken_files(
                prefix,
                children,
                order,
                destination,
                n,
            )[i] == file_item(prefix, children[order[k] as int]),
    decreases n,
{
    if n > 0 {
        let before = taken_files(prefix, children, order, destination, n - 1);
        if i < before.len() {
            law_collected_files_are_taken(prefix, children, order, destination, n - 1, i);
            let k = choose|k: int|
                0 <= k < n - 1 && is_taken(children[#[trigger] order[k] as int], destination)
                    && !children[order[k] as int].is_dir && before[i] == file_item(
                    prefix,
                    children[order[k] as int],
                );
            assert(is_taken(children[order[k] as int], destination));
        } else {
            assert(is_taken(children[order[n - 1] as int], destination));
        }
    }
}

/// A directory is collected completely: every file below it that is no link,
/// not the new archive itself and no thumbnail cache becomes an item, with the
/// name of its directory before its own, and every directory that is no link
/// is listed later under its name. Nothing else is taken.
pub proof fn law_every_child_is_collected(
    prefix: Seq<char>,
    children: Seq<FoundEntry>,
    order: Seq<usize>,
    destination: Seq<char>,
    i: int,
)
    requires
        order::covers(order, 0, children.len() as int),
        0 <= i < children.len(),
        children.len() <= usize::MAX,
        !children[i].is_reparse,
        text::lower(children[i].path@) != text::lower(destination),
        prefix.len() > 0,
        children[i].name is Some,
    ensures
        !children[i].is_dir && text::lower(children[i].name->0@) != "thumbs.db"@ ==> taken_files(
            prefix,
            children,
            order,
            destination,
            order.len() as int,
        ).contains(
            SourceView {
                source: children[i].path@,
                archive_name: prefix + seq!['/'] + children[i].name->0@,
                kind: SourceKind::File,
                size: children[i].size,
                modified_unix_seconds: children[i].modified_unix_seconds,
            },
        ),
        children[i].is_dir ==> taken_directories(
            prefix,
            children,
            order,
            destination,
            order.len() as int,
        ).contains((prefix + seq!['/'] + children[i].name->0@, children[i].path@)),
        child_name(Seq::empty(), children[i].name->0@) == children[i].name->0@,
{
    law_thumbnail_caches(children[i].name->0@);
    assert(order.contains(i as usize));
    let k = choose|k: int| 0 <= k < order.len() && order[k] == i as usize;
    if is_taken(children[i], destination) {
        lemma_child_is_collected(prefix, children, order, destination, k, order.len() as int);
    }
}

/// A thumbnail cache is a file with the name `Thumbs.db`, in any case.
pub proof fn law_thumbnail_caches(name: Seq<char>)
    ensures
        is_thumbs_db(name) <==> text::lower(name) == "thumbs.db"@,
{
    reveal_strlit("Thumbs.db");
    reveal_strlit("thumbs.db");
    assert(text::lower("Thumbs.db"@) =~= "thumbs.db"@);
}

/// A child at a place of the order is collected once that place is passed.
proof fn lemma_child_is_collected(
    prefix: Seq<char>,
    children: Seq<FoundEntry>,
    order: Seq<usize>,
    destination: Seq<char>,
    k: int,
    n: int,
)
    requires
        0 <= k < n <= order.len(),
        is_taken(children[order[k] as int], destination),
    ensures
        !children[order[k] as int].is_dir ==> taken_files(
            prefix,
            children,
            order,
            destination,
            n,
        ).contains(file_item(prefix, children[order[k] as int])),
        children[order[k] as int].is_dir ==> taken_directories(
            prefix,
            children,
            order,
            destination,
            n,
        ).contains(
            (
                child_name(prefix, entry_name(children[order[k] as int])),
                children[order[k] as int].path@,
            ),
        ),
    decreases n,
{
    let child = children[order[k] as int];
    let files = taken_files(prefix, children, order, destination, n);
    let directories = taken_directories(prefix, children, order, destination, n);
    if k < n - 1 {
        lemma_child_is_collected(prefix, children, order, destination, k, n - 1);
        let files_before = taken_files(prefix, children, order, destination, n - 1);
        let directories_before = taken_directories(prefix, children, order, destination, n - 1);
        if !child.is_dir {
            let at = choose|at: int|
                0 <= at < files_before.len() && files_before[at] == file_item(prefix, child);
            assert(files[at] == files_before[at]);
        } else {
            let wanted = (child_name(prefix, entry_name(child)), child.path@);
            let at = choose|at: int|
                0 <= at < directories_before.len() && directories_before[at] == wanted;
            assert(directories[at] == directories_before[at]);
        }
    } else {
        if !child.is_dir {
            assert(files[files.len() - 1] == file_item(prefix, child));
        } else {
            assert(directories[directories.len() - 1] == (
                child_name(prefix, entry_name(child)),
                child.path@,
            ));
        }
    }
}

/// The bytes of a directory are those of its files that are taken, added to
/// what was collected before.
pub proof fn law_bytes_are_those_of_the_files(
    prefix: Seq<char>,
    total: u64,
    children: Seq<FoundEntry>,
    order: Seq<usize>,
    destination: Seq<char>,
    n: int,
)
    requires
        bytes_with(total, children, order, destination, n) is Ok,
    ensures
        bytes_with(total, children, order, destination, n)->Ok_0 == total + item_bytes(
            taken_files(prefix, children, order, destination, n),
        ),
    decreases n,
{
    if n > 0 {
        law_bytes_are_those_of_the_files(prefix, total, children, order, destination, n - 1);
        let before = taken_files(prefix, children, order, destination, n - 1);
        let now = taken_files(prefix, children, order, destination, n);
        if now.len() > before.len() {
            assert(now.drop_last() =~= before);
        }
    }
}

/// The sizes of items, added up.
pub open spec fn item_bytes(items: Seq<SourceView>) -> int
    decreases items.len(),
{
    if items.len() == 0 {
        0
    } else {
        item_bytes(items.drop_last()) + items.last().size
    }
}

/// An input goes into the archive unless it is the archive itself, a link or
/// a thumbnail cache.
pub proof fn law_inputs_that_are_taken(root: FoundEntry, collector: SourceCollector)
    requires
        root.name is Some,
    ensures
        root_is_taken(root, collector) <==> text::lower(root.canonical@) != text::lower(
            collector.destination@,
        ) && !root.is_reparse && (root.is_dir || text::lower(root.name->0@) != "thumbs.db"@),
        root.is_dir ==> root_error(root, collector) is None,
        collector.total_bytes + root.size <= MAX_LIST_DECLARED_BYTES ==> root_error(root, collector)
            is None,
{
    law_thumbnail_caches(root.name->0@);
}

/// Only children that go into the archive are entered: each directory is one
/// of the children, no link, not the archive itself, and a directory.
pub proof fn law_entered_directories_are_children(
    prefix: Seq<char>,
    children: Seq<FoundEntry>,
    order: Seq<usize>,
    destination: Seq<char>,
    n: int,
    k: int,
)
    requires
        0 <= n <= order.len(),
        forall|i: int| 0 <= i < order.len() ==> (#[trigger] order[i]) < children.len(),
        0 <= k < taken_directories(prefix, children, order, destination, n).len(),
    ensures
        is_entered(
            children,
            destination,
            taken_directories(prefix, children, order, destination, n)[k].1,
        ),
    decreases n,
{
    let now = taken_directories(prefix, children, order, destination, n);
    let before = taken_directories(prefix, children, order, destination, n - 1);
    if n > 0 {
        if k < before.len() {
            assert(now[k] == before[k]);
            law_entered_directories_are_children(prefix, children, order, destination, n - 1, k);
        } else {
            let at = order[n - 1] as int;
            assert(children[at].path@ == now[k].1);
        }
    }
}

/// Whether a path is that of a directory among the children that is no link
/// and not the archive itself.
pub open spec fn is_entered(
    children: Seq<FoundEntry>,
    destination: Seq<char>,
    path: Seq<char>,
) -> bool {
    exists|i: int|
        0 <= i < children.len() && (#[trigger] children[i]).path@ == path && children[i].is_dir
            && !children[i].is_reparse && text::lower(path) != text::lower(destination)
}

} // verus!
