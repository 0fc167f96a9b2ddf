//! Deciding what an extraction does before it starts, and what it comes to.

use vstd::prelude::*;
use vstd::string::*;
use std::collections::HashSet;
use crate::error::{ArchiveError, ArchiveResult, ErrorView};
use crate::extracting;
use crate::extracting::{ExtractItem, ItemView};
use crate::ffi::S_OK;
use crate::format::ReadFormat;
use crate::listing;
use crate::options;
use crate::options::{
    ArchiveEntry, ArchiveEntryKind, EntryView, ExtractOptions, OperationSummary,
};
use crate::order;
use crate::paths;
use crate::progress;
use crate::progress::{ProgressPhase, ProgressSnapshot};
use crate::text;

verus! {

broadcast use vstd::std_specs::hash::group_hash_axioms;

// ---------------------------------------------------------------------------
// The plan
// ---------------------------------------------------------------------------

/// What is extracted.
#[derive(Debug)]
pub struct ExtractPlan {
    /// All entries.
    pub items: Vec<ExtractItem>,
    /// The indices of the entries that are wanted.
    pub selected: HashSet<u32>,
    /// How many entries are wanted.
    pub count: u64,
    /// The sizes that the wanted entries declare.
    pub bytes: u64,
}

/// An [`ExtractPlan`] over sequences.
#[verifier::ext_equal]
pub struct PlanView {
    pub items: Seq<ItemView>,
    pub selected: Set<u32>,
    pub count: int,
    pub bytes: u64,
}

impl View for ExtractPlan {
    type V = PlanView;

    open spec fn view(&self) -> PlanView {
        PlanView {
            items: extracting::item_views(self.items@),
            selected: self.selected@,
            count: self.count as int,
            bytes: self.bytes,
        }
    }
}

/// The item of an entry.
pub open spec fn item_of(entry: EntryView) -> ItemView {
    ItemView {
        index: entry.index as u32,
        relative: paths::without_dots(entry.path),
        display_path: entry.display_path,
        is_dir: entry.kind == ArchiveEntryKind::Directory,
        size: entry.size,
        mtime_unix: entry.modified_unix_seconds,
    }
}

/// The plan with one entry more, or why the entry cannot be extracted. A path
/// that is absolute is refused even where its names are safe.
pub open spec fn plan_with(plan: PlanView, entry: EntryView, options: ExtractOptions) -> Result<
    PlanView,
    ErrorView,
> {
    let relative = paths::without_dots(entry.path);
    let wanted = options::selects(options.selection@, relative);
    let bytes = match entry.size {
        Some(size) => options::capped_sum(plan.bytes, size),
        None => plan.bytes,
    };
    if paths::is_rooted(entry.display_path) {
        Err(ErrorView::UnsafeEntryPath(entry.display_path))
    } else if !paths::is_safe_path(relative) {
        Err(ErrorView::UnsafeEntryPath(paths::joined_names(entry.path)))
    } else if wanted && plan.count + 1 > options.max_entries {
        Err(
            ErrorView::LimitExceeded(
                "more than "@ + text::decimal(options.max_entries as nat) + " entries"@,
            ),
        )
    } else if wanted && entry.size is Some && entry.size->0 > options.max_file_bytes {
        Err(ErrorView::LimitExceeded(entry.display_path + " is larger than the per-file limit"@))
    } else if wanted && entry.size is Some && bytes > options.max_total_bytes {
        Err(ErrorView::LimitExceeded("declared extraction size exceeds the total limit"@))
    } else if entry.index > u32::MAX {
        Err(ErrorView::LimitExceeded("too many entries"@))
    } else {
        Ok(
            PlanView {
                items: plan.items.push(item_of(entry)),
                selected: if wanted {
                    plan.selected.insert(entry.index as u32)
                } else {
                    plan.selected
                },
                count: if wanted {
                    plan.count + 1
                } else {
                    plan.count
                },
                bytes: if wanted {
                    bytes
                } else {
                    plan.bytes
                },
            },
        )
    }
}

/// The plan of nothing.
pub open spec fn empty_plan() -> PlanView {
    PlanView { items: Seq::empty(), selected: Set::empty(), count: 0, bytes: 0 }
}

/// The plan of the first `n` entries.
pub open spec fn planned(entries: Seq<EntryView>, options: ExtractOptions, n: int) -> Result<
    PlanView,
    ErrorView,
>
    decreases n,
{
    if n <= 0 {
        Ok(empty_plan())
    } else {
        match planned(entries, options, n - 1) {
            Ok(plan) => plan_with(plan, entries[n - 1], options),
            Err(error) => Err(error),
        }
    }
}

/// An entry that cannot be extracted ends the planning.
proof fn lemma_planning_stops(entries: Seq<EntryView>, options: ExtractOptions, i: int, n: int)
    requires
        0 <= i <= n,
        planned(entries, options, i) is Err,
    ensures
        planned(entries, options, n) == planned(entries, options, i),
    decreases n - i,
{
    if i < n {
        lemma_planning_stops(entries, options, i, n - 1);
    }
}

/// Plans the extraction of the selected entries. Paths that would leave the
/// destination and sizes over the limits end it.
pub fn plan_extraction(entries: &Vec<ArchiveEntry>, options: &ExtractOptions) -> (plan:
    ArchiveResult<ExtractPlan>)
    ensures
        match plan {
            Ok(plan) => planned(
                options::entry_views(entries@),
                *options,
                entries@.len() as int,
            ) == Ok::<PlanView, ErrorView>(plan@),
            Err(error) => planned(
                options::entry_views(entries@),
                *options,
                entries@.len() as int,
            ) == Err::<PlanView, ErrorView>(error@),
        },
{
    let ghost views = options::entry_views(entries@);
    let mut items: Vec<ExtractItem> = Vec::new();
    let mut selected: HashSet<u32> = HashSet::new();
    let mut count: u64 = 0;
    let mut bytes: u64 = 0;
    let size: usize = entries.len();
    let mut i: usize = 0;
    proof {
        assert(extracting::item_views(items@) =~= Seq::<ItemView>::empty());
    }
    while i < size
        invariant
            i <= size,
            size == entries@.len(),
            count <= i,
            views == options::entry_views(entries@),
            planned(views, *options, i as int) == Ok::<PlanView, ErrorView>(
                PlanView {
                    items: extracting::item_views(items@),
                    selected: selected@,
                    count: count as int,
                    bytes,
                },
            ),
        decreases size - i,
    {
        let entry = &entries[i];
        let ghost plan = PlanView {
            items: extracting::item_views(items@),
            selected: selected@,
            count: count as int,
            bytes,
        };
        proof {
            assert(views[i as int] == entry@);
            assert(planned(views, *options, i + 1) == plan_with(plan, entry@, *options));
            if planned(views, *options, i + 1) is Err {
                lemma_planning_stops(views, *options, i + 1, size as int);
            }
        }
        if paths::starts_rooted(entry.display_path.as_str()) {
            return Err(ArchiveError::UnsafeEntryPath(entry.display_path.clone()));
        }
        let shown = paths::path_text(&entry.path);
        let relative: Vec<String> = match paths::safe_components(&entry.path, shown.as_str()) {
            Ok(relative) => relative,
            Err(error) => {
                return Err(error);
            },
        };
        let wanted: bool = options.selection.includes(&relative);
        if wanted {
            count += 1;
            if count > options.max_entries {
                return Err(
                    ArchiveError::LimitExceeded(
                        text::join3(
                            "more than ",
                            text::decimal_text(options.max_entries).as_str(),
                            " entries",
                        ),
                    ),
                );
            }
            if let Some(size) = entry.size {
                if size > options.max_file_bytes {
                    return Err(
                        ArchiveError::LimitExceeded(
                            text::join(
                                entry.display_path.as_str(),
                                " is larger than the per-file limit",
                            ),
                        ),
                    );
                }
                bytes = bytes.saturating_add(size);
                if bytes > options.max_total_bytes {
                    return Err(
                        ArchiveError::LimitExceeded(
                            "declared extraction size exceeds the total limit".to_owned(),
                        ),
                    );
                }
            }
        }
        if entry.index > u32::MAX as u64 {
            return Err(ArchiveError::LimitExceeded("too many entries".to_owned()));
        }
        let index: u32 = entry.index as u32;
        let item = ExtractItem {
            index,
            relative,
            display_path: entry.display_path.clone(),
            is_dir: entry.kind == ArchiveEntryKind::Directory,
            size: entry.size,
            mtime_unix: entry.modified_unix_seconds,
        };
        let ghost before = extracting::item_views(items@);
        let ghost view = item@;
        items.push(item);
        if wanted {
            selected.insert(index);
        }
        proof {
            assert(view =~= item_of(entry@));
            assert(extracting::item_views(items@) =~= before.push(view));
        }
        i += 1;
    }
    Ok(ExtractPlan { items, selected, count, bytes })
}

/// Every entry that is planned has a path that stays below the destination.
pub proof fn law_planned_paths_are_safe(
    entries: Seq<EntryView>,
    options: ExtractOptions,
    n: int,
    i: int,
)
    requires
        planned(entries, options, n) is Ok,
        0 <= i < n <= entries.len(),
    ensures
        planned(entries, options, n)->Ok_0.items.len() == n,
        paths::is_safe_path(planned(entries, options, n)->Ok_0.items[i].relative),
    decreases n,
{
    reveal_with_fuel(planned, 2);
    if n > 1 {
        if i < n - 1 {
            law_planned_paths_are_safe(entries, options, n - 1, i);
        } else {
            law_planned_paths_are_safe(entries, options, n - 1, n - 2);
        }
    }
}

/// Nothing is extracted from an archive with a path that cannot be trusted:
/// one that is absolute, or that goes up, names a drive, a stream or a device.
pub proof fn law_untrusted_paths_are_refused(
    entries: Seq<EntryView>,
    options: ExtractOptions,
    n: int,
    i: int,
    k: int,
)
    requires
        0 <= i < n <= entries.len(),
        paths::is_rooted(entries[i].display_path) || (0 <= k < entries[i].path.len()
            && paths::is_untrusted_name(entries[i].path[k])),
    ensures
        planned(entries, options, n) matches Err(_),
{
    if !paths::is_rooted(entries[i].display_path) {
        paths::law_untrusted_name_is_unsafe(entries[i].path, k);
    }
    assert(planned(entries, options, i + 1) is Err);
    lemma_planning_stops(entries, options, i + 1, n);
}

/// A plan stays within the limits: as many entries as allowed, and declared
/// sizes that are small enough one by one and together.
pub proof fn law_plan_keeps_the_limits(entries: Seq<EntryView>, options: ExtractOptions, n: int)
    requires
        planned(entries, options, n) is Ok,
        0 <= n <= entries.len(),
    ensures
        0 <= planned(entries, options, n)->Ok_0.count <= n,
        planned(entries, options, n)->Ok_0.count <= options.max_entries,
        planned(entries, options, n)->Ok_0.bytes <= options.max_total_bytes || planned(
            entries,
            options,
            n,
        )->Ok_0.bytes == 0,
        forall|i: int|
            0 <= i < n && options::selects(
                options.selection@,
                paths::without_dots((#[trigger] entries[i]).path),
            ) && entries[i].size is Some ==> entries[i].size->0 <= options.max_file_bytes,
    decreases n,
{
    if n > 0 {
        law_plan_keeps_the_limits(entries, options, n - 1);
    }
}

/// The item of every planned entry is that entry: it has the entry's index,
/// shown path, size and time, it is a directory exactly when the entry is one,
/// at any depth, and its path is the entry's, where only single dots are left
/// out.
pub proof fn law_items_are_the_entries(
    entries: Seq<EntryView>,
    options: ExtractOptions,
    n: int,
    i: int,
)
    requires
        planned(entries, options, n) is Ok,
        0 <= i < n <= entries.len(),
    ensures
        ({
            let items = planned(entries, options, n)->Ok_0.items;
            let entry = entries[i];
            &&& items.len() == n
            &&& items[i].is_dir <==> entry.kind == ArchiveEntryKind::Directory
            &&& items[i].is_dir <==> entry.kind != ArchiveEntryKind::File
            &&& items[i].index == entry.index
            &&& items[i].display_path == entry.display_path
            &&& items[i].size == entry.size
            &&& items[i].mtime_unix == entry.modified_unix_seconds
            &&& forall|k: int|
                0 <= k < items[i].relative.len() ==> entry.path.contains(
                    #[trigger] items[i].relative[k],
                )
            &&& (forall|k: int| 0 <= k < entry.path.len() ==> #[trigger] entry.path[k] != "."@)
                ==> items[i].relative == entry.path
        }),
    decreases n,
{
    let plan = planned(entries, options, n)->Ok_0;
    let before = planned(entries, options, n - 1);
    assert(before is Ok);
    if n > 1 {
        law_items_are_the_entries(
            entries,
            options,
            n - 1,
            if i < n - 1 {
                i
            } else {
                n - 2
            },
        );
    } else {
        assert(planned(entries, options, 0) == Ok::<PlanView, ErrorView>(empty_plan()));
    }
    let earlier = before->Ok_0.items;
    assert(plan.items == earlier.push(item_of(entries[n - 1])));
    if i < n - 1 {
        assert(plan.items[i] == earlier[i]);
    } else {
        paths::lemma_without_dots_are_names(entries[i].path);
        if forall|k: int| 0 <= k < entries[i].path.len() ==> #[trigger] entries[i].path[k] != "."@ {
            paths::lemma_without_dots_same(entries[i].path);
        }
    }
}

/// What is wanted is what the selection names: the entries whose paths it
/// includes, and no others. Each of them counts once. Where everything is
/// selected, every entry is wanted.
pub proof fn law_selected_entries_are_wanted(
    entries: Seq<EntryView>,
    options: ExtractOptions,
    n: int,
)
    requires
        planned(entries, options, n) is Ok,
        0 <= n <= entries.len(),
    ensures
        ({
            let plan = planned(entries, options, n)->Ok_0;
            &&& forall|i: int|
                0 <= i < n && options::selects(
                    options.selection@,
                    paths::without_dots((#[trigger] entries[i]).path),
                ) ==> plan.selected.contains(entries[i].index as u32)
            &&& forall|index: u32| #[trigger]
                plan.selected.contains(index) ==> exists|i: int|
                    0 <= i < n && (#[trigger] entries[i]).index == index && options::selects(
                        options.selection@,
                        paths::without_dots(entries[i].path),
                    )
            &&& options.selection@ is All ==> plan.count == n
            &&& options.selection@ is All && declared_sizes(entries, n) <= u64::MAX ==> plan.bytes
                == declared_sizes(entries, n)
        }),
    decreases n,
{
    if n > 0 {
        assert(planned(entries, options, n - 1) is Ok);
        law_selected_entries_are_wanted(entries, options, n - 1);
        let earlier = planned(entries, options, n - 1)->Ok_0;
        let plan = planned(entries, options, n)->Ok_0;
        assert forall|index: u32| #[trigger]
            plan.selected.contains(index) implies exists|i: int|
            0 <= i < n && (#[trigger] entries[i]).index == index && options::selects(
                options.selection@,
                paths::without_dots(entries[i].path),
            ) by {
            if earlier.selected.contains(index) {
                let i = choose|i: int|
                    0 <= i < n - 1 && (#[trigger] entries[i]).index == index && options::selects(
                        options.selection@,
                        paths::without_dots(entries[i].path),
                    );
                assert(entries[i].index == index);
            } else {
                assert(entries[n - 1].index == index);
            }
        }
        lemma_declared_sizes_grow(entries, n - 1);
    }
}

/// The sizes that the first `n` entries declare, added up.
pub open spec fn declared_sizes(entries: Seq<EntryView>, n: int) -> int
    decreases n,
{
    if n <= 0 {
        0
    } else {
        declared_sizes(entries, n - 1) + match entries[n - 1].size {
            Some(size) => size as int,
            None => 0,
        }
    }
}

/// Sizes never make the sum less.
proof fn lemma_declared_sizes_grow(entries: Seq<EntryView>, n: int)
    ensures
        0 <= declared_sizes(entries, n) <= declared_sizes(entries, n + 1),
    decreases n,
{
    if n > 0 {
        lemma_declared_sizes_grow(entries, n - 1);
    }
}

/// An extraction is planned when nothing stands against it: every path stays
/// below the destination, and the number and the sizes of the entries are
/// within the limits.
pub proof fn law_ordinary_listings_are_planned(
    entries: Seq<EntryView>,
    options: ExtractOptions,
    n: int,
)
    requires
        0 <= n <= entries.len(),
        n <= options.max_entries,
        forall|i: int|
            0 <= i < n ==> {
                let entry = #[trigger] entries[i];
                &&& entry.display_path.len() > 0 && entry.display_path[0] != '/'
                    && entry.display_path[0] != '\\'
                &&& paths::is_safe_path(paths::without_dots(entry.path))
                &&& entry.size is Some ==> entry.size->0 <= options.max_file_bytes
                &&& entry.index <= u32::MAX
            },
        declared_sizes(entries, n) <= options.max_total_bytes,
    ensures
        planned(entries, options, n) is Ok,
        planned(entries, options, n)->Ok_0.bytes <= declared_sizes(entries, n),
    decreases n,
{
    if n > 0 {
        lemma_declared_sizes_grow(entries, n - 1);
        law_ordinary_listings_are_planned(entries, options, n - 1);
        law_plan_keeps_the_limits(entries, options, n - 1);
        assert(entries[n - 1].index <= u32::MAX);
    }
}

/// The indices of the items that are wanted, among the first `n`.
pub open spec fn wanted_indices(items: Seq<ItemView>, selected: Set<u32>, n: int) -> Seq<u32>
    decreases n,
{
    if n <= 0 {
        Seq::empty()
    } else if selected.contains(items[n - 1].index) {
        wanted_indices(items, selected, n - 1).push(items[n - 1].index)
    } else {
        wanted_indices(items, selected, n - 1)
    }
}

impl ExtractPlan {
    /// The indices of the wanted entries, in the order of the archive.
    pub fn indices(&self) -> (indices: Vec<u32>)
        ensures
            indices@ == wanted_indices(self@.items, self@.selected, self@.items.len() as int),
    {
        let mut indices: Vec<u32> = Vec::new();
        let mut i: usize = 0;
        while i < self.items.len()
            invariant
                i <= self.items@.len(),
                indices@ == wanted_indices(self@.items, self@.selected, i as int),
            decreases self.items@.len() - i,
        {
            proof {
                assert(self@.items[i as int] == self.items@[i as int]@);
            }
            if self.selected.contains(&self.items[i].index) {
                indices.push(self.items[i].index);
            }
            i += 1;
        }
        indices
    }

    /// How many entries are shown as the total.
    pub fn total_entries(&self, options: &ExtractOptions) -> (total: u64)
        ensures
            total == match options.total_entries_hint {
                Some(total) => total,
                None => self.items@.len() as u64,
            },
    {
        match options.total_entries_hint {
            Some(total) => total,
            None => self.items.len() as u64,
        }
    }

    /// How many bytes are shown as the total.
    pub fn total_bytes(&self, options: &ExtractOptions) -> (total: Option<u64>)
        ensures
            total == match options.total_bytes_hint {
                Some(total) => Some(total),
                None => Some(self.bytes),
            },
    {
        match options.total_bytes_hint {
            Some(total) => Some(total),
            None => Some(self.bytes),
        }
    }
}

/// The wanted indices are those of the items that are selected, each as often
/// as items have it, in the order of the archive.
pub proof fn law_wanted_indices_are_the_selected(items: Seq<ItemView>, selected: Set<u32>, n: int)
    requires
        0 <= n <= items.len(),
    ensures
        forall|k: int|
            0 <= k < wanted_indices(items, selected, n).len() ==> selected.contains(
                #[trigger] wanted_indices(items, selected, n)[k],
            ),
        forall|i: int|
            0 <= i < n && selected.contains((#[trigger] items[i]).index) ==> wanted_indices(
                items,
                selected,
                n,
            ).contains(items[i].index),
        (forall|i: int| 0 <= i < n ==> selected.contains((#[trigger] items[i]).index))
            ==> wanted_indices(items, selected, n) == Seq::new(n as nat, |i: int| items[i].index),
    decreases n,
{
    if n > 0 {
        law_wanted_indices_are_the_selected(items, selected, n - 1);
        let before = wanted_indices(items, selected, n - 1);
        let now = wanted_indices(items, selected, n);
        assert forall|i: int| 0 <= i < n && selected.contains(
            (#[trigger] items[i]).index,
        ) implies now.contains(items[i].index) by {
            if i < n - 1 {
                let k = choose|k: int| 0 <= k < before.len() && before[k] == items[i].index;
                assert(now[k] == before[k]);
            } else {
                assert(now[now.len() - 1] == items[i].index);
            }
        }
        if forall|i: int| 0 <= i < n ==> selected.contains((#[trigger] items[i]).index) {
            assert(selected.contains(items[n - 1].index));
            assert(now =~= Seq::new(n as nat, |i: int| items[i].index));
        }
    } else {
        assert(wanted_indices(items, selected, n) =~= Seq::new(n as nat, |i: int| items[i].index));
    }
}

// ---------------------------------------------------------------------------
// Conflicts between entries
// ---------------------------------------------------------------------------

/// A path as it is compared: lower case, with one kind of separator.
pub open spec fn path_key(relative: Seq<Seq<char>>) -> Seq<char> {
    text::lower(text::with_char_replaced(paths::joined_names(relative), '\\', '/'))
}

/// The wanted items among the first `n`.
pub open spec fn wanted_items(items: Seq<ItemView>, selected: Set<u32>, n: int) -> Seq<ItemView>
    decreases n,
{
    if n <= 0 {
        Seq::empty()
    } else if selected.contains(items[n - 1].index) {
        wanted_items(items, selected, n - 1).push(items[n - 1])
    } else {
        wanted_items(items, selected, n - 1)
    }
}

/// The keys of items.
pub open spec fn item_keys(items: Seq<ItemView>) -> Seq<Seq<char>> {
    Seq::new(items.len(), |i: int| path_key(items[i].relative))
}

/// Whether two items cannot be written independently: they have the same
/// path, or the first is a file and the second lies below it.
pub open spec fn conflicting(first: ItemView, second: ItemView) -> bool {
    let a = path_key(first.relative);
    let b = path_key(second.relative);
    a == b || (!first.is_dir && a.push('/').is_prefix_of(b))
}

/// Whether two neighbours in an order are in conflict.
pub open spec fn conflict_at(items: Seq<ItemView>, order: Seq<usize>, i: int) -> bool {
    conflicting(items[order[i] as int], items[order[i + 1] as int])
}

/// Whether `order` is the order of the items by their keys.
pub open spec fn is_key_order(items: Seq<ItemView>, order: Seq<usize>) -> bool {
    order::covers(order, 0, items.len() as int) && order::in_order(item_keys(items), order)
}

/// Whether some neighbours in the order are in conflict.
pub open spec fn has_conflict(items: Seq<ItemView>, order: Seq<usize>) -> bool {
    exists|i: int| 0 <= i < items.len() - 1 && #[trigger] conflict_at(items, order, i)
}

/// Whether wanted entries get in each other's way: in the order of their
/// paths, two neighbours have the same path, or a file is followed by an
/// entry below it.
pub fn has_parallel_path_conflict(items: &Vec<ExtractItem>, selected: &HashSet<u32>) -> (found:
    bool)
    ensures
        ({
            let wanted = wanted_items(
                extracting::item_views(items@),
                selected@,
                items@.len() as int,
            );
            exists|order: Seq<usize>| #[trigger]
                is_key_order(wanted, order) && found == has_conflict(wanted, order)
        }),
{
    let ghost views = extracting::item_views(items@);
    let ghost wanted = wanted_items(views, selected@, items@.len() as int);
    let mut keys: Vec<Vec<char>> = Vec::new();
    let mut is_dir: Vec<bool> = Vec::new();
    let mut i: usize = 0;
    while i < items.len()
        invariant
            i <= items@.len(),
            views == extracting::item_views(items@),
            order::keys_of(keys@) == item_keys(wanted_items(views, selected@, i as int)),
            is_dir@.len() == wanted_items(views, selected@, i as int).len(),
            forall|k: int|
                0 <= k < is_dir@.len() ==> is_dir@[k] == (#[trigger] wanted_items(
                    views,
                    selected@,
                    i as int,
                )[k]).is_dir,
        decreases items@.len() - i,
    {
        proof {
            assert(views[i as int] == items@[i as int]@);
        }
        let ghost now = wanted_items(views, selected@, i as int);
        if selected.contains(&items[i].index) {
            let shown = paths::path_text(&items[i].relative);
            let slashed = text::replace_char(shown.as_str(), '\\', '/');
            let lowered = text::lower_text(slashed.as_str());
            let key = text::chars_of(lowered.as_str());
            let ghost before = order::keys_of(keys@);
            let ghost added = key@;
            keys.push(key);
            is_dir.push(items[i].is_dir);
            proof {
                assert(order::keys_of(keys@) =~= before.push(added));
                assert(item_keys(now.push(views[i as int])) =~= item_keys(now).push(
                    path_key(views[i as int].relative),
                ));
            }
        }
        i += 1;
    }
    let order = order::sort_order(&keys);
    proof {
        assert(order::keys_of(keys@).len() == keys@.len());
        assert(is_key_order(wanted, order@));
    }
    let size: usize = order.len();
    let mut at: usize = 0;
    while size - at > 1
        invariant
            size == order@.len(),
            size == wanted.len(),
            size == keys@.len(),
            size == is_dir@.len(),
            at <= size,
            wanted == wanted_items(views, selected@, items@.len() as int),
            views == extracting::item_views(items@),
            is_key_order(wanted, order@),
            order::keys_of(keys@) == item_keys(wanted),
            forall|k: int| 0 <= k < size ==> is_dir@[k] == (#[trigger] wanted[k]).is_dir,
            forall|k: int| 0 <= k < at ==> !#[trigger] conflict_at(wanted, order@, k),
        decreases size - at,
    {
        let first: usize = order[at];
        let second: usize = order[at + 1];
        proof {
            let a = wanted[first as int];
            let b = wanted[second as int];
            assert(order::keys_of(keys@)[first as int] == item_keys(wanted)[first as int]);
            assert(order::keys_of(keys@)[second as int] == item_keys(wanted)[second as int]);
            assert(keys@[first as int]@ == path_key(a.relative));
            assert(keys@[second as int]@ == path_key(b.relative));
        }
        if clashes(&keys[first], &keys[second], is_dir[first]) {
            proof {
                assert(conflict_at(wanted, order@, at as int));
            }
            return true;
        }
        at += 1;
    }
    false
}

/// Whether two keys clash when the first is a directory or not.
fn clashes(first: &Vec<char>, second: &Vec<char>, first_is_dir: bool) -> (found: bool)
    ensures
        found == (first@ == second@ || (!first_is_dir && first@.push('/').is_prefix_of(second@))),
{
    let length: usize = first.len();
    if second.len() < length {
        proof {
            assert(first@.push('/').len() > second@.len());
        }
        return false;
    }
    let mut i: usize = 0;
    while i < length
        invariant
            i <= length,
            length == first@.len(),
            length <= second@.len(),
            forall|k: int| 0 <= k < i ==> first@[k] == second@[k],
        decreases length - i,
    {
        if first[i] != second[i] {
            proof {
                assert(first@[i as int] != second@[i as int]);
                assert(first@.push('/')[i as int] == first@[i as int]);
            }
            return false;
        }
        i += 1;
    }
    if second.len() == length {
        proof {
            assert(first@ =~= second@);
        }
        return true;
    }
    let found: bool = !first_is_dir && second[length] == '/';
    proof {
        assert(first@.len() != second@.len());
        assert(first@.push('/')[length as int] == '/');
        if second@[length as int] == '/' {
            assert(first@.push('/').is_prefix_of(second@)) by {
                assert forall|k: int| 0 <= k < first@.push('/').len() implies first@.push('/')[k]
                    == second@[k] by {}
                assert(first@.push('/') =~= second@.subrange(0, length + 1));
            }
        }
    }
    found
}

/// Without a conflict no two wanted entries have the same path.
pub proof fn law_no_conflict_means_distinct_paths(
    items: Seq<ItemView>,
    order: Seq<usize>,
    i: int,
    j: int,
)
    requires
        is_key_order(items, order),
        !has_conflict(items, order),
        0 <= i < j < items.len(),
    ensures
        path_key(items[order[i] as int].relative) != path_key(items[order[j] as int].relative),
{
    let keys = item_keys(items);
    let a = keys[order[i] as int];
    let b = keys[order[i + 1] as int];
    let c = keys[order[j] as int];
    assert(!conflict_at(items, order, i));
    assert(order::place_before(keys, order[i] as int, order[i + 1] as int));
    assert(order::less(a, b));
    if a == c {
        if i + 1 < j {
            assert(order::place_before(keys, order[i + 1] as int, order[j] as int));
        }
        order::lemma_less_total(a, b);
        order::lemma_less_total(b, c);
        assert(false);
    }
}

// ---------------------------------------------------------------------------
// Running the plan
// ---------------------------------------------------------------------------

/// The number of entries from which a ZIP archive is extracted by several
/// workers.
pub const PARALLEL_ENTRIES: usize = 256;

/// Whether the entries are shared out among workers: those of a ZIP archive
/// whose targets are all known to be missing, when there are enough of them.
pub fn extracts_in_parallel(format: ReadFormat, targets_missing: bool, entries: usize) -> (yes:
    bool)
    ensures
        yes == (format == ReadFormat::Zip && targets_missing && entries >= PARALLEL_ENTRIES),
{
    format == ReadFormat::Zip && targets_missing && entries >= PARALLEL_ENTRIES
}

/// How a run of the native handler ended.
pub open spec fn run_error(
    operation: Seq<char>,
    password_requested: bool,
    has_password: bool,
    error: Option<ErrorView>,
    cancelled: bool,
    code: i32,
) -> Option<ErrorView> {
    if password_requested && !has_password {
        Some(ErrorView::PasswordRequired)
    } else if error is Some {
        error
    } else if cancelled {
        Some(ErrorView::Cancelled)
    } else if code != S_OK {
        if password_requested {
            Some(ErrorView::PasswordRequired)
        } else {
            Some(listing::code_error(operation, code))
        }
    } else {
        None
    }
}

/// The outcome of a run of the native handler. A password that was asked for
/// and is missing counts before the error of a callback, so that the caller
/// can ask the user and try again; then come cancellation and the handler's
/// own code.
pub fn run_outcome(
    operation: &str,
    password_requested: bool,
    password: &Option<String>,
    error: Option<ArchiveError>,
    cancelled: bool,
    code: i32,
    summary: OperationSummary,
) -> (outcome: ArchiveResult<OperationSummary>)
    ensures
        ({
            let failure = run_error(
                operation@,
                password_requested,
                password is Some && password->0@.len() > 0,
                extracting::option_error(error),
                cancelled,
                code,
            );
            match outcome {
                Ok(done) => failure is None && done == summary,
                Err(error) => failure == Some(error@),
            }
        }),
{
    let has_password: bool = match password {
        Some(password) => !password.as_str().is_empty(),
        None => false,
    };
    if password_requested && !has_password {
        return Err(ArchiveError::PasswordRequired);
    }
    if let Some(error) = error {
        return Err(error);
    }
    if cancelled {
        return Err(ArchiveError::Cancelled);
    }
    if code != S_OK {
        if password_requested {
            return Err(ArchiveError::PasswordRequired);
        }
        return Err(listing::failed_call(operation, code));
    }
    Ok(summary)
}

/// The last snapshot of an extraction: everything that was announced is done.
pub fn finished_extraction(
    total_entries: u64,
    total_bytes: Option<u64>,
    summary: &OperationSummary,
) -> (snapshot: ProgressSnapshot)
    ensures
        snapshot@ == (progress::SnapshotView {
            total_entries: Some(total_entries),
            total_bytes,
            entries_processed: if total_entries > summary.entries_processed {
                total_entries
            } else {
                summary.entries_processed
            },
            bytes_processed: match total_bytes {
                Some(total) if total > summary.bytes_processed => total,
                _ => summary.bytes_processed,
            },
            ..progress::fresh_snapshot(ProgressPhase::Finished)
        }),
{
    let mut snapshot = ProgressSnapshot::new(ProgressPhase::Finished);
    snapshot.total_entries = Some(total_entries);
    snapshot.total_bytes = total_bytes;
    snapshot.entries_processed =
    if total_entries > summary.entries_processed {
        total_entries
    } else {
        summary.entries_processed
    };
    snapshot.bytes_processed =
    match total_bytes {
        Some(total) => if total > summary.bytes_processed {
            total
        } else {
            summary.bytes_processed
        },
        None => summary.bytes_processed,
    };
    snapshot
}

/// A run succeeds exactly when no password is missing, no callback failed,
/// nobody cancelled and the handler is content. A missing password counts
/// before everything else, then the first failure of a callback, then
/// cancellation.
pub proof fn law_outcome_of_a_run(
    operation: Seq<char>,
    password_requested: bool,
    has_password: bool,
    error: Option<ErrorView>,
    cancelled: bool,
    code: i32,
)
    ensures
        run_error(operation, password_requested, has_password, error, cancelled, code) is None <==> (
        !password_requested || has_password) && error is None && !cancelled && code == 0,
        password_requested && !has_password ==> run_error(
            operation,
            password_requested,
            has_password,
            error,
            cancelled,
            code,
        ) == Some(ErrorView::PasswordRequired),
        (!password_requested || has_password) && error is Some ==> run_error(
            operation,
            password_requested,
            has_password,
            error,
            cancelled,
            code,
        ) == error,
        (!password_requested || has_password) && error is None && cancelled ==> run_error(
            operation,
            password_requested,
            has_password,
            error,
            cancelled,
            code,
        ) == Some(ErrorView::Cancelled),
        password_requested && has_password && error is None && !cancelled && code != 0 ==> run_error(
            operation,
            password_requested,
            has_password,
            error,
            cancelled,
            code,
        ) == Some(ErrorView::PasswordRequired),
        !password_requested && error is None && !cancelled && code != 0 ==> run_error(
            operation,
            password_requested,
            has_password,
            error,
            cancelled,
            code,
        ) is Some && run_error(
            operation,
            password_requested,
            has_password,
            error,
            cancelled,
            code,
        )->0 is SevenZip,
{
}

/// The wanted items are those that are selected, in the order of the archive.
pub proof fn law_wanted_items_are_the_selected(items: Seq<ItemView>, selected: Set<u32>, n: int)
    requires
        0 <= n <= items.len(),
    ensures
        forall|i: int|
            0 <= i < n && selected.contains((#[trigger] items[i]).index) ==> wanted_items(
                items,
                selected,
                n,
            ).contains(items[i]),
        forall|k: int|
            0 <= k < wanted_items(items, selected, n).len() ==> selected.contains(
                (#[trigger] wanted_items(items, selected, n)[k]).index,
            ),
        (forall|i: int| 0 <= i < n ==> selected.contains((#[trigger] items[i]).index))
            ==> wanted_items(items, selected, n) == items.take(n),
    decreases n,
{
    let now = wanted_items(items, selected, n);
    if n > 0 {
        law_wanted_items_are_the_selected(items, selected, n - 1);
        let before = wanted_items(items, selected, n - 1);
        assert(items.take(n) =~= items.take(n - 1).push(items[n - 1]));
        assert forall|i: int| 0 <= i < n && selected.contains(
            (#[trigger] items[i]).index,
        ) implies now.contains(items[i]) by {
            if i < n - 1 {
                let k = choose|k: int| 0 <= k < before.len() && before[k] == items[i];
                assert(now[k] == before[k]);
            } else {
                assert(now[now.len() - 1] == items[i]);
            }
        }
        assert forall|k: int| 0 <= k < now.len() implies selected.contains(
            (#[trigger] now[k]).index,
        ) by {
            if k < before.len() {
                assert(now[k] == before[k]);
            }
        }
        if forall|i: int| 0 <= i < n ==> selected.contains((#[trigger] items[i]).index) {
            assert(selected.contains(items[n - 1].index));
        }
    } else {
        assert(items.take(0) =~= Seq::<ItemView>::empty());
    }
}

/// Two entries are in each other's way when their paths are the same, in any
/// case, or when one lies below the other and that is a file; a directory is
/// not in the way of what lies in it.
pub proof fn law_what_is_in_the_way(first: ItemView, second: ItemView)
    ensures
        text::lower(paths::joined_names(first.relative)) == text::lower(
            paths::joined_names(second.relative),
        ) ==> conflicting(first, second),
        first.is_dir && path_key(first.relative) != path_key(second.relative) ==> !conflicting(
            first,
            second,
        ),
        !first.is_dir && path_key(first.relative).push('/').is_prefix_of(path_key(second.relative))
            ==> conflicting(first, second),
{
    let a = paths::joined_names(first.relative);
    let b = paths::joined_names(second.relative);
    if text::lower(a) == text::lower(b) {
        assert(a.len() == text::lower(a).len() && b.len() == text::lower(b).len());
        assert forall|k: int| 0 <= k < a.len() implies path_key(first.relative)[k] == path_key(
            second.relative,
        )[k] by {
            assert(text::lower(a)[k] == text::lower(b)[k]);
        }
        assert(path_key(first.relative) =~= path_key(second.relative));
    }
}

/// Entries with one path get in each other's way wherever they stand, and
/// entries do so only where two of them are in conflict.
pub proof fn law_same_paths_get_in_each_others_way(
    items: Seq<ItemView>,
    order: Seq<usize>,
    i: int,
    j: int,
)
    requires
        items.len() <= usize::MAX,
        is_key_order(items, order),
        0 <= i < j < items.len(),
    ensures
        path_key(items[i].relative) == path_key(items[j].relative) ==> has_conflict(items, order),
        has_conflict(items, order) ==> are_in_the_way(items),
{
    let keys = item_keys(items);
    if path_key(items[i].relative) == path_key(items[j].relative) {
        assert(order.contains(i as usize) && order.contains(j as usize));
        let p = choose|p: int| 0 <= p < order.len() && order[p] == i as usize;
        let q = choose|q: int| 0 <= q < order.len() && order[q] == j as usize;
        let (low, high) = if p < q {
            (p, q)
        } else {
            (q, p)
        };
        assert(keys[order[low] as int] == keys[order[high] as int]);
        let next = order[low + 1] as int;
        assert(order::place_before(keys, order[low] as int, order[low + 1] as int));
        if low + 1 < high {
            assert(order::place_before(keys, order[low + 1] as int, order[high] as int));
            order::lemma_less_total(keys[order[low] as int], keys[next]);
        }
        assert(keys[next] == keys[order[low] as int]);
        assert(conflict_at(items, order, low));
    }
    if has_conflict(items, order) {
        let k = choose|k: int| 0 <= k < items.len() - 1 && #[trigger] conflict_at(items, order, k);
        let a = order[k] as int;
        let b = order[k + 1] as int;
        assert(order::place_before(keys, a, b));
        order::lemma_less_total(keys[a], keys[a]);
        assert(in_the_way(items, a, b));
    }
}

/// Whether two entries are not one, and the first is in the way of the second.
pub open spec fn in_the_way(items: Seq<ItemView>, a: int, b: int) -> bool {
    &&& 0 <= a < items.len()
    &&& 0 <= b < items.len()
    &&& a != b
    &&& conflicting(items[a], items[b])
}

/// Whether some entry is in the way of another.
pub open spec fn are_in_the_way(items: Seq<ItemView>) -> bool {
    exists|a: int, b: int| in_the_way(items, a, b)
}

} // verus!
