//! Creating ZIP archives whose entries are compressed in this process.

use vstd::prelude::*;
use vstd::string::*;
use crate::error::{ArchiveError, ArchiveResult, ErrorView};
use crate::file_ops;
use crate::options::{CreateOptions, OperationSummary, SummaryView, ThreadCount};
use crate::order;
use crate::progress::{ProgressPhase, ProgressSnapshot, SnapshotView};
use crate::source;
use crate::source::{SourceItem, SourceKind, SourceView};
use crate::stamps;
use crate::stamps::DosStamp;
use crate::text;

verus! {

// ---------------------------------------------------------------------------
// The request
// ---------------------------------------------------------------------------

/// Whether every character is ASCII.
pub open spec fn is_ascii_text(s: Seq<char>) -> bool {
    forall|i: int| 0 <= i < s.len() ==> (#[trigger] s[i] as u32) < 0x80
}

/// [`is_ascii_text`], executable.
fn only_ascii(s: &str) -> (yes: bool)
    ensures
        yes == is_ascii_text(s@),
{
    let chars = text::chars_of(s);
    let mut i: usize = 0;
    while i < chars.len()
        invariant
            i <= chars@.len(),
            chars@ == s@,
            forall|k: int| 0 <= k < i ==> (#[trigger] s@[k] as u32) < 0x80,
        decreases chars@.len() - i,
    {
        let c: char = chars[i];
        if c as u32 >= 0x80 {
            proof {
                assert(s@[i as int] as u32 >= 0x80);
            }
            return false;
        }
        i += 1;
    }
    true
}

/// Why a request to create a ZIP archive from `inputs` inputs is refused. The
/// native ZIP reader takes passwords in another encoding, so that only ASCII
/// passwords can be read back.
pub open spec fn zip_request_error(inputs: int, options: CreateOptions) -> Option<ErrorView> {
    if inputs == 0 || options.compression_level > 9 || options.split_size == Some(0u64) {
        Some(
            ErrorView::InvalidInput(
                "select inputs, a level from 0 to 9, and a nonzero volume size"@,
            ),
        )
    } else if options.password is Some && !is_ascii_text(options.password->0@) {
        Some(
            ErrorView::UnsupportedOption(
                "ZIP passwords must use ASCII characters for 7-Zip compatibility; use 7z format for Unicode passwords"@,
            ),
        )
    } else if options.encrypt_headers {
        Some(
            ErrorView::UnsupportedOption("header encryption is supported only for 7z archives"@),
        )
    } else {
        None
    }
}

/// Checks a request to create a ZIP archive: [`zip_request_error`],
/// executable.
pub fn check_zip_request(inputs: usize, options: &CreateOptions) -> (checked: ArchiveResult<()>)
    ensures
        match checked {
            Ok(_) => zip_request_error(inputs as int, *options) is None,
            Err(error) => zip_request_error(inputs as int, *options) == Some(error@),
        },
{
    let no_volume: bool = match options.split_size {
        Some(size) => size == 0,
        None => false,
    };
    if inputs == 0 || options.compression_level > 9 || no_volume {
        return Err(
            ArchiveError::InvalidInput(
                "select inputs, a level from 0 to 9, and a nonzero volume size".to_owned(),
            ),
        );
    }
    if let Some(password) = &options.password {
        if !only_ascii(password.as_str()) {
            return Err(
                ArchiveError::UnsupportedOption(
                    "ZIP passwords must use ASCII characters for 7-Zip compatibility; use 7z format for Unicode passwords".to_owned(),
                ),
            );
        }
    }
    if options.encrypt_headers {
        return Err(
            ArchiveError::UnsupportedOption(
                "header encryption is supported only for 7z archives".to_owned(),
            ),
        );
    }
    Ok(())
}

/// Exactly these requests are taken: at least one input, a level up to 9,
/// volumes that hold something, a password of ASCII characters or none, and
/// no encrypted headers.
pub proof fn law_zip_requests_that_are_taken(inputs: int, options: CreateOptions)
    requires
        inputs >= 0,
    ensures
        zip_request_error(inputs, options) is None <==> {
            &&& inputs > 0
            &&& options.compression_level <= 9
            &&& options.split_size is None || options.split_size->0 > 0
            &&& options.password is None || forall|i: int|
                0 <= i < options.password->0@.len() ==> (#[trigger] options.password->0@[i] as u32)
                    < 128
            &&& !options.encrypt_headers
        },
        inputs > 0 && options.compression_level <= 9 && options.split_size is None
            && options.password is Some && !is_ascii_text(options.password->0@)
            ==> zip_request_error(inputs, options)->0 is UnsupportedOption,
        inputs == 0 || options.compression_level > 9 ==> zip_request_error(inputs, options)->0
            is InvalidInput,
{
}

/// The directory of a ZIP archive; one without is written to the current one.
pub fn zip_parent(parent: Option<String>) -> (found: String)
    ensures
        found@ == if parent is Some && parent->0@.len() > 0 {
            parent->0@
        } else {
            "."@
        },
{
    if let Some(parent) = parent {
        if !parent.as_str().is_empty() {
            return parent;
        }
    }
    ".".to_owned()
}

// ---------------------------------------------------------------------------
// Duplicate names
// ---------------------------------------------------------------------------

/// Whether an item before `i` has the same name.
pub open spec fn repeats(items: Seq<SourceView>, i: int) -> bool {
    exists|j: int| 0 <= j < i && (#[trigger] items[j]).archive_name == items[i].archive_name
}

/// Whether `i` is the first item that repeats a name.
pub open spec fn is_first_repeat(items: Seq<SourceView>, i: int) -> bool {
    &&& 0 <= i < items.len()
    &&& repeats(items, i)
    &&& forall|k: int| 0 <= k < i ==> !#[trigger] repeats(items, k)
}

/// Whether the item at a place of an order has the name of the one before it.
spec fn same_as_before(items: Seq<SourceView>, order: Seq<usize>, p: int) -> bool {
    items[order[p] as int].archive_name == items[order[p - 1] as int].archive_name
}

/// An item that repeats a name follows one with the same name in the order of
/// the names.
proof fn lemma_repeat_has_neighbour(items: Seq<SourceView>, order: Seq<usize>, i: int) -> (p: int)
    requires
        source::is_item_order(items, order),
        0 <= i < items.len(),
        items.len() <= usize::MAX,
        repeats(items, i),
    ensures
        0 < p < order.len(),
        order[p] == i,
        same_as_before(items, order, p),
{
    let keys = source::item_names(items);
    let j = choose|j: int|
        0 <= j < i && (#[trigger] items[j]).archive_name == items[i].archive_name;
    assert(order.contains(i as usize));
    assert(order.contains(j as usize));
    let p = choose|p: int| 0 <= p < order.len() && order[p] == i as usize;
    let q = choose|q: int| 0 <= q < order.len() && order[q] == j as usize;
    if p < q {
        assert(order::place_before(keys, order[p] as int, order[q] as int));
        order::lemma_place_order(keys, i, j, i);
        order::lemma_less_total(keys[i], keys[j]);
        assert(false);
    }
    let m = order[p - 1] as int;
    assert(order::place_before(keys, order[p - 1] as int, order[p] as int));
    if q < p - 1 {
        assert(order::place_before(keys, order[q] as int, order[p - 1] as int));
    }
    order::lemma_less_total(keys[m], keys[i]);
    order::lemma_less_total(keys[j], keys[m]);
    assert(keys[m] == keys[i]);
    p
}

/// Refuses items that share a name.
pub fn check_duplicate_names(items: &Vec<SourceItem>) -> (checked: ArchiveResult<()>)
    ensures
        ({
            let views = source::source_views(items@);
            match checked {
                Ok(_) => forall|i: int| 0 <= i < views.len() ==> !#[trigger] repeats(views, i),
                Err(error) => exists|i: int| #[trigger]
                    is_first_repeat(views, i) && error@ == ErrorView::InvalidInput(
                        "duplicate ZIP entry: "@ + views[i].archive_name,
                    ),
            }
        }),
{
    let ghost views = source::source_views(items@);
    let size: usize = items.len();
    let mut keys: Vec<Vec<char>> = Vec::new();
    let mut i: usize = 0;
    while i < size
        invariant
            i <= size,
            size == items@.len(),
            keys@.len() == i,
            forall|k: int| 0 <= k < i ==> (#[trigger] keys@[k])@ == items@[k].archive_name@,
        decreases size - i,
    {
        keys.push(text::chars_of(items[i].archive_name.as_str()));
        i += 1;
    }
    let order = order::sort_order(&keys);
    proof {
        assert(order::keys_of(keys@) =~= source::item_names(views));
    }
    let mut first: usize = size;
    let mut at: usize = 0;
    while at < size
        invariant
            at <= size,
            size == items@.len(),
            size == views.len(),
            size == order@.len(),
            first <= size,
            views == source::source_views(items@),
            source::is_item_order(views, order@),
            first < size ==> repeats(views, first as int),
            forall|p: int|
                0 < p < at && #[trigger] same_as_before(views, order@, p) ==> first <= order@[p],
        decreases size - at,
    {
        if at > 0 {
            let place: usize = order[at];
            let before: usize = order[at - 1];
            proof {
                assert(views[place as int] == items@[place as int]@);
                assert(views[before as int] == items@[before as int]@);
            }
            if text::same_text(
                items[place].archive_name.as_str(),
                items[before].archive_name.as_str(),
            ) {
                proof {
                    let keys = source::item_names(views);
                    assert(order::place_before(
                        keys,
                        order@[at - 1] as int,
                        order@[at as int] as int,
                    ));
                    order::lemma_less_total(keys[before as int], keys[place as int]);
                    assert(before < place);
                    assert(views[before as int].archive_name == views[place as int].archive_name);
                    assert(repeats(views, place as int));
                }
                if place < first {
                    first = place;
                }
            }
        }
        at += 1;
    }
    proof {
        assert forall|k: int| 0 <= k < first implies !#[trigger] repeats(views, k) by {
            if repeats(views, k) {
                let p = lemma_repeat_has_neighbour(views, order@, k);
                assert(same_as_before(views, order@, p));
            }
        }
    }
    if first < size {
        proof {
            assert(is_first_repeat(views, first as int));
            assert(views[first as int] == items@[first as int]@);
        }
        return Err(
            ArchiveError::InvalidInput(
                text::join("duplicate ZIP entry: ", items[first].archive_name.as_str()),
            ),
        );
    }
    Ok(())
}

// ---------------------------------------------------------------------------
// Sharing out the work
// ---------------------------------------------------------------------------

/// The input from which several workers compress.
pub const PARALLEL_BYTES: u64 = 0x4_0000;

/// The most workers that compress.
pub const MAX_COMPRESS_WORKERS: usize = 32;

/// The most compressed bytes that a worker holds in memory.
pub const SPOOL_BYTES: usize = 0x80_0000;

/// The most entries that are compressed together.
pub const MAX_GROUP_ENTRIES: usize = 256;

/// `n`, but at least `low` and at most `high`.
pub open spec fn between(n: int, low: int, high: int) -> int {
    if n < low {
        low
    } else if n > high {
        high
    } else {
        n
    }
}

/// How many workers compress `items` items of `total` bytes with `threads`
/// threads.
pub open spec fn compress_workers(total: u64, threads: u32, items: int) -> int {
    let wanted = between(threads as int, 1, MAX_COMPRESS_WORKERS as int);
    if total < PARALLEL_BYTES {
        1
    } else if items <= 1 {
        1
    } else if wanted < items {
        wanted
    } else {
        items
    }
}

/// [`compress_workers`], executable.
pub fn compression_workers(total: u64, threads: ThreadCount, cpus: u32, items: usize) -> (workers:
    usize)
    ensures
        workers == compress_workers(total, threads.threads(cpus), items as int),
        1 <= workers <= MAX_COMPRESS_WORKERS,
{
    if total < PARALLEL_BYTES {
        return 1;
    }
    let threads: u32 = match threads.sevenzip_threads(cpus) {
        Some(threads) => threads,
        None => 1,
    };
    let mut workers: usize = if threads < 1 {
        1
    } else if threads > MAX_COMPRESS_WORKERS as u32 {
        MAX_COMPRESS_WORKERS
    } else {
        threads as usize
    };
    let most: usize = if items < 1 { 1 } else { items };
    if workers > most {
        workers = most;
    }
    workers
}

/// The bytes that a group of entries is to have.
pub fn group_target(total: u64, workers: usize) -> (target: u64)
    requires
        workers > 0,
    ensures
        target == between(total as int / workers as int, PARALLEL_BYTES as int, SPOOL_BYTES as int),
{
    let share: u64 = total / workers as u64;
    if share < PARALLEL_BYTES {
        PARALLEL_BYTES
    } else if share > SPOOL_BYTES as u64 {
        SPOOL_BYTES as u64
    } else {
        share
    }
}

/// Items that are put in groups: the groups that are complete, where the next
/// one starts, and how many bytes it has.
#[verifier::ext_equal]
pub struct Grouping {
    pub groups: Seq<(int, int)>,
    pub start: int,
    pub bytes: int,
}

/// The grouping of the first `n` items. A group is complete when it has the
/// bytes that it is to have, or the most entries that it can have.
pub open spec fn grouped(items: Seq<SourceView>, target: u64, n: int) -> Grouping
    decreases n,
{
    if n <= 0 {
        Grouping { groups: Seq::empty(), start: 0, bytes: 0 }
    } else {
        let before = grouped(items, target, n - 1);
        let bytes = before.bytes + items[n - 1].size;
        if bytes >= target || n - before.start >= MAX_GROUP_ENTRIES {
            Grouping { groups: before.groups.push((before.start, n)), start: n, bytes: 0 }
        } else {
            Grouping { bytes, ..before }
        }
    }
}

/// The groups of all items: those that are complete, and the rest.
pub open spec fn all_groups(items: Seq<SourceView>, target: u64) -> Seq<(int, int)> {
    let g = grouped(items, target, items.len() as int);
    if g.start < items.len() {
        g.groups.push((g.start, items.len() as int))
    } else {
        g.groups
    }
}

/// Groups over whole numbers.
pub open spec fn group_views(groups: Seq<(usize, usize)>) -> Seq<(int, int)> {
    Seq::new(groups.len(), |i: int| (groups[i].0 as int, groups[i].1 as int))
}

/// Puts items in groups of neighbours that are compressed together. A group
/// is given by its first item and the item behind its last.
pub fn group_items(items: &Vec<SourceItem>, target: u64) -> (groups: Vec<(usize, usize)>)
    ensures
        group_views(groups@) == all_groups(source::source_views(items@), target),
{
    let ghost views = source::source_views(items@);
    let mut groups: Vec<(usize, usize)> = Vec::new();
    let mut start: usize = 0;
    let mut bytes: u128 = 0;
    let size: usize = items.len();
    let mut i: usize = 0;
    proof {
        assert(group_views(groups@) =~= Seq::<(int, int)>::empty());
    }
    while i < size
        invariant
            i <= size,
            start <= i,
            size == items@.len(),
            views == source::source_views(items@),
            i - start < MAX_GROUP_ENTRIES,
            bytes <= (i - start) * u64::MAX,
            grouped(views, target, i as int) == (Grouping {
                groups: group_views(groups@),
                start: start as int,
                bytes: bytes as int,
            }),
        decreases size - i,
    {
        proof {
            assert(views[i as int] == items@[i as int]@);
        }
        bytes = bytes + items[i].size as u128;
        if bytes >= target as u128 || i + 1 - start >= MAX_GROUP_ENTRIES {
            let ghost before = group_views(groups@);
            groups.push((start, i + 1));
            proof {
                assert(group_views(groups@) =~= before.push((start as int, i + 1)));
            }
            start = i + 1;
            bytes = 0;
        }
        i += 1;
    }
    if start < size {
        let ghost before = group_views(groups@);
        groups.push((start, size));
        proof {
            assert(group_views(groups@) =~= before.push((start as int, size as int)));
        }
    }
    groups
}

/// What holds of a grouping on its way.
proof fn lemma_grouped(items: Seq<SourceView>, target: u64, n: int)
    requires
        0 <= n <= items.len(),
    ensures
        ({
            let g = grouped(items, target, n);
            &&& 0 <= g.start <= n
            &&& n - g.start < MAX_GROUP_ENTRIES
            &&& g.groups.len() == 0 ==> g.start == 0
            &&& g.groups.len() > 0 ==> g.groups[0].0 == 0 && g.groups.last().1 == g.start
            &&& forall|i: int|
                0 <= i < g.groups.len() ==> 0 < (#[trigger] g.groups[i]).1 - g.groups[i].0
                    <= MAX_GROUP_ENTRIES
            &&& forall|i: int|
                0 < i < g.groups.len() ==> (#[trigger] g.groups[i]).0 == g.groups[i - 1].1
        }),
    decreases n,
{
    if n > 0 {
        lemma_grouped(items, target, n - 1);
        let before = grouped(items, target, n - 1);
        let now = grouped(items, target, n);
        if now.groups.len() > before.groups.len() {
            assert(now.groups.last() == (before.start, n));
            assert forall|i: int| 0 < i < now.groups.len() implies (#[trigger] now.groups[i]).0
                == now.groups[i - 1].1 by {
                if i < before.groups.len() {
                    assert(now.groups[i] == before.groups[i]);
                    assert(now.groups[i - 1] == before.groups[i - 1]);
                } else {
                    assert(now.groups[i - 1] == before.groups.last());
                }
            }
        }
    }
}

/// The groups are not empty, follow each other and cover all items, and none
/// has too many entries.
pub proof fn law_groups_cover_the_items(items: Seq<SourceView>, target: u64)
    ensures
        ({
            let groups = all_groups(items, target);
            &&& items.len() > 0 ==> groups.len() > 0 && groups[0].0 == 0 && groups.last().1
                == items.len()
            &&& forall|i: int|
                0 <= i < groups.len() ==> 0 < (#[trigger] groups[i]).1 - groups[i].0
                    <= MAX_GROUP_ENTRIES
            &&& forall|i: int|
                0 < i < groups.len() ==> (#[trigger] groups[i]).0 == groups[i - 1].1
        }),
{
    let n = items.len() as int;
    lemma_grouped(items, target, n);
    let g = grouped(items, target, n);
    let groups = all_groups(items, target);
    if g.start < n {
        assert forall|i: int| 0 < i < groups.len() implies (#[trigger] groups[i]).0 == groups[i
            - 1].1 by {
            if i < g.groups.len() {
                assert(groups[i] == g.groups[i]);
                assert(groups[i - 1] == g.groups[i - 1]);
            } else {
                assert(groups[i - 1] == g.groups.last());
            }
        }
    }
}

/// Small inputs are compressed by one worker. Larger ones get as many workers
/// as there are threads, but no more than 32 and no more than items.
pub proof fn law_workers_follow_the_threads(total: u64, threads: u32, items: int)
    requires
        items >= 0,
    ensures
        total < 256 * 1024 ==> compress_workers(total, threads, items) == 1,
        items <= 1 ==> compress_workers(total, threads, items) == 1,
        1 <= compress_workers(total, threads, items) <= 32,
        items >= 1 ==> compress_workers(total, threads, items) <= items,
        total >= 256 * 1024 && 1 <= threads <= 32 && threads <= items ==> compress_workers(
            total,
            threads,
            items,
        ) == threads,
        total >= 256 * 1024 && 1 <= items <= threads && items <= 32 ==> compress_workers(
            total,
            threads,
            items,
        ) == items,
        total >= 256 * 1024 && threads > 32 && items > 32 ==> compress_workers(
            total,
            threads,
            items,
        ) == 32,
{
}

/// The sizes of some items, added up.
pub open spec fn bytes_between(items: Seq<SourceView>, first: int, last: int) -> int
    decreases last - first,
{
    if last <= first {
        0
    } else {
        bytes_between(items, first, last - 1) + items[last - 1].size
    }
}

/// What holds of the bytes of a grouping on its way.
proof fn lemma_grouped_bytes(items: Seq<SourceView>, target: u64, n: int)
    requires
        0 <= n <= items.len(),
    ensures
        ({
            let g = grouped(items, target, n);
            &&& g.bytes == bytes_between(items, g.start, n)
            &&& g.start < n ==> g.bytes < target
            &&& forall|i: int|
                0 <= i < g.groups.len() ==> {
                    let group = #[trigger] g.groups[i];
                    &&& bytes_between(items, group.0, group.1) >= target || group.1 - group.0
                        >= 256
                    &&& group.0 < group.1 - 1 ==> bytes_between(items, group.0, group.1 - 1)
                        < target
                }
        }),
    decreases n,
{
    if n > 0 {
        lemma_grouped_bytes(items, target, n - 1);
        lemma_grouped(items, target, n - 1);
        let before = grouped(items, target, n - 1);
        let now = grouped(items, target, n);
        assert(bytes_between(items, before.start, n) == before.bytes + items[n - 1].size);
        assert forall|i: int| 0 <= i < now.groups.len() implies {
            let group = #[trigger] now.groups[i];
            &&& bytes_between(items, group.0, group.1) >= target || group.1 - group.0 >= 256
            &&& group.0 < group.1 - 1 ==> bytes_between(items, group.0, group.1 - 1) < target
        } by {
            if i < before.groups.len() {
                assert(now.groups[i] == before.groups[i]);
            }
        }
    }
}

/// A group is complete as soon as it has its bytes or 256 entries: every
/// group but the last has one of them, and none had its bytes an entry
/// earlier.
pub proof fn law_groups_have_their_bytes(items: Seq<SourceView>, target: u64, i: int)
    requires
        0 <= i < all_groups(items, target).len(),
    ensures
        ({
            let groups = all_groups(items, target);
            let group = groups[i];
            &&& i < groups.len() - 1 ==> bytes_between(items, group.0, group.1) >= target || group.1
                - group.0 >= 256
            &&& group.0 < group.1 - 1 ==> bytes_between(items, group.0, group.1 - 1) < target
        }),
{
    let n = items.len() as int;
    lemma_grouped_bytes(items, target, n);
    lemma_grouped(items, target, n);
    let g = grouped(items, target, n);
    let groups = all_groups(items, target);
    if i < g.groups.len() {
        assert(groups[i] == g.groups[i]);
    } else {
        assert(groups[i] == (g.start, n));
        assert(bytes_between(items, g.start, n) == bytes_between(items, g.start, n - 1) + items[n
            - 1].size);
    }
}

/// The largest size among some items.
pub open spec fn largest_size(items: Seq<SourceView>, first: int, last: int) -> u64
    decreases last - first,
{
    if last <= first {
        0
    } else {
        let before = largest_size(items, first, last - 1);
        if items[last - 1].size > before {
            items[last - 1].size
        } else {
            before
        }
    }
}

/// The largest size is at least that of every item, and that of one of them.
pub proof fn law_largest_size(items: Seq<SourceView>, first: int, last: int)
    requires
        0 <= first <= last <= items.len(),
    ensures
        forall|i: int|
            first <= i < last ==> (#[trigger] items[i]).size <= largest_size(items, first, last),
        largest_size(items, first, last) > 0 ==> exists|i: int|
            first <= i < last && (#[trigger] items[i]).size == largest_size(items, first, last),
    decreases last - first,
{
    if first < last {
        law_largest_size(items, first, last - 1);
        let before = largest_size(items, first, last - 1);
        if items[last - 1].size > before {
            assert(items[last - 1].size == largest_size(items, first, last));
        } else if before > 0 {
            let i = choose|i: int| first <= i < last - 1 && (#[trigger] items[i]).size == before;
            assert(items[i].size == largest_size(items, first, last));
        }
    }
}

/// The buffer for compressing a group: it fits the largest of its files.
pub fn group_buffer_size(items: &Vec<SourceItem>, first: usize, last: usize) -> (size: usize)
    requires
        first <= last <= items@.len(),
    ensures
        size == file_ops::buffer_size(
            largest_size(source::source_views(items@), first as int, last as int),
        ),
{
    let ghost views = source::source_views(items@);
    let mut largest: u64 = 0;
    let mut i: usize = first;
    while i < last
        invariant
            first <= i <= last <= items@.len(),
            views == source::source_views(items@),
            largest == largest_size(views, first as int, i as int),
        decreases last - i,
    {
        proof {
            assert(views[i as int] == items@[i as int]@);
        }
        if items[i].size > largest {
            largest = items[i].size;
        }
        i += 1;
    }
    file_ops::stream_buffer_size(largest)
}

// ---------------------------------------------------------------------------
// Entries
// ---------------------------------------------------------------------------

/// How an entry is written.
#[derive(Debug, Clone, Copy, PartialEq, Eq, Structural)]
pub struct EntryOptions {
    pub directory: bool,
    /// The level of compression; without one the entry is stored.
    pub level: Option<u8>,
    /// Whether the entry may need large fields.
    pub large_file: bool,
    pub modified: Option<DosStamp>,
    /// Whether the entry is encrypted with AES-256.
    pub encrypted: bool,
}

/// The size from which an entry gets large fields: half of what small ones
/// hold, since compression may make it larger.
pub const LARGE_FILE_BYTES: u64 = 0x7FFF_FFFF;

/// How an item is written. `local_seconds` is its time of change in the local
/// time zone.
pub fn entry_options(item: &SourceItem, options: &CreateOptions, local_seconds: Option<i64>) -> (
    entry: EntryOptions)
    ensures
        entry.directory == (item.kind == SourceKind::Directory),
        entry.level == if options.compression_level == 0 {
            None
        } else {
            Some(options.compression_level)
        },
        entry.large_file == (item.size >= LARGE_FILE_BYTES),
        entry.encrypted == (item.kind == SourceKind::File && options.has_password()),
        match local_seconds {
            None => entry.modified is None,
            Some(seconds) => match entry.modified {
                Some(stamp) => exists|t: stamps::CivilTime| #[trigger]
                    stamps::is_civil_time(t, seconds) && 1980 <= t.year <= 2107 && stamp
                        == stamps::stamp_of(t),
                None => {
                    ||| seconds < stamps::FIRST_SECOND || seconds > stamps::LAST_SECOND
                    ||| exists|t: stamps::CivilTime| #[trigger]
                        stamps::is_civil_time(t, seconds) && (t.year < 1980 || t.year > 2107)
                },
            },
        },
{
    EntryOptions {
        directory: item.kind == SourceKind::Directory,
        level: if options.compression_level == 0 {
            None
        } else {
            Some(options.compression_level)
        },
        large_file: item.size >= LARGE_FILE_BYTES,
        modified: stamps::zip_stamp(local_seconds),
        encrypted: item.kind == SourceKind::File && options.has_usable_password(),
    }
}

/// Notes that `bytes` more bytes of an item were compressed, `current` in
/// all, and whether the item is done. Only files are counted.
pub fn advance(
    snapshot: &mut ProgressSnapshot,
    item: &SourceItem,
    current: u64,
    bytes: u64,
    completed: bool,
)
    requires
        old(snapshot).bytes_processed + bytes <= u64::MAX,
        old(snapshot).entries_processed < u64::MAX,
    ensures
        final(snapshot)@ == (SnapshotView {
            current_file: item.archive_name@,
            current_file_bytes_processed: current,
            current_file_total_bytes: Some(item.size),
            bytes_processed: (old(snapshot).bytes_processed + bytes) as u64,
            entries_processed: if completed && item.kind == SourceKind::File {
                (old(snapshot).entries_processed + 1) as u64
            } else {
                old(snapshot).entries_processed
            },
            ..old(snapshot)@
        }),
{
    snapshot.current_file = item.archive_name.clone();
    snapshot.current_file_bytes_processed = current;
    snapshot.current_file_total_bytes = Some(item.size);
    snapshot.bytes_processed = snapshot.bytes_processed + bytes;
    if completed && item.kind == SourceKind::File {
        snapshot.entries_processed = snapshot.entries_processed + 1;
    }
}

// ---------------------------------------------------------------------------
// The outcome
// ---------------------------------------------------------------------------

/// The error for a failure of the ZIP writer.
pub fn zip_writer_error(message: &str) -> (error: ArchiveError)
    ensures
        error@ == ErrorView::Worker("ZIP creation failed: "@ + message@),
{
    ArchiveError::Worker(text::join("ZIP creation failed: ", message))
}

/// Whether the archive can be put in place. Cancellation is reported even
/// where it made the writing fail.
pub fn zip_creation_outcome(cancelled: bool, result: ArchiveResult<()>) -> (outcome: ArchiveResult<
    (),
>)
    ensures
        file_ops::result_view(outcome) == if cancelled {
            Err::<(), ErrorView>(ErrorView::Cancelled)
        } else {
            file_ops::result_view(result)
        },
{
    if cancelled {
        return Err(ArchiveError::Cancelled);
    }
    result
}

/// The summary of a creation, by its last snapshot.
pub fn zip_summary(snapshot: &ProgressSnapshot) -> (summary: OperationSummary)
    ensures
        summary@ == (SummaryView {
            entries_processed: snapshot.entries_processed,
            entries_skipped: 0,
            bytes_processed: snapshot.bytes_processed,
            warning: None,
        }),
{
    OperationSummary {
        entries_processed: snapshot.entries_processed,
        entries_skipped: 0,
        bytes_processed: snapshot.bytes_processed,
        warning: None,
    }
}

/// The snapshot of an operation that is over.
pub fn zip_finished(snapshot: ProgressSnapshot) -> (last: ProgressSnapshot)
    ensures
        last@ == (SnapshotView {
            phase: ProgressPhase::Finished,
            current_file: Seq::empty(),
            ..snapshot@
        }),
{
    let mut last = snapshot;
    last.phase = ProgressPhase::Finished;
    last.current_file = String::new();
    last
}

/// An item repeats a name exactly when an earlier one has it: the first item
/// repeats none, and where all names differ none does.
pub proof fn law_repeats_share_a_name(items: Seq<SourceView>, i: int, j: int)
    requires
        0 <= j < i < items.len(),
    ensures
        !repeats(items, 0),
        items[j].archive_name == items[i].archive_name ==> repeats(items, i),
        (forall|k: int| 0 <= k < i ==> (#[trigger] items[k]).archive_name != items[i].archive_name)
            ==> !repeats(items, i) && !is_first_repeat(items, i),
        j == 0 && i == 1 && items[0].archive_name == items[1].archive_name ==> is_first_repeat(
            items,
            1,
        ),
{
}

} // verus!
