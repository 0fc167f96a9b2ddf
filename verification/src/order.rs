//! The order of texts, and sorting by it.

use vstd::prelude::*;

verus! {

/// Whether `a` comes before `b`, character by character.
pub open spec fn less(a: Seq<char>, b: Seq<char>) -> bool
    decreases a.len(),
{
    if b.len() == 0 {
        false
    } else if a.len() == 0 {
        true
    } else if a[0] != b[0] {
        (a[0] as u32) < (b[0] as u32)
    } else {
        less(a.drop_first(), b.drop_first())
    }
}

/// No text comes before itself, and of two different texts one comes first.
pub proof fn lemma_less_total(a: Seq<char>, b: Seq<char>)
    ensures
        a == b ==> !less(a, b),
        !(less(a, b) && less(b, a)),
        a != b ==> less(a, b) || less(b, a),
    decreases a.len(),
{
    if a.len() == 0 || b.len() == 0 {
        if a.len() == 0 && b.len() == 0 {
            assert(a =~= b);
        }
    } else if a[0] == b[0] {
        lemma_less_total(a.drop_first(), b.drop_first());
        if a.drop_first() == b.drop_first() {
            assert(a =~= seq![a[0]] + a.drop_first());
            assert(b =~= seq![b[0]] + b.drop_first());
        }
    } else {
        lemma_char_code_injective(a[0], b[0]);
    }
}

/// Different characters have different codes.
proof fn lemma_char_code_injective(a: char, b: char)
    requires
        a != b,
    ensures
        a as u32 != b as u32,
{
}

/// The order is transitive.
pub proof fn lemma_less_transitive(a: Seq<char>, b: Seq<char>, c: Seq<char>)
    requires
        less(a, b),
        less(b, c),
    ensures
        less(a, c),
    decreases a.len(),
{
    if a.len() > 0 && b.len() > 0 && c.len() > 0 {
        if a[0] == b[0] && b[0] == c[0] {
            lemma_less_transitive(a.drop_first(), b.drop_first(), c.drop_first());
        } else if a[0] != b[0] && b[0] != c[0] {
            assert((a[0] as u32) < (c[0] as u32));
        }
    }
}

/// [`less`], executable.
pub fn comes_before(a: &[char], b: &[char]) -> (yes: bool)
    ensures
        yes == less(a@, b@),
{
    let mut i: usize = 0;
    proof {
        assert(a@.skip(0) =~= a@);
        assert(b@.skip(0) =~= b@);
    }
    while i < a.len() && i < b.len()
        invariant
            i <= a@.len(),
            i <= b@.len(),
            less(a@, b@) == less(a@.skip(i as int), b@.skip(i as int)),
        decreases a@.len() - i,
    {
        let ghost left = a@.skip(i as int);
        let ghost right = b@.skip(i as int);
        proof {
            assert(left[0] == a@[i as int]);
            assert(right[0] == b@[i as int]);
            assert(left.drop_first() =~= a@.skip(i + 1));
            assert(right.drop_first() =~= b@.skip(i + 1));
        }
        if a[i] != b[i] {
            return (a[i] as u32) < (b[i] as u32);
        }
        i += 1;
    }
    i < b.len()
}

// ---------------------------------------------------------------------------
// Sorting
// ---------------------------------------------------------------------------

/// The texts of character lists.
pub open spec fn keys_of(keys: Seq<Vec<char>>) -> Seq<Seq<char>> {
    Seq::new(keys.len(), |i: int| keys[i]@)
}

/// Whether place `i` comes before place `j`: by its text, and by the places
/// themselves where the texts are the same.
pub open spec fn place_before(keys: Seq<Seq<char>>, i: int, j: int) -> bool {
    less(keys[i], keys[j]) || (keys[i] == keys[j] && i < j)
}

/// Whether the places are in order.
pub open spec fn in_order(keys: Seq<Seq<char>>, places: Seq<usize>) -> bool {
    forall|i: int, j: int|
        0 <= i < j < places.len() ==> place_before(
            keys,
            #[trigger] places[i] as int,
            #[trigger] places[j] as int,
        )
}

/// Whether the places are exactly those from `low` to `high`.
pub open spec fn covers(places: Seq<usize>, low: int, high: int) -> bool {
    &&& places.len() == high - low
    &&& forall|i: int| 0 <= i < places.len() ==> low <= #[trigger] places[i] < high
    &&& forall|k: usize| low <= k < high ==> #[trigger] places.contains(k)
}

/// The order of places is transitive and total.
pub proof fn lemma_place_order(keys: Seq<Seq<char>>, i: int, j: int, k: int)
    ensures
        place_before(keys, i, j) && place_before(keys, j, k) ==> place_before(keys, i, k),
        i != j ==> place_before(keys, i, j) || place_before(keys, j, i),
        !(place_before(keys, i, j) && place_before(keys, j, i)),
{
    lemma_less_total(keys[i], keys[j]);
    if less(keys[i], keys[j]) && less(keys[j], keys[k]) {
        lemma_less_transitive(keys[i], keys[j], keys[k]);
    }
}

/// Merges two runs of places that are each in order.
fn merge_runs(
    keys: &Vec<Vec<char>>,
    left: &Vec<usize>,
    right: &Vec<usize>,
    low: usize,
    middle: usize,
    high: usize,
) -> (out: Vec<usize>)
    requires
        low <= middle <= high <= keys@.len(),
        covers(left@, low as int, middle as int),
        covers(right@, middle as int, high as int),
        in_order(keys_of(keys@), left@),
        in_order(keys_of(keys@), right@),
    ensures
        covers(out@, low as int, high as int),
        in_order(keys_of(keys@), out@),
{
    let ghost texts = keys_of(keys@);
    let mut out: Vec<usize> = Vec::new();
    let mut i: usize = 0;
    let mut j: usize = 0;
    while i < left.len() || j < right.len()
        invariant
            low <= middle <= high <= keys@.len(),
            covers(left@, low as int, middle as int),
            covers(right@, middle as int, high as int),
            texts == keys_of(keys@),
            in_order(texts, left@),
            in_order(texts, right@),
            i <= left@.len(),
            j <= right@.len(),
            out@.len() == i + j,
            in_order(texts, out@),
            forall|k: int| 0 <= k < out@.len() ==> low <= #[trigger] out@[k] < high,
            forall|k: int, l: int|
                0 <= k < out@.len() && i <= l < left@.len() ==> place_before(
                    texts,
                    #[trigger] out@[k] as int,
                    #[trigger] left@[l] as int,
                ),
            forall|k: int, l: int|
                0 <= k < out@.len() && j <= l < right@.len() ==> place_before(
                    texts,
                    #[trigger] out@[k] as int,
                    #[trigger] right@[l] as int,
                ),
            forall|l: int| 0 <= l < i ==> out@.contains(#[trigger] left@[l]),
            forall|l: int| 0 <= l < j ==> out@.contains(#[trigger] right@[l]),
        decreases left@.len() + right@.len() - i - j,
    {
        let take_left: bool = if i >= left.len() {
            false
        } else if j >= right.len() {
            true
        } else {
            let first: usize = left[i];
            let second: usize = right[j];
            proof {
                lemma_place_order(texts, first as int, second as int, first as int);
                lemma_less_total(texts[first as int], texts[second as int]);
                assert(texts[first as int] == keys@[first as int]@);
                assert(texts[second as int] == keys@[second as int]@);
            }
            !comes_before(&keys[second], &keys[first])
        };
        let ghost before = out@;
        if take_left {
            let place: usize = left[i];
            proof {
                if j < right@.len() {
                    let second = right@[j as int] as int;
                    assert(place_before(texts, place as int, second));
                    assert forall|l: int| j <= l < right@.len() implies place_before(
                        texts,
                        place as int,
                        #[trigger] right@[l] as int,
                    ) by {
                        lemma_place_order(texts, place as int, second, right@[l] as int);
                    }
                }
            }
            out.push(place);
            i += 1;
            proof {
                assert(out@ == before.push(place));
                assert(out@[before.len() as int] == place);
            }
        } else {
            let place: usize = right[j];
            proof {
                if i < left@.len() {
                    let first = left@[i as int] as int;
                    assert(place_before(texts, place as int, first));
                    assert forall|l: int| i <= l < left@.len() implies place_before(
                        texts,
                        place as int,
                        #[trigger] left@[l] as int,
                    ) by {
                        lemma_place_order(texts, place as int, first, left@[l] as int);
                    }
                }
            }
            out.push(place);
            j += 1;
            proof {
                assert(out@ == before.push(place));
                assert(out@[before.len() as int] == place);
            }
        }
        proof {
            assert forall|x: usize| before.contains(x) implies out@.contains(x) by {
                let k = choose|k: int| 0 <= k < before.len() && before[k] == x;
                assert(out@[k] == x);
            }
        }
    }
    proof {
        assert forall|k: usize| low <= k < high implies #[trigger] out@.contains(k) by {
            if k < middle {
                assert(left@.contains(k));
                let l = choose|l: int| 0 <= l < left@.len() && left@[l] == k;
                assert(out@.contains(left@[l]));
            } else {
                assert(right@.contains(k));
                let l = choose|l: int| 0 <= l < right@.len() && right@[l] == k;
                assert(out@.contains(right@[l]));
            }
        }
    }
    out
}

/// Sorts the places from `low` to `high`.
fn sort_range(keys: &Vec<Vec<char>>, low: usize, high: usize) -> (out: Vec<usize>)
    requires
        low <= high <= keys@.len(),
    ensures
        covers(out@, low as int, high as int),
        in_order(keys_of(keys@), out@),
    decreases high - low,
{
    let mut out: Vec<usize> = Vec::new();
    if high - low == 0 {
        return out;
    }
    if high - low == 1 {
        out.push(low);
        proof {
            assert(out@[0] == low);
        }
        return out;
    }
    let middle: usize = low + (high - low) / 2;
    let left = sort_range(keys, low, middle);
    let right = sort_range(keys, middle, high);
    merge_runs(keys, &left, &right, low, middle, high)
}

/// The places of all texts in order. Places with the same text keep their
/// order.
pub fn sort_order(keys: &Vec<Vec<char>>) -> (order: Vec<usize>)
    ensures
        covers(order@, 0, keys@.len() as int),
        in_order(keys_of(keys@), order@),
{
    sort_range(keys, 0, keys.len())
}

/// There is one order: two orders of the same texts are the same.
pub proof fn law_order_is_unique(keys: Seq<Seq<char>>, a: Seq<usize>, b: Seq<usize>)
    requires
        keys.len() <= usize::MAX,
        covers(a, 0, keys.len() as int),
        covers(b, 0, keys.len() as int),
        in_order(keys, a),
        in_order(keys, b),
    ensures
        a == b,
{
    assert forall|i: int| 0 <= i < a.len() implies a[i] == b[i] by {
        lemma_order_agrees(keys, a, b, i);
    }
    assert(a =~= b);
}

/// Two orders agree up to each place.
proof fn lemma_order_agrees(keys: Seq<Seq<char>>, a: Seq<usize>, b: Seq<usize>, n: int)
    requires
        keys.len() <= usize::MAX,
        covers(a, 0, keys.len() as int),
        covers(b, 0, keys.len() as int),
        in_order(keys, a),
        in_order(keys, b),
        0 <= n < a.len(),
    ensures
        forall|i: int| 0 <= i <= n ==> a[i] == b[i],
    decreases n,
{
    if n > 0 {
        lemma_order_agrees(keys, a, b, n - 1);
    }
    assert(a.contains(b[n]));
    assert(b.contains(a[n]));
    let p = choose|p: int| 0 <= p < a.len() && a[p] == b[n];
    let q = choose|q: int| 0 <= q < b.len() && b[q] == a[n];
    // The element of `b` at `n` is not among the earlier ones of `a`, and
    // the other way round.
    if p < n {
        assert(b[p] == b[n]);
        lemma_place_order(keys, b[p] as int, b[n] as int, b[p] as int);
    }
    if q < n {
        assert(a[q] == a[n]);
        lemma_place_order(keys, a[q] as int, a[n] as int, a[q] as int);
    }
    if p > n && q > n {
        assert(place_before(keys, a[n] as int, a[p] as int));
        assert(place_before(keys, b[n] as int, b[q] as int));
        lemma_place_order(keys, a[n] as int, b[n] as int, a[n] as int);
    }
}

/// Looks a text up in an order of texts.
pub fn find_key(keys: &Vec<Vec<char>>, order: &Vec<usize>, key: &[char]) -> (found: bool)
    requires
        covers(order@, 0, keys@.len() as int),
        in_order(keys_of(keys@), order@),
    ensures
        found == exists|k: int| 0 <= k < keys@.len() && (#[trigger] keys@[k])@ == key@,
{
    let ghost texts = keys_of(keys@);
    let mut low: usize = 0;
    let mut high: usize = order.len();
    while low < high
        invariant
            low <= high <= order@.len(),
            order@.len() == keys@.len(),
            texts == keys_of(keys@),
            covers(order@, 0, keys@.len() as int),
            in_order(texts, order@),
            forall|p: int| 0 <= p < low ==> less(texts[#[trigger] order@[p] as int], key@),
            forall|p: int|
                high <= p < order@.len() ==> !less(texts[#[trigger] order@[p] as int], key@),
        decreases high - low,
    {
        let middle: usize = low + (high - low) / 2;
        let place: usize = order[middle];
        proof {
            assert(texts[place as int] == keys@[place as int]@);
        }
        if comes_before(keys[place].as_slice(), key) {
            proof {
                assert forall|p: int| 0 <= p <= middle implies less(
                    texts[#[trigger] order@[p] as int],
                    key@,
                ) by {
                    if p < middle {
                        assert(place_before(texts, order@[p] as int, order@[middle as int] as int));
                        if less(texts[order@[p] as int], texts[place as int]) {
                            lemma_less_transitive(
                                texts[order@[p] as int],
                                texts[place as int],
                                key@,
                            );
                        }
                    }
                }
            }
            low = middle + 1;
        } else {
            proof {
                assert forall|p: int| middle <= p < order@.len() implies !less(
                    texts[#[trigger] order@[p] as int],
                    key@,
                ) by {
                    if p > middle {
                        assert(place_before(texts, order@[middle as int] as int, order@[p] as int));
                        if less(texts[order@[p] as int], key@) && less(
                            texts[place as int],
                            texts[order@[p] as int],
                        ) {
                            lemma_less_transitive(
                                texts[place as int],
                                texts[order@[p] as int],
                                key@,
                            );
                        }
                    }
                }
            }
            high = middle;
        }
    }
    proof {
        assert forall|k: int| 0 <= k < keys@.len() && (#[trigger] keys@[k])@
            == key@ implies low < order@.len() && texts[order@[low as int] as int] == key@ by {
            assert(order@.contains(k as usize));
            let p = choose|p: int| 0 <= p < order@.len() && order@[p] == k as usize;
            assert(texts[k] == key@);
            lemma_less_total(texts[k], key@);
            assert(p >= low);
            let first = texts[order@[low as int] as int];
            if p > low {
                assert(place_before(texts, order@[low as int] as int, order@[p] as int));
                assert(!less(first, key@));
            }
        }
    }
    if low < order.len() {
        let place: usize = order[low];
        proof {
            assert(texts[place as int] == keys@[place as int]@);
        }
        let found: bool = same_chars(keys[place].as_slice(), key);
        proof {
            if found {
                assert(keys@[place as int]@ == key@);
            }
        }
        found
    } else {
        false
    }
}

/// Whether two lists hold the same characters.
pub fn same_chars(a: &[char], b: &[char]) -> (same: bool)
    ensures
        same == (a@ == b@),
{
    if a.len() != b.len() {
        return false;
    }
    let mut i: usize = 0;
    while i < a.len()
        invariant
            i <= a@.len(),
            a@.len() == b@.len(),
            forall|k: int| 0 <= k < i ==> a@[k] == b@[k],
        decreases a@.len() - i,
    {
        if a[i] != b[i] {
            return false;
        }
        i += 1;
    }
    proof {
        assert(a@ =~= b@);
    }
    true
}

/// Keys are ordered by the first character in which they differ, and a key
/// comes before any that begins with it. No key comes before itself.
pub proof fn law_first_difference_decides(
    common: Seq<char>,
    a: char,
    b: char,
    rest: Seq<char>,
    other: Seq<char>,
)
    ensures
        a != b ==> (less(common + (seq![a] + rest), common + (seq![b] + other)) <==> (a as u32) < (
        b as u32)),
        less(common, common + (seq![a] + rest)),
        !less(common + (seq![a] + rest), common),
        !less(common, common),
    decreases common.len(),
{
    let x = common + (seq![a] + rest);
    let y = common + (seq![b] + other);
    if common.len() == 0 {
        assert(x[0] == a && y[0] == b);
    } else {
        let less_common = common.drop_first();
        law_first_difference_decides(less_common, a, b, rest, other);
        assert(x[0] == common[0] && y[0] == common[0]);
        assert(x.drop_first() =~= less_common + (seq![a] + rest));
        assert(y.drop_first() =~= less_common + (seq![b] + other));
    }
}

} // verus!
