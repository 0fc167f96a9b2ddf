//! Patterns with `*` and `?`.

use vstd::prelude::*;
use crate::text;

verus! {

/// Whether a pattern matches a text: `*` stands for any run of characters,
/// `?` for any one of them, and every other character for itself.
pub open spec fn matches(p: Seq<char>, v: Seq<char>) -> bool
    decreases p.len(), v.len(),
{
    if p.len() == 0 {
        v.len() == 0
    } else if p[0] == '*' {
        matches(p.drop_first(), v) || (v.len() > 0 && matches(p, v.drop_first()))
    } else {
        v.len() > 0 && (p[0] == '?' || p[0] == v[0]) && matches(p.drop_first(), v.drop_first())
    }
}

/// Whether the pattern from `i` on matches the text from `j` on.
pub open spec fn matches_from(p: Seq<char>, v: Seq<char>, i: int, j: int) -> bool {
    matches(p.skip(i), v.skip(j))
}

/// A pattern or a text as it is compared: with one kind of separator, and in
/// lower case. The pattern `*.*` also stands for names without a dot.
pub open spec fn compared(s: Seq<char>) -> Seq<char> {
    text::unicode_lower(text::with_char_replaced(s, '\\', '/'))
}

/// Whether a 7-Zip style pattern matches a name.
pub open spec fn pattern_matches(pattern: Seq<char>, value: Seq<char>) -> bool {
    matches(
        compared(
            if pattern == "*.*"@ {
                "*"@
            } else {
                pattern
            },
        ),
        compared(value),
    )
}

/// How the match from two places on follows from later ones.
proof fn lemma_step(p: Seq<char>, v: Seq<char>, i: int, j: int)
    requires
        0 <= i <= p.len(),
        0 <= j <= v.len(),
    ensures
        matches_from(p, v, i, j) == if i == p.len() {
            j == v.len()
        } else if p[i] == '*' {
            matches_from(p, v, i + 1, j) || (j < v.len() && matches_from(p, v, i, j + 1))
        } else {
            j < v.len() && (p[i] == '?' || p[i] == v[j]) && matches_from(p, v, i + 1, j + 1)
        },
{
    let a = p.skip(i);
    let b = v.skip(j);
    if i < p.len() {
        assert(a[0] == p[i]);
        assert(a.drop_first() =~= p.skip(i + 1));
    }
    if j < v.len() {
        assert(b[0] == v[j]);
        assert(b.drop_first() =~= v.skip(j + 1));
    }
}

/// Whether the pattern from `i` on matches the text from some place at or
/// behind `j` on.
spec fn matches_later(p: Seq<char>, v: Seq<char>, i: int, j: int) -> bool {
    exists|r: int| j <= r <= v.len() && #[trigger] matches_from(p, v, i, r)
}

/// A star matches when what follows it matches later.
proof fn lemma_star(p: Seq<char>, v: Seq<char>, i: int, j: int)
    requires
        0 <= i < p.len(),
        p[i] == '*',
        0 <= j <= v.len(),
    ensures
        matches_from(p, v, i, j) == matches_later(p, v, i + 1, j),
    decreases v.len() - j,
{
    lemma_step(p, v, i, j);
    if j < v.len() {
        lemma_star(p, v, i, j + 1);
        if matches_later(p, v, i + 1, j) {
            let r = choose|r: int| j <= r <= v.len() && #[trigger] matches_from(p, v, i + 1, r);
            if r > j {
                assert(j + 1 <= r && matches_from(p, v, i + 1, r));
            }
        }
        if matches_from(p, v, i + 1, j) {
            assert(matches_later(p, v, i + 1, j));
        }
        if matches_later(p, v, i + 1, j + 1) {
            let r = choose|r: int| j + 1 <= r <= v.len() && #[trigger] matches_from(p, v, i + 1, r);
            assert(j <= r && matches_from(p, v, i + 1, r));
        }
    } else {
        if matches_later(p, v, i + 1, j) {
            let r = choose|r: int| j <= r <= v.len() && #[trigger] matches_from(p, v, i + 1, r);
            assert(r == j);
        }
    }
}

/// A part of the pattern without stars takes as many characters as it has.
proof fn lemma_plain_part(p: Seq<char>, v: Seq<char>, a: int, b: int, r: int)
    requires
        0 <= a <= b <= p.len(),
        forall|k: int| a <= k < b ==> p[k] != '*',
        0 <= r <= v.len(),
        matches_from(p, v, a, r),
    ensures
        r + (b - a) <= v.len(),
        matches_from(p, v, b, r + (b - a)),
    decreases b - a,
{
    lemma_step(p, v, a, r);
    if a < b {
        lemma_plain_part(p, v, a + 1, b, r + 1);
    }
}

/// When the part of the pattern since the last star took the text since that
/// star, no later start can lead further back.
proof fn lemma_later_start(p: Seq<char>, v: Seq<char>, s: int, retry: int, i: int, j: int)
    requires
        0 <= s < i <= p.len(),
        0 <= retry <= j <= v.len(),
        i - (s + 1) == j - retry,
        forall|k: int| s < k < i ==> p[k] != '*',
        matches_later(p, v, s + 1, retry + 1),
    ensures
        j < v.len(),
        matches_later(p, v, i, j + 1),
{
    let r = choose|r: int|
        retry + 1 <= r <= v.len() && #[trigger] matches_from(p, v, s + 1, r);
    lemma_plain_part(p, v, s + 1, i, r);
    assert(matches_from(p, v, i, r + (i - (s + 1))));
}

/// [`matches`], executable: tries each star with as few characters as
/// possible, and goes back to the last one when that fails.
pub fn matches_pattern(p: &[char], v: &[char]) -> (found: bool)
    ensures
        found == matches(p@, v@),
{
    let pattern: usize = p.len();
    let length: usize = v.len();
    let mut i: usize = 0;
    let mut j: usize = 0;
    let mut star: Option<usize> = None;
    let mut retry: usize = 0;
    proof {
        assert(p@.skip(0) =~= p@);
        assert(v@.skip(0) =~= v@);
    }
    while j < length
        invariant
            pattern == p@.len(),
            length == v@.len(),
            i <= pattern,
            j <= length,
            retry <= j,
            match star {
                None => matches(p@, v@) == matches_from(p@, v@, i as int, j as int),
                Some(s) => {
                    &&& s < i
                    &&& p@[s as int] == '*'
                    &&& i - (s + 1) == j - retry
                    &&& forall|k: int| s < k < i ==> p@[k] != '*'
                    &&& matches(p@, v@) == (matches_from(p@, v@, i as int, j as int)
                        || matches_later(p@, v@, s + 1, retry + 1))
                },
            },
        decreases
                (if star is None {
                    length + 1
                } else {
                    length - retry
                }),
                pattern - i,
    {
        proof {
            lemma_step(p@, v@, i as int, j as int);
        }
        if i < pattern && p[i] == '*' {
            proof {
                lemma_star(p@, v@, i as int, j as int);
                let now = matches_from(p@, v@, i as int, j as int);
                let next = matches_from(p@, v@, i + 1, j as int);
                let later = matches_later(p@, v@, i + 1, j + 1);
                assert(now == (next || later)) by {
                    if now {
                        let r = choose|r: int|
                            j <= r <= v@.len() && #[trigger] matches_from(p@, v@, i + 1, r);
                        if r > j {
                            assert(j + 1 <= r && matches_from(p@, v@, i + 1, r));
                        }
                    }
                    if later {
                        let r = choose|r: int|
                            j + 1 <= r <= v@.len() && #[trigger] matches_from(p@, v@, i + 1, r);
                        assert(j <= r && matches_from(p@, v@, i + 1, r));
                    }
                    if next {
                        assert(matches_later(p@, v@, i + 1, j as int));
                    }
                }
                if star is Some && matches_later(p@, v@, star->0 + 1, retry + 1) {
                    lemma_later_start(
                        p@,
                        v@,
                        star->0 as int,
                        retry as int,
                        i as int,
                        j as int,
                    );
                    let r = choose|r: int|
                        j + 1 <= r <= v@.len() && #[trigger] matches_from(p@, v@, i as int, r);
                    lemma_star(p@, v@, i as int, r);
                    let q = choose|q: int|
                        r <= q <= v@.len() && #[trigger] matches_from(p@, v@, i + 1, q);
                    assert(j + 1 <= q && matches_from(p@, v@, i + 1, q));
                    assert(later);
                }
            }
            star = Some(i);
            i += 1;
            retry = j;
        } else if i < pattern && (p[i] == '?' || p[i] == v[j]) {
            i += 1;
            j += 1;
        } else {
            match star {
                Some(s) => {
                    proof {
                        let later = matches_later(p@, v@, s + 1, retry + 1);
                        let next = matches_from(p@, v@, s + 1, retry + 1);
                        let rest = matches_later(p@, v@, s + 1, retry + 2);
                        assert(later == (next || rest)) by {
                            if later {
                                let r = choose|r: int|
                                    retry + 1 <= r <= v@.len() && #[trigger] matches_from(
                                        p@,
                                        v@,
                                        s + 1,
                                        r,
                                    );
                                if r > retry + 1 {
                                    assert(retry + 2 <= r && matches_from(p@, v@, s + 1, r));
                                }
                            }
                            if rest {
                                let r = choose|r: int|
                                    retry + 2 <= r <= v@.len() && #[trigger] matches_from(
                                        p@,
                                        v@,
                                        s + 1,
                                        r,
                                    );
                                assert(retry + 1 <= r && matches_from(p@, v@, s + 1, r));
                            }
                        }
                    }
                    retry += 1;
                    j = retry;
                    i = s + 1;
                },
                None => {
                    return false;
                },
            }
        }
    }
    proof {
        if star is Some && matches_later(p@, v@, star->0 + 1, retry + 1) {
            lemma_later_start(p@, v@, star->0 as int, retry as int, i as int, j as int);
        }
    }
    while i < pattern && p[i] == '*'
        invariant
            i <= pattern,
            pattern == p@.len(),
            j == v@.len(),
            matches(p@, v@) == matches_from(p@, v@, i as int, j as int),
        decreases pattern - i,
    {
        proof {
            lemma_step(p@, v@, i as int, j as int);
        }
        i += 1;
    }
    proof {
        lemma_step(p@, v@, i as int, j as int);
    }
    i == pattern
}

/// 7-Zip style matching: [`pattern_matches`], executable.
pub fn wildcard(pattern: &str, value: &str) -> (found: bool)
    ensures
        found == pattern_matches(pattern@, value@),
{
    let pattern: &str = if text::same_text(pattern, "*.*") { "*" } else { pattern };
    let p = lowered(pattern);
    let v = lowered(value);
    matches_pattern(p.as_slice(), v.as_slice())
}

/// [`compared`], executable.
fn lowered(s: &str) -> (out: Vec<char>)
    ensures
        out@ == compared(s@),
{
    let slashed = text::replace_char(s, '\\', '/');
    text::chars_of(text::unicode_lower_text(slashed.as_str()).as_str())
}

/// A single star matches every text.
pub proof fn law_star_matches_everything(v: Seq<char>)
    ensures
        matches(seq!['*'], v),
    decreases v.len(),
{
    reveal_with_fuel(matches, 2);
    let p = seq!['*'];
    assert(p.drop_first() =~= Seq::<char>::empty());
    if v.len() > 0 {
        law_star_matches_everything(v.drop_first());
    }
}

/// A pattern without wildcards matches itself only.
pub proof fn law_plain_pattern_matches_itself(p: Seq<char>, v: Seq<char>)
    requires
        forall|i: int| 0 <= i < p.len() ==> p[i] != '*' && p[i] != '?',
    ensures
        matches(p, v) == (p == v),
    decreases p.len(),
{
    if p.len() > 0 {
        if v.len() > 0 {
            assert forall|i: int| 0 <= i < p.drop_first().len() implies p.drop_first()[i] != '*'
                && p.drop_first()[i] != '?' by {
                assert(p.drop_first()[i] == p[i + 1]);
            }
            law_plain_pattern_matches_itself(p.drop_first(), v.drop_first());
            if p[0] == v[0] && p.drop_first() == v.drop_first() {
                assert(p =~= seq![p[0]] + p.drop_first());
                assert(v =~= seq![v[0]] + v.drop_first());
            }
        }
    } else {
        if v.len() == 0 {
            assert(p =~= v);
        }
    }
}

/// A question mark stands for exactly one character, and any other character
/// but a star for itself.
pub proof fn law_characters_match_one_by_one(c: char, p: Seq<char>, d: char, v: Seq<char>)
    requires
        c != '*',
    ensures
        matches(seq![c] + p, seq![d] + v) <==> (c == '?' || c == d) && matches(p, v),
        !matches(seq![c] + p, Seq::empty()),
{
    assert((seq![c] + p).drop_first() =~= p);
    assert((seq![d] + v).drop_first() =~= v);
}

/// Patterns that match one after the other match together. A star matches any
/// text, so what stands before and behind it may be any distance apart.
pub proof fn law_patterns_match_together(p: Seq<char>, v: Seq<char>, q: Seq<char>, w: Seq<char>)
    requires
        matches(p, v),
        matches(q, w),
    ensures
        matches(p + q, v + w),
    decreases p.len(), v.len(),
{
    if p.len() == 0 {
        assert(p + q =~= q);
        assert(v + w =~= w);
    } else {
        let whole = p + q;
        let text = v + w;
        assert(whole[0] == p[0]);
        assert(whole.drop_first() =~= p.drop_first() + q);
        if p[0] == '*' {
            if matches(p.drop_first(), v) {
                law_patterns_match_together(p.drop_first(), v, q, w);
            } else {
                law_patterns_match_together(p, v.drop_first(), q, w);
                assert(text.drop_first() =~= v.drop_first() + w);
            }
        } else {
            law_patterns_match_together(p.drop_first(), v.drop_first(), q, w);
            assert(text[0] == v[0]);
            assert(text.drop_first() =~= v.drop_first() + w);
        }
    }
}

} // verus!
