//! File names of archives and of the volumes of split archives.

use vstd::prelude::*;
use vstd::string::*;
use crate::text;

verus! {

/// The name of a volume's archive when it has none of its own.
pub open spec fn name_or_default(name: Option<Seq<char>>) -> Seq<char> {
    match name {
        Some(name) => name,
        None => "archive"@,
    }
}

/// The file name of volume `index` of the archive `base`.
pub open spec fn volume_name(base: Option<Seq<char>>, index: nat) -> Seq<char> {
    name_or_default(base) + seq!['.'] + text::decimal3(index)
}

/// The file name of volume `index` of the archive `base`: the archive's name,
/// a dot and at least three digits. An archive without a name is `archive`.
pub fn volume_part_path(base: &Option<String>, index: u32) -> (name: String)
    ensures
        name@ == volume_name(text::option_text(*base), index as nat),
{
    let mut name: String = match base {
        Some(base) => base.clone(),
        None => "archive".to_owned(),
    };
    name.push('.');
    let digits = text::decimal3_text(index as u64);
    name.append(digits.as_str());
    proof {
        let base_name = name_or_default(text::option_text(*base));
        assert(base_name.push('.') =~= base_name + seq!['.']);
    }
    name
}

/// The part of a name before its last dot.
pub open spec fn before_last_dot(name: Seq<char>, at: int) -> Seq<char> {
    name.subrange(0, at)
}

/// The part of a name behind its last dot.
pub open spec fn behind_last_dot(name: Seq<char>, at: int) -> Seq<char> {
    name.subrange(at + 1, name.len() as int)
}

/// Whether `name` is volume `index` of the archive named `base`: behind the
/// last dot stand three or more digits, and they are not all zeros.
pub open spec fn names_volume(name: Seq<char>, base: Seq<char>, index: u32) -> bool {
    exists|at: int|
        #![trigger name.subrange(0, at)]
        {
            &&& text::is_last_place(name, '.', at)
            &&& base == before_last_dot(name, at)
            &&& behind_last_dot(name, at).len() >= 3
            &&& text::u32_value(behind_last_dot(name, at)) == Some(index)
            &&& index > 0
        }
}

/// A name is that of at most one volume of one archive.
pub proof fn lemma_volume_unique(
    name: Seq<char>,
    base: Seq<char>,
    index: u32,
    other: Seq<char>,
    number: u32,
)
    requires
        names_volume(name, base, index),
        names_volume(name, other, number),
    ensures
        base == other,
        index == number,
{
    let at = choose|at: int|
        #![trigger name.subrange(0, at)]
        {
            &&& text::is_last_place(name, '.', at)
            &&& base == before_last_dot(name, at)
            &&& behind_last_dot(name, at).len() >= 3
            &&& text::u32_value(behind_last_dot(name, at)) == Some(index)
            &&& index > 0
        };
    let place = choose|place: int|
        #![trigger name.subrange(0, place)]
        {
            &&& text::is_last_place(name, '.', place)
            &&& other == before_last_dot(name, place)
            &&& behind_last_dot(name, place).len() >= 3
            &&& text::u32_value(behind_last_dot(name, place)) == Some(number)
            &&& number > 0
        };
    lemma_last_place_unique(name, '.', at, place);
}

/// The archive that a name is a volume of, where it is one.
pub open spec fn archive_of(name: Seq<char>) -> Option<Seq<char>> {
    if exists|base: Seq<char>, index: u32| names_volume(name, base, index) {
        let (base, _) = choose|base: Seq<char>, index: u32| names_volume(name, base, index);
        Some(base)
    } else {
        None
    }
}

/// Splits the name of a volume into the archive's name and the volume's
/// number, counted from one.
pub fn split_volume_base(name: &str) -> (split: Option<(String, u32)>)
    ensures
        match split {
            Some((base, index)) => names_volume(name@, base@, index) && archive_of(name@) == Some(
                base@,
            ),
            None => archive_of(name@) is None && forall|base: Seq<char>, index: u32|
                !names_volume(name@, base, index),
        },
{
    let chars = text::chars_of(name);
    match text::last_place(&chars, '.') {
        None => {
            proof {
                assert forall|base: Seq<char>, index: u32| !names_volume(name@, base, index) by {
                    if names_volume(name@, base, index) {
                        let at = choose|at: int|
                            #![trigger name@.subrange(0, at)]
                            text::is_last_place(name@, '.', at);
                        assert(name@[at] == '.');
                    }
                }
            }
            None
        },
        Some(dot) => {
            proof {
                assert forall|at: int| text::is_last_place(name@, '.', at) implies at == dot by {
                    if at < dot {
                        assert(name@[dot as int] == '.');
                    }
                    if dot < at {
                        assert(name@[at] == '.');
                    }
                }
            }
            let size: usize = chars.len();
            let suffix = vstd::slice::slice_subrange(&chars, dot + 1, size);
            proof {
                assert(suffix@ == behind_last_dot(name@, dot as int));
            }
            if suffix.len() < 3 {
                return None;
            }
            match text::parse_u32_digits(suffix) {
                None => None,
                Some(index) => {
                    if index == 0 {
                        return None;
                    }
                    let head = vstd::slice::slice_subrange(&chars, 0, dot);
                    let base = text::string_of(head);
                    proof {
                        assert(base@ == name@.subrange(0, dot as int));
                        assert(names_volume(name@, base@, index));
                        let (other, number) = choose|other: Seq<char>, number: u32|
                            names_volume(name@, other, number);
                        lemma_volume_unique(name@, base@, index, other, number);
                    }
                    Some((base, index))
                },
            }
        },
    }
}

/// The extension of a file name: what stands behind its last dot, unless
/// that dot is missing or is the first character.
pub open spec fn extension(name: Seq<char>) -> Option<Seq<char>> {
    if exists|at: int| 0 < at && text::is_last_place(name, '.', at) {
        let at = choose|at: int| 0 < at && text::is_last_place(name, '.', at);
        Some(behind_last_dot(name, at))
    } else {
        None
    }
}

/// A name has one last dot.
pub proof fn lemma_last_place_unique(name: Seq<char>, c: char, a: int, b: int)
    requires
        text::is_last_place(name, c, a),
        text::is_last_place(name, c, b),
    ensures
        a == b,
{
    if a < b {
        assert(name[b] == c);
    }
    if b < a {
        assert(name[a] == c);
    }
}

/// [`extension`], executable.
pub fn extension_of(name: &str) -> (found: Option<String>)
    ensures
        text::option_text(found) == extension(name@),
{
    let chars = text::chars_of(name);
    match text::last_place(&chars, '.') {
        None => {
            proof {
                assert forall|at: int| !(0 < at && text::is_last_place(name@, '.', at)) by {
                    if text::is_last_place(name@, '.', at) {
                        assert(name@[at] == '.');
                    }
                }
            }
            None
        },
        Some(dot) => {
            proof {
                assert forall|at: int| text::is_last_place(name@, '.', at) implies at == dot by {
                    lemma_last_place_unique(name@, '.', at, dot as int);
                }
            }
            if dot == 0 {
                return None;
            }
            let size: usize = chars.len();
            let tail = vstd::slice::slice_subrange(&chars, dot + 1, size);
            let found = text::string_of(tail);
            proof {
                assert(text::is_last_place(name@, '.', dot as int));
                assert(found@ == behind_last_dot(name@, dot as int));
            }
            Some(found)
        },
    }
}

/// Whether the name has the extension `wanted`, up to ASCII case.
pub open spec fn has_extension(name: Seq<char>, wanted: Seq<char>) -> bool {
    match extension(name) {
        Some(found) => text::lower(found) == text::lower(wanted),
        None => false,
    }
}

/// [`has_extension`], executable.
pub fn ends_in(name: &str, wanted: &str) -> (yes: bool)
    ensures
        yes == has_extension(name@, wanted@),
{
    match extension_of(name) {
        Some(found) => text::same_ignoring_case(found.as_str(), wanted),
        None => false,
    }
}

// ---------------------------------------------------------------------------
// Laws
// ---------------------------------------------------------------------------

/// A number's decimal digits read back as the number.
pub proof fn lemma_decimal_reads_back(n: nat)
    ensures
        text::decimal(n).len() > 0,
        text::all_digits(text::decimal(n)),
        text::number(text::decimal(n)) == n,
    decreases n,
{
    if n < 10 {
        assert(text::decimal(n).drop_last() =~= Seq::<char>::empty());
        assert(text::number(Seq::<char>::empty()) == 0);
    } else {
        lemma_decimal_reads_back(n / 10);
        let d = text::digit_char((n % 10) as int);
        assert(text::decimal(n).drop_last() =~= text::decimal(n / 10));
        assert forall|i: int| 0 <= i < text::decimal(n).len() implies text::is_digit(
            #[trigger] text::decimal(n)[i],
        ) by {
            if i < text::decimal(n / 10).len() {
                assert(text::decimal(n)[i] == text::decimal(n / 10)[i]);
            }
        }
    }
}

/// Leading zeros do not change a number.
pub proof fn lemma_leading_zero(s: Seq<char>)
    requires
        text::all_digits(s),
    ensures
        text::number(seq!['0'] + s) == text::number(s),
        text::all_digits(seq!['0'] + s),
    decreases s.len(),
{
    let padded = seq!['0'] + s;
    assert forall|i: int| 0 <= i < padded.len() implies text::is_digit(#[trigger] padded[i]) by {
        if i > 0 {
            assert(padded[i] == s[i - 1]);
        }
    }
    if s.len() == 0 {
        assert(padded.drop_last() =~= Seq::<char>::empty());
        assert(text::number(Seq::<char>::empty()) == 0);
    } else {
        lemma_leading_zero(s.drop_last());
        assert(padded.drop_last() =~= seq!['0'] + s.drop_last());
        assert(padded.last() == s.last());
    }
}

/// Three-digit numbers read back, and have at least three digits.
pub proof fn lemma_decimal3_reads_back(n: nat)
    ensures
        text::decimal3(n).len() >= 3,
        text::all_digits(text::decimal3(n)),
        text::number(text::decimal3(n)) == n,
{
    lemma_decimal_reads_back(n);
    if n < 10 {
        lemma_leading_zero(text::decimal(n));
        lemma_leading_zero(seq!['0'] + text::decimal(n));
        assert(seq!['0', '0'] + text::decimal(n) =~= seq!['0'] + (seq!['0'] + text::decimal(n)));
    } else if n < 100 {
        lemma_leading_zero(text::decimal(n));
        lemma_decimal_reads_back(n / 10);
    } else {
        lemma_decimal_reads_back(n / 10);
        lemma_decimal_reads_back(n / 10 / 10);
    }
}

/// A volume's name splits back into the archive and the volume's number, and
/// into no other.
pub proof fn law_volume_names_split_back(base: Seq<char>, index: u32)
    requires
        index > 0,
    ensures
        names_volume(volume_name(Some(base), index as nat), base, index),
        forall|other: Seq<char>, number: u32|
            names_volume(volume_name(Some(base), index as nat), other, number) ==> other == base
                && number == index,
{
    let digits = text::decimal3(index as nat);
    let name = volume_name(Some(base), index as nat);
    lemma_decimal3_reads_back(index as nat);
    let at = base.len() as int;
    assert(name[at] == '.');
    assert forall|k: int| at < k < name.len() implies name[k] != '.' by {
        assert(name[k] == digits[k - at - 1]);
        assert(text::is_digit(digits[k - at - 1]));
    }
    assert(text::is_last_place(name, '.', at));
    assert(name.subrange(0, at) =~= base);
    assert(behind_last_dot(name, at) =~= digits);
    assert forall|other: Seq<char>, number: u32| names_volume(
        name,
        other,
        number,
    ) implies other == base && number == index by {
        let place = choose|place: int|
            #![trigger name.subrange(0, place)]
            {
                &&& text::is_last_place(name, '.', place)
                &&& other == before_last_dot(name, place)
                &&& behind_last_dot(name, place).len() >= 3
                &&& text::u32_value(behind_last_dot(name, place)) == Some(number)
                &&& number > 0
            };
        assert(place == at) by {
            if place < at {
                assert(name[at] == '.');
            }
            if at < place {
                assert(name[place] == '.');
            }
        }
    }
}

/// Different volumes of an archive have different names.
pub proof fn law_volume_names_differ(base: Option<Seq<char>>, a: u32, b: u32)
    requires
        a > 0,
        b > 0,
        a != b,
    ensures
        volume_name(base, a as nat) != volume_name(base, b as nat),
{
    let name = name_or_default(base);
    law_volume_names_split_back(name, a);
    law_volume_names_split_back(name, b);
    assert(volume_name(base, a as nat) == volume_name(Some(name), a as nat));
    assert(volume_name(base, b as nat) == volume_name(Some(name), b as nat));
}

/// The extension of a name is what stands behind its last dot. A name without
/// a dot has none, nor has one whose only dot comes first.
pub proof fn law_extension_is_behind_the_last_dot(stem: Seq<char>, ending: Seq<char>)
    requires
        forall|k: int| 0 <= k < ending.len() ==> ending[k] != '.',
    ensures
        stem.len() > 0 ==> extension(stem + seq!['.'] + ending) == Some(ending),
        extension(seq!['.'] + ending) is None,
        extension(ending) is None,
{
    let name = stem + seq!['.'] + ending;
    let at = stem.len() as int;
    assert(name[at] == '.');
    assert forall|k: int| at < k < name.len() implies name[k] != '.' by {
        assert(name[k] == ending[k - at - 1]);
    }
    assert(text::is_last_place(name, '.', at));
    if stem.len() > 0 {
        let place = choose|place: int| 0 < place && text::is_last_place(name, '.', place);
        lemma_last_place_unique(name, '.', at, place);
        assert(behind_last_dot(name, at) =~= ending);
    }
    let hidden = seq!['.'] + ending;
    assert forall|place: int| !(0 < place && text::is_last_place(hidden, '.', place)) by {
        if 0 < place && text::is_last_place(hidden, '.', place) {
            assert(hidden[place] == ending[place - 1]);
        }
    }
    assert forall|place: int| !(0 < place && text::is_last_place(ending, '.', place)) by {
        if 0 < place && text::is_last_place(ending, '.', place) {
            assert(ending[place] == '.');
        }
    }
}

/// A volume has the name of its archive, a dot, and three digits up to 999.
pub proof fn law_volume_names_end_in_three_digits(base: Seq<char>, index: nat)
    requires
        index < 1000,
    ensures
        volume_name(Some(base), index).len() == base.len() + 4,
        volume_name(Some(base), index).take(base.len() as int) == base,
        volume_name(Some(base), index)[base.len() as int] == '.',
        text::number(volume_name(Some(base), index).skip(base.len() as int + 1)) == index,
        volume_name(None, index) == volume_name(Some("archive"@), index),
{
    let name = volume_name(Some(base), index);
    text::law_numbers_are_written_plainly(index);
    lemma_decimal3_reads_back(index);
    assert(name.take(base.len() as int) =~= base);
    assert(name.skip(base.len() as int + 1) =~= text::decimal3(index));
}

} // verus!
