//! Text helpers over sequences of characters.

use vstd::prelude::*;
use vstd::string::*;

verus! {

/// `String::push` appends one character at the end.
pub assume_specification[ String::push ](s: &mut String, c: char)
    ensures
        final(s)@ == old(s)@.push(c),
;

/// The characters of an optional string.
pub open spec fn option_text(s: Option<String>) -> Option<Seq<char>> {
    match s {
        Some(s) => Some(s@),
        None => None,
    }
}

/// The characters of an optional string slice.
pub open spec fn option_str(s: Option<&str>) -> Option<Seq<char>> {
    match s {
        Some(s) => Some(s@),
        None => None,
    }
}

/// The texts of strings.
pub open spec fn texts(strings: Seq<String>) -> Seq<Seq<char>> {
    Seq::new(strings.len(), |i: int| strings[i]@)
}

/// The characters of a string, as a vector.
pub fn chars_of(s: &str) -> (out: Vec<char>)
    ensures
        out@ == s@,
{
    let mut out: Vec<char> = Vec::new();
    for c in it: s.chars()
        invariant
            out@ == s@.take(it.index() as int),
            it.seq() == s@,
    {
        out.push(c);
        proof {
            assert(s@.take(it.index() as int + 1) =~= s@.take(it.index() as int).push(c));
        }
    }
    proof {
        assert(s@.take(s@.len() as int) =~= s@);
    }
    out
}

/// The string made of the given characters.
pub fn string_of(chars: &[char]) -> (out: String)
    ensures
        out@ == chars@,
{
    let mut out = String::new();
    let mut i: usize = 0;
    while i < chars.len()
        invariant
            i <= chars@.len(),
            out@ == chars@.take(i as int),
        decreases chars@.len() - i,
    {
        out.push(chars[i]);
        i += 1;
        proof {
            assert(chars@.take(i as int) =~= chars@.take(i - 1).push(chars@[i - 1]));
        }
    }
    proof {
        assert(chars@.take(i as int) =~= chars@);
    }
    out
}

/// Whether two strings hold the same characters.
pub fn same_text(a: &str, b: &str) -> (same: bool)
    ensures
        same == (a@ == b@),
{
    let left = a.to_owned();
    let right = b.to_owned();
    left == right
}

/// The two strings one after the other.
pub fn join(a: &str, b: &str) -> (out: String)
    ensures
        out@ == a@ + b@,
{
    let mut out = a.to_owned();
    out.append(b);
    out
}

/// The three strings one after the other.
pub fn join3(a: &str, b: &str, c: &str) -> (out: String)
    ensures
        out@ == a@ + b@ + c@,
{
    let mut out = a.to_owned();
    out.append(b);
    out.append(c);
    out
}

// ---------------------------------------------------------------------------
// ASCII case
// ---------------------------------------------------------------------------

/// The ASCII lower-case form of a character; other characters are unchanged.
pub open spec fn lower_char(c: char) -> char {
    if 'A' <= c && c <= 'Z' {
        (c as u32 + 32) as char
    } else {
        c
    }
}

/// The ASCII lower-case form of a text.
pub open spec fn lower(s: Seq<char>) -> Seq<char> {
    Seq::new(s.len(), |i: int| lower_char(s[i]))
}

/// Lower case changes the capital letters A to Z, each by the distance to its
/// small letter, and nothing else.
pub proof fn law_lower_case(s: Seq<char>)
    ensures
        lower(s).len() == s.len(),
        forall|i: int|
            0 <= i < s.len() && 'A' <= s[i] <= 'Z' ==> (#[trigger] lower(s)[i]) as u32 == s[i] as u32
                + 32,
        forall|i: int|
            0 <= i < s.len() && !('A' <= s[i] <= 'Z') ==> #[trigger] lower(s)[i] == s[i],
        lower(lower(s)) == lower(s),
{
    assert forall|i: int| 0 <= i < s.len() && 'A' <= s[i] <= 'Z' implies (#[trigger] lower(
        s,
    )[i]) as u32 == s[i] as u32 + 32 by {
        assert(s[i] as u32 <= 90);
    }
    assert(lower(lower(s)) =~= lower(s));
}

/// [`lower_char`], executable.
pub fn lower_char_of(c: char) -> (out: char)
    ensures
        out == lower_char(c),
{
    if 'A' <= c && c <= 'Z' {
        let code: u8 = c as u8;
        (code + 32) as char
    } else {
        c
    }
}

/// [`lower`] on a slice of characters.
pub fn lower_chars(s: &[char]) -> (out: Vec<char>)
    ensures
        out@ == lower(s@),
{
    let mut out: Vec<char> = Vec::new();
    let mut i: usize = 0;
    while i < s.len()
        invariant
            i <= s@.len(),
            out@.len() == i,
            forall|k: int| 0 <= k < i ==> out@[k] == lower_char(s@[k]),
        decreases s@.len() - i,
    {
        out.push(lower_char_of(s[i]));
        i += 1;
    }
    out
}

/// [`lower`] on a string.
pub fn lower_text(s: &str) -> (out: String)
    ensures
        out@ == lower(s@),
{
    let chars = chars_of(s);
    let lowered = lower_chars(&chars);
    string_of(&lowered)
}

/// Whether two strings are equal up to ASCII case.
pub fn same_ignoring_case(a: &str, b: &str) -> (same: bool)
    ensures
        same == (lower(a@) == lower(b@)),
{
    let left = lower_text(a);
    let right = lower_text(b);
    left == right
}

// ---------------------------------------------------------------------------
// Prefixes, suffixes and searching
// ---------------------------------------------------------------------------

/// What `str::to_lowercase` makes of a text.
pub uninterp spec fn unicode_lower(s: Seq<char>) -> Seq<char>;

/// `str::to_lowercase` turns every character into lower case by the rules of
/// Unicode. What becomes of which character is left unsaid.
#[verifier::external_body]
pub(crate) fn unicode_lower_text(s: &str) -> (out: String)
    ensures
        out@ == unicode_lower(s@),
{
    s.to_lowercase()
}

/// Whether `part` stands in `s` at `at`.
pub open spec fn occurs_at(s: Seq<char>, part: Seq<char>, at: int) -> bool {
    0 <= at && at + part.len() <= s.len() && s.subrange(at, at + part.len()) == part
}

/// Whether `part` stands in `s` at `at`.
pub fn matches_at(s: &[char], part: &[char], at: usize) -> (found: bool)
    ensures
        found == occurs_at(s@, part@, at as int),
{
    if at > s.len() || part.len() > s.len() - at {
        return false;
    }
    let size: usize = s.len();
    let mut i: usize = 0;
    while i < part.len()
        invariant
            i <= part@.len(),
            size == s@.len(),
            at + part@.len() <= size,
            forall|k: int| 0 <= k < i ==> s@[at + k] == part@[k],
        decreases part@.len() - i,
    {
        if s[at + i] != part[i] {
            proof {
                assert(s@.subrange(at as int, at + part@.len())[i as int] != part@[i as int]);
            }
            return false;
        }
        i += 1;
    }
    proof {
        assert(s@.subrange(at as int, at + part@.len()) =~= part@);
    }
    true
}

/// Whether the string starts with the prefix.
pub fn starts_with(s: &str, prefix: &str) -> (found: bool)
    ensures
        found == prefix@.is_prefix_of(s@),
{
    let text = chars_of(s);
    let part = chars_of(prefix);
    let found = matches_at(&text, &part, 0);
    found
}

/// Whether the string ends with the suffix.
pub fn ends_with(s: &str, suffix: &str) -> (found: bool)
    ensures
        found == suffix@.is_suffix_of(s@),
{
    let text = chars_of(s);
    let part = chars_of(suffix);
    if part.len() > text.len() {
        return false;
    }
    let at: usize = text.len() - part.len();
    let found = matches_at(&text, &part, at);
    proof {
        assert(at + part@.len() == text@.len());
    }
    found
}

/// The last place of `c` in `s`, if it occurs.
pub open spec fn is_last_place(s: Seq<char>, c: char, at: int) -> bool {
    0 <= at < s.len() && s[at] == c && forall|k: int| at < k < s.len() ==> s[k] != c
}

/// Finds the last place of `c` in `s`.
pub fn last_place(s: &[char], c: char) -> (at: Option<usize>)
    ensures
        match at {
            Some(at) => is_last_place(s@, c, at as int),
            None => !s@.contains(c),
        },
{
    let mut i: usize = s.len();
    while i > 0
        invariant
            i <= s@.len(),
            forall|k: int| i <= k < s@.len() ==> s@[k] != c,
        decreases i,
    {
        i -= 1;
        if s[i] == c {
            return Some(i);
        }
    }
    None
}

/// Whether `c` occurs in the string.
pub fn contains_char(s: &str, c: char) -> (found: bool)
    ensures
        found == s@.contains(c),
{
    let chars = chars_of(s);
    let found = last_place(&chars, c);
    match found {
        Some(at) => {
            proof {
                assert(s@[at as int] == c);
            }
            true
        },
        None => false,
    }
}

/// A text with one character put in place of another.
pub open spec fn with_char_replaced(s: Seq<char>, from: char, to: char) -> Seq<char> {
    Seq::new(s.len(), |i: int| if s[i] == from { to } else { s[i] })
}

/// [`with_char_replaced`], executable.
pub fn replace_char(s: &str, from: char, to: char) -> (out: String)
    ensures
        out@ == with_char_replaced(s@, from, to),
{
    let chars = chars_of(s);
    let mut out = String::new();
    let mut i: usize = 0;
    while i < chars.len()
        invariant
            i <= chars@.len(),
            chars@ == s@,
            out@ == with_char_replaced(s@, from, to).take(i as int),
        decreases chars@.len() - i,
    {
        let c: char = chars[i];
        if c == from {
            out.push(to);
        } else {
            out.push(c);
        }
        i += 1;
        proof {
            let whole = with_char_replaced(s@, from, to);
            assert(whole.take(i as int) =~= whole.take(i - 1).push(whole[i - 1]));
        }
    }
    proof {
        let whole = with_char_replaced(s@, from, to);
        assert(whole.take(i as int) =~= whole);
    }
    out
}

// ---------------------------------------------------------------------------
// Numbers
// ---------------------------------------------------------------------------

/// The character of a decimal digit.
pub open spec fn digit_char(d: int) -> char {
    (48 + d) as char
}

/// Whether the character is an ASCII decimal digit.
pub open spec fn is_digit(c: char) -> bool {
    '0' <= c && c <= '9'
}

/// Whether the character is an ASCII decimal digit.
pub fn is_digit_char(c: char) -> (yes: bool)
    ensures
        yes == is_digit(c),
{
    '0' <= c && c <= '9'
}

/// The decimal digits of a number, without leading zeros.
pub open spec fn decimal(n: nat) -> Seq<char>
    decreases n,
{
    if n < 10 {
        seq![digit_char(n as int)]
    } else {
        decimal(n / 10).push(digit_char((n % 10) as int))
    }
}

/// The value of a run of decimal digits.
pub open spec fn number(s: Seq<char>) -> nat
    decreases s.len(),
{
    if s.len() == 0 {
        0
    } else {
        (number(s.drop_last()) * 10 + (s.last() as u32 - 48)) as nat
    }
}

/// Whether every character is a decimal digit.
pub open spec fn all_digits(s: Seq<char>) -> bool {
    forall|i: int| 0 <= i < s.len() ==> is_digit(#[trigger] s[i])
}

/// [`decimal`], executable, for numbers of up to 128 bits.
pub fn wide_decimal_text(n: u128) -> (out: String)
    ensures
        out@ == decimal(n as nat),
    decreases n,
{
    if n < 10 {
        let mut out = String::new();
        let d: u8 = n as u8;
        out.push((48 + d) as char);
        proof {
            assert(out@ =~= seq![digit_char(n as int)]);
        }
        out
    } else {
        let mut out = wide_decimal_text(n / 10);
        let d: u8 = (n % 10) as u8;
        out.push((48 + d) as char);
        out
    }
}

/// [`decimal`], executable.
pub fn decimal_text(n: u64) -> (out: String)
    ensures
        out@ == decimal(n as nat),
{
    wide_decimal_text(n as u128)
}

/// A whole number as decimal digits, with a sign where it is negative.
pub open spec fn signed_decimal(n: int) -> Seq<char> {
    if n < 0 {
        seq!['-'] + decimal((-n) as nat)
    } else {
        decimal(n as nat)
    }
}

/// [`signed_decimal`], executable.
pub fn signed_decimal_text(n: i64) -> (out: String)
    ensures
        out@ == signed_decimal(n as int),
{
    if n < 0 {
        let size: i128 = -(n as i128);
        let mut out = String::new();
        out.push('-');
        out.append(wide_decimal_text(size as u128).as_str());
        proof {
            assert(out@ =~= signed_decimal(n as int));
        }
        out
    } else {
        decimal_text(n as u64)
    }
}

/// A number as decimal digits, with leading zeros up to three digits.
pub open spec fn decimal3(n: nat) -> Seq<char> {
    if n < 10 {
        seq!['0', '0'] + decimal(n)
    } else if n < 100 {
        seq!['0'] + decimal(n)
    } else {
        decimal(n)
    }
}

/// [`decimal3`], executable.
pub fn decimal3_text(n: u64) -> (out: String)
    ensures
        out@ == decimal3(n as nat),
{
    let mut out = String::new();
    if n < 10 {
        out.push('0');
        out.push('0');
    } else if n < 100 {
        out.push('0');
    }
    let digits = decimal_text(n);
    out.append(digits.as_str());
    proof {
        assert(out@ =~= decimal3(n as nat));
    }
    out
}

/// The value of a text of decimal digits that fits in 32 bits.
pub open spec fn u32_value(s: Seq<char>) -> Option<u32> {
    if s.len() > 0 && all_digits(s) && number(s) <= u32::MAX {
        Some(number(s) as u32)
    } else {
        None
    }
}

/// The value of a text of decimal digits that fits in 64 bits.
pub open spec fn u64_value(s: Seq<char>) -> Option<u64> {
    if s.len() > 0 && all_digits(s) && number(s) <= u64::MAX {
        Some(number(s) as u64)
    } else {
        None
    }
}

/// A number only grows when more digits follow.
pub proof fn lemma_number_monotonic(s: Seq<char>, i: int)
    requires
        0 <= i <= s.len(),
        all_digits(s),
    ensures
        number(s.take(i)) <= number(s),
    decreases s.len() - i,
{
    if i < s.len() {
        lemma_number_monotonic(s, i + 1);
        assert(s.take(i + 1).drop_last() =~= s.take(i));
        assert(s.take(i + 1).last() == s[i]);
        assert(is_digit(s[i]));
    } else {
        assert(s.take(i) =~= s);
    }
}

/// Reads a text of decimal digits as a 64-bit number.
pub fn parse_u64_digits(s: &[char]) -> (value: Option<u64>)
    ensures
        value == u64_value(s@),
{
    if s.len() == 0 {
        return None;
    }
    let mut i: usize = 0;
    while i < s.len()
        invariant
            i <= s@.len(),
            forall|k: int| 0 <= k < i ==> is_digit(#[trigger] s@[k]),
        decreases s@.len() - i,
    {
        if !is_digit_char(s[i]) {
            return None;
        }
        i += 1;
    }
    let mut total: u64 = 0;
    let mut i: usize = 0;
    proof {
        assert(s@.take(0) =~= Seq::<char>::empty());
    }
    while i < s.len()
        invariant
            i <= s@.len(),
            s@.len() > 0,
            all_digits(s@),
            total as nat == number(s@.take(i as int)),
        decreases s@.len() - i,
    {
        let d: u32 = s[i] as u32 - 48;
        let wide: u128 = (total as u128) * 10 + (d as u128);
        i += 1;
        proof {
            assert(s@.take(i as int).drop_last() =~= s@.take(i - 1));
            assert(s@.take(i as int).last() == s@[i - 1]);
            assert(wide as nat == number(s@.take(i as int)));
            lemma_number_monotonic(s@, i as int);
        }
        if wide > u64::MAX as u128 {
            return None;
        }
        total = wide as u64;
    }
    proof {
        assert(s@.take(i as int) =~= s@);
    }
    Some(total)
}

/// Reads a text of decimal digits as a 32-bit number.
pub fn parse_u32_digits(s: &[char]) -> (value: Option<u32>)
    ensures
        value == u32_value(s@),
{
    match parse_u64_digits(s) {
        Some(n) => {
            if n <= u32::MAX as u64 {
                Some(n as u32)
            } else {
                None
            }
        },
        None => None,
    }
}

/// The number in a text: digits, with a plus sign or without, that fits in 32
/// bits.
pub open spec fn natural_number(s: Seq<char>) -> Option<u32> {
    if s.len() > 0 && s[0] == '+' {
        u32_value(s.skip(1))
    } else {
        u32_value(s)
    }
}

/// [`natural_number`], executable.
pub fn parse_natural(s: &str) -> (value: Option<u32>)
    ensures
        value == natural_number(s@),
{
    let chars = chars_of(s);
    let size: usize = chars.len();
    if size > 0 && chars[0] == '+' {
        let digits = vstd::slice::slice_subrange(&chars, 1, size);
        proof {
            assert(digits@ =~= s@.skip(1));
        }
        parse_u32_digits(digits)
    } else {
        parse_u32_digits(chars.as_slice())
    }
}

/// A digit more makes ten times the number and the digit.
pub proof fn law_digits_count_in_tens(s: Seq<char>, c: char)
    requires
        all_digits(s),
        '0' <= c <= '9',
    ensures
        number(Seq::empty()) == 0,
        number(s.push(c)) == 10 * number(s) + (c as u32 - 48),
        all_digits(s.push(c)),
{
    assert(s.push(c).drop_last() =~= s);
}

/// Numbers are written without leading zeros; a number under a thousand has
/// three digits where zeros are added.
pub proof fn law_numbers_are_written_plainly(n: nat)
    ensures
        n > 0 ==> decimal(n)[0] != '0',
        n < 10 ==> decimal(n).len() == 1,
        n < 1000 ==> decimal3(n).len() == 3,
        n >= 100 ==> decimal3(n) == decimal(n),
        decimal(n).len() > 0,
        n >= 10 ==> decimal(n).len() == decimal(n / 10).len() + 1,
    decreases n,
{
    if n >= 10 {
        law_numbers_are_written_plainly(n / 10);
        assert(decimal(n)[0] == decimal(n / 10)[0]);
    }
}

/// A number is read where the text is digits, with a plus sign or without,
/// and the number fits; any other character makes it none.
pub proof fn law_texts_that_are_numbers(s: Seq<char>, i: int)
    ensures
        s.len() == 0 ==> natural_number(s) is None && u64_value(s) is None,
        0 <= i < s.len() && !('0' <= s[i] <= '9') ==> u32_value(s) is None && u64_value(s) is None,
        0 < i < s.len() && !('0' <= s[i] <= '9') ==> natural_number(s) is None,
        s.len() > 0 && all_digits(s) && number(s) <= 0xFFFF_FFFF ==> natural_number(s) is Some
            && natural_number(s)->0 == number(s) && natural_number(seq!['+'] + s)
            == natural_number(s),
        s.len() > 0 && all_digits(s) && number(s) > 0xFFFF_FFFF ==> natural_number(s) is None,
{
    if 0 <= i < s.len() && !('0' <= s[i] <= '9') {
        assert(!is_digit(s[i]));
        if i > 0 && s[0] == '+' {
            assert(s.skip(1)[i - 1] == s[i]);
        }
    }
    if s.len() > 0 && all_digits(s) {
        assert(is_digit(s[0]));
        assert((seq!['+'] + s).skip(1) =~= s);
    }
}

// ---------------------------------------------------------------------------
// UTF-16
// ---------------------------------------------------------------------------

/// The UTF-16 code units of one character.
pub open spec fn utf16_of_char(c: char) -> Seq<u16> {
    if (c as u32) < 0x1_0000 {
        seq![(c as u32) as u16]
    } else {
        seq![
            (0xD800 + (c as u32 - 0x1_0000) / 0x400) as u16,
            (0xDC00 + (c as u32 - 0x1_0000) % 0x400) as u16,
        ]
    }
}

/// The UTF-16 code units of a text.
pub open spec fn utf16(s: Seq<char>) -> Seq<u16>
    decreases s.len(),
{
    if s.len() == 0 {
        Seq::empty()
    } else {
        utf16(s.drop_last()) + utf16_of_char(s.last())
    }
}

/// The code point of a character.
fn code_of(c: char) -> (code: u32)
    ensures
        code == c as u32,
        code <= 0x10_FFFF,
{
    c as u32
}

/// [`utf16`], executable.
pub fn utf16_units(s: &str) -> (out: Vec<u16>)
    ensures
        out@ == utf16(s@),
{
    let chars = chars_of(s);
    let mut out: Vec<u16> = Vec::new();
    let mut i: usize = 0;
    proof {
        assert(s@.take(0) =~= Seq::<char>::empty());
    }
    while i < chars.len()
        invariant
            i <= chars@.len(),
            chars@ == s@,
            out@ == utf16(s@.take(i as int)),
        decreases chars@.len() - i,
    {
        let code: u32 = code_of(chars[i]);
        if code < 0x1_0000 {
            out.push(code as u16);
        } else {
            let high: u32 = 0xD800 + (code - 0x1_0000) / 0x400;
            let low: u32 = 0xDC00 + (code - 0x1_0000) % 0x400;
            out.push(high as u16);
            out.push(low as u16);
        }
        i += 1;
        proof {
            assert(s@.take(i as int).drop_last() =~= s@.take(i - 1));
            assert(s@.take(i as int).last() == s@[i - 1]);
            assert(out@ =~= utf16(s@.take(i - 1)) + utf16_of_char(s@[i - 1]));
        }
    }
    proof {
        assert(s@.take(i as int) =~= s@);
    }
    out
}

/// The bytes of 16-bit units, low byte first.
pub open spec fn little_endian(units: Seq<u16>) -> Seq<u8> {
    Seq::new(
        2 * units.len(),
        |i: int|
            if i % 2 == 0 {
                (units[i / 2] % 256) as u8
            } else {
                (units[i / 2] / 256) as u8
            },
    )
}

/// A text as zero-terminated UTF-16 bytes, low byte first.
pub open spec fn terminated_utf16(s: Seq<char>) -> Seq<u8> {
    little_endian(utf16(s).push(0))
}

/// Encodes a text as zero-terminated UTF-16 bytes, low byte first.
pub fn utf16_bytes(value: &str) -> (out: Vec<u8>)
    ensures
        out@ == terminated_utf16(value@),
{
    let mut units = utf16_units(value);
    units.push(0);
    let mut out: Vec<u8> = Vec::new();
    let mut i: usize = 0;
    while i < units.len()
        invariant
            i <= units@.len(),
            out@.len() == 2 * i,
            forall|k: int| 0 <= k < 2 * i ==> out@[k] == little_endian(units@)[k],
        decreases units@.len() - i,
    {
        let unit: u16 = units[i];
        out.push((unit % 256) as u8);
        out.push((unit / 256) as u8);
        i += 1;
    }
    proof {
        assert(out@ =~= little_endian(units@));
    }
    out
}

/// Registry text always ends with a zero unit and holds whole units.
pub proof fn law_registry_text_is_terminated(s: Seq<char>)
    ensures
        terminated_utf16(s).len() % 2 == 0,
        terminated_utf16(s).len() >= 2,
        terminated_utf16(s)[terminated_utf16(s).len() - 2] == 0,
        terminated_utf16(s)[terminated_utf16(s).len() - 1] == 0,
{
    let units = utf16(s).push(0);
    let bytes = terminated_utf16(s);
    assert((bytes.len() - 2) / 2 == units.len() - 1);
    assert((bytes.len() - 1) / 2 == units.len() - 1);
}

// ---------------------------------------------------------------------------
// Trimming
// ---------------------------------------------------------------------------

/// Whether a character is white space, as Unicode defines it.
pub open spec fn is_space(c: char) -> bool {
    let code = c as u32;
    ||| 0x09 <= code <= 0x0D
    ||| code == 0x20
    ||| code == 0x85
    ||| code == 0xA0
    ||| code == 0x1680
    ||| 0x2000 <= code <= 0x200A
    ||| code == 0x2028
    ||| code == 0x2029
    ||| code == 0x202F
    ||| code == 0x205F
    ||| code == 0x3000
}

/// [`is_space`], executable.
pub fn is_space_char(c: char) -> (yes: bool)
    ensures
        yes == is_space(c),
{
    let code: u32 = c as u32;
    (0x09 <= code && code <= 0x0D) || code == 0x20 || code == 0x85 || code == 0xA0 || code == 0x1680
        || (0x2000 <= code && code <= 0x200A) || code == 0x2028 || code == 0x2029 || code == 0x202F
        || code == 0x205F || code == 0x3000
}

/// A text without white space at its start.
pub open spec fn trimmed_start(s: Seq<char>) -> Seq<char>
    decreases s.len(),
{
    if s.len() > 0 && is_space(s[0]) {
        trimmed_start(s.drop_first())
    } else {
        s
    }
}

/// A text without white space at its end.
pub open spec fn trimmed_end(s: Seq<char>) -> Seq<char>
    decreases s.len(),
{
    if s.len() > 0 && is_space(s.last()) {
        trimmed_end(s.drop_last())
    } else {
        s
    }
}

/// A text without white space around it.
pub open spec fn trimmed(s: Seq<char>) -> Seq<char> {
    trimmed_end(trimmed_start(s))
}

/// A text without a character at its start.
pub open spec fn without_leading(s: Seq<char>, around: char) -> Seq<char>
    decreases s.len(),
{
    if s.len() > 0 && s[0] == around {
        without_leading(s.drop_first(), around)
    } else {
        s
    }
}

/// A text without a character at its end.
pub open spec fn without_trailing(s: Seq<char>, around: char) -> Seq<char>
    decreases s.len(),
{
    if s.len() > 0 && s.last() == around {
        without_trailing(s.drop_last(), around)
    } else {
        s
    }
}

/// A text without a character around it.
pub open spec fn without_around(s: Seq<char>, around: char) -> Seq<char> {
    without_trailing(without_leading(s, around), around)
}

/// Blanks, tabs and line ends are white space; letters, digits and signs are
/// not.
pub proof fn law_white_space(c: char)
    ensures
        c == ' ' || c == '\t' || c == '\n' || c == '\r' ==> is_space(c),
        0x21 <= c as u32 <= 0x7E ==> !is_space(c),
{
}

/// Whether a part of a text is what is left of it without white space.
pub open spec fn is_trimmed_part(s: Seq<char>, a: int, b: int) -> bool {
    &&& 0 <= a <= b <= s.len()
    &&& forall|k: int| 0 <= k < a ==> is_space(#[trigger] s[k])
    &&& forall|k: int| b <= k < s.len() ==> is_space(#[trigger] s[k])
}

/// Trimming takes white space off both ends, all of it, and nothing else.
pub proof fn law_trimming_takes_white_space_off(s: Seq<char>)
    ensures
        trimmed(s).len() > 0 ==> !is_space(trimmed(s)[0]) && !is_space(trimmed(s).last()),
        exists|a: int, b: int| #[trigger]
            is_trimmed_part(s, a, b) && trimmed(s) == s.subrange(a, b),
        s.len() > 0 && !is_space(s[0]) && !is_space(s.last()) ==> trimmed(s) == s,
{
    lemma_trimmed_start(s);
    let rest = trimmed_start(s);
    let a = s.len() - rest.len();
    lemma_trimmed_end(rest);
    let b = a + trimmed_end(rest).len();
    assert forall|k: int| b <= k < s.len() implies is_space(#[trigger] s[k]) by {
        assert(rest[k - a] == s[k]);
    }
    assert(is_trimmed_part(s, a, b));
    assert(trimmed(s) =~= s.subrange(a, b));
}

/// What is taken off the start is white space.
proof fn lemma_trimmed_start(s: Seq<char>)
    ensures
        trimmed_start(s).len() <= s.len(),
        trimmed_start(s) == s.skip(s.len() - trimmed_start(s).len()),
        forall|k: int| 0 <= k < s.len() - trimmed_start(s).len() ==> is_space(#[trigger] s[k]),
        trimmed_start(s).len() > 0 ==> !is_space(trimmed_start(s)[0]),
    decreases s.len(),
{
    if s.len() > 0 && is_space(s[0]) {
        let rest = s.drop_first();
        lemma_trimmed_start(rest);
        assert(trimmed_start(s) =~= s.skip(s.len() - trimmed_start(s).len()));
        assert forall|k: int| 0 <= k < s.len() - trimmed_start(s).len() implies is_space(
            #[trigger] s[k],
        ) by {
            if k > 0 {
                assert(rest[k - 1] == s[k]);
            }
        }
    } else {
        assert(s.skip(0) =~= s);
    }
}

/// What is taken off the end is white space.
proof fn lemma_trimmed_end(s: Seq<char>)
    ensures
        trimmed_end(s).len() <= s.len(),
        trimmed_end(s) == s.take(trimmed_end(s).len() as int),
        forall|k: int| trimmed_end(s).len() <= k < s.len() ==> is_space(#[trigger] s[k]),
        trimmed_end(s).len() > 0 ==> !is_space(trimmed_end(s).last()),
    decreases s.len(),
{
    if s.len() > 0 && is_space(s.last()) {
        let rest = s.drop_last();
        lemma_trimmed_end(rest);
        assert(trimmed_end(s) =~= s.take(trimmed_end(s).len() as int));
        assert forall|k: int| trimmed_end(s).len() <= k < s.len() implies is_space(
            #[trigger] s[k],
        ) by {
            if k < s.len() - 1 {
                assert(rest[k] == s[k]);
            }
        }
    } else {
        assert(s.take(s.len() as int) =~= s);
    }
}

/// A character around a text is taken off; a text without it stays.
pub proof fn law_taking_a_character_off(s: Seq<char>, c: char)
    ensures
        s.len() > 0 && s[0] != c && s.last() != c ==> without_around(s, c) == s
            && without_around(seq![c] + s + seq![c], c) == s,
        s.len() == 0 || s[0] != c ==> without_leading(s, c) == s && without_leading(
            seq![c] + s,
            c,
        ) == s,
{
    let front = seq![c] + s;
    assert(front.drop_first() =~= s);
    reveal_with_fuel(without_leading, 2);
    if s.len() > 0 && s[0] != c && s.last() != c {
        let both = seq![c] + s + seq![c];
        assert(both[0] == c);
        assert(both.drop_first() =~= s + seq![c]);
        assert((s + seq![c])[0] == s[0]);
        assert(without_leading(both, c) == s + seq![c]);
        reveal_with_fuel(without_trailing, 2);
        assert((s + seq![c]).last() == c);
        assert((s + seq![c]).drop_last() =~= s);
    }
}

/// [`trimmed`], executable.
pub fn trim(s: &[char]) -> (out: Vec<char>)
    ensures
        out@ == trimmed(s@),
{
    let size: usize = s.len();
    let mut start: usize = 0;
    proof {
        assert(s@.skip(0) =~= s@);
    }
    while start < size && is_space_char(s[start])
        invariant
            start <= size,
            size == s@.len(),
            trimmed_start(s@) == trimmed_start(s@.skip(start as int)),
        decreases size - start,
    {
        proof {
            assert(s@.skip(start as int)[0] == s@[start as int]);
            assert(s@.skip(start as int).drop_first() =~= s@.skip(start + 1));
        }
        start += 1;
    }
    let ghost rest = s@.skip(start as int);
    proof {
        if start < size {
            assert(rest[0] == s@[start as int]);
        }
        assert(trimmed_start(s@) == rest);
        assert(s@.subrange(start as int, size as int) =~= rest);
    }
    let mut end: usize = size;
    while end > start && is_space_char(s[end - 1])
        invariant
            start <= end <= size,
            size == s@.len(),
            trimmed_end(rest) == trimmed_end(s@.subrange(start as int, end as int)),
        decreases end,
    {
        proof {
            let now = s@.subrange(start as int, end as int);
            assert(now.last() == s@[end - 1]);
            assert(now.drop_last() =~= s@.subrange(start as int, end - 1));
        }
        end -= 1;
    }
    proof {
        let now = s@.subrange(start as int, end as int);
        if end > start {
            assert(now.last() == s@[end - 1]);
        }
    }
    copy_chars(s, start, end)
}

/// [`without_around`], executable.
pub fn trim_char(s: &[char], around: char) -> (out: Vec<char>)
    ensures
        out@ == without_around(s@, around),
{
    let size: usize = s.len();
    let mut start: usize = 0;
    proof {
        assert(s@.skip(0) =~= s@);
    }
    while start < size && s[start] == around
        invariant
            start <= size,
            size == s@.len(),
            without_leading(s@, around) == without_leading(s@.skip(start as int), around),
        decreases size - start,
    {
        proof {
            assert(s@.skip(start as int)[0] == s@[start as int]);
            assert(s@.skip(start as int).drop_first() =~= s@.skip(start + 1));
        }
        start += 1;
    }
    let ghost rest = s@.skip(start as int);
    proof {
        if start < size {
            assert(rest[0] == s@[start as int]);
        }
        assert(without_leading(s@, around) == rest);
        assert(s@.subrange(start as int, size as int) =~= rest);
    }
    let mut end: usize = size;
    while end > start && s[end - 1] == around
        invariant
            start <= end <= size,
            size == s@.len(),
            without_trailing(rest, around) == without_trailing(s@.subrange(start as int, end as int), around),
        decreases end,
    {
        proof {
            let now = s@.subrange(start as int, end as int);
            assert(now.last() == s@[end - 1]);
            assert(now.drop_last() =~= s@.subrange(start as int, end - 1));
        }
        end -= 1;
    }
    proof {
        let now = s@.subrange(start as int, end as int);
        if end > start {
            assert(now.last() == s@[end - 1]);
        }
    }
    copy_chars(s, start, end)
}

/// A part of a list of characters.
pub fn copy_chars(s: &[char], start: usize, end: usize) -> (out: Vec<char>)
    requires
        start <= end <= s@.len(),
    ensures
        out@ == s@.subrange(start as int, end as int),
{
    let mut out: Vec<char> = Vec::new();
    let mut i: usize = start;
    while i < end
        invariant
            start <= i <= end <= s@.len(),
            out@ == s@.subrange(start as int, i as int),
        decreases end - i,
    {
        out.push(s[i]);
        proof {
            assert(s@.subrange(start as int, i + 1) =~= s@.subrange(start as int, i as int).push(
                s@[i as int],
            ));
        }
        i += 1;
    }
    out
}

/// Digits are read as their number in either width, as long as it fits.
pub proof fn law_digits_are_read_in_both_widths(s: Seq<char>)
    requires
        s.len() > 0,
        forall|k: int| 0 <= k < s.len() ==> '0' <= #[trigger] s[k] <= '9',
    ensures
        number(s) < 0x1_0000_0000 ==> u32_value(s) is Some && u32_value(s)->0 == number(s),
        number(s) >= 0x1_0000_0000 ==> u32_value(s) is None,
        number(s) < 0x1_0000_0000_0000_0000 ==> u64_value(s) is Some && u64_value(s)->0 == number(
            s,
        ),
        number(s) >= 0x1_0000_0000_0000_0000 ==> u64_value(s) is None,
{
    assert forall|k: int| 0 <= k < s.len() implies is_digit(#[trigger] s[k]) by {
    }
}

} // verus!
