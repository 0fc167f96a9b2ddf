//! Values shared with the native 7-Zip library: result codes, property
//! identifiers, class identifiers, variants and file times.

use vstd::prelude::*;
use vstd::string::*;
use crate::text;

verus! {

// Result codes.
pub const S_OK: i32 = 0;
pub const S_FALSE: i32 = 1;
pub const E_NOINTERFACE: i32 = -0x7FFF_BFFE;
pub const E_POINTER: i32 = -0x7FFF_BFFD;
pub const E_ABORT: i32 = -0x7FFF_BFFC;
pub const E_FAIL: i32 = -0x7FFF_BFFB;
pub const E_INVALIDARG: i32 = -0x7FF8_FFA9;

// Property identifiers.
pub const KPID_PATH: u32 = 3;
pub const KPID_NAME: u32 = 4;
pub const KPID_IS_DIR: u32 = 6;
pub const KPID_SIZE: u32 = 7;
pub const KPID_PACK_SIZE: u32 = 8;
pub const KPID_MTIME: u32 = 12;
pub const KPID_ENCRYPTED: u32 = 15;

// Extraction modes.
pub const EXTRACT_MODE_EXTRACT: i32 = 0;
pub const EXTRACT_MODE_TEST: i32 = 1;
pub const EXTRACT_MODE_SKIP: i32 = 2;

// Results of one entry.
pub const OPERATION_RESULT_OK: i32 = 0;
pub const OPERATION_RESULT_UNSUPPORTED_METHOD: i32 = 1;
pub const OPERATION_RESULT_DATA_ERROR: i32 = 2;
pub const OPERATION_RESULT_CRC_ERROR: i32 = 3;

// Seek origins.
pub const SEEK_SET: u32 = 0;
pub const SEEK_CUR: u32 = 1;
pub const SEEK_END: u32 = 2;

/// The longest path, in UTF-16 units, that is taken from the library.
pub const MAX_ARCHIVE_PATH_UNITS: usize = 0x10_0000;

/// The seconds from the file time epoch, 1601, to the Unix epoch, 1970.
pub const FILETIME_EPOCH_SECONDS: i64 = 11_644_473_600;

// ---------------------------------------------------------------------------
// Identifiers
// ---------------------------------------------------------------------------

/// A class or interface identifier.
#[derive(Debug, Clone, Copy, PartialEq, Eq)]
pub struct Guid {
    pub data1: u32,
    pub data2: u16,
    pub data3: u16,
    pub data4: (u8, u8, u8, u8, u8, u8, u8, u8),
}

/// An identifier from its parts.
pub fn guid(
    data1: u32,
    data2: u16,
    data3: u16,
    b1: u8,
    b2: u8,
    b3: u8,
    b4: u8,
    b5: u8,
    b6: u8,
    b7: u8,
    b8: u8,
) -> (id: Guid)
    ensures
        id == (Guid { data1, data2, data3, data4: (b1, b2, b3, b4, b5, b6, b7, b8) }),
{
    Guid { data1, data2, data3, data4: (b1, b2, b3, b4, b5, b6, b7, b8) }
}

/// The identifier of a format handler, by its number.
pub open spec fn handler_clsid(format: u8) -> Guid {
    Guid {
        data1: 0x2317_0F69,
        data2: 0x40C1,
        data3: 0x278A,
        data4: (0x10, 0, 0, 0x01, 0x10, format, 0, 0),
    }
}

/// [`handler_clsid`], executable.
pub fn handler_class_id(format: u8) -> (id: Guid)
    ensures
        id == handler_clsid(format),
{
    guid(0x2317_0F69, 0x40C1, 0x278A, 0x10, 0, 0, 0x01, 0x10, format, 0, 0)
}

/// The hexadecimal digit of a number.
pub open spec fn hex_char(d: int) -> char {
    if d < 10 {
        (48 + d) as char
    } else {
        (55 + d) as char
    }
}

/// The last `width` upper-case hexadecimal digits of a number.
pub open spec fn hex(n: nat, width: nat) -> Seq<char>
    decreases width,
{
    if width == 0 {
        Seq::empty()
    } else {
        hex(n / 16, (width - 1) as nat).push(hex_char((n % 16) as int))
    }
}

/// [`hex`], executable.
fn hex_text(n: u32, width: u32) -> (out: String)
    ensures
        out@ == hex(n as nat, width as nat),
    decreases width,
{
    if width == 0 {
        return String::new();
    }
    let mut out = hex_text(n / 16, width - 1);
    let d: u8 = (n % 16) as u8;
    if d < 10 {
        out.push((48 + d) as char);
    } else {
        out.push((55 + d) as char);
    }
    out
}

/// The text of an identifier: braces, and its parts with hyphens between.
pub open spec fn guid_text(id: Guid) -> Seq<char> {
    let d = id.data4;
    seq!['{'] + hex(id.data1 as nat, 8) + seq!['-'] + hex(id.data2 as nat, 4) + seq!['-'] + hex(
        id.data3 as nat,
        4,
    ) + seq!['-'] + hex(d.0 as nat, 2) + hex(d.1 as nat, 2) + seq!['-'] + hex(d.2 as nat, 2) + hex(
        d.3 as nat,
        2,
    ) + hex(d.4 as nat, 2) + hex(d.5 as nat, 2) + hex(d.6 as nat, 2) + hex(d.7 as nat, 2)
        + seq!['}']
}

/// [`guid_text`], executable.
pub fn guid_string_for(id: Guid) -> (out: String)
    ensures
        out@ == guid_text(id),
{
    let mut out = String::new();
    out.push('{');
    out.append(hex_text(id.data1, 8).as_str());
    out.push('-');
    out.append(hex_text(id.data2 as u32, 4).as_str());
    out.push('-');
    out.append(hex_text(id.data3 as u32, 4).as_str());
    out.push('-');
    out.append(hex_text(id.data4.0 as u32, 2).as_str());
    out.append(hex_text(id.data4.1 as u32, 2).as_str());
    out.push('-');
    out.append(hex_text(id.data4.2 as u32, 2).as_str());
    out.append(hex_text(id.data4.3 as u32, 2).as_str());
    out.append(hex_text(id.data4.4 as u32, 2).as_str());
    out.append(hex_text(id.data4.5 as u32, 2).as_str());
    out.append(hex_text(id.data4.6 as u32, 2).as_str());
    out.append(hex_text(id.data4.7 as u32, 2).as_str());
    out.push('}');
    proof {
        assert(out@ =~= guid_text(id));
    }
    out
}

/// A result code as errors show it: `0x` and eight lower-case digits.
pub open spec fn code_text(code: i32) -> Seq<char> {
    "0x"@ + text::lower(hex(code_bits(code) as nat, 8))
}

/// A result code as an unsigned number.
pub open spec fn code_bits(code: i32) -> u32 {
    if code >= 0 {
        code as u32
    } else {
        (code + 0x1_0000_0000) as u32
    }
}

/// [`code_text`], executable.
pub fn code_string(code: i32) -> (out: String)
    ensures
        out@ == code_text(code),
{
    let wide: i64 = if code >= 0 { code as i64 } else { (code as i64) + 0x1_0000_0000 };
    let digits = hex_text(wide as u32, 8);
    let lowered = text::lower_text(digits.as_str());
    text::join("0x", lowered.as_str())
}

// ---------------------------------------------------------------------------
// File times
// ---------------------------------------------------------------------------

/// A number cut to the range of 64-bit signed numbers.
pub open spec fn clamped(n: int) -> int {
    if n < i64::MIN {
        i64::MIN as int
    } else if n > i64::MAX {
        i64::MAX as int
    } else {
        n
    }
}

/// The file time of a Unix time, in units of 100 nanoseconds. Steps that
/// leave the range of 64-bit signed numbers stop at its ends, and a negative
/// result counts from the end of the unsigned range.
pub open spec fn filetime_of(seconds: i64) -> u64 {
    let ticks = clamped(clamped(seconds + FILETIME_EPOCH_SECONDS) * 10_000_000);
    if ticks >= 0 {
        ticks as u64
    } else {
        (ticks + 0x1_0000_0000_0000_0000) as u64
    }
}

/// [`filetime_of`], executable.
pub fn unix_seconds_to_filetime(seconds: i64) -> (value: u64)
    ensures
        value == filetime_of(seconds),
{
    let shifted: i64 = clamp(seconds as i128 + FILETIME_EPOCH_SECONDS as i128);
    let ticks: i64 = clamp((shifted as i128) * 10_000_000);
    if ticks >= 0 {
        ticks as u64
    } else {
        (ticks as i128 + 0x1_0000_0000_0000_0000) as u64
    }
}

/// [`clamped`], executable.
fn clamp(n: i128) -> (out: i64)
    ensures
        out == clamped(n as int),
{
    if n < i64::MIN as i128 {
        i64::MIN
    } else if n > i64::MAX as i128 {
        i64::MAX
    } else {
        n as i64
    }
}

/// The Unix time of a file time, in whole seconds.
pub fn filetime_to_unix_seconds(value: u64) -> (seconds: i64)
    ensures
        seconds == value as int / 10_000_000 - FILETIME_EPOCH_SECONDS,
{
    (value / 10_000_000) as i64 - FILETIME_EPOCH_SECONDS
}

/// A Unix time from 1601 on comes back from its file time as it was, as long
/// as the file time is a signed 64-bit number.
pub proof fn law_filetime_round_trip(seconds: i64)
    requires
        seconds >= -FILETIME_EPOCH_SECONDS,
        (seconds + FILETIME_EPOCH_SECONDS) * 10_000_000 <= i64::MAX,
    ensures
        filetime_of(seconds) as int / 10_000_000 - FILETIME_EPOCH_SECONDS == seconds,
{
}

// ---------------------------------------------------------------------------
// Variants
// ---------------------------------------------------------------------------

/// A property value. Text is held as UTF-16 units, as the library stores it.
#[derive(Debug)]
pub enum PropVariant {
    Empty,
    U32(u32),
    U64(u64),
    Bool(bool),
    Bstr(Vec<u16>),
    FileTime(u64),
    Other(u16),
}

/// A [`PropVariant`] over sequences.
pub enum PropView {
    Empty,
    U32(u32),
    U64(u64),
    Bool(bool),
    Bstr(Seq<u16>),
    FileTime(u64),
    Other(u16),
}

impl View for PropVariant {
    type V = PropView;

    open spec fn view(&self) -> PropView {
        match *self {
            PropVariant::Empty => PropView::Empty,
            PropVariant::U32(value) => PropView::U32(value),
            PropVariant::U64(value) => PropView::U64(value),
            PropVariant::Bool(value) => PropView::Bool(value),
            PropVariant::Bstr(units) => PropView::Bstr(units@),
            PropVariant::FileTime(value) => PropView::FileTime(value),
            PropVariant::Other(kind) => PropView::Other(kind),
        }
    }
}

/// Whether a unit is the first of a surrogate pair.
pub open spec fn is_high_surrogate(unit: u16) -> bool {
    0xD800 <= unit <= 0xDBFF
}

/// Whether a unit is the second of a surrogate pair.
pub open spec fn is_low_surrogate(unit: u16) -> bool {
    0xDC00 <= unit <= 0xDFFF
}

/// The text that some units encode: a surrogate pair is one character, a
/// surrogate without its other half becomes the replacement character, and any
/// other unit is the character of that number.
pub open spec fn lossy_utf16(units: Seq<u16>) -> Seq<char>
    decreases units.len(),
{
    if units.len() == 0 {
        Seq::empty()
    } else if is_high_surrogate(units[0]) && units.len() > 1 && is_low_surrogate(units[1]) {
        seq![(0x1_0000 + (units[0] - 0xD800) * 0x400 + (units[1] - 0xDC00)) as char]
            + lossy_utf16(units.skip(2))
    } else if is_high_surrogate(units[0]) || is_low_surrogate(units[0]) {
        seq!['\u{FFFD}'] + lossy_utf16(units.skip(1))
    } else {
        seq![units[0] as char] + lossy_utf16(units.skip(1))
    }
}

/// `String::from_utf16_lossy` decodes UTF-16, with the replacement character
/// for each surrogate that is not part of a pair.
#[verifier::external_body]
pub(crate) fn lossy_utf16_text(units: &[u16]) -> (out: String)
    ensures
        out@ == lossy_utf16(units@),
{
    String::from_utf16_lossy(units)
}

/// The first character of a text gives the first units.
proof fn lemma_utf16_first(s: Seq<char>)
    requires
        s.len() > 0,
    ensures
        text::utf16(s) == text::utf16_of_char(s[0]) + text::utf16(s.skip(1)),
    decreases s.len(),
{
    let rest = s.skip(1);
    if s.len() == 1 {
        assert(s.drop_last() =~= Seq::<char>::empty());
        assert(rest =~= Seq::<char>::empty());
        assert(text::utf16(s) =~= text::utf16_of_char(s[0]) + text::utf16(rest));
    } else {
        lemma_utf16_first(s.drop_last());
        assert(s.drop_last().skip(1) =~= rest.drop_last());
        assert(text::utf16(s) =~= text::utf16_of_char(s[0]) + text::utf16(rest));
    }
}

/// The units of one character are decoded to it.
proof fn lemma_utf16_char(c: char, rest: Seq<u16>)
    ensures
        lossy_utf16(text::utf16_of_char(c) + rest) == seq![c] + lossy_utf16(rest),
{
    let first = text::utf16_of_char(c);
    let units = first + rest;
    assert(units.skip(first.len() as int) =~= rest);
    assert(units[0] == first[0]);
    if (c as u32) < 0x1_0000 {
        assert(units[0] as char == c);
    } else {
        assert(units[1] == first[1]);
        let n = c as u32 - 0x1_0000;
        assert(n == (n / 0x400) * 0x400 + n % 0x400);
    }
}

/// A text comes back from its UTF-16 units as it was.
pub proof fn law_utf16_reads_back(s: Seq<char>)
    ensures
        lossy_utf16(text::utf16(s)) == s,
    decreases s.len(),
{
    if s.len() > 0 {
        lemma_utf16_first(s);
        lemma_utf16_char(s[0], text::utf16(s.skip(1)));
        law_utf16_reads_back(s.skip(1));
        assert(seq![s[0]] + s.skip(1) =~= s);
    }
}

/// The units before the first zero.
pub open spec fn before_zero(units: Seq<u16>) -> Seq<u16>
    decreases units.len(),
{
    if units.len() == 0 || units[0] == 0 {
        Seq::empty()
    } else {
        seq![units[0]] + before_zero(units.drop_first())
    }
}

/// Where the first zero is, the text before it ends.
pub proof fn lemma_before_zero(units: Seq<u16>, end: int)
    requires
        0 <= end <= units.len(),
        forall|k: int| 0 <= k < end ==> units[k] != 0,
        end < units.len() ==> units[end] == 0,
    ensures
        before_zero(units) == units.subrange(0, end),
    decreases units.len(),
{
    if units.len() == 0 || units[0] == 0 {
        assert(end == 0);
        assert(units.subrange(0, end) =~= Seq::<u16>::empty());
    } else {
        lemma_before_zero(units.drop_first(), end - 1);
        assert(seq![units[0]] + units.drop_first().subrange(0, end - 1) =~= units.subrange(0, end));
    }
}

/// The text of a variant: up to the first zero, unless that is too long.
pub open spec fn prop_text(v: PropView) -> Option<Seq<char>> {
    match v {
        PropView::Bstr(units) => if before_zero(units).len() < MAX_ARCHIVE_PATH_UNITS {
            Some(lossy_utf16(before_zero(units)))
        } else {
            None
        },
        _ => None,
    }
}

/// The number in a variant.
pub open spec fn prop_number(v: PropView) -> Option<u64> {
    match v {
        PropView::U64(value) => Some(value),
        PropView::U32(value) => Some(value as u64),
        _ => None,
    }
}

/// The truth value in a variant.
pub open spec fn prop_bool(v: PropView) -> Option<bool> {
    match v {
        PropView::Bool(value) => Some(value),
        _ => None,
    }
}

/// The Unix time in a variant.
pub open spec fn prop_time(v: PropView) -> Option<i64> {
    match v {
        PropView::FileTime(value) => Some(
            (value as int / 10_000_000 - FILETIME_EPOCH_SECONDS) as i64,
        ),
        _ => None,
    }
}

/// The identifier in a variant: the first sixteen bytes of its units.
pub open spec fn prop_guid(v: PropView) -> Option<Guid> {
    match v {
        PropView::Bstr(u) => if u.len() >= 8 {
            Some(
                Guid {
                    data1: (u[0] + 0x1_0000 * u[1]) as u32,
                    data2: u[2],
                    data3: u[3],
                    data4: (
                        (u[4] % 0x100) as u8,
                        (u[4] / 0x100) as u8,
                        (u[5] % 0x100) as u8,
                        (u[5] / 0x100) as u8,
                        (u[6] % 0x100) as u8,
                        (u[6] / 0x100) as u8,
                        (u[7] % 0x100) as u8,
                        (u[7] / 0x100) as u8,
                    ),
                },
            )
        } else {
            None
        },
        _ => None,
    }
}

impl PropVariant {
    /// No value.
    pub fn empty() -> (v: PropVariant)
        ensures
            v@ == PropView::Empty,
    {
        PropVariant::Empty
    }

    /// A 32-bit number.
    pub fn u32_value(value: u32) -> (v: PropVariant)
        ensures
            v@ == PropView::U32(value),
    {
        PropVariant::U32(value)
    }

    /// A 64-bit number.
    pub fn u64_value(value: u64) -> (v: PropVariant)
        ensures
            v@ == PropView::U64(value),
    {
        PropVariant::U64(value)
    }

    /// A truth value.
    pub fn bool_value(value: bool) -> (v: PropVariant)
        ensures
            v@ == PropView::Bool(value),
    {
        PropVariant::Bool(value)
    }

    /// A text.
    pub fn bstr(value: &str) -> (v: PropVariant)
        ensures
            v@ == PropView::Bstr(text::utf16(value@)),
    {
        PropVariant::Bstr(text::utf16_units(value))
    }

    /// A Unix time.
    pub fn filetime(seconds: i64) -> (v: PropVariant)
        ensures
            v@ == PropView::FileTime(filetime_of(seconds)),
    {
        PropVariant::FileTime(unix_seconds_to_filetime(seconds))
    }

    /// The number that the variant holds.
    pub fn as_u64(&self) -> (value: Option<u64>)
        ensures
            value == prop_number(self@),
    {
        match self {
            PropVariant::U64(value) => Some(*value),
            PropVariant::U32(value) => Some(*value as u64),
            _ => None,
        }
    }

    /// The truth value that the variant holds.
    pub fn as_bool(&self) -> (value: Option<bool>)
        ensures
            value == prop_bool(self@),
    {
        match self {
            PropVariant::Bool(value) => Some(*value),
            _ => None,
        }
    }

    /// The text that the variant holds, up to its first zero. Overlong text
    /// is not taken.
    pub fn as_bstr(&self) -> (value: Option<String>)
        ensures
            text::option_text(value) == prop_text(self@),
    {
        match self {
            PropVariant::Bstr(units) => {
                let mut length: usize = 0;
                while length < units.len() && units[length] != 0
                    invariant
                        length <= units@.len(),
                        forall|k: int| 0 <= k < length ==> units@[k] != 0,
                    decreases units@.len() - length,
                {
                    length += 1;
                }
                proof {
                    lemma_before_zero(units@, length as int);
                }
                if length >= MAX_ARCHIVE_PATH_UNITS {
                    return None;
                }
                Some(lossy_utf16_text(vstd::slice::slice_subrange(units, 0, length)))
            },
            _ => None,
        }
    }

    /// The identifier that the variant holds as binary text.
    pub fn as_guid(&self) -> (value: Option<Guid>)
        ensures
            value == prop_guid(self@),
    {
        match self {
            PropVariant::Bstr(u) => {
                if u.len() < 8 {
                    return None;
                }
                Some(
                    guid(
                        (u[0] as u32) + 0x1_0000 * (u[1] as u32),
                        u[2],
                        u[3],
                        (u[4] % 0x100) as u8,
                        (u[4] / 0x100) as u8,
                        (u[5] % 0x100) as u8,
                        (u[5] / 0x100) as u8,
                        (u[6] % 0x100) as u8,
                        (u[6] / 0x100) as u8,
                        (u[7] % 0x100) as u8,
                        (u[7] / 0x100) as u8,
                    ),
                )
            },
            _ => None,
        }
    }

    /// The Unix time that the variant holds.
    pub fn as_filetime_seconds(&self) -> (value: Option<i64>)
        ensures
            value == prop_time(self@),
    {
        match self {
            PropVariant::FileTime(value) => Some(filetime_to_unix_seconds(*value)),
            _ => None,
        }
    }

    /// Gives the value up.
    pub fn clear(&mut self)
        ensures
            final(self)@ == PropView::Empty,
    {
        *self = PropVariant::Empty;
    }
}

/// The number that a hexadecimal digit stands for.
pub open spec fn hex_digit(c: char) -> int {
    if '0' <= c <= '9' {
        c as int - '0' as int
    } else {
        c as int - 'A' as int + 10
    }
}

/// The number that hexadecimal digits stand for, the highest first.
pub open spec fn hex_value(s: Seq<char>) -> int
    decreases s.len(),
{
    if s.len() == 0 {
        0
    } else {
        hex_value(s.drop_last()) * 16 + hex_digit(s.last())
    }
}

/// Sixteen to the power `width`: the first number that does not fit.
pub open spec fn sixteens(width: nat) -> int
    decreases width,
{
    if width == 0 {
        1
    } else {
        sixteens((width - 1) as nat) * 16
    }
}

/// Hexadecimal digits stand for their number, in the width that was asked for.
pub proof fn law_hex_digits_read_back(n: nat, width: nat)
    requires
        n < sixteens(width),
    ensures
        hex(n, width).len() == width,
        hex_value(hex(n, width)) == n,
        forall|k: int|
            0 <= k < width ==> {
                let c = #[trigger] hex(n, width)[k];
                '0' <= c <= '9' || 'A' <= c <= 'F'
            },
    decreases width,
{
    if width > 0 {
        let before = hex(n / 16, (width - 1) as nat);
        let d = (n % 16) as int;
        law_hex_digits_read_back(n / 16, (width - 1) as nat);
        assert(hex(n, width) == before.push(hex_char(d)));
        assert(before.push(hex_char(d)).drop_last() =~= before);
        assert(hex_digit(hex_char(d)) == d);
        assert forall|k: int| 0 <= k < width implies {
            let c = #[trigger] hex(n, width)[k];
            '0' <= c <= '9' || 'A' <= c <= 'F'
        } by {
            if k < width - 1 {
                assert(hex(n, width)[k] == before[k]);
            }
        }
    }
}

/// A result code is shown as eight hexadecimal digits in lower case behind
/// `0x`: those of its bits.
pub proof fn law_codes_are_shown_in_hex(code: i32)
    ensures
        code_text(code).len() == 10,
        code_text(code).take(2) == "0x"@,
        code_text(code).skip(2) == text::lower(hex(code_bits(code) as nat, 8)),
        hex_value(hex(code_bits(code) as nat, 8)) == code_bits(code),
        code >= 0 ==> code_bits(code) == code,
        code < 0 ==> code_bits(code) - code == 0x1_0000_0000,
{
    reveal_strlit("0x");
    reveal_with_fuel(sixteens, 9);
    law_hex_digits_read_back(code_bits(code) as nat, 8);
    let digits = text::lower(hex(code_bits(code) as nat, 8));
    assert(digits.len() == 8);
    assert(code_text(code).take(2) =~= "0x"@);
    assert(code_text(code).skip(2) =~= digits);
}

/// The codes and property numbers by which the handlers are talked to.
pub proof fn law_numbers_of_the_interface()
    ensures
        code_bits(S_OK) == 0,
        code_bits(S_FALSE) == 1,
        code_bits(E_NOINTERFACE) == 0x8000_4002,
        code_bits(E_POINTER) == 0x8000_4003,
        code_bits(E_ABORT) == 0x8000_4004,
        code_bits(E_FAIL) == 0x8000_4005,
        code_bits(E_INVALIDARG) == 0x8007_0057,
        KPID_PATH == 3 && KPID_NAME == 4 && KPID_IS_DIR == 6 && KPID_SIZE == 7 && KPID_PACK_SIZE
            == 8 && KPID_MTIME == 12 && KPID_ENCRYPTED == 15,
        EXTRACT_MODE_EXTRACT == 0 && EXTRACT_MODE_TEST == 1 && EXTRACT_MODE_SKIP == 2,
        OPERATION_RESULT_OK == 0 && OPERATION_RESULT_UNSUPPORTED_METHOD == 1
            && OPERATION_RESULT_DATA_ERROR == 2 && OPERATION_RESULT_CRC_ERROR == 3,
        MAX_ARCHIVE_PATH_UNITS == 1024 * 1024,
{
}

/// File times count tenths of a microsecond since the beginning of 1601, which
/// lies 11644473600 seconds before that of the seconds.
pub proof fn law_file_times_count_from_1601(seconds: i64, value: u64)
    ensures
        0 <= (seconds + 11_644_473_600) * 10_000_000 <= i64::MAX ==> filetime_of(seconds) == (
        seconds + 11_644_473_600) * 10_000_000,
        (seconds + 11_644_473_600) * 10_000_000 > i64::MAX ==> filetime_of(seconds) == i64::MAX,
        prop_time(PropView::FileTime(value)) is Some,
        (prop_time(PropView::FileTime(value))->0 + 11_644_473_600) * 10_000_000 <= value < (prop_time(
            PropView::FileTime(value),
        )->0 + 11_644_473_601) * 10_000_000,
{
}

/// A property is read as what it is and as nothing else; a number may be held
/// in either width.
pub proof fn law_properties_are_read_as_what_they_are(v: PropView)
    ensures
        prop_number(v) is Some <==> v is U32 || v is U64,
        v is U32 ==> prop_number(v)->0 == v->U32_0,
        v is U64 ==> prop_number(v)->0 == v->U64_0,
        prop_bool(v) is Some <==> v is Bool,
        v is Bool ==> prop_bool(v)->0 == v->Bool_0,
        prop_time(v) is Some <==> v is FileTime,
        prop_guid(v) is Some <==> v is Bstr && v->Bstr_0.len() >= 8,
        prop_text(v) is Some ==> v is Bstr,
{
}

/// A text ends at its first zero, if it has one, and is taken as long as it
/// is not too long.
pub proof fn law_texts_end_at_a_zero(units: Seq<u16>, rest: Seq<u16>)
    requires
        forall|k: int| 0 <= k < units.len() ==> units[k] != 0,
    ensures
        before_zero(units) == units,
        before_zero(units + seq![0u16] + rest) == units,
        prop_text(PropView::Bstr(units)) is Some <==> units.len() < 1024 * 1024,
        units.len() < 1024 * 1024 ==> prop_text(PropView::Bstr(units)) == Some(lossy_utf16(units)),
    decreases units.len(),
{
    let whole = units + seq![0u16] + rest;
    if units.len() == 0 {
        assert(whole[0] == 0);
        assert(before_zero(units) =~= units);
        assert(before_zero(whole) =~= units);
    } else {
        let less = units.drop_first();
        assert forall|k: int| 0 <= k < less.len() implies less[k] != 0 by {
            assert(less[k] == units[k + 1]);
        }
        law_texts_end_at_a_zero(less, rest);
        assert(whole[0] == units[0]);
        assert(whole.drop_first() =~= less + seq![0u16] + rest);
        assert(before_zero(units) =~= units);
        assert(before_zero(whole) =~= units);
    }
}

/// An identifier lies in its bytes lowest first, but for its last eight, which
/// follow one another.
pub proof fn law_identifiers_in_bytes(u: Seq<u16>)
    requires
        u.len() >= 8,
    ensures
        ({
            let id = prop_guid(PropView::Bstr(u))->0;
            &&& id.data1 == u[0] + 65536 * u[1]
            &&& id.data2 == u[2]
            &&& id.data3 == u[3]
            &&& id.data4.0 + 256 * id.data4.1 == u[4]
            &&& id.data4.2 + 256 * id.data4.3 == u[5]
            &&& id.data4.4 + 256 * id.data4.5 == u[6]
            &&& id.data4.6 + 256 * id.data4.7 == u[7]
        }),
{
}

/// A text of units without surrogates holds each as its character; a pair of
/// surrogates is one character, and a lone one is replaced.
pub proof fn law_units_are_read_one_by_one(unit: u16, low: u16, rest: Seq<u16>)
    ensures
        unit < 0xD800 || unit > 0xDFFF ==> lossy_utf16(seq![unit] + rest) == seq![unit as char]
            + lossy_utf16(rest),
        0xDC00 <= unit <= 0xDFFF ==> lossy_utf16(seq![unit] + rest) == seq!['\u{FFFD}']
            + lossy_utf16(rest),
        0xD800 <= unit <= 0xDBFF && 0xDC00 <= low <= 0xDFFF ==> lossy_utf16(
            seq![unit, low] + rest,
        ) == seq![(0x1_0000 + (unit - 0xD800) * 0x400 + (low - 0xDC00)) as char] + lossy_utf16(
            rest,
        ),
        0xD800 <= unit <= 0xDBFF ==> lossy_utf16(seq![unit]) == seq!['\u{FFFD}'],
{
    let one = seq![unit] + rest;
    let two = seq![unit, low] + rest;
    assert(one[0] == unit && one.skip(1) =~= rest);
    assert(two[0] == unit && two[1] == low && two.skip(2) =~= rest);
    let alone = seq![unit];
    assert(alone[0] == unit && alone.skip(1) =~= Seq::<u16>::empty());
    reveal_with_fuel(lossy_utf16, 2);
    assert(seq!['\u{FFFD}'] + Seq::<char>::empty() =~= seq!['\u{FFFD}']);
}

/// An identifier is written in braces, in the five groups of its parts.
pub proof fn law_identifiers_are_written_in_groups(id: Guid)
    ensures
        guid_text(id).len() == 38,
        guid_text(id)[0] == '{' && guid_text(id)[37] == '}',
        guid_text(id)[9] == '-' && guid_text(id)[14] == '-' && guid_text(id)[19] == '-' && guid_text(
            id,
        )[24] == '-',
        hex_value(guid_text(id).subrange(1, 9)) == id.data1,
        hex_value(guid_text(id).subrange(10, 14)) == id.data2,
        hex_value(guid_text(id).subrange(15, 19)) == id.data3,
        hex_value(guid_text(id).subrange(20, 22)) == id.data4.0,
        hex_value(guid_text(id).subrange(22, 24)) == id.data4.1,
        hex_value(guid_text(id).subrange(25, 27)) == id.data4.2,
        hex_value(guid_text(id).subrange(27, 29)) == id.data4.3,
        hex_value(guid_text(id).subrange(29, 31)) == id.data4.4,
        hex_value(guid_text(id).subrange(31, 33)) == id.data4.5,
        hex_value(guid_text(id).subrange(33, 35)) == id.data4.6,
        hex_value(guid_text(id).subrange(35, 37)) == id.data4.7,
{
    reveal_with_fuel(sixteens, 9);
    let d = id.data4;
    law_hex_digits_read_back(id.data1 as nat, 8);
    law_hex_digits_read_back(id.data2 as nat, 4);
    law_hex_digits_read_back(id.data3 as nat, 4);
    law_hex_digits_read_back(d.0 as nat, 2);
    law_hex_digits_read_back(d.1 as nat, 2);
    law_hex_digits_read_back(d.2 as nat, 2);
    law_hex_digits_read_back(d.3 as nat, 2);
    law_hex_digits_read_back(d.4 as nat, 2);
    law_hex_digits_read_back(d.5 as nat, 2);
    law_hex_digits_read_back(d.6 as nat, 2);
    law_hex_digits_read_back(d.7 as nat, 2);
    let t = guid_text(id);
    assert(t.subrange(1, 9) =~= hex(id.data1 as nat, 8));
    assert(t.subrange(10, 14) =~= hex(id.data2 as nat, 4));
    assert(t.subrange(15, 19) =~= hex(id.data3 as nat, 4));
    assert(t.subrange(20, 22) =~= hex(d.0 as nat, 2));
    assert(t.subrange(22, 24) =~= hex(d.1 as nat, 2));
    assert(t.subrange(25, 27) =~= hex(d.2 as nat, 2));
    assert(t.subrange(27, 29) =~= hex(d.3 as nat, 2));
    assert(t.subrange(29, 31) =~= hex(d.4 as nat, 2));
    assert(t.subrange(31, 33) =~= hex(d.5 as nat, 2));
    assert(t.subrange(33, 35) =~= hex(d.6 as nat, 2));
    assert(t.subrange(35, 37) =~= hex(d.7 as nat, 2));
}

} // verus!
