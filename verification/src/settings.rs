//! User preferences, kept in the per-user registry.
//!
//! Loading takes the stored bytes of each value, where there are any. Saving
//! gives the values to write.

use vstd::prelude::*;
use vstd::string::*;
use crate::names;
use crate::registry;
use crate::registry::{RegistryOp, RegistryOpView, ERROR_SUCCESS};
use crate::text;

verus! {

/// The last normal position and size of the main window. The position is in
/// screen coordinates; the size does not depend on the scale of the screen.
#[derive(Clone, Copy, Debug, PartialEq, Eq, Structural)]
pub struct WindowGeometry {
    pub x: i32,
    pub y: i32,
    pub width: u32,
    pub height: u32,
}

/// The key that holds the settings.
pub open spec fn settings_key() -> Seq<char> {
    "Software\\ArchiveRclick\\Settings"@
}

/// A preference that is stored, or the default for one that is missing or
/// empty.
pub open spec fn stored_or(stored: Option<Seq<u8>>, default: Seq<char>) -> Seq<char> {
    match registry::stored_text(stored) {
        Some(value) => if value.len() > 0 {
            value
        } else {
            default
        },
        None => default,
    }
}

/// [`stored_or`] with automatic as the default, executable.
fn load_or_auto(stored: &Option<Vec<u8>>) -> (preference: String)
    ensures
        preference@ == stored_or(registry::stored_bytes(*stored), "auto"@),
        forall|s: Seq<char>|
            registry::stored_bytes(*stored) == Some(#[trigger] text::terminated_utf16(s)) && s.len()
                > 0 && s.last() != '\0' ==> preference@ == s,
{
    if let Some(value) = registry::read_string_value(stored) {
        if !value.as_str().is_empty() {
            return value;
        }
    }
    "auto".to_owned()
}

/// The value to write for a preference.
fn save(name: &str, value: &str) -> (op: RegistryOp)
    ensures
        op@ == RegistryOpView::SetNamed(settings_key(), name@, value@),
{
    RegistryOp::SetNamed(
        "Software\\ArchiveRclick\\Settings".to_owned(),
        name.to_owned(),
        value.to_owned(),
    )
}

/// The stored font; automatic when unset. What was saved is loaded.
pub fn load_font_preference(stored: &Option<Vec<u8>>) -> (preference: String)
    ensures
        preference@ == stored_or(registry::stored_bytes(*stored), "auto"@),
        forall|s: Seq<char>|
            registry::stored_bytes(*stored) == Some(#[trigger] text::terminated_utf16(s)) && s.len()
                > 0 && s.last() != '\0' ==> preference@ == s,
{
    load_or_auto(stored)
}

/// Saves the font: automatic, or the name of a family.
pub fn save_font_preference(family: &str) -> (op: RegistryOp)
    ensures
        op@ == RegistryOpView::SetNamed(settings_key(), "FontFamily"@, family@),
{
    save("FontFamily", family)
}

/// The stored number of threads; automatic when unset. What was saved is
/// loaded.
pub fn load_thread_preference(stored: &Option<Vec<u8>>) -> (preference: String)
    ensures
        preference@ == stored_or(registry::stored_bytes(*stored), "auto"@),
        forall|s: Seq<char>|
            registry::stored_bytes(*stored) == Some(#[trigger] text::terminated_utf16(s)) && s.len()
                > 0 && s.last() != '\0' ==> preference@ == s,
{
    load_or_auto(stored)
}

/// Saves the number of threads.
pub fn save_thread_preference(preference: &str) -> (op: RegistryOp)
    ensures
        op@ == RegistryOpView::SetNamed(settings_key(), "CpuThreads"@, preference@),
{
    save("CpuThreads", preference)
}

/// The stored theme; automatic when unset. What was saved is loaded.
pub fn load_theme_preference(stored: &Option<Vec<u8>>) -> (preference: String)
    ensures
        preference@ == stored_or(registry::stored_bytes(*stored), "auto"@),
        forall|s: Seq<char>|
            registry::stored_bytes(*stored) == Some(#[trigger] text::terminated_utf16(s)) && s.len()
                > 0 && s.last() != '\0' ==> preference@ == s,
{
    load_or_auto(stored)
}

/// Saves the theme.
pub fn save_theme_preference(preference: &str) -> (op: RegistryOp)
    ensures
        op@ == RegistryOpView::SetNamed(settings_key(), "Theme"@, preference@),
{
    save("Theme", preference)
}

/// A language of the interface, or English for any other.
pub open spec fn known_language(s: Seq<char>) -> Seq<char> {
    if s == "en"@ || s == "ko"@ || s == "ja"@ {
        s
    } else {
        "en"@
    }
}

/// [`known_language`], executable.
fn language(s: &str) -> (known: String)
    ensures
        known@ == known_language(s@),
{
    if text::same_text(s, "en") || text::same_text(s, "ko") || text::same_text(s, "ja") {
        s.to_owned()
    } else {
        "en".to_owned()
    }
}

/// The stored language; English when unset or unknown. What was saved is
/// loaded.
pub fn load_language_preference(stored: &Option<Vec<u8>>) -> (preference: String)
    ensures
        preference@ == match registry::stored_text(registry::stored_bytes(*stored)) {
            Some(value) => known_language(value),
            None => "en"@,
        },
        forall|s: Seq<char>|
            registry::stored_bytes(*stored) == Some(
                #[trigger] text::terminated_utf16(known_language(s)),
            ) ==> preference@ == known_language(s),
{
    let value = registry::read_string_value(stored);
    proof {
        reveal_strlit("en");
        reveal_strlit("ko");
        reveal_strlit("ja");
        assert("en"@.last() == 'n' && "ko"@.last() == 'o' && "ja"@.last() == 'a');
        assert forall|s: Seq<char>|
            registry::stored_bytes(*stored) == Some(
                #[trigger] text::terminated_utf16(known_language(s)),
            ) implies text::option_text(value) == Some(known_language(s)) by {}
    }
    match value {
        Some(value) => language(value.as_str()),
        None => "en".to_owned(),
    }
}

/// Saves the language; an unknown one is saved as English.
pub fn save_language_preference(preference: &str) -> (op: RegistryOp)
    ensures
        op@ == RegistryOpView::SetNamed(
            settings_key(),
            "Language"@,
            known_language(preference@),
        ),
{
    let known = language(preference);
    save("Language", known.as_str())
}

// ---------------------------------------------------------------------------
// The window
// ---------------------------------------------------------------------------

/// The whole number in a text: digits, with a sign or without, that fits in
/// 32 bits.
pub open spec fn whole_number(s: Seq<char>) -> Option<i32> {
    if s.len() > 0 && s[0] == '-' {
        match text::u32_value(s.skip(1)) {
            Some(n) => if n <= 0x8000_0000 {
                Some((-(n as int)) as i32)
            } else {
                None
            },
            None => None,
        }
    } else {
        match text::natural_number(s) {
            Some(n) => if n <= 0x7FFF_FFFF {
                Some(n as i32)
            } else {
                None
            },
            None => None,
        }
    }
}

/// [`whole_number`], executable.
fn parse_whole(s: &str) -> (value: Option<i32>)
    ensures
        value == whole_number(s@),
{
    let chars = text::chars_of(s);
    let size: usize = chars.len();
    if size > 0 && chars[0] == '-' {
        let digits = vstd::slice::slice_subrange(&chars, 1, size);
        proof {
            assert(digits@ =~= s@.skip(1));
        }
        return match text::parse_u32_digits(digits) {
            Some(n) => {
                if n <= 0x8000_0000 {
                    let wide: i64 = -(n as i64);
                    Some(wide as i32)
                } else {
                    None
                }
            },
            None => None,
        };
    }
    match text::parse_natural(s) {
        Some(n) => {
            if n <= 0x7FFF_FFFF {
                Some(n as i32)
            } else {
                None
            }
        },
        None => None,
    }
}

/// Whether a window of this geometry can be used.
pub open spec fn is_usable(g: WindowGeometry) -> bool {
    &&& 520 <= g.width <= 16_384
    &&& 400 <= g.height <= 16_384
    &&& -32_768 <= g.x <= 32_768
    &&& -32_768 <= g.y <= 32_768
}

/// The geometry that texts describe: of the version that is understood, with
/// numbers that make a window that can be used.
pub open spec fn geometry_of(
    version: Option<Seq<char>>,
    x: Option<Seq<char>>,
    y: Option<Seq<char>>,
    width: Option<Seq<char>>,
    height: Option<Seq<char>>,
) -> Option<WindowGeometry> {
    if version == Some("2"@) && x is Some && y is Some && width is Some && height is Some
        && whole_number(x->0) is Some && whole_number(y->0) is Some && text::natural_number(width->0)
        is Some && text::natural_number(height->0) is Some {
        let g = WindowGeometry {
            x: whole_number(x->0)->0,
            y: whole_number(y->0)->0,
            width: text::natural_number(width->0)->0,
            height: text::natural_number(height->0)->0,
        };
        if is_usable(g) {
            Some(g)
        } else {
            None
        }
    } else {
        None
    }
}

/// The stored values of the window's geometry.
#[derive(Debug)]
pub struct StoredGeometry {
    pub version: Option<Vec<u8>>,
    pub x: Option<Vec<u8>>,
    pub y: Option<Vec<u8>>,
    pub width: Option<Vec<u8>>,
    pub height: Option<Vec<u8>>,
}

/// The text of a stored value.
pub open spec fn stored(value: Option<Vec<u8>>) -> Option<Seq<char>> {
    registry::stored_text(registry::stored_bytes(value))
}

/// Whether the stored values are those that save a geometry.
pub open spec fn holds_geometry(values: StoredGeometry, g: WindowGeometry) -> bool {
    let ops = geometry_ops(g);
    &&& holds_text(values.version, ops[0]->SetNamed_2)
    &&& holds_text(values.x, ops[1]->SetNamed_2)
    &&& holds_text(values.y, ops[2]->SetNamed_2)
    &&& holds_text(values.width, ops[3]->SetNamed_2)
    &&& holds_text(values.height, ops[4]->SetNamed_2)
}

/// Whether a stored value is a text as it is written.
pub open spec fn holds_text(value: Option<Vec<u8>>, s: Seq<char>) -> bool {
    registry::stored_bytes(value) == Some(text::terminated_utf16(s))
}

/// The saved geometry of the window. Values that are missing, of another
/// version or out of range are ignored, so that a change of monitors cannot
/// hide the window.
pub fn load_window_geometry(values: &StoredGeometry) -> (geometry: Option<WindowGeometry>)
    ensures
        geometry == geometry_of(
            stored(values.version),
            stored(values.x),
            stored(values.y),
            stored(values.width),
            stored(values.height),
        ),
        forall|g: WindowGeometry| #[trigger]
            holds_geometry(*values, g) && is_usable(g) ==> geometry == Some(g),
{
    proof {
        assert forall|g: WindowGeometry| #[trigger] holds_geometry(*values, g) && is_usable(
            g,
        ) implies geometry_of(
            stored(values.version),
            stored(values.x),
            stored(values.y),
            stored(values.width),
            stored(values.height),
        ) == Some(g) by {
            lemma_geometry_reads_back(*values, g);
        }
    }
    match registry::read_string_value(&values.version) {
        Some(version) => {
            if !text::same_text(version.as_str(), "2") {
                return None;
            }
        },
        None => {
            return None;
        },
    }
    let x: i32 = match registry::read_string_value(&values.x) {
        Some(text) => match parse_whole(text.as_str()) {
            Some(x) => x,
            None => {
                return None;
            },
        },
        None => {
            return None;
        },
    };
    let y: i32 = match registry::read_string_value(&values.y) {
        Some(text) => match parse_whole(text.as_str()) {
            Some(y) => y,
            None => {
                return None;
            },
        },
        None => {
            return None;
        },
    };
    let width: u32 = match registry::read_string_value(&values.width) {
        Some(text) => match text::parse_natural(text.as_str()) {
            Some(width) => width,
            None => {
                return None;
            },
        },
        None => {
            return None;
        },
    };
    let height: u32 = match registry::read_string_value(&values.height) {
        Some(text) => match text::parse_natural(text.as_str()) {
            Some(height) => height,
            None => {
                return None;
            },
        },
        None => {
            return None;
        },
    };
    if width < 520 || width > 16_384 || height < 400 || height > 16_384 {
        return None;
    }
    if x < -32_768 || x > 32_768 || y < -32_768 || y > 32_768 {
        return None;
    }
    Some(WindowGeometry { x, y, width, height })
}

/// The values that save a geometry.
pub open spec fn geometry_ops(g: WindowGeometry) -> Seq<RegistryOpView> {
    seq![
        RegistryOpView::SetNamed(settings_key(), "WindowGeometryVersion"@, "2"@),
        RegistryOpView::SetNamed(settings_key(), "WindowX"@, text::signed_decimal(g.x as int)),
        RegistryOpView::SetNamed(settings_key(), "WindowY"@, text::signed_decimal(g.y as int)),
        RegistryOpView::SetNamed(settings_key(), "WindowWidth"@, text::decimal(g.width as nat)),
        RegistryOpView::SetNamed(settings_key(), "WindowHeight"@, text::decimal(g.height as nat)),
    ]
}

/// Saves the geometry of the window: [`geometry_ops`], executable.
pub fn save_window_geometry(geometry: &WindowGeometry) -> (ops: Vec<RegistryOp>)
    ensures
        registry::op_views(ops@) == geometry_ops(*geometry),
{
    let mut ops: Vec<RegistryOp> = Vec::new();
    registry::add_op(&mut ops, save("WindowGeometryVersion", "2"));
    registry::add_op(
        &mut ops,
        save("WindowX", text::signed_decimal_text(geometry.x as i64).as_str()),
    );
    registry::add_op(
        &mut ops,
        save("WindowY", text::signed_decimal_text(geometry.y as i64).as_str()),
    );
    registry::add_op(
        &mut ops,
        save("WindowWidth", text::decimal_text(geometry.width as u64).as_str()),
    );
    registry::add_op(
        &mut ops,
        save("WindowHeight", text::decimal_text(geometry.height as u64).as_str()),
    );
    proof {
        assert(registry::op_views(ops@) =~= geometry_ops(*geometry));
    }
    ops
}

/// A number is read back from its digits.
proof fn lemma_numbers_read_back(n: u32, x: i32)
    ensures
        text::natural_number(text::decimal(n as nat)) == Some(n),
        whole_number(text::signed_decimal(x as int)) == Some(x),
{
    names::lemma_decimal_reads_back(n as nat);
    let digits = text::decimal(n as nat);
    assert(text::is_digit(digits[0]));
    let size = (if x < 0 {
        -(x as int)
    } else {
        x as int
    }) as nat;
    names::lemma_decimal_reads_back(size);
    let more = text::decimal(size);
    assert(text::is_digit(more[0]));
    if x < 0 {
        assert(text::signed_decimal(x as int).skip(1) =~= more);
    }
}

/// A geometry that can be used is loaded as it was saved.
pub proof fn law_geometry_is_loaded_as_saved(g: WindowGeometry)
    requires
        is_usable(g),
    ensures
        geometry_ops(g).len() == 5,
        geometry_of(
            Some(geometry_ops(g)[0]->SetNamed_2),
            Some(geometry_ops(g)[1]->SetNamed_2),
            Some(geometry_ops(g)[2]->SetNamed_2),
            Some(geometry_ops(g)[3]->SetNamed_2),
            Some(geometry_ops(g)[4]->SetNamed_2),
        ) == Some(g),
{
    lemma_numbers_read_back(g.width, g.x);
    lemma_numbers_read_back(g.height, g.y);
}

/// A text that ends in no zero is read back from the value it was written to.
proof fn lemma_text_reads_back(value: Option<Vec<u8>>, s: Seq<char>)
    requires
        holds_text(value, s),
        s.len() > 0,
        s.last() != '\0',
    ensures
        stored(value) == Some(s),
{
    registry::law_stored_text_reads_back(s);
    text::law_registry_text_is_terminated(s);
}

/// The stored values of a geometry give it back.
proof fn lemma_geometry_reads_back(values: StoredGeometry, g: WindowGeometry)
    requires
        holds_geometry(values, g),
        is_usable(g),
    ensures
        geometry_of(
            stored(values.version),
            stored(values.x),
            stored(values.y),
            stored(values.width),
            stored(values.height),
        ) == Some(g),
{
    let ops = geometry_ops(g);
    reveal_strlit("2");
    lemma_signed_digits_end(g.x as int);
    lemma_signed_digits_end(g.y as int);
    lemma_signed_digits_end(g.width as int);
    lemma_signed_digits_end(g.height as int);
    lemma_text_reads_back(values.version, ops[0]->SetNamed_2);
    lemma_text_reads_back(values.x, ops[1]->SetNamed_2);
    lemma_text_reads_back(values.y, ops[2]->SetNamed_2);
    lemma_text_reads_back(values.width, ops[3]->SetNamed_2);
    lemma_text_reads_back(values.height, ops[4]->SetNamed_2);
    law_geometry_is_loaded_as_saved(g);
}

/// The digits of a number end in a digit.
proof fn lemma_signed_digits_end(n: int)
    ensures
        text::signed_decimal(n).len() > 0,
        text::signed_decimal(n).last() != '\0',
        n >= 0 ==> text::signed_decimal(n) == text::decimal(n as nat),
{
    let size = (if n < 0 {
        -n
    } else {
        n
    }) as nat;
    names::lemma_decimal_reads_back(size);
    let digits = text::decimal(size);
    assert(text::is_digit(digits[digits.len() - 1]));
    assert(text::signed_decimal(n).last() == digits.last());
}

// ---------------------------------------------------------------------------
// Outcomes of saving
// ---------------------------------------------------------------------------

/// Whether a preference was saved, by the statuses of opening the key and of
/// writing the value.
pub fn preference_saved(opened: u32, written: u32) -> (done: Result<(), String>)
    ensures
        registry::message_view(done) == if opened != ERROR_SUCCESS {
            Err(open_failed(opened))
        } else if written != ERROR_SUCCESS {
            Err(
                "Could not write the settings registry value (Windows error "@ + text::decimal(
                    written as nat,
                ) + ")"@,
            )
        } else {
            Ok(())
        },
{
    if opened != ERROR_SUCCESS {
        return Err(open_failure(opened));
    }
    if written != ERROR_SUCCESS {
        return Err(
            text::join3(
                "Could not write the settings registry value (Windows error ",
                text::decimal_text(written as u64).as_str(),
                ")",
            ),
        );
    }
    Ok(())
}

/// Whether one of the window's values was saved.
pub fn window_value_saved(name: &str, opened: u32, written: u32) -> (done: Result<(), String>)
    ensures
        registry::message_view(done) == if opened != ERROR_SUCCESS {
            Err(open_failed(opened))
        } else if written != ERROR_SUCCESS {
            Err(
                "Could not write the window setting "@ + name@ + " (Windows error "@
                    + text::decimal(written as nat) + ")"@,
            )
        } else {
            Ok(())
        },
{
    if opened != ERROR_SUCCESS {
        return Err(open_failure(opened));
    }
    if written != ERROR_SUCCESS {
        let mut message = text::join3(
            "Could not write the window setting ",
            name,
            " (Windows error ",
        );
        message.append(text::decimal_text(written as u64).as_str());
        message.append(")");
        return Err(message);
    }
    Ok(())
}

/// What is said when the settings cannot be opened.
pub open spec fn open_failed(status: u32) -> Seq<char> {
    "Could not open the settings registry key (Windows error "@ + text::decimal(status as nat)
        + ")"@
}

/// [`open_failed`], executable.
fn open_failure(status: u32) -> (message: String)
    ensures
        message@ == open_failed(status),
{
    text::join3(
        "Could not open the settings registry key (Windows error ",
        text::decimal_text(status as u64).as_str(),
        ")",
    )
}

// ---------------------------------------------------------------------------
// Fonts
// ---------------------------------------------------------------------------

/// Whether the name of a font's registry value starts with a family.
pub fn value_name_matches(name: &str, wanted_lowercase: &str) -> (yes: bool)
    ensures
        yes == wanted_lowercase@.is_prefix_of(text::unicode_lower(name@)),
{
    let lower = text::unicode_lower_text(name);
    text::starts_with(lower.as_str(), wanted_lowercase)
}

/// Whether a family is among the names of the registered fonts.
pub open spec fn has_family(fonts: Seq<String>, family: Seq<char>) -> bool {
    exists|i: int|
        0 <= i < fonts.len() && text::unicode_lower(family).is_prefix_of(
            text::unicode_lower((#[trigger] fonts[i])@),
        )
}

/// [`has_family`], executable.
fn font_hive_has_family(fonts: &Vec<String>, family: &str) -> (found: bool)
    ensures
        found == has_family(fonts@, family@),
{
    let wanted = text::unicode_lower_text(family);
    let mut i: usize = 0;
    while i < fonts.len()
        invariant
            i <= fonts@.len(),
            wanted@ == text::unicode_lower(family@),
            forall|k: int|
                0 <= k < i ==> !text::unicode_lower(family@).is_prefix_of(
                    text::unicode_lower((#[trigger] fonts@[k])@),
                ),
        decreases fonts@.len() - i,
    {
        if value_name_matches(fonts[i].as_str(), wanted.as_str()) {
            proof {
                assert(text::unicode_lower(family@).is_prefix_of(
                    text::unicode_lower(fonts@[i as int]@),
                ));
            }
            return true;
        }
        i += 1;
    }
    false
}

/// Whether a family is registered for the machine or for the user.
pub fn font_family_installed(family: &str, machine: &Vec<String>, user: &Vec<String>) -> (yes: bool)
    ensures
        yes == (family@.len() > 0 && (has_family(machine@, family@) || has_family(
            user@,
            family@,
        ))),
{
    if family.is_empty() {
        return false;
    }
    font_hive_has_family(machine, family) || font_hive_has_family(user, family)
}

/// The font that a preference stands for. Automatic is Noto Sans JP where it
/// is installed, and Yu Gothic elsewhere. `machine` and `user` are the names
/// of the fonts that are registered.
pub fn resolve_font_family(preference: &str, machine: &Vec<String>, user: &Vec<String>) -> (family:
    String)
    ensures
        family@ == if preference@.len() > 0 && preference@ != "auto"@ {
            preference@
        } else if has_family(machine@, "Noto Sans JP"@) || has_family(user@, "Noto Sans JP"@) {
            "Noto Sans JP"@
        } else {
            "Yu Gothic"@
        },
{
    if preference.is_empty() || text::same_text(preference, "auto") {
        proof {
            reveal_strlit("Noto Sans JP");
        }
        if font_family_installed("Noto Sans JP", machine, user) {
            "Noto Sans JP".to_owned()
        } else {
            "Yu Gothic".to_owned()
        }
    } else {
        preference.to_owned()
    }
}

/// A window is only put where it can be seen and used: what is loaded is at
/// least 520 by 400, at most 16384 either way, and not far off the screen; it
/// was saved in the present form.
pub proof fn law_loaded_geometry_is_usable(
    version: Option<Seq<char>>,
    x: Option<Seq<char>>,
    y: Option<Seq<char>>,
    width: Option<Seq<char>>,
    height: Option<Seq<char>>,
)
    ensures
        geometry_of(version, x, y, width, height) is Some ==> {
            let g = geometry_of(version, x, y, width, height)->0;
            &&& version == Some("2"@)
            &&& 520 <= g.width <= 16384
            &&& 400 <= g.height <= 16384
            &&& -32768 <= g.x <= 32768
            &&& -32768 <= g.y <= 32768
            &&& Some(g.x) == whole_number(x->0)
            &&& Some(g.y) == whole_number(y->0)
            &&& Some(g.width) == text::natural_number(width->0)
            &&& Some(g.height) == text::natural_number(height->0)
        },
{
}

/// A whole number may have a minus sign, which makes it negative.
pub proof fn law_whole_numbers(digits: Seq<char>)
    requires
        digits.len() > 0,
        text::all_digits(digits),
        text::number(digits) <= 0x7FFF_FFFF,
    ensures
        whole_number(digits) is Some && whole_number(digits)->0 == text::number(digits),
        whole_number(seq!['-'] + digits) is Some && whole_number(seq!['-'] + digits)->0
            == -text::number(digits),
{
    assert((seq!['-'] + digits).skip(1) =~= digits);
    assert(text::is_digit(digits[0]));
}

/// Three languages are known, and any other becomes English.
pub proof fn law_known_languages(s: Seq<char>)
    ensures
        s == "en"@ || s == "ko"@ || s == "ja"@ ==> known_language(s) == s,
        s != "en"@ && s != "ko"@ && s != "ja"@ ==> known_language(s) == "en"@,
{
}

/// A stored preference is used unless it is missing or empty.
pub proof fn law_stored_preferences_are_used(stored: Option<Seq<u8>>, default: Seq<char>)
    ensures
        registry::stored_text(stored) is Some && registry::stored_text(stored)->0.len() > 0
            ==> stored_or(stored, default) == registry::stored_text(stored)->0,
        registry::stored_text(stored) is None || registry::stored_text(stored)->0.len() == 0
            ==> stored_or(stored, default) == default,
{
}

} // verus!
