//! Values and keys of the per-user registry.

use vstd::prelude::*;
use vstd::string::*;
use crate::ffi;
use crate::text;

verus! {

/// The status of a registry call that succeeded.
pub const ERROR_SUCCESS: u32 = 0;

/// The status of a call on a value that is not there.
pub const ERROR_FILE_NOT_FOUND: u32 = 2;

/// The status of a call on a key that is not there.
pub const ERROR_PATH_NOT_FOUND: u32 = 3;

// ---------------------------------------------------------------------------
// Text values
// ---------------------------------------------------------------------------

/// The 16-bit units in bytes, low byte first. An odd byte at the end is left
/// out.
pub open spec fn units_in(bytes: Seq<u8>) -> Seq<u16> {
    Seq::new(
        bytes.len() / 2,
        |i: int| (bytes[2 * i] + 0x100 * bytes[2 * i + 1]) as u16,
    )
}

/// The text of a value: its units as text, without zeros at the end.
pub open spec fn value_text(bytes: Seq<u8>) -> Seq<char> {
    text::without_trailing(ffi::lossy_utf16(units_in(bytes)), '\0')
}

/// Reads back what was written as terminated text.
proof fn lemma_units_in(units: Seq<u16>)
    ensures
        units_in(text::little_endian(units)) == units,
{
    let bytes = text::little_endian(units);
    assert forall|i: int| 0 <= i < units.len() implies units_in(bytes)[i] == units[i] by {
        let low = bytes[2 * i];
        let high = bytes[2 * i + 1];
        assert((2 * i) % 2 == 0);
        assert((2 * i) / 2 == i);
        assert((2 * i + 1) % 2 == 1);
        assert((2 * i + 1) / 2 == i);
        assert(low == units[i] % 256);
        assert(high == units[i] / 256);
    }
    assert(units_in(bytes) =~= units);
}

/// A text that does not end with a zero character is read back from the value
/// that it was written to.
pub proof fn law_stored_text_reads_back(s: Seq<char>)
    requires
        s.len() == 0 || s.last() != '\0',
    ensures
        value_text(text::terminated_utf16(s)) == s,
{
    lemma_units_in(text::utf16(s).push(0));
    let ended = s.push('\0');
    assert(ended.drop_last() =~= s);
    assert(text::utf16_of_char('\0') =~= seq![0u16]);
    assert(text::utf16(ended) =~= text::utf16(s).push(0));
    ffi::law_utf16_reads_back(ended);
    assert(text::without_trailing(ended, '\0') == text::without_trailing(s, '\0'));
}

/// The text of a value: [`value_text`], executable. A text that does not end
/// with a zero character is read back as it was written.
pub fn read_text_value(bytes: &[u8]) -> (out: String)
    ensures
        out@ == value_text(bytes@),
        forall|s: Seq<char>|
            bytes@ == #[trigger] text::terminated_utf16(s) && (s.len() == 0 || s.last() != '\0')
                ==> out@ == s,
{
    let size: usize = bytes.len();
    let mut units: Vec<u16> = Vec::new();
    let mut i: usize = 0;
    while i < size / 2
        invariant
            i <= size / 2,
            size == bytes@.len(),
            units@ == units_in(bytes@).take(i as int),
        decreases size / 2 - i,
    {
        let low: u8 = bytes[2 * i];
        let high: u8 = bytes[2 * i + 1];
        units.push(low as u16 + 0x100 * (high as u16));
        proof {
            let whole = units_in(bytes@);
            assert(whole.take(i + 1) =~= whole.take(i as int).push(whole[i as int]));
        }
        i += 1;
    }
    proof {
        assert(units_in(bytes@).take(i as int) =~= units_in(bytes@));
    }
    let all = ffi::lossy_utf16_text(units.as_slice());
    let chars = text::chars_of(all.as_str());
    let mut end: usize = chars.len();
    proof {
        assert(all@.take(end as int) =~= all@);
    }
    while end > 0 && chars[end - 1] == '\0'
        invariant
            end <= chars@.len(),
            chars@ == all@,
            text::without_trailing(all@, '\0') == text::without_trailing(
                all@.take(end as int),
                '\0',
            ),
        decreases end,
    {
        proof {
            let now = all@.take(end as int);
            assert(now.last() == all@[end - 1]);
            assert(now.drop_last() =~= all@.take(end - 1));
        }
        end -= 1;
    }
    proof {
        if end > 0 {
            assert(all@.take(end as int).last() == all@[end - 1]);
        }
    }
    let part = vstd::slice::slice_subrange(&chars, 0, end);
    let out = text::string_of(part);
    proof {
        assert(part@ =~= all@.take(end as int));
        assert forall|s: Seq<char>|
            bytes@ == #[trigger] text::terminated_utf16(s) && (s.len() == 0 || s.last()
                != '\0') implies out@ == s by {
            law_stored_text_reads_back(s);
        }
    }
    out
}

/// The text of a value that may be missing. An empty value counts as missing.
pub open spec fn stored_text(stored: Option<Seq<u8>>) -> Option<Seq<char>> {
    match stored {
        Some(bytes) => if bytes.len() > 0 {
            Some(value_text(bytes))
        } else {
            None
        },
        None => None,
    }
}

/// The bytes of a value that may be missing.
pub open spec fn stored_bytes(stored: Option<Vec<u8>>) -> Option<Seq<u8>> {
    match stored {
        Some(bytes) => Some(bytes@),
        None => None,
    }
}

/// [`stored_text`], executable. What was written is read back.
pub fn read_string_value(stored: &Option<Vec<u8>>) -> (out: Option<String>)
    ensures
        text::option_text(out) == stored_text(stored_bytes(*stored)),
        forall|s: Seq<char>|
            stored_bytes(*stored) == Some(#[trigger] text::terminated_utf16(s)) && (s.len() == 0
                || s.last() != '\0') ==> text::option_text(out) == Some(s),
{
    match stored {
        Some(bytes) => {
            if bytes.len() == 0 {
                proof {
                    assert forall|s: Seq<char>|
                        bytes@ == #[trigger] text::terminated_utf16(s) implies false by {
                        text::law_registry_text_is_terminated(s);
                    }
                }
                None
            } else {
                Some(read_text_value(bytes.as_slice()))
            }
        },
        None => None,
    }
}

// ---------------------------------------------------------------------------
// Changes
// ---------------------------------------------------------------------------

/// A change to the registry.
#[derive(Debug)]
pub enum RegistryOp {
    /// Sets the unnamed value of a key.
    SetDefault(String, String),
    /// Sets a named value of a key.
    SetNamed(String, String, String),
    DeleteTree(String),
    DeleteValue(String, String),
}

/// A [`RegistryOp`] over sequences.
pub enum RegistryOpView {
    SetDefault(Seq<char>, Seq<char>),
    SetNamed(Seq<char>, Seq<char>, Seq<char>),
    DeleteTree(Seq<char>),
    DeleteValue(Seq<char>, Seq<char>),
}

impl View for RegistryOp {
    type V = RegistryOpView;

    open spec fn view(&self) -> RegistryOpView {
        match *self {
            RegistryOp::SetDefault(key, value) => RegistryOpView::SetDefault(key@, value@),
            RegistryOp::SetNamed(key, name, value) => RegistryOpView::SetNamed(
                key@,
                name@,
                value@,
            ),
            RegistryOp::DeleteTree(key) => RegistryOpView::DeleteTree(key@),
            RegistryOp::DeleteValue(key, name) => RegistryOpView::DeleteValue(key@, name@),
        }
    }
}

/// Changes over sequences.
pub open spec fn op_views(ops: Seq<RegistryOp>) -> Seq<RegistryOpView> {
    Seq::new(ops.len(), |i: int| ops[i]@)
}

/// Adds a change to a list.
pub fn add_op(ops: &mut Vec<RegistryOp>, op: RegistryOp)
    ensures
        op_views(final(ops)@) == op_views(old(ops)@).push(op@),
{
    let ghost before = op_views(ops@);
    let ghost added = op@;
    ops.push(op);
    proof {
        assert(op_views(ops@) =~= before.push(added));
    }
}

/// A change that sets the unnamed value of a key.
pub fn set_default(key: &str, value: &str) -> (op: RegistryOp)
    ensures
        op@ == RegistryOpView::SetDefault(key@, value@),
{
    RegistryOp::SetDefault(key.to_owned(), value.to_owned())
}

/// A change that sets a named value of a key.
pub fn set_named(key: &str, name: &str, value: &str) -> (op: RegistryOp)
    ensures
        op@ == RegistryOpView::SetNamed(key@, name@, value@),
{
    RegistryOp::SetNamed(key.to_owned(), name.to_owned(), value.to_owned())
}

/// Whether a key is another one or stands below it.
pub open spec fn is_at_or_below(key: Seq<char>, above: Seq<char>) -> bool {
    key == above || above.push('\\').is_prefix_of(key)
}

/// Whether a change takes back what another one set: it deletes the value, or
/// a key at or above that of the value.
pub open spec fn undoes(undo: RegistryOpView, op: RegistryOpView) -> bool {
    match (undo, op) {
        (
            RegistryOpView::DeleteValue(key, name),
            RegistryOpView::SetNamed(set_key, set_name, _),
        ) => key == set_key && name == set_name,
        (RegistryOpView::DeleteTree(key), RegistryOpView::SetNamed(set_key, _, _)) =>
            is_at_or_below(set_key, key),
        (RegistryOpView::DeleteTree(key), RegistryOpView::SetDefault(set_key, _)) =>
            is_at_or_below(set_key, key),
        _ => false,
    }
}

/// Which value of the registry: the one of a key that has this name, or its
/// default value.
pub struct ValueId {
    pub key: Seq<char>,
    pub name: Option<Seq<char>>,
}

/// The values of the registry once a change was made.
pub open spec fn changed(values: Map<ValueId, Seq<char>>, op: RegistryOpView) -> Map<
    ValueId,
    Seq<char>,
> {
    match op {
        RegistryOpView::SetDefault(key, value) => values.insert(ValueId { key, name: None }, value),
        RegistryOpView::SetNamed(key, name, value) => values.insert(
            ValueId { key, name: Some(name) },
            value,
        ),
        RegistryOpView::DeleteTree(tree) => Map::new(
            |id: ValueId| values.contains_key(id) && !is_at_or_below(id.key, tree),
            |id: ValueId| values[id],
        ),
        RegistryOpView::DeleteValue(key, name) => values.remove(ValueId { key, name: Some(name) }),
    }
}

/// The values of the registry once the first `n` changes were made.
pub open spec fn all_changed(
    values: Map<ValueId, Seq<char>>,
    ops: Seq<RegistryOpView>,
    n: int,
) -> Map<ValueId, Seq<char>>
    decreases n,
{
    if n <= 0 {
        values
    } else {
        changed(all_changed(values, ops, n - 1), ops[n - 1])
    }
}

/// Whether a change may alter a value.
pub open spec fn reaches(op: RegistryOpView, id: ValueId) -> bool {
    match op {
        RegistryOpView::SetDefault(key, _) => id == (ValueId { key, name: None }),
        RegistryOpView::SetNamed(key, name, _) => id == (ValueId { key, name: Some(name) }),
        RegistryOpView::DeleteTree(tree) => is_at_or_below(id.key, tree),
        RegistryOpView::DeleteValue(key, name) => id == (ValueId { key, name: Some(name) }),
    }
}

/// Whether a change only takes values away.
pub open spec fn only_removes(op: RegistryOpView) -> bool {
    op is DeleteTree || op is DeleteValue
}

/// A value that no change reaches stays as it is.
pub proof fn lemma_unreached_stays(
    values: Map<ValueId, Seq<char>>,
    ops: Seq<RegistryOpView>,
    n: int,
    id: ValueId,
)
    requires
        0 <= n <= ops.len(),
        forall|i: int| 0 <= i < n ==> !reaches(#[trigger] ops[i], id),
    ensures
        all_changed(values, ops, n).contains_key(id) == values.contains_key(id),
        values.contains_key(id) ==> all_changed(values, ops, n)[id] == values[id],
    decreases n,
{
    if n > 0 {
        lemma_unreached_stays(values, ops, n - 1, id);
        assert(!reaches(ops[n - 1], id));
    }
}

/// Changes that only remove leave no value that one of them reaches, and add
/// none.
pub proof fn lemma_removed_is_gone(
    values: Map<ValueId, Seq<char>>,
    ops: Seq<RegistryOpView>,
    n: int,
    id: ValueId,
)
    requires
        0 <= n <= ops.len(),
        forall|i: int| 0 <= i < n ==> only_removes(#[trigger] ops[i]),
    ensures
        (exists|i: int| 0 <= i < n && reaches(#[trigger] ops[i], id)) ==> !all_changed(
            values,
            ops,
            n,
        ).contains_key(id),
        all_changed(values, ops, n).contains_key(id) ==> values.contains_key(id) && all_changed(
            values,
            ops,
            n,
        )[id] == values[id],
    decreases n,
{
    if n > 0 {
        lemma_removed_is_gone(values, ops, n - 1, id);
        assert(only_removes(ops[n - 1]));
    }
}

/// What the `Debug` format makes of a text.
pub uninterp spec fn debug_text(s: Seq<char>) -> Seq<char>;

/// The `Debug` format of `str` puts a text in quotes and escapes what cannot
/// be shown. Which characters are escaped, and how, is left unsaid.
#[verifier::external_body]
fn debug_quoted(s: &str) -> (out: String)
    ensures
        out@ == debug_text(s@),
{
    format!("{s:?}")
}

/// The message for a registry call that failed.
pub open spec fn failed_message(operation: Seq<char>, subject: Seq<char>, status: u32) -> Seq<
    char,
> {
    "Could not "@ + operation + " "@ + debug_text(subject) + " (Windows error "@ + text::decimal(
        status as nat,
    ) + ")"@
}

/// [`failed_message`], executable.
fn failure_message(operation: &str, subject: &str, status: u32) -> (message: String)
    ensures
        message@ == failed_message(operation@, subject@, status),
{
    let mut message = text::join3("Could not ", operation, " ");
    message.append(debug_quoted(subject).as_str());
    message.append(" (Windows error ");
    message.append(text::decimal_text(status as u64).as_str());
    message.append(")");
    message
}

/// An error message over sequences.
pub open spec fn message_view(result: Result<(), String>) -> Result<(), Seq<char>> {
    match result {
        Ok(_) => Ok(()),
        Err(message) => Err(message@),
    }
}

/// Whether a call succeeded.
pub fn require_success(status: u32, operation: &str, subject: &str) -> (done: Result<(), String>)
    ensures
        message_view(done) == if status == ERROR_SUCCESS {
            Ok(())
        } else {
            Err(failed_message(operation@, subject@, status))
        },
{
    if status == ERROR_SUCCESS {
        Ok(())
    } else {
        Err(failure_message(operation, subject, status))
    }
}

/// Whether something is gone after a call: it was deleted, or never there.
pub fn require_deleted(status: u32, operation: &str, subject: &str) -> (done: Result<(), String>)
    ensures
        message_view(done) == if status == ERROR_SUCCESS || status == ERROR_FILE_NOT_FOUND || status
            == ERROR_PATH_NOT_FOUND {
            Ok(())
        } else {
            Err(failed_message(operation@, subject@, status))
        },
{
    if status == ERROR_SUCCESS || status == ERROR_FILE_NOT_FOUND || status == ERROR_PATH_NOT_FOUND {
        Ok(())
    } else {
        Err(failure_message(operation, subject, status))
    }
}

/// What a change comes to. Writing a value takes two calls: `opened` is the
/// status of opening the key, `changed` that of the change itself.
pub fn op_outcome(op: &RegistryOp, opened: u32, changed: u32) -> (done: Result<(), String>)
    ensures
        message_view(done) == match op@ {
            RegistryOpView::SetDefault(key, value) => set_outcome(key, value, opened, changed),
            RegistryOpView::SetNamed(key, _, value) => set_outcome(key, value, opened, changed),
            RegistryOpView::DeleteTree(key) => delete_outcome(
                "delete registry tree"@,
                key,
                changed,
            ),
            RegistryOpView::DeleteValue(_, name) => delete_outcome(
                "delete registry value"@,
                name,
                changed,
            ),
        },
{
    match op {
        RegistryOp::SetDefault(key, value) => set_done(
            key.as_str(),
            value.as_str(),
            opened,
            changed,
        ),
        RegistryOp::SetNamed(key, _, value) => set_done(
            key.as_str(),
            value.as_str(),
            opened,
            changed,
        ),
        RegistryOp::DeleteTree(key) => require_deleted(
            changed,
            "delete registry tree",
            key.as_str(),
        ),
        RegistryOp::DeleteValue(_, name) => require_deleted(
            changed,
            "delete registry value",
            name.as_str(),
        ),
    }
}

/// What writing a value comes to.
pub open spec fn set_outcome(key: Seq<char>, value: Seq<char>, opened: u32, changed: u32) -> Result<
    (),
    Seq<char>,
> {
    if opened != ERROR_SUCCESS {
        Err(failed_message("create registry key"@, key, opened))
    } else if changed != ERROR_SUCCESS {
        Err(failed_message("write registry value"@, value, changed))
    } else {
        Ok(())
    }
}

/// [`set_outcome`], executable.
fn set_done(key: &str, value: &str, opened: u32, changed: u32) -> (done: Result<(), String>)
    ensures
        message_view(done) == set_outcome(key@, value@, opened, changed),
{
    match require_success(opened, "create registry key", key) {
        Err(message) => Err(message),
        Ok(_) => require_success(changed, "write registry value", value),
    }
}

/// What deleting something comes to.
pub open spec fn delete_outcome(operation: Seq<char>, subject: Seq<char>, status: u32) -> Result<
    (),
    Seq<char>,
> {
    if status == ERROR_SUCCESS || status == ERROR_FILE_NOT_FOUND || status == ERROR_PATH_NOT_FOUND {
        Ok(())
    } else {
        Err(failed_message(operation, subject, status))
    }
}

/// A value is set when the key could be opened and the value written; a key
/// or a value is removed also where it was not there.
pub proof fn law_outcomes_of_changes(
    key: Seq<char>,
    value: Seq<char>,
    operation: Seq<char>,
    opened: u32,
    changed: u32,
)
    ensures
        set_outcome(key, value, opened, changed) is Ok <==> opened == 0 && changed == 0,
        delete_outcome(operation, key, changed) is Ok <==> changed == 0 || changed == 2 || changed
            == 3,
{
}

/// A change does what it says: a value that is set has that text, a value or
/// a tree that is deleted is gone, and nothing else changes.
pub proof fn law_changes_do_what_they_say(
    values: Map<ValueId, Seq<char>>,
    key: Seq<char>,
    name: Seq<char>,
    value: Seq<char>,
    id: ValueId,
)
    ensures
        changed(values, RegistryOpView::SetNamed(key, name, value))[ValueId {
            key,
            name: Some(name),
        }] == value,
        changed(values, RegistryOpView::SetDefault(key, value))[ValueId { key, name: None }]
            == value,
        !changed(values, RegistryOpView::DeleteValue(key, name)).contains_key(
            ValueId { key, name: Some(name) },
        ),
        id.key == key || key.push('\\').is_prefix_of(id.key) ==> !changed(
            values,
            RegistryOpView::DeleteTree(key),
        ).contains_key(id),
        id.key != key && !key.push('\\').is_prefix_of(id.key) && values.contains_key(id)
            ==> changed(values, RegistryOpView::DeleteTree(key)).contains_key(id) && changed(
            values,
            RegistryOpView::DeleteTree(key),
        )[id] == values[id],
        id != (ValueId { key, name: Some(name) }) && values.contains_key(id) ==> {
            &&& changed(values, RegistryOpView::SetNamed(key, name, value)).contains_key(id)
            &&& changed(values, RegistryOpView::SetNamed(key, name, value))[id] == values[id]
            &&& changed(values, RegistryOpView::DeleteValue(key, name)).contains_key(id)
            &&& changed(values, RegistryOpView::DeleteValue(key, name))[id] == values[id]
        },
{
}

} // verus!
