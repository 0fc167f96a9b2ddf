//! Paths of archive entries, as sequences of names.

use vstd::prelude::*;
use vstd::string::*;
use crate::error::{ArchiveError, ArchiveResult, ErrorView};
use crate::text;

verus! {

/// Whether the character separates the names of a path.
pub open spec fn is_separator(c: char) -> bool {
    c == '/' || c == '\\'
}

/// [`is_separator`], executable.
pub fn separates(c: char) -> (yes: bool)
    ensures
        yes == is_separator(c),
{
    c == '/' || c == '\\'
}

/// The names of a path: its nonempty pieces between separators.
pub open spec fn components(s: Seq<char>) -> Seq<Seq<char>>
    decreases s.len(),
{
    if s.len() == 0 {
        Seq::empty()
    } else {
        let before = components(s.drop_last());
        if is_separator(s.last()) {
            before
        } else if s.len() == 1 || is_separator(s[s.len() - 2]) {
            before.push(seq![s.last()])
        } else {
            before.drop_last().push(before.last().push(s.last()))
        }
    }
}

/// A text that does not end in a separator has a last name.
pub proof fn lemma_components_nonempty(s: Seq<char>)
    requires
        s.len() > 0,
        !is_separator(s.last()),
    ensures
        components(s).len() > 0,
        components(s).last().len() > 0,
{
}

/// No name of a path is empty or holds a separator.
pub proof fn lemma_components_are_names(s: Seq<char>)
    ensures
        forall|i: int|
            0 <= i < components(s).len() ==> (#[trigger] components(s)[i]).len() > 0 && forall|
                k: int,
            | 0 <= k < components(s)[i].len() ==> !is_separator(#[trigger] components(s)[i][k]),
    decreases s.len(),
{
    if s.len() > 0 {
        let before = components(s.drop_last());
        lemma_components_are_names(s.drop_last());
        if !is_separator(s.last()) && s.len() > 1 && !is_separator(s[s.len() - 2]) {
            assert(s.drop_last().last() == s[s.len() - 2]);
            lemma_components_nonempty(s.drop_last());
            assert forall|i: int| 0 <= i < components(s).len() implies (#[trigger] components(
                s,
            )[i]).len() > 0 && forall|k: int|
                0 <= k < components(s)[i].len() ==> !is_separator(#[trigger] components(s)[i][k]) by {
                if i < before.len() - 1 {
                    assert(components(s)[i] == before[i]);
                } else {
                    assert(components(s)[i] == before.last().push(s.last()));
                    assert(before.last() == before[before.len() - 1]);
                }
            }
        }
    }
}

/// A separator parts a path: the names before it come first, then the names
/// behind it. Slashes and backslashes both separate.
pub proof fn law_paths_split_at_separators(a: Seq<char>, separator: char, b: Seq<char>)
    requires
        separator == '/' || separator == '\\',
    ensures
        components(a + seq![separator] + b) == components(a) + components(b),
    decreases b.len(),
{
    let whole = a + seq![separator] + b;
    if b.len() == 0 {
        assert(whole.drop_last() =~= a);
        assert(whole.last() == separator);
        assert(components(a) + components(b) =~= components(a));
    } else {
        let rest = b.drop_last();
        law_paths_split_at_separators(a, separator, rest);
        assert(whole.drop_last() =~= a + seq![separator] + rest);
        assert(whole.last() == b.last());
        assert(whole[whole.len() - 2] == if b.len() == 1 {
            separator
        } else {
            b[b.len() - 2]
        });
        if !is_separator(b.last()) {
            if b.len() == 1 || is_separator(b[b.len() - 2]) {
                assert(components(whole) =~= components(a) + components(b));
            } else {
                assert(rest.last() == b[b.len() - 2]);
                lemma_components_nonempty(rest);
                let joined = components(a) + components(rest);
                assert(joined.last() == components(rest).last());
                assert(joined.drop_last() =~= components(a) + components(rest).drop_last());
                assert(components(whole) =~= components(a) + components(b));
            }
        }
    }
}

/// A text without separators is one name; an empty one is none.
pub proof fn law_text_without_separators_is_one_name(name: Seq<char>)
    requires
        forall|k: int| 0 <= k < name.len() ==> name[k] != '/' && name[k] != '\\',
    ensures
        name.len() > 0 ==> components(name) == seq![name],
        name.len() == 0 ==> components(name).len() == 0,
    decreases name.len(),
{
    if name.len() > 0 {
        let rest = name.drop_last();
        assert forall|k: int| 0 <= k < rest.len() implies rest[k] != '/' && rest[k] != '\\' by {
            assert(rest[k] == name[k]);
        }
        law_text_without_separators_is_one_name(rest);
        assert(name.last() == name[name.len() - 1]);
        if name.len() == 1 {
            assert(components(rest) =~= Seq::<Seq<char>>::empty());
            assert(name =~= seq![name.last()]);
            assert(components(name) =~= seq![name]);
        } else {
            assert(name[name.len() - 2] == rest[rest.len() - 1]);
            assert(rest.push(name.last()) =~= name);
            assert(components(rest) == seq![rest]);
            assert(components(rest).last() == rest);
            assert(components(name) =~= seq![name]);
        }
    }
}

/// Splits a path into its names.
pub fn split_components(path: &str) -> (names: Vec<String>)
    ensures
        text::texts(names@) == components(path@),
{
    let chars = text::chars_of(path);
    let mut names: Vec<String> = Vec::new();
    let mut open: bool = false;
    let mut current: String = String::new();
    let mut i: usize = 0;
    let ghost s = path@;
    proof {
        assert(s.take(0) =~= Seq::<char>::empty());
        assert(text::texts(names@) =~= Seq::<Seq<char>>::empty());
    }
    while i < chars.len()
        invariant
            i <= chars@.len(),
            chars@ == s,
            open == (i > 0 && !is_separator(s[i - 1])),
            open ==> components(s.take(i as int)) == text::texts(names@).push(current@),
            !open ==> components(s.take(i as int)) == text::texts(names@) && current@
                == Seq::<char>::empty(),
        decreases chars@.len() - i,
    {
        let c: char = chars[i];
        let ghost taken = s.take(i + 1);
        proof {
            assert(taken.drop_last() =~= s.take(i as int));
            assert(taken.last() == c);
            if i > 0 {
                assert(taken[taken.len() - 2] == s[i - 1]);
            }
        }
        if separates(c) {
            if open {
                let ghost before = text::texts(names@);
                let ghost name = current@;
                names.push(current);
                current = String::new();
                open = false;
                proof {
                    assert(text::texts(names@) =~= before.push(name));
                }
            }
        } else {
            let ghost before = current@;
            current.push(c);
            proof {
                if open {
                    let known = text::texts(names@).push(before);
                    assert(known.drop_last() =~= text::texts(names@));
                    assert(known.last() == before);
                } else {
                    assert(current@ =~= seq![c]);
                }
            }
            open = true;
        }
        i += 1;
    }
    proof {
        assert(s.take(i as int) =~= s);
    }
    if open {
        let ghost before = text::texts(names@);
        let ghost name = current@;
        names.push(current);
        proof {
            assert(text::texts(names@) =~= before.push(name));
        }
    }
    names
}

/// Whether the character is an ASCII letter.
pub open spec fn is_letter(c: char) -> bool {
    'a' <= c <= 'z' || 'A' <= c <= 'Z'
}

/// Whether a text starts with a drive: a letter and a colon.
pub open spec fn has_drive(s: Seq<char>) -> bool {
    s.len() >= 2 && is_letter(s[0]) && s[1] == ':'
}

/// [`has_drive`], executable.
fn starts_with_drive(chars: &[char]) -> (yes: bool)
    ensures
        yes == has_drive(chars@),
{
    chars.len() >= 2 && (('a' <= chars[0] && chars[0] <= 'z') || ('A' <= chars[0] && chars[0]
        <= 'Z')) && chars[1] == ':'
}

/// The names of a path that is put together name by name. One that starts with
/// a drive replaces what came before it.
pub open spec fn put_together(names: Seq<Seq<char>>) -> Seq<Seq<char>>
    decreases names.len(),
{
    if names.len() == 0 {
        Seq::empty()
    } else if has_drive(names.last()) {
        seq![names.last()]
    } else {
        put_together(names.drop_last()).push(names.last())
    }
}

/// The names of an entry's path, by the text that is shown for it.
pub open spec fn entry_names(display: Seq<char>) -> Seq<Seq<char>> {
    put_together(components(display))
}

/// The path of an entry, by the text that is shown for it. Separators at the
/// start and the end, and repeated ones, do not count.
pub fn build_path(display: &str) -> (path: ArchiveResult<Vec<String>>)
    ensures
        match path {
            Ok(path) => text::texts(path@) == entry_names(display@) && path@.len() > 0,
            Err(error) => entry_names(display@).len() == 0 && error@ == ErrorView::UnsafeEntryPath(
                display@,
            ),
        },
{
    let names = split_components(display);
    let ghost views = text::texts(names@);
    let mut path: Vec<String> = Vec::new();
    let mut i: usize = 0;
    proof {
        assert(views.take(0) =~= Seq::<Seq<char>>::empty());
        assert(text::texts(path@) =~= Seq::<Seq<char>>::empty());
    }
    while i < names.len()
        invariant
            i <= names@.len(),
            views == text::texts(names@),
            text::texts(path@) == put_together(views.take(i as int)),
        decreases names@.len() - i,
    {
        let chars = text::chars_of(names[i].as_str());
        proof {
            assert(views.take(i + 1).drop_last() =~= views.take(i as int));
            assert(views.take(i + 1).last() == names@[i as int]@);
        }
        if starts_with_drive(chars.as_slice()) {
            path = Vec::new();
            path.push(names[i].clone());
            proof {
                assert(text::texts(path@) =~= seq![names@[i as int]@]);
            }
        } else {
            let ghost before = text::texts(path@);
            path.push(names[i].clone());
            proof {
                assert(text::texts(path@) =~= before.push(names@[i as int]@));
            }
        }
        i += 1;
    }
    proof {
        assert(views.take(i as int) =~= views);
    }
    if path.len() == 0 {
        return Err(ArchiveError::UnsafeEntryPath(display.to_owned()));
    }
    Ok(path)
}

// ---------------------------------------------------------------------------
// Path safety
// ---------------------------------------------------------------------------

/// The part of a name that decides whether it is a device: what stands before
/// its first dot, without spaces at the end, in lower case.
pub open spec fn device_stem(name: Seq<char>) -> Seq<char>
    decreases name.len(),
{
    text::lower(without_trailing_spaces(before_first_dot(name)))
}

/// What stands before the first dot.
pub open spec fn before_first_dot(name: Seq<char>) -> Seq<char>
    decreases name.len(),
{
    if name.len() == 0 || name[0] == '.' {
        Seq::empty()
    } else {
        seq![name[0]] + before_first_dot(name.drop_first())
    }
}

/// A name without the spaces at its end.
pub open spec fn without_trailing_spaces(name: Seq<char>) -> Seq<char>
    decreases name.len(),
{
    if name.len() > 0 && name.last() == ' ' {
        without_trailing_spaces(name.drop_last())
    } else {
        name
    }
}

/// Whether a name belongs to a device instead of a file, whatever its
/// extension.
pub open spec fn is_device(name: Seq<char>) -> bool {
    let stem = device_stem(name);
    ||| stem == "con"@
    ||| stem == "prn"@
    ||| stem == "aux"@
    ||| stem == "nul"@
    ||| stem.len() == 4 && ("com"@.is_prefix_of(stem) || "lpt"@.is_prefix_of(stem)) && '1'
        <= stem[3] <= '9'
}

/// Whether a name may stand in a path below the destination.
pub open spec fn is_safe_name(name: Seq<char>) -> bool {
    &&& name.len() > 0
    &&& name != ".."@
    &&& name != "."@
    &&& !name.contains(':')
    &&& !is_device(name)
}

/// The names of a path that count: a single dot stands for the directory
/// itself.
pub open spec fn without_dots(names: Seq<Seq<char>>) -> Seq<Seq<char>>
    decreases names.len(),
{
    if names.len() == 0 {
        Seq::empty()
    } else if names.last() == "."@ {
        without_dots(names.drop_last())
    } else {
        without_dots(names.drop_last()).push(names.last())
    }
}

/// Whether a path stays below the destination: it has names, and all of them
/// are safe.
pub open spec fn is_safe_path(names: Seq<Seq<char>>) -> bool {
    &&& names.len() > 0
    &&& forall|i: int| 0 <= i < names.len() ==> is_safe_name(#[trigger] names[i])
}

/// [`device_stem`], executable.
fn device_stem_of(name: &str) -> (stem: String)
    ensures
        stem@ == device_stem(name@),
{
    let chars = text::chars_of(name);
    let mut end: usize = 0;
    while end < chars.len() && chars[end] != '.'
        invariant
            end <= chars@.len(),
            forall|k: int| 0 <= k < end ==> chars@[k] != '.',
        decreases chars@.len() - end,
    {
        end += 1;
    }
    let ghost head = chars@.subrange(0, end as int);
    proof {
        lemma_before_first_dot(chars@, end as int);
    }
    let mut length: usize = end;
    while length > 0 && chars[length - 1] == ' '
        invariant
            length <= end <= chars@.len(),
            head == chars@.subrange(0, end as int),
            without_trailing_spaces(head) == without_trailing_spaces(
                chars@.subrange(0, length as int),
            ),
        decreases length,
    {
        proof {
            let now = chars@.subrange(0, length as int);
            assert(now.drop_last() =~= chars@.subrange(0, length - 1));
            assert(now.last() == ' ');
        }
        length -= 1;
    }
    proof {
        let now = chars@.subrange(0, length as int);
        if now.len() > 0 {
            assert(now.last() == chars@[length - 1]);
        }
    }
    let stem = vstd::slice::slice_subrange(&chars, 0, length);
    let lowered = text::lower_chars(stem);
    text::string_of(&lowered)
}

/// Where the first dot is, the part before it ends.
pub proof fn lemma_before_first_dot(s: Seq<char>, end: int)
    requires
        0 <= end <= s.len(),
        forall|k: int| 0 <= k < end ==> s[k] != '.',
        end < s.len() ==> s[end] == '.',
    ensures
        before_first_dot(s) == s.subrange(0, end),
    decreases s.len(),
{
    if s.len() == 0 || s[0] == '.' {
        assert(end == 0);
        assert(s.subrange(0, end) =~= Seq::<char>::empty());
    } else {
        lemma_before_first_dot(s.drop_first(), end - 1);
        assert(seq![s[0]] + s.drop_first().subrange(0, end - 1) =~= s.subrange(0, end));
    }
}

/// [`is_device`], executable.
fn names_device(name: &str) -> (yes: bool)
    ensures
        yes == is_device(name@),
{
    let stem = device_stem_of(name);
    if text::same_text(stem.as_str(), "con") || text::same_text(stem.as_str(), "prn")
        || text::same_text(stem.as_str(), "aux") || text::same_text(stem.as_str(), "nul") {
        return true;
    }
    let chars = text::chars_of(stem.as_str());
    if chars.len() != 4 {
        return false;
    }
    (text::starts_with(stem.as_str(), "com") || text::starts_with(stem.as_str(), "lpt")) && '1'
        <= chars[3] && chars[3] <= '9'
}

/// [`is_safe_name`], executable.
fn name_is_safe(name: &str) -> (yes: bool)
    ensures
        yes == is_safe_name(name@),
{
    !name.is_empty() && !text::same_text(name, "..") && !text::same_text(name, ".")
        && !text::contains_char(name, ':') && !names_device(name)
}

/// Checks the names of an entry's path. Entries that would leave the
/// destination, or name a device, are refused under the name that is `shown`.
pub fn safe_components(path: &Vec<String>, shown: &str) -> (safe: ArchiveResult<Vec<String>>)
    ensures
        match safe {
            Ok(safe) => text::texts(safe@) == without_dots(text::texts(path@)) && is_safe_path(text::texts(safe@)),
            Err(error) => !is_safe_path(without_dots(text::texts(path@))) && error@
                == ErrorView::UnsafeEntryPath(shown@),
        },
{
    let mut safe: Vec<String> = Vec::new();
    let ghost names = text::texts(path@);
    let mut i: usize = 0;
    proof {
        assert(names.take(0) =~= Seq::<Seq<char>>::empty());
        assert(text::texts(safe@) =~= Seq::<Seq<char>>::empty());
    }
    while i < path.len()
        invariant
            i <= path@.len(),
            names == text::texts(path@),
            text::texts(safe@) == without_dots(names.take(i as int)),
            forall|k: int| 0 <= k < safe@.len() ==> is_safe_name(#[trigger] text::texts(safe@)[k]),
        decreases path@.len() - i,
    {
        let name = path[i].as_str();
        proof {
            assert(names.take(i + 1).drop_last() =~= names.take(i as int));
            assert(names.take(i + 1).last() == name@);
        }
        if !text::same_text(name, ".") {
            if !name_is_safe(name) {
                proof {
                    lemma_without_dots_keeps(names, i as int);
                }
                return Err(ArchiveError::UnsafeEntryPath(shown.to_owned()));
            }
            let ghost before = text::texts(safe@);
            safe.push(path[i].clone());
            proof {
                assert(text::texts(safe@) =~= before.push(name@));
            }
        }
        i += 1;
    }
    proof {
        assert(names.take(i as int) =~= names);
    }
    if safe.len() == 0 {
        return Err(ArchiveError::UnsafeEntryPath(shown.to_owned()));
    }
    Ok(safe)
}

/// A name that is no dot stays among those that count.
pub proof fn lemma_without_dots_keeps(names: Seq<Seq<char>>, i: int)
    requires
        0 <= i < names.len(),
        names[i] != "."@,
    ensures
        exists|k: int| 0 <= k < without_dots(names).len() && without_dots(names)[k] == names[i],
    decreases names.len(),
{
    if i == names.len() - 1 {
        let w = without_dots(names);
        assert(w[w.len() - 1] == names[i]);
    } else {
        lemma_without_dots_keeps(names.drop_last(), i);
        let before = without_dots(names.drop_last());
        let k = choose|k: int| 0 <= k < before.len() && before[k] == names.drop_last()[i];
        assert(without_dots(names)[k] == names[i]);
    }
}

/// What is left of a path without single dots are names of that path.
pub proof fn lemma_without_dots_are_names(names: Seq<Seq<char>>)
    ensures
        without_dots(names).len() <= names.len(),
        forall|k: int|
            0 <= k < without_dots(names).len() ==> names.contains(
                #[trigger] without_dots(names)[k],
            ) && without_dots(names)[k] != "."@,
    decreases names.len(),
{
    if names.len() > 0 {
        let rest = names.drop_last();
        lemma_without_dots_are_names(rest);
        assert forall|k: int| 0 <= k < without_dots(names).len() implies names.contains(
            #[trigger] without_dots(names)[k],
        ) && without_dots(names)[k] != "."@ by {
            if k < without_dots(rest).len() {
                assert(without_dots(names)[k] == without_dots(rest)[k]);
                let i = choose|i: int| 0 <= i < rest.len() && rest[i] == without_dots(rest)[k];
                assert(names[i] == rest[i]);
            } else {
                assert(names[names.len() - 1] == without_dots(names)[k]);
            }
        }
    }
}

/// A path without single dots is kept as it is.
pub proof fn lemma_without_dots_same(names: Seq<Seq<char>>)
    requires
        forall|k: int| 0 <= k < names.len() ==> #[trigger] names[k] != "."@,
    ensures
        without_dots(names) == names,
    decreases names.len(),
{
    if names.len() > 0 {
        let rest = names.drop_last();
        assert forall|k: int| 0 <= k < rest.len() implies #[trigger] rest[k] != "."@ by {
            assert(rest[k] == names[k]);
        }
        lemma_without_dots_same(rest);
        assert(names[names.len() - 1] != "."@);
        assert(without_dots(names) =~= names);
    } else {
        assert(without_dots(names) =~= names);
    }
}

/// Whether a path starts at the root instead of below the destination.
pub open spec fn is_rooted(s: Seq<char>) -> bool {
    s.len() > 0 && is_separator(s[0])
}

/// [`is_rooted`], executable.
pub fn starts_rooted(path: &str) -> (yes: bool)
    ensures
        yes == is_rooted(path@),
{
    !path.is_empty() && separates(path.get_char(0))
}

/// The names that an entry's path has below the destination, or an error for
/// one that is absolute, goes up, names a drive or a stream, or is a device.
pub fn safe_relative_path(path: &str) -> (safe: ArchiveResult<Vec<String>>)
    ensures
        match safe {
            Ok(safe) => {
                &&& !is_rooted(path@)
                &&& text::texts(safe@) == without_dots(components(path@))
                &&& is_safe_path(text::texts(safe@))
            },
            Err(error) => {
                &&& is_rooted(path@) || !is_safe_path(without_dots(components(path@)))
                &&& error@ == ErrorView::UnsafeEntryPath(path@)
            },
        },
{
    if starts_rooted(path) {
        return Err(ArchiveError::UnsafeEntryPath(path.to_owned()));
    }
    let names = split_components(path);
    safe_components(&names, path)
}

/// A path that goes up anywhere is refused.
pub proof fn law_parent_traversal_is_unsafe(names: Seq<Seq<char>>, i: int)
    requires
        0 <= i < names.len(),
        names[i] == ".."@,
    ensures
        !is_safe_path(without_dots(names)),
{
    reveal_strlit(".");
    reveal_strlit("..");
    assert("."@.len() == 1 && ".."@.len() == 2);
    lemma_without_dots_keeps(names, i);
}

/// A path that names a drive, or a stream of a file, is refused.
pub proof fn law_drive_or_stream_is_unsafe(names: Seq<Seq<char>>, i: int)
    requires
        0 <= i < names.len(),
        names[i].contains(':'),
    ensures
        !is_safe_path(without_dots(names)),
{
    reveal_strlit(".");
    let at = choose|at: int| 0 <= at < names[i].len() && names[i][at] == ':';
    assert(names[i][at] == ':');
    if names[i] == "."@ {
        assert("."@[0] == '.' && "."@.len() == 1);
    }
    lemma_without_dots_keeps(names, i);
}

/// A path that names a device is refused.
pub proof fn law_device_name_is_unsafe(names: Seq<Seq<char>>, i: int)
    requires
        0 <= i < names.len(),
        is_device(names[i]),
    ensures
        !is_safe_path(without_dots(names)),
{
    reveal_strlit(".");
    if names[i] == "."@ {
        reveal_strlit("con");
        reveal_strlit("prn");
        reveal_strlit("aux");
        reveal_strlit("nul");
        assert(before_first_dot(names[i]) =~= Seq::<char>::empty());
        assert(device_stem(names[i]).len() == 0);
        assert("con"@.len() == 3 && "prn"@.len() == 3 && "aux"@.len() == 3 && "nul"@.len() == 3);
    }
    lemma_without_dots_keeps(names, i);
}

/// Whether a name goes up, names a drive or a stream, or names a device.
pub open spec fn is_untrusted_name(name: Seq<char>) -> bool {
    name == ".."@ || name.contains(':') || is_device(name)
}

/// A path with an untrusted name is refused.
pub proof fn law_untrusted_name_is_unsafe(names: Seq<Seq<char>>, i: int)
    requires
        0 <= i < names.len(),
        is_untrusted_name(names[i]),
    ensures
        !is_safe_path(without_dots(names)),
{
    if names[i] == ".."@ {
        law_parent_traversal_is_unsafe(names, i);
    } else if names[i].contains(':') {
        law_drive_or_stream_is_unsafe(names, i);
    } else {
        law_device_name_is_unsafe(names, i);
    }
}

/// An ordinary name may stand in an extracted path: one that is neither a dot
/// nor two dots, holds no colon, and does not begin like a device.
pub proof fn law_ordinary_names_are_safe(name: Seq<char>)
    requires
        name.len() > 0,
        name != "."@,
        name != ".."@,
        !name.contains(':'),
        ({
            let c = text::lower_char(name[0]);
            c != 'c' && c != 'p' && c != 'a' && c != 'n' && c != 'l'
        }),
    ensures
        is_safe_name(name),
{
    reveal_strlit("con");
    reveal_strlit("prn");
    reveal_strlit("aux");
    reveal_strlit("nul");
    reveal_strlit("com");
    reveal_strlit("lpt");
    let front = before_first_dot(name);
    let kept = without_trailing_spaces(front);
    lemma_without_trailing_spaces(front);
    let stem = device_stem(name);
    if stem.len() > 0 {
        assert(kept.len() > 0);
        assert(front.len() > 0);
        assert(front[0] == name[0]);
        assert(kept[0] == front[0]);
        assert(stem[0] == text::lower_char(name[0]));
    }
    if "com"@.is_prefix_of(stem) {
        assert(stem.subrange(0, 3)[0] == stem[0]);
    }
    if "lpt"@.is_prefix_of(stem) {
        assert(stem.subrange(0, 3)[0] == stem[0]);
    }
}

/// What is left without trailing spaces is the start of the name.
proof fn lemma_without_trailing_spaces(name: Seq<char>)
    ensures
        without_trailing_spaces(name).len() <= name.len(),
        without_trailing_spaces(name) == name.take(without_trailing_spaces(name).len() as int),
    decreases name.len(),
{
    if name.len() > 0 && name.last() == ' ' {
        lemma_without_trailing_spaces(name.drop_last());
        assert(without_trailing_spaces(name) =~= name.take(
            without_trailing_spaces(name).len() as int,
        ));
    } else {
        assert(name.take(name.len() as int) =~= name);
    }
}

/// Whether a text names a device, in any case: `CON`, `PRN`, `AUX`, `NUL`, and
/// `COM` or `LPT` with a number from 1 to 9.
pub open spec fn names_a_device(stem: Seq<char>) -> bool {
    let lower = text::lower(stem);
    ||| lower == seq!['c', 'o', 'n'] || lower == seq!['p', 'r', 'n']
    ||| lower == seq!['a', 'u', 'x'] || lower == seq!['n', 'u', 'l']
    ||| stem.len() == 4 && '1' <= stem[3] <= '9' && (lower.take(3) == seq!['c', 'o', 'm']
        || lower.take(3) == seq!['l', 'p', 't'])
}

/// The name of a device is a device with any extension, and with spaces before
/// it.
pub proof fn law_devices_stay_devices(stem: Seq<char>, rest: Seq<char>)
    requires
        names_a_device(stem),
    ensures
        is_device(stem),
        is_device(stem + seq!['.'] + rest),
        is_device(stem + seq![' ', '.'] + rest),
        !is_safe_name(stem + seq!['.'] + rest),
{
    lemma_device_stem(stem, Seq::empty(), Seq::empty());
    assert(stem + Seq::<char>::empty() + Seq::<char>::empty() =~= stem);
    lemma_device_stem(stem, Seq::empty(), seq!['.'] + rest);
    assert(stem + Seq::<char>::empty() + (seq!['.'] + rest) =~= stem + seq!['.'] + rest);
    lemma_device_stem(stem, seq![' '], seq!['.'] + rest);
    assert(stem + seq![' '] + (seq!['.'] + rest) =~= stem + seq![' ', '.'] + rest);
}

/// A device's stem is found before spaces and a dot.
proof fn lemma_device_stem(stem: Seq<char>, spaces: Seq<char>, rest: Seq<char>)
    requires
        names_a_device(stem),
        spaces.len() == 0 || spaces == seq![' '],
        rest.len() == 0 || rest[0] == '.',
    ensures
        is_device(stem + spaces + rest),
{
    reveal_strlit("con");
    reveal_strlit("prn");
    reveal_strlit("aux");
    reveal_strlit("nul");
    reveal_strlit("com");
    reveal_strlit("lpt");
    let name = stem + spaces + rest;
    let lower = text::lower(stem);
    assert(lower.len() == stem.len());
    assert(stem.len() == 3 || stem.len() == 4);
    assert forall|k: int| 0 <= k < stem.len() implies stem[k] != '.' && stem[k] != ' ' by {
        assert(lower[k] == text::lower_char(stem[k]));
        assert(k == 0 || k == 1 || k == 2 || k == 3);
        if k < 3 && stem.len() == 4 {
            assert(lower.take(3)[k] == lower[k]);
            assert(lower.take(3)[0] == 'c' || lower.take(3)[0] == 'l');
        }
    }
    let front = stem + spaces;
    lemma_before_first_dot(name, front.len() as int);
    assert(name.subrange(0, front.len() as int) =~= front);
    if spaces.len() == 1 {
        assert(front.last() == ' ');
        assert(front.drop_last() =~= stem);
    } else {
        assert(front =~= stem);
    }
    assert(stem.last() != ' ');
    reveal_with_fuel(without_trailing_spaces, 2);
    assert(device_stem(name) == lower);
    if stem.len() == 4 {
        assert(lower[3] == stem[3]);
        if lower.take(3) == seq!['c', 'o', 'm'] {
            assert(lower.subrange(0, 3) =~= "com"@);
        }
        if lower.take(3) == seq!['l', 'p', 't'] {
            assert(lower.subrange(0, 3) =~= "lpt"@);
        }
    }
    assert("con"@ =~= seq!['c', 'o', 'n']);
    assert("prn"@ =~= seq!['p', 'r', 'n']);
    assert("aux"@ =~= seq!['a', 'u', 'x']);
    assert("nul"@ =~= seq!['n', 'u', 'l']);
}

/// A path that starts with a slash or a backslash is absolute, and no other.
pub proof fn law_absolute_paths(s: Seq<char>)
    ensures
        is_rooted(s) <==> s.len() > 0 && (s[0] == '/' || s[0] == '\\'),
{
}

/// A path of names without drives is taken name by name.
pub proof fn law_paths_without_drives_keep_their_names(display: Seq<char>)
    requires
        forall|i: int|
            0 <= i < components(display).len() ==> !(#[trigger] components(display)[i]).contains(
                ':',
            ),
    ensures
        entry_names(display) == components(display),
{
    lemma_put_together_same(components(display));
}

/// Names without drives are put together as they are.
proof fn lemma_put_together_same(names: Seq<Seq<char>>)
    requires
        forall|i: int| 0 <= i < names.len() ==> !(#[trigger] names[i]).contains(':'),
    ensures
        put_together(names) == names,
    decreases names.len(),
{
    if names.len() > 0 {
        let rest = names.drop_last();
        assert forall|i: int| 0 <= i < rest.len() implies !(#[trigger] rest[i]).contains(':') by {
            assert(rest[i] == names[i]);
        }
        lemma_put_together_same(rest);
        let last = names[names.len() - 1];
        assert(!last.contains(':'));
        if has_drive(last) {
            assert(last[1] == ':');
        }
        assert(put_together(names) =~= names);
    } else {
        assert(put_together(names) =~= names);
    }
}

// ---------------------------------------------------------------------------
// Selections
// ---------------------------------------------------------------------------

/// Whether the path is `selected` or lies below it.
pub open spec fn lies_below(path: Seq<Seq<char>>, selected: Seq<Seq<char>>) -> bool {
    selected.is_prefix_of(path)
}

/// [`lies_below`], executable.
pub fn path_starts_with(path: &Vec<String>, selected: &Vec<String>) -> (yes: bool)
    ensures
        yes == lies_below(text::texts(path@), text::texts(selected@)),
{
    if selected.len() > path.len() {
        return false;
    }
    let mut i: usize = 0;
    while i < selected.len()
        invariant
            i <= selected@.len() <= path@.len(),
            forall|k: int| 0 <= k < i ==> text::texts(path@)[k] == text::texts(selected@)[k],
        decreases selected@.len() - i,
    {
        if !text::same_text(path[i].as_str(), selected[i].as_str()) {
            proof {
                assert(text::texts(path@).subrange(0, selected@.len() as int)[i as int] != text::texts(
                    selected@,
                )[i as int]);
            }
            return false;
        }
        i += 1;
    }
    proof {
        assert(text::texts(selected@) =~= text::texts(path@).subrange(0, selected@.len() as int));
    }
    true
}

/// The names of a path with backslashes between them.
pub open spec fn joined_names(names: Seq<Seq<char>>) -> Seq<char>
    decreases names.len(),
{
    if names.len() == 0 {
        Seq::empty()
    } else if names.len() == 1 {
        names[0]
    } else {
        joined_names(names.drop_last()) + seq!['\\'] + names.last()
    }
}

/// Names that are joined to a path split back into the same names.
pub proof fn law_joined_names_split_back(names: Seq<Seq<char>>)
    requires
        forall|i: int|
            0 <= i < names.len() ==> (#[trigger] names[i]).len() > 0 && !names[i].contains('/')
                && !names[i].contains('\\'),
    ensures
        components(joined_names(names)) == names,
    decreases names.len(),
{
    if names.len() == 0 {
        assert(components(joined_names(names)) =~= names);
    } else {
        let last = names[names.len() - 1];
        assert(names.last() == last);
        assert forall|k: int| 0 <= k < last.len() implies last[k] != '/' && last[k] != '\\' by {
            assert(last.contains(last[k]));
        }
        law_text_without_separators_is_one_name(last);
        if names.len() > 1 {
            let rest = names.drop_last();
            assert forall|i: int| 0 <= i < rest.len() implies (#[trigger] rest[i]).len() > 0
                && !rest[i].contains('/') && !rest[i].contains('\\') by {
                assert(rest[i] == names[i]);
            }
            law_joined_names_split_back(rest);
            law_paths_split_at_separators(joined_names(rest), '\\', last);
            assert(rest + seq![last] =~= names);
        } else {
            assert(names =~= seq![last]);
        }
    }
}

/// [`joined_names`], executable.
pub fn path_text(path: &Vec<String>) -> (out: String)
    ensures
        out@ == joined_names(text::texts(path@)),
{
    let mut out = String::new();
    let ghost names = text::texts(path@);
    let mut i: usize = 0;
    proof {
        assert(names.take(0) =~= Seq::<Seq<char>>::empty());
    }
    while i < path.len()
        invariant
            i <= path@.len(),
            names == text::texts(path@),
            out@ == joined_names(names.take(i as int)),
        decreases path@.len() - i,
    {
        let ghost before = out@;
        if i > 0 {
            out.push('\\');
        }
        out.append(path[i].as_str());
        proof {
            let now = names.take(i + 1);
            assert(now.drop_last() =~= names.take(i as int));
            assert(now.last() == path@[i as int]@);
            if i > 0 {
                assert(out@ =~= before + seq!['\\'] + now.last());
            } else {
                assert(out@ =~= now[0]);
            }
        }
        i += 1;
    }
    proof {
        assert(names.take(i as int) =~= names);
    }
    out
}

/// A copy of a path.
pub fn copy_path(path: &Vec<String>) -> (copy: Vec<String>)
    ensures
        text::texts(copy@) == text::texts(path@),
{
    let mut copy: Vec<String> = Vec::new();
    let mut i: usize = 0;
    while i < path.len()
        invariant
            i <= path@.len(),
            copy@.len() == i,
            forall|k: int| 0 <= k < i ==> (#[trigger] copy@[k])@ == path@[k]@,
        decreases path@.len() - i,
    {
        copy.push(path[i].clone());
        i += 1;
    }
    proof {
        assert(text::texts(copy@) =~= text::texts(path@));
    }
    copy
}

// ---------------------------------------------------------------------------
// Comparing paths
// ---------------------------------------------------------------------------

/// The names of a path that count where paths are compared. A dot stands for
/// the directory itself, but one at the start of a relative path is kept.
pub open spec fn plain_names(names: Seq<Seq<char>>, rooted: bool) -> Seq<Seq<char>> {
    if !rooted && names.len() > 0 && names[0] == "."@ {
        seq!["."@] + without_dots(names)
    } else {
        without_dots(names)
    }
}

/// [`plain_names`], executable.
pub fn plain_names_of(all: &Vec<String>, rooted: bool) -> (names: Vec<String>)
    ensures
        text::texts(names@) == plain_names(text::texts(all@), rooted),
{
    let ghost views = text::texts(all@);
    let mut names: Vec<String> = Vec::new();
    if !rooted && all.len() > 0 && text::same_text(all[0].as_str(), ".") {
        names.push(".".to_owned());
    }
    let ghost start = text::texts(names@);
    let mut i: usize = 0;
    proof {
        if views.len() > 0 {
            assert(views[0] == all@[0]@);
        }
        if !rooted && views.len() > 0 && views[0] == "."@ {
            assert(start =~= seq!["."@]);
        } else {
            assert(start =~= Seq::<Seq<char>>::empty());
        }
        assert(views.take(0) =~= Seq::<Seq<char>>::empty());
        assert(start + Seq::<Seq<char>>::empty() =~= start);
    }
    while i < all.len()
        invariant
            i <= all@.len(),
            views == text::texts(all@),
            text::texts(names@) == start + without_dots(views.take(i as int)),
        decreases all@.len() - i,
    {
        let ghost before = text::texts(names@);
        let ghost kept = without_dots(views.take(i as int));
        proof {
            assert(views.take(i + 1).drop_last() =~= views.take(i as int));
            assert(views.take(i + 1).last() == all@[i as int]@);
        }
        if !text::same_text(all[i].as_str(), ".") {
            names.push(all[i].clone());
            proof {
                assert(text::texts(names@) =~= before.push(all@[i as int]@));
                assert((start + kept).push(all@[i as int]@) =~= start + kept.push(
                    all@[i as int]@,
                ));
            }
        }
        i += 1;
    }
    proof {
        assert(views.take(i as int) =~= views);
        assert(Seq::<Seq<char>>::empty() + without_dots(views) =~= without_dots(views));
    }
    names
}

/// Whether a path counts from no root, neither that of a drive nor another.
pub open spec fn is_relative(s: Seq<char>) -> bool {
    !is_rooted(s) && (has_drive(s) ==> !is_rooted(s.skip(2)))
}

/// [`is_relative`], executable.
pub fn counts_from_no_root(path: &str) -> (yes: bool)
    ensures
        yes == is_relative(path@),
{
    let chars = text::chars_of(path);
    !starts_rooted(path) && !(starts_with_drive(chars.as_slice()) && chars.len() > 2 && separates(
        chars[2],
    ))
}

/// The last name of a path, where it is one of a file or a directory.
pub open spec fn file_name(names: Seq<Seq<char>>) -> Option<Seq<char>> {
    let plain = plain_names(names, false);
    if plain.len() > 0 && plain.last() != "."@ && plain.last() != ".."@ {
        Some(plain.last())
    } else {
        None
    }
}

/// The last of the names that count, empty where it is none of a file or a
/// directory.
pub fn file_name_of(plain: &Vec<String>) -> (name: String)
    ensures
        name@ == {
            let names = text::texts(plain@);
            if names.len() > 0 && names.last() != "."@ && names.last() != ".."@ {
                names.last()
            } else {
                Seq::empty()
            }
        },
{
    let count: usize = plain.len();
    if count == 0 {
        return String::new();
    }
    proof {
        assert(text::texts(plain@).last() == plain@[count - 1]@);
    }
    let last: &str = plain[count - 1].as_str();
    if text::same_text(last, ".") || text::same_text(last, "..") {
        return String::new();
    }
    last.to_owned()
}

/// Where a path starts. The kinds stand in the order in which paths are
/// sorted.
#[derive(Debug, Clone, Copy, PartialEq, Eq, Structural)]
pub enum PathStart {
    /// A path behind `\\?\`, which is taken as it is written.
    Verbatim,
    /// A path on a server.
    Network,
    /// A path on a drive, with its letter in upper case, from the drive's root
    /// or from its current directory.
    Drive { letter: char, rooted: bool },
    /// A path from the root of the current drive.
    Root,
    /// A path from the current directory.
    Here,
}

/// A path as it is compared: where it starts, and its names.
pub struct PathView {
    pub start: PathStart,
    pub names: Seq<Seq<char>>,
}

/// Whether a text starts with two backslashes, a question mark and a
/// backslash.
pub open spec fn is_verbatim(s: Seq<char>) -> bool {
    s.len() >= 4 && s[0] == '\\' && s[1] == '\\' && s[2] == '?' && s[3] == '\\'
}

/// Whether a text starts with two separators, a server and a share.
pub open spec fn is_network(s: Seq<char>) -> bool {
    s.len() >= 3 && is_separator(s[0]) && is_separator(s[1]) && !is_separator(s[2])
        && components(s).len() >= 2
}

/// A path as it is compared. Which separators stand between the names, how
/// many, and whether some stand at the end does not count, nor does a dot
/// inside the path. The server and the share of a network path are taken as
/// they are.
pub open spec fn compared(s: Seq<char>) -> PathView {
    if is_verbatim(s) {
        PathView { start: PathStart::Verbatim, names: seq![s] }
    } else if is_network(s) {
        PathView {
            start: PathStart::Network,
            names: components(s).take(2) + without_dots(components(s).skip(2)),
        }
    } else if has_drive(s) {
        let rest = s.skip(2);
        PathView {
            start: PathStart::Drive { letter: upper_letter(s[0]), rooted: is_rooted(rest) },
            names: plain_names(components(rest), is_rooted(rest)),
        }
    } else {
        PathView {
            start: if is_rooted(s) {
                PathStart::Root
            } else {
                PathStart::Here
            },
            names: plain_names(components(s), is_rooted(s)),
        }
    }
}

/// Two texts are the same path when they start alike and have the same names:
/// it does not matter which separators stand between the names, how many, or
/// whether some stand at the end.
pub proof fn law_separators_do_not_tell_paths_apart(a: Seq<char>, b: Seq<char>)
    requires
        a.len() > 0,
        !is_separator(a[0]),
        !has_drive(a),
        b.len() == 0 || (b.len() > 0 && !is_separator(b[0])),
    ensures
        compared(a + seq!['/'] + b) == compared(a + seq!['\\'] + b),
        compared(a + seq!['/', '\\'] + b) == compared(a + seq!['/'] + b),
        compared(a + seq!['/']) == compared(a),
{
    law_paths_split_at_separators(a, '/', b);
    law_paths_split_at_separators(a, '\\', b);
    law_paths_split_at_separators(a, '/', Seq::empty());
    law_paths_split_at_separators(a, '/', seq!['\\'] + b);
    law_paths_split_at_separators(Seq::empty(), '\\', b);
    let one = a + seq!['/'] + b;
    let two = a + seq!['\\'] + b;
    let more = a + seq!['/', '\\'] + b;
    let end = a + seq!['/'];
    assert(Seq::<char>::empty() + seq!['\\'] + b =~= seq!['\\'] + b);
    assert(components(Seq::<char>::empty()) + components(b) =~= components(b));
    assert(a + seq!['/'] + (seq!['\\'] + b) =~= more);
    assert(a + seq!['/'] + Seq::<char>::empty() =~= end);
    assert(components(a) + components(Seq::<char>::empty()) =~= components(a));
    assert(one[0] == a[0] && two[0] == a[0] && more[0] == a[0] && end[0] == a[0]);
    if a.len() >= 2 {
        assert(one[1] == a[1] && two[1] == a[1] && more[1] == a[1] && end[1] == a[1]);
    } else {
        assert(one[1] == '/' && two[1] == '\\' && more[1] == '/' && end[1] == '/');
    }
}

/// A letter in upper case.
pub open spec fn upper_letter(c: char) -> char {
    if 'a' <= c <= 'z' {
        (c as u32 - 32) as char
    } else {
        c
    }
}

/// [`upper_letter`], executable.
fn upper_letter_of(c: char) -> (upper: char)
    ensures
        upper == upper_letter(c),
{
    if 'a' <= c && c <= 'z' {
        (c as u8 - 32) as char
    } else {
        c
    }
}

/// A path as it is compared.
#[derive(Debug)]
pub struct ComparedPath {
    pub start: PathStart,
    pub names: Vec<String>,
}

impl View for ComparedPath {
    type V = PathView;

    open spec fn view(&self) -> PathView {
        PathView { start: self.start, names: text::texts(self.names@) }
    }
}

/// [`compared`], executable.
pub fn compared_path(path: &str) -> (out: ComparedPath)
    ensures
        out@ == compared(path@),
{
    let chars = text::chars_of(path);
    if chars.len() >= 4 && chars[0] == '\\' && chars[1] == '\\' && chars[2] == '?' && chars[3]
        == '\\' {
        let mut names: Vec<String> = Vec::new();
        names.push(path.to_owned());
        proof {
            assert(text::texts(names@) =~= seq![path@]);
        }
        return ComparedPath { start: PathStart::Verbatim, names };
    }
    let all = split_components(path);
    if chars.len() >= 3 && separates(chars[0]) && separates(chars[1]) && !separates(chars[2])
        && all.len() >= 2 {
        return network_path(&all);
    }
    if starts_with_drive(chars.as_slice()) {
        let rest = text::string_of(vstd::slice::slice_subrange(&chars, 2, chars.len()));
        proof {
            assert(rest@ =~= path@.skip(2));
        }
        let rooted: bool = starts_rooted(rest.as_str());
        let names = plain_names_of(&split_components(rest.as_str()), rooted);
        return ComparedPath {
            start: PathStart::Drive { letter: upper_letter_of(chars[0]), rooted },
            names,
        };
    }
    let rooted: bool = starts_rooted(path);
    ComparedPath {
        start: if rooted {
            PathStart::Root
        } else {
            PathStart::Here
        },
        names: plain_names_of(&all, rooted),
    }
}

/// A network path with these names.
fn network_path(all: &Vec<String>) -> (out: ComparedPath)
    requires
        all@.len() >= 2,
    ensures
        out@ == (PathView {
            start: PathStart::Network,
            names: text::texts(all@).take(2) + without_dots(text::texts(all@).skip(2)),
        }),
{
    let ghost views = text::texts(all@);
    let mut behind: Vec<String> = Vec::new();
    let mut i: usize = 2;
    proof {
        assert(text::texts(behind@) =~= views.skip(2).take(0));
    }
    while i < all.len()
        invariant
            2 <= i <= all@.len(),
            views == text::texts(all@),
            text::texts(behind@) == views.skip(2).take(i - 2),
        decreases all@.len() - i,
    {
        let ghost before = text::texts(behind@);
        behind.push(all[i].clone());
        proof {
            assert(text::texts(behind@) =~= before.push(views[i as int]));
            assert(views.skip(2).take(i - 1) =~= before.push(views[i as int]));
        }
        i += 1;
    }
    proof {
        assert(views.skip(2).take(i - 2) =~= views.skip(2));
    }
    let kept = plain_names_of(&behind, true);
    let mut names: Vec<String> = Vec::new();
    names.push(all[0].clone());
    names.push(all[1].clone());
    let ghost start = views.take(2);
    let mut k: usize = 0;
    proof {
        assert(text::texts(names@) =~= start);
        assert(start + text::texts(kept@).take(0) =~= start);
    }
    while k < kept.len()
        invariant
            k <= kept@.len(),
            text::texts(names@) == start + text::texts(kept@).take(k as int),
        decreases kept@.len() - k,
    {
        let ghost before = text::texts(names@);
        names.push(kept[k].clone());
        proof {
            let texts = text::texts(kept@);
            assert(text::texts(names@) =~= before.push(texts[k as int]));
            assert(start + texts.take(k + 1) =~= before.push(texts[k as int]));
        }
        k += 1;
    }
    proof {
        assert(text::texts(kept@).take(k as int) =~= text::texts(kept@));
    }
    ComparedPath { start: PathStart::Network, names }
}

impl ComparedPath {
    /// Whether both are the same path.
    pub fn same(&self, other: &ComparedPath) -> (yes: bool)
        ensures
            yes == (self@ == other@),
    {
        if self.start != other.start || self.names.len() != other.names.len() {
            proof {
                assert(text::texts(self.names@).len() == self.names@.len());
                assert(text::texts(other.names@).len() == other.names@.len());
            }
            return false;
        }
        let equal: bool = path_starts_with(&self.names, &other.names);
        proof {
            let ours = text::texts(self.names@);
            let theirs = text::texts(other.names@);
            assert(ours.subrange(0, theirs.len() as int) =~= ours);
        }
        equal
    }
}

/// The characters by which a name is sorted: a dot comes first, then two dots,
/// then any other name.
pub open spec fn name_key(name: Seq<char>) -> Seq<char> {
    if name == "."@ {
        seq!['\u{5}']
    } else if name == ".."@ {
        seq!['\u{6}']
    } else {
        seq!['\u{7}'] + name + seq!['\0']
    }
}

/// The characters by which names are sorted, one after the other.
pub open spec fn names_key(names: Seq<Seq<char>>) -> Seq<char>
    decreases names.len(),
{
    if names.len() == 0 {
        Seq::empty()
    } else {
        names_key(names.drop_last()) + name_key(names.last())
    }
}

/// The characters by which the start of a path is sorted.
pub open spec fn start_key(start: PathStart) -> Seq<char> {
    match start {
        PathStart::Verbatim => seq!['\u{1}'],
        PathStart::Network => seq!['\u{2}'],
        PathStart::Drive { letter, rooted } => if rooted {
            seq!['\u{3}', letter, '\u{4}']
        } else {
            seq!['\u{3}', letter]
        },
        PathStart::Root => seq!['\u{4}'],
        PathStart::Here => Seq::empty(),
    }
}

/// The characters by which a path is sorted: by where it starts, then name by
/// name.
pub open spec fn sort_key(path: PathView) -> Seq<char> {
    start_key(path.start) + names_key(path.names)
}

impl ComparedPath {
    /// [`sort_key`], executable.
    pub fn key(&self) -> (key: Vec<char>)
        ensures
            key@ == sort_key(self@),
    {
        let mut key: Vec<char> = Vec::new();
        match self.start {
            PathStart::Verbatim => {
                key.push('\u{1}');
            },
            PathStart::Network => {
                key.push('\u{2}');
            },
            PathStart::Drive { letter, rooted } => {
                key.push('\u{3}');
                key.push(letter);
                if rooted {
                    key.push('\u{4}');
                }
            },
            PathStart::Root => {
                key.push('\u{4}');
            },
            PathStart::Here => {},
        }
        let ghost start = start_key(self.start);
        let ghost views = text::texts(self.names@);
        let mut i: usize = 0;
        proof {
            assert(key@ =~= start);
            assert(views.take(0) =~= Seq::<Seq<char>>::empty());
            assert(start + Seq::<char>::empty() =~= start);
        }
        while i < self.names.len()
            invariant
                i <= self.names@.len(),
                views == text::texts(self.names@),
                key@ == start + names_key(views.take(i as int)),
            decreases self.names@.len() - i,
        {
            let ghost before = key@;
            let ghost name = self.names@[i as int]@;
            let shown: &str = self.names[i].as_str();
            proof {
                assert(views.take(i + 1).drop_last() =~= views.take(i as int));
                assert(views.take(i + 1).last() == name);
            }
            if text::same_text(shown, ".") {
                key.push('\u{5}');
            } else if text::same_text(shown, "..") {
                key.push('\u{6}');
            } else {
                let mut chars = text::chars_of(shown);
                key.push('\u{7}');
                key.append(&mut chars);
                key.push('\0');
            }
            proof {
                assert(key@ =~= before + name_key(name));
                assert(key@ =~= start + (names_key(views.take(i as int)) + name_key(name)));
            }
            i += 1;
        }
        proof {
            assert(views.take(i as int) =~= views);
        }
        key
    }
}

} // verus!
