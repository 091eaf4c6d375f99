//! What can be said of a path by its text alone. Nothing here looks at a file system: links are not
//! followed and nothing needs to exist. Paths are separated by `/` unless a platform is named.

use crate::path::windows;
use crate::shared::pushed_contains;
use crate::text::{
    a_text_has_a_part, a_text_without_separator_is_one_part, are_parts, chars_of, has_word_at, parts,
    parts_of_two_texts, split, starts_at, string_of, sub_chars, to_string,
};
use vstd::prelude::*;
use vstd::string::StringExecFns;

verus! {

/// Whether a path starts at the root.
pub open spec fn rooted(path: Seq<char>) -> bool {
    path.len() > 0 && path[0] == '/'
}

/// A path below a directory; a path that starts at the root stands for itself.
pub open spec fn joined(base: Seq<char>, path: Seq<char>) -> Seq<char> {
    if rooted(path) {
        path
    } else if base.len() == 0 || base.last() == '/' {
        base + path
    } else {
        base.push('/') + path
    }
}

/// Whether a path starts at the root.
pub fn is_absolute(path: &str) -> (yes: bool)
    ensures
        yes == rooted(path@),
{
    let chars = chars_of(path);
    chars.len() > 0 && chars[0] == '/'
}

/// A path below a directory; a path that starts at the root stands for itself.
pub fn join(base: &str, path: &str) -> (result: String)
    ensures
        result@ == joined(base@, path@),
{
    if is_absolute(path) {
        return path.to_owned();
    }
    let chars = chars_of(base);
    let n: usize = chars.len();
    let mut result = base.to_owned();
    if n > 0 && chars[n - 1] != '/' {
        result.push('/');
    }
    result.append(path);
    result
}

/// The names of a path after `..` has taken back what it can: `.` and empty names are dropped, and
/// `..` takes back the name before it, unless there is none to take back.
pub open spec fn reduced(names: Seq<Seq<char>>) -> Seq<Seq<char>>
    decreases names.len(),
{
    if names.len() == 0 {
        Seq::empty()
    } else {
        let before = reduced(names.drop_last());
        let name = names.last();
        if name.len() == 0 || name == seq!['.'] {
            before
        } else if name == seq!['.', '.'] && before.len() > 0 && before.last() != seq!['.', '.'] {
            before.drop_last()
        } else {
            before.push(name)
        }
    }
}

/// Names with a separator between each two.
pub open spec fn chained(names: Seq<Seq<char>>) -> Seq<char>
    decreases names.len(),
{
    if names.len() == 0 {
        Seq::empty()
    } else if names.len() == 1 {
        names[0]
    } else {
        chained(names.drop_last()).push('/') + names.last()
    }
}

/// A path without detours; the path to nowhere is `.`.
pub open spec fn normalized(path: Seq<char>) -> Seq<char> {
    let names = reduced(parts(path, '/'));
    if rooted(path) {
        seq!['/'] + chained(names)
    } else if names.len() == 0 {
        seq!['.']
    } else {
        chained(names)
    }
}

fn is_dot(name: &Vec<char>) -> (yes: bool)
    ensures
        yes == (name@ == seq!['.']),
{
    let yes = name.len() == 1 && name[0] == '.';
    assert(yes ==> name@ =~= seq!['.']);
    yes
}

fn is_dot_dot(name: &Vec<char>) -> (yes: bool)
    ensures
        yes == (name@ == seq!['.', '.']),
{
    let yes = name.len() == 2 && name[0] == '.' && name[1] == '.';
    assert(yes ==> name@ =~= seq!['.', '.']);
    yes
}

fn reduce(names: Vec<Vec<char>>, expected: Ghost<Seq<Seq<char>>>) -> (result: Vec<Vec<char>>)
    requires
        are_parts(names@, expected@),
    ensures
        are_parts(result@, reduced(expected@)),
{
    let mut result: Vec<Vec<char>> = Vec::new();
    let ghost all = expected@;
    let mut i: usize = 0;
    assert(all.take(0) =~= Seq::<Seq<char>>::empty());
    while i < names.len()
        invariant
            i <= names@.len(),
            are_parts(names@, all),
            are_parts(result@, reduced(all.take(i as int))),
        decreases names@.len() - i,
    {
        let ghost before = reduced(all.take(i as int));
        proof {
            assert(all.take(i + 1).drop_last() =~= all.take(i as int));
            assert(all.take(i + 1).last() == all[i as int]);
            assert(names@[i as int]@ == all[i as int]);
        }
        let n: usize = names[i].len();
        if n > 0 && !is_dot(&names[i]) {
            let m: usize = result.len();
            if is_dot_dot(&names[i]) && m > 0 && !is_dot_dot(&result[m - 1]) {
                proof {
                    assert(result@[m - 1]@ == before[m - 1]);
                }
                result.pop();
                assert(are_parts(result@, before.drop_last()));
            } else {
                proof {
                    if m > 0 {
                        assert(result@[m - 1]@ == before[m - 1]);
                    }
                }
                let name = sub_chars(names[i].as_slice(), 0, n);
                assert(name@ =~= all[i as int]);
                result.push(name);
                assert(are_parts(result@, before.push(all[i as int])));
            }
        }
        i += 1;
    }
    assert(all.take(i as int) =~= all);
    result
}

fn chain(names: &Vec<Vec<char>>, expected: Ghost<Seq<Seq<char>>>) -> (result: String)
    requires
        are_parts(names@, expected@),
    ensures
        result@ == chained(expected@),
{
    let ghost all = expected@;
    let mut result = String::new();
    let mut i: usize = 0;
    assert(all.take(0) =~= Seq::<Seq<char>>::empty());
    while i < names.len()
        invariant
            i <= names@.len(),
            are_parts(names@, all),
            result@ == chained(all.take(i as int)),
        decreases names@.len() - i,
    {
        proof {
            assert(all.take(i + 1).drop_last() =~= all.take(i as int));
            assert(all.take(i + 1).last() == all[i as int]);
            assert(names@[i as int]@ == all[i as int]);
        }
        if i > 0 {
            result.push('/');
        }
        let name = to_string(names[i].as_slice());
        result.append(name.as_str());
        proof {
            if i == 0 {
                assert(all.take(1)[0] == all[0]);
                assert(result@ =~= all[0]);
            }
        }
        i += 1;
    }
    assert(all.take(i as int) =~= all);
    result
}

/// A path without detours: `.` is dropped and `..` takes back the name before it. What cannot be
/// taken back stays.
pub fn normalize(path: &str) -> (result: String)
    ensures
        result@ == normalized(path@),
{
    let chars = chars_of(path);
    let names = split(chars.as_slice(), '/');
    let names = reduce(names, Ghost(parts(path@, '/')));
    let ghost expected = reduced(parts(path@, '/'));
    let chain = chain(&names, Ghost(expected));
    if chars.len() > 0 && chars[0] == '/' {
        let mut result = String::new();
        result.push('/');
        result.append(chain.as_str());
        assert(result@ =~= seq!['/'] + chained(expected));
        result
    } else if names.len() == 0 {
        let mut result = String::new();
        result.push('.');
        assert(result@ =~= seq!['.']);
        result
    } else {
        chain
    }
}

/// A path without detours, as it is written on Windows or elsewhere.
pub open spec fn normalized_on(path: Seq<char>, on_windows: bool) -> Seq<char> {
    if on_windows {
        windows::normalized(path)
    } else {
        normalized(path)
    }
}

/// A path without detours, as it is written on Windows or elsewhere.
pub fn normalize_on(path: &str, on_windows: bool) -> (result: String)
    ensures
        result@ == normalized_on(path@, on_windows),
{
    if on_windows {
        windows::normalize(path)
    } else {
        normalize(path)
    }
}

/// The name that a path ends in; none if it ends in `..`, at the root, or nowhere.
pub open spec fn file_name(path: Seq<char>) -> Option<Seq<char>> {
    let names = kept_names(parts(path, '/'));
    if names.len() == 0 || names.last() == seq!['.', '.'] {
        None
    } else {
        Some(names.last())
    }
}

/// The names of a path that count: neither empty nor `.`.
pub open spec fn kept_names(names: Seq<Seq<char>>) -> Seq<Seq<char>>
    decreases names.len(),
{
    if names.len() == 0 {
        Seq::empty()
    } else {
        let before = kept_names(names.drop_last());
        if names.last().len() == 0 || names.last() == seq!['.'] {
            before
        } else {
            before.push(names.last())
        }
    }
}

/// Whether the name of a path starts with a dot.
pub open spec fn hidden(path: Seq<char>) -> bool {
    file_name(path) matches Some(name) && name.len() > 0 && name[0] == '.'
}

/// Whether the name of a path starts with a dot. Attributes of a file system are not looked at.
pub fn is_hidden(path: &str) -> (yes: bool)
    ensures
        yes == hidden(path@),
{
    let chars = chars_of(path);
    let names = split(chars.as_slice(), '/');
    let ghost all = parts(path@, '/');
    let mut i: usize = names.len();
    assert(all.take(i as int) =~= all);
    while i > 0
        invariant
            i <= names@.len(),
            are_parts(names@, all),
            kept_names(all) == kept_names(all.take(i as int)),
            all == parts(path@, '/'),
        decreases i,
    {
        let name = &names[i - 1];
        proof {
            assert(all.take(i as int).drop_last() =~= all.take(i - 1));
            assert(all.take(i as int).last() == all[i - 1]);
            assert(names@[i - 1]@ == all[i - 1]);
        }
        if name.len() > 0 && !is_dot(name) {
            assert(kept_names(all).last() == name@);
            return !is_dot_dot(name) && name[0] == '.';
        }
        i -= 1;
    }
    assert(all.take(0) =~= Seq::<Seq<char>>::empty());
    false
}

/// Whether the name of a path starts with a dot, on Windows or elsewhere.
pub open spec fn hidden_on(path: Seq<char>, on_windows: bool) -> bool {
    if on_windows {
        windows::hidden(path)
    } else {
        hidden(path)
    }
}

/// Whether the name of a path starts with a dot, on Windows or elsewhere.
pub fn is_hidden_on(path: &str, on_windows: bool) -> (yes: bool)
    ensures
        yes == hidden_on(path@, on_windows),
{
    if on_windows {
        windows::is_hidden(path)
    } else {
        is_hidden(path)
    }
}

/// The text with a leading `~` replaced by the home directory; none if it does not lead to the own
/// home, or there is none.
pub open spec fn expanded(path: Seq<char>, home: Option<Seq<char>>) -> Option<Seq<char>> {
    if path.len() == 0 || path[0] != '~' {
        None
    } else if path.len() > 1 && path[1] != '/' && path[1] != '\\' {
        None
    } else {
        match home {
            Some(home) => Some(home + path.skip(1)),
            None => None,
        }
    }
}

/// Replaces a leading `~` by the home directory. The home of somebody else is not known.
pub fn expand_user(path: &str, home: Option<&str>) -> (result: Option<String>)
    ensures
        result is Some == expanded(
            path@,
            match home {
                Some(home) => Some(home@),
                None => None,
            },
        ) is Some,
        result matches Some(text) ==> Some(text@) == expanded(
            path@,
            match home {
                Some(home) => Some(home@),
                None => None,
            },
        ),
{
    let chars = chars_of(path);
    if chars.len() == 0 || chars[0] != '~' {
        return None;
    }
    if chars.len() > 1 && chars[1] != '/' && chars[1] != '\\' {
        return None;
    }
    match home {
        Some(home) => {
            let rest = string_of(chars.as_slice(), 1, chars.len());
            let mut text = home.to_owned();
            text.append(rest.as_str());
            assert(rest@ =~= path@.skip(1));
            Some(text)
        },
        None => None,
    }
}

/// Whether a character is a control code.
pub open spec fn control(c: char) -> bool {
    c <= '\u{1f}' || '\u{7f}' <= c <= '\u{9f}'
}

/// Whether a character cannot stand in a file name.
pub open spec fn illegal(c: char) -> bool {
    control(c) || c == '<' || c == '>' || c == ':' || c == '"' || c == '/' || c == '\\' || c == '|' || c
        == '?' || c == '*'
}

/// The text with every character that cannot stand in a file name replaced.
pub open spec fn made_legal(name: Seq<char>) -> Seq<char> {
    name.map_values(
        |c: char|
            if illegal(c) {
                '_'
            } else {
                c
            },
    )
}

/// The text without dots and spaces at its end.
pub open spec fn without_tail(name: Seq<char>) -> Seq<char>
    decreases name.len(),
{
    if name.len() > 0 && (name.last() == '.' || name.last() == ' ') {
        without_tail(name.drop_last())
    } else {
        name
    }
}

/// A file name made of a text: characters that cannot stand in one become `_`, and dots and spaces
/// at the end are dropped.
pub fn sanitize_file_name(name: &str) -> (result: String)
    ensures
        result@ == without_tail(made_legal(name@)),
{
    let chars = chars_of(name);
    let mut legal: Vec<char> = Vec::new();
    let mut i: usize = 0;
    while i < chars.len()
        invariant
            i <= chars@.len(),
            legal@ == made_legal(chars@.take(i as int)),
        decreases chars@.len() - i,
    {
        let c = chars[i];
        let bad = c <= '\u{1f}' || ('\u{7f}' <= c && c <= '\u{9f}') || c == '<' || c == '>' || c == ':' || c
            == '"' || c == '/' || c == '\\' || c == '|' || c == '?' || c == '*';
        legal.push(
            if bad {
                '_'
            } else {
                c
            },
        );
        assert(legal@ =~= made_legal(chars@.take(i + 1)));
        i += 1;
    }
    assert(chars@.take(i as int) =~= chars@);
    let mut n: usize = legal.len();
    assert(legal@.take(n as int) =~= legal@);
    while n > 0 && (legal[n - 1] == '.' || legal[n - 1] == ' ')
        invariant
            n <= legal@.len(),
            without_tail(legal@) == without_tail(legal@.take(n as int)),
        decreases n,
    {
        assert(legal@.take(n as int).drop_last() =~= legal@.take(n - 1));
        assert(legal@.take(n as int).last() == legal@[n - 1]);
        n -= 1;
    }
    proof {
        if n > 0 {
            assert(legal@.take(n as int).last() == legal@[n - 1]);
        }
        assert(legal@.subrange(0, n as int) =~= legal@.take(n as int));
    }
    string_of(legal.as_slice(), 0, n)
}

/// A sanitized name holds nothing that cannot stand in a file name, and does not end in a dot or a
/// space.
pub proof fn a_sanitized_name_is_legal(name: Seq<char>)
    ensures
        ({
            let result = without_tail(made_legal(name));
            &&& forall|i: int| 0 <= i < result.len() ==> !illegal(#[trigger] result[i])
            &&& result.len() > 0 ==> result.last() != '.' && result.last() != ' '
        }),
{
    let legal = made_legal(name);
    assert forall|i: int| 0 <= i < legal.len() implies !illegal(#[trigger] legal[i]) by {
    }
    tail_facts(legal);
    let result = without_tail(legal);
    assert forall|i: int| 0 <= i < result.len() implies !illegal(#[trigger] result[i]) by {
        assert(result[i] == legal[i]);
    }
}

proof fn tail_facts(name: Seq<char>)
    ensures
        without_tail(name).len() <= name.len(),
        without_tail(name) == name.take(without_tail(name).len() as int),
        without_tail(name).len() > 0 ==> without_tail(name).last() != '.' && without_tail(name).last()
            != ' ',
    decreases name.len(),
{
    if name.len() > 0 && (name.last() == '.' || name.last() == ' ') {
        tail_facts(name.drop_last());
        let n = without_tail(name).len() as int;
        assert(name.drop_last().take(n) =~= name.take(n));
    } else {
        assert(name.take(name.len() as int) =~= name);
    }
}

/// Sanitizing a name a second time changes nothing.
pub proof fn sanitizing_is_idempotent(name: Seq<char>)
    ensures
        ({
            let once = without_tail(made_legal(name));
            without_tail(made_legal(once)) == once
        }),
{
    a_sanitized_name_is_legal(name);
    let once = without_tail(made_legal(name));
    assert(made_legal(once) =~= once);
}

/// A path in the form that Windows does not limit in length.
pub open spec fn long_form(path: Seq<char>) -> Seq<char> {
    if starts_at(path, 0, seq!['\\', '\\', '?', '\\']) {
        path
    } else if starts_at(path, 0, seq!['\\', '\\']) {
        seq!['\\', '\\', '?', '\\', 'U', 'N', 'C', '\\'] + path.skip(2)
    } else if windows::absolute(path) {
        seq!['\\', '\\', '?', '\\'] + path
    } else {
        path
    }
}

/// A path in the form that Windows does not limit in length: a path that is complete by itself gets a
/// prefix, every other stays as it is. Elsewhere there is no such limit and no such form.
pub fn long_path(path: &str, windows: bool) -> (result: String)
    ensures
        result@ == if windows {
            long_form(path@)
        } else {
            path@
        },
{
    if !windows {
        return path.to_owned();
    }
    let chars = chars_of(path);
    let verbatim = ['\\', '\\', '?', '\\'];
    let unc = ['\\', '\\'];
    proof {
        assert(verbatim@ =~= seq!['\\', '\\', '?', '\\']);
        assert(unc@ =~= seq!['\\', '\\']);
    }
    if has_word_at(chars.as_slice(), 0, verbatim.as_slice()) {
        return path.to_owned();
    }
    if has_word_at(chars.as_slice(), 0, unc.as_slice()) {
        let mut result = String::new();
        result.push('\\');
        result.push('\\');
        result.push('?');
        result.push('\\');
        result.push('U');
        result.push('N');
        result.push('C');
        result.push('\\');
        let rest = string_of(chars.as_slice(), 2, chars.len());
        assert(rest@ =~= path@.skip(2));
        result.append(rest.as_str());
        assert(result@ =~= seq!['\\', '\\', '?', '\\', 'U', 'N', 'C', '\\'] + path@.skip(2));
        return result;
    }
    if windows::is_absolute(path) {
        let mut result = String::new();
        result.push('\\');
        result.push('\\');
        result.push('?');
        result.push('\\');
        result.append(path);
        assert(result@ =~= seq!['\\', '\\', '?', '\\'] + path@);
        return result;
    }
    path.to_owned()
}

/// The long form has no longer form: asking for it again changes nothing.
pub proof fn the_long_form_is_stable(path: Seq<char>)
    ensures
        long_form(long_form(path)) == long_form(path),
{
    let prefix = seq!['\\', '\\', '?', '\\'];
    let long = long_form(path);
    if !starts_at(path, 0, prefix) {
        if starts_at(path, 0, seq!['\\', '\\']) || windows::absolute(path) {
            assert(long.subrange(0, 4) =~= prefix);
            assert(starts_at(long, 0, prefix));
        }
    }
}

proof fn reducing_what_is_reduced(names: Seq<Seq<char>>)
    ensures
        reduced(reduced(names)) == reduced(names),
        forall|i: int|
            0 <= i < reduced(names).len() ==> (#[trigger] reduced(names)[i]).len() > 0 && reduced(
                names,
            )[i] != seq!['.'],
    decreases names.len(),
{
    if names.len() > 0 {
        let less = names.drop_last();
        let name = names.last();
        let before = reduced(less);
        reducing_what_is_reduced(less);
        if name.len() == 0 || name == seq!['.'] {
        } else if name == seq!['.', '.'] && before.len() > 0 && before.last() != seq!['.', '.'] {
            let after = before.drop_last();
            assert forall|i: int| 0 <= i < after.len() implies (#[trigger] after[i]).len() > 0 && after[i]
                != seq!['.'] by {
                assert(before[i].len() > 0);
            }
            prefix_of_reduced(before, after);
        } else {
            let after = before.push(name);
            assert(after.drop_last() =~= before);
            if name == seq!['.', '.'] {
            }
        }
    }
}

proof fn prefix_of_reduced(names: Seq<Seq<char>>, prefix: Seq<Seq<char>>)
    requires
        names.len() > 0,
        prefix == names.drop_last(),
        reduced(names) == names,
    ensures
        reduced(prefix) == prefix,
{
    let last = names.last();
    let before = reduced(prefix);
    if last.len() == 0 || last == seq!['.'] {
        reduced_is_no_longer(prefix);
    } else if last == seq!['.', '.'] && before.len() > 0 && before.last() != seq!['.', '.'] {
        reduced_is_no_longer(prefix);
    } else {
        assert(before.push(last).drop_last() =~= before);
    }
}

proof fn reduced_is_no_longer(names: Seq<Seq<char>>)
    ensures
        reduced(names).len() <= names.len(),
    decreases names.len(),
{
    if names.len() > 0 {
        reduced_is_no_longer(names.drop_last());
    }
}

/// The names that are left when detours are gone hold no detour any more.
pub proof fn normalizing_leaves_no_detour(path: Seq<char>)
    ensures
        ({
            let names = reduced(parts(path, '/'));
            &&& reduced(names) == names
            &&& forall|i: int|
                0 <= i < names.len() ==> (#[trigger] names[i]).len() > 0 && names[i] != seq!['.']
        }),
{
    reducing_what_is_reduced(parts(path, '/'));
}

/// Whether no name holds a separator.
spec fn no_separator(names: Seq<Seq<char>>) -> bool {
    forall|i: int| 0 <= i < names.len() ==> !(#[trigger] names[i]).contains('/')
}

proof fn parts_hold_no_separator(s: Seq<char>)
    ensures
        no_separator(parts(s, '/')),
    decreases s.len(),
{
    if s.len() > 0 {
        let less = s.drop_last();
        let before = parts(less, '/');
        parts_hold_no_separator(less);
        a_text_has_a_part(less, '/');
        let after = parts(s, '/');
        assert forall|i: int| 0 <= i < after.len() implies !(#[trigger] after[i]).contains('/') by {
            if i < before.len() {
                assert(!before[i].contains('/'));
            }
            if s.last() != '/' && i == before.len() - 1 {
                pushed_contains(before.last(), s.last(), '/');
            }
        }
    }
}

proof fn reducing_adds_no_separator(names: Seq<Seq<char>>)
    requires
        no_separator(names),
    ensures
        no_separator(reduced(names)),
    decreases names.len(),
{
    if names.len() > 0 {
        let less = names.drop_last();
        assert forall|i: int| 0 <= i < less.len() implies !(#[trigger] less[i]).contains('/') by {
            assert(!names[i].contains('/'));
        }
        reducing_adds_no_separator(less);
        let before = reduced(less);
        let after = reduced(names);
        assert forall|i: int| 0 <= i < after.len() implies !(#[trigger] after[i]).contains('/') by {
            if i < before.len() {
                assert(!before[i].contains('/'));
            }
            assert(!names[names.len() - 1].contains('/'));
        }
    }
}

proof fn a_tail_joins_the_last_part(s: Seq<char>, tail: Seq<char>)
    requires
        !tail.contains('/'),
    ensures
        parts(s + tail, '/') == parts(s, '/').drop_last().push(parts(s, '/').last() + tail),
    decreases tail.len(),
{
    let before = parts(s, '/');
    a_text_has_a_part(s, '/');
    if tail.len() == 0 {
        assert(s + tail =~= s);
        assert(before.last() + tail =~= before.last());
        assert(before.drop_last().push(before.last()) =~= before);
    } else {
        let less = tail.drop_last();
        assert forall|i: int| 0 <= i < less.len() implies less[i] != '/' by {
            assert(tail.contains(tail[i]));
        }
        a_tail_joins_the_last_part(s, less);
        assert((s + tail).drop_last() =~= s + less);
        assert(tail.contains(tail.last()));
        assert((before.last() + less).push(tail.last()) =~= before.last() + tail);
        let joint = before.drop_last().push(before.last() + less);
        assert(joint.last() == before.last() + less);
        assert(parts(s + tail, '/') =~= before.drop_last().push(before.last() + tail));
    }
}

proof fn a_chain_comes_apart_again(names: Seq<Seq<char>>)
    requires
        names.len() > 0,
        no_separator(names),
    ensures
        parts(chained(names), '/') == names,
    decreases names.len(),
{
    let last = names.last();
    assert(!names[names.len() - 1].contains('/'));
    if names.len() == 1 {
        let none = Seq::<char>::empty();
        a_tail_joins_the_last_part(none, last);
        assert(none + last =~= last);
        assert(parts(none, '/') =~= seq![none]);
        assert(parts(last, '/') =~= names);
    } else {
        let less = names.drop_last();
        assert forall|i: int| 0 <= i < less.len() implies !(#[trigger] less[i]).contains('/') by {
            assert(!names[i].contains('/'));
        }
        a_chain_comes_apart_again(less);
        let front = chained(less).push('/');
        assert(front.drop_last() =~= chained(less));
        assert(parts(front, '/') =~= less.push(Seq::empty()));
        a_tail_joins_the_last_part(front, last);
        assert(parts(front, '/').last() + last =~= last);
        assert(parts(front, '/').drop_last().push(last) =~= names);
    }
}

proof fn a_root_is_an_empty_part(s: Seq<char>)
    ensures
        parts(seq!['/'] + s, '/') == seq![Seq::<char>::empty()] + parts(s, '/'),
    decreases s.len(),
{
    let none = Seq::<char>::empty();
    let whole = seq!['/'] + s;
    if s.len() == 0 {
        assert(whole =~= seq!['/']);
        assert(whole.drop_last() =~= none);
        assert(parts(none, '/') =~= seq![none]);
        assert(parts(whole, '/') =~= seq![none] + parts(s, '/'));
    } else {
        let less = s.drop_last();
        a_root_is_an_empty_part(less);
        a_text_has_a_part(less, '/');
        assert(whole.drop_last() =~= seq!['/'] + less);
        assert(whole.last() == s.last());
        assert(parts(whole, '/') =~= seq![none] + parts(s, '/'));
    }
}

proof fn an_empty_name_does_not_count(names: Seq<Seq<char>>)
    ensures
        reduced(seq![Seq::<char>::empty()] + names) == reduced(names),
    decreases names.len(),
{
    let none = Seq::<char>::empty();
    let whole = seq![none] + names;
    if names.len() == 0 {
        assert(whole.drop_last() =~= Seq::<Seq<char>>::empty());
        assert(whole.last() == none);
        assert(reduced(whole.drop_last()) =~= Seq::<Seq<char>>::empty());
        assert(reduced(whole) =~= reduced(names));
    } else {
        an_empty_name_does_not_count(names.drop_last());
        assert(whole.drop_last() =~= seq![none] + names.drop_last());
        assert(whole.last() == names.last());
    }
}

proof fn a_chain_begins_with_its_first_name(names: Seq<Seq<char>>)
    requires
        names.len() > 0,
        forall|i: int| 0 <= i < names.len() ==> (#[trigger] names[i]).len() > 0,
    ensures
        chained(names).len() > 0,
        chained(names)[0] == names[0][0],
    decreases names.len(),
{
    assert(names[0].len() > 0);
    if names.len() > 1 {
        let less = names.drop_last();
        assert forall|i: int| 0 <= i < less.len() implies (#[trigger] less[i]).len() > 0 by {
            assert(names[i].len() > 0);
        }
        a_chain_begins_with_its_first_name(less);
        assert(less[0] == names[0]);
    }
}

/// Normalizing a path twice is the same as once.
pub proof fn normalizing_is_idempotent(path: Seq<char>)
    ensures
        normalized(normalized(path)) == normalized(path),
{
    let names = reduced(parts(path, '/'));
    let chain = chained(names);
    reducing_what_is_reduced(parts(path, '/'));
    parts_hold_no_separator(path);
    reducing_adds_no_separator(parts(path, '/'));
    if names.len() == 0 {
        let none = Seq::<char>::empty();
        assert(parts(none, '/') =~= seq![none]);
        assert(seq![none].drop_last() =~= Seq::<Seq<char>>::empty());
        if rooted(path) {
            let root = seq!['/'] + chain;
            assert(chain =~= none);
            a_root_is_an_empty_part(chain);
            an_empty_name_does_not_count(parts(chain, '/'));
            assert(reduced(parts(none, '/')) =~= Seq::<Seq<char>>::empty());
            assert(root[0] == '/');
        } else {
            let here = seq!['.'];
            assert(here.drop_last() =~= none);
            assert(none.push('.') =~= here);
            assert(parts(here, '/') =~= seq![here]);
            assert(seq![here].drop_last() =~= Seq::<Seq<char>>::empty());
            assert(reduced(seq![here]) =~= Seq::<Seq<char>>::empty());
        }
    } else {
        a_chain_comes_apart_again(names);
        if rooted(path) {
            let root = seq!['/'] + chain;
            a_root_is_an_empty_part(chain);
            an_empty_name_does_not_count(names);
            assert(root[0] == '/');
        } else {
            a_chain_begins_with_its_first_name(names);
            assert(!names[0].contains('/'));
            assert(names[0].contains(names[0][0]));
        }
    }
}

proof fn climbs_come_first(names: Seq<Seq<char>>)
    ensures
        forall|i: int|
            #![trigger reduced(names)[i]]
            0 < i < reduced(names).len() && reduced(names)[i] == seq!['.', '.'] ==> reduced(names)[i - 1]
                == seq!['.', '.'],
    decreases names.len(),
{
    if names.len() > 0 {
        climbs_come_first(names.drop_last());
        let before = reduced(names.drop_last());
        let after = reduced(names);
        assert forall|i: int| #![trigger after[i]]
            0 < i < after.len() && after[i] == seq!['.', '.'] implies after[i - 1] == seq!['.', '.'] by {
            if i < before.len() {
                assert(before[i] == after[i]);
                assert(before[i - 1] == after[i - 1]);
            }
        }
    }
}

proof fn all_names_are_kept(names: Seq<Seq<char>>)
    requires
        forall|i: int| 0 <= i < names.len() ==> (#[trigger] names[i]).len() > 0 && names[i] != seq!['.'],
    ensures
        kept_names(names) == names,
    decreases names.len(),
{
    if names.len() > 0 {
        let less = names.drop_last();
        assert forall|i: int| 0 <= i < less.len() implies (#[trigger] less[i]).len() > 0 && less[i]
            != seq!['.'] by {
            assert(names[i].len() > 0);
        }
        all_names_are_kept(less);
        assert(names[names.len() - 1].len() > 0);
        assert(less.push(names.last()) =~= names);
    } else {
        assert(kept_names(names) =~= names);
    }
}

proof fn an_empty_name_is_not_kept(names: Seq<Seq<char>>)
    ensures
        kept_names(seq![Seq::<char>::empty()] + names) == kept_names(names),
    decreases names.len(),
{
    let none = Seq::<char>::empty();
    let whole = seq![none] + names;
    if names.len() == 0 {
        assert(whole.drop_last() =~= Seq::<Seq<char>>::empty());
        assert(whole.last() == none);
        assert(kept_names(whole.drop_last()) =~= Seq::<Seq<char>>::empty());
    } else {
        an_empty_name_is_not_kept(names.drop_last());
        assert(whole.drop_last() =~= seq![none] + names.drop_last());
        assert(whole.last() == names.last());
    }
}

/// A normalized path is never empty, starts at the root exactly when the path does, and its names are
/// those that are left when detours are gone: no `..` stands behind a name.
pub proof fn a_normalized_path_goes_straight(path: Seq<char>)
    ensures
        normalized(path).len() > 0,
        rooted(normalized(path)) == rooted(path),
        ({
            let names = kept_names(parts(normalized(path), '/'));
            &&& names == reduced(parts(path, '/'))
            &&& forall|i: int|
                #![trigger names[i]]
                0 < i < names.len() && names[i] == seq!['.', '.'] ==> names[i - 1] == seq!['.', '.']
        }),
{
    let names = reduced(parts(path, '/'));
    let chain = chained(names);
    let none = Seq::<char>::empty();
    climbs_come_first(parts(path, '/'));
    reducing_what_is_reduced(parts(path, '/'));
    parts_hold_no_separator(path);
    reducing_adds_no_separator(parts(path, '/'));
    all_names_are_kept(names);
    if names.len() == 0 {
        assert(names =~= Seq::<Seq<char>>::empty());
        assert(parts(none, '/') =~= seq![none]);
        assert(seq![none].drop_last() =~= Seq::<Seq<char>>::empty());
        assert(kept_names(seq![none]) =~= Seq::<Seq<char>>::empty());
        if rooted(path) {
            assert(chain =~= none);
            a_root_is_an_empty_part(none);
            an_empty_name_is_not_kept(seq![none]);
            assert((seq!['/'] + chain)[0] == '/');
        } else {
            let here = seq!['.'];
            assert(here.drop_last() =~= none);
            assert(none.push('.') =~= here);
            assert(parts(here, '/') =~= seq![here]);
            assert(seq![here].drop_last() =~= Seq::<Seq<char>>::empty());
            assert(kept_names(seq![here]) =~= Seq::<Seq<char>>::empty());
        }
    } else {
        a_chain_comes_apart_again(names);
        a_chain_begins_with_its_first_name(names);
        if rooted(path) {
            a_root_is_an_empty_part(chain);
            an_empty_name_is_not_kept(names);
            assert((seq!['/'] + chain)[0] == '/');
        } else {
            assert(!names[0].contains('/'));
            assert(names[0].contains(names[0][0]));
        }
    }
}

/// Whether a text is a name that leads one step further: it is not empty, neither `.` nor `..`, and holds no
/// separator.
pub open spec fn plain_name(name: Seq<char>) -> bool {
    &&& name.len() > 0
    &&& name != seq!['.']
    &&& name != seq!['.', '.']
    &&& forall|i: int| 0 <= i < name.len() ==> #[trigger] name[i] != '/'
}

proof fn kept_in_turn(a: Seq<Seq<char>>, b: Seq<Seq<char>>)
    ensures
        kept_names(a + b) == kept_names(a) + kept_names(b),
    decreases b.len(),
{
    let s = a + b;
    if b.len() == 0 {
        assert(s =~= a);
        assert(kept_names(s) =~= kept_names(a) + kept_names(b));
    } else {
        assert(s.drop_last() =~= a + b.drop_last());
        assert(s.last() == b.last());
        kept_in_turn(a, b.drop_last());
        assert(kept_names(s) =~= kept_names(a) + kept_names(b));
    }
}

proof fn kept_alone(name: Seq<char>)
    ensures
        kept_names(seq![name]) == (if name.len() == 0 || name == seq!['.'] {
            Seq::empty()
        } else {
            seq![name]
        }),
{
    let only = seq![name];
    assert(only.drop_last() =~= Seq::<Seq<char>>::empty());
    assert(kept_names(Seq::<Seq<char>>::empty()) =~= Seq::<Seq<char>>::empty());
    assert(only.last() == name);
    assert(Seq::<Seq<char>>::empty().push(name) =~= only);
}

/// A path taken from a directory goes through the names of the directory and then through its own, and starts
/// at the root if the directory does; one that starts at the root stands for itself.
pub proof fn a_path_goes_on_from_its_directory(base: Seq<char>, path: Seq<char>)
    ensures
        rooted(path) ==> joined(base, path) == path,
        !rooted(path) ==> kept_names(parts(joined(base, path), '/')) == kept_names(parts(base, '/')) + kept_names(
            parts(path, '/'),
        ),
        !rooted(path) ==> rooted(joined(base, path)) == rooted(base),
{
    if !rooted(path) {
        let none = Seq::<char>::empty();
        if base.len() == 0 {
            assert(base =~= none);
            assert(joined(base, path) =~= path);
            assert(parts(base, '/') =~= seq![none]);
            kept_alone(none);
            assert(kept_names(parts(base, '/')) + kept_names(parts(path, '/')) =~= kept_names(parts(path, '/')));
        } else if base.last() == '/' {
            let head = base.drop_last();
            assert(head.push('/') =~= base);
            parts_of_two_texts(head, path, '/');
            parts_of_two_texts(head, none, '/');
            assert(head.push('/') + none =~= base);
            kept_in_turn(parts(head, '/'), parts(path, '/'));
            kept_in_turn(parts(head, '/'), parts(none, '/'));
            assert(parts(none, '/') =~= seq![none]);
            kept_alone(none);
            assert(kept_names(parts(base, '/')) =~= kept_names(parts(head, '/')));
            assert(joined(base, path)[0] == base[0]);
        } else {
            parts_of_two_texts(base, path, '/');
            kept_in_turn(parts(base, '/'), parts(path, '/'));
            assert(joined(base, path)[0] == base[0]);
        }
    }
}

/// A name at the end of a path is the name of the path, and tells whether it is hidden.
pub proof fn the_last_name_is_the_name(base: Seq<char>, name: Seq<char>)
    requires
        plain_name(name),
    ensures
        file_name(joined(base, name)) == Some(name),
        hidden(joined(base, name)) == (name[0] == '.'),
{
    a_path_goes_on_from_its_directory(base, name);
    assert(!rooted(name)) by {
        assert(name[0] != '/');
    }
    a_text_without_separator_is_one_part(name, '/');
    kept_alone(name);
    assert(kept_names(parts(joined(base, name), '/')).last() == name);
}

/// Going down and up again leads nowhere new, and neither does staying: `name/..`, `.` and a second separator
/// behind a path change nothing about it once it is normalized.
pub proof fn detours_lead_nowhere(path: Seq<char>, name: Seq<char>)
    requires
        path.len() > 0,
        plain_name(name),
    ensures
        normalized(path.push('/') + name + seq!['/', '.', '.']) == normalized(path),
        normalized(path + seq!['/', '.']) == normalized(path),
        normalized(path.push('/')) == normalized(path),
{
    let (one, two, none) = (seq!['.'], seq!['.', '.'], Seq::<char>::empty());
    let names = parts(path, '/');
    a_text_without_separator_is_one_part(name, '/');
    a_text_without_separator_is_one_part(one, '/');
    a_text_without_separator_is_one_part(two, '/');
    a_text_without_separator_is_one_part(none, '/');

    let down = path.push('/') + name;
    parts_of_two_texts(path, name, '/');
    assert(parts(down, '/') == names + seq![name]);
    let up = down + seq!['/', '.', '.'];
    assert(up =~= down.push('/') + two);
    parts_of_two_texts(down, two, '/');
    let steps = names + seq![name] + seq![two];
    assert(parts(up, '/') == steps);
    assert(steps.drop_last() =~= names + seq![name]);
    assert((names + seq![name]).drop_last() =~= names);
    assert(steps.last() == two && (names + seq![name]).last() == name);
    assert(reduced(names + seq![name]) == reduced(names).push(name));
    assert(reduced(names).push(name).drop_last() =~= reduced(names));
    assert(two.len() == 2 && one.len() == 1);
    assert(reduced(steps) =~= reduced(names));
    assert(up[0] == path[0]);

    let here = path + seq!['/', '.'];
    assert(here =~= path.push('/') + one);
    parts_of_two_texts(path, one, '/');
    assert((names + seq![one]).drop_last() =~= names);
    assert(reduced(names + seq![one]) == reduced(names));
    assert(here[0] == path[0]);

    let twice = path.push('/');
    assert(twice =~= path.push('/') + none);
    parts_of_two_texts(path, none, '/');
    assert((names + seq![none]).drop_last() =~= names);
    assert(reduced(names + seq![none]) == reduced(names));
    assert(twice[0] == path[0]);
}

/// A name that needs no change keeps every character; any other character is replaced one for one.
pub proof fn a_legal_name_stays(name: Seq<char>, i: int)
    ensures
        (forall|k: int| 0 <= k < name.len() ==> !illegal(#[trigger] name[k])) && (name.len() > 0 ==> name.last() != '.'
            && name.last() != ' ') ==> without_tail(made_legal(name)) == name,
        made_legal(name).len() == name.len(),
        0 <= i < name.len() ==> made_legal(name)[i] == (if illegal(name[i]) {
            '_'
        } else {
            name[i]
        }),
{
    if forall|k: int| 0 <= k < name.len() ==> !illegal(#[trigger] name[k]) {
        assert(made_legal(name) =~= name);
    }
}

/// Separators, the signs that Windows reserves and control codes cannot stand in a file name; letters, digits,
/// dots, spaces and anything beyond can.
pub proof fn reserved_characters_are_illegal(c: char)
    ensures
        c == '/' || c == '\\' || c == ':' || c == '*' || c == '?' || c == '"' || c == '<' || c == '>' || c == '|'
            ==> illegal(c),
        c < ' ' || c == '\u{7f}' ==> illegal(c),
        'a' <= c <= 'z' || 'A' <= c <= 'Z' || '0' <= c <= '9' || c == '.' || c == ' ' || c == '_' || c == '-' || c
            >= '\u{a0}' ==> !illegal(c),
{
}

/// `~` alone, or before a separator of either kind, stands for the home directory; before anything else, and
/// anywhere else, it does not.
pub proof fn a_tilde_stands_for_home(rest: Seq<char>, home: Seq<char>, path: Seq<char>)
    ensures
        rest.len() == 0 || rest[0] == '/' || rest[0] == '\\' ==> expanded(seq!['~'] + rest, Some(home)) == Some(
            home + rest,
        ),
        rest.len() > 0 && rest[0] != '/' && rest[0] != '\\' ==> expanded(seq!['~'] + rest, Some(home)) is None,
        path.len() == 0 || path[0] != '~' ==> expanded(path, Some(home)) is None,
        expanded(path, None) is None,
{
    let s = seq!['~'] + rest;
    assert(s.skip(1) =~= rest);
    if rest.len() > 0 {
        assert(s[1] == rest[0]);
    }
}

/// The long form of a path on a share names the share behind its own prefix, that of a complete path on a drive
/// only has the prefix before it, and any other path has none.
pub proof fn the_long_form_has_a_prefix(path: Seq<char>)
    ensures
        ({
            let prefix = seq!['\\', '\\', '?', '\\'];
            let long = path.len() >= 4 && path.take(4) == prefix;
            let share = path.len() >= 2 && path[0] == '\\' && path[1] == '\\';
            &&& long ==> long_form(path) == path
            &&& !long && share ==> long_form(path) == prefix + seq!['U', 'N', 'C', '\\'] + path.skip(2)
            &&& !long && !share && windows::absolute(path) ==> long_form(path) == prefix + path
            &&& !long && !share && !windows::absolute(path) ==> long_form(path) == path
        }),
{
    let prefix = seq!['\\', '\\', '?', '\\'];
    let start = seq!['\\', '\\'];
    if path.len() >= 4 {
        assert(path.subrange(0, 4) =~= path.take(4));
    }
    if path.len() >= 2 {
        let two = path.subrange(0, 2);
        assert(two[0] == path[0] && two[1] == path[1]);
        if path[0] == '\\' && path[1] == '\\' {
            assert(two =~= start);
        } else {
            assert(start[0] == '\\' && start[1] == '\\');
        }
    }
    assert(prefix + seq!['U', 'N', 'C', '\\'] =~= seq!['\\', '\\', '?', '\\', 'U', 'N', 'C', '\\']);
}

} // verus!
