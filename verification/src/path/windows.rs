//! Paths of Windows, by their text alone.
//!
//! A path there may begin with a prefix: a drive (`C:`), a share (`\\server\share`) or device
//! (`\\.\COM1`), or one that is taken verbatim (`\\?\..`). Behind it a separator stands for the root.
//! Names are separated by `\` or `/`; behind a verbatim prefix only `\` separates.

use crate::text::{are_parts, chars_of, sub_chars, to_string};
use vstd::prelude::*;

verus! {

/// What a path begins with.
#[derive(Debug, Clone, Copy, PartialEq, Eq, Structural)]
pub enum PrefixKind {
    Nothing,
    Drive,
    /// A share or a device. It has a root of its own.
    Share,
    /// A prefix behind which nothing is interpreted.
    Verbatim,
}

/// Whether a character is a letter of a drive.
pub open spec fn drive_letter(c: char) -> bool {
    ('a' <= c <= 'z') || ('A' <= c <= 'Z')
}

/// Whether a character separates names.
pub open spec fn separator(c: char, verbatim: bool) -> bool {
    c == '\\' || (!verbatim && c == '/')
}

/// Where the name that begins at `i` ends: at the next separator, or with the text.
pub open spec fn name_to(s: Seq<char>, i: int, verbatim: bool) -> int
    decreases s.len() - i,
{
    if 0 <= i < s.len() && !separator(s[i], verbatim) {
        name_to(s, i + 1, verbatim)
    } else {
        i
    }
}

/// Where the name behind the one that ends at `to` ends; `to` if there is none.
pub open spec fn second_to(s: Seq<char>, to: int, verbatim: bool) -> int {
    if to < s.len() && name_to(s, to + 1, verbatim) > to + 1 {
        name_to(s, to + 1, verbatim)
    } else {
        to
    }
}

/// Whether a text begins with `\\?\`.
pub open spec fn begins_verbatim(s: Seq<char>) -> bool {
    s.len() >= 4 && s[0] == '\\' && s[1] == '\\' && s[2] == '?' && s[3] == '\\'
}

/// Whether a text that begins with `\\?\` goes on with `UNC\`.
pub open spec fn verbatim_share(s: Seq<char>) -> bool {
    s.len() >= 8 && s[4] == 'U' && s[5] == 'N' && s[6] == 'C' && separator(s[7], false)
}

/// Whether a text that begins with `\\?\` goes on with a drive and nothing else in its name.
pub open spec fn verbatim_drive(s: Seq<char>) -> bool {
    s.len() >= 6 && drive_letter(s[4]) && s[5] == ':' && (s.len() == 6 || separator(s[6], false))
}

/// The prefix of a path, and how long it is.
pub open spec fn prefix(s: Seq<char>) -> (PrefixKind, int) {
    if s.len() >= 2 && separator(s[0], false) && separator(s[1], false) {
        if begins_verbatim(s) {
            if verbatim_share(s) {
                (PrefixKind::Verbatim, second_to(s, name_to(s, 8, true), true))
            } else if verbatim_drive(s) {
                (PrefixKind::Verbatim, 6)
            } else {
                (PrefixKind::Verbatim, name_to(s, 4, true))
            }
        } else if s.len() >= 4 && s[2] == '.' && separator(s[3], false) {
            (PrefixKind::Share, name_to(s, 4, false))
        } else {
            let server = name_to(s, 2, false);
            let share = second_to(s, server, false);
            if server > 2 && share > server {
                (PrefixKind::Share, share)
            } else {
                (PrefixKind::Nothing, 0)
            }
        }
    } else if s.len() >= 2 && drive_letter(s[0]) && s[1] == ':' {
        (PrefixKind::Drive, 2)
    } else {
        (PrefixKind::Nothing, 0)
    }
}

/// Whether a separator stands behind the prefix.
pub open spec fn root_written(s: Seq<char>) -> bool {
    prefix(s).1 < s.len() && separator(s[prefix(s).1], false)
}

/// Whether a path is complete by itself: it has a prefix and starts at its root.
pub open spec fn absolute(s: Seq<char>) -> bool {
    match prefix(s).0 {
        PrefixKind::Nothing => false,
        PrefixKind::Drive => root_written(s),
        PrefixKind::Share => true,
        PrefixKind::Verbatim => true,
    }
}

/// Where the names of a path begin.
pub open spec fn head_len(s: Seq<char>) -> int {
    if root_written(s) {
        prefix(s).1 + 1
    } else {
        prefix(s).1
    }
}

/// The names from `i` on. Empty ones do not count, and neither does `.`, unless the path is verbatim.
pub open spec fn names_from(s: Seq<char>, i: int, verbatim: bool) -> Seq<Seq<char>>
    decreases s.len() + 1 - i,
    when 0 <= i
{
    if i >= s.len() {
        Seq::empty()
    } else {
        proof {
            name_to_range(s, i, verbatim);
        }
        let to = name_to(s, i, verbatim);
        let name = s.subrange(i, to);
        let rest = names_from(s, to + 1, verbatim);
        if name.len() == 0 || (!verbatim && name == seq!['.']) {
            rest
        } else {
            seq![name] + rest
        }
    }
}

/// The names of a path.
pub open spec fn names(s: Seq<char>) -> Seq<Seq<char>> {
    names_from(s, head_len(s), prefix(s).0 == PrefixKind::Verbatim)
}

/// Whether a name is one: neither `.` nor `..`.
pub open spec fn is_name(name: Seq<char>) -> bool {
    name != seq!['.'] && name != seq!['.', '.']
}

/// Names with a separator between each two.
pub open spec fn chained(list: Seq<Seq<char>>) -> Seq<char>
    decreases list.len(),
{
    if list.len() == 0 {
        Seq::empty()
    } else if list.len() == 1 {
        list[0]
    } else {
        chained(list.drop_last()).push('\\') + list.last()
    }
}

/// Where the first `n` names lead from a place: `..` takes back the name before it, if there is one.
pub open spec fn followed(start: Seq<Seq<char>>, list: Seq<Seq<char>>, n: int) -> Seq<Seq<char>>
    decreases n,
{
    if n <= 0 {
        start
    } else {
        let before = followed(start, list, n - 1);
        let name = list[n - 1];
        if name == seq!['.', '.'] {
            if before.len() > 0 && is_name(before.last()) {
                before.drop_last()
            } else {
                before
            }
        } else {
            before.push(name)
        }
    }
}

/// A path without prefix, taken from a verbatim one: it is followed name by name.
pub open spec fn joined_verbatim(base: Seq<char>, path: Seq<char>) -> Seq<char> {
    let start = if root_written(path) {
        Seq::empty()
    } else {
        names(base)
    };
    let list = followed(start, names(path), names(path).len() as int);
    let head = base.take(prefix(base).1);
    if root_written(base) || root_written(path) || list.len() > 0 {
        head.push('\\') + chained(list)
    } else {
        head
    }
}

/// A path taken from another. One with a prefix stands for itself; one that starts at a root keeps
/// the prefix of the other alone.
pub open spec fn joined(base: Seq<char>, path: Seq<char>) -> Seq<char> {
    let (kind, len) = prefix(base);
    if prefix(path).0 != PrefixKind::Nothing {
        path
    } else if kind == PrefixKind::Verbatim && path.len() > 0 {
        joined_verbatim(base, path)
    } else if root_written(path) {
        base.take(len) + path
    } else if base.len() > 0 && !separator(base.last(), false) && !(kind == PrefixKind::Drive && len
        == base.len()) {
        base.push('\\') + path
    } else {
        base + path
    }
}

/// Whether a path ends in a name.
pub open spec fn ends_in_name(s: Seq<char>) -> bool {
    names(s).len() > 0 && is_name(names(s).last())
}

/// A path without the name that it ends in, and without the separator before that.
pub open spec fn popped(s: Seq<char>) -> Seq<char> {
    let cut = s.len() - names(s).last().len();
    if cut > head_len(s) {
        s.take(cut - 1)
    } else {
        s.take(cut)
    }
}

/// Where the first `n` names lead from a path, in text.
pub open spec fn walked(start: Seq<char>, list: Seq<Seq<char>>, n: int) -> Seq<char>
    decreases n,
{
    if n <= 0 {
        start
    } else {
        let before = walked(start, list, n - 1);
        let name = list[n - 1];
        if name == seq!['.'] {
            before
        } else if name == seq!['.', '.'] && ends_in_name(before) {
            popped(before)
        } else {
            joined(before, name)
        }
    }
}

/// The prefix of a path, and its root.
pub open spec fn head(s: Seq<char>) -> Seq<char> {
    let start = s.take(prefix(s).1);
    if root_written(s) || prefix(s).0 == PrefixKind::Share {
        joined(start, seq!['\\'])
    } else {
        start
    }
}

/// A path without detours; the path to nowhere is `.`.
pub open spec fn normalized(s: Seq<char>) -> Seq<char> {
    let end = walked(head(s), names(s), names(s).len() as int);
    if end.len() == 0 {
        seq!['.']
    } else {
        end
    }
}

/// Whether the name of a path starts with a dot.
pub open spec fn hidden(s: Seq<char>) -> bool {
    ends_in_name(s) && names(s).last()[0] == '.'
}

// ---------------------------------------------------------------------------------------------
// When two paths are the same.

/// Whether a place of a prefix holds a letter of a drive.
pub open spec fn holds_drive(s: Seq<char>, i: int) -> bool {
    ||| prefix(s).0 == PrefixKind::Drive && i == 0
    ||| prefix(s).0 == PrefixKind::Verbatim && !verbatim_share(s) && verbatim_drive(s) && i == 4
}

/// Whether a place of a prefix holds a separator that may be written either way.
pub open spec fn holds_separator(s: Seq<char>, i: int) -> bool {
    &&& separator(s[i], false)
    &&& prefix(s).0 == PrefixKind::Share || (prefix(s).0 == PrefixKind::Verbatim && verbatim_share(s) && i
        == 7)
}

/// Whether two letters are the same but for their case.
pub open spec fn same_letter(a: char, b: char) -> bool {
    a == b || a as int == b as int + 32 || b as int == a as int + 32
}

/// Whether two prefixes agree at a place.
pub open spec fn agree_at(a: Seq<char>, b: Seq<char>, i: int) -> bool {
    ||| a[i] == b[i]
    ||| holds_drive(a, i) && holds_drive(b, i) && same_letter(a[i], b[i])
    ||| holds_separator(a, i) && holds_separator(b, i)
}

/// Whether two paths have the same prefix, whatever the case of a drive and however separated.
pub open spec fn same_prefix(a: Seq<char>, b: Seq<char>) -> bool {
    &&& prefix(a) == prefix(b)
    &&& forall|i: int| 0 <= i < prefix(a).1 ==> #[trigger] agree_at(a, b, i)
}

/// Whether a path starts at a root that shows.
pub open spec fn starts_at_root(s: Seq<char>) -> bool {
    root_written(s) || prefix(s).0 == PrefixKind::Share
}

/// Whether a path starts with the name `.`.
pub open spec fn starts_here(s: Seq<char>) -> bool {
    prefix(s).0 == PrefixKind::Nothing && s.len() > 0 && s[0] == '.' && (s.len() == 1 || separator(
        s[1],
        false,
    ))
}

/// Whether two paths are the same, name by name.
pub open spec fn same_path(a: Seq<char>, b: Seq<char>) -> bool {
    &&& same_prefix(a, b)
    &&& starts_at_root(a) == starts_at_root(b)
    &&& starts_here(a) == starts_here(b)
    &&& names(a) == names(b)
}

// ---------------------------------------------------------------------------------------------
// Lemmas.

/// A name ends inside the text.
pub proof fn name_to_range(s: Seq<char>, i: int, verbatim: bool)
    requires
        0 <= i,
    ensures
        i <= name_to(s, i, verbatim),
        i <= s.len() ==> name_to(s, i, verbatim) <= s.len(),
    decreases s.len() - i,
{
    if i < s.len() && !separator(s[i], verbatim) {
        name_to_range(s, i + 1, verbatim);
    }
}

proof fn second_range(s: Seq<char>, to: int, verbatim: bool)
    requires
        0 <= to <= s.len(),
    ensures
        to <= second_to(s, to, verbatim) <= s.len(),
{
    if to < s.len() {
        name_to_range(s, to + 1, verbatim);
    }
}

/// A prefix is part of the text.
pub proof fn prefix_range(s: Seq<char>)
    ensures
        0 <= prefix(s).1 <= s.len(),
        prefix(s).1 <= head_len(s) <= s.len(),
{
    if s.len() >= 2 {
        name_to_range(s, 2, false);
        second_range(s, name_to(s, 2, false), false);
    }
    if s.len() >= 4 {
        name_to_range(s, 4, false);
        name_to_range(s, 4, true);
    }
    if s.len() >= 8 {
        name_to_range(s, 8, true);
        second_range(s, name_to(s, 8, true), true);
    }
}

proof fn names_are_short(s: Seq<char>, i: int, verbatim: bool)
    requires
        0 <= i,
    ensures
        forall|k: int|
            0 <= k < names_from(s, i, verbatim).len() ==> 0 < (#[trigger] names_from(
                s,
                i,
                verbatim,
            )[k]).len() <= s.len() - i,
    decreases s.len() + 1 - i,
{
    if i < s.len() {
        name_to_range(s, i, verbatim);
        let to = name_to(s, i, verbatim);
        names_are_short(s, to + 1, verbatim);
        let rest = names_from(s, to + 1, verbatim);
        let all = names_from(s, i, verbatim);
        assert forall|k: int| 0 <= k < all.len() implies 0 < (#[trigger] all[k]).len() <= s.len() - i by {
            if all.len() == rest.len() {
                assert(all[k] == rest[k]);
            } else if k > 0 {
                assert(all[k] == rest[k - 1]);
            }
        }
    }
}

/// A path that is complete by itself stands for itself wherever it is taken from, and no path comes to
/// nothing when its detours are gone.
pub proof fn a_complete_path_stands_for_itself(base: Seq<char>, path: Seq<char>)
    ensures
        absolute(path) ==> joined(base, path) == path,
        normalized(path).len() > 0,
{
}

// ---------------------------------------------------------------------------------------------
// The executable side.

fn is_separator(c: char, verbatim: bool) -> (yes: bool)
    ensures
        yes == separator(c, verbatim),
{
    c == '\\' || (!verbatim && c == '/')
}

fn is_letter(c: char) -> (yes: bool)
    ensures
        yes == drive_letter(c),
{
    ('a' <= c && c <= 'z') || ('A' <= c && c <= 'Z')
}

fn name_end(s: &[char], from: usize, verbatim: bool) -> (end: usize)
    requires
        from <= s@.len(),
    ensures
        end == name_to(s@, from as int, verbatim),
        from <= end <= s@.len(),
{
    let mut i: usize = from;
    while i < s.len() && !is_separator(s[i], verbatim)
        invariant
            from <= i <= s@.len(),
            name_to(s@, from as int, verbatim) == name_to(s@, i as int, verbatim),
        decreases s@.len() - i,
    {
        i += 1;
    }
    i
}

fn second_end(s: &[char], to: usize, verbatim: bool) -> (end: usize)
    requires
        to <= s@.len(),
    ensures
        end == second_to(s@, to as int, verbatim),
        to <= end <= s@.len(),
{
    if to < s.len() {
        let end: usize = name_end(s, to + 1, verbatim);
        if end > to + 1 {
            return end;
        }
    }
    to
}

fn is_verbatim_share(s: &[char]) -> (yes: bool)
    ensures
        yes == verbatim_share(s@),
{
    s.len() >= 8 && s[4] == 'U' && s[5] == 'N' && s[6] == 'C' && is_separator(s[7], false)
}

fn is_verbatim_drive(s: &[char]) -> (yes: bool)
    ensures
        yes == verbatim_drive(s@),
{
    s.len() >= 6 && is_letter(s[4]) && s[5] == ':' && (s.len() == 6 || is_separator(s[6], false))
}

fn prefix_of(s: &[char]) -> (result: (PrefixKind, usize))
    ensures
        result.0 == prefix(s@).0,
        result.1 == prefix(s@).1,
        result.1 <= s@.len(),
{
    let n: usize = s.len();
    if n >= 2 && is_separator(s[0], false) && is_separator(s[1], false) {
        if n >= 4 && s[0] == '\\' && s[1] == '\\' && s[2] == '?' && s[3] == '\\' {
            if is_verbatim_share(s) {
                let server: usize = name_end(s, 8, true);
                (PrefixKind::Verbatim, second_end(s, server, true))
            } else if is_verbatim_drive(s) {
                (PrefixKind::Verbatim, 6)
            } else {
                (PrefixKind::Verbatim, name_end(s, 4, true))
            }
        } else if n >= 4 && s[2] == '.' && is_separator(s[3], false) {
            (PrefixKind::Share, name_end(s, 4, false))
        } else {
            let server: usize = name_end(s, 2, false);
            let share: usize = second_end(s, server, false);
            if server > 2 && share > server {
                (PrefixKind::Share, share)
            } else {
                (PrefixKind::Nothing, 0)
            }
        }
    } else if n >= 2 && is_letter(s[0]) && s[1] == ':' {
        (PrefixKind::Drive, 2)
    } else {
        (PrefixKind::Nothing, 0)
    }
}

fn has_root(s: &[char]) -> (yes: bool)
    ensures
        yes == root_written(s@),
{
    let len: usize = prefix_of(s).1;
    len < s.len() && is_separator(s[len], false)
}

fn names_of(s: &[char]) -> (list: Vec<Vec<char>>)
    ensures
        are_parts(list@, names(s@)),
{
    let (kind, len) = prefix_of(s);
    let verbatim = kind == PrefixKind::Verbatim;
    let n: usize = s.len();
    let mut i: usize = if has_root(s) {
        len + 1
    } else {
        len
    };
    let mut list: Vec<Vec<char>> = Vec::new();
    let ghost mut done = Seq::<Seq<char>>::empty();
    assert(done + names(s@) =~= names(s@));
    while i < n
        invariant
            n == s@.len(),
            i <= n,
            are_parts(list@, done),
            names(s@) == done + names_from(s@, i as int, verbatim),
        decreases n - i,
    {
        let to: usize = name_end(s, i, verbatim);
        let name = sub_chars(s, i, to);
        let here = name.len() == 1 && name[0] == '.';
        assert(here == (name@ == seq!['.'])) by {
            if here {
                assert(name@ =~= seq!['.']);
            }
        }
        let ghost rest = names_from(s@, to + 1, verbatim);
        if name.len() > 0 && (verbatim || !here) {
            proof {
                assert(done + (seq![name@] + rest) =~= done.push(name@) + rest);
                done = done.push(name@);
            }
            list.push(name);
        }
        if to == n {
            assert(rest =~= Seq::<Seq<char>>::empty());
            assert(done + rest =~= done);
            return list;
        }
        i = to + 1;
    }
    assert(done + Seq::<Seq<char>>::empty() =~= done);
    list
}

/// Whether a path is complete by itself.
pub fn is_absolute(path: &str) -> (yes: bool)
    ensures
        yes == absolute(path@),
{
    let chars = chars_of(path);
    match prefix_of(chars.as_slice()).0 {
        PrefixKind::Nothing => false,
        PrefixKind::Drive => has_root(chars.as_slice()),
        PrefixKind::Share => true,
        PrefixKind::Verbatim => true,
    }
}

fn is_dots(name: &[char]) -> (yes: bool)
    ensures
        yes == (name@ == seq!['.', '.']),
{
    let yes = name.len() == 2 && name[0] == '.' && name[1] == '.';
    assert(yes ==> name@ =~= seq!['.', '.']);
    yes
}

fn is_dot(name: &[char]) -> (yes: bool)
    ensures
        yes == (name@ == seq!['.']),
{
    let yes = name.len() == 1 && name[0] == '.';
    assert(yes ==> name@ =~= seq!['.']);
    yes
}

fn put(text: &mut Vec<char>, more: &[char])
    ensures
        final(text)@ == old(text)@ + more@,
{
    let mut i: usize = 0;
    assert(text@ =~= old(text)@ + more@.take(0));
    while i < more.len()
        invariant
            i <= more@.len(),
            text@ == old(text)@ + more@.take(i as int),
        decreases more@.len() - i,
    {
        text.push(more[i]);
        assert(text@ =~= old(text)@ + more@.take(i + 1));
        i += 1;
    }
    assert(more@.take(i as int) =~= more@);
}

fn chain(list: &Vec<Vec<char>>, expected: Ghost<Seq<Seq<char>>>) -> (text: Vec<char>)
    requires
        are_parts(list@, expected@),
    ensures
        text@ == chained(expected@),
{
    let ghost all = expected@;
    let mut text: Vec<char> = Vec::new();
    let mut i: usize = 0;
    assert(text@ =~= chained(all.take(0)));
    while i < list.len()
        invariant
            i <= list@.len(),
            are_parts(list@, all),
            text@ == chained(all.take(i as int)),
        decreases list@.len() - i,
    {
        proof {
            assert(list@[i as int]@ == all[i as int]);
            assert(all.take(i + 1).drop_last() =~= all.take(i as int));
            assert(all.take(i + 1).last() == all[i as int]);
        }
        if i > 0 {
            text.push('\\');
        }
        put(&mut text, list[i].as_slice());
        proof {
            if i == 0 {
                assert(text@ =~= all.take(1)[0]);
            }
        }
        i += 1;
    }
    assert(all.take(i as int) =~= all);
    text
}

fn follow(start: Vec<Vec<char>>, list: Vec<Vec<char>>, from: Ghost<Seq<Seq<char>>>, along: Ghost<
    Seq<Seq<char>>,
>) -> (result: Vec<Vec<char>>)
    requires
        are_parts(start@, from@),
        are_parts(list@, along@),
    ensures
        are_parts(result@, followed(from@, along@, along@.len() as int)),
{
    let mut result = start;
    let mut i: usize = 0;
    while i < list.len()
        invariant
            i <= list@.len(),
            are_parts(list@, along@),
            are_parts(result@, followed(from@, along@, i as int)),
        decreases list@.len() - i,
    {
        let ghost before = followed(from@, along@, i as int);
        assert(list@[i as int]@ == along@[i as int]);
        if is_dots(list[i].as_slice()) {
            let n: usize = result.len();
            if n > 0 {
                assert(result@[n - 1]@ == before[n - 1]);
                if !is_dot(result[n - 1].as_slice()) && !is_dots(result[n - 1].as_slice()) {
                    result.pop();
                }
            }
        } else {
            let name = sub_chars(list[i].as_slice(), 0, list[i].len());
            assert(name@ =~= along@[i as int]);
            result.push(name);
        }
        i += 1;
    }
    result
}

fn join_verbatim(base: &[char], path: &[char]) -> (result: Vec<char>)
    ensures
        result@ == joined_verbatim(base@, path@),
{
    let root = has_root(path);
    let start: Vec<Vec<char>> = if root {
        Vec::new()
    } else {
        names_of(base)
    };
    let ghost from = if root_written(path@) {
        Seq::empty()
    } else {
        names(base@)
    };
    let list = follow(start, names_of(path), Ghost(from), Ghost(names(path@)));
    let ghost expected = followed(from, names(path@), names(path@).len() as int);
    let len: usize = prefix_of(base).1;
    let mut result = sub_chars(base, 0, len);
    assert(result@ =~= base@.take(prefix(base@).1));
    if has_root(base) || root || list.len() > 0 {
        result.push('\\');
        let text = chain(&list, Ghost(expected));
        put(&mut result, text.as_slice());
    }
    result
}

fn join_chars(base: &[char], path: &[char]) -> (result: Vec<char>)
    ensures
        result@ == joined(base@, path@),
{
    let (kind, len) = prefix_of(base);
    let n: usize = base.len();
    if prefix_of(path).0 != PrefixKind::Nothing {
        let result = sub_chars(path, 0, path.len());
        assert(result@ =~= path@);
        return result;
    }
    if kind == PrefixKind::Verbatim && path.len() > 0 {
        return join_verbatim(base, path);
    }
    let mut result: Vec<char>;
    if has_root(path) {
        result = sub_chars(base, 0, len);
        assert(result@ =~= base@.take(prefix(base@).1));
    } else {
        result = sub_chars(base, 0, n);
        assert(result@ =~= base@);
        if n > 0 && !is_separator(base[n - 1], false) && !(kind == PrefixKind::Drive && len == n) {
            result.push('\\');
        }
    }
    put(&mut result, path);
    result
}

/// A path taken from another.
pub fn join(base: &str, path: &str) -> (result: String)
    ensures
        result@ == joined(base@, path@),
{
    let first = chars_of(base);
    let second = chars_of(path);
    let result = join_chars(first.as_slice(), second.as_slice());
    to_string(result.as_slice())
}

fn last_name(s: &[char]) -> (name: Option<Vec<char>>)
    ensures
        name is Some == ends_in_name(s@),
        name matches Some(name) ==> name@ == names(s@).last() && 0 < name@.len() <= s@.len() - head_len(
            s@,
        ),
{
    let list = names_of(s);
    let n: usize = list.len();
    proof {
        prefix_range(s@);
        names_are_short(s@, head_len(s@), prefix(s@).0 == PrefixKind::Verbatim);
    }
    if n == 0 {
        return None;
    }
    assert(list@[n - 1]@ == names(s@)[n - 1]);
    if is_dot(list[n - 1].as_slice()) || is_dots(list[n - 1].as_slice()) {
        return None;
    }
    let name = sub_chars(list[n - 1].as_slice(), 0, list[n - 1].len());
    assert(name@ =~= names(s@).last());
    Some(name)
}

fn step(before: Vec<char>, name: &[char]) -> (after: Vec<char>)
    ensures
        after@ == (if name@ == seq!['.'] {
            before@
        } else if name@ == seq!['.', '.'] && ends_in_name(before@) {
            popped(before@)
        } else {
            joined(before@, name@)
        }),
{
    if is_dot(name) {
        return before;
    }
    if is_dots(name) {
        match last_name(before.as_slice()) {
            Some(last) => {
                let len: usize = prefix_of(before.as_slice()).1;
                let head: usize = if has_root(before.as_slice()) {
                    len + 1
                } else {
                    len
                };
                let cut: usize = before.len() - last.len();
                let to: usize = if cut > head {
                    cut - 1
                } else {
                    cut
                };
                let after = sub_chars(before.as_slice(), 0, to);
                assert(after@ =~= popped(before@));
                return after;
            },
            None => {},
        }
    }
    join_chars(before.as_slice(), name)
}

/// A path without detours: `.` is dropped and `..` takes back the name before it. What cannot be taken
/// back stays.
pub fn normalize(path: &str) -> (result: String)
    ensures
        result@ == normalized(path@),
{
    let chars = chars_of(path);
    let s = chars.as_slice();
    let (kind, len) = prefix_of(s);
    let mut text = sub_chars(s, 0, len);
    assert(text@ =~= path@.take(prefix(path@).1));
    if has_root(s) || kind == PrefixKind::Share {
        let root = ['\\'];
        assert(root@ =~= seq!['\\']);
        text = join_chars(text.as_slice(), root.as_slice());
    }
    let list = names_of(s);
    let ghost along = names(path@);
    let mut i: usize = 0;
    while i < list.len()
        invariant
            i <= list@.len(),
            are_parts(list@, along),
            along == names(path@),
            text@ == walked(head(path@), along, i as int),
        decreases list@.len() - i,
    {
        assert(list@[i as int]@ == along[i as int]);
        text = step(text, list[i].as_slice());
        i += 1;
    }
    if text.len() == 0 {
        text.push('.');
        assert(text@ =~= seq!['.']);
    }
    to_string(text.as_slice())
}

/// Whether the name of a path starts with a dot.
pub fn is_hidden(path: &str) -> (yes: bool)
    ensures
        yes == hidden(path@),
{
    let chars = chars_of(path);
    match last_name(chars.as_slice()) {
        Some(name) => name[0] == '.',
        None => false,
    }
}

fn is_same_letter(a: char, b: char) -> (same: bool)
    ensures
        same == same_letter(a, b),
{
    let x: u32 = a as u32;
    let y: u32 = b as u32;
    x == y || (x >= 32 && x - 32 == y) || (y >= 32 && y - 32 == x)
}

fn does_hold_drive(s: &[char], i: usize) -> (yes: bool)
    ensures
        yes == holds_drive(s@, i as int),
{
    let kind = prefix_of(s).0;
    (kind == PrefixKind::Drive && i == 0) || (kind == PrefixKind::Verbatim && !is_verbatim_share(s)
        && is_verbatim_drive(s) && i == 4)
}

fn does_hold_separator(s: &[char], i: usize) -> (yes: bool)
    requires
        i < s@.len(),
    ensures
        yes == holds_separator(s@, i as int),
{
    let kind = prefix_of(s).0;
    is_separator(s[i], false) && (kind == PrefixKind::Share || (kind == PrefixKind::Verbatim
        && is_verbatim_share(s) && i == 7))
}

fn has_same_prefix(a: &[char], b: &[char]) -> (same: bool)
    ensures
        same == same_prefix(a@, b@),
{
    let (kind_a, len_a) = prefix_of(a);
    let (kind_b, len_b) = prefix_of(b);
    if kind_a != kind_b || len_a != len_b {
        return false;
    }
    let mut i: usize = 0;
    while i < len_a
        invariant
            i <= len_a <= a@.len(),
            len_a <= b@.len(),
            len_a == prefix(a@).1,
            forall|k: int| 0 <= k < i ==> #[trigger] agree_at(a@, b@, k),
        decreases len_a - i,
    {
        let agree = a[i] == b[i] || (does_hold_drive(a, i) && does_hold_drive(b, i) && is_same_letter(
            a[i],
            b[i],
        )) || (does_hold_separator(a, i) && does_hold_separator(b, i));
        assert(agree == agree_at(a@, b@, i as int));
        if !agree {
            return false;
        }
        i += 1;
    }
    true
}

fn is_root_shown(s: &[char]) -> (yes: bool)
    ensures
        yes == starts_at_root(s@),
{
    has_root(s) || prefix_of(s).0 == PrefixKind::Share
}

fn is_here(s: &[char]) -> (yes: bool)
    ensures
        yes == starts_here(s@),
{
    prefix_of(s).0 == PrefixKind::Nothing && s.len() > 0 && s[0] == '.' && (s.len() == 1 || is_separator(
        s[1],
        false,
    ))
}

/// Whether two paths are the same, name by name.
pub fn is_same_path(a: &str, b: &str) -> (same: bool)
    ensures
        same == same_path(a@, b@),
{
    let x = chars_of(a);
    let y = chars_of(b);
    if !has_same_prefix(x.as_slice(), y.as_slice()) {
        return false;
    }
    if is_root_shown(x.as_slice()) != is_root_shown(y.as_slice()) || is_here(x.as_slice()) != is_here(
        y.as_slice(),
    ) {
        return false;
    }
    let p = names_of(x.as_slice());
    let q = names_of(y.as_slice());
    crate::text::same_parts(&p, &q, Ghost(names(a@)), Ghost(names(b@)))
}

/// A drive with a separator behind it, of either kind, begins a complete path; a drive alone, or with a name
/// right behind it, does not, and neither does a path without a drive that does not begin with two separators.
pub proof fn a_drive_with_a_root_is_complete(letter: char, rest: Seq<char>, path: Seq<char>)
    requires
        'a' <= letter <= 'z' || 'A' <= letter <= 'Z',
    ensures
        absolute(seq![letter, ':', '\\'] + rest),
        absolute(seq![letter, ':', '/'] + rest),
        rest.len() == 0 || (rest[0] != '\\' && rest[0] != '/') ==> !absolute(seq![letter, ':'] + rest),
        path.len() < 2 ==> !absolute(path),
        path.len() >= 2 && path[1] != ':' && !(path[0] == '\\' || path[0] == '/') ==> !absolute(path),
        path.len() >= 2 && (path[0] == '\\' || path[0] == '/') && path[1] != '\\' && path[1] != '/' ==> !absolute(
            path,
        ),
{
    let a = seq![letter, ':', '\\'] + rest;
    let b = seq![letter, ':', '/'] + rest;
    let c = seq![letter, ':'] + rest;
    assert(a[0] == letter && a[1] == ':' && a[2] == '\\');
    assert(b[0] == letter && b[1] == ':' && b[2] == '/');
    assert(c[0] == letter && c[1] == ':');
    if rest.len() > 0 {
        assert(c[2] == rest[0]);
    }
}

/// A path without drive, share or root is written behind the one that it is taken from, which stays as it is,
/// with one separator between them unless there is one already, or nothing but a drive; one with a root keeps
/// only the drive or share of the other.
pub proof fn a_path_is_written_behind_its_directory(base: Seq<char>, path: Seq<char>)
    requires
        prefix(path).0 == PrefixKind::Nothing,
        prefix(base).0 != PrefixKind::Verbatim,
    ensures
        !root_written(path) ==> (joined(base, path) == base + path || joined(base, path) == base + seq!['\\'] + path),
        !root_written(path) && base.len() > 0 && base.last() != '\\' && base.last() != '/' && prefix(base).0
            != PrefixKind::Drive ==> joined(base, path) == base + seq!['\\'] + path,
        !root_written(path) && base.len() > 2 && base.last() != '\\' && base.last() != '/' && prefix(base).0
            == PrefixKind::Drive ==> joined(base, path) == base + seq!['\\'] + path,
        !root_written(path) && (base.len() == 0 || base.last() == '\\' || base.last() == '/') ==> joined(base, path)
            == base + path,
        !root_written(path) && prefix(base).0 == PrefixKind::Drive && base.len() == 2 ==> joined(base, path) == base
            + path,
        root_written(path) ==> joined(base, path) == base.take(prefix(base).1) + path,
{
    assert(base.push('\\') =~= base + seq!['\\']);
}

proof fn name_to_shifts(s: Seq<char>, t: Seq<char>, k: int)
    requires
        0 <= k <= t.len(),
    ensures
        name_to(s + t, s.len() + k, false) == s.len() + name_to(t, k, false),
    decreases t.len() - k,
{
    if k < t.len() {
        assert((s + t)[s.len() + k] == t[k]);
        if !separator(t[k], false) {
            name_to_shifts(s, t, k + 1);
        }
    }
}

proof fn names_shift(s: Seq<char>, t: Seq<char>, k: int)
    requires
        0 <= k,
    ensures
        names_from(s + t, s.len() + k, false) == names_from(t, k, false),
    decreases t.len() + 1 - k,
{
    if k < t.len() {
        name_to_shifts(s, t, k);
        name_to_range(t, k, false);
        let to = name_to(t, k, false);
        assert((s + t).subrange(s.len() + k, s.len() + to) =~= t.subrange(k, to));
        names_shift(s, t, to + 1);
    }
}

proof fn name_to_stays(s: Seq<char>, t: Seq<char>, i: int)
    requires
        0 <= i <= s.len(),
    ensures
        name_to(s.push('\\') + t, i, false) == name_to(s, i, false),
    decreases s.len() - i,
{
    let all = s.push('\\') + t;
    if i < s.len() {
        assert(all[i] == s[i]);
        if !separator(s[i], false) {
            name_to_stays(s, t, i + 1);
        }
    } else {
        assert(all[i] == '\\');
    }
}

proof fn names_in_turn(s: Seq<char>, t: Seq<char>, i: int)
    requires
        0 <= i <= s.len(),
    ensures
        names_from(s.push('\\') + t, i, false) == names_from(s, i, false) + names_from(t, 0, false),
    decreases s.len() - i,
{
    let all = s.push('\\') + t;
    name_to_stays(s, t, i);
    name_to_range(s, i, false);
    let to = name_to(s, i, false);
    assert(all.subrange(i, to) =~= s.subrange(i, to));
    if to < s.len() {
        names_in_turn(s, t, to + 1);
        assert(names_from(all, i, false) =~= names_from(s, i, false) + names_from(t, 0, false));
    } else {
        names_shift(s.push('\\'), t, 0);
        assert(names_from(all, to + 1, false) == names_from(t, 0, false));
        if i < s.len() {
            assert(names_from(s, to + 1, false) =~= Seq::<Seq<char>>::empty());
        } else {
            assert(all.subrange(i, to).len() == 0);
        }
        assert(names_from(all, i, false) =~= names_from(s, i, false) + names_from(t, 0, false));
    }
}

/// Whether a text is a name that leads one step further: it is not empty, neither `.` nor `..`, and holds neither
/// a separator nor a colon.
pub open spec fn plain_name(name: Seq<char>) -> bool {
    &&& name.len() > 0
    &&& name != seq!['.']
    &&& name != seq!['.', '.']
    &&& forall|i: int|
        0 <= i < name.len() ==> (#[trigger] name[i]) != '\\' && name[i] != '/' && name[i] != ':'
}

proof fn plain_runs_through(name: Seq<char>, k: int)
    requires
        plain_name(name),
        0 <= k <= name.len(),
    ensures
        name_to(name, k, false) == name.len(),
    decreases name.len() - k,
{
    if k < name.len() {
        assert(!separator(name[k], false));
        plain_runs_through(name, k + 1);
    }
}

proof fn plain_is_one(name: Seq<char>)
    requires
        plain_name(name),
    ensures
        names_from(name, 0, false) == seq![name],
{
    plain_runs_through(name, 0);
    assert(name.subrange(0, name.len() as int) =~= name);
    assert(names_from(name, (name.len() + 1) as int, false) =~= Seq::<Seq<char>>::empty());
    assert(names_from(name, 0, false) =~= seq![name]);
}

/// The root of a drive.
pub open spec fn drive_root(letter: char) -> Seq<char> {
    seq![letter, ':', '\\']
}

proof fn names_of_a_chain(root: Seq<char>, list: Seq<Seq<char>>)
    requires
        root.len() == 3,
        forall|i: int| 0 <= i < list.len() ==> plain_name(#[trigger] list[i]),
    ensures
        names_from(root + chained(list), 3, false) == list,
        list.len() > 0 ==> chained(list).len() > 0 && !separator(chained(list).last(), false),
    decreases list.len(),
{
    let s = root + chained(list);
    if list.len() == 0 {
        assert(s =~= root);
        assert(names_from(s, 3, false) =~= list);
    } else {
        let rest = list.drop_last();
        let name = list.last();
        assert(plain_name(list[list.len() - 1]));
        plain_is_one(name);
        assert forall|i: int| 0 <= i < rest.len() implies plain_name(#[trigger] rest[i]) by {
            assert(rest[i] == list[i]);
        }
        names_of_a_chain(root, rest);
        assert(rest.push(name) =~= list);
        if list.len() == 1 {
            names_shift(root, name, 0);
            assert(names_from(s, 3, false) =~= list);
        } else {
            assert(s =~= (root + chained(rest)).push('\\') + name);
            names_in_turn(root + chained(rest), name, 3);
            assert(names_from(s, 3, false) =~= list);
        }
        assert(chained(list).last() == name.last());
    }
}

proof fn walked_along_a_chain(letter: char, list: Seq<Seq<char>>, n: int)
    requires
        'a' <= letter <= 'z' || 'A' <= letter <= 'Z',
        forall|i: int| 0 <= i < list.len() ==> plain_name(#[trigger] list[i]),
        0 <= n <= list.len(),
    ensures
        walked(drive_root(letter), list, n) == drive_root(letter) + chained(list.take(n)),
    decreases n,
{
    let root = drive_root(letter);
    if n == 0 {
        assert(list.take(0) =~= Seq::<Seq<char>>::empty());
        assert(root + chained(list.take(0)) =~= root);
    } else {
        walked_along_a_chain(letter, list, n - 1);
        let before = root + chained(list.take(n - 1));
        let name = list[n - 1];
        assert(plain_name(name));
        assert(list.take(n).drop_last() =~= list.take(n - 1));
        assert(list.take(n).last() == name);
        let prior = list.take(n - 1);
        assert forall|i: int| 0 <= i < prior.len() implies plain_name(#[trigger] prior[i]) by {
            assert(prior[i] == list[i]);
        }
        names_of_a_chain(root, prior);
        assert(before[0] == letter && before[1] == ':' && before[2] == '\\');
        assert(prefix(before) == (PrefixKind::Drive, 2int));
        assert(!separator(name[0], false));
        if name.len() >= 2 {
            assert(name[1] != ':');
        }
        assert(prefix(name).0 == PrefixKind::Nothing);
        assert(!root_written(name));
        if n == 1 {
            assert(before =~= root);
            assert(before.last() == '\\');
            assert(list.take(1) =~= seq![name]);
            assert(joined(before, name) =~= root + chained(list.take(n)));
        } else {
            assert(before.last() == chained(prior).last());
            assert(joined(before, name) =~= root + chained(list.take(n)));
        }
    }
}

/// A complete path on a drive goes through its names one after the other, and one without detours stays as it is
/// when it is normalized.
pub proof fn a_straight_path_stays(letter: char, list: Seq<Seq<char>>)
    requires
        'a' <= letter <= 'z' || 'A' <= letter <= 'Z',
        forall|i: int| 0 <= i < list.len() ==> plain_name(#[trigger] list[i]),
    ensures
        names(drive_root(letter) + chained(list)) == list,
        normalized(drive_root(letter) + chained(list)) == drive_root(letter) + chained(list),
{
    let root = drive_root(letter);
    let s = root + chained(list);
    assert(s[0] == letter && s[1] == ':' && s[2] == '\\');
    assert(prefix(s) == (PrefixKind::Drive, 2int));
    assert(root_written(s));
    names_of_a_chain(root, list);
    let start = s.take(2);
    assert(start =~= seq![letter, ':']);
    let slash = seq!['\\'];
    assert(prefix(slash).0 == PrefixKind::Nothing);
    assert(root_written(slash));
    assert(prefix(start) == (PrefixKind::Drive, 2int));
    assert(start.take(2) =~= start);
    assert(head(s) =~= root);
    walked_along_a_chain(letter, list, list.len() as int);
    assert(list.take(list.len() as int) =~= list);
}

proof fn the_step_up_is_one_name()
    ensures
        names_from(seq!['.', '.'], 0, false) == seq![seq!['.', '.']],
{
    let up = seq!['.', '.'];
    assert(name_to(up, 2, false) == 2);
    assert(name_to(up, 1, false) == 2);
    assert(name_to(up, 0, false) == 2);
    assert(up.subrange(0, 2) =~= up);
    assert(names_from(up, 3, false) =~= Seq::<Seq<char>>::empty());
    assert(up != seq!['.']) by {
        assert(up.len() == 2 && seq!['.'].len() == 1);
    }
    assert(names_from(up, 0, false) =~= seq![up]);
}

/// A step down and up again leads back to where it came from.
pub proof fn a_step_up_takes_back_a_step_down(letter: char, list: Seq<Seq<char>>, name: Seq<char>)
    requires
        'a' <= letter <= 'z' || 'A' <= letter <= 'Z',
        forall|i: int| 0 <= i < list.len() ==> plain_name(#[trigger] list[i]),
        plain_name(name),
    ensures
        normalized(drive_root(letter) + chained(list.push(name)) + seq!['\\', '.', '.']) == drive_root(letter)
            + chained(list),
{
    let root = drive_root(letter);
    let up = seq!['.', '.'];
    let down = list.push(name);
    assert forall|i: int| 0 <= i < down.len() implies plain_name(#[trigger] down[i]) by {
        if i < list.len() {
            assert(down[i] == list[i]);
        }
    }
    let x = root + chained(down);
    let s = x + seq!['\\', '.', '.'];
    assert(s =~= x.push('\\') + up);
    names_of_a_chain(root, down);
    names_of_a_chain(root, list);
    names_in_turn(x, up, 3);
    the_step_up_is_one_name();
    let steps = down.push(up);
    assert(down + seq![up] =~= steps);
    assert(s[0] == letter && s[1] == ':' && s[2] == '\\');
    assert(prefix(s) == (PrefixKind::Drive, 2int) && root_written(s));
    assert(names(s) == steps);
    let start = s.take(2);
    assert(start =~= seq![letter, ':']);
    let slash = seq!['\\'];
    assert(prefix(slash).0 == PrefixKind::Nothing && root_written(slash));
    assert(prefix(start) == (PrefixKind::Drive, 2int));
    assert(start.take(2) =~= start);
    assert(head(s) =~= root);
    assert(steps.take(down.len() as int) =~= down);
    walked_through(root, steps, down, down.len() as int);
    walked_along_a_chain(letter, down, down.len() as int);
    assert(down.take(down.len() as int) =~= down);
    assert(x[0] == letter && x[1] == ':' && x[2] == '\\');
    assert(prefix(x) == (PrefixKind::Drive, 2int) && root_written(x));
    assert(names(x) == down);
    assert(up != seq!['.']) by {
        assert(up.len() == 2 && seq!['.'].len() == 1);
    }
    assert(walked(root, steps, steps.len() as int) == popped(x));
    assert(down.drop_last() =~= list);
    if list.len() == 0 {
        assert(popped(x) =~= root + chained(list));
    } else {
        assert(x =~= (root + chained(list)).push('\\') + name);
        assert(popped(x) =~= root + chained(list));
    }
}

proof fn walked_through(start: Seq<char>, all: Seq<Seq<char>>, first: Seq<Seq<char>>, n: int)
    requires
        0 <= n <= first.len() <= all.len(),
        all.take(first.len() as int) == first,
    ensures
        walked(start, all, n) == walked(start, first, n),
    decreases n,
{
    if n > 0 {
        walked_through(start, all, first, n - 1);
        assert(all.take(first.len() as int)[n - 1] == all[n - 1]);
    }
}

} // verus!
