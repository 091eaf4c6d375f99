//! A project: a directory with a manifest, and the documents below it.
//!
//! Reading files and listing directories is left to the caller; what they hold is handed in. Each
//! way to fail says which step failed.

use crate::path::lexical::{kept_names, rooted};
use crate::path::places::{join_on, joined_on, Platform};
use crate::path::windows;
use crate::text::{
    are_parts, chars_of, decimal, parts, push_decimal, same_parts, same_text, split, to_string,
};
use crate::ui::lxml::{column_at, line_at};
use vstd::prelude::*;
use vstd::string::StringExecFns;
use vstd::utf8::{encode_scalar, encode_utf8};

verus! {

/// Name of the manifest. The directory that holds it is the root of the project.
pub const MANIFEST_FILE: &'static str = "lxlake.toml";

/// Name of the directory that holds the documents.
pub const DOCUMENT_DIR: &'static str = "ui";

/// What the manifest says.
#[derive(Debug, PartialEq, Eq)]
pub struct Manifest {
    pub name: String,
    pub version: String,
    /// The document to open first, from the root of the project.
    pub entry: String,
}

/// One line of a manifest: a key, and its value if that is a text.
#[derive(Debug, PartialEq, Eq)]
pub struct Entry {
    pub key: String,
    pub text: Option<String>,
}

/// Why a manifest could not be read: where, counted in bytes, and what is wrong.
#[derive(Debug, PartialEq, Eq)]
pub struct SyntaxError {
    pub offset: Option<usize>,
    pub message: String,
}

/// A project that is open.
#[derive(Debug, PartialEq, Eq)]
pub struct Project {
    root: String,
    manifest: Manifest,
    documents: Vec<String>,
}

/// Why a project could not be opened.
#[derive(Debug, PartialEq, Eq)]
pub enum ProjectError {
    /// There is no manifest: this is not the root of a project.
    ManifestMissing { path: String },
    /// A file could not be read; `reason` is what the system said.
    Read { path: String, reason: String },
    /// The manifest is wrong. Line and column count from 1; line 0 points nowhere.
    Manifest { line: usize, column: usize, message: String },
    /// The document to open first is not there.
    EntryMissing { entry: String, path: String },
}

impl ProjectError {
    /// The error as a line of text.
    pub open spec fn shown(&self) -> Seq<char> {
        match self {
            ProjectError::ManifestMissing { path } => "`"@ + path@ + "` 不是项目根：找不到 lxlake.toml"@,
            ProjectError::Manifest { line, column, message } => if *line > 0 {
                "清单第 "@ + decimal(*line as nat) + " 行第 "@ + decimal(*column as nat) + " 列："@
                    + message@
            } else {
                "清单有误："@ + message@
            },
            ProjectError::EntryMissing { entry, path } => "清单里的 `entry = \""@ + entry@
                + "\"` 找不到："@ + path@ + " 不存在"@,
            ProjectError::Read { path, reason } => "读 "@ + path@ + " 失败："@ + reason@,
        }
    }

    /// The error as a line of text.
    pub fn display(&self) -> (text: String)
        ensures
            text@ == self.shown(),
    {
        match self {
            ProjectError::ManifestMissing { path } => {
                let mut text = "`".to_owned();
                text.append(path.as_str());
                text.append("` 不是项目根：找不到 lxlake.toml");
                text
            },
            ProjectError::Manifest { line, column, message } => {
                if *line > 0 {
                    let mut text = "清单第 ".to_owned();
                    push_decimal(&mut text, *line as u64);
                    text.append(" 行第 ");
                    push_decimal(&mut text, *column as u64);
                    text.append(" 列：");
                    text.append(message.as_str());
                    text
                } else {
                    let mut text = "清单有误：".to_owned();
                    text.append(message.as_str());
                    text
                }
            },
            ProjectError::EntryMissing { entry, path } => {
                let mut text = "清单里的 `entry = \"".to_owned();
                text.append(entry.as_str());
                text.append("\"` 找不到：");
                text.append(path.as_str());
                text.append(" 不存在");
                text
            },
            ProjectError::Read { path, reason } => {
                let mut text = "读 ".to_owned();
                text.append(path.as_str());
                text.append(" 失败：");
                text.append(reason.as_str());
                text
            },
        }
    }
}

// ---------------------------------------------------------------------------------------------
// The manifest.

/// A list of entries as a mathematical value.
pub open spec fn entries_seen(entries: Seq<Entry>) -> Seq<(Seq<char>, Option<Seq<char>>)> {
    entries.map_values(
        |entry: Entry|
            (
                entry.key@,
                match entry.text {
                    Some(text) => Some(text@),
                    None => None,
                },
            ),
    )
}

/// A parsed document, or why there is none, as a mathematical value.
pub open spec fn document_seen(result: Result<Vec<Entry>, SyntaxError>) -> Result<
    Seq<(Seq<char>, Option<Seq<char>>)>,
    (Option<usize>, Seq<char>),
> {
    match result {
        Ok(entries) => Ok(entries_seen(entries@)),
        Err(error) => Err((error.offset, error.message@)),
    }
}

/// What `toml` makes of a document: its top-level keys, each with its value if that is a text, or
/// where and why it is not a document.
pub uninterp spec fn toml_document(source: Seq<char>) -> Result<
    Seq<(Seq<char>, Option<Seq<char>>)>,
    (Option<usize>, Seq<char>),
>;

/// `toml::Table::from_str`: parses a document. The contract claims that the outcome, taken as the
/// list of top-level keys with the values that are texts, or as offset and message of the error, is a
/// function of the text alone.
#[verifier::external_body]
fn read_document(source: &str) -> (result: Result<Vec<Entry>, SyntaxError>)
    ensures
        document_seen(result) == toml_document(source@),
{
    match source.parse::<toml::Table>() {
        Ok(table) => Ok(
            table.into_iter().map(
                |(key, value)| Entry { key, text: value.as_str().map(str::to_owned) },
            ).collect(),
        ),
        Err(error) => Err(
            SyntaxError {
                offset: error.span().map(|span| span.start),
                message: error.message().to_owned(),
            },
        ),
    }
}

/// What stands under a key: nothing, a text, or something else.
pub open spec fn value_of(entries: Seq<(Seq<char>, Option<Seq<char>>)>, key: Seq<char>) -> Option<
    Option<Seq<char>>,
>
    decreases entries.len(),
{
    if entries.len() == 0 {
        None
    } else if entries[0].0 == key {
        Some(entries[0].1)
    } else {
        value_of(entries.drop_first(), key)
    }
}

/// What is said of a field that is missing or not a text.
pub open spec fn field_fault(found: Option<Option<Seq<char>>>, key: Seq<char>) -> Option<Seq<char>> {
    match found {
        Some(Some(_)) => None,
        Some(None) => Some("`"@ + key + "` 该是一个字符串"@),
        None => Some("清单缺 `"@ + key + "`"@),
    }
}

/// The manifest as a mathematical value.
pub struct ManifestView {
    pub name: Seq<char>,
    pub version: Seq<char>,
    pub entry: Seq<char>,
}

impl View for Manifest {
    type V = ManifestView;

    open spec fn view(&self) -> ManifestView {
        ManifestView { name: self.name@, version: self.version@, entry: self.entry@ }
    }
}

/// The manifest that the entries make, or what is wrong with them: the name is looked at first, then
/// the entry. A version that is missing, or not a text, has a default.
pub open spec fn manifest_of(entries: Seq<(Seq<char>, Option<Seq<char>>)>) -> Result<
    ManifestView,
    Seq<char>,
> {
    let name = value_of(entries, "name"@);
    let entry = value_of(entries, "entry"@);
    match field_fault(name, "name"@) {
        Some(fault) => Err(fault),
        None => match field_fault(entry, "entry"@) {
            Some(fault) => Err(fault),
            None => Ok(
                ManifestView {
                    name: name->0->0,
                    version: match value_of(entries, "version"@) {
                        Some(Some(version)) => version,
                        _ => "0.1.0"@,
                    },
                    entry: entry->0->0,
                },
            ),
        },
    }
}

fn find_entry(entries: &[Entry], key: &str) -> (found: Option<usize>)
    ensures
        found is Some == value_of(entries_seen(entries@), key@) is Some,
        found matches Some(i) ==> i < entries@.len() && value_of(entries_seen(entries@), key@) == Some(
            entries_seen(entries@)[i as int].1,
        ),
{
    let ghost all = entries_seen(entries@);
    let mut i: usize = 0;
    assert(all.skip(0) =~= all);
    while i < entries.len()
        invariant
            i <= entries@.len(),
            all == entries_seen(entries@),
            value_of(all, key@) == value_of(all.skip(i as int), key@),
        decreases entries@.len() - i,
    {
        proof {
            assert(all.skip(i as int)[0] == all[i as int]);
            assert(all.skip(i as int).drop_first() =~= all.skip(i + 1));
            assert(all[i as int].0 == entries@[i as int].key@);
        }
        if same_text(entries[i].key.as_str(), key) {
            return Some(i);
        }
        i += 1;
    }
    None
}

fn nowhere(message: String) -> (error: ProjectError)
    ensures
        error == (ProjectError::Manifest { line: 0, column: 0, message }),
{
    ProjectError::Manifest { line: 0, column: 0, message }
}

/// Whether an error points nowhere and says this.
pub open spec fn says(error: ProjectError, fault: Seq<char>) -> bool {
    error matches ProjectError::Manifest { line, column, message } && line == 0 && column == 0 && message@
        == fault
}

fn field(entries: &[Entry], key: &str) -> (result: Result<String, ProjectError>)
    ensures
        match field_fault(value_of(entries_seen(entries@), key@), key@) {
            None => result matches Ok(text) && value_of(entries_seen(entries@), key@) == Some(
                Some(text@),
            ),
            Some(fault) => result matches Err(error) && says(error, fault),
        },
{
    match find_entry(entries, key) {
        Some(i) => match &entries[i].text {
            Some(text) => Ok(text.as_str().to_owned()),
            None => {
                let mut message = "`".to_owned();
                message.append(key);
                message.append("` 该是一个字符串");
                Err(nowhere(message))
            },
        },
        None => {
            let mut message = "清单缺 `".to_owned();
            message.append(key);
            message.append("`");
            Err(nowhere(message))
        },
    }
}

/// The manifest that the entries of a document make.
pub fn manifest_from(entries: &[Entry]) -> (result: Result<Manifest, ProjectError>)
    ensures
        match manifest_of(entries_seen(entries@)) {
            Ok(manifest) => result matches Ok(made) && made@ == manifest,
            Err(fault) => result matches Err(error) && says(error, fault),
        },
{
    let name = match field(entries, "name") {
        Ok(name) => name,
        Err(error) => {
            return Err(error);
        },
    };
    let entry = match field(entries, "entry") {
        Ok(entry) => entry,
        Err(error) => {
            return Err(error);
        },
    };
    let version = match find_entry(entries, "version") {
        Some(i) => match &entries[i].text {
            Some(text) => text.as_str().to_owned(),
            None => "0.1.0".to_owned(),
        },
        None => "0.1.0".to_owned(),
    };
    Ok(Manifest { name, version, entry })
}

/// Number of bytes of a character.
pub open spec fn byte_len(c: char) -> int {
    if c <= '\u{7f}' {
        1
    } else if c <= '\u{7ff}' {
        2
    } else if c <= '\u{ffff}' {
        3
    } else {
        4
    }
}

/// Line and column of the character that a byte offset falls on, counted from 1 in characters; an
/// offset behind the end falls on the end. `at` is the place before the first of `text`.
pub open spec fn place_from(text: Seq<char>, offset: int, at: (int, int)) -> (int, int)
    decreases text.len(),
{
    if text.len() == 0 || offset <= 0 {
        at
    } else {
        let next = if text[0] == '\n' {
            (at.0 + 1, 1)
        } else {
            (at.0, at.1 + 1)
        };
        place_from(text.skip(1), offset - byte_len(text[0]), next)
    }
}

/// Line and column of a byte offset.
pub open spec fn place_of(text: Seq<char>, offset: int) -> (int, int) {
    place_from(text, offset, (1, 1))
}

/// Line and column of a byte offset, counted from 1; columns count characters, not bytes.
pub fn line_column(source: &str, offset: usize) -> (place: (usize, usize))
    requires
        source@.len() < usize::MAX,
    ensures
        place.0 == place_of(source@, offset as int).0,
        place.1 == place_of(source@, offset as int).1,
{
    let chars = chars_of(source);
    let mut line: usize = 1;
    let mut column: usize = 1;
    let mut left: usize = offset;
    let mut i: usize = 0;
    assert(chars@.skip(0) =~= chars@);
    while i < chars.len() && left > 0
        invariant
            i <= chars@.len() < usize::MAX,
            1 <= line <= i + 1,
            1 <= column <= i + 1,
            place_of(chars@, offset as int) == place_from(
                chars@.skip(i as int),
                left as int,
                (line as int, column as int),
            ),
        decreases chars@.len() - i,
    {
        let c = chars[i];
        proof {
            assert(chars@.skip(i as int)[0] == c);
            assert(chars@.skip(i as int).skip(1) =~= chars@.skip(i + 1));
        }
        let size: usize = if c <= '\u{7f}' {
            1
        } else if c <= '\u{7ff}' {
            2
        } else if c <= '\u{ffff}' {
            3
        } else {
            4
        };
        if c == '\n' {
            line += 1;
            column = 1;
        } else {
            column += 1;
        }
        proof {
            if left < size {
                let rest = chars@.skip(i + 1);
                let at = (line as int, column as int);
                assert(place_from(rest, left - size, at) == at);
                assert(place_from(rest, 0, at) == at);
            }
        }
        left = if left < size {
            0
        } else {
            left - size
        };
        i += 1;
    }
    (line, column)
}

/// The manifest of a text, or the place of what is wrong with it.
pub fn parse_manifest(source: &str) -> (result: Result<Manifest, ProjectError>)
    requires
        source@.len() < usize::MAX,
    ensures
        match toml_document(source@) {
            Ok(entries) => match manifest_of(entries) {
                Ok(manifest) => result matches Ok(made) && made@ == manifest,
                Err(fault) => result matches Err(error) && says(error, fault),
            },
            Err((offset, message)) => {
                let (at_line, at_column) = match offset {
                    Some(offset) => place_of(source@, offset as int),
                    None => (0, 0),
                };
                result matches Err(ProjectError::Manifest { line, column, message: said }) && line
                    == at_line && column == at_column && said@ == message
            },
        },
{
    match read_document(source) {
        Ok(entries) => manifest_from(entries.as_slice()),
        Err(error) => {
            let (line, column) = match error.offset {
                Some(offset) => line_column(source, offset),
                None => (0, 0),
            };
            Err(ProjectError::Manifest { line, column, message: error.message })
        },
    }
}

// ---------------------------------------------------------------------------------------------
// The documents.

/// Where the last dot of a name stands; -1 if there is none.
pub open spec fn last_dot(name: Seq<char>) -> int
    decreases name.len(),
{
    if name.len() == 0 {
        -1
    } else if name.last() == '.' {
        name.len() - 1
    } else {
        last_dot(name.drop_last())
    }
}

/// Whether a file of this name is a document: what follows its last dot is `lxml`, and something
/// stands before it.
pub open spec fn names_document(name: Seq<char>) -> bool {
    last_dot(name) > 0 && name.skip(last_dot(name) + 1) == "lxml"@
}

/// Whether a file of this name is a document.
pub fn is_document(name: &str) -> (yes: bool)
    ensures
        yes == names_document(name@),
{
    let chars = chars_of(name);
    let mut n: usize = chars.len();
    assert(chars@.take(n as int) =~= chars@);
    while n > 0 && chars[n - 1] != '.'
        invariant
            n <= chars@.len(),
            last_dot(chars@) == last_dot(chars@.take(n as int)),
        decreases n,
    {
        assert(chars@.take(n as int).drop_last() =~= chars@.take(n - 1));
        assert(chars@.take(n as int).last() == chars@[n - 1]);
        n -= 1;
    }
    proof {
        if n > 0 {
            assert(chars@.take(n as int).last() == chars@[n - 1]);
        }
    }
    if n < 2 {
        return false;
    }
    let ending = crate::text::string_of(chars.as_slice(), n, chars.len());
    assert(ending@ =~= chars@.skip(n as int));
    same_text(ending.as_str(), "lxml")
}

/// What documents are ordered by: the path with every separator written alike.
pub open spec fn order_key(path: Seq<char>) -> Seq<char> {
    path.map_values(
        |c: char|
            if c == '\\' {
                '/'
            } else {
                c
            },
    )
}

/// Whether a text comes before another: at the first difference the smaller character, and what ends
/// first before what goes on.
pub open spec fn text_before(a: Seq<char>, b: Seq<char>) -> bool
    decreases a.len(),
{
    if b.len() == 0 {
        false
    } else if a.len() == 0 {
        true
    } else if a[0] != b[0] {
        a[0] < b[0]
    } else {
        text_before(a.skip(1), b.skip(1))
    }
}

fn comes_before(a: &[char], b: &[char]) -> (yes: bool)
    ensures
        yes == text_before(a@, b@),
{
    let mut i: usize = 0;
    assert(a@.skip(0) =~= a@);
    assert(b@.skip(0) =~= b@);
    while i < a.len() && i < b.len() && a[i] == b[i]
        invariant
            i <= a@.len(),
            i <= b@.len(),
            text_before(a@, b@) == text_before(a@.skip(i as int), b@.skip(i as int)),
        decreases a@.len() - i,
    {
        proof {
            assert(a@.skip(i as int)[0] == a@[i as int]);
            assert(b@.skip(i as int)[0] == b@[i as int]);
            assert(a@.skip(i as int).skip(1) =~= a@.skip(i + 1));
            assert(b@.skip(i as int).skip(1) =~= b@.skip(i + 1));
        }
        i += 1;
    }
    if i >= b.len() {
        false
    } else if i >= a.len() {
        true
    } else {
        proof {
            assert(a@.skip(i as int)[0] == a@[i as int]);
            assert(b@.skip(i as int)[0] == b@[i as int]);
        }
        a[i] < b[i]
    }
}

fn key_of(path: &str) -> (key: Vec<char>)
    ensures
        key@ == order_key(path@),
{
    let chars = chars_of(path);
    let mut key: Vec<char> = Vec::new();
    let mut i: usize = 0;
    while i < chars.len()
        invariant
            i <= chars@.len(),
            key@ == order_key(chars@.take(i as int)),
        decreases chars@.len() - i,
    {
        let c = chars[i];
        key.push(
            if c == '\\' {
                '/'
            } else {
                c
            },
        );
        assert(key@ =~= order_key(chars@.take(i + 1)));
        i += 1;
    }
    assert(chars@.take(i as int) =~= chars@);
    key
}

/// What documents are ordered by.
pub fn sort_key(path: &str) -> (key: String)
    ensures
        key@ == order_key(path@),
{
    to_string(key_of(path).as_slice())
}

/// The paths as texts.
pub open spec fn texts(list: Seq<String>) -> Seq<Seq<char>> {
    list.map_values(|text: String| text@)
}

/// Where a path goes in an ordered list: behind all that do not come after it.
pub open spec fn slot_for(sorted: Seq<Seq<char>>, path: Seq<char>) -> int
    decreases sorted.len(),
{
    if sorted.len() == 0 {
        0
    } else if !text_before(order_key(path), order_key(sorted.last())) {
        sorted.len() as int
    } else {
        slot_for(sorted.drop_last(), path)
    }
}

/// The first `n` paths in order; of two with the same key, the earlier one first.
pub open spec fn in_order(list: Seq<Seq<char>>, n: int) -> Seq<Seq<char>>
    decreases n,
{
    if n <= 0 {
        Seq::empty()
    } else {
        let before = in_order(list, n - 1);
        before.insert(slot_for(before, list[n - 1]), list[n - 1])
    }
}

fn sort_documents(list: Vec<String>) -> (sorted: Vec<String>)
    ensures
        texts(sorted@) == in_order(texts(list@), list@.len() as int),
{
    let mut sorted: Vec<String> = Vec::new();
    let ghost all = texts(list@);
    let mut n: usize = 0;
    assert(texts(sorted@) =~= in_order(all, 0));
    while n < list.len()
        invariant
            n <= list@.len(),
            all == texts(list@),
            texts(sorted@) == in_order(all, n as int),
        decreases list@.len() - n,
    {
        let key = key_of(list[n].as_str());
        let ghost path = list@[n as int]@;
        let ghost now = texts(sorted@);
        let mut k: usize = sorted.len();
        assert(now.take(k as int) =~= now);
        while k > 0 && comes_before(key.as_slice(), key_of(sorted[k - 1].as_str()).as_slice())
            invariant
                k <= sorted@.len(),
                now == texts(sorted@),
                key@ == order_key(path),
                slot_for(now, path) == slot_for(now.take(k as int), path),
            decreases k,
        {
            proof {
                assert(now.take(k as int).drop_last() =~= now.take(k - 1));
                assert(now.take(k as int).last() == sorted@[k - 1]@);
            }
            k -= 1;
        }
        proof {
            if k > 0 {
                assert(now.take(k as int).last() == sorted@[k - 1]@);
            }
        }
        let copy = list[n].as_str().to_owned();
        sorted.insert(k, copy);
        proof {
            assert(all[n as int] == path);
            assert(texts(sorted@) =~= now.insert(k as int, path));
        }
        n += 1;
    }
    sorted
}

/// Whether two paths are the same, name by name.
pub open spec fn same_path(a: Seq<char>, b: Seq<char>) -> bool {
    &&& rooted(a) == rooted(b)
    &&& starts_here(a) == starts_here(b)
    &&& kept_names(parts(a, '/')) == kept_names(parts(b, '/'))
}

/// Whether a path starts with the name `.`.
pub open spec fn starts_here(path: Seq<char>) -> bool {
    path.len() > 0 && path[0] == '.' && (path.len() == 1 || path[1] == '/')
}

fn names_of(path: &str) -> (names: Vec<Vec<char>>)
    ensures
        are_parts(names@, kept_names(parts(path@, '/'))),
{
    let chars = chars_of(path);
    let pieces = split(chars.as_slice(), '/');
    let ghost all = parts(path@, '/');
    let mut names: Vec<Vec<char>> = Vec::new();
    let mut i: usize = 0;
    assert(all.take(0) =~= Seq::<Seq<char>>::empty());
    while i < pieces.len()
        invariant
            i <= pieces@.len(),
            are_parts(pieces@, all),
            are_parts(names@, kept_names(all.take(i as int))),
        decreases pieces@.len() - i,
    {
        let piece = &pieces[i];
        proof {
            assert(all.take(i + 1).drop_last() =~= all.take(i as int));
            assert(all.take(i + 1).last() == all[i as int]);
            assert(pieces@[i as int]@ == all[i as int]);
        }
        let dot = piece.len() == 1 && piece[0] == '.';
        assert(dot == (piece@ == seq!['.'])) by {
            if dot {
                assert(piece@ =~= seq!['.']);
            }
        }
        if piece.len() > 0 && !dot {
            let name = crate::text::sub_chars(piece.as_slice(), 0, piece.len());
            assert(name@ =~= piece@);
            names.push(name);
        }
        i += 1;
    }
    assert(all.take(i as int) =~= all);
    names
}

fn is_same_path(a: &str, b: &str) -> (same: bool)
    ensures
        same == same_path(a@, b@),
{
    let x = chars_of(a);
    let y = chars_of(b);
    let root_x = x.len() > 0 && x[0] == '/';
    let root_y = y.len() > 0 && y[0] == '/';
    let here_x = x.len() > 0 && x[0] == '.' && (x.len() == 1 || x[1] == '/');
    let here_y = y.len() > 0 && y[0] == '.' && (y.len() == 1 || y[1] == '/');
    if root_x != root_y || here_x != here_y {
        return false;
    }
    let p = names_of(a);
    let q = names_of(b);
    same_parts(&p, &q, Ghost(kept_names(parts(a@, '/'))), Ghost(kept_names(parts(b@, '/'))))
}

/// Whether two paths are the same on a platform.
pub open spec fn same_on(platform: Platform, a: Seq<char>, b: Seq<char>) -> bool {
    if platform == Platform::Windows {
        windows::same_path(a, b)
    } else {
        same_path(a, b)
    }
}

fn is_same_on(platform: Platform, a: &str, b: &str) -> (same: bool)
    ensures
        same == same_on(platform, a@, b@),
{
    if platform == Platform::Windows {
        windows::is_same_path(a, b)
    } else {
        is_same_path(a, b)
    }
}

/// Whether a path is among the documents.
pub open spec fn is_listed(platform: Platform, documents: Seq<Seq<char>>, path: Seq<char>) -> bool {
    exists|i: int| 0 <= i < documents.len() && same_on(platform, #[trigger] documents[i], path)
}

/// What opening a project comes to: the manifest first, then the documents, then whether the first
/// document is among them.
pub open spec fn opens(
    platform: Platform,
    root: Seq<char>,
    manifest: Option<Seq<char>>,
    found: Result<Vec<String>, ProjectError>,
    result: Result<Project, ProjectError>,
) -> bool {
    match manifest {
        None => result matches Err(ProjectError::ManifestMissing { path }) && path@ == joined_on(
            platform,
            root,
            "lxlake.toml"@,
        ),
        Some(source) => match toml_document(source) {
            Err((offset, message)) => {
                let (at_line, at_column) = match offset {
                    Some(offset) => place_of(source, offset as int),
                    None => (0, 0),
                };
                result matches Err(ProjectError::Manifest { line, column, message: said }) && line
                    == at_line && column == at_column && said@ == message
            },
            Ok(entries) => match manifest_of(entries) {
                Err(fault) => result matches Err(error) && says(error, fault),
                Ok(view) => match found {
                    Err(error) => result == Err::<Project, ProjectError>(error),
                    Ok(found) => {
                        let documents = in_order(texts(found@), found@.len() as int);
                        if is_listed(platform, documents, view.entry) {
                            result matches Ok(project) && project.place() == root
                                && project.declared() == view && project.listed() == documents
                        } else {
                            result matches Err(ProjectError::EntryMissing { entry, path }) && entry@
                                == view.entry && path@ == joined_on(platform, root, view.entry)
                        }
                    },
                },
            },
        },
    }
}

impl Project {
    /// The root.
    pub closed spec fn place(&self) -> Seq<char> {
        self.root@
    }

    /// What the manifest says.
    pub closed spec fn declared(&self) -> ManifestView {
        self.manifest@
    }

    /// The documents, in order.
    pub closed spec fn listed(&self) -> Seq<Seq<char>> {
        texts(self.documents@)
    }

    /// Opens a project. `manifest` is the text of the manifest, none if there is no such file;
    /// `found` are the documents below the document directory, or why they could not be listed.
    /// Paths are separated by `/`.
    pub fn open(root: &str, manifest: Option<&str>, found: Result<Vec<String>, ProjectError>) -> (result:
        Result<Project, ProjectError>)
        requires
            manifest matches Some(source) ==> source@.len() < usize::MAX,
        ensures
            opens(
                Platform::Other,
                root@,
                match manifest {
                    Some(source) => Some(source@),
                    None => None,
                },
                found,
                result,
            ),
    {
        Project::open_on(Platform::Other, root, manifest, found)
    }

    /// Opens a project, with paths as the platform writes them.
    pub fn open_on(
        platform: Platform,
        root: &str,
        manifest: Option<&str>,
        found: Result<Vec<String>, ProjectError>,
    ) -> (result: Result<Project, ProjectError>)
        requires
            manifest matches Some(source) ==> source@.len() < usize::MAX,
        ensures
            opens(
                platform,
                root@,
                match manifest {
                    Some(source) => Some(source@),
                    None => None,
                },
                found,
                result,
            ),
    {
        let source = match manifest {
            Some(source) => source,
            None => {
                return Err(ProjectError::ManifestMissing { path: join_on(platform, root, MANIFEST_FILE) });
            },
        };
        let manifest = match parse_manifest(source) {
            Ok(manifest) => manifest,
            Err(error) => {
                return Err(error);
            },
        };
        let found = match found {
            Ok(found) => found,
            Err(error) => {
                return Err(error);
            },
        };
        let documents = sort_documents(found);
        let ghost listed = texts(documents@);
        let mut i: usize = 0;
        let mut there = false;
        while i < documents.len() && !there
            invariant
                i <= documents@.len(),
                listed == texts(documents@),
                there ==> is_listed(platform, listed, manifest.entry@),
                !there ==> forall|k: int|
                    0 <= k < i ==> !same_on(platform, #[trigger] listed[k], manifest.entry@),
            decreases documents@.len() - i,
        {
            assert(listed[i as int] == documents@[i as int]@);
            if is_same_on(platform, documents[i].as_str(), manifest.entry.as_str()) {
                there = true;
            }
            i += 1;
        }
        if !there {
            let path = join_on(platform, root, manifest.entry.as_str());
            return Err(ProjectError::EntryMissing { entry: manifest.entry, path });
        }
        Ok(Project { root: root.to_owned(), manifest, documents })
    }

    /// The directory of the manifest.
    pub fn root(&self) -> (root: &str)
        ensures
            root@ == self.place(),
    {
        self.root.as_str()
    }

    /// What the manifest says.
    pub fn manifest(&self) -> (manifest: &Manifest)
        ensures
            manifest@ == self.declared(),
    {
        &self.manifest
    }

    /// The documents, from the root of the project and in order.
    pub fn documents(&self) -> (documents: &[String])
        ensures
            texts(documents@) == self.listed(),
    {
        self.documents.as_slice()
    }

    /// The document to open first.
    pub fn entry(&self) -> (entry: &str)
        ensures
            entry@ == self.declared().entry,
    {
        self.manifest.entry.as_str()
    }
}

// ---------------------------------------------------------------------------------------------
// The order of the documents.

proof fn before_is_total(a: Seq<char>, b: Seq<char>)
    ensures
        !(text_before(a, b) && text_before(b, a)),
        !text_before(a, b) && !text_before(b, a) ==> a == b,
    decreases a.len(),
{
    if a.len() > 0 && b.len() > 0 && a[0] == b[0] {
        before_is_total(a.skip(1), b.skip(1));
        if a.skip(1) == b.skip(1) {
            assert(a =~= seq![a[0]] + a.skip(1));
            assert(b =~= seq![b[0]] + b.skip(1));
        }
    } else if a.len() == 0 && b.len() == 0 {
        assert(a =~= b);
    }
}

proof fn before_is_transitive(a: Seq<char>, b: Seq<char>, c: Seq<char>)
    requires
        text_before(a, b),
        text_before(b, c),
    ensures
        text_before(a, c),
    decreases a.len(),
{
    if a.len() > 0 && b.len() > 0 && c.len() > 0 && a[0] == b[0] && b[0] == c[0] {
        before_is_transitive(a.skip(1), b.skip(1), c.skip(1));
    }
}

proof fn not_before_chains(a: Seq<char>, b: Seq<char>, c: Seq<char>)
    requires
        !text_before(b, a),
        !text_before(c, b),
    ensures
        !text_before(c, a),
{
    before_is_total(a, b);
    before_is_total(b, c);
    before_is_total(a, c);
    if text_before(c, a) {
        if text_before(a, b) {
            before_is_transitive(c, a, b);
        }
    }
}

/// Whether no path comes before an earlier one.
pub open spec fn ascending(list: Seq<Seq<char>>) -> bool {
    forall|i: int, j: int|
        0 <= i < j < list.len() ==> !text_before(
            order_key(#[trigger] list[j]),
            order_key(#[trigger] list[i]),
        )
}

proof fn slot_fits(sorted: Seq<Seq<char>>, path: Seq<char>)
    requires
        ascending(sorted),
    ensures
        0 <= slot_for(sorted, path) <= sorted.len(),
        forall|q: int|
            0 <= q < slot_for(sorted, path) ==> !text_before(
                order_key(path),
                order_key(#[trigger] sorted[q]),
            ),
        forall|q: int|
            slot_for(sorted, path) <= q < sorted.len() ==> text_before(
                order_key(path),
                order_key(#[trigger] sorted[q]),
            ),
    decreases sorted.len(),
{
    if sorted.len() > 0 {
        let last = sorted.last();
        if !text_before(order_key(path), order_key(last)) {
            assert forall|q: int| 0 <= q < sorted.len() implies !text_before(
                order_key(path),
                order_key(#[trigger] sorted[q]),
            ) by {
                if q < sorted.len() - 1 {
                    assert(!text_before(order_key(sorted[sorted.len() - 1]), order_key(sorted[q])));
                    not_before_chains(order_key(sorted[q]), order_key(last), order_key(path));
                }
            }
        } else {
            let less = sorted.drop_last();
            assert(ascending(less)) by {
                assert forall|i: int, j: int| 0 <= i < j < less.len() implies !text_before(
                    order_key(#[trigger] less[j]),
                    order_key(#[trigger] less[i]),
                ) by {
                    assert(less[j] == sorted[j] && less[i] == sorted[i]);
                }
            }
            slot_fits(less, path);
            assert forall|q: int| 0 <= q < slot_for(sorted, path) implies !text_before(
                order_key(path),
                order_key(#[trigger] sorted[q]),
            ) by {
                assert(less[q] == sorted[q]);
            }
            assert forall|q: int| slot_for(sorted, path) <= q < sorted.len() implies text_before(
                order_key(path),
                order_key(#[trigger] sorted[q]),
            ) by {
                if q < less.len() {
                    assert(less[q] == sorted[q]);
                }
            }
        }
    }
}

/// The documents of a project are listed by path, each as often as it was found: the order in which a
/// directory is read does not show.
pub proof fn documents_are_listed_in_order(list: Seq<Seq<char>>, n: int)
    requires
        0 <= n <= list.len(),
    ensures
        ascending(in_order(list, n)),
        in_order(list, n).len() == n,
        in_order(list, n).to_multiset() == list.take(n).to_multiset(),
    decreases n,
{
    broadcast use vstd::seq_lib::group_to_multiset_ensures;

    if n <= 0 {
        assert(list.take(0) =~= Seq::<Seq<char>>::empty());
        assert(in_order(list, n) =~= list.take(0));
    } else {
        documents_are_listed_in_order(list, n - 1);
        let before = in_order(list, n - 1);
        let path = list[n - 1];
        slot_fits(before, path);
        let k = slot_for(before, path);
        let after = before.insert(k, path);
        assert forall|i: int, j: int| 0 <= i < j < after.len() implies !text_before(
            order_key(#[trigger] after[j]),
            order_key(#[trigger] after[i]),
        ) by {
            if i < k && j < k {
                assert(after[i] == before[i] && after[j] == before[j]);
            } else if i < k && j == k {
                assert(after[i] == before[i]);
            } else if i < k {
                assert(after[i] == before[i] && after[j] == before[j - 1]);
            } else if i == k {
                assert(after[j] == before[j - 1]);
                before_is_total(order_key(path), order_key(before[j - 1]));
            } else {
                assert(after[i] == before[i - 1] && after[j] == before[j - 1]);
            }
        }
        assert(list.take(n) =~= list.take(n - 1).push(path));
        assert(after.to_multiset() =~= list.take(n).to_multiset());
    }
}

/// An open project has its entry among its documents, and so it has at least one.
pub proof fn an_open_project_lists_its_entry(
    platform: Platform,
    root: Seq<char>,
    manifest: Option<Seq<char>>,
    found: Result<Vec<String>, ProjectError>,
    project: Project,
)
    requires
        opens(platform, root, manifest, found, Ok(project)),
    ensures
        is_listed(platform, project.listed(), project.declared().entry),
        project.listed().len() > 0,
{
}

/// A manifest needs a name and an entry, both texts, and nothing else; a version that is not a text, or not
/// there, is the first one. What is missing is said, the name first.
pub proof fn a_manifest_needs_a_name_and_an_entry(entries: Seq<(Seq<char>, Option<Seq<char>>)>)
    ensures
        manifest_of(entries) is Ok <==> (value_of(entries, "name"@) matches Some(Some(_))) && (value_of(
            entries,
            "entry"@,
        ) matches Some(Some(_))),
        manifest_of(entries) matches Ok(manifest) ==> {
            &&& value_of(entries, "name"@) == Some(Some(manifest.name))
            &&& value_of(entries, "entry"@) == Some(Some(manifest.entry))
            &&& match value_of(entries, "version"@) {
                Some(Some(version)) => manifest.version == version,
                _ => manifest.version == "0.1.0"@,
            }
        },
        value_of(entries, "name"@) is None ==> manifest_of(entries) == Err::<ManifestView, Seq<char>>(
            "清单缺 `"@ + "name"@ + "`"@,
        ),
        value_of(entries, "name"@) == Some(None::<Seq<char>>) ==> manifest_of(entries) == Err::<
            ManifestView,
            Seq<char>,
        >("`"@ + "name"@ + "` 该是一个字符串"@),
{
}

/// What stands under a key is the value of the first entry of that key.
pub proof fn the_first_entry_of_a_key_counts(entries: Seq<(Seq<char>, Option<Seq<char>>)>, key: Seq<char>)
    ensures
        match value_of(entries, key) {
            Some(value) => exists|i: int|
                0 <= i < entries.len() && #[trigger] entries[i] == (key, value) && forall|j: int|
                    0 <= j < i ==> (#[trigger] entries[j]).0 != key,
            None => forall|i: int| 0 <= i < entries.len() ==> (#[trigger] entries[i]).0 != key,
        },
    decreases entries.len(),
{
    if entries.len() > 0 {
        if entries[0].0 == key {
            assert(entries[0] == (key, value_of(entries, key)->0));
        } else {
            let rest = entries.drop_first();
            the_first_entry_of_a_key_counts(rest, key);
            if value_of(rest, key) is Some {
                let value = value_of(rest, key)->0;
                let i = choose|i: int|
                    0 <= i < rest.len() && #[trigger] rest[i] == (key, value) && forall|j: int|
                        0 <= j < i ==> (#[trigger] rest[j]).0 != key;
                assert(entries[i + 1] == (key, value));
                assert forall|j: int| 0 <= j < i + 1 implies (#[trigger] entries[j]).0 != key by {
                    if j > 0 {
                        assert(rest[j - 1] == entries[j]);
                    }
                }
            } else {
                assert forall|i: int| 0 <= i < entries.len() implies (#[trigger] entries[i]).0 != key by {
                    if i > 0 {
                        assert(rest[i - 1] == entries[i]);
                    }
                }
            }
        }
    }
}

proof fn last_dot_is_last(name: Seq<char>)
    ensures
        -1 <= last_dot(name) < name.len(),
        last_dot(name) >= 0 ==> name[last_dot(name)] == '.',
        forall|i: int| last_dot(name) < i < name.len() ==> #[trigger] name[i] != '.',
    decreases name.len(),
{
    if name.len() > 0 && name.last() != '.' {
        let rest = name.drop_last();
        last_dot_is_last(rest);
        assert forall|i: int| last_dot(name) < i < name.len() implies #[trigger] name[i] != '.' by {
            if i < rest.len() {
                assert(rest[i] == name[i]);
            }
        }
    }
}

/// A document is a file whose name ends in `.lxml` and has something before that.
pub proof fn documents_end_in_lxml(name: Seq<char>)
    ensures
        names_document(name) <==> name.len() > 5 && name.skip(name.len() - 5) == ".lxml"@,
{
    reveal_strlit(".lxml");
    reveal_strlit("lxml");
    last_dot_is_last(name);
    let dot = last_dot(name);
    if names_document(name) {
        assert(name.skip(dot + 1).len() == 4);
        let end = name.skip(name.len() - 5);
        assert(end[0] == '.');
        assert forall|k: int| 1 <= k < 5 implies end[k] == ".lxml"@[k] by {
            assert(end[k] == name.skip(dot + 1)[k - 1]);
        }
        assert(end =~= ".lxml"@);
    }
    if name.len() > 5 && name.skip(name.len() - 5) == ".lxml"@ {
        let end = name.skip(name.len() - 5);
        let n = name.len() - 5;
        assert(name[n] == end[0] && name[n + 1] == end[1] && name[n + 2] == end[2] && name[n + 3] == end[3]
            && name[n + 4] == end[4]);
        assert(dot == n);
        assert(name.skip(dot + 1) =~= "lxml"@);
    }
}

/// Whether two texts agree in their first `k` characters, and then the first of them ends or has the smaller
/// character.
pub open spec fn differs_at(a: Seq<char>, b: Seq<char>, k: int) -> bool {
    &&& 0 <= k <= a.len()
    &&& k < b.len()
    &&& a.take(k) == b.take(k)
    &&& k < a.len() ==> a[k] < b[k]
}

/// A text comes before another if at the first place where they differ it has the smaller character or has
/// ended.
pub proof fn texts_are_ordered_by_their_first_difference(a: Seq<char>, b: Seq<char>)
    ensures
        text_before(a, b) <==> exists|k: int| differs_at(a, b, k),
    decreases a.len(),
{
    if b.len() == 0 {
    } else if a.len() == 0 {
        assert(a.take(0) =~= b.take(0));
        assert(differs_at(a, b, 0));
    } else if a[0] != b[0] {
        if a[0] < b[0] {
            assert(a.take(0) =~= b.take(0));
            assert(differs_at(a, b, 0));
        }
        if exists|k: int| differs_at(a, b, k) {
            let k = choose|k: int| differs_at(a, b, k);
            if k > 0 {
                assert(a.take(k)[0] == a[0] && b.take(k)[0] == b[0]);
            }
        }
    } else {
        let (c, d) = (a.skip(1), b.skip(1));
        texts_are_ordered_by_their_first_difference(c, d);
        if text_before(c, d) {
            let k = choose|k: int| differs_at(c, d, k);
            let (x, y) = (a.take(k + 1), b.take(k + 1));
            assert forall|i: int| 0 <= i < k + 1 implies #[trigger] x[i] == y[i] by {
                if i > 0 {
                    assert(c.take(k)[i - 1] == d.take(k)[i - 1]);
                }
            }
            assert(a.take(k + 1) =~= b.take(k + 1));
            assert(differs_at(a, b, k + 1));
        }
        if exists|k: int| differs_at(a, b, k) {
            let k = choose|k: int| differs_at(a, b, k);
            assert(k > 0);
            let (x, y) = (c.take(k - 1), d.take(k - 1));
            assert forall|i: int| 0 <= i < k - 1 implies #[trigger] x[i] == y[i] by {
                assert(a.take(k)[i + 1] == b.take(k)[i + 1]);
            }
            assert(c.take(k - 1) =~= d.take(k - 1));
            assert(differs_at(c, d, k - 1));
        }
    }
}

/// The order of texts is total and strict: of two different texts exactly one comes before the other, and
/// none before itself.
pub proof fn the_order_of_texts_is_total(a: Seq<char>, b: Seq<char>)
    ensures
        !text_before(a, a),
        text_before(a, b) ==> !text_before(b, a),
        a != b ==> text_before(a, b) || text_before(b, a),
    decreases a.len(),
{
    if a.len() > 0 {
        the_order_of_texts_is_total(a.skip(1), b.skip(1));
        if b.len() > 0 && a[0] == b[0] && a != b {
            if a.skip(1) == b.skip(1) {
                assert(a =~= seq![a[0]] + a.skip(1));
                assert(b =~= seq![b[0]] + b.skip(1));
            }
        }
    } else if b.len() == 0 {
        assert(a =~= b);
    }
}

proof fn bytes_of_a_character(c: char)
    ensures
        encode_scalar(c as u32).len() == byte_len(c),
{
}

proof fn place_after(full: Seq<char>, p: int, k: int)
    requires
        0 <= p,
        0 <= k,
        p + k <= full.len(),
    ensures
        place_from(
            full.skip(p),
            encode_utf8(full.subrange(p, p + k)).len() as int,
            (line_at(full, p), column_at(full, p)),
        ) == (line_at(full, p + k), column_at(full, p + k)),
    decreases k,
{
    let text = full.skip(p);
    let part = full.subrange(p, p + k);
    if k > 0 {
        assert(text[0] == full[p] && part[0] == full[p]);
        assert(part.drop_first() =~= full.subrange(p + 1, p + 1 + (k - 1)));
        assert(text.skip(1) =~= full.skip(p + 1));
        bytes_of_a_character(full[p]);
        place_after(full, p + 1, k - 1);
    }
}

/// A byte offset is placed by the characters before it, however many bytes each of them takes: the place of
/// the bytes of a prefix is the line and column where the prefix ends.
pub proof fn an_offset_is_placed_by_the_characters_before_it(text: Seq<char>, k: int)
    requires
        0 <= k <= text.len(),
    ensures
        place_of(text, encode_utf8(text.take(k)).len() as int) == (line_at(text, k), column_at(text, k)),
{
    place_after(text, 0, k);
    assert(text.skip(0) =~= text);
    assert(text.subrange(0, k) =~= text.take(k));
}

/// Opening a project fails at the first step that fails: without a manifest, with one that is no document,
/// with one that lacks something, where the documents could not be listed, or without its first document.
pub proof fn opening_fails_at_the_first_fault(
    platform: Platform,
    root: Seq<char>,
    manifest: Option<Seq<char>>,
    found: Result<Vec<String>, ProjectError>,
    result: Result<Project, ProjectError>,
)
    requires
        opens(platform, root, manifest, found, result),
    ensures
        manifest is None ==> (result matches Err(ProjectError::ManifestMissing { .. })),
        manifest matches Some(source) ==> (toml_document(source) is Err ==> (result matches Err(
            ProjectError::Manifest { .. },
        ))),
        manifest matches Some(source) ==> (toml_document(source) matches Ok(entries) ==> (manifest_of(entries)
            is Err ==> (result matches Err(ProjectError::Manifest { .. })))),
        result is Ok ==> {
            &&& manifest is Some
            &&& toml_document(manifest->0) is Ok
            &&& manifest_of(toml_document(manifest->0)->Ok_0) is Ok
            &&& found is Ok
            &&& result->Ok_0.listed().len() == found->Ok_0@.len()
            &&& result->Ok_0.listed().to_multiset() == texts(found->Ok_0@).to_multiset()
            &&& ascending(result->Ok_0.listed())
            &&& result->Ok_0.place() == root
        },
{
    if let Ok(list) = found {
        let all = texts(list@);
        documents_are_listed_in_order(all, all.len() as int);
        assert(all.take(all.len() as int) =~= all);
    }
}

/// Documents are ordered alike however their paths are separated, and nothing but the separator is taken alike.
pub proof fn separators_are_ordered_alike(path: Seq<char>, i: int)
    ensures
        order_key(path).len() == path.len(),
        0 <= i < path.len() ==> order_key(path)[i] == (if path[i] == '/' || path[i] == '\\' {
            '/'
        } else {
            path[i]
        }),
{
}

} // verus!
