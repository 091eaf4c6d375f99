//! The `.lxml` text form of an interface: the parser and what it produces.
//!
//! The parser yields a tree that knows nothing of geometry or colour. `rect` and `color` are only
//! checked for their form; the raw text is kept. A faulty document still yields a tree, as
//! complete as possible, and diagnostics that say what is wrong and where.
//!
//! - `<!-- ... -->` comments are skipped: they are no nodes and cause no diagnostics.
//! - Text between tags becomes a node with the tag `#text` and the text in its `text` attribute.
//! - Lines and columns of diagnostics count from 1, in characters.
//! - `rect` takes 4 numbers, `color` 3 or 4; anything else is a warning, not an error.

use crate::text::{
    chars_of, decimal, is_white_space, push_decimal, same_text, skip_white, string_of, trim_range,
    trimmed, white_space,
};
use crate::ui::number::{count_numbers, number_list};
use vstd::prelude::*;
use vstd::slice::slice_subrange;
use vstd::string::StringExecFns;

verus! {

/// A node of the parsed tree.
#[derive(Debug, PartialEq, Eq)]
pub struct StaticNode {
    /// Tag name, or `#text`.
    pub tag: String,
    /// The value of the last `key` attribute, which also stays among the attributes.
    pub key: Option<String>,
    /// Attributes as written: name and raw value.
    pub attrs: Vec<(String, String)>,
    /// Child elements and text nodes.
    pub children: Vec<StaticNode>,
}

/// A node of the parsed tree, as a mathematical value.
pub ghost struct NodeView {
    pub tag: Seq<char>,
    pub key: Option<Seq<char>>,
    pub attrs: Seq<(Seq<char>, Seq<char>)>,
    pub children: Seq<NodeView>,
}

/// The characters of an optional text.
pub open spec fn text_of(s: Option<String>) -> Option<Seq<char>> {
    match s {
        Some(s) => Some(s@),
        None => None,
    }
}

/// The characters of a list of pairs of texts.
pub open spec fn pairs_of(s: Seq<(String, String)>) -> Seq<(Seq<char>, Seq<char>)> {
    s.map_values(|p: (String, String)| (p.0@, p.1@))
}

impl StaticNode {
    /// The node with all that is below it.
    pub open spec fn deep(self) -> NodeView
        decreases self,
    {
        NodeView {
            tag: self.tag@,
            key: text_of(self.key),
            attrs: pairs_of(self.attrs@),
            children: Seq::new(
                self.children@.len(),
                |i: int|
                    if 0 <= i < self.children@.len() {
                        self.children@[i].deep()
                    } else {
                        arbitrary()
                    },
            ),
        }
    }
}

impl StaticNode {
    /// The raw value of an attribute: that of the first with the name.
    pub open spec fn spec_attr(attrs: Seq<(Seq<char>, Seq<char>)>, key: Seq<char>) -> Option<Seq<char>>
        decreases attrs.len(),
    {
        if attrs.len() == 0 {
            None
        } else if attrs[0].0 == key {
            Some(attrs[0].1)
        } else {
            Self::spec_attr(attrs.skip(1), key)
        }
    }

    /// A node without tag, attributes or children.
    pub open spec fn blank() -> NodeView {
        NodeView { tag: Seq::empty(), key: None, attrs: Seq::empty(), children: Seq::empty() }
    }

    /// The raw value of an attribute, if the node has it.
    pub fn attr(&self, key: &str) -> (value: Option<&str>)
        ensures
            (match value {
                Some(value) => Some(value@),
                None => None,
            }) == Self::spec_attr(pairs_of(self.attrs@), key@),
    {
        let mut i: usize = 0;
        assert(pairs_of(self.attrs@).skip(0) =~= pairs_of(self.attrs@));
        while i < self.attrs.len()
            invariant
                i <= self.attrs@.len(),
                Self::spec_attr(pairs_of(self.attrs@), key@) == Self::spec_attr(
                    pairs_of(self.attrs@).skip(i as int),
                    key@,
                ),
            decreases self.attrs@.len() - i,
        {
            let ghost rest = pairs_of(self.attrs@).skip(i as int);
            assert(rest[0] == (self.attrs@[i as int].0@, self.attrs@[i as int].1@));
            assert(rest.skip(1) =~= pairs_of(self.attrs@).skip(i + 1));
            if same_text(self.attrs[i].0.as_str(), key) {
                return Some(self.attrs[i].1.as_str());
            }
            i += 1;
        }
        None
    }
}

impl Default for StaticNode {
    fn default() -> (node: Self)
        ensures
            node.deep() == StaticNode::blank(),
    {
        let node = StaticNode {
            tag: String::new(),
            key: None,
            attrs: Vec::new(),
            children: Vec::new(),
        };
        assert(node.deep().attrs =~= Seq::empty());
        assert(node.deep().children =~= Seq::empty());
        assert(node.tag@ =~= Seq::empty());
        node
    }
}

/// How serious a diagnostic is.
#[derive(Debug, Clone, Copy, PartialEq, Eq, Structural)]
pub enum DiagnosticSeverity {
    /// The structure is broken.
    Error,
    /// The structure is sound, a value is not.
    Warning,
    /// A suggestion.
    Hint,
}

impl DiagnosticSeverity {
    /// The number that the language server protocol gives the severity; 3 is not used.
    pub fn lsp_code(self) -> (code: u8)
        ensures
            code == match self {
                DiagnosticSeverity::Error => 1,
                DiagnosticSeverity::Warning => 2,
                DiagnosticSeverity::Hint => 4int,
            },
    {
        match self {
            DiagnosticSeverity::Error => 1,
            DiagnosticSeverity::Warning => 2,
            DiagnosticSeverity::Hint => 4,
        }
    }
}

/// A diagnostic. Line and column count from 1; line 0 means that there is no place to point at.
#[derive(Debug, PartialEq, Eq)]
pub struct LxmlDiagnostic {
    pub line: usize,
    pub column: usize,
    /// Number of characters that the diagnostic is about.
    pub length: usize,
    pub severity: DiagnosticSeverity,
    /// Text for the user.
    pub message: String,
}

/// A diagnostic as a mathematical value.
pub ghost struct DiagnosticView {
    pub line: int,
    pub column: int,
    pub length: int,
    pub severity: DiagnosticSeverity,
    pub message: Seq<char>,
}

impl View for LxmlDiagnostic {
    type V = DiagnosticView;

    open spec fn view(&self) -> DiagnosticView {
        DiagnosticView {
            line: self.line as int,
            column: self.column as int,
            length: self.length as int,
            severity: self.severity,
            message: self.message@,
        }
    }
}

impl LxmlDiagnostic {
    /// A diagnostic without a place.
    pub fn without_position(severity: DiagnosticSeverity, message: String) -> (diagnostic: Self)
        ensures
            diagnostic@ == (DiagnosticView {
                line: 0,
                column: 0,
                length: 0,
                severity,
                message: message@,
            }),
    {
        LxmlDiagnostic { line: 0, column: 0, length: 0, severity, message }
    }
}

/// The diagnostics of a list.
pub open spec fn diagnostics_of(list: Seq<LxmlDiagnostic>) -> Seq<DiagnosticView> {
    list.map_values(|d: LxmlDiagnostic| d@)
}

// ---------------------------------------------------------------------------------------------
// Places in the text.

/// Line of place `i`, counted from 1.
pub open spec fn line_at(s: Seq<char>, i: int) -> int
    decreases i,
{
    if i <= 0 {
        1
    } else if s[i - 1] == '\n' {
        line_at(s, i - 1) + 1
    } else {
        line_at(s, i - 1)
    }
}

/// Column of place `i`, counted from 1 in characters.
pub open spec fn column_at(s: Seq<char>, i: int) -> int
    decreases i,
{
    if i <= 0 || s[i - 1] == '\n' {
        1
    } else {
        column_at(s, i - 1) + 1
    }
}

/// Lines and columns count from 1.
pub proof fn places_count_from_one(s: Seq<char>, i: int)
    requires
        0 <= i <= s.len(),
    ensures
        1 <= line_at(s, i) <= i + 1,
        1 <= column_at(s, i) <= i + 1,
    decreases i,
{
    if i > 0 {
        places_count_from_one(s, i - 1);
    }
}

/// Whether a name ends before this character.
pub open spec fn ends_name(c: char) -> bool {
    white_space(c) || c == '>' || c == '/' || c == '='
}

/// Where the name that begins at `i` ends.
pub open spec fn name_end(s: Seq<char>, i: int) -> int
    decreases s.len() - i,
{
    if 0 <= i < s.len() && !ends_name(s[i]) {
        name_end(s, i + 1)
    } else {
        i
    }
}

/// The place after the first `c` from `i` on, or the end.
pub open spec fn after_char(s: Seq<char>, i: int, c: char) -> int
    decreases s.len() - i,
{
    if 0 <= i < s.len() {
        if s[i] == c {
            i + 1
        } else {
            after_char(s, i + 1, c)
        }
    } else {
        i
    }
}

/// The first `c` from `i` on, or the end.
pub open spec fn next_char(s: Seq<char>, i: int, c: char) -> int
    decreases s.len() - i,
{
    if 0 <= i < s.len() && s[i] != c {
        next_char(s, i + 1, c)
    } else {
        i
    }
}

/// Whether a comment begins at `i`.
pub open spec fn comment_at(s: Seq<char>, i: int) -> bool {
    0 <= i && i + 2 < s.len() && s[i] == '<' && s[i + 1] == '!' && s[i + 2] == '-'
}

/// The place after the comment that begins at `i`: after the first `-->` from `k` on whose
/// dashes lie behind the `<`, or the end.
pub open spec fn comment_end(s: Seq<char>, i: int, k: int) -> int
    decreases s.len() - k,
{
    if 0 <= k < s.len() {
        if k - 2 > i && s[k - 2] == '-' && s[k - 1] == '-' && s[k] == '>' {
            k + 1
        } else {
            comment_end(s, i, k + 1)
        }
    } else {
        k
    }
}

/// Where the quoted value that begins at `i` ends: at the quote, or where the tag or the line ends
/// before it.
pub open spec fn quoted_end(s: Seq<char>, i: int, quote: char) -> int
    decreases s.len() - i,
{
    if 0 <= i < s.len() && s[i] != quote && s[i] != '>' && s[i] != '\n' {
        quoted_end(s, i + 1, quote)
    } else {
        i
    }
}

/// Where the value without quotes that begins at `i` ends.
pub open spec fn bare_end(s: Seq<char>, i: int) -> int
    decreases s.len() - i,
{
    if 0 <= i < s.len() && !white_space(s[i]) && s[i] != '>' && s[i] != '/' {
        bare_end(s, i + 1)
    } else {
        i
    }
}

proof fn skip_white_range(s: Seq<char>, i: int)
    requires
        0 <= i <= s.len(),
    ensures
        i <= skip_white(s, i) <= s.len(),
    decreases s.len() - i,
{
    if i < s.len() && white_space(s[i]) {
        skip_white_range(s, i + 1);
    }
}

proof fn name_end_range(s: Seq<char>, i: int)
    requires
        0 <= i <= s.len(),
    ensures
        i <= name_end(s, i) <= s.len(),
    decreases s.len() - i,
{
    if i < s.len() && !ends_name(s[i]) {
        name_end_range(s, i + 1);
    }
}

proof fn after_char_range(s: Seq<char>, i: int, c: char)
    requires
        0 <= i <= s.len(),
    ensures
        i <= after_char(s, i, c) <= s.len(),
    decreases s.len() - i,
{
    if i < s.len() && s[i] != c {
        after_char_range(s, i + 1, c);
    }
}

/// A search for a character ends inside the text.
pub proof fn next_char_range(s: Seq<char>, i: int, c: char)
    requires
        0 <= i <= s.len(),
    ensures
        i <= next_char(s, i, c) <= s.len(),
    decreases s.len() - i,
{
    if i < s.len() && s[i] != c {
        next_char_range(s, i + 1, c);
    }
}

/// A comment ends inside the text.
pub proof fn comment_end_range(s: Seq<char>, i: int, k: int)
    requires
        0 <= k <= s.len(),
    ensures
        k <= comment_end(s, i, k) <= s.len(),
    decreases s.len() - k,
{
    if k < s.len() && !(k - 2 > i && s[k - 2] == '-' && s[k - 1] == '-' && s[k] == '>') {
        comment_end_range(s, i, k + 1);
    }
}

proof fn quoted_end_range(s: Seq<char>, i: int, quote: char)
    requires
        0 <= i <= s.len(),
    ensures
        i <= quoted_end(s, i, quote) <= s.len(),
    decreases s.len() - i,
{
    if i < s.len() && s[i] != quote && s[i] != '>' && s[i] != '\n' {
        quoted_end_range(s, i + 1, quote);
    }
}

proof fn bare_end_range(s: Seq<char>, i: int)
    requires
        0 <= i <= s.len(),
    ensures
        i <= bare_end(s, i) <= s.len(),
    decreases s.len() - i,
{
    if i < s.len() && !white_space(s[i]) && s[i] != '>' && s[i] != '/' {
        bare_end_range(s, i + 1);
    }
}

// ---------------------------------------------------------------------------------------------
// Attributes.

/// An attribute with the place that its value is reported at.
pub ghost struct AttrView {
    pub key: Seq<char>,
    pub value: Seq<char>,
    pub line: int,
    pub column: int,
}

/// What is read of one attribute: itself, where it ends, and what is wrong with it.
pub ghost struct OneAttr {
    pub attr: AttrView,
    pub end: int,
    pub diagnostics: Seq<DiagnosticView>,
}

/// The quote of an attribute's value is not closed in its tag and line.
pub open spec fn open_quote(s: Seq<char>, i: int, key: Seq<char>) -> DiagnosticView {
    DiagnosticView {
        line: line_at(s, i),
        column: column_at(s, i),
        length: 1,
        severity: DiagnosticSeverity::Error,
        message: "属性 `"@ + key + "` 的引号未闭合"@,
    }
}

/// The attribute whose name begins at `i`: a name, and optionally `=` and a value, in quotes or
/// bare.
pub open spec fn one_attr(s: Seq<char>, i: int) -> OneAttr {
    let key_end = name_end(s, i);
    let key = s.subrange(i, key_end);
    let eq = skip_white(s, key_end);
    if eq < s.len() && s[eq] == '=' {
        let at = skip_white(s, eq + 1);
        if at < s.len() && (s[at] == '"' || s[at] == '\'') {
            let end = quoted_end(s, at + 1, s[at]);
            let closed = end < s.len() && s[end] == s[at];
            OneAttr {
                attr: AttrView {
                    key,
                    value: s.subrange(at + 1, end),
                    line: line_at(s, at),
                    column: column_at(s, at) + 1,
                },
                end: if closed {
                    end + 1
                } else {
                    end
                },
                diagnostics: if end < s.len() && !closed {
                    seq![open_quote(s, at, key)]
                } else {
                    Seq::empty()
                },
            }
        } else {
            let end = bare_end(s, at);
            OneAttr {
                attr: AttrView {
                    key,
                    value: s.subrange(at, end),
                    line: line_at(s, at),
                    column: column_at(s, at),
                },
                end,
                diagnostics: Seq::empty(),
            }
        }
    } else {
        OneAttr {
            attr: AttrView {
                key,
                value: Seq::empty(),
                line: line_at(s, eq),
                column: column_at(s, eq),
            },
            end: eq,
            diagnostics: Seq::empty(),
        }
    }
}

/// Reading an attribute makes progress.
pub proof fn one_attr_advances(s: Seq<char>, i: int)
    requires
        0 <= i < s.len(),
        !white_space(s[i]),
        s[i] != '>',
        s[i] != '/',
    ensures
        i < one_attr(s, i).end <= s.len(),
{
    name_end_range(s, i);
    let key_end = name_end(s, i);
    skip_white_range(s, key_end);
    let eq = skip_white(s, key_end);
    if s[i] != '=' {
        name_end_range(s, i + 1);
    }
    if eq < s.len() && s[eq] == '=' {
        skip_white_range(s, eq + 1);
        let at = skip_white(s, eq + 1);
        if at < s.len() && (s[at] == '"' || s[at] == '\'') {
            quoted_end_range(s, at + 1, s[at]);
        } else {
            bare_end_range(s, at);
        }
    }
}

/// White space is skipped up to something that is not white space.
pub proof fn skip_white_settles(s: Seq<char>, i: int)
    requires
        0 <= i <= s.len(),
    ensures
        i <= skip_white(s, i) <= s.len(),
        skip_white(s, i) < s.len() ==> !white_space(s[skip_white(s, i)]),
    decreases s.len() - i,
{
    if i < s.len() && white_space(s[i]) {
        skip_white_settles(s, i + 1);
    }
}

/// What is read of a tag's attributes.
pub ghost struct Attrs {
    pub list: Seq<AttrView>,
    pub end: int,
    pub diagnostics: Seq<DiagnosticView>,
}

/// The attributes from `i` on, up to `>`, `/` or the end. One without a name is left out.
pub open spec fn attributes(s: Seq<char>, i: int) -> Attrs
    decreases s.len() - i,
    when 0 <= i <= s.len()
{
    proof {
        skip_white_settles(s, i);
    }
    let at = skip_white(s, i);
    if at >= s.len() || s[at] == '>' || s[at] == '/' {
        Attrs { list: Seq::empty(), end: at, diagnostics: Seq::empty() }
    } else {
        proof {
            one_attr_advances(s, at);
        }
        let one = one_attr(s, at);
        let rest = attributes(s, one.end);
        Attrs {
            list: if one.attr.key.len() > 0 {
                seq![one.attr] + rest.list
            } else {
                rest.list
            },
            end: rest.end,
            diagnostics: one.diagnostics + rest.diagnostics,
        }
    }
}

/// Where the attributes end, the tag does too: at `>`, `/` or the end of the text.
pub proof fn attributes_end(s: Seq<char>, i: int)
    requires
        0 <= i <= s.len(),
    ensures
        i <= attributes(s, i).end <= s.len(),
    decreases s.len() - i,
{
    skip_white_settles(s, i);
    let at = skip_white(s, i);
    if at >= s.len() || s[at] == '>' || s[at] == '/' {
    } else {
        one_attr_advances(s, at);
        attributes_end(s, one_attr(s, at).end);
    }
}

// ---------------------------------------------------------------------------------------------
// Elements.

/// The opening tag of an element.
pub ghost struct Header {
    pub name: Seq<char>,
    pub attrs: Seq<AttrView>,
    /// Whether the tag closes itself.
    pub closed: bool,
    pub end: int,
    pub diagnostics: Seq<DiagnosticView>,
}

/// The tag has no `>`.
pub open spec fn missing_bracket(s: Seq<char>, i: int, name: Seq<char>) -> DiagnosticView {
    DiagnosticView {
        line: line_at(s, i),
        column: column_at(s, i),
        length: 1,
        severity: DiagnosticSeverity::Error,
        message: "标签 `<"@ + name + "` 缺少结束的 `>`"@,
    }
}

/// The opening tag at `i`, where a `<` stands.
pub open spec fn header(s: Seq<char>, i: int) -> Header {
    let name_to = name_end(s, i + 1);
    let name = s.subrange(i + 1, name_to);
    let attrs = attributes(s, name_to);
    let closed = attrs.end < s.len() && s[attrs.end] == '/';
    let at = if closed {
        attrs.end + 1
    } else {
        attrs.end
    };
    let bracket = at < s.len() && s[at] == '>';
    Header {
        name,
        attrs: attrs.list,
        closed,
        end: if bracket {
            at + 1
        } else {
            after_char(s, at, '>')
        },
        diagnostics: if bracket {
            attrs.diagnostics
        } else {
            attrs.diagnostics.push(missing_bracket(s, at, name))
        },
    }
}

/// An opening tag takes at least its `<`.
pub proof fn header_advances(s: Seq<char>, i: int)
    requires
        0 <= i < s.len(),
    ensures
        i < header(s, i).end <= s.len(),
{
    name_end_range(s, i + 1);
    let name_to = name_end(s, i + 1);
    attributes_end(s, name_to);
    let attrs = attributes(s, name_to);
    let closed = attrs.end < s.len() && s[attrs.end] == '/';
    let at = if closed {
        attrs.end + 1
    } else {
        attrs.end
    };
    after_char_range(s, at, '>');
}

/// How many numbers an attribute with this name has to hold, if its form is checked.
pub open spec fn numbers_expected(key: Seq<char>) -> Option<nat> {
    if key == "rect"@ {
        Some(4)
    } else if key == "color"@ {
        Some(3)
    } else {
        None
    }
}

/// Whether the value will do: nothing but numbers, and as many as expected. A colour may also have an
/// alpha.
pub open spec fn numbers_suffice(expected: nat, value: Seq<char>) -> bool {
    match number_list(value) {
        Some(found) => found == expected || (expected == 3 && found == 4),
        None => false,
    }
}

/// The value does not hold the numbers that it has to.
pub open spec fn bad_numbers(attr: AttrView, expected: nat) -> DiagnosticView {
    DiagnosticView {
        line: attr.line,
        column: attr.column,
        length: attr.value.len() as int,
        severity: DiagnosticSeverity::Warning,
        message: "属性值应为 "@ + decimal(expected) + " 个以逗号分隔的数字，收到 `"@
            + attr.value + "`"@,
    }
}

/// What is wrong with the form of one attribute's value.
pub open spec fn attr_warnings(attr: AttrView) -> Seq<DiagnosticView> {
    match numbers_expected(attr.key) {
        Some(expected) => if numbers_suffice(expected, attr.value) {
            Seq::empty()
        } else {
            seq![bad_numbers(attr, expected)]
        },
        None => Seq::empty(),
    }
}

/// What is wrong with the form of the first `n` attributes' values.
pub open spec fn warnings(attrs: Seq<AttrView>, n: int) -> Seq<DiagnosticView>
    decreases n,
{
    if n <= 0 {
        Seq::empty()
    } else {
        warnings(attrs, n - 1) + attr_warnings(attrs[n - 1])
    }
}

/// The value of the last `key` attribute among the first `n`.
pub open spec fn key_attr(attrs: Seq<AttrView>, n: int) -> Option<Seq<char>>
    decreases n,
{
    if n <= 0 {
        None
    } else if attrs[n - 1].key == "key"@ {
        Some(attrs[n - 1].value)
    } else {
        key_attr(attrs, n - 1)
    }
}

/// The node of an element.
pub open spec fn built(name: Seq<char>, attrs: Seq<AttrView>, children: Seq<NodeView>) -> NodeView {
    NodeView {
        tag: name,
        key: key_attr(attrs, attrs.len() as int),
        attrs: attrs.map_values(|a: AttrView| (a.key, a.value)),
        children,
    }
}

/// A text node.
pub open spec fn text_node(text: Seq<char>) -> NodeView {
    NodeView {
        tag: "#text"@,
        key: None,
        attrs: seq![("text"@, text)],
        children: Seq::empty(),
    }
}

/// What is read of an element.
pub ghost struct Element {
    pub node: NodeView,
    pub end: int,
    pub diagnostics: Seq<DiagnosticView>,
}

/// What is read between an opening tag and its closing tag.
pub ghost struct Children {
    pub nodes: Seq<NodeView>,
    pub end: int,
    pub diagnostics: Seq<DiagnosticView>,
}

/// The length of a name, at least 1.
pub open spec fn shown_length(name: Seq<char>) -> int {
    if name.len() == 0 {
        1
    } else {
        name.len() as int
    }
}

/// The text ends before the element does.
pub open spec fn unclosed(s: Seq<char>, open: int, name: Seq<char>) -> DiagnosticView {
    DiagnosticView {
        line: line_at(s, open),
        column: column_at(s, open),
        length: shown_length(name),
        severity: DiagnosticSeverity::Error,
        message: "标签 `<"@ + name + ">` 未闭合（到达文件结尾）"@,
    }
}

/// The closing tag has another name than the opening tag.
pub open spec fn mismatched(s: Seq<char>, i: int, close: Seq<char>, name: Seq<char>) -> DiagnosticView {
    DiagnosticView {
        line: line_at(s, i),
        column: column_at(s, i),
        length: shown_length(close) + 2,
        severity: DiagnosticSeverity::Error,
        message: "闭合标签 `</"@ + close + ">` 与开标签 `<"@ + name + ">` 不匹配"@,
    }
}

/// The element at `i`, where a `<` stands.
pub open spec fn element(s: Seq<char>, i: int) -> Element
    decreases s.len() - i, 0int,
    when 0 <= i < s.len()
{
    proof {
        header_advances(s, i);
    }
    let head = header(s, i);
    let form = warnings(head.attrs, head.attrs.len() as int);
    if head.closed {
        Element {
            node: built(head.name, head.attrs, Seq::empty()),
            end: head.end,
            diagnostics: head.diagnostics + form,
        }
    } else {
        let inner = children(s, head.end, head.name, i + 1);
        Element {
            node: built(head.name, head.attrs, inner.nodes),
            end: inner.end,
            diagnostics: head.diagnostics + inner.diagnostics + form,
        }
    }
}

/// The children from `j` on of the element `name`, whose name stands at `open`: elements and texts
/// up to the first closing tag, whatever its name, or the end. Comments and white space are
/// skipped.
pub open spec fn children(s: Seq<char>, j: int, name: Seq<char>, open: int) -> Children
    decreases s.len() - j, 1int,
    when 0 <= j <= s.len()
{
    proof {
        skip_white_settles(s, j);
    }
    let k = skip_white(s, j);
    if k >= s.len() {
        Children { nodes: Seq::empty(), end: k, diagnostics: seq![unclosed(s, open, name)] }
    } else if s[k] == '<' {
        if k + 1 < s.len() && s[k + 1] == '/' {
            let close_to = name_end(s, k + 2);
            let close = s.subrange(k + 2, close_to);
            Children {
                nodes: Seq::empty(),
                end: after_char(s, close_to, '>'),
                diagnostics: if close == name {
                    Seq::empty()
                } else {
                    seq![mismatched(s, k, close, name)]
                },
            }
        } else if comment_at(s, k) {
            proof {
                comment_end_range(s, k, k + 1);
            }
            children(s, comment_end(s, k, k + 1), name, open)
        } else {
            let child = element(s, k);
            // An element takes at least its `<`; see `element_advances`.
            if k < child.end <= s.len() {
                let rest = children(s, child.end, name, open);
                Children {
                    nodes: seq![child.node] + rest.nodes,
                    end: rest.end,
                    diagnostics: child.diagnostics + rest.diagnostics,
                }
            } else {
                Children { nodes: seq![child.node], end: child.end, diagnostics: child.diagnostics }
            }
        }
    } else {
        proof {
            next_char_range(s, k + 1, '<');
        }
        let to = next_char(s, k, '<');
        let text = trimmed(s.subrange(k, to));
        let rest = children(s, to, name, open);
        Children {
            nodes: if text.len() > 0 {
                seq![text_node(text)] + rest.nodes
            } else {
                rest.nodes
            },
            end: rest.end,
            diagnostics: rest.diagnostics,
        }
    }
}

/// An element takes at least its `<`.
pub proof fn element_advances(s: Seq<char>, i: int)
    requires
        0 <= i < s.len(),
    ensures
        i < element(s, i).end <= s.len(),
    decreases s.len() - i, 0int,
{
    header_advances(s, i);
    let head = header(s, i);
    if !head.closed {
        children_stay(s, head.end, head.name, i + 1);
    }
}

/// The children of an element end inside the text.
pub proof fn children_stay(s: Seq<char>, j: int, name: Seq<char>, open: int)
    requires
        0 <= j <= s.len(),
    ensures
        j <= children(s, j, name, open).end <= s.len(),
    decreases s.len() - j, 1int,
{
    skip_white_settles(s, j);
    let k = skip_white(s, j);
    if k >= s.len() {
    } else if s[k] == '<' {
        if k + 1 < s.len() && s[k + 1] == '/' {
            name_end_range(s, k + 2);
            after_char_range(s, name_end(s, k + 2), '>');
        } else if comment_at(s, k) {
            comment_end_range(s, k, k + 1);
            children_stay(s, comment_end(s, k, k + 1), name, open);
        } else {
            element_advances(s, k);
            children_stay(s, element(s, k).end, name, open);
        }
    } else {
        next_char_range(s, k + 1, '<');
        children_stay(s, next_char(s, k, '<'), name, open);
    }
}

/// Where the root element begins: the first `<` from `i` on that begins no comment, or the end.
pub open spec fn root_at(s: Seq<char>, i: int) -> int
    decreases s.len() - i,
    when 0 <= i <= s.len()
{
    proof {
        next_char_range(s, i, '<');
    }
    let at = next_char(s, i, '<');
    if comment_at(s, at) {
        proof {
            comment_end_range(s, at, at + 1);
        }
        root_at(s, comment_end(s, at, at + 1))
    } else {
        at
    }
}

/// A closing tag stands where the root should begin.
pub open spec fn stray_closing(s: Seq<char>, i: int) -> DiagnosticView {
    DiagnosticView {
        line: line_at(s, i),
        column: column_at(s, i),
        length: 2,
        severity: DiagnosticSeverity::Error,
        message: "意外的闭合标签（缺少对应的开标签）"@,
    }
}

/// The tree of a document and its diagnostics: text and comments before the first tag are ignored,
/// and that tag is the root. A document without a root yields a blank node.
pub open spec fn parsed(s: Seq<char>) -> (NodeView, Seq<DiagnosticView>) {
    let at = root_at(s, 0);
    if at >= s.len() {
        (StaticNode::blank(), Seq::empty())
    } else if at + 1 < s.len() && s[at + 1] == '/' {
        (StaticNode::blank(), seq![stray_closing(s, at + 1)])
    } else {
        (element(s, at).node, element(s, at).diagnostics)
    }
}

// ---------------------------------------------------------------------------------------------
// The executable side.

/// Reading position in a text.
struct Parser {
    chars: Vec<char>,
    pos: usize,
    line: usize,
    column: usize,
}

/// An attribute as read.
struct Attr {
    key: String,
    value: String,
    line: usize,
    column: usize,
}

impl Attr {
    spec fn view(self) -> AttrView {
        AttrView {
            key: self.key@,
            value: self.value@,
            line: self.line as int,
            column: self.column as int,
        }
    }
}

spec fn attrs_of(list: Seq<Attr>) -> Seq<AttrView> {
    list.map_values(|a: Attr| a.view())
}

spec fn deep_of(list: Seq<StaticNode>) -> Seq<NodeView> {
    Seq::new(list.len(), |i: int| list[i].deep())
}

impl Parser {
    spec fn wf(&self) -> bool {
        &&& self.chars@.len() < usize::MAX
        &&& self.pos <= self.chars@.len()
        &&& self.line == line_at(self.chars@, self.pos as int)
        &&& self.column == column_at(self.chars@, self.pos as int)
    }

    /// Whether the character at the position, if there is one, is `c`.
    fn at(&self, c: char) -> (here: bool)
        requires
            self.wf(),
        ensures
            here == (self.pos < self.chars@.len() && self.chars@[self.pos as int] == c),
    {
        self.pos < self.chars.len() && self.chars[self.pos] == c
    }

    /// Takes one character and moves line and column along.
    fn bump(&mut self)
        requires
            old(self).wf(),
            old(self).pos < old(self).chars@.len(),
        ensures
            final(self).wf(),
            final(self).chars == old(self).chars,
            final(self).pos == old(self).pos + 1,
    {
        proof {
            places_count_from_one(self.chars@, self.pos as int);
        }
        if self.chars[self.pos] == '\n' {
            self.line = self.line + 1;
            self.column = 1;
        } else {
            self.column = self.column + 1;
        }
        self.pos = self.pos + 1;
    }

    fn skip_ws(&mut self)
        requires
            old(self).wf(),
        ensures
            final(self).wf(),
            final(self).chars == old(self).chars,
            final(self).pos == skip_white(old(self).chars@, old(self).pos as int),
    {
        while self.pos < self.chars.len() && is_white_space(self.chars[self.pos])
            invariant
                self.wf(),
                self.chars == old(self).chars,
                skip_white(self.chars@, old(self).pos as int) == skip_white(
                    self.chars@,
                    self.pos as int,
                ),
            decreases self.chars@.len() - self.pos,
        {
            self.bump();
        }
    }

    /// Whether a comment begins here.
    fn peek_is_comment(&self) -> (comment: bool)
        requires
            self.wf(),
        ensures
            comment == comment_at(self.chars@, self.pos as int),
    {
        let n: usize = self.chars.len();
        n - self.pos > 2 && self.chars[self.pos] == '<' && self.chars[self.pos + 1] == '!'
            && self.chars[self.pos + 2] == '-'
    }

    /// Takes a comment.
    fn consume_comment(&mut self)
        requires
            old(self).wf(),
            comment_at(old(self).chars@, old(self).pos as int),
        ensures
            final(self).wf(),
            final(self).chars == old(self).chars,
            final(self).pos == comment_end(
                old(self).chars@,
                old(self).pos as int,
                old(self).pos + 1,
            ),
            final(self).pos > old(self).pos,
    {
        let start: usize = self.pos;
        self.bump();
        let mut before: char = '\0';
        let mut last: char = '\0';
        while self.pos < self.chars.len()
            invariant
                self.wf(),
                self.chars == old(self).chars,
                start == old(self).pos,
                start < self.pos,
                last == (if self.pos > start + 1 {
                    self.chars@[self.pos - 1]
                } else {
                    '\0'
                }),
                before == (if self.pos > start + 2 {
                    self.chars@[self.pos - 2]
                } else {
                    '\0'
                }),
                comment_end(self.chars@, start as int, start + 1) == comment_end(
                    self.chars@,
                    start as int,
                    self.pos as int,
                ),
            decreases self.chars@.len() - self.pos,
        {
            let c = self.chars[self.pos];
            if before == '-' && last == '-' && c == '>' {
                self.bump();
                return;
            }
            before = last;
            last = c;
            self.bump();
        }
    }

    /// Moves to the next `<`, or the end.
    fn skip_to_first_tag(&mut self)
        requires
            old(self).wf(),
        ensures
            final(self).wf(),
            final(self).chars == old(self).chars,
            final(self).pos == next_char(old(self).chars@, old(self).pos as int, '<'),
    {
        while self.pos < self.chars.len() && self.chars[self.pos] != '<'
            invariant
                self.wf(),
                self.chars == old(self).chars,
                next_char(self.chars@, old(self).pos as int, '<') == next_char(
                    self.chars@,
                    self.pos as int,
                    '<',
                ),
            decreases self.chars@.len() - self.pos,
        {
            self.bump();
        }
    }

    /// Takes everything up to and with the next `delim`, or to the end.
    fn consume_until(&mut self, delim: char)
        requires
            old(self).wf(),
        ensures
            final(self).wf(),
            final(self).chars == old(self).chars,
            final(self).pos == after_char(old(self).chars@, old(self).pos as int, delim),
    {
        while self.pos < self.chars.len()
            invariant
                self.wf(),
                self.chars == old(self).chars,
                after_char(self.chars@, old(self).pos as int, delim) == after_char(
                    self.chars@,
                    self.pos as int,
                    delim,
                ),
            decreases self.chars@.len() - self.pos,
        {
            let hit = self.chars[self.pos] == delim;
            self.bump();
            if hit {
                return;
            }
        }
    }

    /// The text from `from` to here.
    fn since(&self, from: usize) -> (text: String)
        requires
            self.wf(),
            from <= self.pos,
        ensures
            text@ == self.chars@.subrange(from as int, self.pos as int),
    {
        string_of(self.chars.as_slice(), from, self.pos)
    }

    /// Takes a name.
    fn parse_tag_name(&mut self) -> (name: String)
        requires
            old(self).wf(),
        ensures
            final(self).wf(),
            final(self).chars == old(self).chars,
            final(self).pos == name_end(old(self).chars@, old(self).pos as int),
            name@ == old(self).chars@.subrange(old(self).pos as int, final(self).pos as int),
            old(self).pos <= final(self).pos,
    {
        let from: usize = self.pos;
        while self.pos < self.chars.len() && !(is_white_space(self.chars[self.pos])
            || self.chars[self.pos] == '>' || self.chars[self.pos] == '/' || self.chars[self.pos]
            == '=')
            invariant
                self.wf(),
                self.chars == old(self).chars,
                from == old(self).pos <= self.pos,
                name_end(self.chars@, from as int) == name_end(self.chars@, self.pos as int),
            decreases self.chars@.len() - self.pos,
        {
            self.bump();
        }
        self.since(from)
    }

    /// Takes a quoted value, without the closing quote.
    fn quoted(&mut self, quote: char) -> (value: String)
        requires
            old(self).wf(),
        ensures
            final(self).wf(),
            final(self).chars == old(self).chars,
            final(self).pos == quoted_end(old(self).chars@, old(self).pos as int, quote),
            value@ == old(self).chars@.subrange(old(self).pos as int, final(self).pos as int),
            old(self).pos <= final(self).pos,
    {
        let from: usize = self.pos;
        while self.pos < self.chars.len() && self.chars[self.pos] != quote
            && self.chars[self.pos] != '>' && self.chars[self.pos] != '\n'
            invariant
                self.wf(),
                self.chars == old(self).chars,
                from == old(self).pos <= self.pos,
                quoted_end(self.chars@, from as int, quote) == quoted_end(
                    self.chars@,
                    self.pos as int,
                    quote,
                ),
            decreases self.chars@.len() - self.pos,
        {
            self.bump();
        }
        self.since(from)
    }

    /// Takes a value without quotes.
    fn bare(&mut self) -> (value: String)
        requires
            old(self).wf(),
        ensures
            final(self).wf(),
            final(self).chars == old(self).chars,
            final(self).pos == bare_end(old(self).chars@, old(self).pos as int),
            value@ == old(self).chars@.subrange(old(self).pos as int, final(self).pos as int),
            old(self).pos <= final(self).pos,
    {
        let from: usize = self.pos;
        while self.pos < self.chars.len() && !is_white_space(self.chars[self.pos])
            && self.chars[self.pos] != '>' && self.chars[self.pos] != '/'
            invariant
                self.wf(),
                self.chars == old(self).chars,
                from == old(self).pos <= self.pos,
                bare_end(self.chars@, from as int) == bare_end(self.chars@, self.pos as int),
            decreases self.chars@.len() - self.pos,
        {
            self.bump();
        }
        self.since(from)
    }

    /// Takes text up to the next `<`.
    fn consume_text_until_tag(&mut self) -> (from: usize)
        requires
            old(self).wf(),
        ensures
            final(self).wf(),
            final(self).chars == old(self).chars,
            final(self).pos == next_char(old(self).chars@, old(self).pos as int, '<'),
            from == old(self).pos <= final(self).pos,
    {
        let from: usize = self.pos;
        proof {
            next_char_range(self.chars@, self.pos as int, '<');
        }
        self.skip_to_first_tag();
        from
    }

    /// Takes one attribute.
    fn parse_attribute(&mut self, diagnostics: &mut Vec<LxmlDiagnostic>) -> (attr: Attr)
        requires
            old(self).wf(),
        ensures
            final(self).wf(),
            final(self).chars == old(self).chars,
            attr.view() == one_attr(old(self).chars@, old(self).pos as int).attr,
            final(self).pos == one_attr(old(self).chars@, old(self).pos as int).end,
            diagnostics_of(final(diagnostics)@) == diagnostics_of(old(diagnostics)@) + one_attr(
                old(self).chars@,
                old(self).pos as int,
            ).diagnostics,
    {
        let ghost s = self.chars@;
        let key = self.parse_tag_name();
        self.skip_ws();
        let line: usize = self.line;
        let column: usize = self.column;
        assert(diagnostics_of(diagnostics@) =~= diagnostics_of(old(diagnostics)@) + Seq::<
            DiagnosticView,
        >::empty());
        if self.at('=') {
            self.bump();
            self.skip_ws();
            if self.at('"') || self.at('\'') {
                let quote = self.chars[self.pos];
                let quote_line: usize = self.line;
                let quote_column: usize = self.column;
                proof {
                    places_count_from_one(self.chars@, self.pos as int);
                }
                let ghost at = self.pos as int;
                self.bump();
                let value = self.quoted(quote);
                if self.at(quote) {
                    self.bump();
                } else if self.pos < self.chars.len() {
                    let mut message = "属性 `".to_owned();
                    message.append(key.as_str());
                    message.append("` 的引号未闭合");
                    let ghost before = diagnostics@;
                    diagnostics.push(
                        LxmlDiagnostic {
                            line: quote_line,
                            column: quote_column,
                            length: 1,
                            severity: DiagnosticSeverity::Error,
                            message,
                        },
                    );
                    assert(diagnostics_of(diagnostics@) =~= diagnostics_of(before).push(
                        open_quote(s, at, key@),
                    ));
                }
                Attr { key, value, line: quote_line, column: quote_column + 1 }
            } else {
                let value_line: usize = self.line;
                let value_column: usize = self.column;
                let value = self.bare();
                Attr { key, value, line: value_line, column: value_column }
            }
        } else {
            Attr { key, value: String::new(), line, column }
        }
    }

    /// Takes the attributes of a tag.
    fn parse_attributes(&mut self, diagnostics: &mut Vec<LxmlDiagnostic>) -> (attrs: Vec<Attr>)
        requires
            old(self).wf(),
        ensures
            final(self).wf(),
            final(self).chars == old(self).chars,
            attrs_of(attrs@) == attributes(old(self).chars@, old(self).pos as int).list,
            final(self).pos == attributes(old(self).chars@, old(self).pos as int).end,
            diagnostics_of(final(diagnostics)@) == diagnostics_of(old(diagnostics)@) + attributes(
                old(self).chars@,
                old(self).pos as int,
            ).diagnostics,
    {
        let ghost s = self.chars@;
        let ghost whole = attributes(s, self.pos as int);
        let ghost given = diagnostics_of(diagnostics@);
        let mut attrs: Vec<Attr> = Vec::new();
        proof {
            assert(attrs_of(attrs@) + whole.list =~= whole.list);
        }
        loop
            invariant
                self.wf(),
                self.chars@ == s,
                self.chars == old(self).chars,
                whole == attributes(s, old(self).pos as int),
                given == diagnostics_of(old(diagnostics)@),
                whole.list == attrs_of(attrs@) + attributes(s, self.pos as int).list,
                whole.end == attributes(s, self.pos as int).end,
                given + whole.diagnostics == diagnostics_of(diagnostics@) + attributes(
                    s,
                    self.pos as int,
                ).diagnostics,
            decreases s.len() - self.pos,
        {
            proof {
                skip_white_settles(s, self.pos as int);
            }
            let ghost here = attributes(s, self.pos as int);
            self.skip_ws();
            if self.pos >= self.chars.len() || self.at('>') || self.at('/') {
                proof {
                    assert(attrs_of(attrs@) + here.list =~= attrs_of(attrs@));
                    assert(diagnostics_of(diagnostics@) + here.diagnostics =~= diagnostics_of(
                        diagnostics@,
                    ));
                }
                return attrs;
            }
            proof {
                one_attr_advances(s, self.pos as int);
            }
            let ghost one = one_attr(s, self.pos as int);
            let ghost read = diagnostics_of(diagnostics@);
            let attr = self.parse_attribute(diagnostics);
            let ghost rest = attributes(s, self.pos as int);
            assert(read + (one.diagnostics + rest.diagnostics) =~= (read + one.diagnostics)
                + rest.diagnostics);
            if attr.key.as_str().unicode_len() > 0 {
                let ghost before = attrs@;
                attrs.push(attr);
                assert(attrs_of(attrs@) =~= attrs_of(before).push(one.attr));
                assert(attrs_of(before) + (seq![one.attr] + rest.list) =~= attrs_of(attrs@)
                    + rest.list);
            }
        }
    }
}

/// Checks that a value holds the numbers that it has to.
fn validate_numbers(attr: &Attr, expect: usize, diagnostics: &mut Vec<LxmlDiagnostic>)
    requires
        numbers_expected(attr.key@) == Some(expect as nat),
        attr.value@.len() < usize::MAX,
    ensures
        diagnostics_of(final(diagnostics)@) == diagnostics_of(old(diagnostics)@) + attr_warnings(
            attr.view(),
        ),
{
    let chars = chars_of(attr.value.as_str());
    let ok = match count_numbers(chars.as_slice()) {
        Some(found) => found == expect || (expect == 3 && found == 4),
        None => false,
    };
    if !ok {
        let mut message = "属性值应为 ".to_owned();
        push_decimal(&mut message, expect as u64);
        message.append(" 个以逗号分隔的数字，收到 `");
        message.append(attr.value.as_str());
        message.append("`");
        diagnostics.push(
            LxmlDiagnostic {
                line: attr.line,
                column: attr.column,
                length: chars.len(),
                severity: DiagnosticSeverity::Warning,
                message,
            },
        );
        assert(diagnostics_of(diagnostics@) =~= diagnostics_of(old(diagnostics)@).push(
            bad_numbers(attr.view(), expect as nat),
        ));
    }
    assert(diagnostics_of(diagnostics@) =~= diagnostics_of(old(diagnostics)@) + attr_warnings(
        attr.view(),
    ));
}

/// Makes the node of an element.
fn build_node(
    name: String,
    attrs: Vec<Attr>,
    children: Vec<StaticNode>,
    diagnostics: &mut Vec<LxmlDiagnostic>,
) -> (node: StaticNode)
    requires
        forall|i: int| 0 <= i < attrs@.len() ==> (#[trigger] attrs@[i]).value@.len() < usize::MAX,
    ensures
        node.deep() == built(name@, attrs_of(attrs@), deep_of(children@)),
        diagnostics_of(final(diagnostics)@) == diagnostics_of(old(diagnostics)@) + warnings(
            attrs_of(attrs@),
            attrs@.len() as int,
        ),
{
    let ghost list = attrs_of(attrs@);
    let mut pairs: Vec<(String, String)> = Vec::new();
    let mut key: Option<String> = None;
    let mut i: usize = 0;
    assert(diagnostics_of(diagnostics@) =~= diagnostics_of(old(diagnostics)@) + warnings(list, 0));
    while i < attrs.len()
        invariant
            i <= attrs@.len(),
            list == attrs_of(attrs@),
            forall|k: int|
                0 <= k < attrs@.len() ==> (#[trigger] attrs@[k]).value@.len() < usize::MAX,
            text_of(key) == key_attr(list, i as int),
            pairs_of(pairs@) == list.take(i as int).map_values(|a: AttrView| (a.key, a.value)),
            diagnostics_of(diagnostics@) == diagnostics_of(old(diagnostics)@) + warnings(
                list,
                i as int,
            ),
        decreases attrs@.len() - i,
    {
        let attr = &attrs[i];
        assert(list[i as int] == attr.view());
        let ghost before = diagnostics_of(diagnostics@);
        if same_text(attr.key.as_str(), "rect") {
            validate_numbers(attr, 4, diagnostics);
        } else if same_text(attr.key.as_str(), "color") {
            proof {
                reveal_strlit("rect");
                reveal_strlit("color");
            }
            validate_numbers(attr, 3, diagnostics);
        } else {
            assert(before + attr_warnings(attr.view()) =~= before);
        }
        if same_text(attr.key.as_str(), "key") {
            key = Some(attr.value.clone());
        }
        assert(diagnostics_of(old(diagnostics)@) + warnings(list, i + 1) =~= before + attr_warnings(
            attr.view(),
        ));
        let ghost old_pairs = pairs@;
        pairs.push((attr.key.clone(), attr.value.clone()));
        assert(pairs_of(pairs@) =~= pairs_of(old_pairs).push((attr.key@, attr.value@)));
        assert(list.take(i + 1).map_values(|a: AttrView| (a.key, a.value)) =~= list.take(
            i as int,
        ).map_values(|a: AttrView| (a.key, a.value)).push((attr.key@, attr.value@)));
        i += 1;
    }
    assert(list.take(list.len() as int) =~= list);
    let node = StaticNode { tag: name, key, attrs: pairs, children };
    assert(node.deep().children =~= deep_of(children@));
    node
}

impl Parser {
    /// Takes an element. A `<` stands here.
    fn parse_element(&mut self, diagnostics: &mut Vec<LxmlDiagnostic>) -> (node: StaticNode)
        requires
            old(self).wf(),
            old(self).pos < old(self).chars@.len(),
        ensures
            final(self).wf(),
            final(self).chars == old(self).chars,
            node.deep() == element(old(self).chars@, old(self).pos as int).node,
            final(self).pos == element(old(self).chars@, old(self).pos as int).end,
            diagnostics_of(final(diagnostics)@) == diagnostics_of(old(diagnostics)@) + element(
                old(self).chars@,
                old(self).pos as int,
            ).diagnostics,
        decreases old(self).chars@.len() - old(self).pos, 0int,
    {
        let ghost s = self.chars@;
        let ghost start = self.pos as int;
        let ghost given = diagnostics_of(diagnostics@);
        proof {
            header_advances(s, start);
            name_end_range(s, start + 1);
            attributes_end(s, name_end(s, start + 1));
        }
        self.bump();
        let open_line: usize = self.line;
        let open_column: usize = self.column;
        let name = self.parse_tag_name();
        let attrs = self.parse_attributes(diagnostics);
        let ghost list = attrs_of(attrs@);
        let ghost form = warnings(list, list.len() as int);
        proof {
            values_are_short(s, name_end(s, start + 1));
            assert forall|i: int| 0 <= i < attrs@.len() implies (#[trigger] attrs@[i]).value@.len()
                < usize::MAX by {
                assert(list[i] == attrs@[i].view());
            }
        }
        let closed = self.at('/');
        if closed {
            self.bump();
        }
        if self.at('>') {
            self.bump();
        } else {
            let line: usize = self.line;
            let column: usize = self.column;
            let ghost at = self.pos as int;
            let mut message = "标签 `<".to_owned();
            message.append(name.as_str());
            message.append("` 缺少结束的 `>`");
            self.consume_until('>');
            let ghost before = diagnostics@;
            diagnostics.push(
                LxmlDiagnostic {
                    line,
                    column,
                    length: 1,
                    severity: DiagnosticSeverity::Error,
                    message,
                },
            );
            assert(diagnostics_of(diagnostics@) =~= diagnostics_of(before).push(
                missing_bracket(s, at, name@),
            ));
        }
        let ghost head = header(s, start);
        assert(diagnostics_of(diagnostics@) =~= given + head.diagnostics);
        assert(list == head.attrs && name@ == head.name && self.pos == head.end);
        if closed {
            let none: Vec<StaticNode> = Vec::new();
            assert(deep_of(none@) =~= Seq::empty());
            let node = build_node(name, attrs, none, diagnostics);
            assert(diagnostics_of(diagnostics@) =~= given + (head.diagnostics + form));
            return node;
        }
        let nodes = self.parse_children(
            name.as_str(),
            open_line,
            open_column,
            diagnostics,
            Ghost(start + 1),
        );
        let ghost inner = children(s, head.end, head.name, start + 1);
        let node = build_node(name, attrs, nodes, diagnostics);
        assert(diagnostics_of(diagnostics@) =~= given + (head.diagnostics + inner.diagnostics
            + form));
        node
    }

    /// Takes the children of an element, with its closing tag.
    fn parse_children(
        &mut self,
        name: &str,
        open_line: usize,
        open_column: usize,
        diagnostics: &mut Vec<LxmlDiagnostic>,
        Ghost(open): Ghost<int>,
    ) -> (nodes: Vec<StaticNode>)
        requires
            old(self).wf(),
            name@.len() < old(self).chars@.len(),
            open_line == line_at(old(self).chars@, open),
            open_column == column_at(old(self).chars@, open),
        ensures
            final(self).wf(),
            final(self).chars == old(self).chars,
            deep_of(nodes@) == children(
                old(self).chars@,
                old(self).pos as int,
                name@,
                open,
            ).nodes,
            final(self).pos == children(old(self).chars@, old(self).pos as int, name@, open).end,
            diagnostics_of(final(diagnostics)@) == diagnostics_of(old(diagnostics)@) + children(
                old(self).chars@,
                old(self).pos as int,
                name@,
                open,
            ).diagnostics,
        decreases old(self).chars@.len() - old(self).pos, 1int,
    {
        let ghost s = self.chars@;
        let ghost whole = children(s, self.pos as int, name@, open);
        let ghost given = diagnostics_of(diagnostics@);
        let mut nodes: Vec<StaticNode> = Vec::new();
        assert(deep_of(nodes@) + whole.nodes =~= whole.nodes);
        loop
            invariant
                self.wf(),
                self.chars@ == s,
                self.chars == old(self).chars,
                name@.len() < s.len(),
                open_line == line_at(s, open),
                open_column == column_at(s, open),
                old(self).pos <= self.pos,
                whole == children(s, old(self).pos as int, name@, open),
                given == diagnostics_of(old(diagnostics)@),
                whole.nodes == deep_of(nodes@) + children(s, self.pos as int, name@, open).nodes,
                whole.end == children(s, self.pos as int, name@, open).end,
                given + whole.diagnostics == diagnostics_of(diagnostics@) + children(
                    s,
                    self.pos as int,
                    name@,
                    open,
                ).diagnostics,
            decreases s.len() - self.pos,
        {
            proof {
                skip_white_settles(s, self.pos as int);
            }
            let ghost here = children(s, self.pos as int, name@, open);
            self.skip_ws();
            let ghost k = self.pos as int;
            let ghost read = diagnostics_of(diagnostics@);
            if self.pos >= self.chars.len() {
                let mut message = "标签 `<".to_owned();
                message.append(name);
                message.append(">` 未闭合（到达文件结尾）");
                let length: usize = name.unicode_len();
                let ghost before = diagnostics@;
                diagnostics.push(
                    LxmlDiagnostic {
                        line: open_line,
                        column: open_column,
                        length: if length == 0 { 1 } else { length },
                        severity: DiagnosticSeverity::Error,
                        message,
                    },
                );
                proof {
                    assert(diagnostics_of(diagnostics@) =~= diagnostics_of(before) + seq![
                        unclosed(s, open, name@),
                    ]);
                    assert(deep_of(nodes@) + here.nodes =~= deep_of(nodes@));
                }
                return nodes;
            }
            if self.at('<') {
                if self.chars.len() - self.pos > 1 && self.chars[self.pos + 1] == '/' {
                    let line: usize = self.line;
                    let column: usize = self.column;
                    self.bump();
                    self.bump();
                    proof {
                        name_end_range(s, self.pos as int);
                    }
                    let close = self.parse_tag_name();
                    if !same_text(close.as_str(), name) {
                        let mut message = "闭合标签 `</".to_owned();
                        message.append(close.as_str());
                        message.append(">` 与开标签 `<");
                        message.append(name);
                        message.append(">` 不匹配");
                        let length: usize = close.as_str().unicode_len();
                        let ghost before = diagnostics@;
                        diagnostics.push(
                            LxmlDiagnostic {
                                line,
                                column,
                                length: if length == 0 { 3 } else { length + 2 },
                                severity: DiagnosticSeverity::Error,
                                message,
                            },
                        );
                        assert(diagnostics_of(diagnostics@) =~= diagnostics_of(before) + seq![
                            mismatched(s, k, close@, name@),
                        ]);
                    }
                    self.consume_until('>');
                    proof {
                        assert(diagnostics_of(diagnostics@) =~= read + here.diagnostics);
                        assert(deep_of(nodes@) + here.nodes =~= deep_of(nodes@));
                    }
                    return nodes;
                }
                if self.peek_is_comment() {
                    self.consume_comment();
                } else {
                    proof {
                        element_advances(s, k);
                    }
                    let ghost one = element(s, k);
                    let node = self.parse_element(diagnostics);
                    let ghost rest = children(s, self.pos as int, name@, open);
                    let ghost before = nodes@;
                    nodes.push(node);
                    proof {
                        assert(deep_of(nodes@) =~= deep_of(before).push(one.node));
                        assert(deep_of(before) + (seq![one.node] + rest.nodes) =~= deep_of(nodes@)
                            + rest.nodes);
                        assert(read + (one.diagnostics + rest.diagnostics) =~= (read
                            + one.diagnostics) + rest.diagnostics);
                    }
                }
            } else {
                proof {
                    next_char_range(s, k + 1, '<');
                }
                let from: usize = self.consume_text_until_tag();
                let ghost rest = children(s, self.pos as int, name@, open);
                let run = slice_subrange(self.chars.as_slice(), from, self.pos);
                let range = trim_range(run);
                assert(run@ == s.subrange(k, self.pos as int));
                if range.0 < range.1 {
                    let text = string_of(run, range.0, range.1);
                    assert(text@ == trimmed(s.subrange(k, self.pos as int)));
                    let mut attrs: Vec<(String, String)> = Vec::new();
                    attrs.push(("text".to_owned(), text));
                    let node = StaticNode {
                        tag: "#text".to_owned(),
                        key: None,
                        attrs,
                        children: Vec::new(),
                    };
                    let ghost before = nodes@;
                    let ghost shown = node;
                    nodes.push(node);
                    proof {
                        assert(shown.deep().attrs =~= seq![("text"@, text@)]);
                        assert(shown.deep().children =~= Seq::empty());
                        assert(shown.deep() == text_node(text@));
                        assert(deep_of(nodes@) =~= deep_of(before).push(text_node(text@)));
                        assert(deep_of(before) + (seq![text_node(text@)] + rest.nodes) =~= deep_of(
                            nodes@,
                        ) + rest.nodes);
                    }
                }
            }
        }
    }
}

proof fn values_are_short(s: Seq<char>, i: int)
    requires
        0 <= i <= s.len(),
    ensures
        forall|k: int|
            0 <= k < attributes(s, i).list.len() ==> (#[trigger] attributes(
                s,
                i,
            ).list[k]).value.len() <= s.len(),
    decreases s.len() - i,
{
    skip_white_settles(s, i);
    let at = skip_white(s, i);
    if at >= s.len() || s[at] == '>' || s[at] == '/' {
    } else {
        one_attr_advances(s, at);
        let one = one_attr(s, at);
        values_are_short(s, one.end);
        let rest = attributes(s, one.end).list;
        name_end_range(s, at);
        skip_white_range(s, name_end(s, at));
        let eq = skip_white(s, name_end(s, at));
        if eq < s.len() && s[eq] == '=' {
            skip_white_range(s, eq + 1);
            let v = skip_white(s, eq + 1);
            if v < s.len() && (s[v] == '"' || s[v] == '\'') {
                quoted_end_range(s, v + 1, s[v]);
            } else {
                bare_end_range(s, v);
            }
        }
        assert(one.attr.value.len() <= s.len());
        assert forall|k: int| 0 <= k < attributes(s, i).list.len() implies (#[trigger] attributes(
            s,
            i,
        ).list[k]).value.len() <= s.len() by {
            if one.attr.key.len() > 0 {
                if k > 0 {
                    assert(attributes(s, i).list[k] == rest[k - 1]);
                }
            } else {
                assert(attributes(s, i).list[k] == rest[k]);
            }
        }
    }
}

/// Parses `.lxml` text into a tree, with diagnostics.
///
/// A faulty document still yields a tree, as complete as possible.
pub fn parse_lxml(src: &str) -> (result: (StaticNode, Vec<LxmlDiagnostic>))
    requires
        src@.len() < usize::MAX,
    ensures
        result.0.deep() == parsed(src@).0,
        diagnostics_of(result.1@) == parsed(src@).1,
{
    let mut parser = Parser { chars: chars_of(src), pos: 0, line: 1, column: 1 };
    let mut diagnostics: Vec<LxmlDiagnostic> = Vec::new();
    let ghost s = src@;
    proof {
        root_settles(s, 0);
    }
    parser.skip_to_first_tag();
    while parser.peek_is_comment()
        invariant
            parser.wf(),
            parser.chars@ == s,
            parser.pos == next_char(s, parser.pos as int, '<'),
            root_at(s, 0) == root_at(s, parser.pos as int),
        decreases s.len() - parser.pos,
    {
        proof {
            comment_end_range(s, parser.pos as int, parser.pos + 1);
        }
        parser.consume_comment();
        let ghost at = parser.pos as int;
        proof {
            root_settles(s, at);
        }
        parser.skip_to_first_tag();
    }
    assert(diagnostics_of(diagnostics@) =~= Seq::empty());
    if parser.pos >= parser.chars.len() {
        return (StaticNode::default(), diagnostics);
    }
    if parser.chars.len() - parser.pos > 1 && parser.chars[parser.pos + 1] == '/' {
        let ghost at = parser.pos as int;
        parser.bump();
        let line: usize = parser.line;
        let column: usize = parser.column;
        diagnostics.push(
            LxmlDiagnostic {
                line,
                column,
                length: 2,
                severity: DiagnosticSeverity::Error,
                message: "意外的闭合标签（缺少对应的开标签）".to_owned(),
            },
        );
        assert(diagnostics_of(diagnostics@) =~= seq![stray_closing(s, at + 1)]);
        return (StaticNode::default(), diagnostics);
    }
    let tree = parser.parse_element(&mut diagnostics);
    proof {
        let at = root_at(s, 0);
        assert(diagnostics_of(diagnostics@) =~= element(s, at).diagnostics);
    }
    (tree, diagnostics)
}

proof fn root_settles(s: Seq<char>, i: int)
    requires
        0 <= i <= s.len(),
    ensures
        i <= next_char(s, i, '<') <= s.len(),
        next_char(s, next_char(s, i, '<'), '<') == next_char(s, i, '<'),
        root_at(s, i) == root_at(s, next_char(s, i, '<')),
{
    next_char_range(s, i, '<');
    next_char_settles(s, i, '<');
}

proof fn next_char_settles(s: Seq<char>, i: int, c: char)
    requires
        0 <= i <= s.len(),
    ensures
        next_char(s, next_char(s, i, c), c) == next_char(s, i, c),
    decreases s.len() - i,
{
    if i < s.len() && s[i] != c {
        next_char_settles(s, i + 1, c);
    }
}

} // verus!
