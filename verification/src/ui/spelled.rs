//! All the ways to write a tree down in the `.lxml` form, and what each of them means.
//!
//! White space is free between attributes, around `=` and between nodes; values stand in double or single
//! quotes, bare, or not at all; an element without children may close itself; comments may stand before the
//! root and between nodes; and what follows the root does not count. Some ways to get it wrong are here too, with
//! what is said of them.

use crate::text::{skip_white, trim_back, trimmed, trimmed_has_no_outer_white_space, white_space};
use crate::ui::lxml::{
    after_char, attributes, bare_end, built, children, column_at, comment_at, comment_end, element, ends_name,
    header, line_at, mismatched, next_char, numbers_expected, numbers_suffice, one_attr, one_attr_advances,
    open_quote, parsed, quoted_end, root_at, text_node, unclosed, AttrView, Children, DiagnosticSeverity,
    DiagnosticView, Element, NodeView,
};
use crate::ui::written::{
    are_read, both_parts, fit_name, fit_text, holds, last_key, name_is_read, no_warnings, numbers_fit, one_char,
    taken_out, text_is_read,
};
use vstd::prelude::*;

verus! {

/// How the value of an attribute is written.
pub ghost enum Quoting {
    /// Between quotes of this kind.
    Quoted(char),
    /// Without quotes.
    Bare,
    /// Not at all: the attribute has only a name.
    Absent,
}

/// An attribute as it is written.
pub ghost struct AttrMark {
    /// White space before it.
    pub lead: Seq<char>,
    pub name: Seq<char>,
    /// White space before the `=`.
    pub before: Seq<char>,
    /// White space behind the `=`.
    pub behind: Seq<char>,
    pub quoting: Quoting,
    pub value: Seq<char>,
}

/// A part of a document as it is written, with the white space before it.
pub ghost enum Mark {
    Text { lead: Seq<char>, text: Seq<char> },
    Comment { lead: Seq<char>, body: Seq<char> },
    Element {
        lead: Seq<char>,
        tag: Seq<char>,
        attrs: Seq<AttrMark>,
        /// White space before the end of the tag.
        tail: Seq<char>,
        /// Whether the tag closes itself; it has no items in that case.
        closed: bool,
        items: Seq<Mark>,
        /// White space before the closing tag.
        last: Seq<char>,
        /// White space inside the closing tag.
        close: Seq<char>,
    },
}

/// Whether a text is nothing but white space.
pub open spec fn blank_text(s: Seq<char>) -> bool {
    forall|i: int| 0 <= i < s.len() ==> white_space(#[trigger] s[i])
}

/// Whether the value can be written that way.
pub open spec fn fits_quoting(value: Seq<char>, quoting: Quoting) -> bool {
    match quoting {
        Quoting::Quoted(quote) => (quote == '"' || quote == '\'') && forall|i: int|
            0 <= i < value.len() ==> (#[trigger] value[i]) != quote && value[i] != '>' && value[i] != '\n',
        Quoting::Bare => value.len() > 0 && value[0] != '"' && value[0] != '\'' && forall|i: int|
            0 <= i < value.len() ==> !white_space(#[trigger] value[i]) && value[i] != '>' && value[i] != '/',
        Quoting::Absent => value.len() == 0,
    }
}

/// Whether an attribute is written soundly, and its value has the form that its name asks for.
pub open spec fn sound_attr(attr: AttrMark) -> bool {
    &&& attr.lead.len() > 0 && blank_text(attr.lead)
    &&& fit_name(attr.name)
    &&& blank_text(attr.before) && blank_text(attr.behind)
    &&& fits_quoting(attr.value, attr.quoting)
    &&& match numbers_expected(attr.name) {
        Some(expected) => numbers_suffice(expected, attr.value),
        None => true,
    }
}

/// Whether a comment ends where it is meant to, and not before.
pub open spec fn sound_comment(body: Seq<char>) -> bool {
    let inner = seq!['-', '-'] + body + seq!['-', '-'];
    forall|i: int|
        0 <= i < body.len() + 1 ==> !((#[trigger] inner[i]) == '-' && inner[i + 1] == '-' && inner[i + 2]
            == '>')
}

/// Whether a part of a document is written soundly.
pub open spec fn sound(mark: Mark) -> bool
    decreases mark,
{
    match mark {
        Mark::Text { lead, text } => blank_text(lead) && fit_text(text),
        Mark::Comment { lead, body } => blank_text(lead) && sound_comment(body),
        Mark::Element { lead, tag, attrs, tail, closed, items, last, close } => {
            &&& blank_text(lead) && blank_text(tail) && blank_text(last) && blank_text(close)
            &&& fit_name(tag)
            &&& !(tag.len() >= 2 && tag[0] == '!' && tag[1] == '-')
            &&& forall|i: int| 0 <= i < attrs.len() ==> sound_attr(#[trigger] attrs[i])
            &&& closed ==> items.len() == 0
            &&& sound_list(items)
        },
    }
}

/// Whether parts are written soundly one behind the other: no text follows a text.
pub open spec fn sound_list(list: Seq<Mark>) -> bool
    decreases list,
{
    if list.len() == 0 {
        true
    } else {
        &&& sound(list[0])
        &&& list.len() > 1 && list[0] is Text ==> list[1] !is Text
        &&& sound_list(list.subrange(1, list.len() as int))
    }
}

/// The text of an attribute.
pub open spec fn spelled_attr(attr: AttrMark) -> Seq<char> {
    attr.lead + (attr.name + match attr.quoting {
        Quoting::Quoted(quote) => attr.before + (seq!['='] + (attr.behind + (seq![quote] + (attr.value
            + seq![quote])))),
        Quoting::Bare => attr.before + (seq!['='] + (attr.behind + attr.value)),
        Quoting::Absent => Seq::empty(),
    })
}

/// The text of attributes.
pub open spec fn spelled_attrs(attrs: Seq<AttrMark>) -> Seq<char>
    decreases attrs.len(),
{
    if attrs.len() == 0 {
        Seq::empty()
    } else {
        spelled_attr(attrs[0]) + spelled_attrs(attrs.subrange(1, attrs.len() as int))
    }
}

/// The closing tag, with the white space before it.
pub open spec fn spelled_close(tag: Seq<char>, last: Seq<char>, close: Seq<char>) -> Seq<char> {
    last + (seq!['<', '/'] + (tag + (close + seq!['>'])))
}

/// The text of a comment.
pub open spec fn spelled_comment(body: Seq<char>) -> Seq<char> {
    seq!['<', '!'] + (seq!['-', '-'] + body + seq!['-', '-'] + seq!['>'])
}

/// The text of a part of a document.
pub open spec fn spelled(mark: Mark) -> Seq<char>
    decreases mark,
{
    match mark {
        Mark::Text { lead, text } => lead + text,
        Mark::Comment { lead, body } => lead + spelled_comment(body),
        Mark::Element { lead, tag, attrs, tail, closed, items, last, close } => lead + (seq!['<'] + (tag + (
        spelled_attrs(attrs) + (tail + if closed {
            seq!['/', '>']
        } else {
            seq!['>'] + (spelled_list(items) + spelled_close(tag, last, close))
        })))),
    }
}

/// The text of parts, one behind the other.
pub open spec fn spelled_list(list: Seq<Mark>) -> Seq<char>
    decreases list,
{
    if list.len() == 0 {
        Seq::empty()
    } else {
        spelled(list[0]) + spelled_list(list.subrange(1, list.len() as int))
    }
}

/// Names and values of attributes.
pub open spec fn named_values(attrs: Seq<AttrMark>) -> Seq<(Seq<char>, Seq<char>)> {
    attrs.map_values(|a: AttrMark| (a.name, a.value))
}

/// The nodes that a part of a document stands for: one, or none for a comment.
pub open spec fn meant(mark: Mark) -> Seq<NodeView>
    decreases mark,
{
    match mark {
        Mark::Text { lead, text } => seq![
            NodeView { tag: "#text"@, key: None, attrs: seq![("text"@, text)], children: Seq::empty() },
        ],
        Mark::Comment { lead, body } => Seq::empty(),
        Mark::Element { lead, tag, attrs, tail, closed, items, last, close } => seq![
            NodeView {
                tag,
                key: last_key(named_values(attrs), attrs.len() as int),
                attrs: named_values(attrs),
                children: meant_list(items),
            },
        ],
    }
}

/// The nodes that parts stand for.
pub open spec fn meant_list(list: Seq<Mark>) -> Seq<NodeView>
    decreases list,
{
    if list.len() == 0 {
        Seq::empty()
    } else {
        meant(list[0]) + meant_list(list.subrange(1, list.len() as int))
    }
}

// ---------------------------------------------------------------------------------------------
// Reading the pieces.

proof fn white_is_skipped(s: Seq<char>, p: int, white: Seq<char>, k: int)
    requires
        holds(s, p, white),
        blank_text(white),
        0 <= k <= white.len(),
    ensures
        skip_white(s, p + k) == skip_white(s, p + white.len()),
    decreases white.len() - k,
{
    if k < white.len() {
        assert(white[k] == s[p + k]);
        white_is_skipped(s, p, white, k + 1);
    }
}

proof fn white_before(s: Seq<char>, p: int, white: Seq<char>)
    requires
        holds(s, p, white),
        blank_text(white),
        p + white.len() < s.len(),
        !white_space(s[p + white.len()]),
    ensures
        skip_white(s, p) == p + white.len(),
{
    white_is_skipped(s, p, white, 0);
}

proof fn skipping_twice(s: Seq<char>, i: int)
    requires
        0 <= i <= s.len(),
    ensures
        skip_white(s, skip_white(s, i)) == skip_white(s, i),
        i <= skip_white(s, i) <= s.len(),
    decreases s.len() - i,
{
    if i < s.len() && white_space(s[i]) {
        skipping_twice(s, i + 1);
    }
}

proof fn quoted_is_read(s: Seq<char>, p: int, value: Seq<char>, quote: char, k: int)
    requires
        holds(s, p, value),
        fits_quoting(value, Quoting::Quoted(quote)),
        0 <= k <= value.len(),
        p + value.len() < s.len(),
        s[p + value.len()] == quote,
    ensures
        quoted_end(s, p + k, quote) == p + value.len(),
    decreases value.len() - k,
{
    if k < value.len() {
        assert(value[k] == s[p + k]);
        quoted_is_read(s, p, value, quote, k + 1);
    }
}

proof fn bare_is_read(s: Seq<char>, p: int, value: Seq<char>, k: int)
    requires
        holds(s, p, value),
        fits_quoting(value, Quoting::Bare),
        0 <= k <= value.len(),
        p + value.len() < s.len(),
        white_space(s[p + value.len()]) || s[p + value.len()] == '>' || s[p + value.len()] == '/',
    ensures
        bare_end(s, p + k) == p + value.len(),
    decreases value.len() - k,
{
    if k < value.len() {
        assert(value[k] == s[p + k]);
        bare_is_read(s, p, value, k + 1);
    }
}

proof fn closing_is_read(s: Seq<char>, p: int, white: Seq<char>, k: int)
    requires
        holds(s, p, white),
        blank_text(white),
        0 <= k <= white.len(),
        p + white.len() < s.len(),
        s[p + white.len()] == '>',
    ensures
        after_char(s, p + k, '>') == p + white.len() + 1,
    decreases white.len() - k,
{
    if k < white.len() {
        assert(white[k] == s[p + k]);
        closing_is_read(s, p, white, k + 1);
    }
}

proof fn comment_is_read(s: Seq<char>, p: int, body: Seq<char>, k: int)
    requires
        holds(s, p, spelled_comment(body)),
        sound_comment(body),
        1 <= k <= body.len() + 6,
    ensures
        comment_end(s, p, p + k) == p + spelled_comment(body).len(),
    decreases body.len() + 6 - k,
{
    let t = spelled_comment(body);
    let inner = seq!['-', '-'] + body + seq!['-', '-'];
    assert(t.len() == body.len() + 7);
    assert(t[k] == s[p + k]);
    if k < body.len() + 6 {
        if k > 2 {
            let m = k - 4;
            assert(t[k - 1] == s[p + k - 1] && t[k - 2] == s[p + k - 2]);
            if m >= 0 {
                assert(t[k] == inner[m + 2] && t[k - 1] == inner[m + 1] && t[k - 2] == inner[m]);
                assert(0 <= m < body.len() + 1 || m == body.len() + 1);
                if m == body.len() + 1 {
                    assert(inner[m + 2] == '-');
                }
            } else {
                assert(t[3] == '-');
            }
        }
        comment_is_read(s, p, body, k + 1);
    } else {
        assert(t[k] == '>' && t[k - 1] == '-' && t[k - 2] == '-');
        assert(t[k - 1] == s[p + (k - 1)] && t[k - 2] == s[p + (k - 2)]);
    }
}

proof fn trimmed_back(s: Seq<char>, text: Seq<char>, hi: int)
    requires
        holds(s, 0, text),
        text.len() > 0,
        !white_space(text.last()),
        text.len() <= hi <= s.len(),
        forall|i: int| text.len() <= i < s.len() ==> white_space(#[trigger] s[i]),
    ensures
        trim_back(s, 0, hi) == text.len(),
    decreases hi,
{
    if hi > text.len() {
        assert(white_space(s[hi - 1]));
        trimmed_back(s, text, hi - 1);
    } else {
        assert(text[hi - 1] == s[0 + (hi - 1)]);
    }
}

proof fn text_before_white(text: Seq<char>, white: Seq<char>)
    requires
        fit_text(text),
        blank_text(white),
    ensures
        trimmed(text + white) == text,
{
    let s = text + white;
    trimmed_has_no_outer_white_space(text);
    assert(holds(s, 0, text)) by {
        assert forall|k: int| 0 <= k < text.len() implies #[trigger] text[k] == s[0 + k] by {
        }
    }
    assert(s[0] == text[0]);
    assert(skip_white(s, 0) == 0);
    assert forall|i: int| text.len() <= i < s.len() implies white_space(#[trigger] s[i]) by {
        assert(s[i] == white[i - text.len()]);
    }
    trimmed_back(s, text, s.len() as int);
    assert(s.subrange(0, text.len() as int) =~= text);
}

/// Whether a place is where attributes can end: white space, the end of the tag, or before it.
spec fn ends_attr(s: Seq<char>, p: int) -> bool {
    0 <= p < s.len() && (white_space(s[p]) || s[p] == '>' || s[p] == '/')
}

proof fn attributes_after_white(s: Seq<char>, i: int)
    requires
        0 <= i <= s.len(),
    ensures
        attributes(s, i) == attributes(s, skip_white(s, i)),
{
    skipping_twice(s, i);
}

#[verifier::spinoff_prover]
#[verifier::rlimit(40)]
proof fn attr_is_read(s: Seq<char>, p: int, attr: AttrMark)
    requires
        holds(s, p, spelled_attr(attr)),
        sound_attr(attr),
        ends_attr(s, p + spelled_attr(attr).len()),
        attr.quoting is Absent ==> {
            let next = skip_white(s, p + spelled_attr(attr).len());
            next < s.len() && s[next] != '='
        },
    ensures
        ({
            let at = p + attr.lead.len();
            let one = one_attr(s, at);
            let q = p + spelled_attr(attr).len();
            &&& skip_white(s, p) == at
            &&& at < s.len() && s[at] != '>' && s[at] != '/' && !white_space(s[at])
            &&& one.attr.key == attr.name
            &&& one.attr.value == attr.value
            &&& one.end == (if attr.quoting is Absent {
                skip_white(s, q)
            } else {
                q
            })
            &&& one.diagnostics == Seq::<DiagnosticView>::empty()
        }),
{
    let at = p + attr.lead.len();
    let rest = match attr.quoting {
        Quoting::Quoted(quote) => attr.before + (seq!['='] + (attr.behind + (seq![quote] + (attr.value
            + seq![quote])))),
        Quoting::Bare => attr.before + (seq!['='] + (attr.behind + attr.value)),
        Quoting::Absent => Seq::empty(),
    };
    both_parts(s, p, attr.lead, attr.name + rest);
    both_parts(s, at, attr.name, rest);
    assert(attr.name[0] == s[at + 0]);
    assert(!ends_name(attr.name[0]));
    white_before(s, p, attr.lead);
    let key_end = at + attr.name.len();
    let q = p + spelled_attr(attr).len();
    assert(q == key_end + rest.len());
    taken_out(s, at, attr.name);
    match attr.quoting {
        Quoting::Absent => {
            name_is_read(s, at, attr.name, 0);
            assert(one_attr(s, at).attr.value =~= attr.value);
        },
        Quoting::Bare => {
            let eq = key_end + attr.before.len();
            both_parts(s, key_end, attr.before, seq!['='] + (attr.behind + attr.value));
            both_parts(s, eq, seq!['='], attr.behind + attr.value);
            both_parts(s, eq + 1, attr.behind, attr.value);
            one_char(s, eq, '=');
            if attr.before.len() > 0 {
                assert(attr.before[0] == s[key_end + 0]);
            }
            name_is_read(s, at, attr.name, 0);
            white_before(s, key_end, attr.before);
            let from = eq + 1 + attr.behind.len();
            assert(attr.value[0] == s[from + 0]);
            white_before(s, eq + 1, attr.behind);
            bare_is_read(s, from, attr.value, 0);
            taken_out(s, from, attr.value);
        },
        Quoting::Quoted(quote) => {
            let eq = key_end + attr.before.len();
            let inner = attr.value + seq![quote];
            both_parts(s, key_end, attr.before, seq!['='] + (attr.behind + (seq![quote] + inner)));
            both_parts(s, eq, seq!['='], attr.behind + (seq![quote] + inner));
            both_parts(s, eq + 1, attr.behind, seq![quote] + inner);
            let from = eq + 1 + attr.behind.len();
            both_parts(s, from, seq![quote], inner);
            both_parts(s, from + 1, attr.value, seq![quote]);
            one_char(s, eq, '=');
            one_char(s, from, quote);
            one_char(s, from + 1 + attr.value.len(), quote);
            if attr.before.len() > 0 {
                assert(attr.before[0] == s[key_end + 0]);
            }
            name_is_read(s, at, attr.name, 0);
            white_before(s, key_end, attr.before);
            white_before(s, eq + 1, attr.behind);
            quoted_is_read(s, from + 1, attr.value, quote, 0);
            taken_out(s, from + 1, attr.value);
        },
    }
}

/// Attributes one behind the other, and then whatever comes at the place behind them.
#[verifier::spinoff_prover]
#[verifier::rlimit(40)]
proof fn attrs_come_first(s: Seq<char>, p: int, attrs: Seq<AttrMark>) -> (list: Seq<AttrView>)
    requires
        holds(s, p, spelled_attrs(attrs)),
        forall|i: int| 0 <= i < attrs.len() ==> sound_attr(#[trigger] attrs[i]),
        ({
            let q = p + spelled_attrs(attrs).len();
            let next = skip_white(s, q);
            &&& ends_attr(s, q)
            &&& q <= next < s.len()
            &&& s[next] != '='
        }),
    ensures
        are_read(list, named_values(attrs)),
        attributes(s, p).list == list + attributes(s, p + spelled_attrs(attrs).len()).list,
        attributes(s, p).end == attributes(s, p + spelled_attrs(attrs).len()).end,
        attributes(s, p).diagnostics == attributes(s, p + spelled_attrs(attrs).len()).diagnostics,
        ends_attr(s, p),
    decreases attrs.len(),
{
    let q = p + spelled_attrs(attrs).len();
    if attrs.len() == 0 {
        let none = Seq::<AttrView>::empty();
        assert(none + attributes(s, q).list =~= attributes(s, p).list);
        none
    } else {
        let first = attrs[0];
        let rest = attrs.subrange(1, attrs.len() as int);
        assert(sound_attr(first));
        both_parts(s, p, spelled_attr(first), spelled_attrs(rest));
        let next = p + spelled_attr(first).len();
        assert forall|i: int| 0 <= i < rest.len() implies sound_attr(#[trigger] rest[i]) by {
            assert(rest[i] == attrs[i + 1]);
        }
        let more = attrs_come_first(s, next, rest);
        if rest.len() > 0 {
            let second = rest[0];
            assert(sound_attr(second));
            both_parts(s, next, spelled_attr(second), spelled_attrs(rest.subrange(1, rest.len() as int)));
            let after = spelled_attr(second).subrange(
                second.lead.len() as int,
                spelled_attr(second).len() as int,
            );
            assert(spelled_attr(second) =~= second.lead + after);
            both_parts(s, next, second.lead, after);
            let at = next + second.lead.len();
            assert(after[0] == second.name[0]);
            assert(after[0] == s[at + 0]);
            assert(!ends_name(second.name[0]));
            white_before(s, next, second.lead);
        }
        attr_is_read(s, p, first);
        let at = p + first.lead.len();
        let one = one_attr(s, at);
        one_attr_advances(s, at);
        attributes_after_white(s, next);
        assert(attributes(s, one.end) == attributes(s, next));
        let others = attributes(s, next);
        let list = seq![one.attr] + more;
        let all = attributes(s, p);
        assert(all.list =~= list + attributes(s, q).list);
        assert forall|i: int| 0 <= i < list.len() implies (#[trigger] list[i]).key == named_values(attrs)[i].0
            && list[i].value == named_values(attrs)[i].1 by {
            if i > 0 {
                assert(list[i] == more[i - 1]);
                assert(named_values(rest)[i - 1] == named_values(attrs)[i]);
            }
        }
        assert(all.diagnostics =~= others.diagnostics);
        assert(first.lead[0] == s[p + 0]) by {
            let after = spelled_attr(first).subrange(first.lead.len() as int, spelled_attr(first).len() as int);
            assert(spelled_attr(first) =~= first.lead + after);
            both_parts(s, p, first.lead, after);
        }
        list
    }
}

proof fn attrs_are_read(s: Seq<char>, p: int, attrs: Seq<AttrMark>)
    requires
        holds(s, p, spelled_attrs(attrs)),
        forall|i: int| 0 <= i < attrs.len() ==> sound_attr(#[trigger] attrs[i]),
        ({
            let q = p + spelled_attrs(attrs).len();
            let end = skip_white(s, q);
            &&& ends_attr(s, q)
            &&& q <= end < s.len()
            &&& s[end] == '>' || s[end] == '/'
        }),
    ensures
        are_read(attributes(s, p).list, named_values(attrs)),
        attributes(s, p).end == skip_white(s, p + spelled_attrs(attrs).len()),
        attributes(s, p).diagnostics == Seq::<DiagnosticView>::empty(),
        ends_attr(s, p),
{
    let list = attrs_come_first(s, p, attrs);
    assert(attributes(s, p).list =~= list);
}

#[verifier::spinoff_prover]
#[verifier::rlimit(40)]
proof fn header_is_read(
    s: Seq<char>,
    i: int,
    tag: Seq<char>,
    attrs: Seq<AttrMark>,
    tail: Seq<char>,
    closed: bool,
)
    requires
        fit_name(tag),
        forall|k: int| 0 <= k < attrs.len() ==> sound_attr(#[trigger] attrs[k]),
        blank_text(tail),
        holds(
            s,
            i,
            seq!['<'] + (tag + (spelled_attrs(attrs) + (tail + if closed {
                seq!['/', '>']
            } else {
                seq!['>']
            }))),
        ),
    ensures
        ({
            let head = header(s, i);
            &&& head.name == tag
            &&& are_read(head.attrs, named_values(attrs))
            &&& head.closed == closed
            &&& head.end == i + 1 + tag.len() + spelled_attrs(attrs).len() + tail.len() + (if closed {
                2int
            } else {
                1
            })
            &&& head.diagnostics == Seq::<DiagnosticView>::empty()
        }),
{
    let end = if closed {
        seq!['/', '>']
    } else {
        seq!['>']
    };
    both_parts(s, i, seq!['<'], tag + (spelled_attrs(attrs) + (tail + end)));
    both_parts(s, i + 1, tag, spelled_attrs(attrs) + (tail + end));
    let to = i + 1 + tag.len();
    both_parts(s, to, spelled_attrs(attrs), tail + end);
    let q = to + spelled_attrs(attrs).len();
    both_parts(s, q, tail, end);
    let stop = q + tail.len();
    assert(end[0] == s[stop + 0]);
    if closed {
        assert(end[1] == s[stop + 1]);
    }
    if tail.len() > 0 {
        assert(tail[0] == s[q + 0]);
    }
    white_before(s, q, tail);
    attrs_are_read(s, to, attrs);
    name_is_read(s, i + 1, tag, 0);
    taken_out(s, i + 1, tag);
}

/// The white space before a part of a document.
spec fn lead_of(mark: Mark) -> Seq<char> {
    match mark {
        Mark::Text { lead, text } => lead,
        Mark::Comment { lead, body } => lead,
        Mark::Element { lead, .. } => lead,
    }
}

/// The text of a part of a document behind its white space.
spec fn core_of(mark: Mark) -> Seq<char> {
    match mark {
        Mark::Text { lead, text } => text,
        Mark::Comment { lead, body } => spelled_comment(body),
        Mark::Element { lead, tag, attrs, tail, closed, items, last, close } => seq!['<'] + (tag + (
        spelled_attrs(attrs) + (tail + if closed {
            seq!['/', '>']
        } else {
            seq!['>'] + (spelled_list(items) + spelled_close(tag, last, close))
        }))),
    }
}

#[verifier::spinoff_prover]
#[verifier::rlimit(40)]
proof fn core_begins(mark: Mark)
    requires
        sound(mark),
    ensures
        spelled(mark) == lead_of(mark) + core_of(mark),
        blank_text(lead_of(mark)),
        core_of(mark).len() > 0,
        !white_space(core_of(mark)[0]),
        mark is Text <==> core_of(mark)[0] != '<',
        mark is Comment ==> core_of(mark).len() > 3 && core_of(mark)[1] == '!' && core_of(mark)[2] == '-',
        mark is Element ==> {
            let core = core_of(mark);
            &&& core.len() > 2
            &&& core[1] != '/'
            &&& !(core[1] == '!' && core[2] == '-')
        },
{
    let core = core_of(mark);
    match mark {
        Mark::Text { lead, text } => {
            trimmed_has_no_outer_white_space(text);
        },
        Mark::Comment { lead, body } => {},
        Mark::Element { lead, tag, attrs, tail, closed, items, last, close } => {
            let end = if closed {
                seq!['/', '>']
            } else {
                seq!['>'] + (spelled_list(items) + spelled_close(tag, last, close))
            };
            assert(core == seq!['<'] + (tag + (spelled_attrs(attrs) + (tail + end))));
            assert(core[1] == tag[0]);
            assert(!ends_name(tag[0]));
            if tag.len() >= 2 {
                assert(core[2] == tag[1]);
            } else if attrs.len() > 0 {
                assert(sound_attr(attrs[0]));
                assert(spelled_attrs(attrs)[0] == attrs[0].lead[0]);
                assert(core[2] == spelled_attrs(attrs)[0]);
                assert(white_space(attrs[0].lead[0]));
            } else {
                assert(spelled_attrs(attrs).len() == 0);
                if tail.len() > 0 {
                    assert(core[2] == tail[0]);
                } else {
                    assert(core[2] == end[0]);
                }
            }
        },
    }
}

proof fn children_after_white(s: Seq<char>, j: int, name: Seq<char>, open: int)
    requires
        0 <= j <= s.len(),
    ensures
        children(s, j, name, open) == children(s, skip_white(s, j), name, open),
{
    skipping_twice(s, j);
}

#[verifier::spinoff_prover]
#[verifier::rlimit(40)]
proof fn element_is_read(s: Seq<char>, i: int, mark: Mark)
    requires
        sound(mark),
        mark is Element,
        holds(s, i, core_of(mark)),
    ensures
        i < s.len(),
        element(s, i) == (Element {
            node: meant(mark)[0],
            end: i + core_of(mark).len(),
            diagnostics: Seq::empty(),
        }),
        meant(mark).len() == 1,
    decreases s.len() - i, 0int,
{
    if let Mark::Element { lead, tag, attrs, tail, closed, items, last, close } = mark {
        let inside = spelled_list(items) + spelled_close(tag, last, close);
        let stop = if closed {
            seq!['/', '>']
        } else {
            seq!['>']
        };
        let open = seq!['<'] + (tag + (spelled_attrs(attrs) + (tail + stop)));
        if closed {
            assert(core_of(mark) == open);
        } else {
            assert(core_of(mark) =~= open + inside);
            both_parts(s, i, open, inside);
        }
        header_is_read(s, i, tag, attrs, tail, closed);
        let head = header(s, i);
        let pairs = named_values(attrs);
        assert forall|k: int| 0 <= k < pairs.len() implies numbers_fit(#[trigger] pairs[k]) by {
            assert(sound_attr(attrs[k]));
        }
        no_warnings(head.attrs, pairs, head.attrs.len() as int);
        assert(sound_list(items));
        if closed {
            assert(items.len() == 0);
            assert(meant_list(items) =~= Seq::<NodeView>::empty());
            let made = built(head.name, head.attrs, Seq::empty());
            assert(made.attrs =~= pairs);
            assert(element(s, i).node =~= meant(mark)[0]);
        } else {
            children_are_read(s, head.end, tag, i + 1, items, last, tag, close);
            let inner = children(s, head.end, head.name, i + 1);
            let made = built(head.name, head.attrs, inner.nodes);
            assert(made.attrs =~= pairs);
            assert(element(s, i).node =~= meant(mark)[0]);
        }
        assert(element(s, i).diagnostics =~= Seq::<DiagnosticView>::empty());
    }
}

#[verifier::spinoff_prover]
#[verifier::rlimit(40)]
proof fn children_are_read(
    s: Seq<char>,
    j: int,
    name: Seq<char>,
    open: int,
    list: Seq<Mark>,
    last: Seq<char>,
    closer: Seq<char>,
    close: Seq<char>,
)
    requires
        sound_list(list),
        fit_name(closer),
        blank_text(last),
        blank_text(close),
        holds(s, j, spelled_list(list) + spelled_close(closer, last, close)),
    ensures
        children(s, j, name, open) == (Children {
            nodes: meant_list(list),
            end: j + spelled_list(list).len() + spelled_close(closer, last, close).len(),
            diagnostics: if closer == name {
                Seq::empty()
            } else {
                seq![mismatched(s, j + spelled_list(list).len() + last.len(), closer, name)]
            },
        }),
    decreases s.len() - j, 1int,
{
    let closing = spelled_close(closer, last, close);
    both_parts(s, j, spelled_list(list), closing);
    if list.len() == 0 {
        let k = j + last.len();
        both_parts(s, j, last, seq!['<', '/'] + (closer + (close + seq!['>'])));
        both_parts(s, k, seq!['<', '/'], closer + (close + seq!['>']));
        both_parts(s, k + 2, closer, close + seq!['>']);
        let to = k + 2 + closer.len();
        both_parts(s, to, close, seq!['>']);
        assert(seq!['<', '/'][0] == s[k + 0]);
        assert(seq!['<', '/'][1] == s[k + 1]);
        white_before(s, j, last);
        one_char(s, to + close.len(), '>');
        if close.len() > 0 {
            assert(close[0] == s[to + 0]);
        }
        name_is_read(s, k + 2, closer, 0);
        taken_out(s, k + 2, closer);
        closing_is_read(s, to, close, 0);
        assert(children(s, j, name, open).nodes =~= meant_list(list));
    } else {
        let first = list[0];
        let rest = list.subrange(1, list.len() as int);
        assert(sound(first) && sound_list(rest));
        let tail = spelled_list(rest) + closing;
        assert(spelled_list(list) + closing =~= spelled(first) + tail);
        both_parts(s, j, spelled(first), tail);
        core_begins(first);
        let core = core_of(first);
        both_parts(s, j, lead_of(first), core);
        let k = j + lead_of(first).len();
        let next = k + core.len();
        assert(next == j + spelled(first).len());
        assert(core[0] == s[k + 0]);
        white_before(s, j, lead_of(first));
        children_are_read(s, next, name, open, rest, last, closer, close);
        match first {
            Mark::Text { lead, text } => {
                let white = next_white(rest, last);
                white_follows(s, next, rest, closer, last, close);
                let run = text + white;
                assert(holds(s, k, run)) by {
                    assert forall|m: int| 0 <= m < run.len() implies #[trigger] run[m] == s[k + m] by {
                        if m < text.len() {
                            assert(run[m] == text[m]);
                        } else {
                            assert(run[m] == white[m - text.len()]);
                            assert(white[m - text.len()] == s[next + (m - text.len())]);
                        }
                    }
                }
                assert forall|m: int| 0 <= m < run.len() implies run[m] != '<' by {
                    if m >= text.len() {
                        assert(white_space(white[m - text.len()]));
                    }
                }
                text_is_read(s, k, run, 0);
                taken_out(s, k, run);
                text_before_white(text, white);
                white_is_skipped(s, next, white, 0);
                let to = next + white.len();
                assert(skip_white(s, to) == to);
                children_after_white(s, next, name, open);
                assert(children(s, to, name, open) == children(s, next, name, open));
                assert(meant(first) =~= seq![text_node(text)]);
            },
            Mark::Comment { lead, body } => {
                assert(core[1] == s[k + 1] && core[2] == s[k + 2]);
                comment_is_read(s, k, body, 1);
                assert(meant(first) =~= Seq::<NodeView>::empty());
                assert(meant_list(list) =~= meant_list(rest));
            },
            Mark::Element { .. } => {
                assert(core[1] == s[k + 1] && core[2] == s[k + 2]);
                element_is_read(s, k, first);
                assert(meant(first) =~= seq![meant(first)[0]]);
                assert(children(s, j, name, open).diagnostics =~= children(s, next, name, open).diagnostics);
            },
        }
    }
}

/// The white space that follows a text: that before the next part, or before the closing tag.
spec fn next_white(rest: Seq<Mark>, last: Seq<char>) -> Seq<char> {
    if rest.len() == 0 {
        last
    } else {
        lead_of(rest[0])
    }
}

proof fn white_follows(s: Seq<char>, p: int, rest: Seq<Mark>, name: Seq<char>, last: Seq<char>, close: Seq<char>)
    requires
        sound_list(rest),
        rest.len() > 0 ==> rest[0] !is Text,
        blank_text(last),
        holds(s, p, spelled_list(rest) + spelled_close(name, last, close)),
    ensures
        ({
            let white = next_white(rest, last);
            &&& blank_text(white)
            &&& holds(s, p, white)
            &&& p + white.len() < s.len()
            &&& s[p + white.len()] == '<'
        }),
{
    both_parts(s, p, spelled_list(rest), spelled_close(name, last, close));
    if rest.len() == 0 {
        let after = seq!['<', '/'] + (name + (close + seq!['>']));
        both_parts(s, p, last, after);
        assert(after[0] == '<');
        assert(after[0] == s[p + last.len() + 0]);
    } else {
        let first = rest[0];
        assert(sound(first));
        core_begins(first);
        both_parts(s, p, spelled(first), spelled_list(rest.subrange(1, rest.len() as int)));
        both_parts(s, p, lead_of(first), core_of(first));
        assert(core_of(first)[0] == s[p + lead_of(first).len() + 0]);
    }
}

/// What stands before the root: comments, each behind some text that does not count.
pub open spec fn spelled_prologue(prologue: Seq<(Seq<char>, Seq<char>)>) -> Seq<char>
    decreases prologue.len(),
{
    if prologue.len() == 0 {
        Seq::empty()
    } else {
        prologue[0].0 + (spelled_comment(prologue[0].1) + spelled_prologue(
            prologue.subrange(1, prologue.len() as int),
        ))
    }
}

/// Whether there is no tag in a text.
pub open spec fn without_tags(text: Seq<char>) -> bool {
    forall|i: int| 0 <= i < text.len() ==> text[i] != '<'
}

/// Whether what stands before the root is sound.
pub open spec fn sound_prologue(prologue: Seq<(Seq<char>, Seq<char>)>) -> bool {
    forall|i: int|
        0 <= i < prologue.len() ==> without_tags((#[trigger] prologue[i]).0) && sound_comment(prologue[i].1)
}

proof fn prologue_is_read(s: Seq<char>, p: int, prologue: Seq<(Seq<char>, Seq<char>)>)
    requires
        holds(s, p, spelled_prologue(prologue)),
        sound_prologue(prologue),
    ensures
        root_at(s, p) == root_at(s, p + spelled_prologue(prologue).len()),
    decreases prologue.len(),
{
    if prologue.len() > 0 {
        let (text, body) = prologue[0];
        let rest = prologue.subrange(1, prologue.len() as int);
        both_parts(s, p, text, spelled_comment(body) + spelled_prologue(rest));
        let at = p + text.len();
        both_parts(s, at, spelled_comment(body), spelled_prologue(rest));
        let t = spelled_comment(body);
        assert(t[0] == s[at + 0] && t[1] == s[at + 1] && t[2] == s[at + 2]);
        text_is_read(s, p, text, 0);
        comment_is_read(s, at, body, 1);
        assert(sound_prologue(rest)) by {
            assert forall|i: int| 0 <= i < rest.len() implies without_tags((#[trigger] rest[i]).0)
                && sound_comment(rest[i].1) by {
                assert(rest[i] == prologue[i + 1]);
            }
        }
        prologue_is_read(s, at + t.len(), rest);
    }
}

/// A document is read as what it means, in whichever of these ways it is written, and there is nothing to
/// say about it. Text without tags and comments may stand before the root, and anything behind it.
#[verifier::spinoff_prover]
#[verifier::rlimit(40)]
pub proof fn a_document_is_read_as_it_is_meant(
    prologue: Seq<(Seq<char>, Seq<char>)>,
    before: Seq<char>,
    root: Mark,
    behind: Seq<char>,
)
    requires
        sound_prologue(prologue),
        without_tags(before),
        root is Element,
        sound(root),
    ensures
        parsed(spelled_prologue(prologue) + (before + (spelled(root) + behind))) == (
            meant(root)[0],
            Seq::<DiagnosticView>::empty(),
        ),
{
    let s = spelled_prologue(prologue) + (before + (spelled(root) + behind));
    assert(holds(s, 0, s));
    both_parts(s, 0, spelled_prologue(prologue), before + (spelled(root) + behind));
    let p = spelled_prologue(prologue).len() as int;
    both_parts(s, p, before, spelled(root) + behind);
    both_parts(s, p + before.len(), spelled(root), behind);
    core_begins(root);
    both_parts(s, p + before.len(), lead_of(root), core_of(root));
    let core = core_of(root);
    let at = p + before.len() + lead_of(root).len();
    assert(core[0] == s[at + 0] && core[1] == s[at + 1] && core[2] == s[at + 2]);
    prologue_is_read(s, 0, prologue);
    let run = before + lead_of(root);
    assert(holds(s, p, run)) by {
        assert forall|m: int| 0 <= m < run.len() implies #[trigger] run[m] == s[p + m] by {
            if m < before.len() {
                assert(run[m] == before[m]);
            } else {
                let l = lead_of(root);
                assert(run[m] == l[m - before.len()]);
                assert(l[m - before.len()] == s[p + before.len() + (m - before.len())]);
            }
        }
    }
    assert forall|m: int| 0 <= m < run.len() implies run[m] != '<' by {
        if m >= before.len() {
            assert(white_space(lead_of(root)[m - before.len()]));
        }
    }
    text_is_read(s, p, run, 0);
    assert(root_at(s, p) == at);
    element_is_read(s, at, root);
}

/// An element without children means the same whether its tag closes itself or a closing tag follows.
#[verifier::spinoff_prover]
#[verifier::rlimit(40)]
pub proof fn a_tag_may_close_itself(
    lead: Seq<char>,
    tag: Seq<char>,
    attrs: Seq<AttrMark>,
    tail: Seq<char>,
    last: Seq<char>,
    close: Seq<char>,
    behind: Seq<char>,
)
    requires
        blank_text(lead) && blank_text(tail) && blank_text(last) && blank_text(close),
        fit_name(tag),
        !(tag.len() >= 2 && tag[0] == '!' && tag[1] == '-'),
        forall|i: int| 0 <= i < attrs.len() ==> sound_attr(#[trigger] attrs[i]),
    ensures
        ({
            let open = |stop: Seq<char>| lead + (seq!['<'] + (tag + (spelled_attrs(attrs) + (tail + stop))));
            let by_itself = open(seq!['/', '>']) + behind;
            let by_a_tag = open(seq!['>'] + (last + (seq!['<', '/'] + (tag + (close + seq!['>']))))) + behind;
            parsed(by_itself) == parsed(by_a_tag)
        }),
{
    let items = Seq::<Mark>::empty();
    let one = Mark::Element { lead, tag, attrs, tail, closed: true, items, last, close };
    let two = Mark::Element { lead, tag, attrs, tail, closed: false, items, last, close };
    let none = Seq::<(Seq<char>, Seq<char>)>::empty();
    assert(sound_list(items));
    assert(sound(one) && sound(two));
    a_document_is_read_as_it_is_meant(none, Seq::empty(), one, behind);
    a_document_is_read_as_it_is_meant(none, Seq::empty(), two, behind);
    let closing = spelled_close(tag, last, close);
    assert(spelled_list(items) + closing =~= closing);
    assert(spelled_prologue(none) + (Seq::<char>::empty() + (spelled(one) + behind)) =~= spelled(one) + behind);
    assert(spelled_prologue(none) + (Seq::<char>::empty() + (spelled(two) + behind)) =~= spelled(two) + behind);
    assert(meant(one) == meant(two));
}

// ---------------------------------------------------------------------------------------------
// Faulty documents.

/// The text of an opening tag.
pub open spec fn spelled_open(tag: Seq<char>, attrs: Seq<AttrMark>, tail: Seq<char>) -> Seq<char> {
    seq!['<'] + (tag + (spelled_attrs(attrs) + (tail + seq!['>'])))
}

/// The node of an element with these children.
pub open spec fn meant_element(tag: Seq<char>, attrs: Seq<AttrMark>, items: Seq<Mark>) -> NodeView {
    NodeView {
        tag,
        key: last_key(named_values(attrs), attrs.len() as int),
        attrs: named_values(attrs),
        children: meant_list(items),
    }
}

/// Whether an opening tag is written soundly.
pub open spec fn sound_open(tag: Seq<char>, attrs: Seq<AttrMark>, tail: Seq<char>) -> bool {
    &&& fit_name(tag)
    &&& !(tag.len() >= 2 && tag[0] == '!' && tag[1] == '-')
    &&& blank_text(tail)
    &&& forall|i: int| 0 <= i < attrs.len() ==> sound_attr(#[trigger] attrs[i])
}

#[verifier::spinoff_prover]
#[verifier::rlimit(40)]
proof fn opened_element(s: Seq<char>, i: int, tag: Seq<char>, attrs: Seq<AttrMark>, tail: Seq<char>)
    requires
        sound_open(tag, attrs, tail),
        holds(s, i, spelled_open(tag, attrs, tail)),
    ensures
        ({
            let inner = children(s, i + spelled_open(tag, attrs, tail).len(), tag, i + 1);
            element(s, i) == (Element {
                node: NodeView {
                    tag,
                    key: last_key(named_values(attrs), attrs.len() as int),
                    attrs: named_values(attrs),
                    children: inner.nodes,
                },
                end: inner.end,
                diagnostics: inner.diagnostics,
            })
        }),
{
    header_is_read(s, i, tag, attrs, tail, false);
    let head = header(s, i);
    let pairs = named_values(attrs);
    assert forall|k: int| 0 <= k < pairs.len() implies numbers_fit(#[trigger] pairs[k]) by {
        assert(sound_attr(attrs[k]));
    }
    no_warnings(head.attrs, pairs, head.attrs.len() as int);
    assert(spelled_open(tag, attrs, tail).len() == tag.len() + spelled_attrs(attrs).len() + tail.len() + 2);
    let inner = children(s, head.end, head.name, i + 1);
    let made = built(head.name, head.attrs, inner.nodes);
    assert(made.attrs =~= pairs);
    assert(element(s, i).diagnostics =~= inner.diagnostics);
}

#[verifier::spinoff_prover]
#[verifier::rlimit(40)]
proof fn root_after_text(s: Seq<char>, before: Seq<char>, tag: Seq<char>, attrs: Seq<AttrMark>, tail: Seq<char>)
    requires
        without_tags(before),
        sound_open(tag, attrs, tail),
        holds(s, 0, before),
        holds(s, before.len() as int, spelled_open(tag, attrs, tail)),
        before.len() + spelled_open(tag, attrs, tail).len() <= s.len(),
    ensures
        root_at(s, 0) == before.len(),
        parsed(s) == (element(s, before.len() as int).node, element(s, before.len() as int).diagnostics),
{
    let at = before.len() as int;
    let open = spelled_open(tag, attrs, tail);
    let bare = Mark::Element {
        lead: Seq::empty(),
        tag,
        attrs,
        tail,
        closed: false,
        items: Seq::empty(),
        last: Seq::empty(),
        close: Seq::empty(),
    };
    assert(sound_list(Seq::<Mark>::empty()));
    assert(sound(bare));
    core_begins(bare);
    let core = core_of(bare);
    assert(open.len() > 2);
    assert(core[0] == open[0] && core[1] == open[1]);
    assert(core[2] == open[2]) by {
        let stop = seq!['>'] + (spelled_list(Seq::<Mark>::empty()) + spelled_close(
            tag,
            Seq::empty(),
            Seq::empty(),
        ));
        let begin = seq!['<'] + (tag + (spelled_attrs(attrs) + tail));
        assert(open =~= begin + seq!['>']);
        assert(core =~= begin + stop);
        assert(stop[0] == '>');
    }
    assert(open[0] == s[at + 0] && open[1] == s[at + 1] && open[2] == s[at + 2]);
    text_is_read(s, 0, before, 0);
}

/// A closing tag of another name closes the element all the same, and is reported once, where it begins; the
/// tree is the one that was meant.
#[verifier::spinoff_prover]
#[verifier::rlimit(40)]
pub proof fn a_wrong_closing_tag_is_reported(
    before: Seq<char>,
    tag: Seq<char>,
    attrs: Seq<AttrMark>,
    tail: Seq<char>,
    items: Seq<Mark>,
    last: Seq<char>,
    closer: Seq<char>,
    close: Seq<char>,
    behind: Seq<char>,
)
    requires
        without_tags(before),
        sound_open(tag, attrs, tail),
        sound_list(items),
        blank_text(last) && blank_text(close),
        fit_name(closer),
        closer != tag,
    ensures
        ({
            let open = before + (spelled_open(tag, attrs, tail) + (spelled_list(items) + last));
            let s = open + (seq!['<', '/'] + (closer + (close + seq!['>']))) + behind;
            let (node, said) = parsed(s);
            &&& node == meant_element(tag, attrs, items)
            &&& said.len() == 1
            &&& said[0].severity == DiagnosticSeverity::Error
            &&& said[0].line == line_at(s, open.len() as int)
            &&& said[0].column == column_at(s, open.len() as int)
            &&& said[0].length == closer.len() + 2
        }),
{
    let start = spelled_open(tag, attrs, tail);
    let open = before + (start + (spelled_list(items) + last));
    let s = open + (seq!['<', '/'] + (closer + (close + seq!['>']))) + behind;
    let inside = spelled_list(items) + spelled_close(closer, last, close);
    assert(s =~= before + (start + (inside + behind)));
    assert(holds(s, 0, s));
    both_parts(s, 0, before, start + (inside + behind));
    let at = before.len() as int;
    both_parts(s, at, start, inside + behind);
    both_parts(s, at + start.len(), inside, behind);
    root_after_text(s, before, tag, attrs, tail);
    opened_element(s, at, tag, attrs, tail);
    children_are_read(s, at + start.len(), tag, at + 1, items, last, closer, close);
    assert(at + start.len() + spelled_list(items).len() + last.len() == open.len());
    assert(closer.len() > 0);
}

proof fn text_to_the_end(s: Seq<char>, p: int)
    requires
        0 <= p <= s.len(),
        forall|i: int| p <= i < s.len() ==> #[trigger] s[i] != '<',
    ensures
        next_char(s, p, '<') == s.len(),
    decreases s.len() - p,
{
    if p < s.len() {
        assert(s[p] != '<');
        text_to_the_end(s, p + 1);
    }
}

#[verifier::spinoff_prover]
#[verifier::rlimit(40)]
proof fn children_run_out(s: Seq<char>, j: int, name: Seq<char>, open: int, list: Seq<Mark>, last: Seq<char>)
    requires
        sound_list(list),
        blank_text(last),
        holds(s, j, spelled_list(list) + last),
        j + spelled_list(list).len() + last.len() == s.len(),
    ensures
        children(s, j, name, open) == (Children {
            nodes: meant_list(list),
            end: s.len() as int,
            diagnostics: seq![unclosed(s, open, name)],
        }),
    decreases s.len() - j, list.len(),
{
    both_parts(s, j, spelled_list(list), last);
    if list.len() == 0 {
        white_is_skipped(s, j, last, 0);
        assert(skip_white(s, j) == s.len());
        assert(children(s, j, name, open).nodes =~= meant_list(list));
    } else {
        let first = list[0];
        let rest = list.subrange(1, list.len() as int);
        assert(sound(first) && sound_list(rest));
        assert(spelled_list(list) + last =~= spelled(first) + (spelled_list(rest) + last));
        both_parts(s, j, spelled(first), spelled_list(rest) + last);
        core_begins(first);
        let core = core_of(first);
        both_parts(s, j, lead_of(first), core);
        let k = j + lead_of(first).len();
        let next = k + core.len();
        assert(core[0] == s[k + 0]);
        white_before(s, j, lead_of(first));
        children_run_out(s, next, name, open, rest, last);
        match first {
            Mark::Text { lead, text } => {
                assert(meant(first) =~= seq![text_node(text)]);
                let white = next_white(rest, last);
                let run = text + white;
                both_parts(s, next, spelled_list(rest), last);
                if rest.len() > 0 {
                    assert(rest[0] == list[1]);
                    assert(sound(rest[0]));
                    core_begins(rest[0]);
                    let others = rest.subrange(1, rest.len() as int);
                    both_parts(s, next, spelled(rest[0]), spelled_list(others));
                    both_parts(s, next, lead_of(rest[0]), core_of(rest[0]));
                    assert(core_of(rest[0])[0] == s[next + white.len() + 0]);
                } else {
                    assert(spelled_list(rest).len() == 0);
                }
                assert(holds(s, next, white));
                assert(holds(s, k, run)) by {
                    assert forall|m: int| 0 <= m < run.len() implies #[trigger] run[m] == s[k + m] by {
                        if m < text.len() {
                            assert(run[m] == text[m]);
                        } else {
                            assert(run[m] == white[m - text.len()]);
                            assert(white[m - text.len()] == s[next + (m - text.len())]);
                        }
                    }
                }
                assert forall|m: int| 0 <= m < run.len() implies run[m] != '<' by {
                    if m >= text.len() {
                        assert(white_space(white[m - text.len()]));
                    }
                }
                let to = next + white.len();
                if rest.len() > 0 {
                    text_is_read(s, k, run, 0);
                } else {
                    assert forall|m: int| k <= m < s.len() implies #[trigger] s[m] != '<' by {
                        assert(run[m - k] == s[k + (m - k)]);
                    }
                    text_to_the_end(s, k);
                }
                assert(next_char(s, k, '<') == to);
                taken_out(s, k, run);
                text_before_white(text, white);
                white_is_skipped(s, next, white, 0);
                assert(skip_white(s, to) == to);
                children_after_white(s, next, name, open);
                assert(children(s, to, name, open) == children(s, next, name, open));
            },
            Mark::Comment { lead, body } => {
                assert(core[1] == s[k + 1] && core[2] == s[k + 2]);
                comment_is_read(s, k, body, 1);
                assert(meant(first) =~= Seq::<NodeView>::empty());
                assert(meant_list(list) =~= meant_list(rest));
            },
            Mark::Element { .. } => {
                assert(core[1] == s[k + 1] && core[2] == s[k + 2]);
                element_is_read(s, k, first);
                assert(meant(first) =~= seq![meant(first)[0]]);
                assert(children(s, j, name, open).diagnostics =~= children(s, next, name, open).diagnostics);
            },
        }
    }
}

/// An element that is not closed ends with the document, and is reported once, at its name; the tree is the one
/// that was meant.
#[verifier::spinoff_prover]
#[verifier::rlimit(40)]
pub proof fn an_unclosed_element_is_reported(
    before: Seq<char>,
    tag: Seq<char>,
    attrs: Seq<AttrMark>,
    tail: Seq<char>,
    items: Seq<Mark>,
    last: Seq<char>,
)
    requires
        without_tags(before),
        sound_open(tag, attrs, tail),
        sound_list(items),
        blank_text(last),
    ensures
        ({
            let s = before + (spelled_open(tag, attrs, tail) + (spelled_list(items) + last));
            let (node, said) = parsed(s);
            &&& node == meant_element(tag, attrs, items)
            &&& said.len() == 1
            &&& said[0].severity == DiagnosticSeverity::Error
            &&& said[0].line == line_at(s, (before.len() + 1) as int)
            &&& said[0].column == column_at(s, (before.len() + 1) as int)
            &&& said[0].length == tag.len()
        }),
{
    let start = spelled_open(tag, attrs, tail);
    let inside = spelled_list(items) + last;
    let s = before + (start + inside);
    assert(holds(s, 0, s));
    both_parts(s, 0, before, start + inside);
    let at = before.len() as int;
    both_parts(s, at, start, inside);
    root_after_text(s, before, tag, attrs, tail);
    opened_element(s, at, tag, attrs, tail);
    children_run_out(s, at + start.len(), tag, at + 1, items, last);
}

/// A closing tag where the root should begin yields a blank node, and is reported once, at its slash.
pub proof fn a_stray_closing_tag_is_reported(before: Seq<char>, behind: Seq<char>)
    requires
        without_tags(before),
    ensures
        ({
            let s = before + (seq!['<', '/'] + behind);
            let (node, said) = parsed(s);
            &&& node.tag.len() == 0 && node.key is None && node.attrs.len() == 0 && node.children.len() == 0
            &&& said.len() == 1
            &&& said[0].severity == DiagnosticSeverity::Error
            &&& said[0].line == line_at(s, (before.len() + 1) as int)
            &&& said[0].column == column_at(s, (before.len() + 1) as int)
        }),
{
    let s = before + (seq!['<', '/'] + behind);
    assert(holds(s, 0, s));
    both_parts(s, 0, before, seq!['<', '/'] + behind);
    let at = before.len() as int;
    both_parts(s, at, seq!['<', '/'], behind);
    assert(seq!['<', '/'][0] == s[at + 0]);
    assert(seq!['<', '/'][1] == s[at + 1]);
    text_is_read(s, 0, before, 0);
}

/// The text of an attribute whose quote is not closed.
pub open spec fn spelled_unclosed(attr: AttrMark, quote: char) -> Seq<char> {
    attr.lead + (attr.name + (attr.before + (seq!['='] + (attr.behind + (seq![quote] + attr.value)))))
}

#[verifier::spinoff_prover]
#[verifier::rlimit(40)]
proof fn open_quote_is_read(s: Seq<char>, p: int, attr: AttrMark, quote: char)
    requires
        sound_attr(attr),
        attr.quoting == Quoting::Quoted(quote),
        holds(s, p, spelled_unclosed(attr, quote)),
        p + spelled_unclosed(attr, quote).len() < s.len(),
        s[p + spelled_unclosed(attr, quote).len()] == '>',
    ensures
        ({
            let q = p + spelled_unclosed(attr, quote).len();
            let at = q - attr.value.len() - 1;
            let all = attributes(s, p);
            &&& all.list.len() == 1
            &&& all.list[0].key == attr.name && all.list[0].value == attr.value
            &&& all.end == q
            &&& all.diagnostics == seq![open_quote(s, at, attr.name)]
            &&& ends_attr(s, p)
            &&& skip_white(s, p) < s.len() && s[skip_white(s, p)] != '='
        }),
{
    let at = p + attr.lead.len();
    let tail = seq![quote] + attr.value;
    both_parts(s, p, attr.lead, attr.name + (attr.before + (seq!['='] + (attr.behind + tail))));
    both_parts(s, at, attr.name, attr.before + (seq!['='] + (attr.behind + tail)));
    let key_end = at + attr.name.len();
    both_parts(s, key_end, attr.before, seq!['='] + (attr.behind + tail));
    let eq = key_end + attr.before.len();
    both_parts(s, eq, seq!['='], attr.behind + tail);
    both_parts(s, eq + 1, attr.behind, tail);
    let from = eq + 1 + attr.behind.len();
    both_parts(s, from, seq![quote], attr.value);
    let q = from + 1 + attr.value.len();
    assert(q == p + spelled_unclosed(attr, quote).len());
    assert(attr.name[0] == s[at + 0]);
    assert(!ends_name(attr.name[0]));
    white_before(s, p, attr.lead);
    assert(attr.lead[0] == s[p + 0]);
    one_char(s, eq, '=');
    one_char(s, from, quote);
    if attr.before.len() > 0 {
        assert(attr.before[0] == s[key_end + 0]);
    }
    name_is_read(s, at, attr.name, 0);
    taken_out(s, at, attr.name);
    white_before(s, key_end, attr.before);
    white_before(s, eq + 1, attr.behind);
    quote_runs_out(s, from + 1, attr.value, quote, 0);
    taken_out(s, from + 1, attr.value);
    let one = one_attr(s, at);
    assert(one.end == q);
    one_attr_advances(s, at);
    assert(skip_white(s, q) == q);
    let rest = attributes(s, q);
    assert(rest.list =~= Seq::<AttrView>::empty() && rest.end == q);
    assert(attributes(s, p).list =~= seq![one.attr]);
    assert(attributes(s, p).diagnostics =~= seq![open_quote(s, from, attr.name)]);
}

proof fn quote_runs_out(s: Seq<char>, p: int, value: Seq<char>, quote: char, k: int)
    requires
        holds(s, p, value),
        fits_quoting(value, Quoting::Quoted(quote)),
        0 <= k <= value.len(),
        p + value.len() < s.len(),
        s[p + value.len()] == '>',
    ensures
        quoted_end(s, p + k, quote) == p + value.len(),
    decreases value.len() - k,
{
    if k < value.len() {
        assert(value[k] == s[p + k]);
        quote_runs_out(s, p, value, quote, k + 1);
    }
}

#[verifier::spinoff_prover]
#[verifier::rlimit(40)]
proof fn quote_in_a_header(s: Seq<char>, i: int, tag: Seq<char>, attrs: Seq<AttrMark>, bad: AttrMark, quote: char)
    requires
        sound_open(tag, attrs, Seq::empty()),
        sound_attr(bad),
        bad.quoting == Quoting::Quoted(quote),
        holds(s, i, seq!['<'] + (tag + (spelled_attrs(attrs) + spelled_unclosed(bad, quote)))),
        ({
            let end = i + 1 + tag.len() + spelled_attrs(attrs).len() + spelled_unclosed(bad, quote).len();
            end < s.len() && s[end] == '>'
        }),
    ensures
        ({
            let end = i + 1 + tag.len() + spelled_attrs(attrs).len() + spelled_unclosed(bad, quote).len();
            let head = header(s, i);
            &&& head.name == tag
            &&& !head.closed
            &&& head.end == end + 1
            &&& head.diagnostics == seq![open_quote(s, end - bad.value.len() - 1, bad.name)]
            &&& are_read(head.attrs, named_values(attrs.push(bad)))
            &&& s[i] == '<' && s[i + 1] == tag[0]
            &&& !comment_at(s, i)
        }),
{
    let wrong = spelled_unclosed(bad, quote);
    both_parts(s, i, seq!['<'], tag + (spelled_attrs(attrs) + wrong));
    both_parts(s, i + 1, tag, spelled_attrs(attrs) + wrong);
    let to = i + 1 + tag.len();
    both_parts(s, to, spelled_attrs(attrs), wrong);
    let q = to + spelled_attrs(attrs).len();
    one_char(s, i, '<');
    open_quote_is_read(s, q, bad, quote);
    skipping_twice(s, q);
    let list = attrs_come_first(s, to, attrs);
    name_is_read(s, i + 1, tag, 0);
    taken_out(s, i + 1, tag);
    let head = header(s, i);
    let pairs = named_values(attrs.push(bad));
    assert(head.attrs == list + attributes(s, q).list);
    assert forall|k: int| 0 <= k < head.attrs.len() implies (#[trigger] head.attrs[k]).key == pairs[k].0
        && head.attrs[k].value == pairs[k].1 by {
        if k < list.len() {
            assert(head.attrs[k] == list[k]);
            assert(named_values(attrs)[k] == pairs[k]);
        } else {
            assert(head.attrs[k] == attributes(s, q).list[0]);
        }
    }
    assert(tag[0] == s[i + 1 + 0]);
    if tag.len() >= 2 {
        assert(tag[1] == s[i + 1 + 1]);
    } else {
        assert(ends_attr(s, to));
    }
}

#[verifier::spinoff_prover]
#[verifier::rlimit(40)]
proof fn quote_in_an_element(
    s: Seq<char>,
    i: int,
    tag: Seq<char>,
    attrs: Seq<AttrMark>,
    bad: AttrMark,
    quote: char,
    items: Seq<Mark>,
    last: Seq<char>,
    close: Seq<char>,
)
    requires
        sound_open(tag, attrs, Seq::empty()),
        sound_attr(bad),
        bad.quoting == Quoting::Quoted(quote),
        sound_list(items),
        blank_text(last) && blank_text(close),
        holds(s, i, seq!['<'] + (tag + (spelled_attrs(attrs) + spelled_unclosed(bad, quote)))),
        ({
            let end = i + 1 + tag.len() + spelled_attrs(attrs).len() + spelled_unclosed(bad, quote).len();
            &&& end < s.len() && s[end] == '>'
            &&& holds(s, end + 1, spelled_list(items) + spelled_close(tag, last, close))
        }),
    ensures
        ({
            let end = i + 1 + tag.len() + spelled_attrs(attrs).len() + spelled_unclosed(bad, quote).len();
            &&& element(s, i).node == meant_element(tag, attrs.push(bad), items)
            &&& element(s, i).diagnostics == seq![open_quote(s, end - bad.value.len() - 1, bad.name)]
        }),
{
    quote_in_a_header(s, i, tag, attrs, bad, quote);
    let head = header(s, i);
    let both = attrs.push(bad);
    let pairs = named_values(both);
    assert forall|k: int| 0 <= k < pairs.len() implies numbers_fit(#[trigger] pairs[k]) by {
        if k < attrs.len() {
            assert(sound_attr(attrs[k]));
            assert(pairs[k] == (attrs[k].name, attrs[k].value));
        } else {
            assert(pairs[k] == (bad.name, bad.value));
        }
    }
    no_warnings(head.attrs, pairs, head.attrs.len() as int);
    children_are_read(s, head.end, tag, i + 1, items, last, tag, close);
    let inner = children(s, head.end, head.name, i + 1);
    let made = built(head.name, head.attrs, inner.nodes);
    assert(made.attrs =~= pairs);
    assert(element(s, i).diagnostics =~= head.diagnostics);
}

/// A quote that is not closed before its tag ends there, so that nothing behind the tag is swallowed; it is reported
/// once, where it was opened, and the tree is the one that was meant.
#[verifier::spinoff_prover]
#[verifier::rlimit(40)]
pub proof fn a_quote_ends_with_its_tag(
    before: Seq<char>,
    tag: Seq<char>,
    attrs: Seq<AttrMark>,
    bad: AttrMark,
    quote: char,
    items: Seq<Mark>,
    last: Seq<char>,
    close: Seq<char>,
    behind: Seq<char>,
)
    requires
        without_tags(before),
        sound_open(tag, attrs, Seq::empty()),
        sound_attr(bad),
        bad.quoting == Quoting::Quoted(quote),
        sound_list(items),
        blank_text(last) && blank_text(close),
    ensures
        ({
            let open = before + (seq!['<'] + (tag + (spelled_attrs(attrs) + spelled_unclosed(bad, quote))));
            let s = open + (seq!['>'] + (spelled_list(items) + (spelled_close(tag, last, close) + behind)));
            let at = open.len() - bad.value.len() - 1;
            let (node, said) = parsed(s);
            &&& node == meant_element(tag, attrs.push(bad), items)
            &&& said.len() == 1
            &&& said[0].severity == DiagnosticSeverity::Error
            &&& said[0].line == line_at(s, at)
            &&& said[0].column == column_at(s, at)
        }),
{
    let wrong = spelled_unclosed(bad, quote);
    let inside = spelled_list(items) + spelled_close(tag, last, close);
    let start = seq!['<'] + (tag + (spelled_attrs(attrs) + wrong));
    let open = before + start;
    let s = open + (seq!['>'] + (spelled_list(items) + (spelled_close(tag, last, close) + behind)));
    assert(s =~= before + (start + (seq!['>'] + (inside + behind))));
    assert(holds(s, 0, s));
    both_parts(s, 0, before, start + (seq!['>'] + (inside + behind)));
    let i = before.len() as int;
    both_parts(s, i, start, seq!['>'] + (inside + behind));
    let end = i + start.len();
    both_parts(s, end, seq!['>'], inside + behind);
    both_parts(s, end + 1, inside, behind);
    one_char(s, end, '>');
    quote_in_a_header(s, i, tag, attrs, bad, quote);
    quote_in_an_element(s, i, tag, attrs, bad, quote, items, last, close);
    text_is_read(s, 0, before, 0);
    assert(!ends_name(tag[0]));
    assert(root_at(s, 0) == i);
}

} // verus!
