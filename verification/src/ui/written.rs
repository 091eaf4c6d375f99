//! Writing a tree down in the `.lxml` form, and reading it back.
//!
//! The plain form of an element is `<tag name="value">children</tag>`, that of a text the text itself.

use crate::text::{skip_white, trimmed, trimmed_has_no_outer_white_space};
use crate::ui::lxml::{
    attr_warnings, attributes, built, children, element, ends_name, header, key_attr, name_end,
    next_char, numbers_expected, numbers_suffice, one_attr, one_attr_advances, parsed, quoted_end,
    root_at, text_node, warnings, AttrView, Children, DiagnosticView, Element, NodeView,
};
use vstd::prelude::*;

verus! {

/// Whether a text can be the name of a tag or of an attribute.
pub open spec fn fit_name(name: Seq<char>) -> bool {
    name.len() > 0 && forall|i: int|
        0 <= i < name.len() ==> !ends_name(#[trigger] name[i]) && name[i] != '<'
}

/// Whether a text can stand between the quotes of a value.
pub open spec fn fit_value(value: Seq<char>) -> bool {
    forall|i: int|
        0 <= i < value.len() ==> (#[trigger] value[i]) != '"' && value[i] != '>' && value[i] != '\n'
}

/// Whether an attribute can be written down, and its value has the form that its name asks for.
pub open spec fn fit_attr(pair: (Seq<char>, Seq<char>)) -> bool {
    &&& fit_name(pair.0)
    &&& fit_value(pair.1)
    &&& match numbers_expected(pair.0) {
        Some(expected) => numbers_suffice(expected, pair.1),
        None => true,
    }
}

/// Whether a text can stand between tags: there is something to it, no white space around it and no
/// tag in it.
pub open spec fn fit_text(text: Seq<char>) -> bool {
    text.len() > 0 && trimmed(text) == text && forall|i: int| 0 <= i < text.len() ==> text[i] != '<'
}

/// Whether a node is a text.
pub open spec fn is_text(node: NodeView) -> bool {
    node.tag == "#text"@
}

/// The value of the last `key` attribute among the first `n`.
pub open spec fn last_key(pairs: Seq<(Seq<char>, Seq<char>)>, n: int) -> Option<Seq<char>>
    decreases n,
{
    if n <= 0 {
        None
    } else if pairs[n - 1].0 == "key"@ {
        Some(pairs[n - 1].1)
    } else {
        last_key(pairs, n - 1)
    }
}

/// Whether a node can be written down.
pub open spec fn fit(node: NodeView) -> bool
    decreases node,
{
    if is_text(node) {
        node.attrs.len() == 1 && node == text_node(node.attrs[0].1) && fit_text(node.attrs[0].1)
    } else {
        &&& fit_name(node.tag)
        &&& !(node.tag.len() >= 2 && node.tag[0] == '!' && node.tag[1] == '-')
        &&& forall|i: int| 0 <= i < node.attrs.len() ==> fit_attr(#[trigger] node.attrs[i])
        &&& node.key == last_key(node.attrs, node.attrs.len() as int)
        &&& fit_list(node.children)
    }
}

/// Whether nodes can be written down one behind the other: no text follows a text.
pub open spec fn fit_list(list: Seq<NodeView>) -> bool
    decreases list,
{
    if list.len() == 0 {
        true
    } else {
        &&& fit(list[0])
        &&& list.len() > 1 && is_text(list[0]) ==> !is_text(list[1])
        &&& fit_list(list.subrange(1, list.len() as int))
    }
}

/// Attributes, written down.
pub open spec fn written_attrs(pairs: Seq<(Seq<char>, Seq<char>)>) -> Seq<char>
    decreases pairs.len(),
{
    if pairs.len() == 0 {
        Seq::empty()
    } else {
        seq![' '] + pairs[0].0 + seq!['=', '"'] + pairs[0].1 + seq!['"'] + written_attrs(
            pairs.subrange(1, pairs.len() as int),
        )
    }
}

/// A node, written down.
pub open spec fn written(node: NodeView) -> Seq<char>
    decreases node,
{
    if is_text(node) {
        node.attrs[0].1
    } else {
        seq!['<'] + node.tag + written_attrs(node.attrs) + seq!['>'] + written_list(node.children)
            + seq!['<', '/'] + node.tag + seq!['>']
    }
}

/// Nodes, written down one behind the other.
pub open spec fn written_list(list: Seq<NodeView>) -> Seq<char>
    decreases list,
{
    if list.len() == 0 {
        Seq::empty()
    } else {
        written(list[0]) + written_list(list.subrange(1, list.len() as int))
    }
}

/// Whether a text holds another at a place.
pub open spec fn holds(s: Seq<char>, p: int, t: Seq<char>) -> bool {
    &&& 0 <= p
    &&& p + t.len() <= s.len()
    &&& forall|k: int| 0 <= k < t.len() ==> #[trigger] t[k] == s[p + k]
}

/// A text that holds two others one behind the other holds each of them.
pub proof fn both_parts(s: Seq<char>, p: int, a: Seq<char>, b: Seq<char>)
    requires
        holds(s, p, a + b),
    ensures
        holds(s, p, a),
        holds(s, p + a.len(), b),
{
    let t = a + b;
    assert forall|k: int| 0 <= k < a.len() implies #[trigger] a[k] == s[p + k] by {
        assert(t[k] == s[p + k]);
    }
    assert forall|k: int| 0 <= k < b.len() implies #[trigger] b[k] == s[p + a.len() + k] by {
        assert(t[a.len() + k] == s[p + (a.len() + k)]);
    }
}

/// A text that holds one character has it there.
pub proof fn one_char(s: Seq<char>, p: int, c: char)
    requires
        holds(s, p, seq![c]),
    ensures
        0 <= p < s.len(),
        s[p] == c,
{
    assert(seq![c][0] == s[p + 0]);
}

/// What a text holds can be taken out of it.
pub proof fn taken_out(s: Seq<char>, p: int, t: Seq<char>)
    requires
        holds(s, p, t),
    ensures
        s.subrange(p, p + t.len()) == t,
{
    assert(s.subrange(p, p + t.len()) =~= t);
}

/// A name is read to its end.
pub proof fn name_is_read(s: Seq<char>, p: int, name: Seq<char>, k: int)
    requires
        holds(s, p, name),
        fit_name(name),
        0 <= k <= name.len(),
        p + name.len() < s.len(),
        ends_name(s[p + name.len()]),
    ensures
        name_end(s, p + k) == p + name.len(),
    decreases name.len() - k,
{
    if k < name.len() {
        assert(name[k] == s[p + k]);
        name_is_read(s, p, name, k + 1);
    }
}

proof fn value_is_read(s: Seq<char>, p: int, value: Seq<char>, k: int)
    requires
        holds(s, p, value),
        fit_value(value),
        0 <= k <= value.len(),
        p + value.len() < s.len(),
        s[p + value.len()] == '"',
    ensures
        quoted_end(s, p + k, '"') == p + value.len(),
    decreases value.len() - k,
{
    if k < value.len() {
        assert(value[k] == s[p + k]);
        value_is_read(s, p, value, k + 1);
    }
}

/// A text is read up to the next tag.
pub proof fn text_is_read(s: Seq<char>, p: int, text: Seq<char>, k: int)
    requires
        holds(s, p, text),
        forall|i: int| 0 <= i < text.len() ==> text[i] != '<',
        0 <= k <= text.len(),
        p + text.len() < s.len(),
        s[p + text.len()] == '<',
    ensures
        next_char(s, p + k, '<') == p + text.len(),
    decreases text.len() - k,
{
    if k < text.len() {
        assert(text[k] == s[p + k]);
        text_is_read(s, p, text, k + 1);
    }
}

/// Whether attributes were read as they are written.
pub open spec fn are_read(list: Seq<AttrView>, pairs: Seq<(Seq<char>, Seq<char>)>) -> bool {
    &&& list.len() == pairs.len()
    &&& forall|i: int|
        0 <= i < list.len() ==> (#[trigger] list[i]).key == pairs[i].0 && list[i].value == pairs[i].1
}

proof fn attrs_are_read(s: Seq<char>, p: int, pairs: Seq<(Seq<char>, Seq<char>)>)
    requires
        holds(s, p, written_attrs(pairs)),
        forall|i: int| 0 <= i < pairs.len() ==> fit_attr(#[trigger] pairs[i]),
        p + written_attrs(pairs).len() < s.len(),
        s[p + written_attrs(pairs).len()] == '>',
    ensures
        are_read(attributes(s, p).list, pairs),
        attributes(s, p).end == p + written_attrs(pairs).len(),
        attributes(s, p).diagnostics == Seq::<DiagnosticView>::empty(),
    decreases pairs.len(),
{
    if pairs.len() == 0 {
        assert(skip_white(s, p) == p);
    } else {
        let (key, value) = pairs[0];
        let rest = pairs.subrange(1, pairs.len() as int);
        assert(fit_attr(pairs[0]));
        let t1 = seq![' '] + key;
        let t2 = t1 + seq!['=', '"'];
        let t3 = t2 + value;
        let t4 = t3 + seq!['"'];
        let tail = written_attrs(rest);
        both_parts(s, p, t4, tail);
        both_parts(s, p, t3, seq!['"']);
        both_parts(s, p, t2, value);
        both_parts(s, p, t1, seq!['=', '"']);
        both_parts(s, p, seq![' '], key);
        one_char(s, p, ' ');
        let at = p + 1;
        let eq = at + key.len();
        let quote = eq + 1;
        let begin = quote + 1;
        let end = begin + value.len();
        one_char(s, end, '"');
        assert(seq!['=', '"'][0] == s[eq + 0]);
        assert(seq!['=', '"'][1] == s[eq + 1]);
        assert(key[0] == s[at + 0]);
        assert(!ends_name(key[0]));
        assert(skip_white(s, p) == skip_white(s, at));
        assert(skip_white(s, at) == at);
        name_is_read(s, at, key, 0);
        taken_out(s, at, key);
        assert(skip_white(s, eq) == eq);
        assert(skip_white(s, quote) == quote);
        value_is_read(s, begin, value, 0);
        taken_out(s, begin, value);
        let one = one_attr(s, at);
        assert(one.attr.key == key && one.attr.value == value && one.end == end + 1);
        assert(one.diagnostics =~= Seq::<DiagnosticView>::empty());
        one_attr_advances(s, at);
        assert forall|i: int| 0 <= i < rest.len() implies fit_attr(#[trigger] rest[i]) by {
            assert(rest[i] == pairs[i + 1]);
        }
        attrs_are_read(s, end + 1, rest);
        let others = attributes(s, end + 1);
        let all = attributes(s, p);
        assert(all.list == seq![one.attr] + others.list);
        assert forall|i: int| 0 <= i < all.list.len() implies (#[trigger] all.list[i]).key == pairs[i].0
            && all.list[i].value == pairs[i].1 by {
            if i > 0 {
                assert(all.list[i] == others.list[i - 1]);
                assert(rest[i - 1] == pairs[i]);
            }
        }
        assert(all.diagnostics =~= Seq::<DiagnosticView>::empty());
    }
}

/// Whether a value has the form that its name asks for.
pub open spec fn numbers_fit(pair: (Seq<char>, Seq<char>)) -> bool {
    match numbers_expected(pair.0) {
        Some(expected) => numbers_suffice(expected, pair.1),
        None => true,
    }
}

/// Attributes of the right form cause no diagnostics, and the last key among them counts.
pub proof fn no_warnings(list: Seq<AttrView>, pairs: Seq<(Seq<char>, Seq<char>)>, n: int)
    requires
        are_read(list, pairs),
        forall|i: int| 0 <= i < pairs.len() ==> numbers_fit(#[trigger] pairs[i]),
        0 <= n <= list.len(),
    ensures
        warnings(list, n) == Seq::<DiagnosticView>::empty(),
        key_attr(list, n) == last_key(pairs, n),
    decreases n,
{
    if n > 0 {
        no_warnings(list, pairs, n - 1);
        assert(numbers_fit(pairs[n - 1]));
        assert(list[n - 1].key == pairs[n - 1].0);
        assert(attr_warnings(list[n - 1]) =~= Seq::<DiagnosticView>::empty());
        assert(warnings(list, n) =~= Seq::<DiagnosticView>::empty());
    }
}

proof fn nothing_to_warn_of(list: Seq<AttrView>, pairs: Seq<(Seq<char>, Seq<char>)>, n: int)
    requires
        are_read(list, pairs),
        forall|i: int| 0 <= i < pairs.len() ==> fit_attr(#[trigger] pairs[i]),
        0 <= n <= list.len(),
    ensures
        warnings(list, n) == Seq::<DiagnosticView>::empty(),
        key_attr(list, n) == last_key(pairs, n),
{
    assert forall|i: int| 0 <= i < pairs.len() implies numbers_fit(#[trigger] pairs[i]) by {
        assert(fit_attr(pairs[i]));
    }
    no_warnings(list, pairs, n);
}

proof fn header_is_read(s: Seq<char>, i: int, node: NodeView)
    requires
        fit(node),
        !is_text(node),
        holds(s, i, seq!['<'] + node.tag + written_attrs(node.attrs) + seq!['>']),
    ensures
        ({
            let head = header(s, i);
            &&& head.name == node.tag
            &&& are_read(head.attrs, node.attrs)
            &&& !head.closed
            &&& head.end == i + 1 + node.tag.len() + written_attrs(node.attrs).len() + 1
            &&& head.diagnostics == Seq::<DiagnosticView>::empty()
        }),
{
    let t1 = seq!['<'] + node.tag;
    let t2 = t1 + written_attrs(node.attrs);
    both_parts(s, i, t2, seq!['>']);
    both_parts(s, i, t1, written_attrs(node.attrs));
    both_parts(s, i, seq!['<'], node.tag);
    let from = i + 1;
    let to = from + node.tag.len();
    let end = to + written_attrs(node.attrs).len();
    one_char(s, end, '>');
    if node.attrs.len() > 0 {
        assert(written_attrs(node.attrs)[0] == ' ');
        assert(written_attrs(node.attrs)[0] == s[to + 0]);
    }
    assert(ends_name(s[to]));
    name_is_read(s, from, node.tag, 0);
    taken_out(s, from, node.tag);
    attrs_are_read(s, to, node.attrs);
}

/// What comes behind a node in its parent: another node or the closing tag.
proof fn what_follows(s: Seq<char>, p: int, list: Seq<NodeView>, name: Seq<char>)
    requires
        fit_list(list),
        holds(s, p, written_list(list) + (seq!['<', '/'] + name + seq!['>'])),
        list.len() > 0 ==> !is_text(list[0]),
    ensures
        0 <= p < s.len(),
        s[p] == '<',
{
    let close = seq!['<', '/'] + name + seq!['>'];
    both_parts(s, p, written_list(list), close);
    if list.len() == 0 {
        assert(close[0] == '<');
        assert(close[0] == s[p + 0]);
    } else {
        assert(fit(list[0]));
        assert(written(list[0])[0] == '<');
        assert(written_list(list)[0] == '<');
        assert(written_list(list)[0] == s[p + 0]);
    }
}

proof fn element_is_read(s: Seq<char>, i: int, node: NodeView)
    requires
        fit(node),
        !is_text(node),
        holds(s, i, written(node)),
    ensures
        i < s.len(),
        element(s, i) == (Element {
            node,
            end: i + written(node).len(),
            diagnostics: Seq::empty(),
        }),
    decreases s.len() - i, 0int,
{
    let open = seq!['<'] + node.tag + written_attrs(node.attrs) + seq!['>'];
    let inside = written_list(node.children);
    let close = seq!['<', '/'] + node.tag + seq!['>'];
    assert(written(node) =~= open + (inside + close));
    both_parts(s, i, open, inside + close);
    header_is_read(s, i, node);
    let head = header(s, i);
    children_are_read(s, head.end, node.tag, i + 1, node.children);
    nothing_to_warn_of(head.attrs, node.attrs, head.attrs.len() as int);
    let inner = children(s, head.end, head.name, i + 1);
    let made = built(head.name, head.attrs, inner.nodes);
    assert(made.attrs =~= node.attrs);
    assert(made == node);
    assert(element(s, i).diagnostics =~= Seq::<DiagnosticView>::empty());
}

proof fn children_are_read(s: Seq<char>, j: int, name: Seq<char>, open: int, list: Seq<NodeView>)
    requires
        fit_list(list),
        fit_name(name),
        holds(s, j, written_list(list) + (seq!['<', '/'] + name + seq!['>'])),
    ensures
        children(s, j, name, open) == (Children {
            nodes: list,
            end: j + written_list(list).len() + name.len() + 3,
            diagnostics: Seq::empty(),
        }),
    decreases s.len() - j, 1int,
{
    let close = seq!['<', '/'] + name + seq!['>'];
    both_parts(s, j, written_list(list), close);
    if list.len() == 0 {
        both_parts(s, j, seq!['<', '/'] + name, seq!['>']);
        both_parts(s, j, seq!['<', '/'], name);
        assert(seq!['<', '/'][0] == s[j + 0]);
        assert(seq!['<', '/'][1] == s[j + 1]);
        assert(skip_white(s, j) == j);
        one_char(s, j + 2 + name.len(), '>');
        name_is_read(s, j + 2, name, 0);
        taken_out(s, j + 2, name);
        assert(children(s, j, name, open).nodes =~= list);
    } else {
        let first = list[0];
        let rest = list.subrange(1, list.len() as int);
        assert(fit(first) && fit_list(rest));
        let tail = written_list(rest) + close;
        assert(written_list(list) + close =~= written(first) + tail);
        both_parts(s, j, written(first), tail);
        let next = j + written(first).len();
        assert(seq![first] + rest =~= list);
        if is_text(first) {
            let text = first.attrs[0].1;
            if rest.len() > 0 {
                assert(rest[0] == list[1]);
            }
            what_follows(s, next, rest, name);
            trimmed_has_no_outer_white_space(text);
            assert(text[0] == s[j + 0]);
            assert(skip_white(s, j) == j);
            text_is_read(s, j, text, 0);
            taken_out(s, j, text);
            children_are_read(s, next, name, open, rest);
        } else {
            assert(written(first)[0] == '<' && written(first)[1] == first.tag[0]);
            assert(written(first)[0] == s[j + 0]);
            assert(written(first)[1] == s[j + 1]);
            assert(skip_white(s, j) == j);
            assert(!ends_name(first.tag[0]));
            second_char(first);
            assert(written(first)[2] == s[j + 2]);
            element_is_read(s, j, first);
            children_are_read(s, next, name, open, rest);
            assert(children(s, j, name, open).diagnostics =~= Seq::<DiagnosticView>::empty());
        }
    }
}

/// An element that is written down begins no comment.
proof fn second_char(node: NodeView)
    requires
        fit(node),
        !is_text(node),
    ensures
        written(node).len() > 3,
        written(node)[0] == '<',
        !(written(node)[1] == '!' && written(node)[2] == '-'),
{
    let w = written(node);
    assert(w[1] == node.tag[0]);
    if node.tag.len() >= 2 {
        assert(w[2] == node.tag[1]);
    } else if node.attrs.len() > 0 {
        assert(written_attrs(node.attrs)[0] == ' ');
        assert(w[2] == written_attrs(node.attrs)[0]);
    } else {
        assert(written_attrs(node.attrs).len() == 0);
        assert(w[2] == '>');
    }
}

/// A tree that is written down is read back as itself, and there is nothing to say about it.
pub proof fn what_is_written_is_read_back(node: NodeView)
    requires
        fit(node),
        !is_text(node),
    ensures
        parsed(written(node)) == (node, Seq::<DiagnosticView>::empty()),
{
    let s = written(node);
    assert(holds(s, 0, s));
    second_char(node);
    assert(s[1] == node.tag[0]);
    assert(!ends_name(node.tag[0]));
    assert(next_char(s, 0, '<') == 0);
    assert(root_at(s, 0) == 0);
    element_is_read(s, 0, node);
}

} // verus!
