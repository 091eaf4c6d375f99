//! Laws of the `.lxml` form.

use crate::text::{skip_white, trimmed};
use crate::ui::lxml::{
    attr_warnings, attributes, attributes_end, children, column_at, comment_at, comment_end,
    comment_end_range, element, element_advances, header, header_advances, key_attr,
    line_at, name_end, next_char, next_char_range, one_attr, one_attr_advances, parsed,
    places_count_from_one, root_at, skip_white_settles, text_node, warnings, AttrView, DiagnosticSeverity,
    DiagnosticView, NodeView, StaticNode,
};
use crate::ui::number::number_list;
use vstd::prelude::*;

verus! {

/// Every diagnostic of the list points at a place: line and column count from 1.
pub open spec fn all_point(list: Seq<DiagnosticView>) -> bool {
    forall|i: int| 0 <= i < list.len() ==> (#[trigger] list[i]).line >= 1 && list[i].column >= 1
}

proof fn joined_point(a: Seq<DiagnosticView>, b: Seq<DiagnosticView>)
    requires
        all_point(a),
        all_point(b),
    ensures
        all_point(a + b),
{
    assert forall|i: int| 0 <= i < (a + b).len() implies (#[trigger] (a + b)[i]).line >= 1 && (a
        + b)[i].column >= 1 by {
        if i < a.len() {
            assert((a + b)[i] == a[i]);
        } else {
            assert((a + b)[i] == b[i - a.len()]);
        }
    }
}

/// Whether the values of a list of attributes are placed.
pub open spec fn all_placed(list: Seq<AttrView>) -> bool {
    forall|i: int| 0 <= i < list.len() ==> (#[trigger] list[i]).line >= 1 && list[i].column >= 1
}

proof fn name_end_inside(s: Seq<char>, i: int)
    requires
        0 <= i <= s.len(),
    ensures
        i <= name_end(s, i) <= s.len(),
    decreases s.len() - i,
{
    if i < s.len() && !crate::ui::lxml::ends_name(s[i]) {
        name_end_inside(s, i + 1);
    }
}

proof fn one_attr_points(s: Seq<char>, i: int)
    requires
        0 <= i <= s.len(),
    ensures
        all_point(one_attr(s, i).diagnostics),
        one_attr(s, i).attr.line >= 1,
        one_attr(s, i).attr.column >= 1,
{
    name_end_inside(s, i);
    skip_white_settles(s, name_end(s, i));
    let eq = skip_white(s, name_end(s, i));
    places_count_from_one(s, eq);
    if eq < s.len() && s[eq] == '=' {
        skip_white_settles(s, eq + 1);
        places_count_from_one(s, skip_white(s, eq + 1));
    }
}

proof fn attributes_point(s: Seq<char>, i: int)
    requires
        0 <= i <= s.len(),
    ensures
        all_point(attributes(s, i).diagnostics),
        all_placed(attributes(s, i).list),
    decreases s.len() - i,
{
    skip_white_settles(s, i);
    let at = skip_white(s, i);
    if at >= s.len() || s[at] == '>' || s[at] == '/' {
    } else {
        one_attr_advances(s, at);
        one_attr_points(s, at);
        let one = one_attr(s, at);
        attributes_point(s, one.end);
        let rest = attributes(s, one.end);
        joined_point(one.diagnostics, rest.diagnostics);
        let list = attributes(s, i).list;
        assert forall|k: int| 0 <= k < list.len() implies (#[trigger] list[k]).line >= 1
            && list[k].column >= 1 by {
            if one.attr.key.len() > 0 {
                if k > 0 {
                    assert(list[k] == rest.list[k - 1]);
                }
            } else {
                assert(list[k] == rest.list[k]);
            }
        }
    }
}

proof fn warnings_point(attrs: Seq<AttrView>, n: int)
    requires
        all_placed(attrs),
        n <= attrs.len(),
    ensures
        all_point(warnings(attrs, n)),
    decreases n,
{
    if n > 0 {
        warnings_point(attrs, n - 1);
        let last = attrs[n - 1];
        joined_point(warnings(attrs, n - 1), attr_warnings(last));
    }
}

proof fn header_points(s: Seq<char>, i: int)
    requires
        0 <= i < s.len(),
    ensures
        all_point(header(s, i).diagnostics),
        all_placed(header(s, i).attrs),
{
    name_end_inside(s, i + 1);
    let to = name_end(s, i + 1);
    attributes_point(s, to);
    attributes_end(s, to);
    let end = attributes(s, to).end;
    places_count_from_one(s, end);
    if end < s.len() {
        places_count_from_one(s, end + 1);
    }
}

proof fn element_points(s: Seq<char>, i: int)
    requires
        0 <= i < s.len(),
    ensures
        all_point(element(s, i).diagnostics),
    decreases s.len() - i, 0int,
{
    header_advances(s, i);
    header_points(s, i);
    let head = header(s, i);
    let form = warnings(head.attrs, head.attrs.len() as int);
    warnings_point(head.attrs, head.attrs.len() as int);
    if head.closed {
        joined_point(head.diagnostics, form);
    } else {
        children_point(s, head.end, head.name, i + 1);
        let inner = children(s, head.end, head.name, i + 1);
        joined_point(head.diagnostics, inner.diagnostics);
        joined_point(head.diagnostics + inner.diagnostics, form);
    }
}

proof fn children_point(s: Seq<char>, j: int, name: Seq<char>, open: int)
    requires
        0 <= j <= s.len(),
        0 <= open <= s.len(),
    ensures
        all_point(children(s, j, name, open).diagnostics),
    decreases s.len() - j, 1int,
{
    skip_white_settles(s, j);
    let k = skip_white(s, j);
    if k >= s.len() {
        places_count_from_one(s, open);
    } else if s[k] == '<' {
        if k + 1 < s.len() && s[k + 1] == '/' {
            places_count_from_one(s, k);
        } else if comment_at(s, k) {
            comment_end_range(s, k, k + 1);
            children_point(s, comment_end(s, k, k + 1), name, open);
        } else {
            element_advances(s, k);
            element_points(s, k);
            children_point(s, element(s, k).end, name, open);
            joined_point(
                element(s, k).diagnostics,
                children(s, element(s, k).end, name, open).diagnostics,
            );
        }
    } else {
        next_char_range(s, k + 1, '<');
        children_point(s, next_char(s, k, '<'), name, open);
    }
}

proof fn root_inside(s: Seq<char>, i: int)
    requires
        0 <= i <= s.len(),
    ensures
        0 <= root_at(s, i) <= s.len(),
    decreases s.len() - i,
{
    next_char_range(s, i, '<');
    let at = next_char(s, i, '<');
    if comment_at(s, at) {
        comment_end_range(s, at, at + 1);
        root_inside(s, comment_end(s, at, at + 1));
    }
}

/// Every diagnostic of a document points at a place, with line and column counted from 1.
pub proof fn diagnostics_point_at_a_place(s: Seq<char>)
    ensures
        all_point(parsed(s).1),
{
    root_inside(s, 0);
    let at = root_at(s, 0);
    if at < s.len() {
        if at + 1 < s.len() && s[at + 1] == '/' {
            places_count_from_one(s, at + 1);
        } else {
            element_points(s, at);
        }
    }
}

/// A comment among the children of an element changes neither its nodes nor its diagnostics.
pub proof fn comment_among_children_is_skipped(s: Seq<char>, j: int, name: Seq<char>, open: int)
    requires
        0 <= j <= s.len(),
        comment_at(s, skip_white(s, j)),
    ensures
        ({
            let k = skip_white(s, j);
            children(s, j, name, open) == children(s, comment_end(s, k, k + 1), name, open)
        }),
{
    skip_white_settles(s, j);
    let k = skip_white(s, j);
    comment_end_range(s, k, k + 1);
}

/// A comment before the root changes nothing but where the root is looked for.
pub proof fn comment_before_root_is_skipped(s: Seq<char>, i: int)
    requires
        0 <= i <= s.len(),
        comment_at(s, next_char(s, i, '<')),
    ensures
        ({
            let at = next_char(s, i, '<');
            root_at(s, i) == root_at(s, comment_end(s, at, at + 1))
        }),
{
    next_char_range(s, i, '<');
    let at = next_char(s, i, '<');
    comment_end_range(s, at, at + 1);
}

/// A value of the wrong form is a warning, never an error.
pub proof fn a_bad_value_is_a_warning(attrs: Seq<AttrView>, n: int, i: int)
    requires
        n <= attrs.len(),
        0 <= i < warnings(attrs, n).len(),
    ensures
        warnings(attrs, n)[i].severity == DiagnosticSeverity::Warning,
    decreases n,
{
    if n > 0 {
        let before = warnings(attrs, n - 1);
        if i < before.len() {
            a_bad_value_is_a_warning(attrs, n - 1, i);
        } else {
            assert(warnings(attrs, n)[i] == attr_warnings(attrs[n - 1])[i - before.len()]);
        }
    }
}

/// A document without any tag, or with comments and text alone, yields a blank node and no
/// diagnostics.
pub proof fn a_document_without_tags_is_blank(s: Seq<char>)
    requires
        root_at(s, 0) >= s.len(),
    ensures
        parsed(s) == (StaticNode::blank(), Seq::<DiagnosticView>::empty()),
{
}

/// Whether the key of a node is the value of the last of its attributes with the name `key`, and none only
/// where no attribute has that name.
pub open spec fn key_is_the_last(node: NodeView) -> bool {
    match node.key {
        Some(value) => exists|i: int|
            0 <= i < node.attrs.len() && #[trigger] node.attrs[i] == ("key"@, value) && forall|j: int|
                i < j < node.attrs.len() ==> (#[trigger] node.attrs[j]).0 != "key"@,
        None => forall|i: int| 0 <= i < node.attrs.len() ==> (#[trigger] node.attrs[i]).0 != "key"@,
    }
}

/// Whether that holds of a node and of all below it, and no attribute is without a name.
pub open spec fn keys_agree(node: NodeView) -> bool
    decreases node,
{
    &&& key_is_the_last(node)
    &&& forall|i: int| 0 <= i < node.attrs.len() ==> (#[trigger] node.attrs[i]).0.len() > 0
    &&& forall|i: int| 0 <= i < node.children.len() ==> keys_agree(#[trigger] node.children[i])
}

proof fn key_attr_is_the_last(attrs: Seq<AttrView>, n: int)
    requires
        0 <= n <= attrs.len(),
    ensures
        match key_attr(attrs, n) {
            Some(value) => exists|i: int|
                0 <= i < n && (#[trigger] attrs[i]).key == "key"@ && attrs[i].value == value && forall|j: int|
                    i < j < n ==> (#[trigger] attrs[j]).key != "key"@,
            None => forall|i: int| 0 <= i < n ==> (#[trigger] attrs[i]).key != "key"@,
        },
    decreases n,
{
    if n > 0 {
        if attrs[n - 1].key == "key"@ {
            assert(attrs[n - 1].value == key_attr(attrs, n)->0);
        } else {
            key_attr_is_the_last(attrs, n - 1);
            if key_attr(attrs, n) is Some {
                let i = choose|i: int|
                    0 <= i < n - 1 && (#[trigger] attrs[i]).key == "key"@ && attrs[i].value == key_attr(
                        attrs,
                        n,
                    )->0 && forall|j: int| i < j < n - 1 ==> (#[trigger] attrs[j]).key != "key"@;
                assert(attrs[i].value == key_attr(attrs, n)->0);
                assert forall|j: int| i < j < n implies (#[trigger] attrs[j]).key != "key"@ by {
                }
            }
        }
    }
}

proof fn attributes_are_named(s: Seq<char>, i: int)
    requires
        0 <= i <= s.len(),
    ensures
        forall|k: int| 0 <= k < attributes(s, i).list.len() ==> (#[trigger] attributes(s, i).list[k]).key.len() > 0,
    decreases s.len() - i,
{
    skip_white_settles(s, i);
    let at = skip_white(s, i);
    if at >= s.len() || s[at] == '>' || s[at] == '/' {
    } else {
        one_attr_advances(s, at);
        let one = one_attr(s, at);
        attributes_are_named(s, one.end);
        let rest = attributes(s, one.end).list;
        let list = attributes(s, i).list;
        assert forall|k: int| 0 <= k < list.len() implies (#[trigger] list[k]).key.len() > 0 by {
            if one.attr.key.len() > 0 {
                if k > 0 {
                    assert(list[k] == rest[k - 1]);
                }
            } else {
                assert(list[k] == rest[k]);
            }
        }
    }
}

proof fn element_agrees(s: Seq<char>, i: int)
    requires
        0 <= i < s.len(),
    ensures
        keys_agree(element(s, i).node),
    decreases s.len() - i, 0int,
{
    header_advances(s, i);
    let head = header(s, i);
    let node = element(s, i).node;
    name_end_inside(s, i + 1);
    attributes_are_named(s, name_end(s, i + 1));
    assert forall|k: int| 0 <= k < node.attrs.len() implies (#[trigger] node.attrs[k]).0.len() > 0 by {
        assert(head.attrs[k].key.len() > 0);
    }
    key_attr_is_the_last(head.attrs, head.attrs.len() as int);
    if node.key is Some {
        let value = node.key->0;
        let k = choose|k: int|
            0 <= k < head.attrs.len() && (#[trigger] head.attrs[k]).key == "key"@ && head.attrs[k].value == value
                && forall|j: int| k < j < head.attrs.len() ==> (#[trigger] head.attrs[j]).key != "key"@;
        assert(node.attrs[k] == ("key"@, value));
        assert forall|j: int| k < j < node.attrs.len() implies (#[trigger] node.attrs[j]).0 != "key"@ by {
            assert(head.attrs[j].key != "key"@);
        }
    } else {
        assert forall|k: int| 0 <= k < node.attrs.len() implies (#[trigger] node.attrs[k]).0 != "key"@ by {
            assert(head.attrs[k].key != "key"@);
        }
    }
    assert(key_is_the_last(node));
    if !head.closed {
        children_agree(s, head.end, head.name, i + 1);
        let inner = children(s, head.end, head.name, i + 1).nodes;
        assert(node.children == inner);
        assert forall|k: int| 0 <= k < node.children.len() implies keys_agree(#[trigger] node.children[k]) by {
            assert(keys_agree(inner[k]));
        }
    }
}

proof fn children_agree(s: Seq<char>, j: int, name: Seq<char>, open: int)
    requires
        0 <= j <= s.len(),
    ensures
        forall|i: int|
            0 <= i < children(s, j, name, open).nodes.len() ==> keys_agree(
                #[trigger] children(s, j, name, open).nodes[i],
            ),
    decreases s.len() - j, 1int,
{
    skip_white_settles(s, j);
    let k = skip_white(s, j);
    let nodes = children(s, j, name, open).nodes;
    if k >= s.len() {
    } else if s[k] == '<' {
        if k + 1 < s.len() && s[k + 1] == '/' {
        } else if comment_at(s, k) {
            comment_end_range(s, k, k + 1);
            children_agree(s, comment_end(s, k, k + 1), name, open);
            comment_among_children_is_skipped(s, j, name, open);
        } else {
            element_advances(s, k);
            element_agrees(s, k);
            let child = element(s, k);
            children_agree(s, child.end, name, open);
            let rest = children(s, child.end, name, open).nodes;
            assert forall|i: int| 0 <= i < nodes.len() implies keys_agree(#[trigger] nodes[i]) by {
                if i > 0 {
                    assert(nodes[i] == rest[i - 1]);
                }
            }
        }
    } else {
        next_char_range(s, k + 1, '<');
        let to = next_char(s, k, '<');
        children_agree(s, to, name, open);
        let text = trimmed(s.subrange(k, to));
        let rest = children(s, to, name, open).nodes;
        assert forall|i: int| 0 <= i < nodes.len() implies keys_agree(#[trigger] nodes[i]) by {
            if text.len() > 0 {
                if i > 0 {
                    assert(nodes[i] == rest[i - 1]);
                } else {
                    let node = text_node(text);
                    reveal_strlit("text");
                    reveal_strlit("key");
                    assert(nodes[i] == node);
                    assert(node.attrs[0].0.len() == 4 && "key"@.len() == 3);
                    assert(key_is_the_last(node));
                }
            } else {
                assert(nodes[i] == rest[i]);
            }
        }
    }
}

/// In every document, the key of a node is the value of the last attribute with the name `key` among its
/// attributes, whichever way its tag is closed and however deep it lies.
pub proof fn the_last_key_counts(s: Seq<char>)
    ensures
        keys_agree(parsed(s).0),
{
    root_inside(s, 0);
    let at = root_at(s, 0);
    if at < s.len() && !(at + 1 < s.len() && s[at + 1] == '/') {
        element_agrees(s, at);
    } else {
        assert(key_is_the_last(StaticNode::blank()));
    }
}

/// Whether the line that place `i` is in begins at `from`: behind a line break or at the start, with no break
/// from there to the place.
pub open spec fn line_begins(s: Seq<char>, from: int, i: int) -> bool {
    &&& 0 <= from <= i
    &&& from == 0 || s[from - 1] == '\n'
    &&& forall|k: int| from <= k < i ==> #[trigger] s[k] != '\n'
}

/// Lines are counted by the line breaks before a place, and columns from the last of them.
pub proof fn places_are_counted_by_line_breaks(s: Seq<char>, i: int)
    requires
        0 <= i <= s.len(),
    ensures
        line_at(s, i) == 1 + s.take(i).filter(|c: char| c == '\n').len(),
        line_begins(s, i + 1 - column_at(s, i), i),
    decreases i,
{
    reveal(Seq::filter);
    if i > 0 {
        places_are_counted_by_line_breaks(s, i - 1);
        assert(s.take(i).drop_last() =~= s.take(i - 1));
        assert(s.take(i).last() == s[i - 1]);
    } else {
        assert(s.take(0) =~= Seq::<char>::empty());
    }
}

/// Of the attributes only `rect` and `color` have a form: four numbers, and three or four. What has another
/// form is warned of, where its value stands and over its length; everything else is let be.
pub proof fn only_rectangles_and_colors_have_a_form(attr: AttrView)
    ensures
        ({
            let found = number_list(attr.value);
            let warned = attr_warnings(attr);
            &&& attr.key == "rect"@ ==> (warned.len() == 0 <==> found == Some(4nat))
            &&& attr.key == "color"@ ==> (warned.len() == 0 <==> found == Some(3nat) || found == Some(4nat))
            &&& attr.key != "rect"@ && attr.key != "color"@ ==> warned.len() == 0
            &&& warned.len() > 0 ==> warned.len() == 1 && warned[0].severity == DiagnosticSeverity::Warning
                && warned[0].line == attr.line && warned[0].column == attr.column && warned[0].length
                == attr.value.len()
        }),
{
    reveal_strlit("rect");
    reveal_strlit("color");
    assert("rect"@.len() == 4 && "color"@.len() == 5);
}

/// The value of an attribute is that of the first with the name, and none is there only if no attribute has
/// the name.
pub proof fn the_first_attribute_of_a_name_is_read(attrs: Seq<(Seq<char>, Seq<char>)>, key: Seq<char>)
    ensures
        match StaticNode::spec_attr(attrs, key) {
            Some(value) => exists|i: int|
                0 <= i < attrs.len() && #[trigger] attrs[i] == (key, value) && forall|j: int|
                    0 <= j < i ==> (#[trigger] attrs[j]).0 != key,
            None => forall|i: int| 0 <= i < attrs.len() ==> (#[trigger] attrs[i]).0 != key,
        },
    decreases attrs.len(),
{
    if attrs.len() > 0 {
        if attrs[0].0 == key {
            assert(attrs[0] == (key, attrs[0].1));
        } else {
            let rest = attrs.skip(1);
            the_first_attribute_of_a_name_is_read(rest, key);
            if StaticNode::spec_attr(rest, key) is Some {
                let value = StaticNode::spec_attr(rest, key)->0;
                let i = choose|i: int|
                    0 <= i < rest.len() && #[trigger] rest[i] == (key, value) && forall|j: int|
                        0 <= j < i ==> (#[trigger] rest[j]).0 != key;
                assert(attrs[i + 1] == (key, value));
                assert forall|j: int| 0 <= j < i + 1 implies (#[trigger] attrs[j]).0 != key by {
                    if j > 0 {
                        assert(rest[j - 1] == attrs[j]);
                    }
                }
            } else {
                assert forall|i: int| 0 <= i < attrs.len() implies (#[trigger] attrs[i]).0 != key by {
                    if i > 0 {
                        assert(rest[i - 1] == attrs[i]);
                    }
                }
            }
        }
    }
}

} // verus!
