//! The document model: what an editor edits.
//!
//! A document knows no window size and no project: it is a list of nodes, and a node holds only what
//! its author wrote. Everything else has a default, and each default stands in one table. `N` is the
//! type of real numbers.

use crate::contract::widget::{Anchor, UiId, Widget};
use crate::text::{decimal, decimal_notation_stands_for_the_number, push_decimal, same_text};
use crate::ui::tree::UiTree;
use vstd::prelude::*;
use vstd::string::StringExecFns;
use vstd::utf8::encode_utf8;

verus! {

/// Identity of a node, stable from frame to frame: derived from its key, or else from its kind and
/// its place.
#[derive(Debug, Clone, Copy, PartialEq, Eq, Hash, PartialOrd, Ord, Structural)]
pub struct NodeId(u64);

impl NodeId {
    /// The identity as a number.
    pub closed spec fn value(self) -> u64 {
        self.0
    }

    /// The identity of the node's widget: the lower half.
    pub open spec fn widget_id(self) -> UiId {
        UiId((self.value() % 0x1_0000_0000) as u32)
    }

    /// The identity of the node's widget: the lower half.
    pub fn ui_id(self) -> (id: UiId)
        ensures
            id == self.widget_id(),
    {
        let n: u64 = self.0;
        assert(n as u32 == n % 0x1_0000_0000) by (bit_vector);
        UiId(n as u32)
    }
}

/// A number: a whole one, or any other.
#[derive(Debug, Clone, Copy, PartialEq, Eq)]
pub enum Number<N> {
    Whole(i32),
    Real(N),
}

/// The value of a property.
#[derive(Debug, PartialEq, Eq)]
pub enum PropValue<N> {
    Number(Number<N>),
    /// One of the candidates of a property, by its place among them.
    Variant(usize),
    Text(String),
}

/// What values a property takes.
#[derive(Debug, Clone, Copy, PartialEq, Eq)]
pub enum PropKind {
    /// A number between two bounds, changed by a step.
    Number { min: i32, max: i32, step: i32 },
    /// One of these names.
    Enum([&'static str; 9]),
    Text,
}

/// The value of a property that was not written.
#[derive(Debug, Clone, Copy, PartialEq, Eq, Structural)]
pub enum PropDefault {
    Number(i32),
    Variant(usize),
    /// The empty text.
    Text,
}

/// A property that nodes have.
#[derive(Debug, Clone, Copy, PartialEq, Eq)]
pub struct PropDesc {
    pub key: &'static str,
    pub label: &'static str,
    pub kind: PropKind,
    pub default: PropDefault,
}

/// The name of the anchor at a place in the table of anchors.
pub open spec fn anchor_name(i: int) -> Seq<char> {
    if i == 0 {
        "top-left"@
    } else if i == 1 {
        "top-center"@
    } else if i == 2 {
        "top-right"@
    } else if i == 3 {
        "center-left"@
    } else if i == 4 {
        "center"@
    } else if i == 5 {
        "center-right"@
    } else if i == 6 {
        "bottom-left"@
    } else if i == 7 {
        "bottom-center"@
    } else {
        "bottom-right"@
    }
}

/// The names of the anchors, row by row.
pub fn anchor_names() -> (names: [&'static str; 9])
    ensures
        forall|i: int| 0 <= i < 9 ==> (#[trigger] names@[i])@ == anchor_name(i),
{
    [
        "top-left",
        "top-center",
        "top-right",
        "center-left",
        "center",
        "center-right",
        "bottom-left",
        "bottom-center",
        "bottom-right",
    ]
}

/// The anchor at a place in the table; the first for a place that is not in it.
pub open spec fn anchor_of(index: int) -> Anchor {
    if index == 1 {
        Anchor::TopCenter
    } else if index == 2 {
        Anchor::TopRight
    } else if index == 3 {
        Anchor::CenterLeft
    } else if index == 4 {
        Anchor::Center
    } else if index == 5 {
        Anchor::CenterRight
    } else if index == 6 {
        Anchor::BottomLeft
    } else if index == 7 {
        Anchor::BottomCenter
    } else if index == 8 {
        Anchor::BottomRight
    } else {
        Anchor::TopLeft
    }
}

/// The anchor at a place in the table.
pub fn anchor_at(index: usize) -> (anchor: Anchor)
    ensures
        anchor == anchor_of(index as int),
{
    match index {
        1 => Anchor::TopCenter,
        2 => Anchor::TopRight,
        3 => Anchor::CenterLeft,
        4 => Anchor::Center,
        5 => Anchor::CenterRight,
        6 => Anchor::BottomLeft,
        7 => Anchor::BottomCenter,
        8 => Anchor::BottomRight,
        _ => Anchor::TopLeft,
    }
}

/// The table of anchors goes through the grid row by row.
pub proof fn the_anchor_table_goes_row_by_row(i: int)
    requires
        0 <= i < 9,
    ensures
        anchor_of(i).cell() == (i % 3, i / 3),
{
}

/// Key, label and default of the property at a place in the table.
pub open spec fn prop_row(i: int) -> (Seq<char>, Seq<char>, PropDefault) {
    if i == 0 {
        ("name"@, "名称"@, PropDefault::Text)
    } else if i == 1 {
        ("anchor"@, "锚点"@, PropDefault::Variant(0))
    } else if i == 2 {
        ("x"@, "偏移 X"@, PropDefault::Number(0))
    } else if i == 3 {
        ("y"@, "偏移 Y"@, PropDefault::Number(0))
    } else if i == 4 {
        ("width"@, "宽"@, PropDefault::Number(120))
    } else {
        ("height"@, "高"@, PropDefault::Number(32))
    }
}

/// The bounds and the step of the property at a place in the table, if it is a number.
pub open spec fn prop_bounds(i: int) -> Option<(i32, i32, i32)> {
    if i == 2 || i == 3 {
        Some((-4096i32, 4096i32, 8i32))
    } else if i == 4 || i == 5 {
        Some((0i32, 4096i32, 8i32))
    } else {
        None
    }
}

/// The properties that nodes have, in the order in which they are shown.
pub fn node_props() -> (props: [PropDesc; 6])
    ensures
        forall|i: int|
            0 <= i < 6 ==> {
                &&& (#[trigger] props@[i]).key@ == prop_row(i).0
                &&& props@[i].label@ == prop_row(i).1
                &&& props@[i].default == prop_row(i).2
                &&& match prop_bounds(i) {
                    Some((min, max, step)) => props@[i].kind == (PropKind::Number { min, max, step }),
                    None => props@[i].kind !is Number,
                }
            },
        props@[0].kind is Text,
        props@[1].kind matches PropKind::Enum(names) && forall|i: int|
            0 <= i < 9 ==> (#[trigger] names@[i])@ == anchor_name(i),
{
    [
        PropDesc { key: "name", label: "名称", kind: PropKind::Text, default: PropDefault::Text },
        PropDesc {
            key: "anchor",
            label: "锚点",
            kind: PropKind::Enum(anchor_names()),
            default: PropDefault::Variant(0),
        },
        PropDesc {
            key: "x",
            label: "偏移 X",
            kind: PropKind::Number { min: -4096, max: 4096, step: 8 },
            default: PropDefault::Number(0),
        },
        PropDesc {
            key: "y",
            label: "偏移 Y",
            kind: PropKind::Number { min: -4096, max: 4096, step: 8 },
            default: PropDefault::Number(0),
        },
        PropDesc {
            key: "width",
            label: "宽",
            kind: PropKind::Number { min: 0, max: 4096, step: 8 },
            default: PropDefault::Number(120),
        },
        PropDesc {
            key: "height",
            label: "高",
            kind: PropKind::Number { min: 0, max: 4096, step: 8 },
            default: PropDefault::Number(32),
        },
    ]
}

/// The default of the property of a key, looking from place `i` of the table on.
pub open spec fn default_from(i: int, key: Seq<char>) -> Option<PropDefault>
    decreases 6 - i,
{
    if i >= 6 {
        None
    } else if prop_row(i).0 == key {
        Some(prop_row(i).2)
    } else {
        default_from(i + 1, key)
    }
}

/// The default of a property; none for a key that no property has.
pub fn default_of(key: &str) -> (default: Option<PropDefault>)
    ensures
        default == default_from(0, key@),
{
    let props = node_props();
    let mut i: usize = 0;
    while i < 6
        invariant
            i <= 6,
            forall|k: int|
                0 <= k < 6 ==> (#[trigger] props@[k]).key@ == prop_row(k).0 && props@[k].default
                    == prop_row(k).2,
            default_from(0, key@) == default_from(i as int, key@),
        decreases 6 - i,
    {
        assert(props@[i as int].key@ == prop_row(i as int).0);
        if same_text(props[i].key, key) {
            return Some(props[i].default);
        }
        i += 1;
    }
    None
}

/// A property that was written.
#[derive(Debug, PartialEq, Eq)]
pub struct Prop<N> {
    pub key: String,
    pub value: PropValue<N>,
}

/// The first property of a key.
pub open spec fn prop_in<N>(props: Seq<Prop<N>>, key: Seq<char>) -> Option<PropValue<N>>
    decreases props.len(),
{
    if props.len() == 0 {
        None
    } else if props[0].key@ == key {
        Some(props[0].value)
    } else {
        prop_in(props.drop_first(), key)
    }
}

/// A number that may not have been written: where it was not, or something else was, the table says,
/// and where the table says nothing, it is zero.
pub open spec fn number_in<N>(props: Seq<Prop<N>>, key: Seq<char>) -> Number<N> {
    match prop_in(props, key) {
        Some(PropValue::Number(value)) => value,
        _ => match default_from(0, key) {
            Some(PropDefault::Number(value)) => Number::Whole(value),
            _ => Number::Whole(0),
        },
    }
}

/// Number of candidates of a property.
pub open spec fn candidates(key: Seq<char>) -> int {
    if key == "anchor"@ {
        9
    } else {
        0
    }
}

/// A choice that may not have been written: where it was not, something else was, or there is no such
/// candidate, it is the first.
pub open spec fn variant_in<N>(props: Seq<Prop<N>>, key: Seq<char>) -> int {
    match prop_in(props, key) {
        Some(PropValue::Variant(index)) => if index < candidates(key) {
            index as int
        } else {
            0
        },
        _ => 0,
    }
}

/// A node of a document.
#[derive(Debug, PartialEq, Eq)]
pub struct DocNode<N> {
    id: NodeId,
    kind: String,
    props: Vec<Prop<N>>,
}

impl<N> DocNode<N> {
    /// The identity.
    pub closed spec fn ident(&self) -> NodeId {
        self.id
    }

    /// The kind.
    pub closed spec fn sort(&self) -> Seq<char> {
        self.kind@
    }

    /// The properties that were written.
    pub closed spec fn written(&self) -> Seq<Prop<N>> {
        self.props@
    }

    pub fn id(&self) -> (id: NodeId)
        ensures
            id == self.ident(),
    {
        self.id
    }

    /// The kind, such as `panel` or `label`.
    pub fn kind(&self) -> (kind: &str)
        ensures
            kind@ == self.sort(),
    {
        self.kind.as_str()
    }

    fn find(&self, key: &str) -> (found: Option<usize>)
        ensures
            found is Some == prop_in(self.written(), key@) is Some,
            found matches Some(i) ==> {
                &&& i < self.written().len()
                &&& self.written()[i as int].key@ == key@
                &&& prop_in(self.written(), key@) == Some(self.written()[i as int].value)
                &&& forall|j: int| 0 <= j < i ==> (#[trigger] self.written()[j]).key@ != key@
            },
            found is None ==> forall|j: int|
                0 <= j < self.written().len() ==> (#[trigger] self.written()[j]).key@ != key@,
    {
        let ghost all = self.props@;
        let mut i: usize = 0;
        assert(all.skip(0) =~= all);
        while i < self.props.len()
            invariant
                i <= self.props@.len(),
                all == self.props@,
                prop_in(all, key@) == prop_in(all.skip(i as int), key@),
                forall|j: int| 0 <= j < i ==> (#[trigger] all[j]).key@ != key@,
            decreases self.props@.len() - i,
        {
            proof {
                assert(all.skip(i as int)[0] == all[i as int]);
                assert(all.skip(i as int).drop_first() =~= all.skip(i + 1));
            }
            if same_text(self.props[i].key.as_str(), key) {
                return Some(i);
            }
            i += 1;
        }
        None
    }

    /// A property; none if it was not written.
    pub fn prop(&self, key: &str) -> (value: Option<&PropValue<N>>)
        ensures
            value is Some == prop_in(self.written(), key@) is Some,
            value matches Some(value) ==> prop_in(self.written(), key@) == Some(*value),
    {
        match self.find(key) {
            Some(i) => Some(&self.props[i].value),
            None => None,
        }
    }

    /// A choice. A document comes from outside: what does not fit is passed over, not refused.
    pub fn variant(&self, key: &str) -> (index: usize)
        ensures
            index == variant_in(self.written(), key@),
    {
        let count: usize = if same_text(key, "anchor") {
            9
        } else {
            0
        };
        match self.prop(key) {
            Some(PropValue::Variant(index)) => {
                if *index < count {
                    *index
                } else {
                    0
                }
            },
            _ => 0,
        }
    }

    /// Writes a property, in place of what was written under the key.
    pub fn set(&mut self, key: &str, value: PropValue<N>)
        ensures
            final(self).ident() == old(self).ident(),
            final(self).sort() == old(self).sort(),
            prop_in(final(self).written(), key@) == Some(value),
            forall|other: Seq<char>| #![auto]
                other != key@ ==> prop_in(final(self).written(), other) == prop_in(
                    old(self).written(),
                    other,
                ),
    {
        let ghost before = self.props@;
        let ghost set = value;
        match self.find(key) {
            Some(i) => {
                let prop = Prop { key: key.to_owned(), value };
                self.props.set(i, prop);
                proof {
                    let after = self.props@;
                    assert(after[i as int].key@ == key@);
                    first_of_key(after, key@, i as int);
                    assert forall|other: Seq<char>| other != key@ implies prop_in(after, other)
                        == #[trigger] prop_in(before, other) by {
                        other_keys_stay(before, after, i as int, other);
                    }
                }
            },
            None => {
                let prop = Prop { key: key.to_owned(), value };
                self.props.push(prop);
                proof {
                    let after = self.props@;
                    first_of_key(after, key@, before.len() as int);
                    assert forall|other: Seq<char>| other != key@ implies prop_in(after, other)
                        == #[trigger] prop_in(before, other) by {
                        assert(after =~= before.push(after.last()));
                        pushed_keys(before, after.last(), other);
                    }
                }
            },
        }
    }
}

impl<N: Copy> DocNode<N> {
    /// A number. A document comes from outside: what does not fit is passed over, not refused.
    pub fn number(&self, key: &str) -> (number: Number<N>)
        ensures
            number == number_in(self.written(), key@),
    {
        match self.prop(key) {
            Some(PropValue::Number(value)) => *value,
            _ => match default_of(key) {
                Some(PropDefault::Number(value)) => Number::Whole(value),
                _ => Number::Whole(0),
            },
        }
    }
}

proof fn first_of_key<N>(props: Seq<Prop<N>>, key: Seq<char>, i: int)
    requires
        0 <= i < props.len(),
        props[i].key@ == key,
        forall|j: int| 0 <= j < i ==> (#[trigger] props[j]).key@ != key,
    ensures
        prop_in(props, key) == Some(props[i].value),
    decreases i,
{
    if i > 0 {
        assert(props[0].key@ != key);
        let rest = props.drop_first();
        assert forall|j: int| 0 <= j < i - 1 implies (#[trigger] rest[j]).key@ != key by {
            assert(rest[j] == props[j + 1]);
        }
        first_of_key(rest, key, i - 1);
    }
}

proof fn other_keys_stay<N>(before: Seq<Prop<N>>, after: Seq<Prop<N>>, i: int, other: Seq<char>)
    requires
        0 <= i < before.len(),
        after.len() == before.len(),
        after[i].key@ == before[i].key@,
        before[i].key@ != other,
        forall|j: int| 0 <= j < before.len() && j != i ==> #[trigger] after[j] == before[j],
    ensures
        prop_in(after, other) == prop_in(before, other),
    decreases before.len(),
{
    if i == 0 {
        assert(after.drop_first() =~= before.drop_first());
    } else {
        assert(after[0] == before[0]);
        let a = after.drop_first();
        let b = before.drop_first();
        assert forall|j: int| 0 <= j < b.len() && j != i - 1 implies #[trigger] a[j] == b[j] by {
            assert(after[j + 1] == before[j + 1]);
        }
        other_keys_stay(b, a, i - 1, other);
    }
}

proof fn pushed_keys<N>(props: Seq<Prop<N>>, last: Prop<N>, other: Seq<char>)
    requires
        last.key@ != other,
    ensures
        prop_in(props.push(last), other) == prop_in(props, other),
    decreases props.len(),
{
    if props.len() == 0 {
        assert(props.push(last).drop_first() =~= props);
    } else {
        assert(props.push(last).drop_first() =~= props.drop_first().push(last));
        pushed_keys(props.drop_first(), last, other);
    }
}

/// FNV-1a over bytes. It is the same in every process, so that an identity can be kept.
pub open spec fn fnv(bytes: Seq<u8>) -> u64
    decreases bytes.len(),
{
    if bytes.len() == 0 {
        0xcbf2_9ce4_8422_2325
    } else {
        (fnv(bytes.drop_last()) ^ (bytes.last() as u64)).wrapping_mul(0x0000_0100_0000_01b3)
    }
}

/// What the identity of a node is derived from: its key, or else its kind and its place.
pub open spec fn identity_path(kind: Seq<char>, key: Option<Seq<char>>, index: int) -> Seq<char> {
    match key {
        Some(key) => "key:"@ + key,
        None => kind + "#"@ + decimal(index as nat),
    }
}

/// The identity of a node.
pub open spec fn identity(kind: Seq<char>, key: Option<Seq<char>>, index: int) -> u64 {
    fnv(encode_utf8(identity_path(kind, key, index)))
}

fn hash_path(path: &str) -> (hash: u64)
    ensures
        hash == fnv(encode_utf8(path@)),
{
    let bytes = path.as_bytes();
    let mut hash: u64 = 0xcbf2_9ce4_8422_2325;
    let mut i: usize = 0;
    assert(bytes@.take(0) =~= Seq::<u8>::empty());
    while i < bytes.len()
        invariant
            i <= bytes@.len(),
            hash == fnv(bytes@.take(i as int)),
        decreases bytes@.len() - i,
    {
        proof {
            assert(bytes@.take(i + 1).drop_last() =~= bytes@.take(i as int));
            assert(bytes@.take(i + 1).last() == bytes@[i as int]);
        }
        hash = (hash ^ (bytes[i] as u64)).wrapping_mul(0x0000_0100_0000_01b3);
        i += 1;
    }
    assert(bytes@.take(i as int) =~= bytes@);
    hash
}

fn derive_id(kind: &str, key: Option<&str>, index: usize) -> (id: NodeId)
    ensures
        id.value() == identity(
            kind@,
            match key {
                Some(key) => Some(key@),
                None => None,
            },
            index as int,
        ),
{
    let path = match key {
        Some(key) => {
            let mut path = "key:".to_owned();
            path.append(key);
            path
        },
        None => {
            let mut path = kind.to_owned();
            path.append("#");
            push_decimal(&mut path, index as u64);
            path
        },
    };
    NodeId(hash_path(path.as_str()))
}

/// A node with a key keeps its identity wherever it stands: nothing that is inserted before it moves
/// a selection to another node.
pub proof fn a_key_is_an_identity(kind: Seq<char>, key: Seq<char>, i: int, j: int)
    ensures
        identity(kind, Some(key), i) == identity(kind, Some(key), j),
{
}

/// A document: nodes in the order in which they are drawn.
#[derive(Debug, PartialEq, Eq)]
pub struct Document<N> {
    nodes: Vec<DocNode<N>>,
}

/// Where the first node of an identity stands.
pub open spec fn node_index<N>(nodes: Seq<DocNode<N>>, id: NodeId, i: int) -> Option<int>
    decreases nodes.len() - i,
{
    if i >= nodes.len() {
        None
    } else if nodes[i].ident() == id {
        Some(i)
    } else {
        node_index(nodes, id, i + 1)
    }
}

impl<N> Document<N> {
    /// The nodes.
    pub closed spec fn content(&self) -> Seq<DocNode<N>> {
        self.nodes@
    }

    pub fn new() -> (document: Self)
        ensures
            document.content() == Seq::<DocNode<N>>::empty(),
    {
        Document { nodes: Vec::new() }
    }

    /// Adds a node without properties, on top of the others, and returns its identity.
    pub fn push(&mut self, kind: &str, key: Option<&str>) -> (id: NodeId)
        ensures
            id.value() == identity(
                kind@,
                match key {
                    Some(key) => Some(key@),
                    None => None,
                },
                old(self).content().len() as int,
            ),
            final(self).content().len() == old(self).content().len() + 1,
            final(self).content().drop_last() == old(self).content(),
            final(self).content().last().ident() == id,
            final(self).content().last().sort() == kind@,
            final(self).content().last().written() == Seq::<Prop<N>>::empty(),
    {
        let id = derive_id(kind, key, self.nodes.len());
        self.nodes.push(DocNode { id, kind: kind.to_owned(), props: Vec::new() });
        assert(self.content().drop_last() =~= old(self).content());
        id
    }

    /// The nodes, in the order in which they were added.
    pub fn nodes(&self) -> (nodes: &[DocNode<N>])
        ensures
            nodes@ == self.content(),
    {
        self.nodes.as_slice()
    }

    fn find(&self, id: NodeId) -> (found: Option<usize>)
        ensures
            found is Some == node_index(self.content(), id, 0) is Some,
            found matches Some(i) ==> i < self.content().len() && node_index(self.content(), id, 0)
                == Some(i as int) && self.content()[i as int].ident() == id,
    {
        let mut i: usize = 0;
        while i < self.nodes.len()
            invariant
                i <= self.nodes@.len(),
                node_index(self.nodes@, id, 0) == node_index(self.nodes@, id, i as int),
            decreases self.nodes@.len() - i,
        {
            if self.nodes[i].id == id {
                return Some(i);
            }
            i += 1;
        }
        None
    }

    /// The node of an identity.
    pub fn node_by_id(&self, id: NodeId) -> (node: Option<&DocNode<N>>)
        ensures
            node is Some == node_index(self.content(), id, 0) is Some,
            node matches Some(node) ==> *node == self.content()[node_index(
                self.content(),
                id,
                0,
            )->0],
    {
        match self.find(id) {
            Some(i) => Some(&self.nodes[i]),
            None => None,
        }
    }

    /// The node of an identity, to be changed.
    pub fn node_mut(&mut self, id: NodeId) -> (node: Option<&mut DocNode<N>>)
        ensures
            node is Some == node_index(old(self).content(), id, 0) is Some,
            node matches Some(node) ==> *node == old(self).content()[node_index(
                old(self).content(),
                id,
                0,
            )->0],
            final(self).content() == match node {
                Some(node) => old(self).content().update(
                    node_index(old(self).content(), id, 0)->0,
                    *final(node),
                ),
                None => old(self).content(),
            },
    {
        match self.find(id) {
            Some(i) => Some(&mut self.nodes[i]),
            None => None,
        }
    }
}

impl<N> Document<N> {
    /// The node that was added last, to be changed.
    pub fn last_mut(&mut self) -> (node: Option<&mut DocNode<N>>)
        ensures
            node is Some == (old(self).content().len() > 0),
            node matches Some(node) ==> *node == old(self).content().last(),
            final(self).content() == match node {
                Some(node) => old(self).content().update(
                    old(self).content().len() - 1,
                    *final(node),
                ),
                None => old(self).content(),
            },
    {
        let n: usize = self.nodes.len();
        if n > 0 {
            Some(&mut self.nodes[n - 1])
        } else {
            None
        }
    }
}

impl<N> Default for Document<N> {
    fn default() -> (document: Self)
        ensures
            document.content() == Seq::<DocNode<N>>::empty(),
    {
        Document::new()
    }
}

/// Size and offset of a node's widget.
#[derive(Debug, Clone, Copy, PartialEq, Eq)]
pub struct NodeShape<N> {
    pub width: Number<N>,
    pub height: Number<N>,
    pub x: Number<N>,
    pub y: Number<N>,
}

/// The widget of a node.
pub open spec fn widget_for<N>(node: DocNode<N>) -> Widget<NodeShape<N>> {
    Widget {
        id: node.ident().widget_id(),
        anchor: anchor_of(variant_in(node.written(), "anchor"@)),
        shape: NodeShape {
            width: number_in(node.written(), "width"@),
            height: number_in(node.written(), "height"@),
            x: number_in(node.written(), "x"@),
            y: number_in(node.written(), "y"@),
        },
        overlay: false,
    }
}

fn widget_of<N: Copy>(node: &DocNode<N>) -> (widget: Widget<NodeShape<N>>)
    ensures
        widget == widget_for(*node),
{
    let shape = NodeShape {
        width: node.number("width"),
        height: node.number("height"),
        x: node.number("x"),
        y: node.number("y"),
    };
    Widget::new(node.id().ui_id(), anchor_at(node.variant("anchor")), shape)
}

/// A tree with one widget per node, in the same order, and nothing placed yet: where is up to the
/// area that the document is shown in.
pub fn instantiate<N: Copy, R: Copy>(document: &Document<N>) -> (tree: UiTree<NodeShape<N>, R>)
    ensures
        tree.added() == document.content().map_values(|node: DocNode<N>| widget_for(node)),
        tree.places().len() == 0,
{
    let mut tree: UiTree<NodeShape<N>, R> = UiTree::new();
    let nodes = document.nodes();
    let ghost all = document.content();
    let mut i: usize = 0;
    while i < nodes.len()
        invariant
            i <= nodes@.len(),
            nodes@ == all,
            tree.places().len() == 0,
            tree.added() == all.take(i as int).map_values(|node: DocNode<N>| widget_for(node)),
        decreases nodes@.len() - i,
    {
        tree.add(widget_of(&nodes[i]));
        assert(tree.added() =~= all.take(i + 1).map_values(|node: DocNode<N>| widget_for(node)));
        i += 1;
    }
    assert(all.take(i as int) =~= all);
    tree
}

/// What is written under a key is the value of the first property of that key.
pub proof fn the_first_property_of_a_key_counts<N>(props: Seq<Prop<N>>, key: Seq<char>)
    ensures
        match prop_in(props, key) {
            Some(value) => exists|i: int|
                0 <= i < props.len() && (#[trigger] props[i]).key@ == key && props[i].value == value && forall|j: int|
                    0 <= j < i ==> (#[trigger] props[j]).key@ != key,
            None => forall|i: int| 0 <= i < props.len() ==> (#[trigger] props[i]).key@ != key,
        },
    decreases props.len(),
{
    if props.len() > 0 {
        if props[0].key@ == key {
            assert(props[0].value == prop_in(props, key)->0);
        } else {
            let rest = props.drop_first();
            the_first_property_of_a_key_counts(rest, key);
            if prop_in(rest, key) is Some {
                let value = prop_in(rest, key)->0;
                let i = choose|i: int|
                    0 <= i < rest.len() && (#[trigger] rest[i]).key@ == key && rest[i].value == value
                        && forall|j: int| 0 <= j < i ==> (#[trigger] rest[j]).key@ != key;
                assert(props[i + 1] == rest[i]);
                assert forall|j: int| 0 <= j < i + 1 implies (#[trigger] props[j]).key@ != key by {
                    if j > 0 {
                        assert(rest[j - 1] == props[j]);
                    }
                }
            } else {
                assert forall|i: int| 0 <= i < props.len() implies (#[trigger] props[i]).key@ != key by {
                    if i > 0 {
                        assert(rest[i - 1] == props[i]);
                    }
                }
            }
        }
    }
}

/// A node is shown as it is written: where its offsets, its size or its anchor are written, they count; where
/// they are not, or do not fit, it stands in the top left corner without offset, in the size of the table.
pub proof fn a_node_is_shown_as_it_is_written<N>(node: DocNode<N>)
    ensures
        ({
            let shown = widget_for(node);
            let at = |key: Seq<char>| prop_in(node.written(), key);
            &&& shown.id == node.ident().widget_id()
            &&& !shown.overlay
            &&& at("x"@) matches Some(PropValue::Number(value)) ==> shown.shape.x == value
            &&& at("y"@) matches Some(PropValue::Number(value)) ==> shown.shape.y == value
            &&& at("width"@) matches Some(PropValue::Number(value)) ==> shown.shape.width == value
            &&& at("height"@) matches Some(PropValue::Number(value)) ==> shown.shape.height == value
            &&& at("anchor"@) matches Some(PropValue::Variant(index)) ==> (index < 9 ==> shown.anchor.cell() == (
                index as int % 3,
                index as int / 3,
            ))
            &&& at("x"@) is None ==> shown.shape.x == Number::<N>::Whole(0)
            &&& at("y"@) is None ==> shown.shape.y == Number::<N>::Whole(0)
            &&& at("width"@) is None ==> shown.shape.width == Number::<N>::Whole(120)
            &&& at("height"@) is None ==> shown.shape.height == Number::<N>::Whole(32)
            &&& at("anchor"@) is None ==> shown.anchor == Anchor::TopLeft
            &&& at("anchor"@) matches Some(PropValue::Variant(index)) ==> (index >= 9 ==> shown.anchor
                == Anchor::TopLeft)
        }),
{
    reveal_strlit("name");
    reveal_strlit("anchor");
    reveal_strlit("x");
    reveal_strlit("y");
    reveal_strlit("width");
    reveal_strlit("height");
    assert("name"@.len() == 4 && "anchor"@.len() == 6 && "x"@.len() == 1 && "y"@.len() == 1 && "width"@.len()
        == 5 && "height"@.len() == 6);
    assert("x"@[0] != "y"@[0]);
    assert("anchor"@[0] != "height"@[0]);
    reveal_with_fuel(default_from, 7);
}

/// The node that is found is the first of the identity, and none is found only if there is none.
pub proof fn the_first_node_is_found<N>(nodes: Seq<DocNode<N>>, id: NodeId, i: int)
    requires
        0 <= i <= nodes.len(),
    ensures
        match node_index(nodes, id, i) {
            Some(at) => i <= at < nodes.len() && nodes[at].ident() == id && forall|j: int|
                i <= j < at ==> (#[trigger] nodes[j]).ident() != id,
            None => forall|j: int| i <= j < nodes.len() ==> (#[trigger] nodes[j]).ident() != id,
        },
    decreases nodes.len() - i,
{
    if i < nodes.len() && nodes[i].ident() != id {
        the_first_node_is_found(nodes, id, i + 1);
    }
}

/// The names of the anchors say where they stand: the row, then the column, and the middle of all has one word for
/// both.
pub proof fn anchors_are_named_by_row_and_column(i: int)
    requires
        0 <= i < 9,
        i != 4,
    ensures
        ({
            let row = if i / 3 == 0 {
                "top"@
            } else if i / 3 == 1 {
                "center"@
            } else {
                "bottom"@
            };
            let column = if i % 3 == 0 {
                "left"@
            } else if i % 3 == 1 {
                "center"@
            } else {
                "right"@
            };
            anchor_name(i) == row + "-"@ + column
        }),
        anchor_name(4) == "center"@,
{
    reveal_strlit("top");
    reveal_strlit("center");
    reveal_strlit("bottom");
    reveal_strlit("left");
    reveal_strlit("right");
    reveal_strlit("-");
    reveal_strlit("top-left");
    reveal_strlit("top-center");
    reveal_strlit("top-right");
    reveal_strlit("center-left");
    reveal_strlit("center-right");
    reveal_strlit("bottom-left");
    reveal_strlit("bottom-center");
    reveal_strlit("bottom-right");
    assert("top-left"@ =~= "top"@ + "-"@ + "left"@);
    assert("top-center"@ =~= "top"@ + "-"@ + "center"@);
    assert("top-right"@ =~= "top"@ + "-"@ + "right"@);
    assert("center-left"@ =~= "center"@ + "-"@ + "left"@);
    assert("center-right"@ =~= "center"@ + "-"@ + "right"@);
    assert("bottom-left"@ =~= "bottom"@ + "-"@ + "left"@);
    assert("bottom-center"@ =~= "bottom"@ + "-"@ + "center"@);
    assert("bottom-right"@ =~= "bottom"@ + "-"@ + "right"@);
}

/// Offsets go as far to one side as to the other, sizes are never negative, and every default is within its bounds,
/// a whole number of steps from the lower one.
pub proof fn the_bounds_suit_the_properties(i: int)
    requires
        0 <= i < 6,
    ensures
        prop_bounds(i) is Some <==> prop_row(i).2 is Number,
        prop_row(i).0 == "x"@ || prop_row(i).0 == "y"@ ==> (prop_bounds(i) matches Some((min, max, _)) && min == -max
            && max > 0),
        prop_row(i).0 == "width"@ || prop_row(i).0 == "height"@ ==> (prop_bounds(i) matches Some((min, max, _)) && min
            == 0 && max > 0),
        prop_bounds(i) matches Some((min, max, step)) ==> (prop_row(i).2 matches PropDefault::Number(value) && min
            <= value <= max && (value - min) % (step as int) == 0),
{
    reveal_strlit("name");
    reveal_strlit("anchor");
    reveal_strlit("x");
    reveal_strlit("y");
    reveal_strlit("width");
    reveal_strlit("height");
    assert("name"@.len() == 4 && "anchor"@.len() == 6 && "x"@.len() == 1 && "y"@.len() == 1 && "width"@.len() == 5
        && "height"@.len() == 6);
    assert("anchor"@[0] != "height"@[0]);
    assert("x"@[0] != "y"@[0]);
}

/// What an identity is derived from tells nodes without a key apart by their places, and a key counts whatever the
/// kind of its node.
pub proof fn places_tell_nodes_apart(kind: Seq<char>, other: Seq<char>, key: Seq<char>, i: int, j: int)
    requires
        0 <= i,
        0 <= j,
    ensures
        identity_path(kind, None, i) == identity_path(kind, None, j) ==> i == j,
        identity_path(kind, Some(key), i) == identity_path(other, Some(key), j),
        identity_path(kind, Some(key), i) == "key:"@ + key,
        identity_path(kind, None, i) == kind + "#"@ + decimal(i as nat),
{
    if identity_path(kind, None, i) == identity_path(kind, None, j) {
        let n = kind.len() + "#"@.len();
        let (a, b) = (identity_path(kind, None, i), identity_path(kind, None, j));
        assert(a.skip(n as int) =~= decimal(i as nat));
        assert(b.skip(n as int) =~= decimal(j as nat));
        decimal_notation_stands_for_the_number(i as nat);
        decimal_notation_stands_for_the_number(j as nat);
    }
}

} // verus!
