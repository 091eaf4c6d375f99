//! The document that the editor starts with.

use crate::ui::doc::{identity, prop_in, Document, Number, PropValue};
use vstd::prelude::*;

verus! {

/// Whether a property is a text.
pub open spec fn is_text<N>(value: Option<PropValue<N>>, text: Seq<char>) -> bool {
    value matches Some(PropValue::Text(written)) && written@ == text
}

/// Whether a property is a whole number.
pub open spec fn is_whole<N>(value: Option<PropValue<N>>, number: i32) -> bool {
    value == Some(PropValue::<N>::Number(Number::Whole(number)))
}

fn set_text<N>(document: &mut Document<N>, key: &str, text: &str)
    requires
        old(document).content().len() > 0,
    ensures
        written_last(*old(document), *final(document), key@),
        is_text(prop_in(final(document).content().last().written(), key@), text@),
{
    if let Some(node) = document.last_mut() {
        node.set(key, PropValue::Text(text.to_owned()));
    }
    assert(document.content().drop_last() =~= old(document).content().drop_last());
}

fn set_whole<N>(document: &mut Document<N>, key: &str, number: i32)
    requires
        old(document).content().len() > 0,
    ensures
        written_last(*old(document), *final(document), key@),
        is_whole(prop_in(final(document).content().last().written(), key@), number),
{
    if let Some(node) = document.last_mut() {
        node.set(key, PropValue::Number(Number::Whole(number)));
    }
    assert(document.content().drop_last() =~= old(document).content().drop_last());
}

fn set_variant<N>(document: &mut Document<N>, key: &str, index: usize)
    requires
        old(document).content().len() > 0,
    ensures
        written_last(*old(document), *final(document), key@),
        prop_in(final(document).content().last().written(), key@) == Some(
            PropValue::<N>::Variant(index),
        ),
{
    if let Some(node) = document.last_mut() {
        node.set(key, PropValue::Variant(index));
    }
    assert(document.content().drop_last() =~= old(document).content().drop_last());
}

/// Whether two documents differ by one property of the last node.
spec fn written_last<N>(before: Document<N>, after: Document<N>, key: Seq<char>) -> bool {
    let a = before.content();
    let b = after.content();
    &&& b.len() == a.len()
    &&& b.drop_last() == a.drop_last()
    &&& b.last().ident() == a.last().ident()
    &&& b.last().sort() == a.last().sort()
    &&& forall|other: Seq<char>| #![auto]
        other != key ==> prop_in(b.last().written(), other) == prop_in(a.last().written(), other)
}

/// Three panels: one in the middle, one near the top left, and one at the bottom right. The first two
/// have keys, so that they stay the same whatever is put before them.
pub fn sample_document<N>() -> (document: Document<N>)
    ensures
        document.content().len() == 3,
        ({
            let center = document.content()[0];
            &&& center.sort() == "panel"@
            &&& center.ident().value() == identity("panel"@, Some("center"@), 0)
            &&& is_text(prop_in(center.written(), "name"@), "中央面板"@)
            &&& prop_in(center.written(), "anchor"@) == Some(PropValue::<N>::Variant(4))
            &&& prop_in(center.written(), "x"@) is None
            &&& prop_in(center.written(), "y"@) is None
            &&& is_whole(prop_in(center.written(), "width"@), 320)
            &&& is_whole(prop_in(center.written(), "height"@), 160)
        }),
        ({
            let corner = document.content()[1];
            &&& corner.sort() == "panel"@
            &&& corner.ident().value() == identity("panel"@, Some("corner"@), 1)
            &&& is_text(prop_in(corner.written(), "name"@), "左上角"@)
            &&& prop_in(corner.written(), "anchor"@) is None
            &&& is_whole(prop_in(corner.written(), "x"@), 32)
            &&& is_whole(prop_in(corner.written(), "y"@), 32)
            &&& is_whole(prop_in(corner.written(), "width"@), 160)
            &&& is_whole(prop_in(corner.written(), "height"@), 96)
        }),
        ({
            let footer = document.content()[2];
            &&& footer.sort() == "label"@
            &&& footer.ident().value() == identity("label"@, None, 2)
            &&& is_text(prop_in(footer.written(), "name"@), "页脚"@)
            &&& prop_in(footer.written(), "anchor"@) == Some(PropValue::<N>::Variant(8))
            &&& prop_in(footer.written(), "x"@) is None
            &&& prop_in(footer.written(), "y"@) is None
            &&& is_whole(prop_in(footer.written(), "width"@), 200)
            &&& prop_in(footer.written(), "height"@) is None
        }),
{
    proof {
        keys_differ();
    }
    let mut document: Document<N> = Document::new();
    document.push("panel", Some("center"));
    set_text(&mut document, "name", "中央面板");
    set_variant(&mut document, "anchor", 4);
    set_whole(&mut document, "width", 320);
    set_whole(&mut document, "height", 160);
    let ghost first = document.content();
    document.push("panel", Some("corner"));
    set_text(&mut document, "name", "左上角");
    set_whole(&mut document, "x", 32);
    set_whole(&mut document, "y", 32);
    set_whole(&mut document, "width", 160);
    set_whole(&mut document, "height", 96);
    let ghost second = document.content();
    assert(second.drop_last() == first);
    document.push("label", None);
    set_text(&mut document, "name", "页脚");
    set_variant(&mut document, "anchor", 8);
    set_whole(&mut document, "width", 200);
    let ghost third = document.content();
    assert(third.drop_last() == second);
    assert(third[1] == second[1] && third[0] == second[0] && second[0] == first[0]) by {
        assert(third.drop_last()[1] == second[1]);
        assert(third.drop_last()[0] == second[0]);
        assert(second.drop_last()[0] == first[0]);
    }
    document
}

proof fn keys_differ()
    ensures
        "name"@ != "anchor"@,
        "name"@ != "x"@,
        "name"@ != "y"@,
        "name"@ != "width"@,
        "name"@ != "height"@,
        "anchor"@ != "x"@,
        "anchor"@ != "y"@,
        "anchor"@ != "width"@,
        "anchor"@ != "height"@,
        "x"@ != "y"@,
        "x"@ != "width"@,
        "x"@ != "height"@,
        "y"@ != "width"@,
        "y"@ != "height"@,
        "width"@ != "height"@,
{
    reveal_strlit("name");
    reveal_strlit("anchor");
    reveal_strlit("x");
    reveal_strlit("y");
    reveal_strlit("width");
    reveal_strlit("height");
    assert("name"@.len() == 4 && "anchor"@.len() == 6 && "x"@.len() == 1 && "y"@.len() == 1);
    assert("width"@.len() == 5 && "height"@.len() == 6);
    assert("x"@[0] != "y"@[0]);
    assert("anchor"@[0] != "height"@[0]);
}

} // verus!
