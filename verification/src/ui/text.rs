//! Text: which glyphs a text is made of, and which of them still have to be handed to the renderer.
//!
//! Texts are broken at line ends and nowhere else, and run from left to right. Outlines and positions
//! are geometry over real numbers and are left to the caller; `O` is the offset of a glyph from the
//! pen.

use crate::text::{a_text_is_its_parts, chars_of, parts, split};
use crate::ui::draw::GlyphKey;
use ab_glyph::{Font, FontVec, InvalidFont};
use std::collections::HashMap;
use vstd::prelude::*;
use vstd::string::StringExecFns;

verus! {

broadcast use vstd::std_specs::hash::group_hash_axioms;

/// `ab_glyph::FontVec`: a font that owns its data.
#[verifier::external_type_specification]
#[verifier::external_body]
pub struct ExFontVec(FontVec);

/// `ab_glyph::InvalidFont`: the data is not that of a font.
#[verifier::external_type_specification]
#[verifier::external_body]
pub struct ExInvalidFont(InvalidFont);

/// The data that a font was read from, as `FontVec::as_slice` gives it. A file may hold several faces;
/// every font here is read as the first of them, so the data says all there is to know of it.
pub uninterp spec fn font_data(font: FontVec) -> Seq<u8>;

/// Whether `ab_glyph` can read a font from the data, as its first face.
pub uninterp spec fn readable_font(data: Seq<u8>) -> bool;

/// The number that the first face in the data has for a character.
pub uninterp spec fn glyph_number(data: Seq<u8>, ch: char) -> u16;

/// `FontVec::try_from_vec`: reads the first face of a font. The contract claims that it depends on the data alone
/// whether that succeeds, and that the font then holds that data.
#[verifier::external_body]
fn read_font(data: Vec<u8>) -> (font: Result<FontVec, InvalidFont>)
    ensures
        font is Ok == readable_font(data@),
        font matches Ok(font) ==> font_data(font) == data@,
{
    FontVec::try_from_vec(data)
}

/// `InvalidFont::to_string`: what the error says, which is always the same word.
#[verifier::external_body]
fn reason_of(error: &InvalidFont) -> (reason: String)
    ensures
        reason@ == "InvalidFont"@,
{
    error.to_string()
}

/// `Font::glyph_id` of a `FontVec`: the number of the glyph of a character. The contract claims that
/// it depends on the data of the font, read as its first face, and the character alone. It is asked only
/// of fonts that [`read_font`] made.
#[verifier::external_body]
fn number_of(font: &FontVec, ch: char) -> (number: u16)
    ensures
        number == glyph_number(font_data(*font), ch),
{
    font.glyph_id(ch).0
}

/// A glyph as an image: for each pixel, row by row, how much of it is covered.
#[derive(Debug, PartialEq, Eq)]
pub struct GlyphBitmap<O> {
    pub key: GlyphKey,
    /// Where the image stands from the pen.
    pub offset: O,
    pub width: u32,
    pub height: u32,
    pub coverage: Vec<u8>,
}

impl<O> GlyphBitmap<O> {
    /// Whether there is anything to see.
    pub open spec fn visible(&self) -> bool {
        self.width > 0 && self.height > 0
    }

    /// Whether both are the same image at the same place.
    pub open spec fn same(&self, other: &GlyphBitmap<O>) -> bool {
        &&& self.key == other.key
        &&& self.offset == other.offset
        &&& self.width == other.width
        &&& self.height == other.height
        &&& self.coverage@ == other.coverage@
    }

    /// Whether there is anything to see: a space has no image.
    pub fn is_visible(&self) -> (visible: bool)
        ensures
            visible == self.visible(),
    {
        self.width > 0 && self.height > 0
    }
}

impl<O: Copy> GlyphBitmap<O> {
    fn copy(&self) -> (copy: Self)
        ensures
            copy.same(self),
    {
        let mut coverage: Vec<u8> = Vec::new();
        let mut i: usize = 0;
        while i < self.coverage.len()
            invariant
                i <= self.coverage@.len(),
                coverage@ == self.coverage@.take(i as int),
            decreases self.coverage@.len() - i,
        {
            coverage.push(self.coverage[i]);
            assert(coverage@ =~= self.coverage@.take(i + 1));
            i += 1;
        }
        assert(self.coverage@.take(i as int) =~= self.coverage@);
        GlyphBitmap {
            key: self.key,
            offset: self.offset,
            width: self.width,
            height: self.height,
            coverage,
        }
    }
}

/// Why there is no text.
#[derive(Debug, PartialEq, Eq)]
pub enum TextError {
    /// The font cannot be read.
    Font(String),
}

impl TextError {
    /// The error as a line of text.
    pub open spec fn shown(&self) -> Seq<char> {
        match self {
            TextError::Font(message) => "字体错误："@ + message@,
        }
    }

    /// The error as a line of text.
    pub fn display(&self) -> (line: String)
        ensures
            line@ == self.shown(),
    {
        match self {
            TextError::Font(message) => {
                let line = "字体错误：".to_owned();
                line.concat(message.as_str())
            },
        }
    }
}

/// The number that a glyph is filed under.
spec fn number(key: GlyphKey) -> int {
    key.glyph * 0x1_0000 + key.size_px
}

fn number_for(key: GlyphKey) -> (n: u32)
    ensures
        n == number(key),
{
    key.glyph as u32 * 0x1_0000 + key.size_px as u32
}

proof fn number_is_injective(a: GlyphKey, b: GlyphKey)
    requires
        number(a) == number(b),
    ensures
        a == b,
{
}

/// A font, the glyphs that were made from it, and those among them that the renderer has not got.
pub struct TextShaper<O> {
    font: FontVec,
    cache: HashMap<u32, GlyphBitmap<O>>,
    fresh: Vec<GlyphKey>,
}

/// The glyphs of one line.
pub open spec fn line_keys(data: Seq<u8>, line: Seq<char>, size_px: u16) -> Seq<GlyphKey> {
    line.map_values(|ch: char| GlyphKey { glyph: glyph_number(data, ch), size_px })
}

/// The glyphs of a text, line by line.
pub open spec fn text_keys(data: Seq<u8>, text: Seq<char>, size_px: u16) -> Seq<Seq<GlyphKey>> {
    parts(text, '\n').map_values(|line: Seq<char>| line_keys(data, line, size_px))
}

/// Whether these are the glyphs, line by line.
pub open spec fn are_lines(lines: Seq<Vec<GlyphKey>>, expected: Seq<Seq<GlyphKey>>) -> bool {
    &&& lines.len() == expected.len()
    &&& forall|i: int| 0 <= i < lines.len() ==> (#[trigger] lines[i])@ == expected[i]
}

/// Whether these are the images of the keys, in order.
pub open spec fn are_images<O>(
    images: Seq<GlyphBitmap<O>>,
    keys: Seq<GlyphKey>,
    bitmaps: Map<GlyphKey, GlyphBitmap<O>>,
) -> bool {
    &&& images.len() == keys.len()
    &&& forall|i: int| 0 <= i < images.len() ==> (#[trigger] images[i]).same(&bitmaps[keys[i]])
}

impl<O> TextShaper<O> {
    /// The font.
    pub closed spec fn face(&self) -> FontVec {
        self.font
    }

    /// The data of the font.
    pub open spec fn data(&self) -> Seq<u8> {
        font_data(self.face())
    }

    /// The glyphs that were made.
    pub closed spec fn bitmaps(&self) -> Map<GlyphKey, GlyphBitmap<O>> {
        Map::new(
            |key: GlyphKey| self.cache@.contains_key(number(key) as u32),
            |key: GlyphKey| self.cache@[number(key) as u32],
        )
    }

    /// The glyphs that the renderer has not got, in the order in which they were made.
    pub closed spec fn pending(&self) -> Seq<GlyphKey> {
        self.fresh@
    }

    /// Every glyph is filed under its own key, and what the renderer has not got was made and can be
    /// seen.
    pub open spec fn wf(&self) -> bool {
        &&& forall|key: GlyphKey| #[trigger]
            self.bitmaps().contains_key(key) ==> self.bitmaps()[key].key == key
        &&& forall|i: int|
            0 <= i < self.pending().len() ==> self.bitmaps().contains_key(#[trigger] self.pending()[i])
                && self.bitmaps()[self.pending()[i]].visible()
    }

    /// A shaper for the font in the data.
    pub fn from_bytes(bytes: Vec<u8>) -> (result: Result<Self, TextError>)
        ensures
            result is Ok == readable_font(bytes@),
            result matches Ok(shaper) ==> {
                &&& shaper.wf()
                &&& shaper.data() == bytes@
                &&& shaper.bitmaps() == Map::<GlyphKey, GlyphBitmap<O>>::empty()
                &&& shaper.pending() == Seq::<GlyphKey>::empty()
            },
            result matches Err(TextError::Font(message)) ==> message@ == "InvalidFont"@,
    {
        match read_font(bytes) {
            Ok(font) => {
                let shaper = TextShaper { font, cache: HashMap::new(), fresh: Vec::new() };
                assert(shaper.bitmaps() =~= Map::<GlyphKey, GlyphBitmap<O>>::empty());
                Ok(shaper)
            },
            Err(error) => Err(TextError::Font(reason_of(&error))),
        }
    }

    /// The font, for what is measured and outlined.
    pub fn font(&self) -> (font: &FontVec)
        ensures
            *font == self.face(),
    {
        &self.font
    }

    /// The glyphs of a text, line by line.
    pub fn shape(&self, text: &str, size_px: u16) -> (lines: Vec<Vec<GlyphKey>>)
        ensures
            are_lines(lines@, text_keys(self.data(), text@, size_px)),
    {
        let chars = chars_of(text);
        let rows = split(chars.as_slice(), '\n');
        let ghost expected = text_keys(self.data(), text@, size_px);
        let ghost all = parts(text@, '\n');
        let mut lines: Vec<Vec<GlyphKey>> = Vec::new();
        let mut i: usize = 0;
        while i < rows.len()
            invariant
                i <= rows@.len(),
                crate::text::are_parts(rows@, all),
                expected == all.map_values(|line: Seq<char>| line_keys(self.data(), line, size_px)),
                lines@.len() == i,
                forall|k: int| 0 <= k < i ==> (#[trigger] lines@[k])@ == expected[k],
            decreases rows@.len() - i,
        {
            let row = &rows[i];
            let mut line: Vec<GlyphKey> = Vec::new();
            let mut j: usize = 0;
            while j < row.len()
                invariant
                    j <= row@.len(),
                    line@ == line_keys(self.data(), row@, size_px).take(j as int),
                decreases row@.len() - j,
            {
                line.push(GlyphKey { glyph: number_of(&self.font, row[j]), size_px });
                assert(line@ =~= line_keys(self.data(), row@, size_px).take(j + 1));
                j += 1;
            }
            proof {
                assert(line@ =~= line_keys(self.data(), row@, size_px));
                assert(row@ == all[i as int]);
            }
            lines.push(line);
            i += 1;
        }
        lines
    }

    /// The image of a glyph, if it was made.
    pub fn bitmap(&self, key: GlyphKey) -> (bitmap: Option<&GlyphBitmap<O>>)
        ensures
            bitmap is Some == self.bitmaps().contains_key(key),
            bitmap matches Some(bitmap) ==> *bitmap == self.bitmaps()[key],
    {
        self.cache.get(&number_for(key))
    }

    /// Files a glyph that was made. One that is there already stays. What can be seen waits for the
    /// renderer; what cannot is filed all the same, so that it is not made again.
    pub fn store(&mut self, bitmap: GlyphBitmap<O>)
        requires
            old(self).wf(),
        ensures
            final(self).wf(),
            final(self).face() == old(self).face(),
            old(self).bitmaps().contains_key(bitmap.key) ==> {
                &&& final(self).bitmaps() == old(self).bitmaps()
                &&& final(self).pending() == old(self).pending()
            },
            !old(self).bitmaps().contains_key(bitmap.key) ==> {
                &&& final(self).bitmaps() == old(self).bitmaps().insert(bitmap.key, bitmap)
                &&& final(self).pending() == if bitmap.visible() {
                    old(self).pending().push(bitmap.key)
                } else {
                    old(self).pending()
                }
            },
    {
        let key = bitmap.key;
        if self.bitmap(key).is_some() {
            return;
        }
        let ghost made = bitmap;
        if bitmap.is_visible() {
            self.fresh.push(key);
        }
        self.cache.insert(number_for(key), bitmap);
        proof {
            let before = old(self).bitmaps();
            assert forall|k: GlyphKey| self.bitmaps().contains_key(k) == before.insert(
                key,
                made,
            ).contains_key(k) by {
                if number(k) == number(key) {
                    number_is_injective(k, key);
                }
            }
            assert forall|k: GlyphKey| self.bitmaps().contains_key(k) implies #[trigger] self.bitmaps()[k]
                == before.insert(key, made)[k] by {
                if number(k) == number(key) {
                    number_is_injective(k, key);
                }
            }
            assert(self.bitmaps() =~= before.insert(key, made));
            assert forall|i: int| 0 <= i < self.pending().len() implies self.bitmaps().contains_key(
                #[trigger] self.pending()[i],
            ) && self.bitmaps()[self.pending()[i]].visible() by {
                if i < old(self).pending().len() {
                    assert(self.pending()[i] == old(self).pending()[i]);
                }
            }
        }
    }
}

impl<O: Copy> TextShaper<O> {
    /// Hands out the glyphs that the renderer has not got; after that it has them.
    pub fn take_new_glyphs(&mut self) -> (images: Vec<GlyphBitmap<O>>)
        requires
            old(self).wf(),
        ensures
            final(self).wf(),
            final(self).face() == old(self).face(),
            final(self).bitmaps() == old(self).bitmaps(),
            final(self).pending() == Seq::<GlyphKey>::empty(),
            are_images(images@, old(self).pending(), old(self).bitmaps()),
    {
        let mut keys: Vec<GlyphKey> = Vec::new();
        std::mem::swap(&mut keys, &mut self.fresh);
        let ghost waiting = keys@;
        let ghost bitmaps = self.bitmaps();
        proof {
            assert(bitmaps =~= old(self).bitmaps());
            assert forall|k: int| 0 <= k < waiting.len() implies bitmaps.contains_key(
                #[trigger] waiting[k],
            ) by {
                assert(waiting[k] == old(self).pending()[k]);
            }
        }
        let mut images: Vec<GlyphBitmap<O>> = Vec::new();
        let mut i: usize = 0;
        while i < keys.len()
            invariant
                i <= keys@.len(),
                keys@ == waiting,
                bitmaps == self.bitmaps(),
                forall|k: int| 0 <= k < waiting.len() ==> bitmaps.contains_key(#[trigger] waiting[k]),
                images@.len() == i,
                forall|k: int| 0 <= k < i ==> (#[trigger] images@[k]).same(&bitmaps[waiting[k]]),
            decreases keys@.len() - i,
        {
            assert(bitmaps.contains_key(waiting[i as int]));
            match self.bitmap(keys[i]) {
                Some(bitmap) => {
                    images.push(bitmap.copy());
                },
                None => {},
            }
            i += 1;
        }
        images
    }
}

/// Where a font comes from, and its data as far as it could be had.
#[derive(Debug, PartialEq, Eq)]
pub enum FontSource {
    /// A file, and what was read from it, or why nothing was.
    Path(String, Result<Vec<u8>, String>),
    /// Data in memory.
    Bytes(Vec<u8>),
}

/// What is said of a font that there is no data of.
pub open spec fn unread_font(path: Seq<char>, reason: Seq<char>) -> Seq<char> {
    "读不到字体 "@ + path + "："@ + reason
}

/// What is said of data that are not those of a font.
pub open spec fn unusable_font(label: Seq<char>) -> Seq<char> {
    "字体 "@ + label + " 解析失败："@ + ("字体错误："@ + "InvalidFont"@)
}

fn shaper_for<O>(label: &str, bytes: Vec<u8>) -> (result: Result<TextShaper<O>, String>)
    ensures
        result is Ok == readable_font(bytes@),
        result matches Ok(shaper) ==> {
            &&& shaper.wf()
            &&& shaper.data() == bytes@
            &&& shaper.bitmaps() == Map::<GlyphKey, GlyphBitmap<O>>::empty()
            &&& shaper.pending() == Seq::<GlyphKey>::empty()
        },
        result matches Err(message) ==> message@ == unusable_font(label@),
{
    match TextShaper::from_bytes(bytes) {
        Ok(shaper) => Ok(shaper),
        Err(error) => {
            let mut message = "字体 ".to_owned();
            message.append(label);
            message.append(" 解析失败：");
            message.append(error.display().as_str());
            Err(message)
        },
    }
}

/// A shaper for a font, or a line that says why there is none.
pub fn load_font<O>(source: FontSource) -> (result: Result<TextShaper<O>, String>)
    ensures
        match source {
            FontSource::Path(path, Err(reason)) => result matches Err(message) && message@ == unread_font(
                path@,
                reason@,
            ),
            FontSource::Path(path, Ok(bytes)) => {
                &&& result is Ok == readable_font(bytes@)
                &&& result matches Ok(shaper) ==> {
                    &&& shaper.wf()
                    &&& shaper.data() == bytes@
                    &&& shaper.bitmaps() == Map::<GlyphKey, GlyphBitmap<O>>::empty()
                    &&& shaper.pending() == Seq::<GlyphKey>::empty()
                }
                &&& result matches Err(message) ==> message@ == unusable_font(path@)
            },
            FontSource::Bytes(bytes) => {
                &&& result is Ok == readable_font(bytes@)
                &&& result matches Ok(shaper) ==> {
                    &&& shaper.wf()
                    &&& shaper.data() == bytes@
                    &&& shaper.bitmaps() == Map::<GlyphKey, GlyphBitmap<O>>::empty()
                    &&& shaper.pending() == Seq::<GlyphKey>::empty()
                }
                &&& result matches Err(message) ==> message@ == unusable_font("<内存>"@)
            },
        },
{
    match source {
        FontSource::Path(path, Err(reason)) => {
            let mut message = "读不到字体 ".to_owned();
            message.append(path.as_str());
            message.append("：");
            message.append(reason.as_str());
            Err(message)
        },
        FontSource::Path(path, Ok(bytes)) => shaper_for(path.as_str(), bytes),
        FontSource::Bytes(bytes) => shaper_for("<内存>", bytes),
    }
}

/// A text has a line more than it has line breaks, and on each line a glyph for each character, in the size that
/// was asked for; the breaks themselves have none.
pub proof fn every_character_has_a_glyph(data: Seq<u8>, text: Seq<char>, size_px: u16, i: int, k: int)
    ensures
        text_keys(data, text, size_px).len() == parts(text, '\n').len(),
        0 <= i < parts(text, '\n').len() ==> text_keys(data, text, size_px)[i].len() == parts(text, '\n')[i].len(),
        0 <= i < parts(text, '\n').len() && 0 <= k < parts(text, '\n')[i].len() ==> {
            let key = text_keys(data, text, size_px)[i][k];
            &&& key.size_px == size_px
            &&& key.glyph == glyph_number(data, parts(text, '\n')[i][k])
            &&& parts(text, '\n')[i][k] != '\n'
        },
{
    a_text_is_its_parts(text, '\n');
}

} // verus!
