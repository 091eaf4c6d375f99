//! Laying text out: where the pen goes, which glyphs have to be made, and what is drawn.
//!
//! `P` is a position of the pen and `R` a rectangle. How far a glyph moves the pen, what its image
//! is and where that stands is geometry over real numbers and is handed in.

use crate::shared::pushed_contains;
use crate::ui::draw::{GlyphKey, Quad, QuadSource};
use crate::ui::text::{text_keys, GlyphBitmap, TextShaper};
use ab_glyph::FontVec;
use vstd::prelude::*;

verus! {

/// The lists, each as a sequence.
pub open spec fn rows<T>(lists: Seq<Vec<T>>) -> Seq<Seq<T>> {
    Seq::new(lists.len(), |i: int| lists[i]@)
}

/// Whether the pen goes these ways along a line: each glyph moves it on.
pub open spec fn is_run<P, A: Fn(&FontVec, P, u16) -> P>(
    face: FontVec,
    advance: A,
    keys: Seq<GlyphKey>,
    run: Seq<P>,
) -> bool {
    &&& run.len() == keys.len() + 1
    &&& forall|j: int|
        0 <= j < keys.len() ==> call_ensures(
            advance,
            (&face, run[j], (#[trigger] keys[j]).glyph),
            run[j + 1],
        )
}

/// Whether the pen goes these ways along the lines. The first line starts at the origin, and each
/// other one where the start of the line before it leads.
pub open spec fn are_runs<P, A: Fn(&FontVec, P, u16) -> P, L: Fn(P) -> P>(
    face: FontVec,
    advance: A,
    next_line: L,
    origin: P,
    lines: Seq<Seq<GlyphKey>>,
    runs: Seq<Seq<P>>,
) -> bool {
    &&& runs.len() == lines.len()
    &&& forall|i: int| 0 <= i < lines.len() ==> is_run(face, advance, lines[i], #[trigger] runs[i])
    &&& lines.len() > 0 ==> runs[0][0] == origin
    &&& forall|i: int|
        1 <= i < lines.len() ==> call_ensures(next_line, (runs[i - 1][0],), (#[trigger] runs[i])[0])
}

/// The glyphs of the first `n` lines, one after another.
pub open spec fn joined(lines: Seq<Seq<GlyphKey>>, n: int) -> Seq<GlyphKey>
    decreases n,
{
    if n <= 0 {
        seq![]
    } else {
        joined(lines, n - 1) + lines[n - 1]
    }
}

/// Of the first `n` glyphs, those that can be seen and were not known before, each once.
pub open spec fn newly_seen<O>(
    known: Map<GlyphKey, GlyphBitmap<O>>,
    keys: Seq<GlyphKey>,
    bitmaps: Map<GlyphKey, GlyphBitmap<O>>,
    n: int,
) -> Seq<GlyphKey>
    decreases n,
{
    if n <= 0 {
        seq![]
    } else {
        let before = newly_seen(known, keys, bitmaps, n - 1);
        let key = keys[n - 1];
        if !known.contains_key(key) && !keys.take(n - 1).contains(key) && bitmaps[key].visible() {
            before.push(key)
        } else {
            before
        }
    }
}

/// Whether the glyphs were added to those known: all of them are there now, those known as they
/// were, the others as they were made, and nothing else.
pub open spec fn were_made<O, M: Fn(&FontVec, GlyphKey) -> GlyphBitmap<O>>(
    face: FontVec,
    make: M,
    known: Map<GlyphKey, GlyphBitmap<O>>,
    keys: Seq<GlyphKey>,
    bitmaps: Map<GlyphKey, GlyphBitmap<O>>,
) -> bool {
    &&& forall|key: GlyphKey| #[trigger]
        bitmaps.contains_key(key) <==> known.contains_key(key) || keys.contains(key)
    &&& forall|key: GlyphKey| #[trigger] known.contains_key(key) ==> bitmaps[key] == known[key]
    &&& forall|key: GlyphKey| #[trigger]
        bitmaps.contains_key(key) && !known.contains_key(key) ==> call_ensures(
            make,
            (&face, key),
            bitmaps[key],
        )
}

/// The first `n` glyphs of a line that can be seen, each with its pen.
pub open spec fn line_spots<P, O>(
    keys: Seq<GlyphKey>,
    run: Seq<P>,
    bitmaps: Map<GlyphKey, GlyphBitmap<O>>,
    n: int,
) -> Seq<(GlyphKey, P)>
    decreases n,
{
    if n <= 0 {
        seq![]
    } else {
        let before = line_spots(keys, run, bitmaps, n - 1);
        if bitmaps[keys[n - 1]].visible() {
            before.push((keys[n - 1], run[n - 1]))
        } else {
            before
        }
    }
}

/// The glyphs of the first `n` lines that can be seen, each with its pen.
pub open spec fn spots<P, O>(
    lines: Seq<Seq<GlyphKey>>,
    runs: Seq<Seq<P>>,
    bitmaps: Map<GlyphKey, GlyphBitmap<O>>,
    n: int,
) -> Seq<(GlyphKey, P)>
    decreases n,
{
    if n <= 0 {
        seq![]
    } else {
        spots(lines, runs, bitmaps, n - 1) + line_spots(
            lines[n - 1],
            runs[n - 1],
            bitmaps,
            lines[n - 1].len() as int,
        )
    }
}

/// Whether these are the quads of the glyphs: one for each, of the color, where its image stands.
pub open spec fn are_quads<P, O, R, W: Fn(P, &GlyphBitmap<O>) -> R>(
    quads: Seq<Quad<R>>,
    spots: Seq<(GlyphKey, P)>,
    bitmaps: Map<GlyphKey, GlyphBitmap<O>>,
    color: [u8; 4],
    place: W,
) -> bool {
    &&& quads.len() == spots.len()
    &&& forall|k: int|
        0 <= k < quads.len() ==> {
            &&& (#[trigger] quads[k]).source == QuadSource::Glyph(spots[k].0)
            &&& quads[k].color == color
            &&& call_ensures(place, (spots[k].1, &bitmaps[spots[k].0]), quads[k].rect)
        }
}

proof fn newly_seen_depends_on_the_keys<O>(
    known: Map<GlyphKey, GlyphBitmap<O>>,
    a_keys: Seq<GlyphKey>,
    b_keys: Seq<GlyphKey>,
    a: Map<GlyphKey, GlyphBitmap<O>>,
    b: Map<GlyphKey, GlyphBitmap<O>>,
    n: int,
)
    requires
        0 <= n <= a_keys.len(),
        n <= b_keys.len(),
        a_keys.take(n) == b_keys.take(n),
        forall|i: int|
            0 <= i < n ==> !known.contains_key(#[trigger] a_keys[i]) ==> a[a_keys[i]] == b[a_keys[i]],
    ensures
        newly_seen(known, a_keys, a, n) == newly_seen(known, b_keys, b, n),
    decreases n,
{
    if n > 0 {
        assert(a_keys.take(n)[n - 1] == a_keys[n - 1]);
        assert(b_keys.take(n)[n - 1] == b_keys[n - 1]);
        assert(a_keys.take(n - 1) =~= a_keys.take(n).take(n - 1));
        assert(b_keys.take(n - 1) =~= b_keys.take(n).take(n - 1));
        newly_seen_depends_on_the_keys(known, a_keys, b_keys, a, b, n - 1);
    }
}

/// The ways of the pen along the lines.
fn runs_of<P: Copy, A: Fn(&FontVec, P, u16) -> P, L: Fn(P) -> P>(
    face: &FontVec,
    lines: &Vec<Vec<GlyphKey>>,
    origin: P,
    advance: A,
    next_line: L,
) -> (runs: Vec<Vec<P>>)
    requires
        forall|pen: P, glyph: u16| #[trigger] call_requires(advance, (face, pen, glyph)),
        forall|pen: P| #[trigger] call_requires(next_line, (pen,)),
    ensures
        are_runs(*face, advance, next_line, origin, rows(lines@), rows(runs@)),
{
    let mut runs: Vec<Vec<P>> = Vec::new();
    let mut start: P = origin;
    let mut i: usize = 0;
    while i < lines.len()
        invariant
            i <= lines@.len(),
            forall|pen: P, glyph: u16| #[trigger] call_requires(advance, (face, pen, glyph)),
            forall|pen: P| #[trigger] call_requires(next_line, (pen,)),
            are_runs(*face, advance, next_line, origin, rows(lines@).take(i as int), rows(runs@)),
            i == 0 ==> start == origin,
            i > 0 ==> start == rows(runs@)[i - 1][0],
        decreases lines@.len() - i,
    {
        let ghost before = rows(runs@);
        if i > 0 {
            start = next_line(start);
        }
        let line = &lines[i];
        let mut run: Vec<P> = Vec::new();
        let mut pen: P = start;
        run.push(pen);
        let mut j: usize = 0;
        while j < line.len()
            invariant
                j <= line@.len(),
                forall|pen: P, glyph: u16| #[trigger] call_requires(advance, (face, pen, glyph)),
                is_run(*face, advance, line@.take(j as int), run@),
                run@[0] == start,
                pen == run@[j as int],
            decreases line@.len() - j,
        {
            let ghost so_far = run@;
            pen = advance(face, pen, line[j].glyph);
            run.push(pen);
            proof {
                let keys = line@.take(j + 1);
                assert forall|k: int| 0 <= k < keys.len() implies call_ensures(
                    advance,
                    (face, run@[k], (#[trigger] keys[k]).glyph),
                    run@[k + 1],
                ) by {
                    if k < j {
                        assert(keys[k] == line@.take(j as int)[k]);
                        assert(run@[k] == so_far[k]);
                        assert(run@[k + 1] == so_far[k + 1]);
                    }
                }
            }
            j += 1;
        }
        assert(line@.take(j as int) =~= line@);
        runs.push(run);
        proof {
            let after = rows(runs@);
            let taken = rows(lines@).take(i + 1);
            assert forall|k: int| 0 <= k < taken.len() implies is_run(
                *face,
                advance,
                taken[k],
                #[trigger] after[k],
            ) by {
                if k < i {
                    assert(after[k] == before[k]);
                    assert(taken[k] == rows(lines@).take(i as int)[k]);
                }
            }
            assert(i > 0 ==> after[0] == before[0]);
            assert forall|k: int| 1 <= k < taken.len() implies call_ensures(
                next_line,
                (after[k - 1][0],),
                (#[trigger] after[k])[0],
            ) by {
                assert(after[k - 1] == before[k - 1]);
                if k < i {
                    assert(after[k] == before[k]);
                }
            }
        }
        i += 1;
    }
    assert(rows(lines@).take(i as int) =~= rows(lines@));
    runs
}

impl<O> TextShaper<O> {
    /// Makes the glyphs that are not there.
    fn make_missing<M: Fn(&FontVec, GlyphKey) -> GlyphBitmap<O>>(
        &mut self,
        lines: &Vec<Vec<GlyphKey>>,
        make: M,
    )
        requires
            old(self).wf(),
            forall|key: GlyphKey| #[trigger] call_requires(make, (&old(self).face(), key)),
            forall|key: GlyphKey, image: GlyphBitmap<O>| #[trigger]
                call_ensures(make, (&old(self).face(), key), image) ==> image.key == key,
        ensures
            final(self).wf(),
            final(self).face() == old(self).face(),
            were_made(
                old(self).face(),
                make,
                old(self).bitmaps(),
                joined(rows(lines@), lines@.len() as int),
                final(self).bitmaps(),
            ),
            final(self).pending() == old(self).pending() + newly_seen(
                old(self).bitmaps(),
                joined(rows(lines@), lines@.len() as int),
                final(self).bitmaps(),
                joined(rows(lines@), lines@.len() as int).len() as int,
            ),
    {
        let ghost known = self.bitmaps();
        let ghost face = self.face();
        let ghost waiting = self.pending();
        let ghost all = rows(lines@);
        let mut i: usize = 0;
        assert(self.pending() =~= waiting + newly_seen(known, joined(all, 0), self.bitmaps(), 0));
        while i < lines.len()
            invariant
                i <= lines@.len(),
                all == rows(lines@),
                self.wf(),
                self.face() == face,
                forall|key: GlyphKey| #[trigger] call_requires(make, (&face, key)),
                forall|key: GlyphKey, image: GlyphBitmap<O>| #[trigger]
                    call_ensures(make, (&face, key), image) ==> image.key == key,
                were_made(face, make, known, joined(all, i as int), self.bitmaps()),
                self.pending() == waiting + newly_seen(
                    known,
                    joined(all, i as int),
                    self.bitmaps(),
                    joined(all, i as int).len() as int,
                ),
            decreases lines@.len() - i,
        {
            let line = &lines[i];
            let ghost head = joined(all, i as int);
            let mut j: usize = 0;
            assert(head + line@.take(0) =~= head);
            while j < line.len()
                invariant
                    j <= line@.len(),
                    self.wf(),
                    self.face() == face,
                    forall|key: GlyphKey| #[trigger] call_requires(make, (&face, key)),
                    forall|key: GlyphKey, image: GlyphBitmap<O>| #[trigger]
                        call_ensures(make, (&face, key), image) ==> image.key == key,
                    were_made(face, make, known, head + line@.take(j as int), self.bitmaps()),
                    self.pending() == waiting + newly_seen(
                        known,
                        head + line@.take(j as int),
                        self.bitmaps(),
                        (head.len() + j) as int,
                    ),
                decreases line@.len() - j,
            {
                let key = line[j];
                let ghost seen = head + line@.take(j as int);
                let ghost longer = head + line@.take(j + 1);
                let ghost before = self.bitmaps();
                let ghost queue = self.pending();
                proof {
                    assert(longer =~= seen.push(key));
                    assert(longer.take(seen.len() as int) =~= seen);
                    assert forall|k: GlyphKey| longer.contains(k) <==> seen.contains(k) || k == key by {
                        if seen.contains(k) {
                            let at = choose|at: int| 0 <= at < seen.len() && seen[at] == k;
                            assert(longer[at] == k);
                        }
                        if k == key {
                            assert(longer[seen.len() as int] == k);
                        }
                    }
                }
                if self.bitmap(key).is_none() {
                    let image = make(self.font(), key);
                    self.store(image);
                }
                proof {
                    assert forall|k: int| 0 <= k < seen.len() implies !known.contains_key(
                        #[trigger] seen[k],
                    ) ==> before[seen[k]] == self.bitmaps()[seen[k]] by {
                        assert(seen.contains(seen[k]));
                        assert(before.contains_key(seen[k]));
                    }
                    assert(seen.take(seen.len() as int) =~= seen);
                    newly_seen_depends_on_the_keys(
                        known,
                        seen,
                        longer,
                        before,
                        self.bitmaps(),
                        seen.len() as int,
                    );
                    let n = longer.len() as int;
                    assert(longer.take(n - 1) =~= seen);
                    assert(before.contains_key(key) == (known.contains_key(key) || seen.contains(key)));
                    assert(newly_seen(known, longer, self.bitmaps(), n) == if !before.contains_key(key)
                        && self.bitmaps()[key].visible() {
                        newly_seen(known, longer, self.bitmaps(), n - 1).push(key)
                    } else {
                        newly_seen(known, longer, self.bitmaps(), n - 1)
                    });
                    assert(self.pending() =~= waiting + newly_seen(known, longer, self.bitmaps(), n));
                }
                j += 1;
            }
            proof {
                assert(line@.take(j as int) =~= line@);
                assert(all[i as int] == line@);
                assert(joined(all, i + 1) == head + line@);
            }
            i += 1;
        }
    }

    /// The quads of the glyphs that can be seen.
    fn quads_of<P: Copy, R, W: Fn(P, &GlyphBitmap<O>) -> R>(
        &self,
        lines: &Vec<Vec<GlyphKey>>,
        runs: &Vec<Vec<P>>,
        color: [u8; 4],
        place: W,
    ) -> (quads: Vec<Quad<R>>)
        requires
            runs@.len() == lines@.len(),
            forall|i: int| 0 <= i < lines@.len() ==> (#[trigger] runs@[i])@.len() == lines@[i]@.len() + 1,
            forall|i: int, j: int|
                0 <= i < lines@.len() && 0 <= j < lines@[i]@.len() ==> self.bitmaps().contains_key(
                    #[trigger] lines@[i]@[j],
                ),
            forall|pen: P, image: GlyphBitmap<O>| #[trigger] call_requires(place, (pen, &image)),
        ensures
            are_quads(
                quads@,
                spots(rows(lines@), rows(runs@), self.bitmaps(), lines@.len() as int),
                self.bitmaps(),
                color,
                place,
            ),
    {
        let ghost bitmaps = self.bitmaps();
        let mut quads: Vec<Quad<R>> = Vec::new();
        let mut i: usize = 0;
        while i < lines.len()
            invariant
                i <= lines@.len(),
                bitmaps == self.bitmaps(),
                runs@.len() == lines@.len(),
                forall|i: int|
                    0 <= i < lines@.len() ==> (#[trigger] runs@[i])@.len() == lines@[i]@.len() + 1,
                forall|i: int, j: int|
                    0 <= i < lines@.len() && 0 <= j < lines@[i]@.len() ==> bitmaps.contains_key(
                        #[trigger] lines@[i]@[j],
                    ),
                forall|pen: P, image: GlyphBitmap<O>| #[trigger] call_requires(place, (pen, &image)),
                are_quads(
                    quads@,
                    spots(rows(lines@), rows(runs@), bitmaps, i as int),
                    bitmaps,
                    color,
                    place,
                ),
            decreases lines@.len() - i,
        {
            let line = &lines[i];
            let run = &runs[i];
            let ghost head = spots(rows(lines@), rows(runs@), bitmaps, i as int);
            let mut j: usize = 0;
            assert(head + line_spots(line@, run@, bitmaps, 0) =~= head);
            while j < line.len()
                invariant
                    j <= line@.len(),
                    run@.len() == line@.len() + 1,
                    bitmaps == self.bitmaps(),
                    forall|k: int|
                        0 <= k < line@.len() ==> bitmaps.contains_key(#[trigger] line@[k]),
                    forall|pen: P, image: GlyphBitmap<O>| #[trigger]
                        call_requires(place, (pen, &image)),
                    are_quads(
                        quads@,
                        head + line_spots(line@, run@, bitmaps, j as int),
                        bitmaps,
                        color,
                        place,
                    ),
                decreases line@.len() - j,
            {
                let key = line[j];
                assert(bitmaps.contains_key(line@[j as int]));
                let ghost so_far = head + line_spots(line@, run@, bitmaps, j as int);
                let ghost drawn = quads@;
                if let Some(image) = self.bitmap(key) {
                    if image.is_visible() {
                        let rect = place(run[j], image);
                        quads.push(Quad::glyph(key, rect, color));
                        proof {
                            let after = head + line_spots(line@, run@, bitmaps, j + 1);
                            assert(after =~= so_far.push((key, run@[j as int])));
                            assert forall|k: int| 0 <= k < quads@.len() implies {
                                &&& (#[trigger] quads@[k]).source == QuadSource::Glyph(after[k].0)
                                &&& quads@[k].color == color
                                &&& call_ensures(place, (after[k].1, &bitmaps[after[k].0]), quads@[k].rect)
                            } by {
                                if k < drawn.len() {
                                    assert(quads@[k] == drawn[k]);
                                    assert(after[k] == so_far[k]);
                                }
                            }
                        }
                    } else {
                        assert(head + line_spots(line@, run@, bitmaps, j + 1) =~= so_far);
                    }
                }
                j += 1;
            }
            proof {
                assert(rows(lines@)[i as int] == line@);
                assert(rows(runs@)[i as int] == run@);
            }
            i += 1;
        }
        quads
    }

    /// Lays a text out and makes the glyphs that are missing. The quads are those of the glyphs that
    /// can be seen; a space moves the pen and is not drawn.
    ///
    /// `advance` moves the pen on behind a glyph, `next_line` leads from the start of a line to that
    /// of the next one, `make` makes the image of a glyph, and `place` says where it stands.
    pub fn layout<
        P: Copy,
        R,
        A: Fn(&FontVec, P, u16) -> P,
        L: Fn(P) -> P,
        M: Fn(&FontVec, GlyphKey) -> GlyphBitmap<O>,
        W: Fn(P, &GlyphBitmap<O>) -> R,
    >(
        &mut self,
        text: &str,
        size_px: u16,
        origin: P,
        color: [u8; 4],
        advance: A,
        next_line: L,
        make: M,
        place: W,
    ) -> (quads: Vec<Quad<R>>)
        requires
            old(self).wf(),
            forall|pen: P, glyph: u16| #[trigger]
                call_requires(advance, (&old(self).face(), pen, glyph)),
            forall|pen: P| #[trigger] call_requires(next_line, (pen,)),
            forall|key: GlyphKey| #[trigger] call_requires(make, (&old(self).face(), key)),
            forall|key: GlyphKey, image: GlyphBitmap<O>| #[trigger]
                call_ensures(make, (&old(self).face(), key), image) ==> image.key == key,
            forall|pen: P, image: GlyphBitmap<O>| #[trigger] call_requires(place, (pen, &image)),
        ensures
            final(self).wf(),
            final(self).face() == old(self).face(),
            ({
                let lines = text_keys(old(self).data(), text@, size_px);
                let keys = joined(lines, lines.len() as int);
                &&& were_made(old(self).face(), make, old(self).bitmaps(), keys, final(self).bitmaps())
                &&& final(self).pending() == old(self).pending() + newly_seen(
                    old(self).bitmaps(),
                    keys,
                    final(self).bitmaps(),
                    keys.len() as int,
                )
                &&& exists|runs: Seq<Seq<P>>|
                    {
                        &&& #[trigger] are_runs(old(self).face(), advance, next_line, origin, lines, runs)
                        &&& are_quads(
                            quads@,
                            spots(lines, runs, final(self).bitmaps(), lines.len() as int),
                            final(self).bitmaps(),
                            color,
                            place,
                        )
                    }
            }),
    {
        let lines = self.shape(text, size_px);
        let ghost expected = text_keys(self.data(), text@, size_px);
        assert(rows(lines@) =~= expected);
        let runs = runs_of(self.font(), &lines, origin, advance, next_line);
        self.make_missing(&lines, make);
        proof {
            assert forall|i: int| 0 <= i < lines@.len() implies (#[trigger] runs@[i])@.len()
                == lines@[i]@.len() + 1 by {
                assert(rows(runs@)[i] == runs@[i]@);
                assert(rows(lines@)[i] == lines@[i]@);
            }
            assert forall|i: int, j: int|
                0 <= i < lines@.len() && 0 <= j < lines@[i]@.len() implies self.bitmaps().contains_key(
                #[trigger] lines@[i]@[j],
            ) by {
                joined_holds(rows(lines@), lines@.len() as int, i, j);
            }
        }
        let quads = self.quads_of(&lines, &runs, color, place);
        assert(are_runs(old(self).face(), advance, next_line, origin, expected, rows(runs@)));
        quads
    }

    /// Where the pen ends on each line of a text that starts at `origin` on every line; nothing for
    /// no text.
    pub fn measure<P: Copy, A: Fn(&FontVec, P, u16) -> P>(
        &self,
        text: &str,
        size_px: u16,
        origin: P,
        advance: A,
    ) -> (ends: Vec<P>)
        requires
            forall|pen: P, glyph: u16| #[trigger] call_requires(advance, (&self.face(), pen, glyph)),
        ensures
            text@.len() == 0 ==> ends@.len() == 0,
            text@.len() > 0 ==> {
                let lines = text_keys(self.data(), text@, size_px);
                &&& ends@.len() == lines.len()
                &&& exists|runs: Seq<Seq<P>>| #[trigger]
                    are_ends(self.face(), advance, origin, lines, runs, ends@)
            },
    {
        let mut ends: Vec<P> = Vec::new();
        if text.is_empty() {
            return ends;
        }
        let lines = self.shape(text, size_px);
        let next_line = |_pen: P| -> (start: P)
            ensures
                start == origin,
            { origin };
        let runs = runs_of(self.font(), &lines, origin, advance, next_line);
        let ghost all = rows(runs@);
        let ghost expected = text_keys(self.data(), text@, size_px);
        proof {
            assert(rows(lines@) =~= expected);
            assert forall|i: int| 0 <= i < all.len() implies is_run(
                self.face(),
                advance,
                expected[i],
                #[trigger] all[i],
            ) && all[i][0] == origin by {
                if i > 0 {
                    assert(call_ensures(next_line, (all[i - 1][0],), all[i][0]));
                }
            }
        }
        let mut i: usize = 0;
        while i < runs.len()
            invariant
                i <= runs@.len(),
                all == rows(runs@),
                expected.len() == all.len(),
                forall|k: int|
                    0 <= k < all.len() ==> is_run(self.face(), advance, expected[k], #[trigger] all[k]),
                ends@.len() == i,
                forall|k: int| 0 <= k < i ==> #[trigger] ends@[k] == all[k].last(),
            decreases runs@.len() - i,
        {
            assert(is_run(self.face(), advance, expected[i as int], all[i as int]));
            assert(all[i as int] == runs@[i as int]@);
            let run = &runs[i];
            ends.push(run[run.len() - 1]);
            i += 1;
        }
        assert(are_ends(self.face(), advance, origin, expected, all, ends@));
        ends
    }
}

/// Whether the pen goes these ways along the lines, each from the origin to its end.
pub open spec fn are_ends<P, A: Fn(&FontVec, P, u16) -> P>(
    face: FontVec,
    advance: A,
    origin: P,
    lines: Seq<Seq<GlyphKey>>,
    runs: Seq<Seq<P>>,
    ends: Seq<P>,
) -> bool {
    &&& runs.len() == lines.len() == ends.len()
    &&& forall|i: int|
        0 <= i < runs.len() ==> {
            &&& is_run(face, advance, lines[i], #[trigger] runs[i])
            &&& runs[i][0] == origin
            &&& runs[i].last() == ends[i]
        }
}

proof fn joined_holds(lines: Seq<Seq<GlyphKey>>, n: int, i: int, j: int)
    requires
        0 <= i < n <= lines.len(),
        0 <= j < lines[i].len(),
    ensures
        joined(lines, n).contains(lines[i][j]),
    decreases n,
{
    let before = joined(lines, n - 1);
    if i == n - 1 {
        assert(joined(lines, n)[before.len() + j] == lines[i][j]);
    } else {
        joined_holds(lines, n - 1, i, j);
        let at = choose|at: int| 0 <= at < before.len() && before[at] == lines[i][j];
        assert(joined(lines, n)[at] == lines[i][j]);
    }
}

/// A glyph is made once: a text whose glyphs are all known has nothing new to hand to the renderer.
pub proof fn a_known_text_makes_nothing<O>(
    known: Map<GlyphKey, GlyphBitmap<O>>,
    keys: Seq<GlyphKey>,
    bitmaps: Map<GlyphKey, GlyphBitmap<O>>,
    n: int,
)
    requires
        0 <= n <= keys.len(),
        forall|i: int| 0 <= i < keys.len() ==> known.contains_key(#[trigger] keys[i]),
    ensures
        newly_seen(known, keys, bitmaps, n) == Seq::<GlyphKey>::empty(),
    decreases n,
{
    if n > 0 {
        a_known_text_makes_nothing(known, keys, bitmaps, n - 1);
        assert(known.contains_key(keys[n - 1]));
    }
}

/// No glyph is handed to the renderer twice for one text.
pub proof fn new_glyphs_differ<O>(
    known: Map<GlyphKey, GlyphBitmap<O>>,
    keys: Seq<GlyphKey>,
    bitmaps: Map<GlyphKey, GlyphBitmap<O>>,
    n: int,
)
    requires
        0 <= n <= keys.len(),
    ensures
        newly_seen(known, keys, bitmaps, n).no_duplicates(),
        forall|i: int|
            0 <= i < newly_seen(known, keys, bitmaps, n).len() ==> keys.take(n).contains(
                #[trigger] newly_seen(known, keys, bitmaps, n)[i],
            ),
    decreases n,
{
    if n > 0 {
        new_glyphs_differ(known, keys, bitmaps, n - 1);
        let before = newly_seen(known, keys, bitmaps, n - 1);
        let after = newly_seen(known, keys, bitmaps, n);
        assert forall|i: int| 0 <= i < after.len() implies keys.take(n).contains(#[trigger] after[i]) by {
            if i < before.len() {
                assert(before[i] == after[i]);
                let head = keys.take(n - 1);
                assert(head.contains(before[i]));
                let at = choose|at: int| 0 <= at < head.len() && head[at] == after[i];
                assert(keys.take(n)[at] == after[i]);
            } else {
                assert(keys.take(n)[n - 1] == after[i]);
            }
        }
        assert forall|i: int, j: int| 0 <= i < j < after.len() implies after[i] != after[j] by {
            assert(before[i] == after[i]);
            if j < before.len() {
                assert(before[j] == after[j]);
            } else {
                assert(keys.take(n - 1).contains(before[i]));
            }
        }
    }
}

/// What is handed to the renderer is exactly what is new: every glyph of the text that can be seen and was not
/// known before.
pub proof fn new_glyphs_are_handed_on<O>(
    known: Map<GlyphKey, GlyphBitmap<O>>,
    keys: Seq<GlyphKey>,
    bitmaps: Map<GlyphKey, GlyphBitmap<O>>,
    n: int,
    key: GlyphKey,
)
    requires
        0 <= n <= keys.len(),
    ensures
        newly_seen(known, keys, bitmaps, n).contains(key) <==> keys.take(n).contains(key) && !known.contains_key(key)
            && bitmaps[key].width > 0 && bitmaps[key].height > 0,
    decreases n,
{
    if n > 0 {
        new_glyphs_are_handed_on(known, keys, bitmaps, n - 1, key);
        let before = newly_seen(known, keys, bitmaps, n - 1);
        let last = keys[n - 1];
        assert(keys.take(n) =~= keys.take(n - 1).push(last));
        pushed_contains(keys.take(n - 1), last, key);
        pushed_contains(before, last, key);
        new_glyphs_are_handed_on(known, keys, bitmaps, n - 1, last);
    } else {
        assert(keys.take(0) =~= Seq::<GlyphKey>::empty());
    }
}

proof fn line_spots_in_order<P, O>(
    keys: Seq<GlyphKey>,
    run: Seq<P>,
    bitmaps: Map<GlyphKey, GlyphBitmap<O>>,
    n: int,
)
    requires
        0 <= n <= keys.len(),
    ensures
        line_spots(keys, run, bitmaps, n).map_values(|spot: (GlyphKey, P)| spot.0) == keys.take(n).filter(
            |key: GlyphKey| bitmaps[key].visible(),
        ),
    decreases n,
{
    let seen = |key: GlyphKey| bitmaps[key].visible();
    let first = |spot: (GlyphKey, P)| spot.0;
    reveal(Seq::filter);
    if n > 0 {
        line_spots_in_order(keys, run, bitmaps, n - 1);
        assert(keys.take(n).drop_last() =~= keys.take(n - 1));
        assert(keys.take(n).last() == keys[n - 1]);
        let before = line_spots(keys, run, bitmaps, n - 1);
        if seen(keys[n - 1]) {
            assert(line_spots(keys, run, bitmaps, n).map_values(first) =~= before.map_values(first).push(keys[n - 1]));
        }
    } else {
        assert(keys.take(0) =~= Seq::<GlyphKey>::empty());
        assert(line_spots(keys, run, bitmaps, n).map_values(first) =~= Seq::<GlyphKey>::empty());
    }
}

/// Every glyph of a text that can be seen is drawn, once for each time it stands there, line by line in the order
/// of reading; those that cannot be seen are not.
pub proof fn glyphs_are_drawn_in_the_order_of_reading<P, O>(
    lines: Seq<Seq<GlyphKey>>,
    runs: Seq<Seq<P>>,
    bitmaps: Map<GlyphKey, GlyphBitmap<O>>,
    n: int,
)
    requires
        0 <= n <= lines.len(),
    ensures
        spots(lines, runs, bitmaps, n).map_values(|spot: (GlyphKey, P)| spot.0) == joined(lines, n).filter(
            |key: GlyphKey| bitmaps[key].visible(),
        ),
    decreases n,
{
    let seen = |key: GlyphKey| bitmaps[key].visible();
    let first = |spot: (GlyphKey, P)| spot.0;
    if n > 0 {
        glyphs_are_drawn_in_the_order_of_reading(lines, runs, bitmaps, n - 1);
        let line = lines[n - 1];
        line_spots_in_order(line, runs[n - 1], bitmaps, line.len() as int);
        assert(line.take(line.len() as int) =~= line);
        Seq::filter_distributes_over_add(joined(lines, n - 1), line, seen);
        let before = spots(lines, runs, bitmaps, n - 1);
        let more = line_spots(line, runs[n - 1], bitmaps, line.len() as int);
        assert((before + more).map_values(first) =~= before.map_values(first) + more.map_values(first));
    } else {
        reveal(Seq::filter);
        assert(spots(lines, runs, bitmaps, n).map_values(first) =~= Seq::<GlyphKey>::empty());
    }
}

/// The pen starts each line where the start of the line before it leads, not its end, and goes along the line glyph
/// by glyph, over those too that cannot be seen.
pub proof fn the_pen_returns_to_the_start_of_the_line<P, A: Fn(&FontVec, P, u16) -> P, L: Fn(P) -> P>(
    face: FontVec,
    advance: A,
    next_line: L,
    origin: P,
    lines: Seq<Seq<GlyphKey>>,
    runs: Seq<Seq<P>>,
    i: int,
    j: int,
)
    requires
        are_runs(face, advance, next_line, origin, lines, runs),
        0 <= i < lines.len(),
    ensures
        runs.len() == lines.len(),
        runs[i].len() == lines[i].len() + 1,
        i == 0 ==> runs[i][0] == origin,
        i > 0 ==> call_ensures(next_line, (runs[i - 1][0],), runs[i][0]),
        0 <= j < lines[i].len() ==> call_ensures(advance, (&face, runs[i][j], lines[i][j].glyph), runs[i][j + 1]),
{
    assert(is_run(face, advance, lines[i], runs[i]));
    if 0 <= j < lines[i].len() {
        let _ = lines[i][j];
    }
}

/// A glyph that can be seen is drawn where the pen stood before it.
pub proof fn a_glyph_is_drawn_where_the_pen_stood<P, O>(
    keys: Seq<GlyphKey>,
    run: Seq<P>,
    bitmaps: Map<GlyphKey, GlyphBitmap<O>>,
    n: int,
    j: int,
)
    requires
        0 <= j < n <= keys.len(),
        bitmaps[keys[j]].visible(),
    ensures
        line_spots(keys, run, bitmaps, n).contains((keys[j], run[j])),
    decreases n,
{
    let before = line_spots(keys, run, bitmaps, n - 1);
    let all = line_spots(keys, run, bitmaps, n);
    if j == n - 1 {
        assert(all[before.len() as int] == (keys[j], run[j]));
    } else {
        a_glyph_is_drawn_where_the_pen_stood(keys, run, bitmaps, n - 1, j);
        let at = choose|at: int| 0 <= at < before.len() && before[at] == (keys[j], run[j]);
        assert(all[at] == (keys[j], run[j]));
    }
}

} // verus!
