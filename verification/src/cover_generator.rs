//! The parts of a cover that need no canvas: its lines, their fonts, and how a picture fits.
use vstd::prelude::*;

use crate::parse::{split, split_spec};
use crate::text::{chars_of, replace, replace_spec, text_views};

verus! {

/// The lines of a template: it is broken where it says `\n`, and where it is broken already.
pub open spec fn template_lines(text: Seq<char>) -> Seq<Seq<char>> {
    split_spec(replace_spec(text, "\\n"@, "\n"@), '\n')
}

/// The lines of a template.
pub fn split_template_lines(text: &str) -> (lines: Vec<String>)
    ensures
        text_views(lines@) == template_lines(text@),
{
    proof {
        reveal_strlit("\\n");
    }
    let broken: String = replace(text, "\\n", "\n");
    split(broken.as_str(), '\n')
}

/// The number under which `ab_glyph` keeps the shape of a character in a font, 0 where it has
/// none; absent where the bytes are no font.
pub uninterp spec fn glyph_number(font: Seq<u8>, c: char) -> Option<u16>;

/// `ab_glyph::FontRef::try_from_slice` and `glyph_id` on the font. The number is named, not
/// described.
#[verifier::external_body]
fn find_glyph(font: &Vec<u8>, c: char) -> (number: Option<u16>)
    ensures
        number == glyph_number(font@, c),
{
    ab_glyph::FontRef::try_from_slice(font.as_slice()).ok().map(
        |face| ab_glyph::Font::glyph_id(&face, c).0,
    )
}

/// Whether a font has a shape for a character.
pub open spec fn has_shape(number: Option<u16>) -> bool {
    number matches Some(id) && id != 0
}

/// The first font that has a shape for a character; the first of all where none has, so that
/// nothing is left out.
pub open spec fn first_shape(numbers: Seq<Option<u16>>) -> int
    decreases numbers.len(),
{
    if numbers.len() == 0 {
        0
    } else {
        let rest = numbers.drop_last();
        if exists|i: int| 0 <= i < rest.len() && has_shape(#[trigger] rest[i]) {
            first_shape(rest)
        } else if has_shape(numbers.last()) {
            numbers.len() - 1
        } else {
            0
        }
    }
}

proof fn lemma_first_shape(numbers: Seq<Option<u16>>, at: int)
    requires
        0 <= at < numbers.len(),
        has_shape(numbers[at]),
        forall|k: int| 0 <= k < at ==> !has_shape(#[trigger] numbers[k]),
    ensures
        first_shape(numbers) == at,
    decreases numbers.len(),
{
    let rest = numbers.drop_last();
    if at < rest.len() {
        assert(rest[at] == numbers[at]);
        assert(has_shape(rest[at]));
        assert forall|k: int| 0 <= k < at implies !has_shape(#[trigger] rest[k]) by {
            assert(rest[k] == numbers[k]);
        }
        lemma_first_shape(rest, at);
    } else {
        assert forall|k: int| 0 <= k < rest.len() implies !has_shape(#[trigger] rest[k]) by {
            assert(rest[k] == numbers[k]);
        }
    }
}

proof fn lemma_no_shape(numbers: Seq<Option<u16>>)
    requires
        forall|k: int| 0 <= k < numbers.len() ==> !has_shape(#[trigger] numbers[k]),
    ensures
        first_shape(numbers) == 0,
{
    if numbers.len() > 0 {
        let rest = numbers.drop_last();
        assert forall|k: int| 0 <= k < rest.len() implies !has_shape(#[trigger] rest[k]) by {
            assert(rest[k] == numbers[k]);
        }
    }
}

/// The first font that has a shape for a character, by the numbers that the fonts have for it.
pub fn choose_font(numbers: &Vec<Option<u16>>) -> (index: usize)
    ensures
        index == first_shape(numbers@),
{
    let mut i: usize = 0;
    while i < numbers.len()
        invariant
            i <= numbers.len(),
            forall|k: int| 0 <= k < i ==> !has_shape(#[trigger] numbers@[k]),
        decreases numbers.len() - i,
    {
        let shaped: bool = match numbers[i] {
            Some(id) => id != 0,
            None => false,
        };
        if shaped {
            proof {
                lemma_first_shape(numbers@, i as int);
            }
            return i;
        }
        i = i + 1;
    }
    proof {
        lemma_no_shape(numbers@);
    }
    0
}

/// The numbers that the fonts have for a character.
pub open spec fn glyph_numbers(fonts: Seq<Vec<u8>>, c: char) -> Seq<Option<u16>> {
    fonts.map_values(|font: Vec<u8>| glyph_number(font@, c))
}

/// The font for a character: the first that has a shape for it, or else the first.
pub fn font_index_for_char(fonts: &Vec<Vec<u8>>, c: char) -> (index: usize)
    ensures
        index == first_shape(glyph_numbers(fonts@, c)),
{
    let mut numbers: Vec<Option<u16>> = Vec::new();
    let mut i: usize = 0;
    while i < fonts.len()
        invariant
            i <= fonts.len(),
            numbers@ =~= glyph_numbers(fonts@.take(i as int), c),
        decreases fonts.len() - i,
    {
        numbers.push(find_glyph(&fonts[i], c));
        i = i + 1;
    }
    assert(fonts@.take(fonts@.len() as int) =~= fonts@);
    choose_font(&numbers)
}

/// A stretch of a line that is drawn in one font.
#[verifier::ext_equal]
pub ghost struct RunView {
    pub font: int,
    pub text: Seq<char>,
}

/// The stretches with one more character: it joins the last one where their font is the same.
pub open spec fn run_extended(runs: Seq<RunView>, font: int, c: char) -> Seq<RunView> {
    if runs.len() > 0 && runs.last().font == font {
        runs.drop_last().push(RunView { font, text: runs.last().text.push(c) })
    } else {
        runs.push(RunView { font, text: seq![c] })
    }
}

/// The stretches of a line, by the fonts of its characters.
pub open spec fn runs_spec(line: Seq<char>, fonts: Seq<int>) -> Seq<RunView>
    decreases line.len(),
{
    if line.len() == 0 || fonts.len() != line.len() {
        Seq::<RunView>::empty()
    } else {
        run_extended(runs_spec(line.drop_last(), fonts.drop_last()), fonts.last(), line.last())
    }
}

/// A list of stretches as a mathematical value.
pub open spec fn run_views(runs: Seq<(usize, String)>) -> Seq<RunView> {
    runs.map_values(|run: (usize, String)| RunView { font: run.0 as int, text: run.1@ })
}

/// The fonts as mathematical values.
pub open spec fn font_views(fonts: Seq<usize>) -> Seq<int> {
    fonts.map_values(|font: usize| font as int)
}

/// The stretches of a line, by the fonts of its characters.
pub fn join_runs(line: &Vec<char>, fonts: &Vec<usize>) -> (runs: Vec<(usize, String)>)
    requires
        line.len() == fonts.len(),
    ensures
        run_views(runs@) == runs_spec(line@, font_views(fonts@)),
{
    let ghost all = font_views(fonts@);
    let mut runs: Vec<(usize, String)> = Vec::new();
    let mut i: usize = 0;
    assert(run_views(runs@) =~= runs_spec(line@.take(0), all.take(0)));
    while i < line.len()
        invariant
            i <= line.len(),
            line.len() == fonts.len(),
            all == font_views(fonts@),
            run_views(runs@) == runs_spec(line@.take(i as int), all.take(i as int)),
        decreases line.len() - i,
    {
        let ghost before = run_views(runs@);
        assert(line@.take(i + 1).drop_last() =~= line@.take(i as int));
        assert(all.take(i + 1).drop_last() =~= all.take(i as int));
        let c: char = line[i];
        let font: usize = fonts[i];
        let joins: bool = runs.len() > 0 && runs[runs.len() - 1].0 == font;
        if joins {
            assert(before.last().font == font);
            let last: Option<(usize, String)> = runs.pop();
            if let Some((held, text)) = last {
                let mut longer: String = text;
                longer.push(c);
                runs.push((held, longer));
                assert(run_views(runs@) =~= run_extended(before, font as int, c));
            }
        } else {
            let mut text: String = String::new();
            text.push(c);
            assert(text@ =~= seq![c]);
            assert(before.len() > 0 ==> before.last().font == runs@[before.len() - 1].0);
            runs.push((font, text));
            assert(run_views(runs@) =~= run_extended(before, font as int, c));
        }
        i = i + 1;
    }
    assert(line@.take(line@.len() as int) =~= line@);
    assert(all.take(all.len() as int) =~= all);
    runs
}

/// The fonts of the characters of a line.
pub open spec fn line_fonts(fonts: Seq<Vec<u8>>, line: Seq<char>) -> Seq<int> {
    line.map_values(|c: char| first_shape(glyph_numbers(fonts, c)))
}

/// The stretches of a line, each in the font that has its characters.
pub fn segment_runs(fonts: &Vec<Vec<u8>>, line: &str) -> (runs: Vec<(usize, String)>)
    ensures
        run_views(runs@) == runs_spec(line@, line_fonts(fonts@, line@)),
{
    let chars: Vec<char> = chars_of(line);
    let mut indices: Vec<usize> = Vec::new();
    let mut i: usize = 0;
    while i < chars.len()
        invariant
            i <= chars.len(),
            indices.len() == i,
            font_views(indices@) =~= line_fonts(fonts@, chars@.take(i as int)),
        decreases chars.len() - i,
    {
        let ghost before = font_views(indices@);
        let font: usize = font_index_for_char(fonts, chars[i]);
        indices.push(font);
        assert(font_views(indices@) =~= before.push(font as int));
        assert(line_fonts(fonts@, chars@.take(i + 1)) =~= line_fonts(
            fonts@,
            chars@.take(i as int),
        ).push(font as int));
        i = i + 1;
    }
    assert(chars@.take(chars@.len() as int) =~= chars@);
    join_runs(&chars, &indices)
}

/// The characters of the stretches, one after the other.
pub open spec fn runs_text(runs: Seq<RunView>) -> Seq<char>
    decreases runs.len(),
{
    if runs.len() == 0 {
        Seq::<char>::empty()
    } else {
        runs_text(runs.drop_last()) + runs.last().text
    }
}

/// No character is lost: the stretches make up the line again, and two that follow each other are
/// in different fonts.
pub proof fn law_runs_make_up_the_line(line: Seq<char>, fonts: Seq<int>)
    requires
        line.len() == fonts.len(),
    ensures
        runs_text(runs_spec(line, fonts)) == line,
        forall|i: int|
            0 < i < runs_spec(line, fonts).len() ==> (#[trigger] runs_spec(line, fonts)[i]).font
                != runs_spec(line, fonts)[i - 1].font,
    decreases line.len(),
{
    if line.len() > 0 {
        let rest = runs_spec(line.drop_last(), fonts.drop_last());
        law_runs_make_up_the_line(line.drop_last(), fonts.drop_last());
        let runs = runs_spec(line, fonts);
        let c = line.last();
        if rest.len() > 0 && rest.last().font == fonts.last() {
            assert(runs.drop_last() =~= rest.drop_last());
            assert(runs_text(runs) =~= runs_text(rest).push(c));
            assert forall|i: int| 0 < i < runs.len() implies (#[trigger] runs[i]).font != runs[i
                - 1].font by {
                assert(runs[i].font == rest[i].font);
                assert(runs[i - 1].font == rest[i - 1].font);
            }
        } else {
            assert(runs.drop_last() =~= rest);
            assert(runs_text(runs) =~= runs_text(rest).push(c));
        }
        assert(line.drop_last().push(c) =~= line);
    }
}

/// How many pixels a picture may have after it was scaled.
pub const MAX_RESIZE_PIXELS: u64 = 67_108_864;

/// How a picture is cut to the canvas after it was scaled.
#[derive(Clone, Copy, Debug, PartialEq, Eq, Structural)]
pub struct Fit {
    pub scaled_width: u32,
    pub scaled_height: u32,
    /// Where the cut begins.
    pub x: u32,
    pub y: u32,
}

/// The larger of two lengths.
pub open spec fn at_least(a: int, b: int) -> int {
    if a >= b {
        a
    } else {
        b
    }
}

/// How a picture fits a canvas: it covers the canvas and what hangs over is cut off on both sides
/// alike. A picture without pixels, and one that would become too large, does not fit.
///
/// `width` and `height` are the canvas, `scaled_width` and `scaled_height` what the picture has
/// after it was scaled up to cover it.
pub fn fit_picture(
    source_width: u32,
    source_height: u32,
    scaled_width: u32,
    scaled_height: u32,
    width: u32,
    height: u32,
) -> (fit: Option<Fit>)
    ensures
        ({
            let w = at_least(scaled_width as int, width as int);
            let h = at_least(scaled_height as int, height as int);
            match fit {
                Some(fit) => {
                    &&& source_width > 0 && source_height > 0
                    &&& w * h <= MAX_RESIZE_PIXELS
                    &&& fit.scaled_width == w && fit.scaled_height == h
                    &&& fit.x == (w - width) / 2 && fit.y == (h - height) / 2
                },
                None => source_width == 0 || source_height == 0 || w * h > MAX_RESIZE_PIXELS,
            }
        }),
{
    if source_width == 0 || source_height == 0 {
        return None;
    }
    let w: u32 = if scaled_width >= width {
        scaled_width
    } else {
        width
    };
    let h: u32 = if scaled_height >= height {
        scaled_height
    } else {
        height
    };
    assert(w as u64 * h as u64 <= u64::MAX) by (nonlinear_arith)
        requires
            w <= 0xffff_ffffu32,
            h <= 0xffff_ffffu32,
    ;
    if w as u64 * h as u64 > MAX_RESIZE_PIXELS {
        return None;
    }
    Some(Fit { scaled_width: w, scaled_height: h, x: (w - width) / 2, y: (h - height) / 2 })
}

/// The cut lies within the scaled picture, so that the canvas is covered.
pub proof fn law_the_canvas_is_covered(scaled: int, canvas: int)
    requires
        0 <= canvas,
        0 <= scaled,
    ensures
        (at_least(scaled, canvas) - canvas) / 2 >= 0,
        (at_least(scaled, canvas) - canvas) / 2 + canvas <= at_least(scaled, canvas),
{
}

/// What the background of a cover is made of.
#[derive(Clone, Copy, Debug, PartialEq, Eq, Structural)]
pub enum BackgroundSource {
    Black,
    /// The picture of a file, fitted to the canvas.
    Picture,
    /// A picture that is at hand and has the size of the canvas.
    Bitmap,
}

/// What the background of a cover is made of: a picture that cannot be read, and one at hand that
/// has another size, leaves it black. `usable` says whether the picture can be read and fitted.
pub fn render_background(
    wanted: BackgroundSource,
    usable: bool,
    bitmap_size: (u32, u32),
    canvas: (u32, u32),
) -> (made_of: BackgroundSource)
    ensures
        made_of == (match wanted {
            BackgroundSource::Black => BackgroundSource::Black,
            BackgroundSource::Picture => if usable {
                BackgroundSource::Picture
            } else {
                BackgroundSource::Black
            },
            BackgroundSource::Bitmap => if bitmap_size == canvas {
                BackgroundSource::Bitmap
            } else {
                BackgroundSource::Black
            },
        }),
{
    match wanted {
        BackgroundSource::Black => BackgroundSource::Black,
        BackgroundSource::Picture => if usable {
            BackgroundSource::Picture
        } else {
            BackgroundSource::Black
        },
        BackgroundSource::Bitmap => if bitmap_size.0 == canvas.0 && bitmap_size.1 == canvas.1 {
            BackgroundSource::Bitmap
        } else {
            BackgroundSource::Black
        },
    }
}

} // verus!
