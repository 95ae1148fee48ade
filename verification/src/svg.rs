//! A QR code drawn as a vector image: a white square and, over it, one path
//! with a unit square for each dark module.

use vstd::prelude::*;
use crate::decimal::{is_digit, lemma_decimal_digits, push_signed_decimal, signed_decimal};
use crate::qr::{is_square, ModuleGrid};
use crate::text::{
    lemma_occurrences_concat, lemma_occurrences_nowhere, lemma_occurrences_once,
    lemma_occurrences_without_first, occurrences, push_chars, push_text, starts_with, string_of,
};

verus! {

/// The image up to the side length in its view box.
pub open spec fn svg_open() -> Seq<char> {
    "<svg xmlns=\"http://www.w3.org/2000/svg\" version=\"1.1\" viewBox=\"0 0 "@
}

/// The image from the end of the view box to the start of the path data: it
/// holds the background rectangle.
pub open spec fn svg_background() -> Seq<char> {
    "\" stroke=\"none\"><rect width=\"100%\" height=\"100%\" fill=\"#FFFFFF\"/><path d=\""@
}

/// The image after the path data.
pub open spec fn svg_close() -> Seq<char> {
    "\" fill=\"#000000\"/></svg>"@
}

/// The strokes that draw a unit square from its corner.
pub open spec fn unit_square() -> Seq<char> {
    "h1v1h-1z"@
}

/// The path segment of the unit square whose corner is at (`x`, `y`).
pub open spec fn segment(x: int, y: int) -> Seq<char> {
    seq!['M'] + signed_decimal(x) + seq![','] + signed_decimal(y) + unit_square()
}

/// The dark modules of a row, from left to right, as pairs of column and row.
pub open spec fn row_cells(row: Seq<bool>, y: int) -> Seq<(int, int)>
    decreases row.len(),
{
    if row.len() == 0 {
        Seq::empty()
    } else {
        let before = row_cells(row.drop_last(), y);
        if row.last() {
            before.push((row.len() - 1, y))
        } else {
            before
        }
    }
}

/// The dark modules of a grid, row by row from the top, each row from left to
/// right.
pub open spec fn dark_cells(grid: Seq<Seq<bool>>) -> Seq<(int, int)>
    decreases grid.len(),
{
    if grid.len() == 0 {
        Seq::empty()
    } else {
        dark_cells(grid.drop_last()) + row_cells(grid.last(), grid.len() - 1)
    }
}

/// The path data for `cells`: one segment for each, moved right and down by
/// `border`, with one space between two segments.
pub open spec fn path_data(cells: Seq<(int, int)>, border: int) -> Seq<char>
    decreases cells.len(),
{
    if cells.len() == 0 {
        Seq::empty()
    } else {
        let cell = cells.last();
        let last = segment(cell.0 + border, cell.1 + border);
        if cells.len() == 1 {
            last
        } else {
            path_data(cells.drop_last(), border) + seq![' '] + last
        }
    }
}

/// The side length of the image for a grid of `side` modules a side.
pub open spec fn image_side(side: int, border: int) -> int {
    side + 2 * border
}

/// The image of `grid` with `border` modules of margin on each side.
pub open spec fn svg_text(grid: Seq<Seq<bool>>, border: int) -> Seq<char> {
    let side = signed_decimal(image_side(grid.len() as int, border));
    svg_open() + side + seq![' '] + side + svg_background() + path_data(dark_cells(grid), border)
        + svg_close()
}

/// Whether `c` can stand in a number or in path data: a digit, a minus sign, a
/// comma, a space or one of the letters of the path commands. None of these
/// opens or closes a tag or an attribute value.
pub open spec fn is_path_char(c: char) -> bool {
    is_digit(c) || c == '-' || c == ',' || c == ' ' || c == 'M' || c == 'h' || c == 'v' || c == 'z'
}

/// Whether every character of `s` can stand in path data.
pub open spec fn is_path_text(s: Seq<char>) -> bool {
    forall|i: int| 0 <= i < s.len() ==> is_path_char(#[trigger] s[i])
}

/// A number is made of path characters.
pub proof fn lemma_number_is_path_text(i: int)
    ensures
        is_path_text(signed_decimal(i)),
        signed_decimal(i).len() >= 1,
{
    if i < 0 {
        lemma_decimal_digits((-i) as nat);
    } else {
        lemma_decimal_digits(i as nat);
    }
}

/// A segment is made of path characters.
pub proof fn lemma_segment_is_path_text(x: int, y: int)
    ensures
        is_path_text(segment(x, y)),
{
    reveal_strlit("h1v1h-1z");
    lemma_number_is_path_text(x);
    lemma_number_is_path_text(y);
}

/// The tag that opens the background rectangle.
pub open spec fn rect_tag() -> Seq<char> {
    "<rect"@
}

/// The tag that opens the path.
pub open spec fn path_tag() -> Seq<char> {
    "<path"@
}

/// In an image, a pattern of five characters that begins with `<` occurs as
/// often as in the three fixed parts: the side length and the path data hold
/// no `<`, and no fixed part has one among its last four characters.
proof fn lemma_occurrences_in_image(side: Seq<char>, path: Seq<char>, pat: Seq<char>)
    requires
        pat.len() == 5,
        pat[0] == '<',
        is_path_text(side),
        is_path_text(path),
    ensures
        occurrences(
            svg_open() + side + seq![' '] + side + svg_background() + path + svg_close(),
            pat,
        ) == occurrences(svg_open(), pat) + occurrences(svg_background(), pat) + occurrences(
            svg_close(),
            pat,
        ),
{
    reveal_strlit("<svg xmlns=\"http://www.w3.org/2000/svg\" version=\"1.1\" viewBox=\"0 0 ");
    reveal_strlit(
        "\" stroke=\"none\"><rect width=\"100%\" height=\"100%\" fill=\"#FFFFFF\"/><path d=\"",
    );
    let space = seq![' '];
    let drawn = path + svg_close();
    let painted = svg_background() + drawn;
    let height = side + painted;
    let gap = space + height;
    let width = side + gap;
    assert(svg_open() + side + space + side + svg_background() + path + svg_close() =~= svg_open()
        + width);
    lemma_occurrences_concat(svg_open(), width, pat);
    lemma_occurrences_concat(side, gap, pat);
    lemma_occurrences_concat(space, height, pat);
    lemma_occurrences_concat(side, painted, pat);
    lemma_occurrences_concat(svg_background(), drawn, pat);
    lemma_occurrences_concat(path, svg_close(), pat);
    lemma_occurrences_without_first(side, pat);
    lemma_occurrences_without_first(space, pat);
    lemma_occurrences_without_first(path, pat);
}

/// How often each of the two tags occurs in the fixed parts of the image.
proof fn lemma_tags_in_fixed_parts()
    ensures
        occurrences(svg_open(), rect_tag()) == 0,
        occurrences(svg_background(), rect_tag()) == 1,
        occurrences(svg_close(), rect_tag()) == 0,
        occurrences(svg_open(), path_tag()) == 0,
        occurrences(svg_background(), path_tag()) == 1,
        occurrences(svg_close(), path_tag()) == 0,
{
    reveal_strlit("<svg xmlns=\"http://www.w3.org/2000/svg\" version=\"1.1\" viewBox=\"0 0 ");
    reveal_strlit(
        "\" stroke=\"none\"><rect width=\"100%\" height=\"100%\" fill=\"#FFFFFF\"/><path d=\"",
    );
    reveal_strlit("\" fill=\"#000000\"/></svg>");
    reveal_strlit("<rect");
    reveal_strlit("<path");
    lemma_tag_in_part(svg_open(), rect_tag(), -1);
    lemma_tag_in_part(svg_open(), path_tag(), -1);
    lemma_tag_in_part(svg_close(), rect_tag(), -1);
    lemma_tag_in_part(svg_close(), path_tag(), -1);
    lemma_tag_in_part(svg_background(), rect_tag(), 16);
    lemma_tag_in_part(svg_background(), path_tag(), 65);
}

/// A tag occurs once in a part that holds it at the index `at` and at no
/// other, and no times in a part that holds it at no index.
proof fn lemma_tag_in_part(part: Seq<char>, tag: Seq<char>, at: int)
    requires
        tag.len() == 5,
        forall|i: int|
            0 <= i < part.len() && i != at ==> !(i + 4 < part.len() && #[trigger] part[i] == tag[0]
                && part[i + 1] == tag[1] && part[i + 2] == tag[2] && part[i + 3] == tag[3]
                && part[i + 4] == tag[4]),
        0 <= at ==> at + 4 < part.len() && part[at] == tag[0] && part[at + 1] == tag[1] && part[at
            + 2] == tag[2] && part[at + 3] == tag[3] && part[at + 4] == tag[4],
    ensures
        occurrences(part, tag) == if 0 <= at {
            1nat
        } else {
            0nat
        },
{
    assert forall|i: int| 0 <= i < part.len() && i != at implies !starts_with(
        #[trigger] part.skip(i),
        tag,
    ) by {
        if starts_with(part.skip(i), tag) {
            let head = part.skip(i).take(5);
            assert(head[0] == tag[0] && head[1] == tag[1] && head[2] == tag[2] && head[3] == tag[3]
                && head[4] == tag[4]);
            assert(part[i] == head[0]);
        }
    }
    if 0 <= at {
        assert(part.skip(at).take(5) =~= tag);
        lemma_occurrences_once(part, tag, at);
    } else {
        lemma_occurrences_nowhere(part, tag);
    }
}

/// An image has exactly one background rectangle and exactly one path, and
/// its view box is a square of `image_side` units: the image is its three
/// fixed parts with the side length, twice, and the path data between them,
/// and neither of these two holds a character that could open a tag or end an
/// attribute value.
pub proof fn law_image_has_one_rectangle_and_one_path(grid: Seq<Seq<bool>>, border: int)
    ensures
        occurrences(svg_text(grid, border), rect_tag()) == 1,
        occurrences(svg_text(grid, border), path_tag()) == 1,
        svg_text(grid, border) == svg_open() + signed_decimal(
            image_side(grid.len() as int, border),
        ) + seq![' '] + signed_decimal(image_side(grid.len() as int, border)) + svg_background()
            + path_data(dark_cells(grid), border) + svg_close(),
        is_path_text(signed_decimal(image_side(grid.len() as int, border))),
        is_path_text(path_data(dark_cells(grid), border)),
{
    let side = signed_decimal(image_side(grid.len() as int, border));
    let path = path_data(dark_cells(grid), border);
    lemma_number_is_path_text(image_side(grid.len() as int, border));
    lemma_path_data_is_path_text(dark_cells(grid), border);
    reveal_strlit("<rect");
    reveal_strlit("<path");
    lemma_occurrences_in_image(side, path, rect_tag());
    lemma_occurrences_in_image(side, path, path_tag());
    lemma_tags_in_fixed_parts();
}

/// Path data is made of path characters.
pub proof fn lemma_path_data_is_path_text(cells: Seq<(int, int)>, border: int)
    ensures
        is_path_text(path_data(cells, border)),
    decreases cells.len(),
{
    if cells.len() > 0 {
        let cell = cells.last();
        lemma_segment_is_path_text(cell.0 + border, cell.1 + border);
        if cells.len() > 1 {
            lemma_path_data_is_path_text(cells.drop_last(), border);
        }
    }
}

/// Appends the segment for the module in column `x` of row `y`.
fn push_segment(
    path: &mut Vec<char>,
    Ghost(cells): Ghost<Seq<(int, int)>>,
    x: usize,
    y: usize,
    border: i32,
)
    requires
        x <= 0x7fff_ffff,
        y <= 0x7fff_ffff,
        old(path)@ == path_data(cells, border as int),
    ensures
        final(path)@ == path_data(cells.push((x as int, y as int)), border as int),
{
    let ghost longer = cells.push((x as int, y as int));
    assert(longer.drop_last() =~= cells);
    if path.len() > 0 {
        path.push(' ');
    }
    path.push('M');
    push_signed_decimal(path, x as i64 + border as i64);
    path.push(',');
    push_signed_decimal(path, y as i64 + border as i64);
    push_text(path, "h1v1h-1z");
    proof {
        lemma_path_data_empty(cells, border as int);
        let seg = segment(x + border, y + border);
        if cells.len() == 0 {
            assert(path@ =~= seg);
        } else {
            assert(path@ =~= path_data(cells, border as int) + seq![' '] + seg);
        }
    }
}

/// Path data is empty for no cells only.
pub proof fn lemma_path_data_empty(cells: Seq<(int, int)>, border: int)
    ensures
        path_data(cells, border).len() == 0 <==> cells.len() == 0,
    decreases cells.len(),
{
    if cells.len() > 0 {
        let cell = cells.last();
        assert(segment(cell.0 + border, cell.1 + border).len() > 0);
    }
}

/// Draws `grid` as a vector image with `border` modules of margin on each
/// side.
pub fn to_svg_string(grid: &ModuleGrid, border: i32) -> (svg: String)
    ensures
        svg@ == svg_text(grid@, border as int),
{
    let side = grid.size();
    let mut path: Vec<char> = Vec::new();
    let ghost mut cells: Seq<(int, int)> = Seq::empty();
    let mut y: usize = 0;
    assert(grid@.take(0) =~= Seq::<Seq<bool>>::empty());
    while y < side
        invariant
            y <= side,
            side == grid@.len(),
            side <= 0x7fff_ffff,
            is_square(grid@),
            cells == dark_cells(grid@.take(y as int)),
            path@ == path_data(cells, border as int),
        decreases side - y,
    {
        let ghost above = cells;
        let ghost row = grid@[y as int];
        let mut x: usize = 0;
        assert(row.take(0) =~= Seq::<bool>::empty());
        assert(above + Seq::<(int, int)>::empty() =~= above);
        while x < side
            invariant
                x <= side,
                y < side,
                side == grid@.len(),
                side <= 0x7fff_ffff,
                row == grid@[y as int],
                row.len() == side,
                cells == above + row_cells(row.take(x as int), y as int),
                path@ == path_data(cells, border as int),
            decreases side - x,
        {
            assert(row.take(x + 1).drop_last() =~= row.take(x as int));
            if grid.get_module(x, y) {
                push_segment(&mut path, Ghost(cells), x, y, border);
                proof {
                    cells = cells.push((x as int, y as int));
                    assert(cells =~= above + row_cells(row.take(x + 1), y as int));
                }
            }
            x += 1;
        }
        assert(row.take(x as int) =~= row);
        assert(grid@.take(y + 1).drop_last() =~= grid@.take(y as int));
        y += 1;
    }
    assert(grid@.take(y as int) =~= grid@);
    let mut out: Vec<char> = Vec::new();
    push_text(&mut out, "<svg xmlns=\"http://www.w3.org/2000/svg\" version=\"1.1\" viewBox=\"0 0 ");
    push_signed_decimal(&mut out, side as i64 + 2 * (border as i64));
    out.push(' ');
    push_signed_decimal(&mut out, side as i64 + 2 * (border as i64));
    push_text(
        &mut out,
        "\" stroke=\"none\"><rect width=\"100%\" height=\"100%\" fill=\"#FFFFFF\"/><path d=\"",
    );
    push_chars(&mut out, path.as_slice());
    push_text(&mut out, "\" fill=\"#000000\"/></svg>");
    assert(out@ =~= svg_text(grid@, border as int));
    string_of(out.as_slice())
}

} // verus!
