//! The SIXEL encoder: palette, six-row bands, run-length compressed columns.
use vstd::prelude::*;

use crate::color::{color_command, Color};
use crate::decimal::{decimal, push_decimal};
use crate::index::Index;
use vstd::arithmetic::div_mod::{lemma_mod_self_0, lemma_mod_sub_multiples_vanish, lemma_small_mod};
use vstd::arithmetic::mul::lemma_mul_inequality;
use vstd::slice::slice_subrange;

verus! {

/// The palette: position `i` holds the color that index `i` selects.
#[derive(Clone, Copy)]
pub struct Palette<'a> {
    pub colors: &'a [Color],
}

/// A row-major raster of palette indices, `width` pixels to a row; the last
/// row may be short.
#[derive(Clone, Copy)]
pub struct Image<'a, I> {
    pub pixels: &'a [I],
    pub width: usize,
}

/// The palette indices that the pixels stand for.
pub open spec fn index_seq<I: Index>(pixels: Seq<I>) -> Seq<usize> {
    pixels.map_values(|p: I| p.spec_index())
}

/// The number of pixels in the first band of `len` pixels, rows of `w`:
/// six rows, or all that is left.
pub open spec fn band_size(len: nat, w: nat) -> nat {
    if 6 * w <= len {
        6 * w
    } else {
        len
    }
}

/// The image `px`, rows of `w` pixels, cut into bands of six rows; the last
/// band holds what is left.
pub open spec fn bands(px: Seq<usize>, w: nat) -> Seq<Seq<usize>>
    decreases px.len(),
{
    if px.len() == 0 || w == 0 {
        seq![]
    } else {
        let n = band_size(px.len(), w);
        seq![px.take(n as int)] + bands(px.skip(n as int), w)
    }
}

/// The text of each band followed by `-`, one after the other.
pub open spec fn bands_text(bs: Seq<Seq<usize>>, w: nat, colors: nat) -> Seq<u8>
    decreases bs.len(),
{
    if bs.len() == 0 {
        seq![]
    } else {
        band_text(bs[0], w, colors) + seq![45u8] + bands_text(bs.drop_first(), w, colors)
    }
}

/// The color-definition commands of the first `k` palette entries.
pub open spec fn palette_text(colors: Seq<Color>, k: nat) -> Seq<u8>
    decreases k,
{
    if k == 0 {
        seq![]
    } else {
        palette_text(colors, (k - 1) as nat) + color_command((k - 1) as nat, colors[k - 1])
    }
}

/// The introducer `ESC P q` that enters SIXEL mode.
pub open spec fn header() -> Seq<u8> {
    seq![27u8, 80u8, 113u8]
}

/// The terminator, `ESC` and a backslash, that leaves SIXEL mode.
pub open spec fn trailer() -> Seq<u8> {
    seq![27u8, 92u8]
}

/// The whole SIXEL sequence for the image `px` (rows of `w`) and palette
/// `colors`: header, palette, bands, trailer.
pub open spec fn sixel_image(px: Seq<usize>, w: nat, colors: Seq<Color>) -> Seq<u8> {
    header() + palette_text(colors, colors.len()) + bands_text(bands(px, w), w, colors.len())
        + trailer()
}

/// The character that draws the six-pixel column pattern `v`.
pub open spec fn sixel_char(v: u8) -> u8 {
    (v + 63) as u8
}

/// The maximal runs of equal adjacent values of `s`, left to right, each as
/// its value and its length.
pub open spec fn runs(s: Seq<u8>) -> Seq<(u8, nat)>
    decreases s.len(),
{
    if s.len() == 0 {
        seq![]
    } else {
        let r = runs(s.drop_last());
        if r.len() > 0 && r.last().0 == s.last() {
            r.update(r.len() - 1, (s.last(), r.last().1 + 1))
        } else {
            r.push((s.last(), 1))
        }
    }
}

/// One run of `n` columns of pattern `v`: `!<n>` and the character when
/// `n` is over 3, else the character `n` times.
pub open spec fn run_text(v: u8, n: nat) -> Seq<u8> {
    if n > 3 {
        seq![33u8] + decimal(n) + seq![sixel_char(v)]
    } else {
        Seq::new(n, |i: int| sixel_char(v))
    }
}

/// The text of a sequence of runs, one after the other.
pub open spec fn runs_text(rs: Seq<(u8, nat)>) -> Seq<u8>
    decreases rs.len(),
{
    if rs.len() == 0 {
        seq![]
    } else {
        runs_text(rs.drop_last()) + run_text(rs.last().0, rs.last().1)
    }
}

/// The run-length compressed text of a row of column patterns.
pub open spec fn sixel_text(masks: Seq<u8>) -> Seq<u8> {
    runs_text(runs(masks))
}

fn write_run(six: u8, n: usize, out: &mut Vec<u8>)
    requires
        six < 64,
    ensures
        final(out)@ == old(out)@ + run_text(six, n as nat),
{
    let ch: u8 = six + 63;
    if n > 3 {
        let ghost start = out@;
        out.push(33u8);
        push_decimal(out, n);
        out.push(ch);
        assert(out@ =~= start + run_text(six, n as nat));
    } else {
        let ghost start = out@;
        let mut k: usize = 0;
        while k < n
            invariant
                k <= n,
                ch == sixel_char(six),
                out@ =~= start + Seq::new(k as nat, |i: int| sixel_char(six)),
            decreases n - k,
        {
            out.push(ch);
            k = k + 1;
        }
    }
}

/// Appends the run-length compressed text of `sixels`, a row of six-bit
/// column patterns.
fn write_sixels(sixels: &[u8], out: &mut Vec<u8>)
    requires
        forall|i: int| 0 <= i < sixels@.len() ==> sixels@[i] < 64,
    ensures
        final(out)@ == old(out)@ + sixel_text(sixels@),
{
    let ghost s = sixels@;
    if sixels.len() == 0 {
        assert(out@ =~= old(out)@ + sixel_text(s));
        return;
    }
    let ghost base = out@;
    let mut cur: u8 = sixels[0];
    let mut count: usize = 1;
    let mut i: usize = 1;
    assert(s.take(1).drop_last() =~= Seq::<u8>::empty());
    assert(s.take(1).last() == cur);
    assert(runs(s.take(1).drop_last()) == Seq::<(u8, nat)>::empty());
    assert(runs(s.take(1)) =~= seq![(cur, 1nat)]);
    while i < sixels.len()
        invariant
            s == sixels@,
            forall|j: int| 0 <= j < s.len() ==> s[j] < 64,
            1 <= i <= s.len(),
            1 <= count <= i,
            cur < 64,
            runs(s.take(i as int)).len() > 0,
            runs(s.take(i as int)).last() == (cur, count as nat),
            out@ == base + runs_text(runs(s.take(i as int)).drop_last()),
        decreases s.len() - i,
    {
        let six = sixels[i];
        let ghost r = runs(s.take(i as int));
        assert(s.take(i + 1).drop_last() =~= s.take(i as int));
        assert(s.take(i + 1).last() == six);
        if six == cur {
            assert(runs(s.take(i + 1)) == r.update(r.len() - 1, (six, (count + 1) as nat)));
            assert(runs(s.take(i + 1)).drop_last() =~= r.drop_last());
            count = count + 1;
        } else {
            assert(runs(s.take(i + 1)) == r.push((six, 1nat)));
            assert(runs(s.take(i + 1)).drop_last() =~= r);
            write_run(cur, count, out);
            assert(runs_text(r) == runs_text(r.drop_last()) + run_text(cur, count as nat));
            assert(out@ =~= base + runs_text(r));
            cur = six;
            count = 1;
        }
        i = i + 1;
    }
    write_run(cur, count, out);
    assert(s.take(s.len() as int) =~= s);
    let ghost r = runs(s);
    assert(runs_text(r) == runs_text(r.drop_last()) + run_text(cur, count as nat));
    assert(out@ =~= old(out)@ + sixel_text(s));
}

/// The bit for row `r` of a band: `2` to the power `r`.
pub open spec fn row_bit(r: nat) -> nat
    decreases r,
{
    if r == 0 {
        1
    } else {
        2 * row_bit((r - 1) as nat)
    }
}

/// The pattern of column `col` of `band` (rows of `w` pixels) for color
/// `c`, over its first `rows` rows: bit `r` is set where row `r` holds a
/// pixel at `col` and that pixel is `c`.
pub open spec fn column_mask(band: Seq<usize>, w: nat, c: usize, col: nat, rows: nat) -> nat
    decreases rows,
{
    if rows == 0 {
        0
    } else {
        let r = (rows - 1) as nat;
        let p = r * w + col;
        column_mask(band, w, c, col, r) + if p < band.len() && band[p as int] == c {
            row_bit(r)
        } else {
            0
        }
    }
}

/// The column patterns of color `c` in a band of width `w`, one per column.
pub open spec fn band_masks(band: Seq<usize>, w: nat, c: usize) -> Seq<u8> {
    Seq::new(w, |col: int| column_mask(band, w, c, col as nat, 6) as u8)
}

/// The text of color `c` in a band: the selector `#<c>` and its columns.
pub open spec fn color_group(band: Seq<usize>, w: nat, c: usize) -> Seq<u8> {
    seq![35u8] + decimal(c as nat) + sixel_text(band_masks(band, w, c))
}

/// The text of a band for the colors below `colors` that occur in it, in
/// ascending order, with `$` between two groups.
pub open spec fn band_text(band: Seq<usize>, w: nat, colors: nat) -> Seq<u8>
    decreases colors,
{
    if colors == 0 {
        seq![]
    } else {
        let c = (colors - 1) as usize;
        let prev = band_text(band, w, (colors - 1) as nat);
        if band.contains(c) {
            if prev.len() == 0 {
                color_group(band, w, c)
            } else {
                prev + seq![36u8] + color_group(band, w, c)
            }
        } else {
            prev
        }
    }
}

proof fn lemma_row_bit_monotone(r: nat, s: nat)
    requires
        r <= s,
    ensures
        row_bit(r) <= row_bit(s),
    decreases s,
{
    if r < s {
        lemma_row_bit_monotone(r, (s - 1) as nat);
    }
}

/// Up to six rows of an image, which encode to one line of output.
struct Line<'a> {
    sixline: &'a [usize],
    width: usize,
}

impl<'a> Line<'a> {
    /// The pattern of column `col` for color `c`.
    fn column_mask(&self, c: usize, col: usize) -> (m: u8)
        requires
            col < self.width,
        ensures
            m as nat == column_mask(self.sixline@, self.width as nat, c, col as nat, 6),
            m < 64,
    {
        let ghost b = self.sixline@;
        let ghost w = self.width as nat;
        let len = self.sixline.len();
        let w = self.width;
        let mut mask: u8 = 0;
        let mut bit: u8 = 1;
        let mut r: usize = 0;
        let mut off: usize = if col < len {
            col
        } else {
            len
        };
        proof {
            reveal_with_fuel(row_bit, 6);
            assert(row_bit(5) == 32);
        }
        while r < 6
            invariant
                b == self.sixline@,
                len == b.len(),
                w == self.width,
                col < w,
                r <= 6,
                bit as nat == row_bit(r as nat),
                bit <= 64,
                mask < bit,
                row_bit(5) == 32,
                mask as nat == column_mask(b, w as nat, c, col as nat, r as nat),
                r * w + col < len ==> off == r * w + col,
                r * w + col >= len ==> off == len,
            decreases 6 - r,
        {
            proof {
                if r < 6 {
                    lemma_row_bit_monotone(r as nat, 5);
                }
            }
            if off < len && self.sixline[off] == c {
                mask = mask + bit;
            }
            proof {
                assert((r + 1) * w == r * w + w) by (nonlinear_arith);
            }
            if len - off > w {
                off = off + w;
            } else {
                off = len;
            }
            bit = bit * 2;
            r = r + 1;
        }
        mask
    }

    /// The column patterns of color `c`, one per column.
    fn masks(&self, c: usize) -> (sixels: Vec<u8>)
        ensures
            sixels@ == band_masks(self.sixline@, self.width as nat, c),
            forall|i: int| 0 <= i < sixels@.len() ==> sixels@[i] < 64,
    {
        let mut sixels: Vec<u8> = Vec::new();
        let mut col: usize = 0;
        while col < self.width
            invariant
                col <= self.width,
                sixels@ =~= Seq::new(
                    col as nat,
                    |i: int| column_mask(self.sixline@, self.width as nat, c, i as nat, 6) as u8,
                ),
                forall|i: int| 0 <= i < sixels@.len() ==> sixels@[i] < 64,
            decreases self.width - col,
        {
            let m = self.column_mask(c, col);
            sixels.push(m);
            col = col + 1;
        }
        sixels
    }

    /// Appends the text of this band: for each color below `n_colors` that
    /// occurs in it, in ascending order, its selector and run-length
    /// compressed columns, with `$` between two colors.
    fn write(self, n_colors: usize, out: &mut Vec<u8>)
        requires
            forall|i: int| 0 <= i < self.sixline@.len() ==> self.sixline@[i] < n_colors,
        ensures
            final(out)@ == old(out)@ + band_text(self.sixline@, self.width as nat, n_colors as nat),
    {
        let ghost b = self.sixline@;
        let ghost w = self.width as nat;
        let mut present: Vec<bool> = Vec::new();
        while present.len() < n_colors
            invariant
                present@.len() <= n_colors,
                forall|c: int| 0 <= c < present@.len() ==> !present@[c],
            decreases n_colors - present@.len(),
        {
            present.push(false);
        }
        let mut i: usize = 0;
        while i < self.sixline.len()
            invariant
                b == self.sixline@,
                forall|j: int| 0 <= j < b.len() ==> b[j] < n_colors,
                i <= b.len(),
                present@.len() == n_colors,
                forall|c: int|
                    0 <= c < n_colors ==> (present@[c] <==> exists|j: int|
                        0 <= j < i && b[j] == c),
            decreases b.len() - i,
        {
            let p = self.sixline[i];
            present.set(p, true);
            assert forall|c: int| 0 <= c < n_colors implies (present@[c] <==> exists|j: int|
                0 <= j < i + 1 && b[j] == c) by {
                if c == p {
                    assert(b[i as int] == c);
                } else if present@[c] {
                    let j = choose|j: int| 0 <= j < i && b[j] == c;
                    assert(0 <= j < i + 1 && b[j] == c);
                } else if exists|j: int| 0 <= j < i + 1 && b[j] == c {
                    let j = choose|j: int| 0 <= j < i + 1 && b[j] == c;
                    assert(0 <= j < i && b[j] == c);
                }
            }
            i = i + 1;
        }
        let ghost base = out@;
        let mut printed = false;
        let mut c: usize = 0;
        while c < n_colors
            invariant
                b == self.sixline@,
                w == self.width,
                c <= n_colors,
                present@.len() == n_colors,
                forall|k: int| 0 <= k < n_colors ==> (present@[k] <==> b.contains(k as usize)),
                out@ == base + band_text(b, w, c as nat),
                printed == (band_text(b, w, c as nat).len() > 0),
            decreases n_colors - c,
        {
            assert(present@[c as int] <==> b.contains(c));
            if present[c] {
                let sixels = self.masks(c);
                let ghost prev = out@;
                if printed {
                    out.push(36u8);
                }
                out.push(35u8);
                push_decimal(out, c);
                write_sixels(sixels.as_slice(), out);
                printed = true;
                proof {
                    let g = color_group(b, w, c);
                    if band_text(b, w, c as nat).len() > 0 {
                        assert(out@ =~= prev + seq![36u8] + g);
                    } else {
                        assert(out@ =~= prev + g);
                    }
                    assert(band_text(b, w, (c + 1) as nat).len() > 0);
                }
            }
            c = c + 1;
        }
    }
}

/// Encodes `image` with `palette` as a SIXEL escape sequence.
pub fn encode<I: Index>(image: Image<I>, palette: Palette) -> (out: Vec<u8>)
    requires
        image.width > 0,
        forall|i: int|
            0 <= i < image.pixels@.len() ==> #[trigger] image.pixels@[i].spec_index()
                < palette.colors@.len(),
    ensures
        out@ == sixel_image(index_seq(image.pixels@), image.width as nat, palette.colors@),
{
    let ghost colors = palette.colors@;
    let ghost px = index_seq(image.pixels@);
    let w = image.width;
    let n_colors = palette.colors.len();
    let mut out: Vec<u8> = Vec::new();
    out.push(27u8);
    out.push(80u8);
    out.push(113u8);
    let mut i: usize = 0;
    while i < n_colors
        invariant
            n_colors == colors.len(),
            colors == palette.colors@,
            i <= n_colors,
            out@ == header() + palette_text(colors, i as nat),
        decreases n_colors - i,
    {
        palette.colors[i].write(i, &mut out);
        i = i + 1;
    }
    let mut indices: Vec<usize> = Vec::new();
    let mut j: usize = 0;
    while j < image.pixels.len()
        invariant
            px == index_seq(image.pixels@),
            j <= image.pixels@.len(),
            indices@ == px.take(j as int),
        decreases image.pixels@.len() - j,
    {
        let p = image.pixels[j].index();
        indices.push(p);
        assert(indices@ =~= px.take(j + 1));
        j = j + 1;
    }
    assert(indices@ =~= px);
    let ghost base = out@;
    let len = indices.len();
    let mut start: usize = 0;
    assert(px.subrange(0, len as int) =~= px);
    while start < len
        invariant
            indices@ == px,
            len == px.len(),
            w == image.width,
            w > 0,
            n_colors == colors.len(),
            forall|k: int| 0 <= k < px.len() ==> px[k] < n_colors,
            start <= len,
            out@ + bands_text(bands(px.subrange(start as int, len as int), w as nat), w as nat, n_colors as nat)
                == base + bands_text(bands(px, w as nat), w as nat, n_colors as nat),
        decreases len - start,
    {
        let rem = len - start;
        let size = if rem / 6 >= w {
            6 * w
        } else {
            rem
        };
        proof {
            assert(size == band_size(rem as nat, w as nat)) by (nonlinear_arith)
                requires
                    rem / 6 >= w ==> size == 6 * w,
                    rem / 6 < w ==> size == rem,
                    size == band_size(rem as nat, w as nat),
            ;
        }
        let end = start + size;
        let line = Line { sixline: slice_subrange(indices.as_slice(), start, end), width: w };
        let ghost rest = px.subrange(start as int, len as int);
        assert(rest.take(size as int) =~= line.sixline@);
        assert(rest.skip(size as int) =~= px.subrange(end as int, len as int));
        let ghost before = out@;
        line.write(n_colors, &mut out);
        out.push(45u8);
        proof {
            let bs = bands(rest, w as nat);
            assert(bs == seq![rest.take(size as int)] + bands(rest.skip(size as int), w as nat));
            assert(bs[0] == line.sixline@);
            assert(bs.drop_first() =~= bands(px.subrange(end as int, len as int), w as nat));
            assert(out@ =~= before + band_text(bs[0], w as nat, n_colors as nat) + seq![45u8]);
        }
        start = end;
    }
    out.push(27u8);
    out.push(92u8);
    assert(out@ =~= sixel_image(px, w as nat, colors));
    out
}

/// Encoding depends on the image and the palette alone: two encodings of the
/// same pair are the same bytes.
pub proof fn encode_is_deterministic(
    px: Seq<usize>,
    w: nat,
    colors: Seq<Color>,
    first: Seq<u8>,
    second: Seq<u8>,
)
    requires
        first == sixel_image(px, w, colors),
        second == sixel_image(px, w, colors),
    ensures
        first == second,
{
}

proof fn lemma_bands_text_ends_with_dash(bs: Seq<Seq<usize>>, w: nat, colors: nat)
    requires
        bs.len() > 0,
    ensures
        bands_text(bs, w, colors).len() > 0,
        bands_text(bs, w, colors).last() == 45u8,
    decreases bs.len(),
{
    let rest = bs.drop_first();
    let head = band_text(bs[0], w, colors) + seq![45u8];
    let tail = bands_text(rest, w, colors);
    assert(bands_text(bs, w, colors) == head + tail);
    if rest.len() > 0 {
        lemma_bands_text_ends_with_dash(rest, w, colors);
        assert((head + tail).last() == tail.last());
    } else {
        assert(tail.len() == 0);
        assert(head + tail =~= head);
    }
}

/// Every encoding starts with `ESC P q` and ends with `ESC` and a backslash;
/// where the image has pixels, the last band's `-` comes right before that
/// end.
pub proof fn encoding_is_framed(px: Seq<usize>, w: nat, colors: Seq<Color>)
    ensures
        sixel_image(px, w, colors).len() >= 5,
        sixel_image(px, w, colors).take(3) == header(),
        sixel_image(px, w, colors).skip(sixel_image(px, w, colors).len() - 2) == trailer(),
        w > 0 && px.len() > 0 ==> sixel_image(px, w, colors)[sixel_image(px, w, colors).len() - 3]
            == 45u8,
{
    let s = sixel_image(px, w, colors);
    let body = palette_text(colors, colors.len());
    let bt = bands_text(bands(px, w), w, colors.len());
    assert(s == header() + body + bt + trailer());
    assert(s.take(3) =~= header());
    assert(s.skip(s.len() - 2) =~= trailer());
    if w > 0 && px.len() > 0 {
        assert(bands(px, w).len() > 0);
        lemma_bands_text_ends_with_dash(bands(px, w), w, colors.len());
        assert(s[s.len() - 3] == bt.last());
    }
}

/// Bands are cut every six rows: every band but the last holds six full
/// rows, the last holds what is left (at least one pixel), and the last is
/// six full rows exactly when the pixel count is a multiple of six rows.
pub proof fn bands_are_six_rows(px: Seq<usize>, w: nat)
    requires
        w > 0,
    ensures
        bands(px, w).len() == 0 <==> px.len() == 0,
        forall|i: int| 0 <= i < bands(px, w).len() - 1 ==> #[trigger] bands(px, w)[i].len() == 6 * w,
        bands(px, w).len() > 0 ==> bands(px, w).last().len() > 0,
        bands(px, w).len() > 0 ==> (bands(px, w).last().len() == 6 * w <==> px.len() % (6 * w) == 0),
    decreases px.len(),
{
    let bs = bands(px, w);
    let m = 6 * w;
    if px.len() > 0 {
        let n = band_size(px.len(), w);
        let rest = px.skip(n as int);
        bands_are_six_rows(rest, w);
        assert(bs == seq![px.take(n as int)] + bands(rest, w));
        if px.len() <= m {
            assert(rest.len() == 0);
            assert(bands(rest, w).len() == 0);
            if px.len() < m {
                lemma_small_mod(px.len(), m);
            } else {
                lemma_mod_self_0(m as int);
            }
        } else {
            lemma_mod_sub_multiples_vanish(px.len() as int, m as int);
            assert(bs.last() == bands(rest, w).last());
            assert forall|i: int| 0 <= i < bs.len() - 1 implies #[trigger] bs[i].len() == m by {
                if i > 0 {
                    assert(bs[i] == bands(rest, w)[i - 1]);
                }
            }
        }
    }
}

proof fn lemma_mask_stable(band: Seq<usize>, w: nat, c: usize, col: nat, r: nat, rows: nat)
    requires
        r <= rows,
        r * w + col >= band.len(),
    ensures
        column_mask(band, w, c, col, rows) == column_mask(band, w, c, col, r),
    decreases rows,
{
    if r < rows {
        let last = (rows - 1) as nat;
        lemma_mask_stable(band, w, c, col, r, last);
        lemma_mul_inequality(r as int, last as int, w as int);
    }
}

/// Rows missing from a short band set no bit: where row `r` and the rows
/// after it hold no pixel at column `col`, the six-row pattern is the
/// pattern of the first `r` rows.
pub proof fn missing_rows_set_no_bit(band: Seq<usize>, w: nat, c: usize, col: nat, r: nat)
    requires
        r <= 6,
        r * w + col >= band.len(),
    ensures
        column_mask(band, w, c, col, 6) == column_mask(band, w, c, col, r),
{
    lemma_mask_stable(band, w, c, col, r, 6);
}

} // verus!
