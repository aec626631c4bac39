//! Raw RGB pixel buffers and their horizontal mirror.

use vstd::prelude::*;

verus! {

/// Offset of channel `c` of pixel `(x, y)` in a row-major buffer of the given
/// width, three bytes per pixel.
pub open spec fn pixel_index(width: int, x: int, y: int, c: int) -> int {
    (y * width + x) * 3 + c
}

/// Channel `c` of pixel `(x, y)` in row-major RGB bytes of the given width.
pub open spec fn channel_at(bytes: Seq<u8>, width: int, x: int, y: int, c: int) -> u8 {
    bytes[pixel_index(width, x, y, c)]
}

/// An image as `width * height` RGB pixels, row-major, three bytes per pixel.
#[derive(Clone, Debug)]
pub struct PixelBuffer {
    pub width: u32,
    pub height: u32,
    pub pixels: Vec<u8>,
}

proof fn lemma_pixel_index_in_bounds(width: int, height: int, x: int, y: int, c: int)
    requires
        0 <= x < width,
        0 <= y < height,
        0 <= c < 3,
    ensures
        0 <= pixel_index(width, x, y, c) < width * height * 3,
{
    assert(0 <= (y * width + x) * 3 + c < width * height * 3) by (nonlinear_arith)
        requires
            0 <= x < width,
            0 <= y < height,
            0 <= c < 3,
    ;
}

/// Pixels earlier in row-major order have all their channels before the
/// first channel of a later pixel.
proof fn lemma_pixel_index_before(width: int, xx: int, yy: int, cc: int, x: int, y: int)
    requires
        0 <= xx < width,
        0 <= cc < 3,
        0 <= x,
        0 <= yy,
        yy < y || (yy == y && xx < x),
    ensures
        pixel_index(width, xx, yy, cc) < (y * width + x) * 3,
{
    if yy < y {
        assert((yy * width + xx) * 3 + cc < (y * width + x) * 3) by (nonlinear_arith)
            requires
                0 <= xx < width,
                0 <= cc < 3,
                0 <= x,
                0 <= yy < y,
        ;
    }
}

/// Rows `0..rows` of the `w`-pixel-wide image `src`, each followed by one
/// black pixel.
pub open spec fn padded_rows(src: Seq<u8>, w: int, rows: int) -> Seq<u8>
    decreases rows,
{
    if rows <= 0 {
        Seq::empty()
    } else {
        padded_rows(src, w, rows - 1) + src.subrange((rows - 1) * w * 3, rows * w * 3) + seq![
            0u8,
            0u8,
            0u8,
        ]
    }
}

/// The `w x h` image `src` with a black column added on the right and a black
/// row added at the bottom.
pub open spec fn padded_pixels(src: Seq<u8>, w: int, h: int) -> Seq<u8> {
    padded_rows(src, w, h) + Seq::new(((w + 1) * 3) as nat, |i: int| 0u8)
}

proof fn lemma_padded_rows_len(src: Seq<u8>, w: int, rows: int)
    requires
        0 <= w,
        0 <= rows,
        rows * w * 3 <= src.len(),
    ensures
        padded_rows(src, w, rows).len() == rows * (w + 1) * 3,
    decreases rows,
{
    if rows > 0 {
        assert(0 <= (rows - 1) * w * 3 <= rows * w * 3 && rows * w * 3 - (rows - 1) * w * 3 == w
            * 3 && (rows - 1) * (w + 1) * 3 + w * 3 + 3 == rows * (w + 1) * 3) by (nonlinear_arith)
            requires
                0 <= w,
                0 < rows,
        ;
        lemma_padded_rows_len(src, w, rows - 1);
        let row = src.subrange((rows - 1) * w * 3, rows * w * 3);
        assert(row.len() == w * 3);
        assert(padded_rows(src, w, rows) == padded_rows(src, w, rows - 1) + row + seq![
            0u8,
            0u8,
            0u8,
        ]);
        assert(seq![0u8, 0u8, 0u8].len() == 3);
        assert(padded_rows(src, w, rows).len() == (rows - 1) * (w + 1) * 3 + w * 3 + 3);
    } else {
        assert(rows * (w + 1) * 3 == 0) by (nonlinear_arith)
            requires
                rows == 0,
        ;
    }
}

proof fn lemma_padded_rows_channel(src: Seq<u8>, w: int, rows: int, x: int, y: int, c: int)
    requires
        0 <= x < w,
        0 <= y < rows,
        0 <= c < 3,
        rows * w * 3 <= src.len(),
    ensures
        channel_at(padded_rows(src, w, rows), w + 1, x, y, c) == channel_at(src, w, x, y, c),
    decreases rows,
{
    assert(0 <= (rows - 1) * w * 3 <= rows * w * 3 && rows * w * 3 - (rows - 1) * w * 3 == w * 3)
        by (nonlinear_arith)
        requires
            0 <= w,
            0 < rows,
    ;
    lemma_padded_rows_len(src, w, rows - 1);
    if y < rows - 1 {
        lemma_pixel_index_before(w + 1, x, y, c, 0, rows - 1);
        lemma_padded_rows_channel(src, w, rows - 1, x, y, c);
    } else {
        assert(pixel_index(w + 1, x, y, c) == (rows - 1) * (w + 1) * 3 + 3 * x + c
            && pixel_index(w, x, y, c) == (rows - 1) * w * 3 + 3 * x + c) by (nonlinear_arith)
            requires
                y == rows - 1,
        ;
    }
}

/// Pixels of the image keep their values in its padded copy.
pub proof fn lemma_padded_channel(src: Seq<u8>, w: int, h: int, x: int, y: int, c: int)
    requires
        0 <= x < w,
        0 <= y < h,
        0 <= c < 3,
        src.len() == w * h * 3,
    ensures
        channel_at(padded_pixels(src, w, h), w + 1, x, y, c) == channel_at(src, w, x, y, c),
{
    assert(h * w * 3 == w * h * 3) by (nonlinear_arith);
    lemma_padded_rows_len(src, w, h);
    lemma_padded_rows_channel(src, w, h, x, y, c);
    lemma_pixel_index_before(w + 1, x, y, c, 0, h);
}

impl PixelBuffer {
    /// The byte length matches the dimensions.
    pub open spec fn wf(&self) -> bool {
        self.pixels@.len() == self.width * self.height * 3
    }

    /// Channel `c` of pixel `(x, y)`.
    pub open spec fn channel(&self, x: int, y: int, c: int) -> u8 {
        channel_at(self.pixels@, self.width as int, x, y, c)
    }

    /// `self` is `other` reflected about its vertical axis: same size, and
    /// pixel `(x, y)` of `self` is pixel `(width - 1 - x, y)` of `other`.
    pub open spec fn is_mirror_of(&self, other: &PixelBuffer) -> bool {
        &&& self.width == other.width
        &&& self.height == other.height
        &&& forall|x: int, y: int, c: int|
            0 <= x < self.width && 0 <= y < self.height && 0 <= c < 3 ==> #[trigger] self.channel(
                x,
                y,
                c,
            ) == other.channel(self.width - 1 - x, y, c)
    }

    /// Wraps raw RGB bytes; `None` when their length is not `width * height * 3`.
    pub fn from_raw(width: u32, height: u32, pixels: Vec<u8>) -> (r: Option<PixelBuffer>)
        ensures
            r is Some <==> pixels@.len() == width * height * 3,
            r matches Some(b) ==> b.width == width && b.height == height && b.pixels@
                == pixels@,
    {
        assert(width as u128 * height as u128 * 3 <= 0xffff_ffff_ffff_ffff_ffff_ffffu128) by (
        nonlinear_arith)
            requires
                width <= 0xffff_ffffu32,
                height <= 0xffff_ffffu32,
        ;
        let needed = width as u128 * height as u128 * 3;
        if pixels.len() as u128 == needed {
            Some(PixelBuffer { width, height, pixels })
        } else {
            None
        }
    }

    /// The image with one black column added on the right and one black row
    /// added at the bottom; every pixel of `self` keeps its coordinates.
    pub fn padded(&self) -> (r: PixelBuffer)
        requires
            self.wf(),
            self.width < u32::MAX,
            self.height < u32::MAX,
            (self.width + 1) * (self.height + 1) * 3 <= usize::MAX,
        ensures
            r.wf(),
            r.width == self.width + 1,
            r.height == self.height + 1,
            r.pixels@ == padded_pixels(self.pixels@, self.width as int, self.height as int),
    {
        let w = self.width as usize;
        let h = self.height as usize;
        let ghost src = self.pixels@;
        assert((w + 1) * 3 <= (w + 1) * (h + 1) * 3 && h * w * 3 <= (w + 1) * (h + 1) * 3 && h * w * 3
            == w * h * 3) by (nonlinear_arith)
            requires
                w >= 0,
                h >= 0,
        ;
        let row_len = w * 3;
        let tail = row_len + 3;
        let mut out: Vec<u8> = Vec::new();
        let mut y: usize = 0;
        while y < h
            invariant
                self.wf(),
                src == self.pixels@,
                w == self.width,
                h == self.height,
                row_len == w * 3,
                tail == row_len + 3,
                h * w * 3 <= usize::MAX,
                h * w * 3 == src.len(),
                y <= h,
                out@ == padded_rows(src, w as int, y as int),
            decreases h - y,
        {
            assert(y * w * 3 + w * 3 <= h * w * 3) by (nonlinear_arith)
                requires
                    y < h,
            ;
            let start = y * w * 3;
            assert(out@ + src.subrange(start as int, start as int) =~= out@);
            let mut k: usize = 0;
            while k < row_len
                invariant
                    self.wf(),
                    src == self.pixels@,
                    w == self.width,
                    h == self.height,
                    row_len == w * 3,
                    y < h,
                    start == y * w * 3,
                    start + row_len <= h * w * 3,
                    h * w * 3 == src.len(),
                    h * w * 3 <= usize::MAX,
                    k <= row_len,
                    out@ == padded_rows(src, w as int, y as int) + src.subrange(
                        start as int,
                        start + k,
                    ),
                decreases row_len - k,
            {
                out.push(self.pixels[start + k]);
                proof {
                    assert(src.subrange(start as int, start + k + 1) =~= src.subrange(
                        start as int,
                        start + k,
                    ).push(src[start + k]));
                }
                k = k + 1;
            }
            out.push(0);
            out.push(0);
            out.push(0);
            proof {
                assert((y + 1) * w * 3 == start + row_len) by (nonlinear_arith)
                    requires
                        start == y * w * 3,
                        row_len == w * 3,
                ;
                assert(out@ =~= padded_rows(src, w as int, y + 1));
            }
            y = y + 1;
        }
        let ghost body = out@;
        let mut k: usize = 0;
        while k < tail
            invariant
                tail == (w + 1) * 3,
                k <= tail,
                out@ == body + Seq::new(k as nat, |i: int| 0u8),
            decreases tail - k,
        {
            out.push(0);
            proof {
                assert(out@ =~= body + Seq::new((k + 1) as nat, |i: int| 0u8));
            }
            k = k + 1;
        }
        proof {
            lemma_padded_rows_len(src, w as int, h as int);
            assert(out@ =~= padded_pixels(src, w as int, h as int));
            assert(out@.len() == (self.width + 1) * (self.height + 1) * 3) by (nonlinear_arith)
                requires
                    out@.len() == h * (w + 1) * 3 + (w + 1) * 3,
                    w == self.width,
                    h == self.height,
            ;
        }
        PixelBuffer { width: self.width + 1, height: self.height + 1, pixels: out }
    }

    /// The image reflected about its vertical axis: pixel `(x, y)` of the result
    /// is pixel `(width - 1 - x, y)` of `self`.
    pub fn mirrored(&self) -> (r: PixelBuffer)
        requires
            self.wf(),
        ensures
            r.wf(),
            r.is_mirror_of(self),
    {
        let w = self.width as usize;
        let h = self.height as usize;
        let ghost src = self.pixels@;
        let mut out: Vec<u8> = Vec::new();
        let mut y: usize = 0;
        while y < h
            invariant
                self.wf(),
                src == self.pixels@,
                w == self.width,
                h == self.height,
                y <= h,
                out@.len() == y * w * 3,
                forall|xx: int, yy: int, cc: int|
                    0 <= xx < w && 0 <= yy < y && 0 <= cc < 3 ==> #[trigger] channel_at(
                        out@,
                        w as int,
                        xx,
                        yy,
                        cc,
                    ) == channel_at(src, w as int, w - 1 - xx, yy, cc),
            decreases h - y,
        {
            let mut x: usize = 0;
            while x < w
                invariant
                    self.wf(),
                    src == self.pixels@,
                    w == self.width,
                    h == self.height,
                    y < h,
                    x <= w,
                    out@.len() == (y * w + x) * 3,
                    forall|xx: int, yy: int, cc: int|
                        0 <= xx < w && 0 <= cc < 3 && 0 <= yy && (yy < y || (yy == y && xx
                            < x)) ==> #[trigger] channel_at(out@, w as int, xx, yy, cc)
                            == channel_at(src, w as int, w - 1 - xx, yy, cc),
                decreases w - x,
            {
                proof {
                    lemma_pixel_index_in_bounds(w as int, h as int, (w - 1 - x) as int, y as int, 2);
                    lemma_pixel_index_in_bounds(w as int, h as int, x as int, y as int, 2);
                }
                let total = self.pixels.len();
                assert(pixel_index(w as int, (w - 1 - x) as int, y as int, 2) < total);
                assert(y * w <= (y * w + (w - 1 - x)) * 3 + 2);
                let start = (y * w + (w - 1 - x)) * 3;
                let ghost before = out@;
                out.push(self.pixels[start]);
                out.push(self.pixels[start + 1]);
                out.push(self.pixels[start + 2]);
                proof {
                    assert forall|xx: int, yy: int, cc: int|
                        0 <= xx < w && 0 <= cc < 3 && 0 <= yy && (yy < y || (yy == y && xx
                            <= x)) implies #[trigger] channel_at(out@, w as int, xx, yy, cc)
                        == channel_at(src, w as int, w - 1 - xx, yy, cc) by {
                        if yy == y && xx == x {
                            assert(pixel_index(w as int, xx, yy, cc) == before.len() + cc);
                            assert(pixel_index(w as int, w - 1 - xx, yy, cc) == start + cc);
                        } else {
                            lemma_pixel_index_before(w as int, xx, yy, cc, x as int, y as int);
                            assert(channel_at(before, w as int, xx, yy, cc) == channel_at(
                                src,
                                w as int,
                                w - 1 - xx,
                                yy,
                                cc,
                            ));
                        }
                    }
                }
                x = x + 1;
            }
            assert(out@.len() == (y + 1) * w * 3) by (nonlinear_arith)
                requires
                    out@.len() == (y * w + w) * 3,
            ;
            y = y + 1;
        }
        assert(out@.len() == self.width * self.height * 3) by (nonlinear_arith)
            requires
                out@.len() == y * w * 3,
                y == h,
                w == self.width,
                h == self.height,
        ;
        PixelBuffer { width: self.width, height: self.height, pixels: out }
    }
}

} // verus!
