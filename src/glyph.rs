use vstd::prelude::*;
use crate::frame::{Cell, Color, Image, Pixel};

verus! {

/// Denominator of the luminance scale: `luma` of pure white.
pub const LUMA_SCALE: u64 = 255000;

/// Perceptual luminance of a pixel, scaled so that black is 0 and white is
/// `LUMA_SCALE`: `(0.299 R + 0.587 G + 0.114 B) / 255` times `LUMA_SCALE`.
pub open spec fn luma(p: Pixel) -> int {
    299 * p.r as int + 587 * p.g as int + 114 * p.b as int
}

/// Position in a ramp of `n` glyphs chosen for a pixel:
/// `floor(L * (n - 1))` with `L` the luminance in `[0, 1]`.
pub open spec fn ramp_index(n: int, p: Pixel) -> int {
    luma(p) * (n - 1) / (LUMA_SCALE as int)
}

/// The cell that a pixel becomes under a ramp.
pub open spec fn cell_of(ramp: Seq<char>, p: Pixel) -> Cell {
    Cell { ch: ramp[ramp_index(ramp.len() as int, p)], color: Color::Rgb(p.r, p.g, p.b) }
}

/// The frame that the top-left `width` by `height` block of an image becomes,
/// row-major: cell `k` comes from the pixel at `(k % width, k / width)`.
pub open spec fn frame_of(ramp: Seq<char>, img: Image, width: int, height: int) -> Seq<Cell> {
    Seq::new(
        (width * height) as nat,
        |k: int| cell_of(ramp, img.pixel_at(k % width, k / width)),
    )
}

/// The glyphs of the built-in ramp, darkest first.
pub open spec fn default_ramp() -> Seq<char> {
    "$@B%8&WM#*oahkbdpqwmZO0QLCJUYXzcvunxrjft"@.reverse()
}

pub proof fn lemma_ramp_index_bounds(n: int, p: Pixel)
    requires
        n > 0,
    ensures
        0 <= ramp_index(n, p) < n,
{
    let l = luma(p);
    assert(0 <= l <= 255000);
    assert(0 <= l * (n - 1) <= 255000 * (n - 1)) by (nonlinear_arith)
        requires
            0 <= l <= 255000,
            n > 0,
    ;
    assert(l * (n - 1) / 255000 <= n - 1) by (nonlinear_arith)
        requires
            0 <= l * (n - 1) <= 255000 * (n - 1),
    ;
}

/// Mapping is a function of its inputs: two frames computed from the same
/// ramp, image and size are the same frame.
pub proof fn map_deterministic(
    ramp: Seq<char>,
    img: Image,
    width: int,
    height: int,
    first: Seq<Cell>,
    second: Seq<Cell>,
)
    requires
        first == frame_of(ramp, img, width, height),
        second == frame_of(ramp, img, width, height),
    ensures
        first == second,
{
}

/// An image whose mapped block is black everywhere maps to the darkest glyph
/// in every cell; one that is white everywhere maps to the brightest glyph.
pub proof fn boundary_luminance(ramp: Seq<char>, img: Image, width: int, height: int)
    requires
        ramp.len() > 0,
        img.wf(),
        0 <= width <= img.width,
        0 <= height <= img.height,
    ensures
        (forall|k: int| 0 <= k < img.pixels@.len() ==> #[trigger] img.pixels@[k] == (Pixel { r: 0, g: 0, b: 0 }))
            ==> forall|k: int| 0 <= k < width * height ==> #[trigger] frame_of(ramp, img, width, height)[k].ch == ramp[0],
        (forall|k: int| 0 <= k < img.pixels@.len() ==> #[trigger] img.pixels@[k] == (Pixel { r: 255, g: 255, b: 255 }))
            ==> forall|k: int| 0 <= k < width * height ==> #[trigger] frame_of(ramp, img, width, height)[k].ch == ramp[ramp.len() - 1],
{
    let n = ramp.len() as int;
    assert(ramp_index(n, Pixel { r: 0, g: 0, b: 0 }) == 0);
    assert(255000 * (n - 1) / 255000 == n - 1) by (nonlinear_arith);
    assert(ramp_index(n, Pixel { r: 255, g: 255, b: 255 }) == n - 1);
    assert forall|k: int| 0 <= k < width * height implies 0 <= (k / width) * img.width + k % width
        < img.pixels@.len() && #[trigger] frame_of(ramp, img, width, height)[k] == cell_of(
        ramp,
        img.pixel_at(k % width, k / width),
    ) by {
        lemma_block_position(k, width, height, img.width as int, img.height as int);
    }
}

/// Position `k` of a `width` by `height` block lies inside an image of
/// `iw` by `ih` pixels that holds the block.
pub proof fn lemma_block_position(k: int, width: int, height: int, iw: int, ih: int)
    requires
        0 <= k < width * height,
        0 <= width <= iw,
        0 <= height <= ih,
    ensures
        0 <= k % width < width,
        0 <= k / width < height,
        0 <= (k / width) * iw + k % width < iw * ih,
{
    assert(width > 0) by (nonlinear_arith)
        requires
            0 <= k < width * height,
            0 <= height,
            0 <= width,
    ;
    vstd::arithmetic::div_mod::lemma_fundamental_div_mod(k, width);
    vstd::arithmetic::div_mod::lemma_mod_bound(k, width);
    vstd::arithmetic::div_mod::lemma_div_pos_is_pos(k, width);
    let x0 = k % width;
    let y0 = k / width;
    assert(y0 < height) by (nonlinear_arith)
        requires
            k == width * y0 + x0,
            0 <= x0,
            k < width * height,
            width > 0,
    ;
    let x = k % width;
    let y = k / width;
    assert(y * iw + x < iw * ih) by (nonlinear_arith)
        requires
            0 <= y < height <= ih,
            0 <= x < width <= iw,
    ;
}

/// A brighter pixel never selects a darker glyph. For two images that are
/// each one uniform colour, every cell of the darker one carries a glyph at a
/// ramp position no later than that of every cell of the brighter one.
pub proof fn map_monotone(
    ramp: Seq<char>,
    dark: Image,
    light: Image,
    p1: Pixel,
    p2: Pixel,
    width: int,
    height: int,
)
    requires
        ramp.len() > 0,
        dark.wf(),
        light.wf(),
        0 <= width <= dark.width,
        0 <= height <= dark.height,
        width <= light.width,
        height <= light.height,
        forall|k: int| 0 <= k < dark.pixels@.len() ==> #[trigger] dark.pixels@[k] == p1,
        forall|k: int| 0 <= k < light.pixels@.len() ==> #[trigger] light.pixels@[k] == p2,
        luma(p1) < luma(p2),
    ensures
        ramp_index(ramp.len() as int, p1) <= ramp_index(ramp.len() as int, p2),
        forall|k: int| 0 <= k < width * height ==> #[trigger] frame_of(ramp, dark, width, height)[k].ch == ramp[ramp_index(ramp.len() as int, p1)],
        forall|k: int| 0 <= k < width * height ==> #[trigger] frame_of(ramp, light, width, height)[k].ch == ramp[ramp_index(ramp.len() as int, p2)],
{
    let n = ramp.len() as int;
    lemma_ramp_index_bounds(n, p1);
    lemma_ramp_index_bounds(n, p2);
    let l1 = luma(p1);
    let l2 = luma(p2);
    assert(l1 * (n - 1) <= l2 * (n - 1)) by (nonlinear_arith)
        requires
            l1 < l2,
            n > 0,
    ;
    vstd::arithmetic::div_mod::lemma_div_is_ordered(l1 * (n - 1), l2 * (n - 1), 255000);
    assert forall|k: int| 0 <= k < width * height implies 0 <= (k / width) * dark.width + k % width
        < dark.pixels@.len() && #[trigger] frame_of(ramp, dark, width, height)[k] == cell_of(
        ramp,
        dark.pixel_at(k % width, k / width),
    ) by {
        lemma_block_position(k, width, height, dark.width as int, dark.height as int);
    }
    assert forall|k: int| 0 <= k < width * height implies 0 <= (k / width) * light.width + k % width
        < light.pixels@.len() && #[trigger] frame_of(ramp, light, width, height)[k] == cell_of(
        ramp,
        light.pixel_at(k % width, k / width),
    ) by {
        lemma_block_position(k, width, height, light.width as int, light.height as int);
    }
}

/// Maps images to frames of characters through a fixed glyph ramp ordered
/// from darkest to brightest.
pub struct AsciiRenderer {
    ascii_chars: Vec<char>,
}

impl AsciiRenderer {
    pub closed spec fn ramp(&self) -> Seq<char> {
        self.ascii_chars@
    }

    /// A usable ramp has at least one glyph.
    pub open spec fn wf(&self) -> bool {
        self.ramp().len() > 0
    }

    /// A renderer with the built-in ramp.
    pub fn new() -> (r: AsciiRenderer)
        ensures
            r.wf(),
            r.ramp() == default_ramp(),
    {
        let s: &str = "$@B%8&WM#*oahkbdpqwmZO0QLCJUYXzcvunxrjft";
        proof {
            reveal_strlit("$@B%8&WM#*oahkbdpqwmZO0QLCJUYXzcvunxrjft");
        }
        let len: usize = s.unicode_len();
        let mut ascii_chars: Vec<char> = Vec::new();
        let mut i: usize = len;
        while i > 0
            invariant
                len == s@.len(),
                i <= len,
                ascii_chars@ == s@.subrange(i as int, len as int).reverse(),
            decreases i,
        {
            i = i - 1;
            let c = s.get_char(i);
            proof {
                assert(s@.subrange(i as int, len as int) =~= seq![c] + s@.subrange(
                    i + 1,
                    len as int,
                ));
                assert(s@.subrange(i as int, len as int).reverse() =~= ascii_chars@.push(c));
            }
            ascii_chars.push(c);
        }
        assert(s@.subrange(0, len as int) =~= s@);
        AsciiRenderer { ascii_chars }
    }

    /// A renderer with a ramp of the caller's choice, darkest glyph first;
    /// `None` for an empty ramp.
    pub fn from_ramp(ascii_chars: Vec<char>) -> (r: Option<AsciiRenderer>)
        ensures
            r.is_some() <==> ascii_chars@.len() > 0,
            r matches Some(a) ==> a.wf() && a.ramp() == ascii_chars@,
    {
        if ascii_chars.len() == 0 {
            None
        } else {
            Some(AsciiRenderer { ascii_chars })
        }
    }

    /// The cell for one pixel: the glyph its luminance selects, in its colour.
    fn glyph_for(&self, p: Pixel) -> (c: Cell)
        requires
            self.wf(),
        ensures
            c == cell_of(self.ramp(), p),
    {
        let n: usize = self.ascii_chars.len();
        let weighted: u128 = 299 * (p.r as u128) + 587 * (p.g as u128) + 114 * (p.b as u128);
        let m: u128 = (n - 1) as u128;
        proof {
            let l = weighted as int;
            let mm = m as int;
            assert(l * mm <= 255000 * 0xffff_ffff_ffff_ffff) by (nonlinear_arith)
                requires
                    0 <= l <= 255000,
                    0 <= mm <= 0xffff_ffff_ffff_ffff,
            ;
            lemma_ramp_index_bounds(n as int, p);
        }
        let idx: usize = (weighted * m / (LUMA_SCALE as u128)) as usize;
        Cell { ch: self.ascii_chars[idx], color: Color::Rgb(p.r, p.g, p.b) }
    }

    /// Converts the top-left `width` by `height` block of `image` into a frame
    /// of `width * height` cells in row-major order. Each cell takes the glyph
    /// that the pixel's luminance selects and the pixel's own colour.
    pub fn to_ascii(&self, image: &Image, width: u32, height: u32) -> (r: Vec<Cell>)
        requires
            self.wf(),
            image.wf(),
            width <= image.width,
            height <= image.height,
        ensures
            r@.len() == width as int * height as int,
            r@ == frame_of(self.ramp(), *image, width as int, height as int),
    {
        let ghost ramp = self.ramp();
        let ghost w = width as int;
        let ghost iw = image.width as int;
        let ghost ih = image.height as int;
        let n: usize = self.ascii_chars.len();
        let total: usize = image.pixels.len();
        let mut ascii_frame: Vec<Cell> = Vec::new();
        let mut y: u32 = 0;
        while y < height
            invariant
                ramp == self.ramp(),
                n == ramp.len(),
                n > 0,
                w == width as int,
                iw == image.width as int,
                ih == image.height as int,
                image.wf(),
                total == image.pixels@.len(),
                width <= image.width,
                height <= image.height,
                y <= height,
                ascii_frame@.len() == y as int * w,
                forall|k: int|
                    0 <= k < ascii_frame@.len() ==> #[trigger] ascii_frame@[k] == cell_of(
                        ramp,
                        image.pixel_at(k % w, k / w),
                    ),
            decreases height - y,
        {
            let mut x: u32 = 0;
            while x < width
                invariant
                    ramp == self.ramp(),
                    n == ramp.len(),
                    n > 0,
                    w == width as int,
                    iw == image.width as int,
                    ih == image.height as int,
                    image.wf(),
                    total == image.pixels@.len(),
                    width <= image.width,
                    height <= image.height,
                    y < height,
                    x <= width,
                    ascii_frame@.len() == y as int * w + x,
                    forall|k: int|
                        0 <= k < ascii_frame@.len() ==> #[trigger] ascii_frame@[k] == cell_of(
                            ramp,
                            image.pixel_at(k % w, k / w),
                        ),
                decreases width - x,
            {
                proof {
                    assert(y as int * iw + x < ih * iw) by (nonlinear_arith)
                        requires
                            0 <= y < ih,
                            0 <= x < iw,
                    ;
                }
                let pos: usize = (y as usize) * (image.width as usize) + (x as usize);
                let p: Pixel = image.pixels[pos];
                let cell = self.glyph_for(p);
                proof {
                    let k = y as int * w + x;
                    vstd::arithmetic::div_mod::lemma_fundamental_div_mod_converse(
                        k,
                        w,
                        y as int,
                        x as int,
                    );
                }
                ascii_frame.push(cell);
                x = x + 1;
            }
            assert(y as int * w + w == (y as int + 1) * w) by (nonlinear_arith);
            y = y + 1;
        }
        assert(height as int * w == w * height as int) by (nonlinear_arith);
        assert(ascii_frame@ =~= frame_of(ramp, *image, w, height as int));
        ascii_frame
    }
}

impl Default for AsciiRenderer {
    fn default() -> (r: AsciiRenderer)
        ensures
            r.wf(),
            r.ramp() == default_ramp(),
    {
        AsciiRenderer::new()
    }
}

} // verus!
