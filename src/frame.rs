use vstd::prelude::*;

verus! {

/// One 8-bit RGB pixel of a source image.
#[derive(PartialEq, Eq, Structural, Clone, Copy, Debug)]
pub struct Pixel {
    pub r: u8,
    pub g: u8,
    pub b: u8,
}

/// The foreground colour of a terminal cell.
///
/// `Black` is the terminal's named black, used for the blank cell that an
/// undrawn screen holds; every mapped cell carries an exact `Rgb` colour.
#[derive(PartialEq, Eq, Structural, Clone, Copy, Debug)]
pub enum Color {
    Black,
    Rgb(u8, u8, u8),
}

/// One character of terminal output together with its colour.
#[derive(PartialEq, Eq, Structural, Clone, Copy, Debug)]
pub struct Cell {
    pub ch: char,
    pub color: Color,
}

/// The cell an undrawn screen is taken to hold.
pub open spec fn blank_cell() -> Cell {
    Cell { ch: ' ', color: Color::Black }
}

/// A colour image stored row by row: the pixel at `(x, y)` is
/// `pixels[y * width + x]`.
#[derive(Clone, Debug)]
pub struct Image {
    pub width: u32,
    pub height: u32,
    pub pixels: Vec<Pixel>,
}

impl Image {
    /// The pixel buffer holds exactly one pixel per position.
    pub open spec fn wf(&self) -> bool {
        self.pixels@.len() == self.width as int * self.height as int
    }

    pub open spec fn pixel_at(&self, x: int, y: int) -> Pixel {
        self.pixels@[y * self.width as int + x]
    }

    /// Builds an image from a packed RGBA byte buffer, four bytes per pixel in
    /// row-major order, dropping the alpha byte. Trailing bytes beyond
    /// `width * height` pixels are ignored; a buffer too short for the
    /// requested size yields `None`.
    pub fn from_rgba(width: u32, height: u32, data: &[u8]) -> (r: Option<Image>)
        ensures
            r.is_some() <==> 4 * (width as int * height as int) <= data@.len(),
            r matches Some(img) ==> {
                &&& img.width == width
                &&& img.height == height
                &&& img.wf()
                &&& forall|k: int|
                    0 <= k < img.pixels@.len() ==> #[trigger] img.pixels@[k] == (Pixel {
                        r: data@[4 * k],
                        g: data@[4 * k + 1],
                        b: data@[4 * k + 2],
                    })
            },
    {
        assert(width as int * height as int <= 0xffff_ffff * 0xffff_ffff) by (nonlinear_arith);
        let n: u64 = width as u64 * height as u64;
        let dlen: usize = data.len();
        let avail: u64 = (dlen / 4) as u64;
        if n > avail {
            return None;
        }
        assert(4 * (n as int) <= data@.len()) by (nonlinear_arith)
            requires
                n as int <= data@.len() / 4,
        ;
        let count: usize = n as usize;
        let mut pixels: Vec<Pixel> = Vec::with_capacity(count);
        let mut k: usize = 0;
        while k < count
            invariant
                count == width as int * height as int,
                4 * count <= data@.len(),
                dlen == data@.len(),
                k <= count,
                pixels@.len() == k,
                forall|j: int|
                    0 <= j < k ==> #[trigger] pixels@[j] == (Pixel {
                        r: data@[4 * j],
                        g: data@[4 * j + 1],
                        b: data@[4 * j + 2],
                    }),
            decreases count - k,
        {
            assert(4 * k + 3 <= data@.len()) by (nonlinear_arith)
                requires
                    k < count,
                    4 * count <= data@.len(),
            ;
            let p = Pixel { r: data[4 * k], g: data[4 * k + 1], b: data[4 * k + 2] };
            pixels.push(p);
            k = k + 1;
        }
        Some(Image { width, height, pixels })
    }
}

} // verus!
