//! Rasters of 8-bit RGBA pixels, stored row by row.
use vstd::prelude::*;

verus! {

/// A pixel: red, green, blue, alpha.
pub type Rgba = (u8, u8, u8, u8);

/// Where the bytes of the pixel in column `x` of row `y` begin.
pub open spec fn pixel_offset(width: int, x: int, y: int) -> int {
    4 * (y * width + x)
}

/// The pixel in column `x` of row `y` of rows that are `width` pixels long.
pub open spec fn pixel_of(bytes: Seq<u8>, width: int, x: int, y: int) -> Rgba {
    let at = pixel_offset(width, x, y);
    (bytes[at], bytes[at + 1], bytes[at + 2], bytes[at + 3])
}

/// Whether the bytes of a row of `width` pixels can be counted.
pub open spec fn row_fits(width: int) -> bool {
    4 * width <= usize::MAX
}

/// The mathematical content of a [`Raster`].
#[verifier::ext_equal]
pub struct Picture {
    pub width: int,
    pub height: int,
    pub bytes: Seq<u8>,
}

impl Picture {
    /// The sides and the bytes of a row are in range, and there are four bytes for each pixel.
    pub open spec fn wf(self) -> bool {
        &&& 0 <= self.width <= u32::MAX
        &&& 0 <= self.height <= u32::MAX
        &&& row_fits(self.width)
        &&& self.bytes.len() == 4 * (self.width * self.height)
    }

    /// Whether there is a pixel in column `x` of row `y`.
    pub open spec fn has(self, x: int, y: int) -> bool {
        0 <= x < self.width && 0 <= y < self.height
    }

    /// The pixel in column `x` of row `y`.
    pub open spec fn pixel(self, x: int, y: int) -> Rgba {
        pixel_of(self.bytes, self.width, x, y)
    }
}

/// A pixel of a well-formed picture lies within its bytes.
pub proof fn lemma_offset_in_range(width: int, height: int, x: int, y: int)
    requires
        0 <= x < width,
        0 <= y < height,
    ensures
        0 <= pixel_offset(width, x, y),
        pixel_offset(width, x, y) + 4 <= 4 * (width * height),
{
    assert(0 <= y * width) by (nonlinear_arith)
        requires
            0 <= y,
            0 < width,
    ;
    assert(y * width + width <= width * height) by (nonlinear_arith)
        requires
            0 <= y,
            y + 1 <= height,
            0 < width,
    ;
}

/// Every byte position belongs to one pixel.
pub proof fn lemma_byte_position(width: int, height: int, k: int)
    requires
        0 <= width,
        0 <= height,
        0 <= k < 4 * (width * height),
    ensures
        width > 0,
        0 <= (k / 4) % width < width,
        0 <= (k / 4) / width < height,
        pixel_offset(width, (k / 4) % width, (k / 4) / width) == k - k % 4,
{
    assert(width > 0) by (nonlinear_arith)
        requires
            0 <= width,
            0 < width * height,
    ;
    let m = k / 4;
    vstd::arithmetic::div_mod::lemma_fundamental_div_mod(m, width);
    assert(m % width >= 0 && m % width < width && m / width >= 0) by (nonlinear_arith)
        requires
            width > 0,
            m >= 0,
    ;
    assert(m / width < height) by (nonlinear_arith)
        requires
            m < width * height,
            m == width * (m / width) + m % width,
            m % width >= 0,
            width > 0,
    ;
    assert((m / width) * width == width * (m / width)) by (nonlinear_arith);
}

/// Two pictures of the same size with the same pixels are the same picture.
pub proof fn lemma_same_pixels(a: Picture, b: Picture)
    requires
        a.wf(),
        b.wf(),
        a.width == b.width,
        a.height == b.height,
        forall|x: int, y: int| a.has(x, y) ==> a.pixel(x, y) == #[trigger] b.pixel(x, y),
    ensures
        a == b,
{
    assert forall|k: int| 0 <= k < a.bytes.len() implies a.bytes[k] == b.bytes[k] by {
        lemma_byte_position(a.width, a.height, k);
        let x = (k / 4) % a.width;
        let y = (k / 4) / a.width;
        assert(a.has(x, y));
        assert(a.pixel(x, y) == b.pixel(x, y));
    }
    assert(a.bytes =~= b.bytes);
}

/// A pixel that lies within the first bytes stays the same when bytes are added behind them.
pub proof fn lemma_pixel_of_prefix(bytes: Seq<u8>, more: Seq<u8>, width: int, x: int, y: int)
    requires
        0 <= pixel_offset(width, x, y),
        pixel_offset(width, x, y) + 4 <= bytes.len(),
    ensures
        pixel_of(bytes + more, width, x, y) == pixel_of(bytes, width, x, y),
{
}

/// Byte `c` of a pixel.
pub open spec fn channel(p: Rgba, c: int) -> u8 {
    if c == 0 {
        p.0
    } else if c == 1 {
        p.1
    } else if c == 2 {
        p.2
    } else {
        p.3
    }
}

/// The picture whose pixel in column `x` of row `y` is `f(x, y)`.
pub open spec fn picture_of(width: int, height: int, f: spec_fn(int, int) -> Rgba) -> Picture {
    Picture {
        width,
        height,
        bytes: Seq::new(
            (4 * (width * height)) as nat,
            |k: int| channel(f((k / 4) % width, (k / 4) / width), k % 4),
        ),
    }
}

/// A picture made from a function on positions has the values of that function as its pixels.
pub proof fn lemma_picture_of(width: int, height: int, f: spec_fn(int, int) -> Rgba)
    requires
        0 <= width <= u32::MAX,
        0 <= height <= u32::MAX,
        row_fits(width),
    ensures
        picture_of(width, height, f).wf(),
        forall|x: int, y: int|
            0 <= x < width && 0 <= y < height ==> #[trigger] picture_of(width, height, f).pixel(
                x,
                y,
            ) == f(x, y),
{
    let pic = picture_of(width, height, f);
    assert(0 <= width * height) by (nonlinear_arith)
        requires
            0 <= width,
            0 <= height,
    ;
    assert forall|x: int, y: int| 0 <= x < width && 0 <= y < height implies #[trigger] pic.pixel(
        x,
        y,
    ) == f(x, y) by {
        lemma_offset_in_range(width, height, x, y);
        let m = y * width + x;
        assert(m % width == x && m / width == y) by {
            vstd::arithmetic::div_mod::lemma_fundamental_div_mod_converse(m, width, y, x);
        }
        let at = pixel_offset(width, x, y);
        assert(at == 4 * m);
        assert((at + 1) / 4 == m && (at + 2) / 4 == m && (at + 3) / 4 == m && at / 4 == m);
        assert(pic.bytes[at] == channel(f(x, y), 0));
        assert(pic.bytes[at + 1] == channel(f(x, y), 1));
        assert(pic.bytes[at + 2] == channel(f(x, y), 2));
        assert(pic.bytes[at + 3] == channel(f(x, y), 3));
    }
}

/// The smaller of two numbers.
pub open spec fn least(a: int, b: int) -> int {
    if a <= b {
        a
    } else {
        b
    }
}

/// The part of `pic` whose top left corner is column `x` of row `y`, at most `width` columns and
/// `height` rows of it: what lies outside `pic` is cut off.
pub open spec fn cropped(pic: Picture, x: int, y: int, width: int, height: int) -> Picture {
    let left = least(x, pic.width);
    let top = least(y, pic.height);
    picture_of(
        least(width, pic.width - left),
        least(height, pic.height - top),
        |a: int, b: int| pic.pixel(left + a, top + b),
    )
}

/// The red, green and blue bytes of RGBA bytes.
pub open spec fn without_alpha(bytes: Seq<u8>) -> Seq<u8> {
    Seq::new((3 * (bytes.len() / 4)) as nat, |k: int| bytes[4 * (k / 3) + k % 3])
}

/// An RGBA image in memory.
#[derive(Debug)]
pub struct Raster {
    width: u32,
    height: u32,
    bytes: Vec<u8>,
}

impl View for Raster {
    type V = Picture;

    closed spec fn view(&self) -> Picture {
        Picture { width: self.width as int, height: self.height as int, bytes: self.bytes@ }
    }
}

/// Appends the four bytes of a pixel.
fn push_pixel(bytes: &mut Vec<u8>, p: Rgba)
    ensures
        final(bytes)@ == old(bytes)@ + seq![p.0, p.1, p.2, p.3],
{
    bytes.push(p.0);
    bytes.push(p.1);
    bytes.push(p.2);
    bytes.push(p.3);
    assert(bytes@ =~= old(bytes)@ + seq![p.0, p.1, p.2, p.3]);
}

impl Raster {
    #[verifier::type_invariant]
    spec fn inv(self) -> bool {
        self@.wf()
    }

    /// Takes the pixels of a `width` by `height` raster from the front of `bytes`: `None` if there
    /// are too few, or if the bytes of a row cannot be counted.
    pub fn from_raw(width: u32, height: u32, bytes: Vec<u8>) -> (res: Option<Raster>)
        ensures
            res is Some <==> row_fits(width as int) && 4 * (width * height) <= bytes@.len(),
            res matches Some(r) ==> r@ == (Picture {
                width: width as int,
                height: height as int,
                bytes: bytes@.take(4 * (width * height)),
            }),
    {
        assert(0 <= width * height <= 0xffff_ffff * 0xffff_ffff) by (nonlinear_arith)
            requires
                0 <= width <= 0xffff_ffff,
                0 <= height <= 0xffff_ffff,
        ;
        let need: u128 = 4 * (width as u128 * height as u128);
        if 4 * (width as u128) > usize::MAX as u128 || need > bytes.len() as u128 {
            return None;
        }
        let mut bytes = bytes;
        bytes.truncate(need as usize);
        Some(Raster { width, height, bytes })
    }

    /// A raster with the same colour everywhere.
    pub fn filled(width: u32, height: u32, color: Rgba) -> (res: Raster)
        requires
            row_fits(width as int),
            4 * (width * height) <= isize::MAX,
        ensures
            res@ == picture_of(width as int, height as int, |x: int, y: int| color),
    {
        assert(0 <= width * height <= 0xffff_ffff * 0xffff_ffff) by (nonlinear_arith)
            requires
                0 <= width <= 0xffff_ffff,
                0 <= height <= 0xffff_ffff,
        ;
        let count: u64 = width as u64 * height as u64;
        let mut bytes: Vec<u8> = Vec::new();
        let mut i: u64 = 0;
        while i < count
            invariant
                i <= count,
                bytes@.len() == 4 * i,
                forall|k: int| 0 <= k < 4 * i ==> #[trigger] bytes@[k] == channel(color, k % 4),
            decreases count - i,
        {
            push_pixel(&mut bytes, color);
            i = i + 1;
        }
        let res = Raster { width, height, bytes };
        assert(res@ =~= picture_of(width as int, height as int, |x: int, y: int| color));
        res
    }

    /// The pixel in column `x` of row `y`.
    pub fn pixel(&self, x: u32, y: u32) -> (p: Rgba)
        requires
            self@.has(x as int, y as int),
        ensures
            p == self@.pixel(x as int, y as int),
    {
        let size: usize = self.bytes.len();
        proof {
            use_type_invariant(self);
            lemma_offset_in_range(self@.width, self@.height, x as int, y as int);
            assert(0 <= y * self.width) by (nonlinear_arith)
                requires
                    0 <= y,
                    0 <= self.width,
            ;
            assert(pixel_offset(self@.width, x as int, y as int) + 4 <= size);
        }
        let at: usize = 4 * (y as usize * self.width as usize + x as usize);
        (self.bytes[at], self.bytes[at + 1], self.bytes[at + 2], self.bytes[at + 3])
    }

    /// Copies a part of the raster: at most `width` columns and `height` rows, beginning at column
    /// `x` of row `y`. What lies outside the raster is cut off.
    pub fn crop(&self, x: u32, y: u32, width: u32, height: u32) -> (res: Raster)
        ensures
            res@ == cropped(self@, x as int, y as int, width as int, height as int),
    {
        proof {
            use_type_invariant(self);
        }
        let left: u32 = if x <= self.width { x } else { self.width };
        let top: u32 = if y <= self.height { y } else { self.height };
        let cols: u32 = if width <= self.width - left { width } else { self.width - left };
        let rows: u32 = if height <= self.height - top { height } else { self.height - top };
        let ghost goal = cropped(self@, x as int, y as int, width as int, height as int);
        let ghost f = |a: int, b: int| self@.pixel(left + a, top + b);
        proof {
            lemma_picture_of(cols as int, rows as int, f);
        }
        let mut bytes: Vec<u8> = Vec::new();
        let mut b: u32 = 0;
        while b < rows
            invariant
                b <= rows,
                cols <= self@.width - left,
                rows <= self@.height - top,
                bytes@.len() == 4 * (b * cols),
                forall|i: int, j: int|
                    0 <= i < cols && 0 <= j < b ==> #[trigger] pixel_of(bytes@, cols as int, i, j)
                        == self@.pixel(left + i, top + j),
            decreases rows - b,
        {
            let mut a: u32 = 0;
            assert(b * cols + 0 == b * cols);
            while a < cols
                invariant
                    a <= cols,
                    b < rows,
                    cols <= self@.width - left,
                    rows <= self@.height - top,
                    bytes@.len() == 4 * (b * cols + a),
                    forall|i: int, j: int|
                        0 <= i < cols && 0 <= j && (j < b || j == b && i < a)
                            ==> #[trigger] pixel_of(bytes@, cols as int, i, j) == self@.pixel(
                            left + i,
                            top + j,
                        ),
                decreases cols - a,
            {
                let p = self.pixel(left + a, top + b);
                let ghost before = bytes@;
                push_pixel(&mut bytes, p);
                proof {
                    assert(0 <= b * cols) by (nonlinear_arith)
                        requires
                            0 <= b,
                            0 <= cols,
                    ;
                    assert forall|i: int, j: int|
                        0 <= i < cols && 0 <= j && (j < b || j == b && i < a + 1) implies
                        #[trigger] pixel_of(bytes@, cols as int, i, j) == self@.pixel(
                        left + i,
                        top + j,
                    ) by {
                        if j < b || i < a {
                            assert(0 <= j * cols && (j < b ==> j * cols + cols <= b * cols))
                                by (nonlinear_arith)
                                requires
                                    0 <= j <= b,
                                    0 <= cols,
                            ;
                            lemma_pixel_of_prefix(
                                before,
                                seq![p.0, p.1, p.2, p.3],
                                cols as int,
                                i,
                                j,
                            );
                            assert(pixel_of(before, cols as int, i, j) == self@.pixel(
                                left + i,
                                top + j,
                            ));
                        }
                    }
                }
                a = a + 1;
            }
            assert((b + 1) * cols == b * cols + cols) by (nonlinear_arith);
            b = b + 1;
        }
        assert(rows * cols == cols * rows) by (nonlinear_arith);
        let res = Raster { width: cols, height: rows, bytes };
        proof {
            assert(goal == picture_of(cols as int, rows as int, f));
            assert forall|i: int, j: int| res@.has(i, j) implies res@.pixel(i, j)
                == #[trigger] goal.pixel(i, j) by {
                assert(pixel_of(bytes@, cols as int, i, j) == self@.pixel(left + i, top + j));
            }
            lemma_same_pixels(res@, goal);
        }
        res
    }

    /// The bytes of all pixels without their alpha, row by row.
    pub fn rgb_bytes(&self) -> (rgb: Vec<u8>)
        ensures
            rgb@ == without_alpha(self@.bytes),
            rgb@.len() == 3 * (self@.width * self@.height),
            self@.wf(),
    {
        proof {
            use_type_invariant(self);
        }
        let mut rgb: Vec<u8> = Vec::new();
        let size: usize = self.bytes.len();
        let count: usize = size / 4;
        let mut i: usize = 0;
        while i < count
            invariant
                i <= count,
                count == size / 4,
                size == self.bytes@.len(),
                rgb@.len() == 3 * i,
                forall|k: int|
                    0 <= k < 3 * i ==> #[trigger] rgb@[k] == self.bytes@[4 * (k / 3) + k % 3],
            decreases count - i,
        {
            rgb.push(self.bytes[4 * i]);
            rgb.push(self.bytes[4 * i + 1]);
            rgb.push(self.bytes[4 * i + 2]);
            i = i + 1;
        }
        assert(rgb@ =~= without_alpha(self@.bytes));
        rgb
    }

    /// The number of columns.
    pub fn width(&self) -> (width: u32)
        ensures
            width == self@.width,
            self@.wf(),
    {
        proof {
            use_type_invariant(self);
        }
        self.width
    }

    /// The number of rows.
    pub fn height(&self) -> (height: u32)
        ensures
            height == self@.height,
            self@.wf(),
    {
        proof {
            use_type_invariant(self);
        }
        self.height
    }

    /// The bytes of all pixels, row by row.
    pub fn bytes(&self) -> (bytes: &Vec<u8>)
        ensures
            bytes@ == self@.bytes,
            self@.wf(),
    {
        proof {
            use_type_invariant(self);
        }
        &self.bytes
    }

    /// Gives up the bytes of all pixels, row by row.
    pub fn into_bytes(self) -> (bytes: Vec<u8>)
        ensures
            bytes@ == self@.bytes,
            self@.wf(),
    {
        proof {
            use_type_invariant(&self);
        }
        self.bytes
    }
}

} // verus!
