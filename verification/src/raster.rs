//! RGBA rasters with eight bits per channel, stored row by row.
//!
//! A raster of width `w` and height `h` holds `4 * w * h` samples. The pixel
//! at column `x` and row `y` owns the four samples that start at
//! `4 * (y * w + x)`, in the order red, green, blue, alpha.

use vstd::prelude::*;

verus! {

/// Samples per pixel.
pub const CHANNELS: usize = 4;

/// A pixel: red, green, blue, alpha.
pub type Pixel = [u8; 4];

/// Position of channel `c` of pixel `(x, y)` among the samples of a raster
/// that is `width` pixels wide.
pub open spec fn sample_index(width: nat, x: int, y: int, c: int) -> int {
    4 * (y * width + x) + c
}

/// The mathematical value of a [`Raster`].
pub struct RasterView {
    pub width: nat,
    pub height: nat,
    pub samples: Seq<u8>,
}

impl RasterView {
    /// The samples cover the whole grid and nothing more.
    pub open spec fn wf(self) -> bool {
        self.samples.len() == 4 * (self.width * self.height)
    }

    /// `(x, y)` names a pixel of this raster.
    pub open spec fn contains(self, x: int, y: int) -> bool {
        0 <= x < self.width && 0 <= y < self.height
    }

    /// Channel `c` of the pixel at `(x, y)`.
    pub open spec fn channel(self, x: int, y: int, c: int) -> u8 {
        self.samples[sample_index(self.width, x, y, c)]
    }

    /// The rectangle of `width` by `height` pixels whose top-left corner is
    /// `(x, y)` holds the pixel `(px, py)`.
    pub open spec fn in_rect(x: int, y: int, width: int, height: int, px: int, py: int) -> bool {
        x <= px < x + width && y <= py < y + height
    }

    /// Every pixel of the rectangle has alpha zero.
    pub open spec fn rect_transparent(self, x: int, y: int, width: int, height: int) -> bool {
        forall|px: int, py: int|
            Self::in_rect(x, y, width, height, px, py) ==> #[trigger] self.channel(px, py, 3) == 0
    }
}

/// An owned RGBA raster.
#[derive(Debug, Clone)]
pub struct Raster {
    width: u32,
    height: u32,
    data: Vec<u8>,
}

impl View for Raster {
    type V = RasterView;

    closed spec fn view(&self) -> RasterView {
        RasterView { width: self.width as nat, height: self.height as nat, samples: self.data@ }
    }
}

/// Why a raster operation was refused.
#[derive(Debug, Clone, Copy, PartialEq, Eq, Structural)]
pub enum RasterError {
    /// The source does not fit into the target at the requested position.
    DimensionMismatch,
}

/// A sample position inside the grid lies inside the sample sequence.
pub proof fn lemma_sample_index_in_range(width: nat, height: nat, x: int, y: int, c: int)
    requires
        0 <= x < width,
        0 <= y < height,
        0 <= c < 4,
    ensures
        0 <= y * width + x < width * height,
        0 <= sample_index(width, x, y, c) < 4 * (width * height),
{
    assert(0 <= y * width && y * width + width <= width * height) by (nonlinear_arith)
        requires
            0 <= y < height,
            0 <= width,
    ;
}

/// Distinct channels of distinct pixels never share a sample.
pub proof fn lemma_sample_index_injective(
    width: nat,
    x1: int,
    y1: int,
    c1: int,
    x2: int,
    y2: int,
    c2: int,
)
    requires
        0 <= x1 < width,
        0 <= x2 < width,
        0 <= y1,
        0 <= y2,
        0 <= c1 < 4,
        0 <= c2 < 4,
        sample_index(width, x1, y1, c1) == sample_index(width, x2, y2, c2),
    ensures
        x1 == x2,
        y1 == y2,
        c1 == c2,
{
    assert(y1 * width + x1 == y2 * width + x2);
    if y1 < y2 {
        assert(y2 * width >= y1 * width + width) by (nonlinear_arith)
            requires
                y1 < y2,
                0 <= width,
        ;
    }
    if y2 < y1 {
        assert(y1 * width >= y2 * width + width) by (nonlinear_arith)
            requires
                y2 < y1,
                0 <= width,
        ;
    }
}

/// Every sample belongs to exactly one channel of one pixel of the grid.
pub proof fn lemma_sample_owner(width: nat, height: nat, index: int)
    requires
        0 <= index < 4 * (width * height),
    ensures
        0 <= (index / 4) % (width as int) < width,
        0 <= (index / 4) / (width as int) < height,
        sample_index(width, (index / 4) % (width as int), (index / 4) / (width as int), index % 4)
            == index,
{
    let p = index / 4;
    let w = width as int;
    assert(width > 0) by (nonlinear_arith)
        requires
            0 <= index < 4 * (width * height),
    ;
    assert(0 <= p < width * height);
    assert(p == (p / w) * w + p % w && 0 <= p % w < w) by (nonlinear_arith)
        requires
            w > 0,
    ;
    assert(0 <= p / w < height) by (nonlinear_arith)
        requires
            w > 0,
            0 <= p < w * height,
            p == (p / w) * w + p % w,
            0 <= p % w < w,
    ;
}

/// Two well-formed rasters of one size that agree on every channel of every
/// pixel are the same raster.
pub proof fn lemma_raster_ext(a: RasterView, b: RasterView)
    requires
        a.wf(),
        b.wf(),
        a.width == b.width,
        a.height == b.height,
        forall|x: int, y: int, c: int|
            a.contains(x, y) && 0 <= c < 4 ==> #[trigger] a.channel(x, y, c) == b.channel(x, y, c),
    ensures
        a == b,
{
    assert forall|i: int| 0 <= i < a.samples.len() implies a.samples[i] == b.samples[i] by {
        lemma_sample_owner(a.width, a.height, i);
        let x = (i / 4) % (a.width as int);
        let y = (i / 4) / (a.width as int);
        assert(a.channel(x, y, i % 4) == b.channel(x, y, i % 4));
    }
    assert(a.samples =~= b.samples);
}

impl Raster {
    /// Well-formedness: the buffer matches the dimensions.
    pub open spec fn wf(&self) -> bool {
        self@.wf()
    }

    /// A raster of the given size with every sample zero, that is, fully
    /// transparent black. The samples must fit in a vector.
    pub fn new(width: u32, height: u32) -> (raster: Raster)
        requires
            4 * (width * height) <= isize::MAX,
        ensures
            raster.wf(),
            raster@.width == width,
            raster@.height == height,
            forall|i: int| 0 <= i < raster@.samples.len() ==> raster@.samples[i] == 0,
    {
        assert(0 <= width * height <= isize::MAX) by (nonlinear_arith)
            requires
                4 * (width * height) <= isize::MAX,
                0 <= width,
                0 <= height,
        ;
        let pixels: usize = width as usize * height as usize;
        let data: Vec<u8> = vec![0u8; pixels * CHANNELS];
        Raster { width, height, data }
    }

    /// Takes over a sample buffer. The buffer must hold exactly the samples
    /// of a `width` by `height` grid; any other length is refused.
    pub fn from_raw(width: u32, height: u32, data: Vec<u8>) -> (raster: Option<Raster>)
        ensures
            raster is Some <==> data@.len() == 4 * (width * height),
            raster matches Some(r) ==> r.wf() && r@ == (RasterView {
                width: width as nat,
                height: height as nat,
                samples: data@,
            }),
    {
        assert(0 <= width * height <= 0xffff_ffff * 0xffff_ffff) by (nonlinear_arith)
            requires
                0 <= width <= 0xffff_ffff,
                0 <= height <= 0xffff_ffff,
        ;
        let needed: u128 = 4u128 * (width as u128 * height as u128);
        if data.len() as u128 == needed {
            Some(Raster { width, height, data })
        } else {
            None
        }
    }

    /// Width in pixels.
    pub fn width(&self) -> (w: u32)
        ensures
            w == self@.width,
    {
        self.width
    }

    /// Height in pixels.
    pub fn height(&self) -> (h: u32)
        ensures
            h == self@.height,
    {
        self.height
    }

    /// The samples, row by row.
    pub fn as_raw(&self) -> (samples: &Vec<u8>)
        ensures
            samples@ == self@.samples,
    {
        &self.data
    }

    /// Gives up the raster for its samples.
    pub fn into_raw(self) -> (samples: Vec<u8>)
        ensures
            samples@ == self@.samples,
    {
        self.data
    }

    /// Start of the samples of pixel `(x, y)`.
    fn pixel_start(&self, x: u32, y: u32) -> (start: usize)
        requires
            self.wf(),
            self@.contains(x as int, y as int),
        ensures
            start == sample_index(self@.width, x as int, y as int, 0),
            start + 4 <= self@.samples.len(),
    {
        proof {
            lemma_sample_index_in_range(self@.width, self@.height, x as int, y as int, 3);
            assert(0 <= y * self.width) by (nonlinear_arith)
                requires
                    0 <= y,
                    0 <= self.width,
            ;
            assert(self.data@.len() == self.data.len());
        }
        (y as usize * self.width as usize + x as usize) * CHANNELS
    }

    /// Reads the pixel at `(x, y)`.
    pub fn get_pixel(&self, x: u32, y: u32) -> (pixel: Pixel)
        requires
            self.wf(),
            self@.contains(x as int, y as int),
        ensures
            forall|c: int| 0 <= c < 4 ==> pixel@[c] == self@.channel(x as int, y as int, c),
    {
        let start = self.pixel_start(x, y);
        [self.data[start], self.data[start + 1], self.data[start + 2], self.data[start + 3]]
    }

    /// Overwrites the pixel at `(x, y)` and nothing else.
    pub fn put_pixel(&mut self, x: u32, y: u32, pixel: Pixel)
        requires
            old(self).wf(),
            old(self)@.contains(x as int, y as int),
        ensures
            final(self).wf(),
            final(self)@.width == old(self)@.width,
            final(self)@.height == old(self)@.height,
            forall|px: int, py: int, c: int|
                old(self)@.contains(px, py) && 0 <= c < 4 ==> #[trigger] final(self)@.channel(
                    px,
                    py,
                    c,
                ) == if px == x && py == y {
                    pixel@[c]
                } else {
                    old(self)@.channel(px, py, c)
                },
    {
        let start = self.pixel_start(x, y);
        let ghost before = self@;
        self.data.set(start, pixel[0]);
        self.data.set(start + 1, pixel[1]);
        self.data.set(start + 2, pixel[2]);
        self.data.set(start + 3, pixel[3]);
        proof {
            let after = self@;
            assert forall|px: int, py: int, c: int|
                before.contains(px, py) && 0 <= c < 4 implies #[trigger] after.channel(px, py, c)
                == if px == x && py == y {
                pixel@[c]
            } else {
                before.channel(px, py, c)
            } by {
                lemma_sample_index_in_range(before.width, before.height, px, py, c);
                if !(px == x && py == y) {
                    let i = sample_index(before.width, px, py, c);
                    if start <= i < start + 4 {
                        lemma_sample_index_injective(
                            before.width,
                            px,
                            py,
                            c,
                            x as int,
                            y as int,
                            i - start,
                        );
                    }
                }
            }
        }
    }

    /// Copies all of `other` into this raster, with the top-left corner of
    /// `other` placed at `(x, y)`. When `other` would reach beyond the right
    /// or the bottom edge nothing is copied and the mismatch is reported.
    pub fn copy_from(&mut self, other: &Raster, x: u32, y: u32) -> (done: Result<(), RasterError>)
        requires
            old(self).wf(),
            other.wf(),
        ensures
            final(self).wf(),
            final(self)@.width == old(self)@.width,
            final(self)@.height == old(self)@.height,
            done is Ok <==> x + other@.width <= old(self)@.width && y + other@.height <= old(
                self,
            )@.height,
            done is Err ==> final(self)@ == old(self)@,
            done is Ok ==> forall|px: int, py: int, c: int|
                old(self)@.contains(px, py) && 0 <= c < 4 ==> #[trigger] final(self)@.channel(
                    px,
                    py,
                    c,
                ) == if RasterView::in_rect(
                    x as int,
                    y as int,
                    other@.width as int,
                    other@.height as int,
                    px,
                    py,
                ) {
                    other@.channel(px - x, py - y, c)
                } else {
                    old(self)@.channel(px, py, c)
                },
    {
        if (self.width as u64) < other.width as u64 + x as u64 || (self.height as u64)
            < other.height as u64 + y as u64 {
            return Err(RasterError::DimensionMismatch);
        }
        let ghost before = self@;
        let mut row: u32 = 0;
        while row < other.height
            invariant
                self.wf(),
                other.wf(),
                self@.width == before.width,
                self@.height == before.height,
                x + other@.width <= before.width,
                y + other@.height <= before.height,
                row <= other@.height,
                forall|px: int, py: int, c: int|
                    before.contains(px, py) && 0 <= c < 4 ==> #[trigger] self@.channel(px, py, c)
                        == if RasterView::in_rect(
                        x as int,
                        y as int,
                        other@.width as int,
                        row as int,
                        px,
                        py,
                    ) {
                        other@.channel(px - x, py - y, c)
                    } else {
                        before.channel(px, py, c)
                    },
            decreases other@.height - row,
        {
            let mut col: u32 = 0;
            while col < other.width
                invariant
                    self.wf(),
                    other.wf(),
                    self@.width == before.width,
                    self@.height == before.height,
                    x + other@.width <= before.width,
                    y + other@.height <= before.height,
                    row < other@.height,
                    col <= other@.width,
                    forall|px: int, py: int, c: int|
                        before.contains(px, py) && 0 <= c < 4 ==> #[trigger] self@.channel(
                            px,
                            py,
                            c,
                        ) == if RasterView::in_rect(
                            x as int,
                            y as int,
                            other@.width as int,
                            row as int,
                            px,
                            py,
                        ) || (py == y + row && x <= px < x + col) {
                            other@.channel(px - x, py - y, c)
                        } else {
                            before.channel(px, py, c)
                        },
                decreases other@.width - col,
            {
                let pixel = other.get_pixel(col, row);
                self.put_pixel(col + x, row + y, pixel);
                col += 1;
            }
            row += 1;
        }
        Ok(())
    }
}

/// Makes the rectangle of `width` by `height` pixels at `(x, y)` fully
/// transparent: every channel of every pixel in it becomes zero. Pixels
/// outside the rectangle keep their value. An empty rectangle changes
/// nothing, wherever its corner lies; any other must lie inside the raster.
pub fn fill_transparent(image: &mut Raster, x: u32, y: u32, width: u32, height: u32)
    requires
        old(image).wf(),
        width > 0 && height > 0 ==> x + width <= old(image)@.width && y + height <= old(
            image,
        )@.height,
    ensures
        final(image).wf(),
        final(image)@.width == old(image)@.width,
        final(image)@.height == old(image)@.height,
        width == 0 || height == 0 ==> final(image)@ == old(image)@,
        forall|px: int, py: int, c: int|
            old(image)@.contains(px, py) && 0 <= c < 4 ==> #[trigger] final(image)@.channel(
                px,
                py,
                c,
            ) == if RasterView::in_rect(x as int, y as int, width as int, height as int, px, py) {
                0u8
            } else {
                old(image)@.channel(px, py, c)
            },
{
    let ghost before = image@;
    let mut i: u32 = 0;
    while i < width
        invariant
            image.wf(),
            image@.width == before.width,
            image@.height == before.height,
            i == 0 || height == 0 ==> image@ == before,
            width > 0 && height > 0 ==> x + width <= before.width && y + height <= before.height,
            i <= width,
            forall|px: int, py: int, c: int|
                before.contains(px, py) && 0 <= c < 4 ==> #[trigger] image@.channel(px, py, c)
                    == if RasterView::in_rect(
                    x as int,
                    y as int,
                    i as int,
                    height as int,
                    px,
                    py,
                ) {
                    0u8
                } else {
                    before.channel(px, py, c)
                },
        decreases width - i,
    {
        let mut j: u32 = 0;
        while j < height
            invariant
                image.wf(),
                image@.width == before.width,
                image@.height == before.height,
                height == 0 ==> image@ == before,
                width > 0 && height > 0 ==> x + width <= before.width && y + height
                    <= before.height,
                i < width,
                j <= height,
                forall|px: int, py: int, c: int|
                    before.contains(px, py) && 0 <= c < 4 ==> #[trigger] image@.channel(px, py, c)
                        == if RasterView::in_rect(
                        x as int,
                        y as int,
                        i as int,
                        height as int,
                        px,
                        py,
                    ) || (px == x + i && y <= py < y + j) {
                        0u8
                    } else {
                        before.channel(px, py, c)
                    },
            decreases height - j,
        {
            image.put_pixel(x + i, y + j, [0, 0, 0, 0]);
            j += 1;
        }
        i += 1;
    }
}

} // verus!
