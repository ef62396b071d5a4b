//! Plain RGBA pixel buffers.
use vstd::prelude::*;

verus! {

/// An image of `width` by `height` pixels, four bytes each in the order red,
/// green, blue, alpha, rows from the top, not premultiplied.
#[derive(Clone, Debug)]
pub struct RgbaImage {
    pub width: u32,
    pub height: u32,
    pub pixels: Vec<u8>,
}

impl RgbaImage {
    /// The buffer holds exactly four bytes for each pixel.
    pub open spec fn wf(&self) -> bool {
        self.pixels@.len() == 4 * self.width * self.height
    }

    /// Wraps a buffer, or refuses it when its length does not fit the
    /// dimensions.
    pub fn new(width: u32, height: u32, pixels: Vec<u8>) -> (r: Option<RgbaImage>)
        ensures
            pixels@.len() == 4 * width * height ==> r is Some && r->Some_0.width == width
                && r->Some_0.height == height && r->Some_0.pixels@ == pixels@,
            pixels@.len() != 4 * width * height ==> r is None,
            r matches Some(img) ==> img.wf(),
    {
        let len: usize = pixels.len();
        match sample_count(width, height, 4) {
            Some(want) => {
                if len == want {
                    Some(RgbaImage { width, height, pixels })
                } else {
                    None
                }
            },
            None => None,
        }
    }

    /// An image whose every pixel is `color`.
    pub fn solid(width: u32, height: u32, color: [u8; 4]) -> (r: RgbaImage)
        requires
            4 * width * height <= usize::MAX,
        ensures
            r.wf(),
            r.width == width,
            r.height == height,
            forall|k: int| 0 <= k < r.pixels@.len() ==> #[trigger] r.pixels@[k] == color[k % 4],
    {
        let total = sample_count(width, height, 4);
        assert(4 * width * height == 4 * (width * height)) by (nonlinear_arith);
        let count: usize = total.unwrap() / 4;
        let mut pixels: Vec<u8> = Vec::new();
        let mut n: usize = 0;
        while n < count
            invariant
                n <= count,
                4 * count <= usize::MAX,
                4 * count == 4 * width * height,
                pixels@.len() == 4 * n,
                forall|k: int| 0 <= k < pixels@.len() ==> #[trigger] pixels@[k] == color[k % 4],
            decreases count - n,
        {
            pixels.push(color[0]);
            pixels.push(color[1]);
            pixels.push(color[2]);
            pixels.push(color[3]);
            n = n + 1;
        }
        RgbaImage { width, height, pixels }
    }

    /// Index of the first byte of the pixel in column `x` of row `y`.
    pub open spec fn spec_index(&self, x: int, y: int) -> int {
        4 * (y * self.width + x)
    }

    /// The four channels of the pixel in column `x` of row `y`.
    pub fn pixel(&self, x: u32, y: u32) -> (r: [u8; 4])
        requires
            self.wf(),
            x < self.width,
            y < self.height,
        ensures
            forall|c: int| 0 <= c < 4 ==> #[trigger] r[c] == self.pixels@[self.spec_index(x as int, y as int) + c],
    {
        proof {
            lemma_pixel_in_bounds(self.width as int, self.height as int, x as int, y as int);
        }
        let len: usize = self.pixels.len();
        let base: usize = 4 * ((y as usize) * (self.width as usize) + (x as usize));
        [self.pixels[base], self.pixels[base + 1], self.pixels[base + 2], self.pixels[base + 3]]
    }
}

/// Number of samples of an image with `channels` samples for each pixel, or
/// `None` when that number does not fit the machine.
pub fn sample_count(width: u32, height: u32, channels: usize) -> (r: Option<usize>)
    requires
        1 <= channels <= 4,
    ensures
        channels * width * height <= usize::MAX ==> r == Some(
            (channels * width * height) as usize,
        ),
        channels * width * height > usize::MAX ==> r is None,
{
    assert(width * height <= 0xFFFF_FFFF * 0xFFFF_FFFF) by (nonlinear_arith)
        requires
            width <= 0xFFFF_FFFF,
            height <= 0xFFFF_FFFF,
    ;
    assert(channels * width * height == channels * (width * height)) by (nonlinear_arith);
    let wh: u64 = (width as u64) * (height as u64);
    let max: u64 = usize::MAX as u64;
    let c: u64 = channels as u64;
    if wh > max / c {
        assert(c * wh > max) by (nonlinear_arith)
            requires
                wh > max / c,
                1 <= c,
        ;
        None
    } else {
        assert(c * wh <= max) by (nonlinear_arith)
            requires
                wh <= max / c,
                1 <= c,
        ;
        Some((c * wh) as usize)
    }
}

/// The four bytes of a pixel inside the image lie inside the buffer.
pub proof fn lemma_pixel_in_bounds(w: int, h: int, x: int, y: int)
    requires
        0 <= x < w,
        0 <= y < h,
    ensures
        0 <= y * w + x < w * h,
        0 <= 4 * (y * w + x),
        4 * (y * w + x) + 4 <= 4 * (w * h),
        4 * w * h == 4 * (w * h),
{
    assert(y * w + x < w * h) by (nonlinear_arith)
        requires
            0 <= x < w,
            0 <= y < h,
    ;
    assert(0 <= y * w) by (nonlinear_arith)
        requires
            0 <= y,
            0 <= w,
    ;
    assert(4 * w * h == 4 * (w * h)) by (nonlinear_arith);
}

/// Pixels with red and blue exchanged: what turns BGRA samples into RGBA.
/// Bytes behind the last whole pixel stay as they are.
pub open spec fn spec_swap_red_blue(px: Seq<u8>) -> Seq<u8> {
    Seq::new(
        px.len(),
        |k: int|
            if k / 4 * 4 + 4 <= px.len() && k % 4 == 0 {
                px[k + 2]
            } else if k / 4 * 4 + 4 <= px.len() && k % 4 == 2 {
                px[k - 2]
            } else {
                px[k]
            },
    )
}

/// Exchanges red and blue in every pixel of a buffer.
pub fn swap_red_blue(pixels: &mut Vec<u8>)
    ensures
        final(pixels)@ == spec_swap_red_blue(old(pixels)@),
{
    let len: usize = pixels.len();
    let count: usize = len / 4;
    let mut n: usize = 0;
    while n < count
        invariant
            n <= count,
            count == len / 4,
            len == old(pixels)@.len(),
            pixels@.len() == len,
            forall|k: int|
                0 <= k < 4 * n ==> #[trigger] pixels@[k] == spec_swap_red_blue(old(pixels)@)[k],
            forall|k: int| 4 * n <= k < len ==> #[trigger] pixels@[k] == old(pixels)@[k],
        decreases count - n,
    {
        let r: u8 = pixels[4 * n];
        let b: u8 = pixels[4 * n + 2];
        pixels[4 * n] = b;
        pixels[4 * n + 2] = r;
        n = n + 1;
    }
    assert(pixels@ =~= spec_swap_red_blue(old(pixels)@));
}

} // verus!
