//! The chain of reduced levels below an image: each level is the box-filtered
//! half of the one before.
use crate::mip::{half, spec_half, spec_mip_axis};
use crate::rgba::{lemma_pixel_in_bounds, RgbaImage};
use vstd::prelude::*;

verus! {

/// Channel `c` of the pixel in column `x` of row `y` of an image `w` wide.
pub open spec fn spec_sample(px: Seq<u8>, w: int, x: int, y: int, c: int) -> int {
    px[4 * (y * w + x) + c] as int
}

/// First source column or row that falls on destination index `i` when an
/// axis of length `len` is halved.
pub open spec fn spec_near(len: u32, i: int) -> int {
    if len > 1 {
        2 * i
    } else {
        0
    }
}

/// Second source column or row that falls on destination index `i`; the same
/// as the first where the axis has a single one.
pub open spec fn spec_far(len: u32, i: int) -> int {
    if len > 1 {
        2 * i + 1
    } else {
        0
    }
}

/// Channel `c` of destination pixel `(x, y)`: the mean, rounded half up, of
/// the source samples under it. Along an axis that is already 1 the single
/// sample counts twice, so that the divisor is always four.
pub open spec fn spec_box_value(src: Seq<u8>, sw: u32, sh: u32, x: int, y: int, c: int) -> u8 {
    ((spec_sample(src, sw as int, spec_near(sw, x), spec_near(sh, y), c) + spec_sample(
        src,
        sw as int,
        spec_far(sw, x),
        spec_near(sh, y),
        c,
    ) + spec_sample(src, sw as int, spec_near(sw, x), spec_far(sh, y), c) + spec_sample(
        src,
        sw as int,
        spec_far(sw, x),
        spec_far(sh, y),
        c,
    ) + 2) / 4) as u8
}

/// The pixels of the half-size image below `src`.
pub open spec fn spec_downsample(src: Seq<u8>, sw: u32, sh: u32) -> Seq<u8> {
    Seq::new(
        (4 * (spec_half(sw) * spec_half(sh))) as nat,
        |k: int|
            spec_box_value(src, sw, sh, (k / 4) % (spec_half(sw) as int), (k / 4) / (spec_half(
                sw,
            ) as int), k % 4),
    )
}

/// The pixels of level `level` below an image of `w` by `h`.
pub open spec fn spec_level_pixels(px: Seq<u8>, w: u32, h: u32, level: nat) -> Seq<u8>
    decreases level,
{
    if level == 0 {
        px
    } else {
        spec_downsample(
            spec_level_pixels(px, w, h, (level - 1) as nat),
            spec_mip_axis(w, (level - 1) as nat),
            spec_mip_axis(h, (level - 1) as nat),
        )
    }
}

/// A pixel index below `w * h` splits into a column below `w` and a row
/// below `h`.
pub proof fn lemma_split_index(n: int, w: int, h: int)
    requires
        0 <= n < w * h,
        w > 0,
    ensures
        0 <= n % w < w,
        0 <= n / w < h,
{
    assert(0 <= n % w < w) by (nonlinear_arith)
        requires
            w > 0,
    ;
    assert(0 <= n / w < h) by (nonlinear_arith)
        requires
            0 <= n < w * h,
            w > 0,
    ;
}

/// Reads channel `c` of pixel `(x, y)`.
fn sample(img: &RgbaImage, x: u32, y: u32, c: usize) -> (r: u8)
    requires
        img.wf(),
        x < img.width,
        y < img.height,
        c < 4,
    ensures
        r as int == spec_sample(img.pixels@, img.width as int, x as int, y as int, c as int),
{
    proof {
        lemma_pixel_in_bounds(img.width as int, img.height as int, x as int, y as int);
    }
    let len: usize = img.pixels.len();
    img.pixels[4 * ((y as usize) * (img.width as usize) + (x as usize)) + c]
}

/// Halves an image along both axes with a box filter. An axis of length 1
/// stays as it is; an odd axis above 1 loses its last row or column.
pub fn downsample(img: &RgbaImage) -> (out: RgbaImage)
    requires
        img.wf(),
        img.width >= 1,
        img.height >= 1,
    ensures
        out.wf(),
        out.width == spec_half(img.width),
        out.height == spec_half(img.height),
        out.pixels@ == spec_downsample(img.pixels@, img.width, img.height),
{
    let sw: u32 = img.width;
    let sh: u32 = img.height;
    let dw: u32 = half(sw);
    let dh: u32 = half(sh);
    let src_len: usize = img.pixels.len();
    proof {
        assert(dw * dh <= sw * sh) by (nonlinear_arith)
            requires
                1 <= dw <= sw,
                1 <= dh <= sh,
        ;
        assert(4 * sw * sh == 4 * (sw * sh)) by (nonlinear_arith);
        assert(4 * dw * dh == 4 * (dw * dh)) by (nonlinear_arith);
    }
    let count: usize = (dw as usize) * (dh as usize);
    let mut pixels: Vec<u8> = Vec::new();
    let mut n: usize = 0;
    while n < count
        invariant
            n <= count,
            count == dw * dh,
            4 * count <= usize::MAX,
            img.wf(),
            sw == img.width,
            sh == img.height,
            dw == spec_half(sw),
            dh == spec_half(sh),
            sw >= 1,
            sh >= 1,
            pixels@.len() == 4 * n,
            forall|k: int|
                0 <= k < 4 * n ==> #[trigger] pixels@[k] == spec_downsample(
                    img.pixels@,
                    sw,
                    sh,
                )[k],
        decreases count - n,
    {
        proof {
            lemma_split_index(n as int, dw as int, dh as int);
        }
        let x: u32 = (n % (dw as usize)) as u32;
        let y: u32 = (n / (dw as usize)) as u32;
        let x0: u32 = if sw > 1 { 2 * x } else { 0 };
        let x1: u32 = if sw > 1 { 2 * x + 1 } else { 0 };
        let y0: u32 = if sh > 1 { 2 * y } else { 0 };
        let y1: u32 = if sh > 1 { 2 * y + 1 } else { 0 };
        let mut c: usize = 0;
        while c < 4
            invariant
                c <= 4,
                n < count,
                count == dw * dh,
                4 * count <= usize::MAX,
                img.wf(),
                sw == img.width,
                sh == img.height,
                dw == spec_half(sw),
                dh == spec_half(sh),
                x == n % (dw as usize),
                y == n / (dw as usize),
                x < dw,
                y < dh,
                x0 == spec_near(sw, x as int),
                x1 == spec_far(sw, x as int),
                y0 == spec_near(sh, y as int),
                y1 == spec_far(sh, y as int),
                x1 < sw,
                y1 < sh,
                x0 < sw,
                y0 < sh,
                pixels@.len() == 4 * n + c,
                forall|k: int|
                    0 <= k < 4 * n + c ==> #[trigger] pixels@[k] == spec_downsample(
                        img.pixels@,
                        sw,
                        sh,
                    )[k],
            decreases 4 - c,
        {
            let sum: u32 = sample(img, x0, y0, c) as u32 + sample(img, x1, y0, c) as u32 + sample(
                img,
                x0,
                y1,
                c,
            ) as u32 + sample(img, x1, y1, c) as u32;
            let v: u8 = ((sum + 2) / 4) as u8;
            pixels.push(v);
            proof {
                let k = 4 * n + c;
                assert(k / 4 == n);
                assert(k % 4 == c);
                assert(v == spec_box_value(img.pixels@, sw, sh, x as int, y as int, c as int));
            }
            c = c + 1;
        }
        n = n + 1;
    }
    assert(pixels@ =~= spec_downsample(img.pixels@, sw, sh));
    RgbaImage { width: dw, height: dh, pixels }
}

/// The samples of an image without their alpha channel.
pub open spec fn spec_rgb(px: Seq<u8>) -> Seq<u8> {
    Seq::new((3 * (px.len() / 4)) as nat, |k: int| px[4 * (k / 3) + k % 3])
}

/// Drops the alpha channel of every pixel.
pub fn to_rgb(img: &RgbaImage) -> (out: Vec<u8>)
    requires
        img.wf(),
    ensures
        out@ == spec_rgb(img.pixels@),
        out@.len() == 3 * img.width * img.height,
{
    let len: usize = img.pixels.len();
    let count: usize = len / 4;
    proof {
        assert(4 * img.width * img.height == 4 * (img.width * img.height)) by (nonlinear_arith);
        assert(3 * img.width * img.height == 3 * (img.width * img.height)) by (nonlinear_arith);
    }
    let mut out: Vec<u8> = Vec::new();
    let mut n: usize = 0;
    while n < count
        invariant
            n <= count,
            count == len / 4,
            len == img.pixels@.len(),
            out@.len() == 3 * n,
            forall|k: int| 0 <= k < 3 * n ==> #[trigger] out@[k] == spec_rgb(img.pixels@)[k],
        decreases count - n,
    {
        out.push(img.pixels[4 * n]);
        out.push(img.pixels[4 * n + 1]);
        out.push(img.pixels[4 * n + 2]);
        proof {
            assert((3 * n) / 3 == n && (3 * n) % 3 == 0);
            assert((3 * n + 1) / 3 == n && (3 * n + 1) % 3 == 1);
            assert((3 * n + 2) / 3 == n && (3 * n + 2) % 3 == 2);
        }
        n = n + 1;
    }
    assert(out@ =~= spec_rgb(img.pixels@));
    out
}

} // verus!
