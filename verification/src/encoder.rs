//! Writing a container: the reduced levels of an image are encoded one by
//! one, the marker prefix that they share is stored once, and the scan bodies
//! follow it without gaps.
use crate::assemble::append_bytes;
use crate::codec::{jpeg_encode_rgb, spec_jpeg_encoding};
use crate::cursor::spec_u32_be_bytes;
use crate::downsample::{downsample, spec_level_pixels, spec_rgb, to_rgb};
use crate::error::{BlpError, ScanError};
use crate::header::{spec_words_le, Blp1Header, BLP1_MAGIC, JPEG_HEADER_OFFSET};
use crate::mip::{exact_level_count, mip_dims, spec_exact_level_count, spec_mip_axis, MAX_MIPS};
use crate::rgba::RgbaImage;
use crate::scan::{parse_jpeg_header_info, spec_scan, JpegHeaderInfo};
use vstd::prelude::*;

verus! {

/// Whether position `k` holds one of the four bytes of height and width in
/// the frame header that `info` records.
pub open spec fn spec_is_dim_byte(info: JpegHeaderInfo, k: int) -> bool {
    k == info.sof_h_offset || k == info.sof_h_offset + 1 || k == info.sof_w_offset || k
        == info.sof_w_offset + 1
}

/// Two marker prefixes are equal but for the bytes of height and width.
/// Where one of them has no frame header, they must be equal throughout.
pub open spec fn spec_header_eq_except_hw(
    a: Seq<u8>,
    b: Seq<u8>,
    hi: JpegHeaderInfo,
    hj: JpegHeaderInfo,
) -> bool {
    &&& a.len() == b.len()
    &&& forall|k: int|
        0 <= k < a.len() ==> (hi.sof_marker != 0 && hj.sof_marker != 0 && spec_is_dim_byte(hi, k))
            || #[trigger] a[k] == b[k]
}

/// Compares two marker prefixes, passing over the bytes of height and width
/// in the frame header that `hi` records.
pub fn header_eq_except_hw(a: &[u8], b: &[u8], hi: &JpegHeaderInfo, hj: &JpegHeaderInfo) -> (r:
    bool)
    ensures
        r == spec_header_eq_except_hw(a@, b@, *hi, *hj),
{
    if a.len() != b.len() {
        return false;
    }
    let skip: bool = hi.sof_marker != 0 && hj.sof_marker != 0;
    let mut k: usize = 0;
    while k < a.len()
        invariant
            k <= a@.len(),
            a@.len() == b@.len(),
            skip == (hi.sof_marker != 0 && hj.sof_marker != 0),
            forall|j: int|
                0 <= j < k ==> (skip && spec_is_dim_byte(*hi, j)) || #[trigger] a@[j] == b@[j],
        decreases a@.len() - k,
    {
        let is_dim: bool = skip && (k == hi.sof_h_offset || (k >= 1 && k - 1
            == hi.sof_h_offset) || k == hi.sof_w_offset || (k >= 1 && k - 1 == hi.sof_w_offset));
        assert(is_dim == (skip && spec_is_dim_byte(*hi, k as int)));
        if !is_dim && a[k] != b[k] {
            assert(!((skip && spec_is_dim_byte(*hi, k as int)) || a@[k as int] == b@[k as int]));
            return false;
        }
        k = k + 1;
    }
    true
}

/// What is wrong with the JPEG of one level, if anything: its marker stream
/// cannot be walked or ends with its scan header; its marker prefix is not
/// the shared one; its frame header is missing or declares other dimensions
/// than `w` by `h`.
pub open spec fn spec_level_problem(
    jpeg: Seq<u8>,
    w: u32,
    h: u32,
    shared: Seq<u8>,
    base: JpegHeaderInfo,
) -> Option<BlpError> {
    match spec_scan(jpeg) {
        Err(e) => Some(BlpError::JpegParse(e)),
        Ok(info) => {
            if info.header_end >= jpeg.len() {
                Some(BlpError::JpegParse(ScanError::Truncated))
            } else if !spec_header_eq_except_hw(
                jpeg.subrange(0, info.header_end as int),
                shared,
                base,
                info,
            ) {
                Some(BlpError::SharedHeaderMismatch)
            } else if info.sof_marker == 0 || info.sof_w != w || info.sof_h != h {
                Some(BlpError::MipDimsMismatch)
            } else {
                None
            }
        },
    }
}

/// Checks the JPEG of one level against the shared marker prefix and the
/// dimensions of the level.
pub fn level_problem(jpeg: &[u8], w: u32, h: u32, shared: &[u8], base: &JpegHeaderInfo) -> (r:
    Option<BlpError>)
    ensures
        r == spec_level_problem(jpeg@, w, h, shared@, *base),
{
    let info = match parse_jpeg_header_info(jpeg) {
        Ok(info) => info,
        Err(e) => { return Some(BlpError::JpegParse(e)); },
    };
    if info.header_end >= jpeg.len() {
        return Some(BlpError::JpegParse(ScanError::Truncated));
    }
    let prefix = vstd::slice::slice_subrange(jpeg, 0, info.header_end);
    if !header_eq_except_hw(prefix, shared, base, &info) {
        return Some(BlpError::SharedHeaderMismatch);
    }
    if info.sof_marker == 0 || info.sof_w as u32 != w || info.sof_h as u32 != h {
        return Some(BlpError::MipDimsMismatch);
    }
    None
}

/// The encoded levels as plain byte sequences.
pub open spec fn spec_levels_view(levels: Seq<Option<Vec<u8>>>) -> Seq<Option<Seq<u8>>> {
    Seq::new(
        levels.len(),
        |i: int|
            match levels[i] {
                Some(v) => Some(v@),
                None => None,
            },
    )
}

/// First slot at or after `k` that holds an encoded level, or the number of
/// slots when there is none.
pub open spec fn spec_first_level(jpegs: Seq<Option<Seq<u8>>>, k: int) -> int
    decreases jpegs.len() - k,
{
    if k < 0 || k >= jpegs.len() {
        jpegs.len() as int
    } else if jpegs[k] is Some {
        k
    } else {
        spec_first_level(jpegs, k + 1)
    }
}

/// The problem of the first level at or after `k` that has one.
pub open spec fn spec_first_problem(
    jpegs: Seq<Option<Seq<u8>>>,
    w: u32,
    h: u32,
    shared: Seq<u8>,
    base: JpegHeaderInfo,
    k: int,
) -> Option<BlpError>
    decreases jpegs.len() - k,
{
    if k < 0 || k >= jpegs.len() {
        None
    } else {
        match jpegs[k] {
            None => spec_first_problem(jpegs, w, h, shared, base, k + 1),
            Some(j) => match spec_level_problem(
                j,
                spec_mip_axis(w, k as nat),
                spec_mip_axis(h, k as nat),
                shared,
                base,
            ) {
                Some(e) => Some(e),
                None => spec_first_problem(jpegs, w, h, shared, base, k + 1),
            },
        }
    }
}

/// The scan body of a level: what follows the marker prefix of `cut` bytes.
pub open spec fn spec_body(jpeg: Option<Seq<u8>>, cut: int) -> Seq<u8> {
    match jpeg {
        Some(j) => j.subrange(cut, j.len() as int),
        None => Seq::empty(),
    }
}

/// The scan bodies of the first `k` slots, one behind the other.
pub open spec fn spec_bodies(jpegs: Seq<Option<Seq<u8>>>, cut: int, k: int) -> Seq<u8>
    decreases k,
{
    if k <= 0 {
        Seq::empty()
    } else {
        spec_bodies(jpegs, cut, k - 1) + spec_body(jpegs[k - 1], cut)
    }
}

/// Number of slots among the first `k` that hold an encoded level.
pub open spec fn spec_level_total(jpegs: Seq<Option<Seq<u8>>>, k: int) -> int
    decreases k,
{
    if k <= 0 {
        0
    } else {
        spec_level_total(jpegs, k - 1) + if jpegs[k - 1] is Some {
            1int
        } else {
            0int
        }
    }
}

/// Offset that the table declares for slot `i`: the scan bodies follow the
/// shared header in slot order without gaps; an empty slot declares 0.
pub open spec fn spec_placed_offset(jpegs: Seq<Option<Seq<u8>>>, cut: int, i: int) -> u32 {
    if jpegs[i] is Some {
        (JPEG_HEADER_OFFSET + cut + spec_bodies(jpegs, cut, i).len()) as u32
    } else {
        0
    }
}

/// Size that the table declares for slot `i`.
pub open spec fn spec_placed_size(jpegs: Seq<Option<Seq<u8>>>, cut: int, i: int) -> u32 {
    spec_body(jpegs[i], cut).len() as u32
}

/// The words of the header of a packed container: JPEG content, no alpha,
/// the mip flag set when more than one level is stored.
pub open spec fn spec_pack_words(w: u32, h: u32, jpegs: Seq<Option<Seq<u8>>>, cut: int) -> Seq<
    u32,
> {
    seq![
        0u32,
        0u32,
        w,
        h,
        0u32,
        if spec_level_total(jpegs, MAX_MIPS as int) > 1 {
            1u32
        } else {
            0u32
        },
    ] + Seq::new(MAX_MIPS as nat, |i: int| spec_placed_offset(jpegs, cut, i)) + Seq::new(
        MAX_MIPS as nat,
        |i: int| spec_placed_size(jpegs, cut, i),
    ) + seq![cut as u32]
}

/// The container that holds the given encoded levels of a `w` by `h` image,
/// or the reason why they cannot be packed.
pub open spec fn spec_pack(w: u32, h: u32, jpegs: Seq<Option<Seq<u8>>>) -> Result<
    Seq<u8>,
    BlpError,
> {
    let first = spec_first_level(jpegs, 0);
    if w == 0 || h == 0 {
        Err(BlpError::InvalidHeader)
    } else if first >= jpegs.len() {
        Err(BlpError::EmptyMipSet)
    } else {
        match spec_scan(jpegs[first]->Some_0) {
            Err(e) => Err(BlpError::JpegParse(e)),
            Ok(base) => {
                let cut = base.header_end as int;
                let shared = jpegs[first]->Some_0.subrange(0, cut);
                match spec_first_problem(jpegs, w, h, shared, base, 0) {
                    Some(e) => Err(e),
                    None => if JPEG_HEADER_OFFSET + cut + spec_bodies(
                        jpegs,
                        cut,
                        MAX_MIPS as int,
                    ).len() > u32::MAX {
                        Err(BlpError::OutputTooLarge)
                    } else {
                        Ok(
                            spec_u32_be_bytes(BLP1_MAGIC) + spec_words_le(
                                spec_pack_words(w, h, jpegs, cut),
                            ) + shared + spec_bodies(jpegs, cut, MAX_MIPS as int),
                        )
                    },
                }
            },
        }
    }
}

/// The scan bodies of more slots are never shorter.
pub proof fn lemma_bodies_grow(jpegs: Seq<Option<Seq<u8>>>, cut: int, a: int, b: int)
    requires
        a <= b,
    ensures
        spec_bodies(jpegs, cut, a).len() <= spec_bodies(jpegs, cut, b).len(),
    decreases b - a,
{
    if a < b {
        lemma_bodies_grow(jpegs, cut, a, b - 1);
    }
}

/// `base` is the record of the first level that is there, at slot `first`,
/// and `shared` is the marker prefix of that level.
pub open spec fn spec_pack_base(
    jpegs: Seq<Option<Seq<u8>>>,
    first: int,
    base: JpegHeaderInfo,
    shared: Seq<u8>,
) -> bool {
    &&& first == spec_first_level(jpegs, 0)
    &&& 0 <= first < jpegs.len()
    &&& jpegs[first] is Some
    &&& spec_scan(jpegs[first]->Some_0) == Ok::<JpegHeaderInfo, ScanError>(base)
    &&& shared == jpegs[first]->Some_0.subrange(0, base.header_end as int)
}

/// A level without problem has the shared prefix length and a scan body.
pub proof fn lemma_level_without_problem(
    jpeg: Seq<u8>,
    w: u32,
    h: u32,
    shared: Seq<u8>,
    base: JpegHeaderInfo,
)
    requires
        spec_level_problem(jpeg, w, h, shared, base) is None,
        jpeg.len() <= usize::MAX,
    ensures
        spec_scan(jpeg) is Ok,
        spec_scan(jpeg)->Ok_0.header_end == shared.len(),
        shared.len() < jpeg.len(),
        spec_scan(jpeg)->Ok_0.sof_marker != 0,
        spec_scan(jpeg)->Ok_0.sof_w == w,
        spec_scan(jpeg)->Ok_0.sof_h == h,
        spec_header_eq_except_hw(jpeg.subrange(0, shared.len() as int), shared, base, spec_scan(jpeg)->Ok_0),
{
    let info = spec_scan(jpeg)->Ok_0;
    assert(jpeg.subrange(0, info.header_end as int).len() == info.header_end);
}

/// Packs encoded levels into a container.
///
/// Slot `i` of `levels` holds the stand-alone JPEG of level `i`, or nothing
/// for a level that is left out. The marker prefix of the first level that
/// is there becomes the shared header; every level must carry the same
/// prefix but for the bytes of height and width, and must declare the
/// dimensions of its level. The scan bodies, each with its closing marker as
/// the encoder wrote it, are placed behind the shared header in slot order.
#[verifier::rlimit(40)]
pub fn pack(width: u32, height: u32, levels: &Vec<Option<Vec<u8>>>) -> (r: Result<
    Vec<u8>,
    BlpError,
>)
    requires
        levels@.len() == MAX_MIPS,
    ensures
        match spec_pack(width, height, spec_levels_view(levels@)) {
            Ok(b) => r is Ok && r->Ok_0@ == b,
            Err(e) => r is Err && r->Err_0 == e,
        },
{
    let ghost jpegs = spec_levels_view(levels@);
    if width == 0 || height == 0 {
        return Err(BlpError::InvalidHeader);
    }
    let mut first: usize = 0;
    while first < MAX_MIPS && levels[first].is_none()
        invariant
            first <= MAX_MIPS,
            levels@.len() == MAX_MIPS,
            jpegs == spec_levels_view(levels@),
            spec_first_level(jpegs, first as int) == spec_first_level(jpegs, 0),
        decreases MAX_MIPS - first,
    {
        first = first + 1;
    }
    if first >= MAX_MIPS {
        return Err(BlpError::EmptyMipSet);
    }
    let first_jpeg: &[u8] = match &levels[first] {
        Some(v) => v.as_slice(),
        None => { return Err(BlpError::EmptyMipSet); },
    };
    assert(jpegs[first as int] == Some(first_jpeg@));
    let first_len: usize = first_jpeg.len();
    let base = match parse_jpeg_header_info(first_jpeg) {
        Ok(b) => b,
        Err(e) => { return Err(BlpError::JpegParse(e)); },
    };
    proof {
        crate::scan_laws::lemma_scan_bounds(first_jpeg@);
    }
    let cut: usize = base.header_end;
    let shared = vstd::slice::slice_subrange(first_jpeg, 0, cut);
    let mut k: usize = 0;
    while k < MAX_MIPS
        invariant
            k <= MAX_MIPS,
            levels@.len() == MAX_MIPS,
            jpegs == spec_levels_view(levels@),
            width != 0,
            height != 0,
            spec_pack_base(jpegs, first as int, base, shared@),
            spec_first_problem(jpegs, width, height, shared@, base, k as int)
                == spec_first_problem(jpegs, width, height, shared@, base, 0),
            forall|j: int|
                0 <= j < k && (#[trigger] jpegs[j]) is Some ==> spec_level_problem(
                    jpegs[j]->Some_0,
                    spec_mip_axis(width, j as nat),
                    spec_mip_axis(height, j as nat),
                    shared@,
                    base,
                ) is None,
        decreases MAX_MIPS - k,
    {
        match &levels[k] {
            Some(j) => {
                assert(jpegs[k as int] == Some(j@));
                let (mw, mh) = mip_dims(width, height, k);
                match level_problem(j.as_slice(), mw, mh, shared, &base) {
                    Some(e) => {
                        assert(spec_first_problem(jpegs, width, height, shared@, base, k as int)
                            == Some(e));
                        return Err(e);
                    },
                    None => {},
                }
            },
            None => {
                assert(jpegs[k as int] is None);
            },
        }
        k = k + 1;
    }
    if cut > u32::MAX as usize - JPEG_HEADER_OFFSET {
        return Err(BlpError::OutputTooLarge);
    }
    let mut offsets: [u32; 16] = [0u32; 16];
    let mut sizes: [u32; 16] = [0u32; 16];
    let mut pos: u32 = (JPEG_HEADER_OFFSET + cut) as u32;
    let mut count: usize = 0;
    let mut i: usize = 0;
    while i < MAX_MIPS
        invariant
            i <= MAX_MIPS,
            levels@.len() == MAX_MIPS,
            jpegs == spec_levels_view(levels@),
            cut == base.header_end,
            shared@.len() == cut,
            width != 0,
            height != 0,
            spec_pack_base(jpegs, first as int, base, shared@),
            spec_first_problem(jpegs, width, height, shared@, base, 0) is None,
            pos == JPEG_HEADER_OFFSET + cut + spec_bodies(jpegs, cut as int, i as int).len(),
            count == spec_level_total(jpegs, i as int),
            count <= i,
            forall|j: int|
                0 <= j < MAX_MIPS && (#[trigger] jpegs[j]) is Some ==> spec_level_problem(
                    jpegs[j]->Some_0,
                    spec_mip_axis(width, j as nat),
                    spec_mip_axis(height, j as nat),
                    shared@,
                    base,
                ) is None,
            forall|j: int|
                0 <= j < i ==> #[trigger] offsets[j] == spec_placed_offset(jpegs, cut as int, j),
            forall|j: int|
                0 <= j < i ==> #[trigger] sizes[j] == spec_placed_size(jpegs, cut as int, j),
            forall|j: int| i <= j < MAX_MIPS ==> #[trigger] offsets[j] == 0,
            forall|j: int| i <= j < MAX_MIPS ==> #[trigger] sizes[j] == 0,
        decreases MAX_MIPS - i,
    {
        match &levels[i] {
            Some(j) => {
                assert(jpegs[i as int] == Some(j@));
                let len: usize = j.len();
                proof {
                    lemma_level_without_problem(
                        j@,
                        spec_mip_axis(width, i as nat),
                        spec_mip_axis(height, i as nat),
                        shared@,
                        base,
                    );
                    assert(spec_body(jpegs[i as int], cut as int).len() == len - cut);
                    assert(spec_bodies(jpegs, cut as int, i + 1).len() == spec_bodies(
                        jpegs,
                        cut as int,
                        i as int,
                    ).len() + (len - cut));
                }
                let size: usize = len - cut;
                if size > (u32::MAX - pos) as usize {
                    proof {
                        lemma_bodies_grow(jpegs, cut as int, i + 1, MAX_MIPS as int);
                    }
                    return Err(BlpError::OutputTooLarge);
                }
                offsets[i] = pos;
                sizes[i] = size as u32;
                assert(offsets[i as int] == spec_placed_offset(jpegs, cut as int, i as int));
                assert(sizes[i as int] == spec_placed_size(jpegs, cut as int, i as int));
                pos = pos + size as u32;
                count = count + 1;
            },
            None => {
                assert(jpegs[i as int] is None);
                assert(spec_body(jpegs[i as int], cut as int).len() == 0);
                assert(offsets[i as int] == spec_placed_offset(jpegs, cut as int, i as int));
                assert(sizes[i as int] == spec_placed_size(jpegs, cut as int, i as int));
            },
        }
        i = i + 1;
    }
    let h = Blp1Header {
        compression: 0,
        alpha_bits: 0,
        width,
        height,
        alpha_type: 0,
        has_mips: if count > 1 { 1 } else { 0 },
        mip_offsets: offsets,
        mip_sizes: sizes,
        jpeg_header_size: cut as u32,
    };
    let mut out = h.serialize(shared);
    proof {
        assert(h.mip_offsets@ =~= Seq::new(
            MAX_MIPS as nat,
            |i: int| spec_placed_offset(jpegs, cut as int, i),
        ));
        assert(h.mip_sizes@ =~= Seq::new(
            MAX_MIPS as nat,
            |i: int| spec_placed_size(jpegs, cut as int, i),
        ));
        assert(h.spec_words() =~= spec_pack_words(width, height, jpegs, cut as int));
    }
    let ghost head = out@;
    let mut i: usize = 0;
    while i < MAX_MIPS
        invariant
            i <= MAX_MIPS,
            levels@.len() == MAX_MIPS,
            jpegs == spec_levels_view(levels@),
            cut == base.header_end,
            shared@.len() == cut,
            head.len() == JPEG_HEADER_OFFSET + cut,
            JPEG_HEADER_OFFSET + cut + spec_bodies(jpegs, cut as int, MAX_MIPS as int).len()
                <= u32::MAX,
            out@ == head + spec_bodies(jpegs, cut as int, i as int),
            forall|j: int|
                0 <= j < MAX_MIPS && (#[trigger] jpegs[j]) is Some ==> spec_level_problem(
                    jpegs[j]->Some_0,
                    spec_mip_axis(width, j as nat),
                    spec_mip_axis(height, j as nat),
                    shared@,
                    base,
                ) is None,
        decreases MAX_MIPS - i,
    {
        proof {
            lemma_bodies_grow(jpegs, cut as int, i + 1, MAX_MIPS as int);
        }
        match &levels[i] {
            Some(j) => {
                assert(jpegs[i as int] == Some(j@));
                let body = vstd::slice::slice_subrange(j.as_slice(), cut, j.len());
                append_bytes(&mut out, body);
                assert(out@ =~= head + spec_bodies(jpegs, cut as int, i + 1));
            },
            None => {
                assert(jpegs[i as int] is None);
                assert(out@ =~= head + spec_bodies(jpegs, cut as int, i + 1));
            },
        }
        i = i + 1;
    }
    Ok(out)
}

/// Whether the mask selects level `i`. A mask shorter than the chain
/// selects every level that it does not reach.
pub open spec fn spec_selected(mask: Seq<bool>, i: int) -> bool {
    i >= mask.len() || mask[i]
}

/// The stand-alone JPEG of level `i` of an image, as the encoder writes it
/// at the given quality.
pub open spec fn spec_level_encoding(px: Seq<u8>, w: u32, h: u32, quality: u8, i: nat) -> Option<
    Seq<u8>,
> {
    spec_jpeg_encoding(
        spec_rgb(spec_level_pixels(px, w, h, i)),
        spec_mip_axis(w, i),
        spec_mip_axis(h, i),
        quality,
    )
}

/// Whether level `i` is encoded: it belongs to the chain of exact halves
/// and the mask selects it.
pub open spec fn spec_level_wanted(w: u32, h: u32, mask: Seq<bool>, i: int) -> bool {
    0 <= i < spec_exact_level_count(w, h) && spec_selected(mask, i)
}

/// The encoded levels of an image, slot by slot.
pub open spec fn spec_encoded_levels(px: Seq<u8>, w: u32, h: u32, quality: u8, mask: Seq<bool>) -> Seq<
    Option<Seq<u8>>,
> {
    Seq::new(
        MAX_MIPS as nat,
        |i: int|
            if spec_level_wanted(w, h, mask, i) {
                spec_level_encoding(px, w, h, quality, i as nat)
            } else {
                None
            },
    )
}

/// Whether the encoder refuses one of the wanted levels.
pub open spec fn spec_encoder_refuses(px: Seq<u8>, w: u32, h: u32, quality: u8, mask: Seq<bool>) -> bool {
    exists|i: int|
        #![trigger spec_level_wanted(w, h, mask, i)]
        spec_level_wanted(w, h, mask, i) && spec_level_encoding(px, w, h, quality, i as nat)
            is None
}

/// The container that `encode` writes for an image, or the reason why it
/// writes none.
pub open spec fn spec_encode(px: Seq<u8>, w: u32, h: u32, quality: u8, mask: Seq<bool>) -> Result<
    Seq<u8>,
    BlpError,
> {
    if w == 0 || h == 0 || w > 0xFFFF || h > 0xFFFF || spec_encoder_refuses(
        px,
        w,
        h,
        quality,
        mask,
    ) {
        Err(BlpError::JpegEncode)
    } else {
        spec_pack(w, h, spec_encoded_levels(px, w, h, quality, mask))
    }
}

/// Encodes an image as a stand-alone baseline JPEG at the given quality.
/// The alpha channel is dropped. Every refusal of the encoder is reported as
/// `JpegEncode`.
pub fn encode_jpeg(img: &RgbaImage, quality: u8) -> (r: Result<Vec<u8>, BlpError>)
    requires
        img.wf(),
    ensures
        match spec_jpeg_encoding(spec_rgb(img.pixels@), img.width, img.height, quality) {
            Some(bytes) => r is Ok && r->Ok_0@ == bytes,
            None => r is Err && r->Err_0 == BlpError::JpegEncode,
        },
{
    let rgb = to_rgb(img);
    match jpeg_encode_rgb(rgb.as_slice(), img.width, img.height, quality) {
        Ok(v) => Ok(v),
        Err(_) => Err(BlpError::JpegEncode),
    }
}

/// Encodes one level, or leaves its slot empty when the mask leaves it out.
fn encode_level(img: &RgbaImage, quality: u8, wanted: bool) -> (r: Result<
    Option<Vec<u8>>,
    BlpError,
>)
    requires
        img.wf(),
    ensures
        !wanted ==> r is Ok && r->Ok_0 is None,
        wanted ==> match spec_jpeg_encoding(
            spec_rgb(img.pixels@),
            img.width,
            img.height,
            quality,
        ) {
            Some(bytes) => r is Ok && r->Ok_0 is Some && r->Ok_0->Some_0@ == bytes,
            None => r is Err && r->Err_0 == BlpError::JpegEncode,
        },
{
    if !wanted {
        return Ok(None);
    }
    match encode_jpeg(img, quality) {
        Ok(v) => Ok(Some(v)),
        Err(e) => Err(e),
    }
}

/// Encodes an RGBA image as a container.
///
/// Level 0 is the image itself; each further level is the box-filtered half
/// of the one before, for as long as halving drops no row or column. Of
/// these levels the ones that `mask` selects are encoded at `quality`. The
/// mip flag is set when more than one level is stored.
///
/// Fails with `JpegEncode` when a dimension is zero or above 65535 or the
/// encoder refuses a level, with `EmptyMipSet` when the mask selects no
/// level, and otherwise as `pack` does.
#[verifier::rlimit(40)]
pub fn encode(rgba: &RgbaImage, quality: u8, mask: &[bool]) -> (r: Result<Vec<u8>, BlpError>)
    requires
        rgba.wf(),
        quality <= 100,
    ensures
        match spec_encode(rgba.pixels@, rgba.width, rgba.height, quality, mask@) {
            Ok(bytes) => r is Ok && r->Ok_0@ == bytes,
            Err(e) => r is Err && r->Err_0 == e,
        },
{
    let w: u32 = rgba.width;
    let h: u32 = rgba.height;
    if w == 0 || h == 0 || w > 0xFFFF || h > 0xFFFF {
        return Err(BlpError::JpegEncode);
    }
    let ghost px = rgba.pixels@;
    let ghost want = spec_encoded_levels(px, w, h, quality, mask@);
    proof {
        crate::mip::lemma_mip_axis_zero(w);
        crate::mip::lemma_mip_axis_zero(h);
    }
    let n: usize = exact_level_count(w, h);
    let mut levels: Vec<Option<Vec<u8>>> = Vec::new();
    let mut cur: Option<RgbaImage> = None;
    let mut done: usize = 0;
    let mut i: usize = 0;
    while i < MAX_MIPS
        invariant
            i <= MAX_MIPS,
            rgba.wf(),
            w == rgba.width,
            h == rgba.height,
            1 <= w <= 0xFFFF,
            1 <= h <= 0xFFFF,
            spec_mip_axis(w, 0) == w,
            spec_mip_axis(h, 0) == h,
            px == rgba.pixels@,
            want == spec_encoded_levels(px, w, h, quality, mask@),
            n == spec_exact_level_count(w, h),
            levels@.len() == i,
            forall|j: int|
                0 <= j < i ==> match #[trigger] levels@[j] {
                    Some(v) => want[j] == Some(v@),
                    None => want[j] is None,
                },
            forall|j: int|
                0 <= j < i ==> #[trigger] want[j] is Some || !spec_level_wanted(w, h, mask@, j),
            done == if i < n {
                i
            } else {
                n
            },
            done >= 1 ==> cur is Some,
            cur matches Some(c) ==> done >= 1 && c.wf() && c.width == spec_mip_axis(
                w,
                (done - 1) as nat,
            ) && c.height == spec_mip_axis(h, (done - 1) as nat) && c.pixels@
                == spec_level_pixels(px, w, h, (done - 1) as nat) && c.width >= 1 && c.height
                >= 1,
        decreases MAX_MIPS - i,
    {
        if i < n {
            let wanted: bool = i >= mask.len() || mask[i];
            let next: RgbaImage = match &cur {
                None => {
                    match encode_level(rgba, quality, wanted) {
                        Ok(slot) => { levels.push(slot); },
                        Err(e) => {
                            assert(spec_level_wanted(w, h, mask@, 0));
                            return Err(e);
                        },
                    }
                    copy_image(rgba)
                },
                Some(c) => {
                    let d = downsample(c);
                    proof {
                        crate::mip::lemma_mip_axis_step(w, (i - 1) as nat);
                        crate::mip::lemma_mip_axis_step(h, (i - 1) as nat);
                    }
                    match encode_level(&d, quality, wanted) {
                        Ok(slot) => { levels.push(slot); },
                        Err(e) => {
                            assert(spec_level_wanted(w, h, mask@, i as int));
                            return Err(e);
                        },
                    }
                    d
                },
            };
            cur = Some(next);
            done = done + 1;
        } else {
            levels.push(None);
        }
        i = i + 1;
    }
    proof {
        assert(spec_levels_view(levels@) =~= want);
        assert(!spec_encoder_refuses(px, w, h, quality, mask@)) by {
            if spec_encoder_refuses(px, w, h, quality, mask@) {
                let j = choose|j: int|
                    #![trigger spec_level_wanted(w, h, mask@, j)]
                    spec_level_wanted(w, h, mask@, j) && spec_level_encoding(
                        px,
                        w,
                        h,
                        quality,
                        j as nat,
                    ) is None;
                assert(want[j] is Some || !spec_level_wanted(w, h, mask@, j));
            }
        }
    }
    pack(w, h, &levels)
}

/// A copy of an image.
pub fn copy_image(img: &RgbaImage) -> (out: RgbaImage)
    ensures
        out.width == img.width,
        out.height == img.height,
        out.pixels@ == img.pixels@,
{
    let mut pixels: Vec<u8> = Vec::new();
    let len: usize = img.pixels.len();
    append_bytes(&mut pixels, img.pixels.as_slice());
    assert(pixels@ =~= img.pixels@);
    RgbaImage { width: img.width, height: img.height, pixels }
}

} // verus!
