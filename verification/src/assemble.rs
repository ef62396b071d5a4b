//! Building the stand-alone JPEG of one level from the shared header and the
//! level's scan body.
//!
//! The frame header of the shared part is rewritten when it declares other
//! dimensions than the level has; nothing else of the JPEG data is touched.
use crate::cursor::spec_u16_be_bytes;
use crate::error::BlpError;
use crate::scan::{parse_jpeg_header_info, spec_scan, JpegHeaderInfo, MARKER_EOI};
use vstd::prelude::*;

verus! {

/// `buf` with the height written at `h_off` and the width at `w_off`, each as
/// two big-endian bytes.
pub open spec fn spec_patch_sof(buf: Seq<u8>, w_off: int, h_off: int, w: u16, h: u16) -> Seq<u8> {
    buf.update(h_off, spec_u16_be_bytes(h)[0]).update(h_off + 1, spec_u16_be_bytes(h)[1]).update(
        w_off,
        spec_u16_be_bytes(w)[0],
    ).update(w_off + 1, spec_u16_be_bytes(w)[1])
}

/// Overwrites the four bytes of a frame header that hold height and width.
pub fn patch_sof(buf: &mut Vec<u8>, w_off: usize, h_off: usize, w: u16, h: u16)
    requires
        w_off + 1 < old(buf)@.len(),
        h_off + 1 < old(buf)@.len(),
    ensures
        final(buf)@ == spec_patch_sof(old(buf)@, w_off as int, h_off as int, w, h),
{
    let n: usize = buf.len();
    assert(w_off + 1 < n && h_off + 1 < n);
    buf[h_off] = (h / 256) as u8;
    buf[h_off + 1] = (h % 256) as u8;
    buf[w_off] = (w / 256) as u8;
    buf[w_off + 1] = (w % 256) as u8;
}

/// Whether `buf` closes with the end-of-image marker.
pub open spec fn spec_ends_with_eoi(buf: Seq<u8>) -> bool {
    buf.len() >= 2 && buf[buf.len() - 2] == 0xFF && buf[buf.len() - 1] == MARKER_EOI
}

/// `buf`, closed with the end-of-image marker if it was not.
pub open spec fn spec_with_eoi(buf: Seq<u8>) -> Seq<u8> {
    if spec_ends_with_eoi(buf) {
        buf
    } else {
        buf.push(0xFF).push(MARKER_EOI)
    }
}

/// Whether the frame header found by a walk declares other dimensions than
/// `w` by `h`. A stream without frame header never disagrees.
pub open spec fn spec_sof_differs(info: JpegHeaderInfo, w: u32, h: u32) -> bool {
    info.sof_marker != 0 && (info.sof_w != w || info.sof_h != h)
}

/// The stand-alone JPEG of a level, with the notice whether its frame header
/// was rewritten.
pub open spec fn spec_assemble_with(
    shared: Seq<u8>,
    scan: Seq<u8>,
    w: u32,
    h: u32,
    strict: bool,
) -> Result<(Seq<u8>, bool), BlpError> {
    let joined = shared + scan;
    match spec_scan(joined) {
        Err(e) => Err(BlpError::JpegParse(e)),
        Ok(info) => {
            if !spec_sof_differs(info, w, h) {
                Ok((spec_with_eoi(joined), false))
            } else if strict || w > 0xFFFF || h > 0xFFFF {
                Err(BlpError::MipDimsMismatch)
            } else {
                Ok(
                    (
                        spec_with_eoi(
                            spec_patch_sof(
                                joined,
                                info.sof_w_offset as int,
                                info.sof_h_offset as int,
                                w as u16,
                                h as u16,
                            ),
                        ),
                        true,
                    ),
                )
            }
        },
    }
}

/// The stand-alone JPEG of a level when a disagreeing frame header is
/// rewritten rather than refused.
pub open spec fn spec_assemble(shared: Seq<u8>, scan: Seq<u8>, w: u32, h: u32) -> Result<
    Seq<u8>,
    BlpError,
> {
    match spec_assemble_with(shared, scan, w, h, false) {
        Ok(p) => Ok(p.0),
        Err(e) => Err(e),
    }
}

/// A stand-alone JPEG and whether its frame header had to be rewritten.
pub struct Assembled {
    pub jpeg: Vec<u8>,
    pub patched: bool,
}

/// Joins the shared header and a scan body, brings the frame header to the
/// expected dimensions and closes the stream with the end-of-image marker.
///
/// With `strict` set, a frame header that disagrees with the expected
/// dimensions is refused with `MipDimsMismatch` and not rewritten. Dimensions
/// above 65535 cannot be written to a frame header and are refused likewise.
pub fn assemble_with(shared: &[u8], scan: &[u8], w: u32, h: u32, strict: bool) -> (r: Result<
    Assembled,
    BlpError,
>)
    requires
        shared@.len() + scan@.len() + 2 <= usize::MAX,
    ensures
        match spec_assemble_with(shared@, scan@, w, h, strict) {
            Ok(p) => r is Ok && r->Ok_0.jpeg@ == p.0 && r->Ok_0.patched == p.1,
            Err(e) => r is Err && r->Err_0 == e,
        },
{
    let mut buf: Vec<u8> = Vec::new();
    append_bytes(&mut buf, shared);
    append_bytes(&mut buf, scan);
    let info = match parse_jpeg_header_info(buf.as_slice()) {
        Ok(info) => info,
        Err(e) => { return Err(BlpError::JpegParse(e)); },
    };
    let mut patched: bool = false;
    if info.sof_marker != 0 && (info.sof_w as u32 != w || info.sof_h as u32 != h) {
        if strict || w > 0xFFFF || h > 0xFFFF {
            return Err(BlpError::MipDimsMismatch);
        }
        proof {
            crate::scan_laws::lemma_scan_bounds(buf@);
        }
        patch_sof(&mut buf, info.sof_w_offset, info.sof_h_offset, w as u16, h as u16);
        patched = true;
    }
    let n: usize = buf.len();
    if !(n >= 2 && buf[n - 2] == 0xFF && buf[n - 1] == MARKER_EOI) {
        buf.push(0xFF);
        buf.push(MARKER_EOI);
    }
    Ok(Assembled { jpeg: buf, patched })
}

/// The stand-alone JPEG of a level: `assemble_with` without strictness.
pub fn assemble(shared: &[u8], scan: &[u8], w: u32, h: u32) -> (r: Result<Vec<u8>, BlpError>)
    requires
        shared@.len() + scan@.len() + 2 <= usize::MAX,
    ensures
        match spec_assemble(shared@, scan@, w, h) {
            Ok(bytes) => r is Ok && r->Ok_0@ == bytes,
            Err(e) => r is Err && r->Err_0 == e,
        },
{
    match assemble_with(shared, scan, w, h, false) {
        Ok(a) => Ok(a.jpeg),
        Err(e) => Err(e),
    }
}

/// Appends a run of bytes to a vector.
pub fn append_bytes(out: &mut Vec<u8>, data: &[u8])
    requires
        old(out)@.len() + data@.len() <= usize::MAX,
    ensures
        final(out)@ == old(out)@ + data@,
{
    let mut i: usize = 0;
    while i < data.len()
        invariant
            i <= data@.len(),
            out@ == old(out)@ + data@.subrange(0, i as int),
        decreases data@.len() - i,
    {
        out.push(data[i]);
        i = i + 1;
        assert(out@ =~= old(out)@ + data@.subrange(0, i as int));
    }
    assert(data@.subrange(0, data@.len() as int) =~= data@);
}

/// Rewriting height and width touches those four bytes alone, and the bytes
/// read back as the values that were written.
pub proof fn lemma_patch_sof(buf: Seq<u8>, w_off: int, h_off: int, w: u16, h: u16)
    requires
        0 <= h_off,
        w_off == h_off + 2,
        w_off + 2 <= buf.len(),
    ensures
        spec_patch_sof(buf, w_off, h_off, w, h).len() == buf.len(),
        forall|k: int|
            0 <= k < buf.len() && !(h_off <= k < w_off + 2) ==> #[trigger] spec_patch_sof(
                buf,
                w_off,
                h_off,
                w,
                h,
            )[k] == buf[k],
        crate::cursor::spec_u16_be(spec_patch_sof(buf, w_off, h_off, w, h), h_off) == h,
        crate::cursor::spec_u16_be(spec_patch_sof(buf, w_off, h_off, w, h), w_off) == w,
{
}

/// Closing a stream that is closed changes nothing.
pub proof fn lemma_with_eoi_closed(buf: Seq<u8>)
    ensures
        spec_ends_with_eoi(spec_with_eoi(buf)),
        spec_with_eoi(spec_with_eoi(buf)) == spec_with_eoi(buf),
        spec_with_eoi(buf).len() >= buf.len(),
        forall|k: int| 0 <= k < buf.len() ==> #[trigger] spec_with_eoi(buf)[k] == buf[k],
{
}

/// Assembly is idempotent: cut an assembled stream where the shared header
/// ended and assemble the two parts again for the same dimensions, and the
/// same bytes come out, with nothing left to rewrite, strictly or not.
#[verifier::rlimit(40)]
pub proof fn lemma_assemble_idempotent(
    shared: Seq<u8>,
    scan: Seq<u8>,
    w: u32,
    h: u32,
    strict: bool,
    again_strict: bool,
)
    requires
        shared.len() + scan.len() + 2 <= usize::MAX,
        spec_assemble_with(shared, scan, w, h, strict) is Ok,
    ensures
        ({
            let out = spec_assemble_with(shared, scan, w, h, strict)->Ok_0.0;
            spec_assemble_with(
                out.subrange(0, shared.len() as int),
                out.subrange(shared.len() as int, out.len() as int),
                w,
                h,
                again_strict,
            ) == Ok::<(Seq<u8>, bool), BlpError>((out, false))
        }),
{
    let joined = shared + scan;
    let info = spec_scan(joined)->Ok_0;
    let out = spec_assemble_with(shared, scan, w, h, strict)->Ok_0.0;
    crate::scan_laws::lemma_scan_bounds(joined);
    crate::scan_laws::lemma_scan_dims_or_none(joined);
    let body = if spec_sof_differs(info, w, h) {
        spec_patch_sof(joined, info.sof_w_offset as int, info.sof_h_offset as int, w as u16, h as u16)
    } else {
        joined
    };
    if spec_sof_differs(info, w, h) {
        lemma_patch_sof(
            joined,
            info.sof_w_offset as int,
            info.sof_h_offset as int,
            w as u16,
            h as u16,
        );
    }
    lemma_with_eoi_closed(body);
    assert(out == spec_with_eoi(body));
    assert(out.subrange(0, shared.len() as int) + out.subrange(
        shared.len() as int,
        out.len() as int,
    ) =~= out);
    assert(crate::scan_laws::spec_agree_but_dims(joined, out, info, info.header_end as int)) by {
        assert forall|k: int|
            0 <= k < info.header_end && !crate::scan_laws::spec_is_dim_position(
                info,
                k,
            ) implies #[trigger] joined[k] == out[k] by {
            assert(out[k] == body[k]);
        }
    }
    crate::scan_laws::lemma_scan_agree(joined, out);
    let again = spec_scan(out)->Ok_0;
    if info.sof_marker != 0 {
        let ho = info.sof_h_offset as int;
        let wo = info.sof_w_offset as int;
        assert(out[ho] == body[ho] && out[ho + 1] == body[ho + 1]);
        assert(out[wo] == body[wo] && out[wo + 1] == body[wo + 1]);
        assert(again.sof_h == crate::cursor::spec_u16_be(body, ho));
        assert(again.sof_w == crate::cursor::spec_u16_be(body, wo));
    }
    assert(!spec_sof_differs(again, w, h));
}

} // verus!
