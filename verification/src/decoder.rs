//! Reading a container: metadata, the stand-alone JPEG of each level, and the
//! decoded pixels.
//!
//! A level that cannot be decoded does not fail the file: its entry stays
//! without pixels and carries the reason. Only a bad header is fatal.
use crate::assemble::{assemble_with, spec_assemble_with, Assembled};
use crate::codec::decode_jpeg;
use crate::error::BlpError;
use crate::header::{spec_header_error, Blp1Header, JPEG_HEADER_OFFSET};
use crate::mip::{mip_dims, MAX_MIPS};
use crate::rgba::RgbaImage;
use crate::spans::count_covered;
use crate::texture::{
    file_spans, spec_covered_bytes, spec_file_spans, spec_shared_len, BlpImage, MipEntry,
    TextureType, Version,
};
use vstd::prelude::*;

verus! {

/// The stand-alone JPEG of the level whose payload is `length` bytes at
/// `offset` and whose dimensions are `w` by `h`, in a container with a shared
/// JPEG header of `shared_len` bytes; with it, whether the frame header was
/// rewritten.
pub open spec fn spec_level_jpeg(
    bytes: Seq<u8>,
    shared_len: u32,
    offset: u32,
    length: u32,
    w: u32,
    h: u32,
    strict: bool,
) -> Result<(Seq<u8>, bool), BlpError> {
    if length == 0 {
        Err(BlpError::AbsentLevel)
    } else if JPEG_HEADER_OFFSET + shared_len > bytes.len() || offset + length > bytes.len() {
        Err(BlpError::Truncated)
    } else if shared_len + length + 2 > usize::MAX {
        Err(BlpError::OutputTooLarge)
    } else {
        spec_assemble_with(
            bytes.subrange(JPEG_HEADER_OFFSET as int, JPEG_HEADER_OFFSET + shared_len),
            bytes.subrange(offset as int, offset + length),
            w,
            h,
            strict,
        )
    }
}

/// Cuts the shared header and the payload of one level out of `bytes` and
/// assembles them.
pub fn level_jpeg(
    bytes: &[u8],
    shared_len: u32,
    offset: u32,
    length: u32,
    w: u32,
    h: u32,
    strict: bool,
) -> (r: Result<Assembled, BlpError>)
    ensures
        match spec_level_jpeg(bytes@, shared_len, offset, length, w, h, strict) {
            Ok(p) => r is Ok && r->Ok_0.jpeg@ == p.0 && r->Ok_0.patched == p.1,
            Err(e) => r is Err && r->Err_0 == e,
        },
{
    if length == 0 {
        return Err(BlpError::AbsentLevel);
    }
    let len: u64 = bytes.len() as u64;
    if JPEG_HEADER_OFFSET as u64 + shared_len as u64 > len || offset as u64 + length as u64 > len {
        return Err(BlpError::Truncated);
    }
    if shared_len as u64 + length as u64 + 2 > usize::MAX as u64 {
        return Err(BlpError::OutputTooLarge);
    }
    let shared = vstd::slice::slice_subrange(
        bytes,
        JPEG_HEADER_OFFSET,
        JPEG_HEADER_OFFSET + shared_len as usize,
    );
    let scan = vstd::slice::slice_subrange(
        bytes,
        offset as usize,
        offset as usize + length as usize,
    );
    assemble_with(shared, scan, w, h, strict)
}

/// What an entry says of its level once the file was decoded: no pixels and
/// no diagnostic for an absent level; no pixels and the reason where the
/// stand-alone JPEG could not be built; otherwise pixels, or `JpegDecode`
/// where the decoder refused the stream.
pub open spec fn spec_entry_decoded(bytes: Seq<u8>, strict: bool, e: MipEntry) -> bool {
    match spec_level_jpeg(
        bytes,
        spec_shared_len(bytes),
        e.offset,
        e.length,
        e.width,
        e.height,
        strict,
    ) {
        Err(BlpError::AbsentLevel) => e.image is None && e.diagnostic is None && !e.patched,
        Err(err) => e.image is None && e.diagnostic == Some(err) && !e.patched,
        Ok(p) => e.patched == p.1 && (e.image is None ==> e.diagnostic == Some(
            BlpError::JpegDecode,
        )),
    }
}

/// What an entry says of its level when only the metadata was read: no
/// pixels, and `Truncated` where the payload reaches past the end.
pub open spec fn spec_entry_listed(bytes: Seq<u8>, e: MipEntry) -> bool {
    &&& e.image is None
    &&& !e.patched
    &&& e.diagnostic == if e.length > 0 && e.offset + e.length > bytes.len() {
        Some(BlpError::Truncated)
    } else {
        None
    }
}

/// The entry of slot `index`, decoded when `decode` is set.
#[verifier::rlimit(40)]
fn read_entry(bytes: &[u8], h: &Blp1Header, index: usize, decode: bool, strict: bool) -> (e:
    MipEntry)
    requires
        index < MAX_MIPS,
        JPEG_HEADER_OFFSET + h.jpeg_header_size <= bytes@.len(),
        h.jpeg_header_size == spec_shared_len(bytes@),
    ensures
        e.index == index,
        (e.width, e.height) == crate::mip::spec_mip_dims(h.width, h.height, index as nat),
        e.offset == h.mip_offsets[index as int],
        e.length == h.mip_sizes[index as int],
        e.wf(),
        decode ==> spec_entry_decoded(bytes@, strict, e),
        !decode ==> spec_entry_listed(bytes@, e),
{
    let (width, height) = mip_dims(h.width, h.height, index);
    let offset: u32 = h.mip_offsets[index];
    let length: u32 = h.mip_sizes[index];
    let mut e = MipEntry {
        index,
        width,
        height,
        offset,
        length,
        image: None,
        diagnostic: None,
        patched: false,
    };
    if !decode {
        if length > 0 && offset as u64 + length as u64 > bytes.len() as u64 {
            e.diagnostic = Some(BlpError::Truncated);
        }
        return e;
    }
    match level_jpeg(bytes, h.jpeg_header_size, offset, length, width, height, strict) {
        Err(BlpError::AbsentLevel) => {},
        Err(err) => {
            e.diagnostic = Some(err);
        },
        Ok(a) => {
            e.patched = a.patched;
            match decode_jpeg(a.jpeg.as_slice(), width, height) {
                Ok(img) => {
                    e.image = Some(img.pixels);
                },
                Err(err) => {
                    e.diagnostic = Some(err);
                },
            }
        },
    }
    e
}

/// Reads the header and all sixteen entries.
#[verifier::rlimit(40)]
fn read_image(bytes: &[u8], decode: bool, strict: bool) -> (r: Result<BlpImage, BlpError>)
    ensures
        match spec_header_error(bytes@) {
            Some(e) => r is Err && r->Err_0 == e,
            None => r is Ok && r->Ok_0.spec_describes(bytes@) && forall|i: int|
                0 <= i < MAX_MIPS ==> {
                    &&& decode ==> spec_entry_decoded(bytes@, strict, #[trigger] r->Ok_0.mipmaps@[i])
                    &&& !decode ==> spec_entry_listed(bytes@, r->Ok_0.mipmaps@[i])
                },
        },
{
    let h = match Blp1Header::parse(bytes) {
        Ok(h) => h,
        Err(e) => { return Err(e); },
    };
    let mut mipmaps: Vec<MipEntry> = Vec::new();
    let mut i: usize = 0;
    while i < MAX_MIPS
        invariant
            i <= MAX_MIPS,
            spec_header_error(bytes@) is None,
            crate::header::spec_reads_as(bytes@, h),
            mipmaps@.len() == i,
            forall|j: int|
                0 <= j < i ==> {
                    &&& (#[trigger] mipmaps@[j]).index == j
                    &&& (mipmaps@[j].width, mipmaps@[j].height) == crate::mip::spec_mip_dims(
                        h.width,
                        h.height,
                        j as nat,
                    )
                    &&& mipmaps@[j].offset == h.mip_offsets[j]
                    &&& mipmaps@[j].length == h.mip_sizes[j]
                    &&& mipmaps@[j].wf()
                    &&& decode ==> spec_entry_decoded(bytes@, strict, mipmaps@[j])
                    &&& !decode ==> spec_entry_listed(bytes@, mipmaps@[j])
                },
        decreases MAX_MIPS - i,
    {
        let e = read_entry(bytes, &h, i, decode, strict);
        mipmaps.push(e);
        i = i + 1;
    }
    let spans = file_spans(&h, bytes.len());
    proof {
        assert(spans@ =~= spec_file_spans(bytes@)) by {
            assert forall|k: int| 0 <= k < 17 implies spans@[k] == spec_file_spans(bytes@)[k] by {
                if k > 0 {
                    assert(spans@[(k - 1) + 1] == spans@[k]);
                    assert(h.mip_offsets[k - 1] == crate::texture::spec_mip_offset(bytes@, k - 1));
                    assert(h.mip_sizes[k - 1] == crate::texture::spec_mip_size(bytes@, k - 1));
                }
            }
        }
    }
    let covered: usize = count_covered(&spans, bytes.len());
    let img = BlpImage {
        version: Version::Blp1,
        texture_type: TextureType::Jpeg,
        compression: h.compression,
        alpha_bits: h.alpha_bits,
        alpha_type: h.alpha_type,
        has_mips: h.has_mips,
        width: h.width,
        height: h.height,
        jpeg_header_size: h.jpeg_header_size,
        mipmaps,
        holes: bytes.len() - covered,
    };
    Ok(img)
}

/// Number of bytes of a container that its header, its shared JPEG header
/// and the payloads of its levels cover.
pub fn covered_bytes(bytes: &[u8]) -> (r: Result<usize, BlpError>)
    ensures
        match spec_header_error(bytes@) {
            Some(e) => r is Err && r->Err_0 == e,
            None => r is Ok && r->Ok_0 == spec_covered_bytes(bytes@),
        },
{
    match read_image(bytes, false, false) {
        Ok(img) => Ok(bytes.len() - img.holes),
        Err(e) => Err(e),
    }
}

/// Reads the metadata of a container without decoding any pixels.
///
/// Fails exactly when the header is bad. On success the dimensions are
/// positive, entry `i` has the dimensions of level `i`, and the hole count
/// and the covered bytes add up to the length of the file.
pub fn parse_header(bytes: &[u8]) -> (r: Result<BlpImage, BlpError>)
    ensures
        match spec_header_error(bytes@) {
            Some(e) => r is Err && r->Err_0 == e,
            None => r is Ok && r->Ok_0.spec_describes(bytes@) && forall|i: int|
                0 <= i < MAX_MIPS ==> spec_entry_listed(bytes@, #[trigger] r->Ok_0.mipmaps@[i]),
        },
        r matches Ok(img) ==> img.width > 0 && img.height > 0,
{
    read_image(bytes, false, false)
}

/// Reads a container and decodes every level that it declares.
///
/// With `strict` set, a level whose frame header disagrees with its
/// dimensions is reported with `MipDimsMismatch`; without it the frame header
/// is rewritten and the entry is marked `patched`.
pub fn decode_with(bytes: &[u8], strict: bool) -> (r: Result<BlpImage, BlpError>)
    ensures
        match spec_header_error(bytes@) {
            Some(e) => r is Err && r->Err_0 == e,
            None => r is Ok && r->Ok_0.spec_describes(bytes@) && forall|i: int|
                0 <= i < MAX_MIPS ==> spec_entry_decoded(
                    bytes@,
                    strict,
                    #[trigger] r->Ok_0.mipmaps@[i],
                ),
        },
{
    read_image(bytes, true, strict)
}

/// Reads a container and decodes every level, rewriting frame headers that
/// disagree with their level.
pub fn decode_all(bytes: &[u8]) -> (r: Result<BlpImage, BlpError>)
    ensures
        match spec_header_error(bytes@) {
            Some(e) => r is Err && r->Err_0 == e,
            None => r is Ok && r->Ok_0.spec_describes(bytes@) && forall|i: int|
                0 <= i < MAX_MIPS ==> spec_entry_decoded(
                    bytes@,
                    false,
                    #[trigger] r->Ok_0.mipmaps@[i],
                ),
        },
{
    read_image(bytes, true, false)
}

/// The stand-alone JPEG of level `index`, byte for byte as the decoder is
/// given it.
pub fn export_jpg(bytes: &[u8], image: &BlpImage, index: usize) -> (r: Result<Vec<u8>, BlpError>)
    ensures
        index >= image.mipmaps@.len() ==> r is Err && r->Err_0 == BlpError::AbsentLevel,
        index < image.mipmaps@.len() ==> match spec_level_jpeg(
            bytes@,
            image.jpeg_header_size,
            image.mipmaps@[index as int].offset,
            image.mipmaps@[index as int].length,
            image.mipmaps@[index as int].width,
            image.mipmaps@[index as int].height,
            false,
        ) {
            Ok(p) => r is Ok && r->Ok_0@ == p.0,
            Err(e) => r is Err && r->Err_0 == e,
        },
{
    if index >= image.mipmaps.len() {
        return Err(BlpError::AbsentLevel);
    }
    let e = &image.mipmaps[index];
    match level_jpeg(bytes, image.jpeg_header_size, e.offset, e.length, e.width, e.height, false) {
        Ok(a) => Ok(a.jpeg),
        Err(err) => Err(err),
    }
}

/// Decodes level `index` of a container to RGBA.
///
/// Fails with the reason why the stand-alone JPEG cannot be built, if there
/// is one, and with `JpegDecode` where the decoder refuses the stream or
/// gives pixels of another size than the level has.
pub fn decode_mip(bytes: &[u8], image: &BlpImage, index: usize) -> (r: Result<
    RgbaImage,
    BlpError,
>)
    ensures
        index >= image.mipmaps@.len() ==> r is Err && r->Err_0 == BlpError::AbsentLevel,
        index < image.mipmaps@.len() ==> match spec_level_jpeg(
            bytes@,
            image.jpeg_header_size,
            image.mipmaps@[index as int].offset,
            image.mipmaps@[index as int].length,
            image.mipmaps@[index as int].width,
            image.mipmaps@[index as int].height,
            false,
        ) {
            Ok(p) => match r {
                Ok(img) => img.width == image.mipmaps@[index as int].width && img.height
                    == image.mipmaps@[index as int].height && img.wf(),
                Err(e) => e == BlpError::JpegDecode,
            },
            Err(e) => r is Err && r->Err_0 == e,
        },
{
    if index >= image.mipmaps.len() {
        return Err(BlpError::AbsentLevel);
    }
    let e = &image.mipmaps[index];
    match level_jpeg(bytes, image.jpeg_header_size, e.offset, e.length, e.width, e.height, false) {
        Ok(a) => decode_jpeg(a.jpeg.as_slice(), e.width, e.height),
        Err(err) => Err(err),
    }
}

/// Decodes level `index` and keeps the outcome in its entry: the pixels
/// where the level decodes, the reason where it does not. Nothing else of
/// the texture changes. An index beyond the entries changes nothing at all.
#[verifier::rlimit(40)]
pub fn decode_into(bytes: &[u8], image: &mut BlpImage, index: usize)
    requires
        old(image).wf(),
    ensures
        final(image).wf(),
        final(image).width == old(image).width,
        final(image).height == old(image).height,
        final(image).jpeg_header_size == old(image).jpeg_header_size,
        final(image).holes == old(image).holes,
        final(image).mipmaps@.len() == old(image).mipmaps@.len(),
        forall|j: int|
            0 <= j < MAX_MIPS && j != index ==> #[trigger] final(image).mipmaps@[j] == old(
                image,
            ).mipmaps@[j],
        index < MAX_MIPS ==> {
            let before = old(image).mipmaps@[index as int];
            let after = final(image).mipmaps@[index as int];
            &&& after.index == before.index
            &&& after.width == before.width
            &&& after.height == before.height
            &&& after.offset == before.offset
            &&& after.length == before.length
            &&& match spec_level_jpeg(
                bytes@,
                old(image).jpeg_header_size,
                before.offset,
                before.length,
                before.width,
                before.height,
                false,
            ) {
                Err(BlpError::AbsentLevel) => after.image is None && after.diagnostic is None
                    && !after.patched,
                Err(e) => after.image is None && after.diagnostic == Some(e) && !after.patched,
                Ok(p) => after.patched == p.1 && (after.image is None ==> after.diagnostic
                    == Some(BlpError::JpegDecode)),
            }
        },
{
    if index >= image.mipmaps.len() {
        return ;
    }
    let width: u32 = image.mipmaps[index].width;
    let height: u32 = image.mipmaps[index].height;
    let offset: u32 = image.mipmaps[index].offset;
    let length: u32 = image.mipmaps[index].length;
    let mut e = MipEntry {
        index: image.mipmaps[index].index,
        width,
        height,
        offset,
        length,
        image: None,
        diagnostic: None,
        patched: false,
    };
    match level_jpeg(bytes, image.jpeg_header_size, offset, length, width, height, false) {
        Err(BlpError::AbsentLevel) => {},
        Err(err) => {
            e.diagnostic = Some(err);
        },
        Ok(a) => {
            e.patched = a.patched;
            match decode_jpeg(a.jpeg.as_slice(), width, height) {
                Ok(img) => {
                    e.image = Some(img.pixels);
                },
                Err(err) => {
                    e.diagnostic = Some(err);
                },
            }
        },
    }
    image.mipmaps.set(index, e);
}

} // verus!
