//! The in-memory form of a texture: container metadata, one entry for each
//! slot of the mip tables, and the count of bytes that nothing claims.
use crate::cursor::spec_u32_le;
use crate::error::BlpError;
use crate::header::{Blp1Header, JPEG_HEADER_OFFSET};
use crate::mip::{spec_mip_dims, MAX_MIPS};
use crate::spans::{spec_count_in, Span};
use vstd::prelude::*;

verus! {

/// Container version.
#[derive(Clone, Copy, Debug, PartialEq, Eq, Structural)]
pub enum Version {
    Blp1,
}

/// How the content of a container is stored.
#[derive(Clone, Copy, Debug, PartialEq, Eq, Structural)]
pub enum TextureType {
    Jpeg,
    Direct,
}

/// One slot of the mip tables.
///
/// A slot with `length == 0` is absent. `image` holds `width * height * 4`
/// bytes once the level was decoded; `diagnostic` says why it could not be.
/// `patched` notes that the frame header disagreed with the level's
/// dimensions and was rewritten.
#[derive(Clone, Debug)]
pub struct MipEntry {
    pub index: usize,
    pub width: u32,
    pub height: u32,
    pub offset: u32,
    pub length: u32,
    pub image: Option<Vec<u8>>,
    pub diagnostic: Option<BlpError>,
    pub patched: bool,
}

/// A texture read from a container.
#[derive(Clone, Debug)]
pub struct BlpImage {
    pub version: Version,
    pub texture_type: TextureType,
    pub compression: u32,
    pub alpha_bits: u32,
    pub alpha_type: u32,
    pub has_mips: u32,
    pub width: u32,
    pub height: u32,
    /// Length of the JPEG header that all levels share.
    pub jpeg_header_size: u32,
    /// One entry for each table slot, in slot order.
    pub mipmaps: Vec<MipEntry>,
    /// Bytes of the file that lie neither in the header, nor in the shared
    /// JPEG header, nor in the payload of any level.
    pub holes: usize,
}

/// Offset that slot `i` of the table in `bytes` declares.
pub open spec fn spec_mip_offset(bytes: Seq<u8>, i: int) -> u32 {
    spec_u32_le(bytes, 28 + 4 * i)
}

/// Size that slot `i` of the table in `bytes` declares.
pub open spec fn spec_mip_size(bytes: Seq<u8>, i: int) -> u32 {
    spec_u32_le(bytes, 92 + 4 * i)
}

/// Length of the shared JPEG header that `bytes` declares.
pub open spec fn spec_shared_len(bytes: Seq<u8>) -> u32 {
    spec_u32_le(bytes, 156)
}

/// The shared JPEG header of a container.
pub open spec fn spec_shared_header(bytes: Seq<u8>) -> Seq<u8> {
    bytes.subrange(JPEG_HEADER_OFFSET as int, JPEG_HEADER_OFFSET + spec_shared_len(bytes))
}

/// Slot `i` declares a payload that lies whole inside `bytes`.
pub open spec fn spec_mip_usable(bytes: Seq<u8>, i: int) -> bool {
    spec_mip_size(bytes, i) > 0 && spec_mip_offset(bytes, i) + spec_mip_size(bytes, i)
        <= bytes.len()
}

/// Slot `i` declares a payload that reaches past the end of `bytes`.
pub open spec fn spec_mip_truncated(bytes: Seq<u8>, i: int) -> bool {
    spec_mip_size(bytes, i) > 0 && spec_mip_offset(bytes, i) + spec_mip_size(bytes, i)
        > bytes.len()
}

/// The payload of slot `i`.
pub open spec fn spec_mip_payload(bytes: Seq<u8>, i: int) -> Seq<u8> {
    bytes.subrange(
        spec_mip_offset(bytes, i) as int,
        spec_mip_offset(bytes, i) + spec_mip_size(bytes, i),
    )
}

/// The byte ranges that a container claims: first the header with the shared
/// JPEG header, then one range for each slot, empty for a slot that is absent
/// or reaches past the end.
pub open spec fn spec_file_spans(bytes: Seq<u8>) -> Seq<Span> {
    Seq::new(
        17,
        |k: int|
            if k == 0 {
                Span { start: 0, end: (JPEG_HEADER_OFFSET + spec_shared_len(bytes)) as usize }
            } else if spec_mip_usable(bytes, k - 1) {
                Span {
                    start: spec_mip_offset(bytes, k - 1) as usize,
                    end: (spec_mip_offset(bytes, k - 1) + spec_mip_size(bytes, k - 1)) as usize,
                }
            } else {
                Span { start: 0, end: 0 }
            },
    )
}

/// Number of bytes of `bytes` that lie in the header, in the shared JPEG
/// header or in the payload of a level. A byte that several ranges claim
/// counts once.
pub open spec fn spec_covered_bytes(bytes: Seq<u8>) -> nat {
    spec_count_in(spec_file_spans(bytes), bytes.len())
}

impl MipEntry {
    /// The entry holds pixels only for a declared payload, and then four
    /// bytes for each pixel and no diagnostic.
    pub open spec fn wf(&self) -> bool {
        self.image matches Some(px) ==> self.length > 0 && px@.len() == 4 * self.width
            * self.height && self.diagnostic is None
    }
}

impl BlpImage {
    /// Sixteen entries in slot order, each with the dimensions of its level,
    /// below a level 0 of positive size.
    pub open spec fn wf(&self) -> bool {
        &&& self.width > 0
        &&& self.height > 0
        &&& self.mipmaps@.len() == MAX_MIPS
        &&& forall|i: int|
            0 <= i < MAX_MIPS ==> {
                &&& (#[trigger] self.mipmaps@[i]).index == i
                &&& (self.mipmaps@[i].width, self.mipmaps@[i].height) == spec_mip_dims(
                    self.width,
                    self.height,
                    i as nat,
                )
                &&& self.mipmaps@[i].wf()
            }
    }

    /// The metadata is what `bytes` holds, and `holes` counts the bytes of
    /// `bytes` that nothing claims.
    pub open spec fn spec_describes(&self, bytes: Seq<u8>) -> bool {
        &&& self.wf()
        &&& self.version == Version::Blp1
        &&& self.texture_type == TextureType::Jpeg
        &&& self.compression == spec_u32_le(bytes, 4)
        &&& self.alpha_bits == spec_u32_le(bytes, 8)
        &&& self.width == spec_u32_le(bytes, 12)
        &&& self.height == spec_u32_le(bytes, 16)
        &&& self.alpha_type == spec_u32_le(bytes, 20)
        &&& self.has_mips == spec_u32_le(bytes, 24)
        &&& self.jpeg_header_size == spec_shared_len(bytes)
        &&& forall|i: int|
            0 <= i < MAX_MIPS ==> (#[trigger] self.mipmaps@[i]).offset == spec_mip_offset(bytes, i)
                && self.mipmaps@[i].length == spec_mip_size(bytes, i)
        &&& self.holes + spec_covered_bytes(bytes) == bytes.len()
    }

    /// `h` holds the metadata of the texture, field for field and slot for
    /// slot.
    pub open spec fn spec_has_header(&self, h: Blp1Header) -> bool {
        &&& h.compression == self.compression
        &&& h.alpha_bits == self.alpha_bits
        &&& h.width == self.width
        &&& h.height == self.height
        &&& h.alpha_type == self.alpha_type
        &&& h.has_mips == self.has_mips
        &&& h.jpeg_header_size == self.jpeg_header_size
        &&& forall|i: int|
            0 <= i < MAX_MIPS ==> #[trigger] h.mip_offsets[i] == self.mipmaps@[i].offset
        &&& forall|i: int|
            0 <= i < MAX_MIPS ==> #[trigger] h.mip_sizes[i] == self.mipmaps@[i].length
    }

    /// The container header of the texture, every field as it was read, for
    /// writing the texture out again.
    pub fn header(&self) -> (h: Blp1Header)
        requires
            self.mipmaps@.len() == MAX_MIPS,
        ensures
            self.spec_has_header(h),
    {
        let mut mip_offsets: [u32; 16] = [0u32; 16];
        let mut mip_sizes: [u32; 16] = [0u32; 16];
        let mut i: usize = 0;
        while i < MAX_MIPS
            invariant
                i <= MAX_MIPS,
                self.mipmaps@.len() == MAX_MIPS,
                forall|j: int| 0 <= j < i ==> #[trigger] mip_offsets[j] == self.mipmaps@[j].offset,
                forall|j: int| 0 <= j < i ==> #[trigger] mip_sizes[j] == self.mipmaps@[j].length,
            decreases MAX_MIPS - i,
        {
            mip_offsets[i] = self.mipmaps[i].offset;
            mip_sizes[i] = self.mipmaps[i].length;
            i = i + 1;
        }
        Blp1Header {
            compression: self.compression,
            alpha_bits: self.alpha_bits,
            width: self.width,
            height: self.height,
            alpha_type: self.alpha_type,
            has_mips: self.has_mips,
            mip_offsets,
            mip_sizes,
            jpeg_header_size: self.jpeg_header_size,
        }
    }

    /// Number of levels that the tables declare.
    pub open spec fn spec_mip_count(&self) -> nat {
        spec_present_count(self.mipmaps@, self.mipmaps@.len())
    }

    /// Number of levels that the tables declare.
    pub fn mip_count(&self) -> (n: usize)
        ensures
            n == self.spec_mip_count(),
            n <= self.mipmaps@.len(),
    {
        let mut n: usize = 0;
        let mut i: usize = 0;
        while i < self.mipmaps.len()
            invariant
                i <= self.mipmaps@.len(),
                n <= i,
                n == spec_present_count(self.mipmaps@, i as nat),
            decreases self.mipmaps@.len() - i,
        {
            if self.mipmaps[i].length > 0 {
                n = n + 1;
            }
            i = i + 1;
        }
        n
    }
}

/// Number of entries among the first `n` that declare a payload.
pub open spec fn spec_present_count(mips: Seq<MipEntry>, n: nat) -> nat
    decreases n,
{
    if n == 0 {
        0
    } else {
        spec_present_count(mips, (n - 1) as nat) + if mips[n - 1].length > 0 {
            1nat
        } else {
            0nat
        }
    }
}

/// The byte ranges that the header `h` claims in a buffer of `len` bytes.
pub fn file_spans(h: &Blp1Header, len: usize) -> (spans: Vec<Span>)
    requires
        JPEG_HEADER_OFFSET + h.jpeg_header_size <= len,
    ensures
        spans@.len() == 17,
        spans@[0] == (Span { start: 0, end: (JPEG_HEADER_OFFSET + h.jpeg_header_size) as usize }),
        forall|i: int|
            0 <= i < 16 ==> #[trigger] spans@[i + 1] == if h.mip_sizes[i] > 0 && h.mip_offsets[i]
                + h.mip_sizes[i] <= len {
                Span {
                    start: h.mip_offsets[i] as usize,
                    end: (h.mip_offsets[i] + h.mip_sizes[i]) as usize,
                }
            } else {
                Span { start: 0, end: 0 }
            },
{
    let mut spans: Vec<Span> = Vec::new();
    spans.push(Span { start: 0, end: JPEG_HEADER_OFFSET + h.jpeg_header_size as usize });
    let mut i: usize = 0;
    while i < 16
        invariant
            i <= 16,
            spans@.len() == i + 1,
            spans@[0] == (Span {
                start: 0,
                end: (JPEG_HEADER_OFFSET + h.jpeg_header_size) as usize,
            }),
            forall|j: int|
                0 <= j < i ==> #[trigger] spans@[j + 1] == if h.mip_sizes[j] > 0
                    && h.mip_offsets[j] + h.mip_sizes[j] <= len {
                    Span {
                        start: h.mip_offsets[j] as usize,
                        end: (h.mip_offsets[j] + h.mip_sizes[j]) as usize,
                    }
                } else {
                    Span { start: 0, end: 0 }
                },
        decreases 16 - i,
    {
        let off: u64 = h.mip_offsets[i] as u64;
        let size: u64 = h.mip_sizes[i] as u64;
        if size > 0 && off + size <= len as u64 {
            spans.push(Span { start: off as usize, end: (off + size) as usize });
        } else {
            spans.push(Span { start: 0, end: 0 });
        }
        i = i + 1;
    }
    spans
}

/// The header of a texture that was read from `bytes` is the header that
/// `bytes` holds: written out again with the shared JPEG header, it gives
/// the first bytes of the file back, up to the end of that header.
pub proof fn lemma_header_survives(img: BlpImage, h: Blp1Header, bytes: Seq<u8>)
    requires
        crate::header::spec_header_error(bytes) is None,
        img.spec_describes(bytes),
        img.spec_has_header(h),
    ensures
        crate::header::spec_reads_as(bytes, h),
        crate::header::spec_reads_as(h.spec_serialize(spec_shared_header(bytes)), h),
        crate::header::spec_header_error(h.spec_serialize(spec_shared_header(bytes))) is None,
{
    crate::header::lemma_good_header(bytes);
    crate::header::lemma_serialize_parses(h, spec_shared_header(bytes), Seq::<u8>::empty());
    assert(h.spec_serialize(spec_shared_header(bytes)) + Seq::<u8>::empty()
        =~= h.spec_serialize(spec_shared_header(bytes)));
}

} // verus!
