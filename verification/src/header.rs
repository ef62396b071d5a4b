//! The fixed header of a BLP1 container: magic, compression, dimensions,
//! alpha metadata, the two mip tables and the size of the shared JPEG header.
//!
//! Layout, little-endian but for the magic: magic at 0, compression at 4,
//! alpha bits at 8, width at 12, height at 16, alpha type at 20, the mip flag
//! at 24, sixteen offsets from 28, sixteen sizes from 92, the size of the
//! shared JPEG header at 156 and its bytes from 160.
use crate::cursor::{
    spec_u32_be, spec_u32_be_bytes, spec_u32_le, spec_u32_le_bytes, ByteReader, ByteWriter,
};
use crate::error::BlpError;
use vstd::prelude::*;

verus! {

/// The four magic bytes `BLP1`, read big-endian.
pub const BLP1_MAGIC: u32 = 0x424C5031;

/// Offset of the field that holds the size of the shared JPEG header.
pub const JPEG_SIZE_OFFSET: usize = 156;

/// Offset of the first byte of the shared JPEG header.
pub const JPEG_HEADER_OFFSET: usize = 160;

/// The fixed header of a container whose content is stored as JPEG.
#[derive(Clone, Copy, Debug)]
pub struct Blp1Header {
    pub compression: u32,
    pub alpha_bits: u32,
    pub width: u32,
    pub height: u32,
    pub alpha_type: u32,
    pub has_mips: u32,
    pub mip_offsets: [u32; 16],
    pub mip_sizes: [u32; 16],
    pub jpeg_header_size: u32,
}

/// Why `bytes` cannot be read as a JPEG container header, if anything.
pub open spec fn spec_header_error(bytes: Seq<u8>) -> Option<BlpError> {
    if bytes.len() < 4 || spec_u32_be(bytes, 0) != BLP1_MAGIC {
        Some(BlpError::InvalidHeader)
    } else if bytes.len() < JPEG_HEADER_OFFSET {
        Some(BlpError::InvalidHeader)
    } else if spec_u32_le(bytes, 12) == 0 || spec_u32_le(bytes, 16) == 0 {
        Some(BlpError::InvalidHeader)
    } else if spec_u32_le(bytes, 4) != 0 {
        Some(BlpError::UnsupportedCompression)
    } else if JPEG_HEADER_OFFSET + spec_u32_le(bytes, 156) > bytes.len() {
        Some(BlpError::Truncated)
    } else {
        None
    }
}

/// A file whose header is good declares positive dimensions and JPEG
/// content, and holds its shared JPEG header whole.
pub proof fn lemma_good_header(bytes: Seq<u8>)
    requires
        spec_header_error(bytes) is None,
    ensures
        spec_u32_be(bytes, 0) == BLP1_MAGIC,
        spec_u32_le(bytes, 4) == 0,
        spec_u32_le(bytes, 12) > 0,
        spec_u32_le(bytes, 16) > 0,
        JPEG_HEADER_OFFSET + spec_u32_le(bytes, 156) <= bytes.len(),
{
}

/// Every field of `h` is what `bytes` holds at the field's place.
pub open spec fn spec_reads_as(bytes: Seq<u8>, h: Blp1Header) -> bool {
    &&& h.compression == spec_u32_le(bytes, 4)
    &&& h.alpha_bits == spec_u32_le(bytes, 8)
    &&& h.width == spec_u32_le(bytes, 12)
    &&& h.height == spec_u32_le(bytes, 16)
    &&& h.alpha_type == spec_u32_le(bytes, 20)
    &&& h.has_mips == spec_u32_le(bytes, 24)
    &&& forall|i: int| 0 <= i < 16 ==> #[trigger] h.mip_offsets[i] == spec_u32_le(bytes, 28 + 4 * i)
    &&& forall|i: int| 0 <= i < 16 ==> #[trigger] h.mip_sizes[i] == spec_u32_le(bytes, 92 + 4 * i)
    &&& h.jpeg_header_size == spec_u32_le(bytes, 156)
}

/// The little-endian bytes of a run of 32-bit words.
pub open spec fn spec_words_le(words: Seq<u32>) -> Seq<u8> {
    Seq::new(4 * words.len(), |k: int| spec_u32_le_bytes(words[k / 4])[k % 4])
}

/// Appending a word appends its four bytes.
pub proof fn lemma_words_le_push(words: Seq<u32>, x: u32)
    ensures
        spec_words_le(words.push(x)) == spec_words_le(words) + spec_u32_le_bytes(x),
{
    assert(spec_words_le(words.push(x)) =~= spec_words_le(words) + spec_u32_le_bytes(x));
}

/// Word `j` of a run can be read back at byte `4 * j` behind any prefix.
pub proof fn lemma_words_le_read(before: Seq<u8>, words: Seq<u32>, after: Seq<u8>, j: int)
    requires
        0 <= j < words.len(),
    ensures
        spec_u32_le(before + spec_words_le(words) + after, before.len() + 4 * j) == words[j],
{
    let s = before + spec_words_le(words) + after;
    let b = before.len() as int;
    let w = spec_words_le(words);
    assert(s[b + 4 * j] == w[4 * j]);
    assert(s[b + 4 * j + 1] == w[4 * j + 1]);
    assert(s[b + 4 * j + 2] == w[4 * j + 2]);
    assert(s[b + 4 * j + 3] == w[4 * j + 3]);
}

impl Blp1Header {
    /// The 39 little-endian words that follow the magic, in file order.
    pub open spec fn spec_words(&self) -> Seq<u32> {
        seq![
            self.compression,
            self.alpha_bits,
            self.width,
            self.height,
            self.alpha_type,
            self.has_mips,
        ] + self.mip_offsets@ + self.mip_sizes@ + seq![self.jpeg_header_size]
    }

    /// The serialized header followed by the shared JPEG header.
    pub open spec fn spec_serialize(&self, shared: Seq<u8>) -> Seq<u8> {
        spec_u32_be_bytes(BLP1_MAGIC) + spec_words_le(self.spec_words()) + shared
    }

    /// Whether the mip tables are consistent for a file of `len` bytes: all
    /// declared payloads lie behind the shared JPEG header and inside the
    /// file, and no two overlap.
    pub fn tables_consistent(&self, len: usize) -> (r: bool)
        ensures
            r == crate::mip::spec_table_consistent(
                self.mip_offsets@,
                self.mip_sizes@,
                JPEG_HEADER_OFFSET + self.jpeg_header_size,
                len as int,
            ),
    {
        let start: u64 = JPEG_HEADER_OFFSET as u64 + self.jpeg_header_size as u64;
        crate::mip::table_consistent(&self.mip_offsets, &self.mip_sizes, start, len as u64)
    }

    /// Reads the header at the start of `bytes`.
    ///
    /// Fails with `InvalidHeader` on a wrong magic, fewer than 160 bytes or a
    /// zero dimension, with `UnsupportedCompression` when the content is not
    /// JPEG, and with `Truncated` when the shared JPEG header would reach past
    /// the end of `bytes`.
    #[verifier::rlimit(40)]
    pub fn parse(bytes: &[u8]) -> (r: Result<Blp1Header, BlpError>)
        ensures
            match spec_header_error(bytes@) {
                Some(e) => r == Err::<Blp1Header, BlpError>(e),
                None => r is Ok && spec_reads_as(bytes@, r->Ok_0),
            },
    {
        let mut rd = ByteReader::new(bytes);
        let magic = match rd.read_u32_be() {
            Ok(v) => v,
            Err(_) => { return Err(BlpError::InvalidHeader); },
        };
        if magic != BLP1_MAGIC || bytes.len() < JPEG_HEADER_OFFSET {
            return Err(BlpError::InvalidHeader);
        }
        let mut fixed: [u32; 6] = [0u32; 6];
        let mut k: usize = 0;
        while k < 6
            invariant
                k <= 6,
                rd.wf(),
                rd.bytes() == bytes@,
                rd.spec_position() == 4 + 4 * k,
                bytes@.len() >= JPEG_HEADER_OFFSET,
                forall|j: int| 0 <= j < k ==> fixed[j] == spec_u32_le(bytes@, 4 + 4 * j),
            decreases 6 - k,
        {
            match rd.read_u32_le() {
                Ok(v) => { fixed[k] = v; },
                Err(_) => { return Err(BlpError::InvalidHeader); },
            }
            k = k + 1;
        }
        let mut mip_offsets: [u32; 16] = [0u32; 16];
        let mut i: usize = 0;
        while i < 16
            invariant
                i <= 16,
                rd.wf(),
                rd.bytes() == bytes@,
                rd.spec_position() == 28 + 4 * i,
                bytes@.len() >= JPEG_HEADER_OFFSET,
                forall|j: int| 0 <= j < i ==> mip_offsets[j] == spec_u32_le(bytes@, 28 + 4 * j),
            decreases 16 - i,
        {
            match rd.read_u32_le() {
                Ok(v) => { mip_offsets[i] = v; },
                Err(_) => { return Err(BlpError::InvalidHeader); },
            }
            i = i + 1;
        }
        let mut mip_sizes: [u32; 16] = [0u32; 16];
        let mut i: usize = 0;
        while i < 16
            invariant
                i <= 16,
                rd.wf(),
                rd.bytes() == bytes@,
                rd.spec_position() == 92 + 4 * i,
                bytes@.len() >= JPEG_HEADER_OFFSET,
                forall|j: int| 0 <= j < i ==> mip_sizes[j] == spec_u32_le(bytes@, 92 + 4 * j),
            decreases 16 - i,
        {
            match rd.read_u32_le() {
                Ok(v) => { mip_sizes[i] = v; },
                Err(_) => { return Err(BlpError::InvalidHeader); },
            }
            i = i + 1;
        }
        let jpeg_header_size = match rd.read_u32_le() {
            Ok(v) => v,
            Err(_) => { return Err(BlpError::InvalidHeader); },
        };
        let h = Blp1Header {
            compression: fixed[0],
            alpha_bits: fixed[1],
            width: fixed[2],
            height: fixed[3],
            alpha_type: fixed[4],
            has_mips: fixed[5],
            mip_offsets,
            mip_sizes,
            jpeg_header_size,
        };
        if h.width == 0 || h.height == 0 {
            return Err(BlpError::InvalidHeader);
        }
        if h.compression != 0 {
            return Err(BlpError::UnsupportedCompression);
        }
        if jpeg_header_size as usize > bytes.len() - JPEG_HEADER_OFFSET {
            return Err(BlpError::Truncated);
        }
        Ok(h)
    }

    /// Writes the header, every field and table entry as it stands, and the
    /// shared JPEG header behind it. The scan payloads are for the caller to
    /// append at the offsets that the tables declare.
    #[verifier::rlimit(40)]
    pub fn serialize(&self, shared: &[u8]) -> (out: Vec<u8>)
        ensures
            out@ == self.spec_serialize(shared@),
    {
        let mut w = ByteWriter::new();
        w.write_u32_be(BLP1_MAGIC);
        let ghost magic = spec_u32_be_bytes(BLP1_MAGIC);
        let ghost six = seq![
            self.compression,
            self.alpha_bits,
            self.width,
            self.height,
            self.alpha_type,
            self.has_mips,
        ];
        proof {
            assert(spec_words_le(Seq::<u32>::empty()) =~= Seq::<u8>::empty());
            assert(w.bytes() =~= magic + spec_words_le(Seq::<u32>::empty()));
        }
        w.write_u32_le(self.compression);
        proof {
            lemma_words_le_push(Seq::<u32>::empty(), self.compression);
            assert(w.bytes() =~= magic + spec_words_le(six.subrange(0, 1)));
        }
        w.write_u32_le(self.alpha_bits);
        proof {
            lemma_words_le_push(six.subrange(0, 1), self.alpha_bits);
            assert(six.subrange(0, 1).push(self.alpha_bits) =~= six.subrange(0, 2));
            assert(w.bytes() =~= magic + spec_words_le(six.subrange(0, 2)));
        }
        w.write_u32_le(self.width);
        proof {
            lemma_words_le_push(six.subrange(0, 2), self.width);
            assert(six.subrange(0, 2).push(self.width) =~= six.subrange(0, 3));
            assert(w.bytes() =~= magic + spec_words_le(six.subrange(0, 3)));
        }
        w.write_u32_le(self.height);
        proof {
            lemma_words_le_push(six.subrange(0, 3), self.height);
            assert(six.subrange(0, 3).push(self.height) =~= six.subrange(0, 4));
            assert(w.bytes() =~= magic + spec_words_le(six.subrange(0, 4)));
        }
        w.write_u32_le(self.alpha_type);
        proof {
            lemma_words_le_push(six.subrange(0, 4), self.alpha_type);
            assert(six.subrange(0, 4).push(self.alpha_type) =~= six.subrange(0, 5));
            assert(w.bytes() =~= magic + spec_words_le(six.subrange(0, 5)));
        }
        w.write_u32_le(self.has_mips);
        proof {
            lemma_words_le_push(six.subrange(0, 5), self.has_mips);
            assert(six.subrange(0, 5).push(self.has_mips) =~= six);
            assert(w.bytes() =~= magic + spec_words_le(six));
        }
        let mut i: usize = 0;
        while i < 16
            invariant
                i <= 16,
                w.bytes() == magic + spec_words_le(six + self.mip_offsets@.subrange(0, i as int)),
            decreases 16 - i,
        {
            let ghost done = six + self.mip_offsets@.subrange(0, i as int);
            w.write_u32_le(self.mip_offsets[i]);
            proof {
                lemma_words_le_push(done, self.mip_offsets[i as int]);
                assert(done.push(self.mip_offsets[i as int]) =~= six
                    + self.mip_offsets@.subrange(0, i + 1));
                assert(w.bytes() =~= magic + spec_words_le(
                    six + self.mip_offsets@.subrange(0, i + 1),
                ));
            }
            i = i + 1;
        }
        assert(self.mip_offsets@.subrange(0, 16) =~= self.mip_offsets@);
        let ghost head = six + self.mip_offsets@;
        let mut i: usize = 0;
        while i < 16
            invariant
                i <= 16,
                w.bytes() == magic + spec_words_le(head + self.mip_sizes@.subrange(0, i as int)),
            decreases 16 - i,
        {
            let ghost done = head + self.mip_sizes@.subrange(0, i as int);
            w.write_u32_le(self.mip_sizes[i]);
            proof {
                lemma_words_le_push(done, self.mip_sizes[i as int]);
                assert(done.push(self.mip_sizes[i as int]) =~= head + self.mip_sizes@.subrange(
                    0,
                    i + 1,
                ));
                assert(w.bytes() =~= magic + spec_words_le(
                    head + self.mip_sizes@.subrange(0, i + 1),
                ));
            }
            i = i + 1;
        }
        assert(self.mip_sizes@.subrange(0, 16) =~= self.mip_sizes@);
        w.write_u32_le(self.jpeg_header_size);
        proof {
            lemma_words_le_push(head + self.mip_sizes@, self.jpeg_header_size);
            assert((head + self.mip_sizes@).push(self.jpeg_header_size) =~= self.spec_words());
            assert(w.bytes() =~= magic + spec_words_le(self.spec_words()));
        }
        w.write_bytes(shared);
        w.into_bytes()
    }
}

/// Where each field stands among the words of a header.
pub proof fn lemma_words_index(h: Blp1Header)
    ensures
        h.spec_words().len() == 39,
        h.spec_words()[0] == h.compression,
        h.spec_words()[1] == h.alpha_bits,
        h.spec_words()[2] == h.width,
        h.spec_words()[3] == h.height,
        h.spec_words()[4] == h.alpha_type,
        h.spec_words()[5] == h.has_mips,
        forall|i: int| 0 <= i < 16 ==> #[trigger] h.spec_words()[6 + i] == h.mip_offsets[i],
        forall|i: int| 0 <= i < 16 ==> #[trigger] h.spec_words()[22 + i] == h.mip_sizes[i],
        h.spec_words()[38] == h.jpeg_header_size,
{
}

/// Word `j` of a serialized header can be read back at byte `4 + 4 * j`.
pub proof fn lemma_serialized_word(h: Blp1Header, shared: Seq<u8>, tail: Seq<u8>, j: int)
    requires
        0 <= j < 39,
    ensures
        spec_u32_le(h.spec_serialize(shared) + tail, 4 + 4 * j) == h.spec_words()[j],
{
    let magic = spec_u32_be_bytes(BLP1_MAGIC);
    let words = h.spec_words();
    lemma_words_index(h);
    assert(h.spec_serialize(shared) + tail =~= magic + spec_words_le(words) + (shared + tail));
    lemma_words_le_read(magic, words, shared + tail, j);
}

/// A serialized header reads back as itself: with positive dimensions, JPEG
/// content and a size field that matches the shared header, the bytes parse
/// without error to the same fields, whatever payload follows them.
#[verifier::rlimit(40)]
pub proof fn lemma_serialize_parses(h: Blp1Header, shared: Seq<u8>, tail: Seq<u8>)
    requires
        h.width > 0,
        h.height > 0,
        h.compression == 0,
        h.jpeg_header_size == shared.len(),
    ensures
        spec_header_error(h.spec_serialize(shared) + tail) is None,
        spec_reads_as(h.spec_serialize(shared) + tail, h),
        h.spec_serialize(shared).len() == JPEG_HEADER_OFFSET + shared.len(),
        (h.spec_serialize(shared) + tail).subrange(
            JPEG_HEADER_OFFSET as int,
            JPEG_HEADER_OFFSET + shared.len(),
        ) == shared,
{
    let magic = spec_u32_be_bytes(BLP1_MAGIC);
    let words = h.spec_words();
    let s = h.spec_serialize(shared) + tail;
    lemma_words_index(h);
    assert(h.spec_serialize(shared).len() == 160 + shared.len());
    assert(spec_u32_be(s, 0) == BLP1_MAGIC) by {
        crate::cursor::lemma_u32_be_round_trip(
            BLP1_MAGIC,
            Seq::<u8>::empty(),
            spec_words_le(words) + (shared + tail),
        );
        assert(s =~= Seq::<u8>::empty() + magic + (spec_words_le(words) + (shared + tail)));
    }
    lemma_serialized_word(h, shared, tail, 0);
    lemma_serialized_word(h, shared, tail, 1);
    lemma_serialized_word(h, shared, tail, 2);
    lemma_serialized_word(h, shared, tail, 3);
    lemma_serialized_word(h, shared, tail, 4);
    lemma_serialized_word(h, shared, tail, 5);
    lemma_serialized_word(h, shared, tail, 38);
    assert forall|i: int| 0 <= i < 16 implies #[trigger] h.mip_offsets[i] == spec_u32_le(
        s,
        28 + 4 * i,
    ) by {
        lemma_serialized_word(h, shared, tail, 6 + i);
        assert(h.spec_words()[6 + i] == h.mip_offsets[i]);
    }
    assert forall|i: int| 0 <= i < 16 implies #[trigger] h.mip_sizes[i] == spec_u32_le(
        s,
        92 + 4 * i,
    ) by {
        lemma_serialized_word(h, shared, tail, 22 + i);
        assert(h.spec_words()[22 + i] == h.mip_sizes[i]);
    }
    assert(s.subrange(JPEG_HEADER_OFFSET as int, JPEG_HEADER_OFFSET + shared.len()) =~= shared);
}

} // verus!
