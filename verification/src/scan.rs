//! Walking a JPEG marker stream from its start to the first entropy-coded byte.
//!
//! The walk records where the frame header keeps the image height and width,
//! which quantization and Huffman tables were defined on the way, and where
//! the scan header ends.
use crate::cursor::spec_u16_be;
use crate::error::ScanError;
use vstd::prelude::*;

verus! {

/// Temporary private use in arithmetic coding; stands alone.
pub const MARKER_TEM: u8 = 0x01;

/// Start of frame, baseline.
pub const MARKER_SOF0: u8 = 0xC0;

/// Start of frame, progressive.
pub const MARKER_SOF2: u8 = 0xC2;

/// Define Huffman tables.
pub const MARKER_DHT: u8 = 0xC4;

/// First of the eight restart markers; they stand alone.
pub const MARKER_RST0: u8 = 0xD0;

/// Last of the eight restart markers.
pub const MARKER_RST7: u8 = 0xD7;

/// Start of image; stands alone.
pub const MARKER_SOI: u8 = 0xD8;

/// End of image; stands alone.
pub const MARKER_EOI: u8 = 0xD9;

/// Start of scan.
pub const MARKER_SOS: u8 = 0xDA;

/// Define quantization tables.
pub const MARKER_DQT: u8 = 0xDB;

/// What the walk over a marker stream found.
///
/// `sof_marker` is zero while no frame header was seen; the other `sof_`
/// fields are then zero too.
#[derive(Clone, Copy, Debug, PartialEq, Eq, Structural)]
pub struct JpegHeaderInfo {
    /// Offset of the first entropy-coded byte, just past the scan header.
    pub header_end: usize,
    /// Offset of the `FF` byte of the last frame header before the scan.
    pub sof_pos: usize,
    /// Marker code of that frame header: `C0` or `C2`.
    pub sof_marker: u8,
    /// Offset of the two big-endian bytes of the image height.
    pub sof_h_offset: usize,
    /// Offset of the two big-endian bytes of the image width.
    pub sof_w_offset: usize,
    /// Image height as the frame header declares it.
    pub sof_h: u16,
    /// Image width as the frame header declares it.
    pub sof_w: u16,
    /// Bit `t` is set when a quantization table with identifier `t` was defined.
    pub quant_table_ids: u16,
    /// Bit `16 * c + t` is set when a Huffman table of class `c` (0 for DC,
    /// 1 for AC) with identifier `t` was defined.
    pub huffman_table_ids: u32,
}

/// The record of a walk that has seen nothing yet.
pub open spec fn spec_empty_info() -> JpegHeaderInfo {
    JpegHeaderInfo {
        header_end: 0,
        sof_pos: 0,
        sof_marker: 0,
        sof_h_offset: 0,
        sof_w_offset: 0,
        sof_h: 0,
        sof_w: 0,
        quant_table_ids: 0,
        huffman_table_ids: 0,
    }
}

/// Markers that stand alone, with no length field behind them.
pub open spec fn spec_is_standalone(marker: u8) -> bool {
    marker == MARKER_SOI || marker == MARKER_TEM || (MARKER_RST0 <= marker && marker
        <= MARKER_RST7)
}

/// First position at or after `i` that holds no `FF` fill byte, or the length
/// of the buffer when only fill bytes follow.
pub open spec fn spec_skip_fill(buf: Seq<u8>, i: int) -> int
    decreases buf.len() - i,
{
    if 0 <= i < buf.len() && buf[i] == 0xFF {
        spec_skip_fill(buf, i + 1)
    } else {
        i
    }
}

/// Skipping fill bytes never moves backwards nor past the end, and stops on a
/// byte that is no fill byte.
pub proof fn lemma_skip_fill_bounds(buf: Seq<u8>, i: int)
    requires
        0 <= i <= buf.len(),
    ensures
        i <= spec_skip_fill(buf, i) <= buf.len(),
        spec_skip_fill(buf, i) < buf.len() ==> buf[spec_skip_fill(buf, i)] != 0xFF,
        forall|j: int| i <= j < spec_skip_fill(buf, i) ==> buf[j] == 0xFF,
    decreases buf.len() - i,
{
    if i < buf.len() && buf[i] == 0xFF {
        lemma_skip_fill_bounds(buf, i + 1);
    }
}

/// Byte length of the quantization table that starts at `p`: one byte of
/// precision and identifier, then 64 entries of one or two bytes.
pub open spec fn spec_dqt_entry_len(buf: Seq<u8>, p: int) -> int {
    if buf[p] / 16 == 0 {
        65
    } else {
        129
    }
}

/// The identifiers of the quantization tables that lie whole in `[p, end)`,
/// added to `mask`.
pub open spec fn spec_dqt_ids(buf: Seq<u8>, p: int, end: int, mask: u16) -> u16
    decreases end - p,
{
    if p < 0 || p >= end || p + spec_dqt_entry_len(buf, p) > end {
        mask
    } else {
        spec_dqt_ids(
            buf,
            p + spec_dqt_entry_len(buf, p),
            end,
            mask | (1u16 << ((buf[p] % 16) as u16)),
        )
    }
}

/// Sum of the `n` bytes that start at `p`.
pub open spec fn spec_byte_sum(buf: Seq<u8>, p: int, n: nat) -> int
    decreases n,
{
    if n == 0 {
        0
    } else {
        spec_byte_sum(buf, p, (n - 1) as nat) + buf[p + n - 1] as int
    }
}

/// A sum of bytes is never negative.
pub proof fn lemma_byte_sum_nonneg(buf: Seq<u8>, p: int, n: nat)
    ensures
        0 <= spec_byte_sum(buf, p, n) <= 255 * n,
    decreases n,
{
    if n > 0 {
        lemma_byte_sum_nonneg(buf, p, (n - 1) as nat);
    }
}

/// Byte length of the Huffman table that starts at `p`: one byte of class and
/// identifier, sixteen code counts, then one value per code.
pub open spec fn spec_dht_entry_len(buf: Seq<u8>, p: int) -> int {
    17 + spec_byte_sum(buf, p + 1, 16)
}

/// Bit index under which a Huffman table is recorded.
pub open spec fn spec_dht_bit(b: u8) -> u32 {
    (((b / 16) % 2) * 16 + b % 16) as u32
}

/// The classes and identifiers of the Huffman tables that lie whole in
/// `[p, end)`, added to `mask`.
pub open spec fn spec_dht_ids(buf: Seq<u8>, p: int, end: int, mask: u32) -> u32
    decreases end - p,
{
    if p < 0 || p + 17 > end || p + spec_dht_entry_len(buf, p) > end {
        mask
    } else {
        proof {
            lemma_byte_sum_nonneg(buf, p + 1, 16);
        }
        spec_dht_ids(
            buf,
            p + spec_dht_entry_len(buf, p),
            end,
            mask | (1u32 << spec_dht_bit(buf[p])),
        )
    }
}

/// The record `st` after a frame header with marker `marker` whose length
/// field stands at `p`.
pub open spec fn spec_with_sof(st: JpegHeaderInfo, buf: Seq<u8>, marker: u8, p: int) -> JpegHeaderInfo {
    JpegHeaderInfo {
        sof_pos: (p - 2) as usize,
        sof_marker: marker,
        sof_h_offset: (p + 3) as usize,
        sof_w_offset: (p + 5) as usize,
        sof_h: spec_u16_be(buf, p + 3),
        sof_w: spec_u16_be(buf, p + 5),
        ..st
    }
}

/// The walk from position `i`, where a marker is expected, with `st` holding
/// what was seen before `i`.
pub open spec fn spec_scan_from(buf: Seq<u8>, i: int, st: JpegHeaderInfo) -> Result<
    JpegHeaderInfo,
    ScanError,
>
    decreases buf.len() - i,
{
    if i < 0 || i + 1 >= buf.len() {
        Err(ScanError::Truncated)
    } else if buf[i] != 0xFF {
        Err(ScanError::UnsupportedMarker)
    } else {
        let m = spec_skip_fill(buf, i + 1);
        proof {
            lemma_skip_fill_bounds(buf, i + 1);
        }
        if m >= buf.len() {
            Err(ScanError::Truncated)
        } else {
            let marker = buf[m];
            let p = m + 1;
            if spec_is_standalone(marker) {
                spec_scan_from(buf, p, st)
            } else if marker == MARKER_EOI {
                Err(ScanError::UnsupportedMarker)
            } else if p + 2 > buf.len() {
                Err(ScanError::Truncated)
            } else {
                let l = spec_u16_be(buf, p) as int;
                if l < 2 {
                    Err(ScanError::InvalidSegmentLength)
                } else if p + l > buf.len() {
                    Err(ScanError::Truncated)
                } else if marker == MARKER_SOS {
                    Ok(JpegHeaderInfo { header_end: (p + l) as usize, ..st })
                } else if marker == MARKER_SOF0 || marker == MARKER_SOF2 {
                    if l < 8 {
                        Err(ScanError::InvalidSegmentLength)
                    } else if buf[p + 2] != 8 {
                        Err(ScanError::UnsupportedPrecision)
                    } else {
                        spec_scan_from(buf, p + l, spec_with_sof(st, buf, marker, p))
                    }
                } else if marker == MARKER_DQT {
                    spec_scan_from(
                        buf,
                        p + l,
                        JpegHeaderInfo {
                            quant_table_ids: spec_dqt_ids(buf, p + 2, p + l, st.quant_table_ids),
                            ..st
                        },
                    )
                } else if marker == MARKER_DHT {
                    spec_scan_from(
                        buf,
                        p + l,
                        JpegHeaderInfo {
                            huffman_table_ids: spec_dht_ids(
                                buf,
                                p + 2,
                                p + l,
                                st.huffman_table_ids,
                            ),
                            ..st
                        },
                    )
                } else {
                    spec_scan_from(buf, p + l, st)
                }
            }
        }
    }
}

/// The walk over a whole stream: it must open with the start-of-image marker.
pub open spec fn spec_scan(buf: Seq<u8>) -> Result<JpegHeaderInfo, ScanError> {
    if buf.len() < 2 || buf[0] != 0xFF || buf[1] != MARKER_SOI {
        Err(ScanError::MissingSoi)
    } else {
        spec_scan_from(buf, 2, spec_empty_info())
    }
}

/// Skips the fill bytes that start at `i`.
pub fn skip_fill(buf: &[u8], i: usize) -> (m: usize)
    requires
        i <= buf@.len(),
    ensures
        m == spec_skip_fill(buf@, i as int),
        i <= m <= buf@.len(),
{
    let mut m: usize = i;
    while m < buf.len() && buf[m] == 0xFF
        invariant
            i <= m <= buf@.len(),
            spec_skip_fill(buf@, m as int) == spec_skip_fill(buf@, i as int),
        decreases buf@.len() - m,
    {
        m = m + 1;
    }
    m
}

/// Collects the identifiers of the quantization tables in `[p, end)`.
pub fn dqt_ids(buf: &[u8], p: usize, end: usize, mask: u16) -> (r: u16)
    requires
        p <= end <= buf@.len(),
    ensures
        r == spec_dqt_ids(buf@, p as int, end as int, mask),
{
    let mut q: usize = p;
    let mut acc: u16 = mask;
    while q < end
        invariant
            p <= q <= end <= buf@.len(),
            spec_dqt_ids(buf@, q as int, end as int, acc) == spec_dqt_ids(
                buf@,
                p as int,
                end as int,
                mask,
            ),
        decreases end - q,
    {
        let b: u8 = buf[q];
        let n: usize = if b / 16 == 0 { 65 } else { 129 };
        if n > end - q {
            return acc;
        }
        acc = acc | (1u16 << ((b % 16) as u16));
        q = q + n;
    }
    acc
}

/// Adds up the `n` bytes that start at `p`.
pub fn byte_sum(buf: &[u8], p: usize, n: usize) -> (r: usize)
    requires
        p + n <= buf@.len(),
        n <= 16,
    ensures
        r == spec_byte_sum(buf@, p as int, n as nat),
        r <= 255 * n,
{
    let len: usize = buf.len();
    let mut k: usize = 0;
    let mut acc: usize = 0;
    while k < n
        invariant
            k <= n <= 16,
            p + n <= len,
            len == buf@.len(),
            acc == spec_byte_sum(buf@, p as int, k as nat),
            acc <= 255 * k,
        decreases n - k,
    {
        acc = acc + buf[p + k] as usize;
        k = k + 1;
    }
    acc
}

/// Collects the classes and identifiers of the Huffman tables in `[p, end)`.
pub fn dht_ids(buf: &[u8], p: usize, end: usize, mask: u32) -> (r: u32)
    requires
        p <= end <= buf@.len(),
    ensures
        r == spec_dht_ids(buf@, p as int, end as int, mask),
{
    let mut q: usize = p;
    let mut acc: u32 = mask;
    while end - q >= 17
        invariant
            p <= q <= end <= buf@.len(),
            spec_dht_ids(buf@, q as int, end as int, acc) == spec_dht_ids(
                buf@,
                p as int,
                end as int,
                mask,
            ),
        decreases end - q,
    {
        let b: u8 = buf[q];
        let n: usize = 17 + byte_sum(buf, q + 1, 16);
        if n > end - q {
            return acc;
        }
        acc = acc | (1u32 << ((((b / 16) % 2) * 16 + b % 16) as u32));
        q = q + n;
    }
    acc
}

/// Walks the marker stream of `buf` up to the end of its first scan header.
///
/// Fill bytes between markers are passed over, stand-alone markers carry no
/// length, and every other segment is skipped by its declared length, so that
/// application and comment segments of any kind are let through. The last
/// baseline or progressive frame header before the scan is recorded.
pub fn parse_jpeg_header_info(buf: &[u8]) -> (r: Result<JpegHeaderInfo, ScanError>)
    ensures
        r == spec_scan(buf@),
{
    if buf.len() < 2 || buf[0] != 0xFF || buf[1] != MARKER_SOI {
        return Err(ScanError::MissingSoi);
    }
    let mut st = JpegHeaderInfo {
        header_end: 0,
        sof_pos: 0,
        sof_marker: 0,
        sof_h_offset: 0,
        sof_w_offset: 0,
        sof_h: 0,
        sof_w: 0,
        quant_table_ids: 0,
        huffman_table_ids: 0,
    };
    let mut i: usize = 2;
    loop
        invariant
            2 <= i <= buf@.len(),
            spec_scan(buf@) == spec_scan_from(buf@, i as int, st),
        decreases buf@.len() - i,
    {
        if buf.len() - i <= 1 {
            return Err(ScanError::Truncated);
        }
        if buf[i] != 0xFF {
            return Err(ScanError::UnsupportedMarker);
        }
        let m: usize = skip_fill(buf, i + 1);
        if m >= buf.len() {
            return Err(ScanError::Truncated);
        }
        let marker: u8 = buf[m];
        let p: usize = m + 1;
        if marker == MARKER_SOI || marker == MARKER_TEM || (MARKER_RST0 <= marker && marker
            <= MARKER_RST7) {
            i = p;
            continue ;
        }
        if marker == MARKER_EOI {
            return Err(ScanError::UnsupportedMarker);
        }
        if buf.len() - p < 2 {
            return Err(ScanError::Truncated);
        }
        let l: usize = (buf[p] as usize) * 256 + (buf[p + 1] as usize);
        if l < 2 {
            return Err(ScanError::InvalidSegmentLength);
        }
        if l > buf.len() - p {
            return Err(ScanError::Truncated);
        }
        if marker == MARKER_SOS {
            st.header_end = p + l;
            return Ok(st);
        }
        if marker == MARKER_SOF0 || marker == MARKER_SOF2 {
            if l < 8 {
                return Err(ScanError::InvalidSegmentLength);
            }
            if buf[p + 2] != 8 {
                return Err(ScanError::UnsupportedPrecision);
            }
            st.sof_pos = p - 2;
            st.sof_marker = marker;
            st.sof_h_offset = p + 3;
            st.sof_w_offset = p + 5;
            st.sof_h = (buf[p + 3] as u16) * 256 + (buf[p + 4] as u16);
            st.sof_w = (buf[p + 5] as u16) * 256 + (buf[p + 6] as u16);
        } else if marker == MARKER_DQT {
            st.quant_table_ids = dqt_ids(buf, p + 2, p + l, st.quant_table_ids);
        } else if marker == MARKER_DHT {
            st.huffman_table_ids = dht_ids(buf, p + 2, p + l, st.huffman_table_ids);
        }
        i = p + l;
    }
}

/// One marker of a stream with what belongs to it: the bytes of
/// `[start, end)` hold the `FF` byte, any fill bytes, the marker code and,
/// unless the marker stands alone, the length field and the payload.
#[derive(Clone, Copy, Debug, PartialEq, Eq, Structural)]
pub struct Segment {
    pub marker: u8,
    pub start: usize,
    pub end: usize,
}

/// The segments that a walk from `i` passes, up to and with the scan header.
/// The list ends early where the walk would fail.
pub open spec fn spec_segments_from(buf: Seq<u8>, i: int) -> Seq<Segment>
    decreases buf.len() - i,
{
    if i < 0 || i + 1 >= buf.len() || buf[i] != 0xFF {
        Seq::empty()
    } else {
        let m = spec_skip_fill(buf, i + 1);
        proof {
            lemma_skip_fill_bounds(buf, i + 1);
        }
        if m >= buf.len() {
            Seq::empty()
        } else {
            let marker = buf[m];
            let p = m + 1;
            if spec_is_standalone(marker) {
                seq![Segment { marker, start: i as usize, end: p as usize }] + spec_segments_from(
                    buf,
                    p,
                )
            } else if marker == MARKER_EOI || p + 2 > buf.len() {
                Seq::empty()
            } else {
                let l = spec_u16_be(buf, p) as int;
                if l < 2 || p + l > buf.len() {
                    Seq::empty()
                } else if marker == MARKER_SOS {
                    seq![Segment { marker, start: i as usize, end: (p + l) as usize }]
                } else if (marker == MARKER_SOF0 || marker == MARKER_SOF2) && (l < 8 || buf[p
                    + 2] != 8) {
                    Seq::empty()
                } else {
                    seq![Segment { marker, start: i as usize, end: (p + l) as usize }]
                        + spec_segments_from(buf, p + l)
                }
            }
        }
    }
}

/// The segments of a stream from its start-of-image marker up to and with
/// the scan header; empty where the stream does not start with that marker.
pub open spec fn spec_segments(buf: Seq<u8>) -> Seq<Segment> {
    if buf.len() < 2 || buf[0] != 0xFF || buf[1] != MARKER_SOI {
        Seq::empty()
    } else {
        seq![Segment { marker: MARKER_SOI, start: 0, end: 2 }] + spec_segments_from(buf, 2)
    }
}

/// Lists the segments of a marker stream in the order of the stream: each
/// with its marker code and the range of bytes that it takes. The list stops
/// behind the scan header, or before the place where
/// `parse_jpeg_header_info` fails.
pub fn list_segments(buf: &[u8]) -> (r: Vec<Segment>)
    ensures
        r@ == spec_segments(buf@),
{
    let mut out: Vec<Segment> = Vec::new();
    if buf.len() < 2 || buf[0] != 0xFF || buf[1] != MARKER_SOI {
        return out;
    }
    out.push(Segment { marker: MARKER_SOI, start: 0, end: 2 });
    let mut i: usize = 2;
    loop
        invariant
            2 <= i <= buf@.len(),
            out@ + spec_segments_from(buf@, i as int) == spec_segments(buf@),
        decreases buf@.len() - i,
    {
        let ghost before = out@;
        if buf.len() - i <= 1 || buf[i] != 0xFF {
            assert(out@ + Seq::<Segment>::empty() =~= out@);
            return out;
        }
        let m: usize = skip_fill(buf, i + 1);
        if m >= buf.len() {
            assert(out@ + Seq::<Segment>::empty() =~= out@);
            return out;
        }
        let marker: u8 = buf[m];
        let p: usize = m + 1;
        if marker == MARKER_SOI || marker == MARKER_TEM || (MARKER_RST0 <= marker && marker
            <= MARKER_RST7) {
            out.push(Segment { marker, start: i, end: p });
            assert(out@ + spec_segments_from(buf@, p as int) =~= before + spec_segments_from(
                buf@,
                i as int,
            ));
            i = p;
            continue ;
        }
        if marker == MARKER_EOI || buf.len() - p < 2 {
            assert(out@ + Seq::<Segment>::empty() =~= out@);
            return out;
        }
        let l: usize = (buf[p] as usize) * 256 + (buf[p + 1] as usize);
        if l < 2 || l > buf.len() - p {
            assert(out@ + Seq::<Segment>::empty() =~= out@);
            return out;
        }
        if marker == MARKER_SOS {
            out.push(Segment { marker, start: i, end: p + l });
            assert(out@ =~= before + spec_segments_from(buf@, i as int));
            return out;
        }
        if (marker == MARKER_SOF0 || marker == MARKER_SOF2) && (l < 8 || buf[p + 2] != 8) {
            assert(out@ + Seq::<Segment>::empty() =~= out@);
            return out;
        }
        out.push(Segment { marker, start: i, end: p + l });
        assert(out@ + spec_segments_from(buf@, (p + l) as int) =~= before + spec_segments_from(
            buf@,
            i as int,
        ));
        i = p + l;
    }
}

} // verus!
